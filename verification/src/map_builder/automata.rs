//! Cellular automata: random noise that a smoothing rule turns into caves.

use vstd::prelude::*;
use bracket_lib::prelude::RandomNumberGenerator;
use crate::geometry::{spec_distance_squared, Point};
use crate::distance_field::{
    is_most_distant, lemma_neighbor_symmetric, neighbor, spec_field, spec_neighbor, spec_opposite,
    UNREACHABLE,
};
use crate::map::{
    map_idx, spec_in_bounds, spec_map_idx, spec_point_of, Grid, TileType,
};
use crate::map_builder::themes::Theme;
use crate::map_builder::{
    count_spawnable, spec_goal_farthest, spec_reachable_from, spec_spawnable, spec_spawns_drawn,
    LevelError, MapBuilder, GENERATION_DEPTH, NUM_MONSTERS,
};
use crate::random;
use crate::{NUM_TILES, SCREEN_HEIGHT, SCREEN_WIDTH};

verus! {

/// The number of times the smoothing rule is applied.
pub const GENERATIONS: usize = 10;

/// Grows caves out of random noise.
pub struct CellularAutomataArchitect {}

/// Whether `(x, y)` lies on the grid and not on its rim.
pub open spec fn spec_interior(x: int, y: int) -> bool {
    1 <= x < SCREEN_WIDTH - 1 && 1 <= y < SCREEN_HEIGHT - 1
}

/// 1 where the tile at `(x, y)` is a wall, plain or decorated, else 0.
pub open spec fn spec_wall_at(tiles: Seq<TileType>, x: int, y: int) -> nat {
    if tiles[spec_map_idx(x, y)].spec_opaque() {
        1
    } else {
        0
    }
}

/// The number of walls among the eight tiles around `(x, y)`.
pub open spec fn spec_count_neighbors(tiles: Seq<TileType>, x: int, y: int) -> nat {
    spec_wall_at(tiles, x - 1, y - 1) + spec_wall_at(tiles, x, y - 1) + spec_wall_at(
        tiles,
        x + 1,
        y - 1,
    ) + spec_wall_at(tiles, x - 1, y) + spec_wall_at(tiles, x + 1, y) + spec_wall_at(
        tiles,
        x - 1,
        y + 1,
    ) + spec_wall_at(tiles, x, y + 1) + spec_wall_at(tiles, x + 1, y + 1)
}

/// The tile with index `i` after one round of smoothing: off the rim, a wall
/// where more than four or none of the tiles around it are walls, and plain
/// floor otherwise. The rim stays as it is.
pub open spec fn spec_smoothed(tiles: Seq<TileType>, i: int) -> TileType {
    let p = spec_point_of(i);
    if spec_interior(p.x as int, p.y as int) {
        let n = spec_count_neighbors(tiles, p.x as int, p.y as int);
        if n > 4 || n == 0 {
            TileType::Wall
        } else {
            TileType::Floor
        }
    } else {
        tiles[i]
    }
}

/// The middle of the grid.
pub open spec fn spec_grid_center() -> Point {
    Point { x: 40, y: 25 }
}

/// Whether tile `i` is the plain floor nearest the middle of the grid, the
/// first in the order of the tiles among equals.
pub open spec fn is_nearest_floor(tiles: Seq<TileType>, i: int) -> bool {
    &&& 0 <= i < NUM_TILES
    &&& tiles[i] == TileType::Floor
    &&& forall|j: int|
        0 <= j < NUM_TILES && #[trigger] tiles[j] == TileType::Floor ==> spec_distance_squared(
            spec_grid_center(),
            spec_point_of(i),
        ) <= spec_distance_squared(spec_grid_center(), spec_point_of(j))
    &&& forall|j: int|
        0 <= j < i && #[trigger] tiles[j] == TileType::Floor ==> spec_distance_squared(
            spec_grid_center(),
            spec_point_of(i),
        ) < spec_distance_squared(spec_grid_center(), spec_point_of(j))
}

/// Whether `tile` is floor, plain or decorated.
pub open spec fn spec_floor_class(tile: TileType) -> bool {
    tile == TileType::Floor || tile == TileType::Floor2 || tile == TileType::Floor3
}

/// Whether `after` is `before` with some floor redecorated and nothing else
/// touched.
pub open spec fn only_redecorated(before: Seq<TileType>, after: Seq<TileType>) -> bool {
    &&& before.len() == after.len()
    &&& forall|i: int|
        0 <= i < before.len() ==> if spec_floor_class(before[i]) {
            spec_floor_class(#[trigger] after[i])
        } else {
            after[i] == before[i]
        }
}

/// What a tile becomes when `decoration`, a kind of floor, is strewn on the
/// roll `roll` of a die of fifteen sides: floor is decorated on a roll of 0,
/// and nothing else changes.
pub open spec fn spec_sprinkled(tile: TileType, roll: int, decoration: TileType) -> TileType {
    if roll < 1 && spec_floor_class(tile) {
        decoration
    } else {
        tile
    }
}

/// The grid after `decoration` has been strewn, tile `i` on the roll
/// `rolls[i]`.
pub open spec fn spec_strewn(tiles: Seq<TileType>, rolls: Seq<int>, decoration: TileType) -> Seq<
    TileType,
> {
    Seq::new(NUM_TILES as nat, |i: int| spec_sprinkled(tiles[i], rolls[i], decoration))
}

/// Whether these are the rolls of a die of fifteen sides, one for each
/// tile.
pub open spec fn are_rolls(rolls: Seq<int>) -> bool {
    &&& rolls.len() == NUM_TILES
    &&& forall|i: int| 0 <= i < NUM_TILES ==> 0 <= #[trigger] rolls[i] < 15
}

/// Whether grass spreads onto tile `j` from its neighbour in direction
/// `d`: that neighbour lies off the rim of the grid and bears grass.
pub open spec fn spec_grass_from(tiles: Seq<TileType>, j: int, d: int) -> bool {
    match spec_neighbor(j, d) {
        Some(i) => spec_interior(spec_point_of(i).x as int, spec_point_of(i).y as int) && tiles[i]
            == TileType::Floor2,
        None => false,
    }
}

/// Whether grass spreads onto tile `j`: it is plain floor next to grass.
pub open spec fn spec_grass_spreads(tiles: Seq<TileType>, j: int) -> bool {
    tiles[j] == TileType::Floor && (spec_grass_from(tiles, j, 0) || spec_grass_from(tiles, j, 1)
        || spec_grass_from(tiles, j, 2) || spec_grass_from(tiles, j, 3))
}

/// Tile `j` after the grass has spread one step.
pub open spec fn spec_grown_tile(tiles: Seq<TileType>, j: int) -> TileType {
    if spec_grass_spreads(tiles, j) {
        TileType::Floor2
    } else {
        tiles[j]
    }
}

/// The grid after the grass has spread one step, every tile judged by the
/// grid as it was before.
pub open spec fn spec_grown(tiles: Seq<TileType>) -> Seq<TileType> {
    Seq::new(NUM_TILES as nat, |j: int| spec_grown_tile(tiles, j))
}

/// Whether `after` is `before` with grass strewn on the rolls `grass`, the
/// grass spread one step, and mushrooms strewn on the rolls `mushrooms`.
pub open spec fn is_sprinkled(
    before: Seq<TileType>,
    after: Seq<TileType>,
    grass: Seq<int>,
    mushrooms: Seq<int>,
) -> bool {
    &&& are_rolls(grass)
    &&& are_rolls(mushrooms)
    &&& after == spec_strewn(
        spec_grown(spec_strewn(before, grass, TileType::Floor2)),
        mushrooms,
        TileType::Floor3,
    )
}

/// What a tile of noise is on the roll `roll` of a die of a hundred sides:
/// plain floor on a roll above 55, and a wall otherwise.
pub open spec fn spec_noise_tile(roll: int) -> TileType {
    if roll > 55 {
        TileType::Floor
    } else {
        TileType::Wall
    }
}

/// Whether `tiles` is the noise of the rolls `rolls`, one for each tile.
pub open spec fn is_noise(tiles: Seq<TileType>, rolls: Seq<int>) -> bool {
    &&& tiles.len() == NUM_TILES
    &&& rolls.len() == NUM_TILES
    &&& forall|i: int| 0 <= i < NUM_TILES ==> 0 <= #[trigger] rolls[i] < 100
    &&& forall|i: int| 0 <= i < NUM_TILES ==> #[trigger] tiles[i] == spec_noise_tile(rolls[i])
}

/// The grid after `n` rounds of smoothing.
pub open spec fn spec_generations(tiles: Seq<TileType>, n: nat) -> Seq<TileType>
    decreases n,
{
    if n == 0 {
        tiles
    } else {
        Seq::new(
            NUM_TILES as nat,
            |i: int| spec_smoothed(spec_generations(tiles, (n - 1) as nat), i),
        )
    }
}

/// Whether `mb` is the smoothed grid `smooth` furnished: the player starts
/// on the plain floor nearest the middle, the places to spawn at were drawn
/// from the smoothed grid, the grid is the smoothed one sprinkled, and the
/// goal is the tile farthest from the start.
pub open spec fn spec_furnished(smooth: Seq<TileType>, mb: MapBuilder) -> bool {
    &&& mb.map.wf()
    &&& spec_in_bounds(mb.player_start)
    &&& is_nearest_floor(smooth, spec_map_idx(mb.player_start.x as int, mb.player_start.y as int))
    &&& spec_spawns_drawn(smooth, mb.player_start, mb.monster_spawns@)
    &&& mb.guaranteed_monster_spawns@.len() == 0
    &&& exists|grass: Seq<int>, mushrooms: Seq<int>|
        is_sprinkled(smooth, mb.map.tiles@, grass, mushrooms)
    &&& spec_goal_farthest(mb.map.tiles@, mb.player_start, mb.teleportation_crystal_start)
    &&& mb.theme == Theme::Dungeon
}

/// Whether `r` is what becomes of the noise `noise`: smoothed `GENERATIONS`
/// times, it is furnished, and there is no level exactly where smoothing
/// leaves no plain floor.
pub open spec fn is_cave_level(noise: Seq<TileType>, r: Result<MapBuilder, LevelError>) -> bool {
    let smooth = spec_generations(noise, GENERATIONS as nat);
    match r {
        Ok(mb) => spec_furnished(smooth, mb),
        Err(e) => e == LevelError::NoFloor && forall|i: int|
            0 <= i < NUM_TILES ==> smooth[i] != TileType::Floor,
    }
}

/// Two cave levels that come of the same noise and are sprinkled on the
/// same rolls have the same grid, the same start and the same goal: what
/// chance draws decides the level, and nothing else does.
pub proof fn lemma_caves_determined(
    noise: Seq<TileType>,
    grass: Seq<int>,
    mushrooms: Seq<int>,
    a: MapBuilder,
    b: MapBuilder,
)
    requires
        is_cave_level(noise, Ok(a)),
        is_cave_level(noise, Ok(b)),
        is_sprinkled(spec_generations(noise, GENERATIONS as nat), a.map.tiles@, grass, mushrooms),
        is_sprinkled(spec_generations(noise, GENERATIONS as nat), b.map.tiles@, grass, mushrooms),
    ensures
        a.map.tiles@ == b.map.tiles@,
        a.player_start == b.player_start,
        a.teleportation_crystal_start == b.teleportation_crystal_start,
        a.monster_spawns@.len() == b.monster_spawns@.len(),
{
    let smooth = spec_generations(noise, GENERATIONS as nat);
    let i = spec_map_idx(a.player_start.x as int, a.player_start.y as int);
    let j = spec_map_idx(b.player_start.x as int, b.player_start.y as int);
    assert(i == j) by {
        if i < j {
            assert(smooth[i] == TileType::Floor);
        }
        if j < i {
            assert(smooth[j] == TileType::Floor);
        }
    }
    assert(spec_point_of(i) == a.player_start);
    assert(spec_point_of(j) == b.player_start);
    let f = spec_field(a.map.tiles@, seq![i as usize], GENERATION_DEPTH);
    let g = spec_map_idx(
        a.teleportation_crystal_start.x as int,
        a.teleportation_crystal_start.y as int,
    );
    let h = spec_map_idx(
        b.teleportation_crystal_start.x as int,
        b.teleportation_crystal_start.y as int,
    );
    assert(is_most_distant(f, g));
    assert(is_most_distant(f, h));
    assert(g == h) by {
        if g < h {
            assert(f[g] != UNREACHABLE);
        }
        if h < g {
            assert(f[h] != UNREACHABLE);
        }
    }
    assert(spec_point_of(g) == a.teleportation_crystal_start);
    assert(spec_point_of(h) == b.teleportation_crystal_start);
}

/// What a tile of noise is on the roll `roll`.
pub fn noise_tile(roll: i32) -> (r: TileType)
    ensures
        r == spec_noise_tile(roll as int),
{
    if roll > 55 {
        TileType::Floor
    } else {
        TileType::Wall
    }
}

/// What a tile becomes when `decoration` is strewn on the roll `roll`.
pub fn sprinkled(tile: TileType, roll: i32, decoration: TileType) -> (r: TileType)
    ensures
        r == spec_sprinkled(tile, roll as int, decoration),
{
    if roll < 1 && floor_class(tile) {
        decoration
    } else {
        tile
    }
}

/// Whether `after` is `before` with `decoration` strewn on the rolls
/// `rolls`.
pub open spec fn is_strewn(
    before: Seq<TileType>,
    after: Seq<TileType>,
    rolls: Seq<int>,
    decoration: TileType,
) -> bool {
    are_rolls(rolls) && after == spec_strewn(before, rolls, decoration)
}

/// Strews `decoration` over the grid: a die of fifteen sides is rolled for
/// every tile, and the tile becomes what `sprinkled` makes of it.
pub fn strew(rng: &mut RandomNumberGenerator, map: &mut Grid, decoration: TileType)
    requires
        old(map).wf(),
    ensures
        final(map).wf(),
        final(map).revealed_tiles == old(map).revealed_tiles,
        exists|rolls: Seq<int>| is_strewn(old(map).tiles@, final(map).tiles@, rolls, decoration),
{
    let ghost mut rolls: Seq<int> = Seq::empty();
    let mut i: usize = 0;
    while i < NUM_TILES
        invariant
            i <= NUM_TILES,
            map.wf(),
            map.revealed_tiles == old(map).revealed_tiles,
            rolls.len() == i,
            forall|j: int| 0 <= j < i ==> 0 <= #[trigger] rolls[j] < 15,
            forall|j: int|
                0 <= j < i ==> #[trigger] map.tiles@[j] == spec_sprinkled(
                    old(map).tiles@[j],
                    rolls[j],
                    decoration,
                ),
            forall|j: int| i <= j < NUM_TILES ==> #[trigger] map.tiles@[j] == old(map).tiles@[j],
        decreases NUM_TILES - i,
    {
        let roll = random::range(rng, 0, 15);
        map.tiles.set(i, sprinkled(map.tiles[i], roll, decoration));
        proof {
            rolls = rolls.push(roll as int);
        }
        i += 1;
    }
    assert(map.tiles@ =~= spec_strewn(old(map).tiles@, rolls, decoration));
    assert(is_strewn(old(map).tiles@, map.tiles@, rolls, decoration));
}

/// Lets the grass spread one step: every tile of plain floor next to a
/// tile of grass that lies off the rim becomes grass. Grass that has just
/// spread spreads no further.
pub fn grow_grass(map: &mut Grid)
    requires
        old(map).wf(),
    ensures
        final(map).wf(),
        final(map).revealed_tiles == old(map).revealed_tiles,
        final(map).tiles@ == spec_grown(old(map).tiles@),
{
    let ghost tiles = map.tiles@;
    let mut points_to_grow_grass: Vec<usize> = Vec::new();
    let mut i: usize = 0;
    while i < NUM_TILES
        invariant
            i <= NUM_TILES,
            map.wf(),
            map.tiles@ == tiles,
            map.revealed_tiles == old(map).revealed_tiles,
            forall|k: int|
                0 <= k < points_to_grow_grass@.len() ==> #[trigger] points_to_grow_grass@[k]
                    < NUM_TILES && spec_grass_spreads(tiles, points_to_grow_grass@[k] as int),
            forall|from: int, d: int|
                0 <= from < i && 0 <= d < 4 && spec_grass_from(
                    tiles,
                    (#[trigger] spec_neighbor(from, d)).unwrap(),
                    spec_opposite(d),
                ) && spec_neighbor(from, d) is Some && tiles[spec_neighbor(from, d).unwrap()]
                    == TileType::Floor && spec_interior(
                    spec_point_of(from).x as int,
                    spec_point_of(from).y as int,
                ) && tiles[from] == TileType::Floor2 ==> points_to_grow_grass@.contains(
                    spec_neighbor(from, d).unwrap() as usize,
                ),
        decreases NUM_TILES - i,
    {
        let p = map.index_to_point2d(i);
        if 1 <= p.x && p.x < SCREEN_WIDTH - 1 && 1 <= p.y && p.y < SCREEN_HEIGHT - 1
            && map.tiles[i] == TileType::Floor2 {
            let mut d: u8 = 0;
            while d < 4
                invariant
                    d <= 4,
                    i < NUM_TILES,
                    map.wf(),
                    map.tiles@ == tiles,
                    map.revealed_tiles == old(map).revealed_tiles,
                    spec_interior(spec_point_of(i as int).x as int, spec_point_of(i as int).y as int),
                    tiles[i as int] == TileType::Floor2,
                    forall|k: int|
                        0 <= k < points_to_grow_grass@.len() ==> #[trigger] points_to_grow_grass@[k]
                            < NUM_TILES && spec_grass_spreads(
                            tiles,
                            points_to_grow_grass@[k] as int,
                        ),
                    forall|from: int, e: int|
                        (0 <= from < i && 0 <= e < 4 || from == i && 0 <= e < d) && spec_grass_from(
                            tiles,
                            (#[trigger] spec_neighbor(from, e)).unwrap(),
                            spec_opposite(e),
                        ) && spec_neighbor(from, e) is Some && tiles[spec_neighbor(
                            from,
                            e,
                        ).unwrap()] == TileType::Floor && spec_interior(
                            spec_point_of(from).x as int,
                            spec_point_of(from).y as int,
                        ) && tiles[from] == TileType::Floor2 ==> points_to_grow_grass@.contains(
                            spec_neighbor(from, e).unwrap() as usize,
                        ),
                decreases 4 - d,
            {
                let ghost before = points_to_grow_grass@;
                match neighbor(i, d) {
                    Some(j) => {
                        if map.tiles[j] == TileType::Floor {
                            points_to_grow_grass.push(j);
                            proof {
                                lemma_neighbor_symmetric(i as int, d as int);
                                assert(spec_grass_from(tiles, j as int, spec_opposite(d as int)));
                                assert(points_to_grow_grass@[before.len() as int] == j);
                            }
                        }
                    },
                    None => {},
                }
                proof {
                    assert forall|from: int, e: int|
                        (0 <= from < i && 0 <= e < 4 || from == i && 0 <= e < d + 1)
                            && spec_grass_from(
                            tiles,
                            (#[trigger] spec_neighbor(from, e)).unwrap(),
                            spec_opposite(e),
                        ) && spec_neighbor(from, e) is Some && tiles[spec_neighbor(
                            from,
                            e,
                        ).unwrap()] == TileType::Floor && spec_interior(
                            spec_point_of(from).x as int,
                            spec_point_of(from).y as int,
                        ) && tiles[from] == TileType::Floor2 implies points_to_grow_grass@.contains(
                        spec_neighbor(from, e).unwrap() as usize,
                    ) by {
                        let j = spec_neighbor(from, e).unwrap() as usize;
                        if from == i && e == d {
                            assert(points_to_grow_grass@[before.len() as int] == j);
                        } else {
                            assert(before.contains(j));
                            let k = choose|k: int| 0 <= k < before.len() && before[k] == j;
                            assert(points_to_grow_grass@[k] == j);
                        }
                    }
                }
                d += 1;
            }
        }
        i += 1;
    }
    proof {
        assert forall|j: int| 0 <= j < NUM_TILES && spec_grass_spreads(
            tiles,
            j,
        ) implies points_to_grow_grass@.contains(j as usize) by {
            let d = if spec_grass_from(tiles, j, 0) {
                0int
            } else if spec_grass_from(tiles, j, 1) {
                1int
            } else if spec_grass_from(tiles, j, 2) {
                2int
            } else {
                3int
            };
            assert(spec_grass_from(tiles, j, d));
            let from = spec_neighbor(j, d).unwrap();
            lemma_neighbor_symmetric(j, d);
            let e = spec_opposite(d);
            assert(spec_neighbor(from, e) == Some(j));
            assert(spec_opposite(e) == d);
        }
    }
    let mut k: usize = 0;
    while k < points_to_grow_grass.len()
        invariant
            k <= points_to_grow_grass@.len(),
            map.wf(),
            map.revealed_tiles == old(map).revealed_tiles,
            tiles == old(map).tiles@,
            forall|n: int|
                0 <= n < points_to_grow_grass@.len() ==> #[trigger] points_to_grow_grass@[n]
                    < NUM_TILES && spec_grass_spreads(tiles, points_to_grow_grass@[n] as int),
            forall|n: int|
                0 <= n < k ==> map.tiles@[#[trigger] points_to_grow_grass@[n] as int]
                    == TileType::Floor2,
            forall|j: int|
                0 <= j < NUM_TILES ==> #[trigger] map.tiles@[j] == tiles[j] || (map.tiles@[j]
                    == TileType::Floor2 && spec_grass_spreads(tiles, j)),
        decreases points_to_grow_grass@.len() - k,
    {
        let j = points_to_grow_grass[k];
        map.tiles.set(j, TileType::Floor2);
        k += 1;
    }
    proof {
        assert forall|j: int| 0 <= j < NUM_TILES implies map.tiles@[j] == spec_grown_tile(
            tiles,
            j,
        ) by {
            if spec_grass_spreads(tiles, j) {
                let n = choose|n: int|
                    0 <= n < points_to_grow_grass@.len() && points_to_grow_grass@[n] == j as usize;
                assert(map.tiles@[points_to_grow_grass@[n] as int] == TileType::Floor2);
            }
        }
        assert(map.tiles@ =~= spec_grown(tiles));
    }
}

fn floor_class(tile: TileType) -> (b: bool)
    ensures
        b == spec_floor_class(tile),
{
    match tile {
        TileType::Floor | TileType::Floor2 | TileType::Floor3 => true,
        TileType::Wall | TileType::Wall2 | TileType::Exit => false,
    }
}

fn wall_at(map: &Grid, x: i32, y: i32) -> (n: usize)
    requires
        map.wf(),
        spec_in_bounds(Point { x, y }),
    ensures
        n == spec_wall_at(map.tiles@, x as int, y as int),
{
    if map.tiles[map_idx(x, y)].is_opaque() {
        1
    } else {
        0
    }
}

impl CellularAutomataArchitect {
    /// Makes every tile a wall or plain floor by chance, walls somewhat more
    /// often: a die of a hundred sides is rolled for every tile, and the tile
    /// becomes what `noise_tile` makes of the roll.
    pub fn random_noise_map(&self, rng: &mut RandomNumberGenerator, map: &mut Grid)
        requires
            old(map).wf(),
        ensures
            final(map).wf(),
            final(map).revealed_tiles == old(map).revealed_tiles,
            exists|rolls: Seq<int>| is_noise(final(map).tiles@, rolls),
            forall|i: int|
                0 <= i < NUM_TILES ==> #[trigger] final(map).tiles@[i] == TileType::Floor || final(map).tiles@[i] == TileType::Wall,
    {
        let ghost mut rolls: Seq<int> = Seq::empty();
        let mut i: usize = 0;
        while i < NUM_TILES
            invariant
                i <= NUM_TILES,
                map.wf(),
                map.revealed_tiles == old(map).revealed_tiles,
                rolls.len() == i,
                forall|j: int| 0 <= j < i ==> 0 <= #[trigger] rolls[j] < 100,
                forall|j: int| 0 <= j < i ==> #[trigger] map.tiles@[j] == spec_noise_tile(rolls[j]),
            decreases NUM_TILES - i,
        {
            let roll = random::range(rng, 0, 100);
            map.tiles.set(i, noise_tile(roll));
            proof {
                rolls = rolls.push(roll as int);
            }
            i += 1;
        }
        assert(is_noise(map.tiles@, rolls));
    }

    /// The number of walls among the eight tiles around `(x, y)`, a tile off
    /// the rim of the grid.
    pub fn count_neighbors(&self, x: i32, y: i32, map: &Grid) -> (neighbors: usize)
        requires
            map.wf(),
            spec_interior(x as int, y as int),
        ensures
            neighbors == spec_count_neighbors(map.tiles@, x as int, y as int),
    {
        wall_at(map, x - 1, y - 1) + wall_at(map, x, y - 1) + wall_at(map, x + 1, y - 1) + wall_at(
            map,
            x - 1,
            y,
        ) + wall_at(map, x + 1, y) + wall_at(map, x - 1, y + 1) + wall_at(map, x, y + 1) + wall_at(
            map,
            x + 1,
            y + 1,
        )
    }

    /// One round of smoothing, every tile judged by the grid as it was
    /// before the round.
    pub fn iteration(&self, map: &mut Grid)
        requires
            old(map).wf(),
        ensures
            final(map).wf(),
            final(map).revealed_tiles == old(map).revealed_tiles,
            forall|i: int|
                0 <= i < NUM_TILES ==> #[trigger] final(map).tiles@[i] == spec_smoothed(
                    old(map).tiles@,
                    i,
                ),
    {
        let mut new_tiles: Vec<TileType> = Vec::new();
        let mut i: usize = 0;
        while i < NUM_TILES
            invariant
                i <= NUM_TILES,
                map.wf(),
                map.tiles == old(map).tiles,
                map.revealed_tiles == old(map).revealed_tiles,
                new_tiles@.len() == i,
                forall|j: int| 0 <= j < i ==> #[trigger] new_tiles@[j] == spec_smoothed(map.tiles@, j),
            decreases NUM_TILES - i,
        {
            let p = map.index_to_point2d(i);
            if 1 <= p.x && p.x < SCREEN_WIDTH - 1 && 1 <= p.y && p.y < SCREEN_HEIGHT - 1 {
                let neighbors = self.count_neighbors(p.x, p.y, map);
                if neighbors > 4 || neighbors == 0 {
                    new_tiles.push(TileType::Wall);
                } else {
                    new_tiles.push(TileType::Floor);
                }
            } else {
                new_tiles.push(map.tiles[i]);
            }
            i += 1;
        }
        map.tiles = new_tiles;
    }

    /// The plain floor nearest the middle of the grid; none where the grid
    /// has no plain floor.
    pub fn find_start(&self, map: &Grid) -> (start: Option<Point>)
        requires
            map.wf(),
        ensures
            match start {
                Some(p) => spec_in_bounds(p) && is_nearest_floor(
                    map.tiles@,
                    spec_map_idx(p.x as int, p.y as int),
                ),
                None => forall|i: int| 0 <= i < NUM_TILES ==> map.tiles@[i] != TileType::Floor,
            },
    {
        let center = Point::new(SCREEN_WIDTH / 2, SCREEN_HEIGHT / 2);
        let mut best: Option<(usize, u128)> = None;
        let mut i: usize = 0;
        while i < NUM_TILES
            invariant
                i <= NUM_TILES,
                map.wf(),
                center == spec_grid_center(),
                match best {
                    Some((b, d)) => {
                        &&& b < i
                        &&& map.tiles@[b as int] == TileType::Floor
                        &&& d == spec_distance_squared(center, spec_point_of(b as int))
                        &&& forall|j: int|
                            0 <= j < i && #[trigger] map.tiles@[j] == TileType::Floor ==> d
                                <= spec_distance_squared(center, spec_point_of(j))
                        &&& forall|j: int|
                            0 <= j < b && #[trigger] map.tiles@[j] == TileType::Floor ==> d
                                < spec_distance_squared(center, spec_point_of(j))
                    },
                    None => forall|j: int| 0 <= j < i ==> map.tiles@[j] != TileType::Floor,
                },
            decreases NUM_TILES - i,
        {
            if map.tiles[i] == TileType::Floor {
                let d = center.distance_squared(map.index_to_point2d(i));
                let nearer = match best {
                    Some((_, least)) => d < least,
                    None => true,
                };
                if nearer {
                    best = Some((i, d));
                }
            }
            i += 1;
        }
        match best {
            Some((b, _)) => Some(map.index_to_point2d(b)),
            None => None,
        }
    }

    /// Strews decorations over the floor: a sprinkle of grass, which then
    /// spreads one step onto the plain floor next to it, and a sprinkle of
    /// mushrooms. A die of fifteen sides is rolled for every tile, once for
    /// the grass and once for the mushrooms. Walls and exits are left alone.
    pub fn sprinkle_details(&self, rng: &mut RandomNumberGenerator, map: &mut Grid)
        requires
            old(map).wf(),
        ensures
            final(map).wf(),
            final(map).revealed_tiles == old(map).revealed_tiles,
            exists|grass: Seq<int>, mushrooms: Seq<int>|
                is_sprinkled(old(map).tiles@, final(map).tiles@, grass, mushrooms),
            only_redecorated(old(map).tiles@, final(map).tiles@),
    {
        strew(rng, map, TileType::Floor2);
        let ghost sown_tiles = map.tiles@;
        grow_grass(map);
        let ghost grown_tiles = map.tiles@;
        strew(rng, map, TileType::Floor3);
        proof {
            let grass = choose|rolls: Seq<int>|
                is_strewn(old(map).tiles@, sown_tiles, rolls, TileType::Floor2);
            let mushrooms = choose|rolls: Seq<int>|
                is_strewn(grown_tiles, map.tiles@, rolls, TileType::Floor3);
            let sown = spec_strewn(old(map).tiles@, grass, TileType::Floor2);
            let grown = spec_grown(sown);
            assert(is_sprinkled(old(map).tiles@, map.tiles@, grass, mushrooms));
            assert forall|i: int| 0 <= i < NUM_TILES implies if spec_floor_class(
                old(map).tiles@[i],
            ) {
                spec_floor_class(#[trigger] map.tiles@[i])
            } else {
                map.tiles@[i] == old(map).tiles@[i]
            } by {
                assert(sown[i] == spec_sprinkled(old(map).tiles@[i], grass[i], TileType::Floor2));
                assert(grown[i] == spec_grown_tile(sown, i));
            }
        }
    }

    /// Furnishes a smoothed grid: the player starts on the plain floor
    /// nearest the middle of the grid, places to spawn at are drawn, the floor
    /// is decorated, and the tile farthest from the start becomes the goal.
    /// There is no level exactly where the grid has no plain floor.
    pub fn furnish(&self, map: Grid, rng: &mut RandomNumberGenerator) -> (r: Result<
        MapBuilder,
        LevelError,
    >)
        requires
            map.wf(),
        ensures
            r is Err <==> forall|i: int| 0 <= i < NUM_TILES ==> map.tiles@[i] != TileType::Floor,
            match r {
                Ok(mb) => {
                    &&& spec_furnished(map.tiles@, mb)
                    &&& mb.map.wf()
                    &&& mb.map.revealed_tiles == map.revealed_tiles
                    &&& only_redecorated(map.tiles@, mb.map.tiles@)
                    &&& is_nearest_floor(
                        map.tiles@,
                        spec_map_idx(mb.player_start.x as int, mb.player_start.y as int),
                    )
                    &&& mb.map.spec_can_enter_tile(mb.player_start)
                    &&& spec_reachable_from(
                        mb.map.tiles@,
                        mb.player_start,
                        mb.teleportation_crystal_start,
                    )
                    &&& mb.guaranteed_monster_spawns@.len() == 0
                    &&& forall|k: int|
                        0 <= k < mb.monster_spawns@.len() ==> mb.map.spec_can_enter_tile(
                            #[trigger] mb.monster_spawns@[k],
                        )
                    &&& mb.monster_spawns@.len() == if count_spawnable(
                        map.tiles@,
                        mb.player_start,
                        NUM_TILES as nat,
                    ) < NUM_MONSTERS {
                        count_spawnable(map.tiles@, mb.player_start, NUM_TILES as nat)
                    } else {
                        NUM_MONSTERS as nat
                    }
                    &&& forall|k: int|
                        0 <= k < mb.monster_spawns@.len() ==> spec_spawnable(
                            map.tiles@,
                            mb.player_start,
                            spec_map_idx(
                                (#[trigger] mb.monster_spawns@[k]).x as int,
                                mb.monster_spawns@[k].y as int,
                            ),
                        )
                    &&& forall|a: int, b: int|
                        0 <= a < b < mb.monster_spawns@.len() ==> #[trigger] mb.monster_spawns@[a]
                            != #[trigger] mb.monster_spawns@[b]
                    &&& mb.theme == Theme::Dungeon
                },
                Err(e) => e == LevelError::NoFloor,
            },
    {
        let mut mb = MapBuilder {
            map,
            monster_spawns: Vec::new(),
            guaranteed_monster_spawns: Vec::new(),
            player_start: Point::zero(),
            teleportation_crystal_start: Point::zero(),
            theme: Theme::Dungeon,
        };
        let start = match self.find_start(&mb.map) {
            Some(start) => start,
            None => {
                return Err(LevelError::NoFloor);
            },
        };
        mb.monster_spawns = mb.spawn_monsters(&start, rng);
        mb.player_start = start;
        let ghost smooth = mb.map.tiles@;
        self.sprinkle_details(rng, &mut mb.map);
        proof {
            assert forall|k: int| 0 <= k < mb.monster_spawns@.len() implies mb.map.spec_can_enter_tile(
                #[trigger] mb.monster_spawns@[k],
            ) by {
                let p = mb.monster_spawns@[k];
                assert(smooth[spec_map_idx(p.x as int, p.y as int)] == TileType::Floor);
            }
            assert(smooth[spec_map_idx(start.x as int, start.y as int)] == TileType::Floor);
        }
        let goal = mb.find_most_distant();
        mb.teleportation_crystal_start = goal.unwrap();
        assert(spec_furnished(smooth, mb));
        Ok(mb)
    }

    /// Builds a level of caves: random noise, smoothed `GENERATIONS` times
    /// and then furnished. Where smoothing leaves no floor at all there is
    /// no level.
    pub fn build(&mut self, rng: &mut RandomNumberGenerator) -> (r: Result<MapBuilder, LevelError>)
        ensures
            exists|noise: Seq<TileType>, rolls: Seq<int>|
                #[trigger] is_noise(noise, rolls) && is_cave_level(noise, r),
            match r {
                Ok(mb) => {
                    &&& mb.map.wf()
                    &&& mb.map.spec_can_enter_tile(mb.player_start)
                    &&& spec_reachable_from(
                        mb.map.tiles@,
                        mb.player_start,
                        mb.teleportation_crystal_start,
                    )
                    &&& mb.guaranteed_monster_spawns@.len() == 0
                    &&& forall|k: int|
                        0 <= k < mb.monster_spawns@.len() ==> mb.map.spec_can_enter_tile(
                            #[trigger] mb.monster_spawns@[k],
                        )
                    &&& mb.theme == Theme::Dungeon
                    &&& forall|i: int|
                        0 <= i < NUM_TILES ==> #[trigger] mb.map.tiles@[i] != TileType::Exit
                            && mb.map.tiles@[i] != TileType::Wall2
                    &&& forall|i: int| 0 <= i < NUM_TILES ==> !(#[trigger] mb.map.revealed_tiles@[i])
                },
                Err(e) => e == LevelError::NoFloor,
            },
    {
        let mut map = Grid::new();
        self.random_noise_map(rng, &mut map);
        let ghost noise = map.tiles@;
        let mut generation: usize = 0;
        while generation < GENERATIONS
            invariant
                generation <= GENERATIONS,
                map.wf(),
                map.tiles@ == spec_generations(noise, generation as nat),
                forall|i: int| 0 <= i < NUM_TILES ==> !(#[trigger] map.revealed_tiles@[i]),
                forall|i: int|
                    0 <= i < NUM_TILES ==> #[trigger] map.tiles@[i] == TileType::Floor
                        || map.tiles@[i] == TileType::Wall,
            decreases GENERATIONS - generation,
        {
            self.iteration(&mut map);
            assert(map.tiles@ =~= spec_generations(noise, (generation + 1) as nat));
            generation += 1;
        }
        let ghost smooth = map.tiles@;
        let r = self.furnish(map, rng);
        proof {
            let rolls = choose|rolls: Seq<int>| is_noise(noise, rolls);
            assert(is_noise(noise, rolls) && is_cave_level(noise, r));
            if r is Ok {
                let tiles = r->Ok_0.map.tiles@;
                assert forall|i: int| 0 <= i < NUM_TILES implies #[trigger] tiles[i]
                    != TileType::Exit && tiles[i] != TileType::Wall2 by {
                    assert(smooth[i] == TileType::Floor || smooth[i] == TileType::Wall);
                }
            }
        }
        r
    }
}

} // verus!
