//! The drunkard's walk: tunnels dug by walkers that stagger about at random.

use vstd::prelude::*;
use bracket_lib::prelude::RandomNumberGenerator;
use crate::distance_field::{
    is_walled_off, lemma_field_same_walkability, lemma_field_unique, lemma_neighbor_symmetric,
    lemma_source_is_zero, lemma_walled_off_field, spec_exit, spec_field, spec_neighbor,
    spec_step_toward_source, DistanceField, UNREACHABLE,
};
use crate::geometry::{spec_distance_squared, Point};
use crate::map::{
    only_carved, same_walkability, spec_in_bounds, spec_map_idx, spec_point_of, Grid, TileType,
};
use crate::map_builder::automata::spec_floor_class;
use crate::map_builder::themes::Theme;
use crate::map_builder::{
    spec_contiguous, spec_goal_farthest, spec_reachable_from, spec_spawns_drawn, MapBuilder,
    GENERATION_DEPTH, NUM_MONSTERS,
};
use crate::random;
use crate::{NUM_TILES, SCREEN_HEIGHT, SCREEN_WIDTH};

verus! {

/// The number of steps after which a walker gives up.
pub const STAGGER_DISTANCE: usize = 300;

/// The number of floor tiles that the strategy aims at: a third of the grid.
pub const DESIRED_FLOOR: usize = 1333;

/// The number of walkers after which the strategy settles for the floor it
/// has.
pub const MAX_WALKERS: usize = 4000;

/// Digs a level out of solid rock by random walks.
pub struct DrunkardsWalkArchitect {}

/// Whether `after` is `before` with some floor and some plain walls
/// redecorated and nothing else touched.
pub open spec fn only_adorned(before: Seq<TileType>, after: Seq<TileType>) -> bool {
    &&& before.len() == after.len()
    &&& forall|i: int|
        0 <= i < before.len() ==> if spec_floor_class(before[i]) {
            spec_floor_class(#[trigger] after[i])
        } else if before[i] == TileType::Wall {
            after[i] == TileType::Wall || after[i] == TileType::Wall2
        } else {
            after[i] == before[i]
        }
}

/// Where a step in the direction that a roll of 0 to 3 picks leads from
/// `p`: west, east, north, south.
pub open spec fn spec_stagger(p: Point, roll: int) -> Point {
    if roll == 0 {
        Point { x: (p.x - 1) as i32, y: p.y }
    } else if roll == 1 {
        Point { x: (p.x + 1) as i32, y: p.y }
    } else if roll == 2 {
        Point { x: p.x, y: (p.y - 1) as i32 }
    } else {
        Point { x: p.x, y: (p.y + 1) as i32 }
    }
}

/// Where a walker stands after `k` steps from `start`, step `j` taken in the
/// direction that `rolls[j]` picks.
pub open spec fn spec_walker_at(start: Point, rolls: Seq<int>, k: nat) -> Point
    decreases k,
{
    if k == 0 {
        start
    } else {
        spec_stagger(spec_walker_at(start, rolls, (k - 1) as nat), rolls[k - 1])
    }
}

/// Whether the walker stood on `p` before one of its first `n` steps.
pub open spec fn spec_trodden(start: Point, rolls: Seq<int>, n: nat, p: Point) -> bool
    decreases n,
{
    if n == 0 {
        false
    } else {
        spec_trodden(start, rolls, (n - 1) as nat, p) || spec_walker_at(
            start,
            rolls,
            (n - 1) as nat,
        ) == p
    }
}

/// Whether `rolls` tells a walk from `start` that turns `before` into
/// `after`: the walker stays on the grid until its last step, which is
/// the step off the grid or the last that it has the strength for, and
/// every tile that it stood on has become plain floor.
pub open spec fn is_walk(
    before: Seq<TileType>,
    after: Seq<TileType>,
    start: Point,
    rolls: Seq<int>,
) -> bool {
    &&& 1 <= rolls.len() <= STAGGER_DISTANCE + 1
    &&& forall|k: int| 0 <= k < rolls.len() ==> 0 <= #[trigger] rolls[k] < 4
    &&& forall|k: nat| k < rolls.len() ==> spec_in_bounds(#[trigger] spec_walker_at(start, rolls, k))
    &&& rolls.len() == STAGGER_DISTANCE + 1 || !spec_in_bounds(
        spec_walker_at(start, rolls, rolls.len()),
    )
    &&& after.len() == before.len()
    &&& forall|i: int|
        0 <= i < NUM_TILES ==> #[trigger] after[i] == if spec_trodden(
            start,
            rolls,
            rolls.len(),
            spec_point_of(i),
        ) {
            TileType::Floor
        } else {
            before[i]
        }
}

/// Where a walker stood does not depend on its later steps.
proof fn lemma_walker_prefix(start: Point, rolls: Seq<int>, longer: Seq<int>, k: nat)
    requires
        k <= rolls.len() <= longer.len(),
        forall|j: int| 0 <= j < k ==> rolls[j] == longer[j],
    ensures
        spec_walker_at(start, rolls, k) == spec_walker_at(start, longer, k),
    decreases k,
{
    if k > 0 {
        lemma_walker_prefix(start, rolls, longer, (k - 1) as nat);
    }
}

/// Which tiles a walker trod on does not depend on its later steps.
proof fn lemma_trodden_prefix(start: Point, rolls: Seq<int>, longer: Seq<int>, n: nat, p: Point)
    requires
        n <= rolls.len() <= longer.len(),
        forall|j: int| 0 <= j < n ==> rolls[j] == longer[j],
    ensures
        spec_trodden(start, rolls, n, p) == spec_trodden(start, longer, n, p),
    decreases n,
{
    if n > 0 {
        lemma_trodden_prefix(start, rolls, longer, (n - 1) as nat, p);
        lemma_walker_prefix(start, rolls, longer, (n - 1) as nat);
    }
}

/// A walker that has taken a step has trodden on its start.
proof fn lemma_start_trodden(start: Point, rolls: Seq<int>, n: nat)
    requires
        n >= 1,
    ensures
        spec_trodden(start, rolls, n, start),
    decreases n,
{
    if n > 1 {
        lemma_start_trodden(start, rolls, (n - 1) as nat);
    } else {
        assert(spec_walker_at(start, rolls, 0) == start);
    }
}

/// The cutoff of the distance field that the trodden paths follow.
pub const DECORATION_DEPTH: u32 = 2048;

/// Whether tile `p` lies on the path that is trodden from tile `current`
/// toward `start`: the path follows the steps down the field `f` and marks
/// every tile that it steps onto; it ends at `start`, or one tile short of
/// it, or where no step leads on.
pub open spec fn spec_on_path(
    tiles: Seq<TileType>,
    f: Seq<u32>,
    start: int,
    current: int,
    p: int,
) -> bool
    decreases f[current],
{
    if current == start {
        false
    } else {
        match spec_step_toward_source(tiles, f, current) {
            Some(destination) => if spec_distance_squared(
                spec_point_of(current),
                spec_point_of(start),
            ) <= 1 {
                false
            } else {
                destination == p || spec_on_path(tiles, f, start, destination, p)
            },
            None => false,
        }
    }
}

/// Whether tile `p` lies on the path from one of the first `n` targets that
/// lie on the grid.
pub open spec fn spec_on_paths(
    tiles: Seq<TileType>,
    f: Seq<u32>,
    start: int,
    targets: Seq<usize>,
    n: nat,
    p: int,
) -> bool
    decreases n,
{
    if n == 0 {
        false
    } else {
        spec_on_paths(tiles, f, start, targets, (n - 1) as nat, p) || (targets[n - 1] < NUM_TILES
            && spec_on_path(tiles, f, start, targets[n - 1] as int, p))
    }
}

/// What a tile on a path becomes: trodden floor, unless it is an exit.
pub open spec fn spec_tread(tile: TileType) -> TileType {
    if tile == TileType::Exit {
        tile
    } else {
        TileType::Floor2
    }
}

/// Tile `p` after the paths from the targets have been trodden.
pub open spec fn spec_trodden_tile(
    tiles: Seq<TileType>,
    f: Seq<u32>,
    start: int,
    targets: Seq<usize>,
    p: int,
) -> TileType {
    if spec_on_paths(tiles, f, start, targets, targets.len(), p) {
        spec_tread(tiles[p])
    } else {
        tiles[p]
    }
}

/// What a tile becomes when walls are decorated on the roll `roll` of a
/// die of ten sides: a plain wall is decorated on a roll above 5, and
/// nothing else changes.
pub open spec fn spec_wall_adorned(tile: TileType, roll: int) -> TileType {
    if tile == TileType::Wall && roll > 5 {
        TileType::Wall2
    } else {
        tile
    }
}

/// Whether these are the rolls of a die of ten sides, one for each tile.
pub open spec fn are_wall_rolls(rolls: Seq<int>) -> bool {
    &&& rolls.len() == NUM_TILES
    &&& forall|i: int| 0 <= i < NUM_TILES ==> 0 <= #[trigger] rolls[i] < 10
}

/// The grid after its walls have been decorated, tile `i` on the roll
/// `rolls[i]`.
pub open spec fn spec_adorned(tiles: Seq<TileType>, rolls: Seq<int>) -> Seq<TileType> {
    Seq::new(NUM_TILES as nat, |i: int| spec_wall_adorned(tiles[i], rolls[i]))
}

/// Whether `after` is `before` with the paths from the targets to `start`
/// trodden, along the distance field that flows from `start`, and the
/// walls then decorated on the rolls `rolls`.
pub open spec fn is_adorned(
    before: Seq<TileType>,
    after: Seq<TileType>,
    start: int,
    targets: Seq<usize>,
    rolls: Seq<int>,
) -> bool {
    &&& are_wall_rolls(rolls)
    &&& after == spec_adorned(
        Seq::new(
            NUM_TILES as nat,
            |p: int|
                spec_trodden_tile(
                    before,
                    spec_field(before, seq![start as usize], DECORATION_DEPTH),
                    start,
                    targets,
                    p,
                ),
        ),
        rolls,
    )
}

/// The step toward a source depends on the tiles only by which of them are
/// walkable.
pub proof fn lemma_step_same_walkability(
    before: Seq<TileType>,
    after: Seq<TileType>,
    f: Seq<u32>,
    i: int,
)
    requires
        before.len() == NUM_TILES,
        same_walkability(before, after),
    ensures
        spec_step_toward_source(before, f, i) == spec_step_toward_source(after, f, i),
{
    assert forall|d: int| 0 <= d < 4 implies spec_exit(before, i, d) == spec_exit(after, i, d) by {
        if spec_neighbor(i, d) is Some {
            lemma_neighbor_symmetric(i, d);
            let j = spec_neighbor(i, d).unwrap();
            assert(after[j].spec_walkable() == before[j].spec_walkable());
        }
    }
    assert(spec_exit(before, i, 0) == spec_exit(after, i, 0));
    assert(spec_exit(before, i, 1) == spec_exit(after, i, 1));
    assert(spec_exit(before, i, 2) == spec_exit(after, i, 2));
    assert(spec_exit(before, i, 3) == spec_exit(after, i, 3));
}

/// A trodden path depends on the tiles only by which of them are walkable.
pub proof fn lemma_path_same_walkability(
    before: Seq<TileType>,
    after: Seq<TileType>,
    f: Seq<u32>,
    start: int,
    current: int,
    p: int,
)
    requires
        before.len() == NUM_TILES,
        same_walkability(before, after),
    ensures
        spec_on_path(before, f, start, current, p) == spec_on_path(after, f, start, current, p),
    decreases f[current],
{
    lemma_step_same_walkability(before, after, f, current);
    if current != start {
        match spec_step_toward_source(before, f, current) {
            Some(destination) => {
                if spec_distance_squared(spec_point_of(current), spec_point_of(start)) > 1 {
                    lemma_path_same_walkability(before, after, f, start, destination, p);
                }
            },
            None => {},
        }
    }
}

/// A tile on a trodden path lies on the grid and is walkable.
pub proof fn lemma_path_walkable(
    tiles: Seq<TileType>,
    f: Seq<u32>,
    start: int,
    current: int,
    p: int,
)
    requires
        spec_on_path(tiles, f, start, current, p),
    ensures
        0 <= p < NUM_TILES,
        tiles[p].spec_walkable(),
    decreases f[current],
{
    let destination = spec_step_toward_source(tiles, f, current).unwrap();
    if destination == p {
        let d = if spec_exit(tiles, current, 0) == Some(p) {
            0int
        } else if spec_exit(tiles, current, 1) == Some(p) {
            1int
        } else if spec_exit(tiles, current, 2) == Some(p) {
            2int
        } else {
            3int
        };
        assert(spec_exit(tiles, current, d) == Some(p));
        lemma_neighbor_symmetric(current, d);
    } else {
        lemma_path_walkable(tiles, f, start, destination, p);
    }
}

/// A tile on one of the trodden paths lies on the grid and is walkable.
pub proof fn lemma_paths_walkable(
    tiles: Seq<TileType>,
    f: Seq<u32>,
    start: int,
    targets: Seq<usize>,
    n: nat,
    p: int,
)
    requires
        spec_on_paths(tiles, f, start, targets, n, p),
    ensures
        0 <= p < NUM_TILES,
        tiles[p].spec_walkable(),
    decreases n,
{
    if n > 0 {
        if spec_on_paths(tiles, f, start, targets, (n - 1) as nat, p) {
            lemma_paths_walkable(tiles, f, start, targets, (n - 1) as nat, p);
        } else {
            lemma_path_walkable(tiles, f, start, targets[n - 1] as int, p);
        }
    }
}

/// Treads the path from `target` toward `start` along the field.
pub fn tread_path(map: &mut Grid, field: &DistanceField, start: usize, target: usize)
    requires
        old(map).wf(),
        field.wf(),
        start < NUM_TILES,
        target < NUM_TILES,
    ensures
        final(map).wf(),
        final(map).revealed_tiles == old(map).revealed_tiles,
        forall|p: int|
            0 <= p < NUM_TILES ==> #[trigger] final(map).tiles@[p] == if spec_on_path(
                old(map).tiles@,
                field.distances@,
                start as int,
                target as int,
                p,
            ) {
                spec_tread(old(map).tiles@[p])
            } else {
                old(map).tiles@[p]
            },
{
    let ghost before = map.tiles@;
    let ghost f = field.distances@;
    let ghost mut marked: Set<int> = Set::empty();
    let start_pos = map.index_to_point2d(start);
    let mut current = target;
    let mut walking = current != start;
    while walking
        invariant
            map.wf(),
            field.wf(),
            f == field.distances@,
            before == old(map).tiles@,
            before.len() == NUM_TILES,
            current < NUM_TILES,
            start < NUM_TILES,
            start_pos == spec_point_of(start as int),
            map.revealed_tiles == old(map).revealed_tiles,
            same_walkability(before, map.tiles@),
            walking ==> current != start,
            forall|p: int|
                #[trigger] spec_on_path(before, f, start as int, target as int, p) == (
                marked.contains(p) || (walking && spec_on_path(
                    before,
                    f,
                    start as int,
                    current as int,
                    p,
                ))),
            forall|p: int| marked.contains(p) ==> 0 <= p < NUM_TILES && before[p].spec_walkable(),
            forall|p: int|
                0 <= p < NUM_TILES ==> #[trigger] map.tiles@[p] == if marked.contains(p) {
                    spec_tread(before[p])
                } else {
                    before[p]
                },
        decreases field.distances@[current as int], (if walking { 1int } else { 0int }),
    {
        let ghost here = current as int;
        proof {
            lemma_step_same_walkability(before, map.tiles@, f, here);
        }
        match field.step_toward_source(current, map) {
            Some(destination) => {
                let pos = map.index_to_point2d(current);
                if pos.distance_squared(start_pos) <= 1 {
                    walking = false;
                    assert forall|p: int| !spec_on_path(before, f, start as int, here, p) by {}
                } else {
                    proof {
                        lemma_path_walkable(before, f, start as int, here, destination as int);
                    }
                    if map.tiles[destination] != TileType::Exit {
                        map.tiles.set(destination, TileType::Floor2);
                    }
                    proof {
                        let earlier = marked;
                        marked = marked.insert(destination as int);
                        assert forall|p: int|
                            #[trigger] spec_on_path(before, f, start as int, target as int, p) == (
                            marked.contains(p) || (destination != start && spec_on_path(
                                before,
                                f,
                                start as int,
                                destination as int,
                                p,
                            ))) by {
                            assert(spec_on_path(before, f, start as int, here, p) == (destination
                                == p || spec_on_path(
                                before,
                                f,
                                start as int,
                                destination as int,
                                p,
                            )));
                            assert(!spec_on_path(before, f, start as int, start as int, p));
                        }
                    }
                    current = destination;
                    walking = current != start;
                }
            },
            None => {
                walking = false;
                assert forall|p: int| !spec_on_path(before, f, start as int, here, p) by {}
            },
        }
    }
}

/// Treads the paths from the targets that lie on the grid toward `start`.
pub fn tread_paths(map: &mut Grid, field: &DistanceField, start: usize, targets: &Vec<usize>)
    requires
        old(map).wf(),
        field.wf(),
        start < NUM_TILES,
    ensures
        final(map).wf(),
        final(map).revealed_tiles == old(map).revealed_tiles,
        forall|p: int|
            0 <= p < NUM_TILES ==> #[trigger] final(map).tiles@[p] == spec_trodden_tile(
                old(map).tiles@,
                field.distances@,
                start as int,
                targets@,
                p,
            ),
{
    let ghost before = map.tiles@;
    let ghost f = field.distances@;
    let mut t: usize = 0;
    while t < targets.len()
        invariant
            t <= targets@.len(),
            map.wf(),
            field.wf(),
            f == field.distances@,
            before == old(map).tiles@,
            before.len() == NUM_TILES,
            start < NUM_TILES,
            map.revealed_tiles == old(map).revealed_tiles,
            forall|p: int|
                0 <= p < NUM_TILES ==> #[trigger] map.tiles@[p] == if spec_on_paths(
                    before,
                    f,
                    start as int,
                    targets@,
                    t as nat,
                    p,
                ) {
                    spec_tread(before[p])
                } else {
                    before[p]
                },
        decreases targets@.len() - t,
    {
        let target = targets[t];
        let ghost earlier = map.tiles@;
        proof {
            assert forall|p: int| 0 <= p < NUM_TILES implies (#[trigger] earlier[p]).spec_walkable()
                == before[p].spec_walkable() by {
                if spec_on_paths(before, f, start as int, targets@, t as nat, p) {
                    lemma_paths_walkable(before, f, start as int, targets@, t as nat, p);
                }
            }
            assert(same_walkability(before, earlier));
        }
        if target < NUM_TILES {
            tread_path(map, field, start, target);
            proof {
                assert forall|p: int| 0 <= p < NUM_TILES implies #[trigger] map.tiles@[p]
                    == if spec_on_paths(before, f, start as int, targets@, (t + 1) as nat, p) {
                    spec_tread(before[p])
                } else {
                    before[p]
                } by {
                    lemma_path_same_walkability(before, earlier, f, start as int, target as int, p);
                    assert(earlier[p] == if spec_on_paths(
                        before,
                        f,
                        start as int,
                        targets@,
                        t as nat,
                        p,
                    ) {
                        spec_tread(before[p])
                    } else {
                        before[p]
                    });
                }
            }
        }
        t += 1;
    }
}

/// What a tile becomes when walls are decorated on the roll `roll`.
pub fn wall_adorned(tile: TileType, roll: i32) -> (r: TileType)
    ensures
        r == spec_wall_adorned(tile, roll as int),
{
    if tile == TileType::Wall && roll > 5 {
        TileType::Wall2
    } else {
        tile
    }
}

/// Decorates some of the plain walls: a die of ten sides is rolled for
/// every plain wall, and the wall becomes what `wall_adorned` makes of it.
pub fn adorn_walls(rng: &mut RandomNumberGenerator, map: &mut Grid)
    requires
        old(map).wf(),
    ensures
        final(map).wf(),
        final(map).revealed_tiles == old(map).revealed_tiles,
        exists|rolls: Seq<int>|
            are_wall_rolls(rolls) && final(map).tiles@ == #[trigger] spec_adorned(
                old(map).tiles@,
                rolls,
            ),
{
    let ghost mut rolls: Seq<int> = Seq::empty();
    let mut i: usize = 0;
    while i < NUM_TILES
        invariant
            i <= NUM_TILES,
            map.wf(),
            map.revealed_tiles == old(map).revealed_tiles,
            rolls.len() == i,
            forall|j: int| 0 <= j < i ==> 0 <= #[trigger] rolls[j] < 10,
            forall|j: int|
                0 <= j < i ==> #[trigger] map.tiles@[j] == spec_wall_adorned(
                    old(map).tiles@[j],
                    rolls[j],
                ),
            forall|j: int| i <= j < NUM_TILES ==> #[trigger] map.tiles@[j] == old(map).tiles@[j],
        decreases NUM_TILES - i,
    {
        if map.tiles[i] == TileType::Wall {
            let roll = random::range(rng, 0, 10);
            map.tiles.set(i, wall_adorned(TileType::Wall, roll));
            proof {
                rolls = rolls.push(roll as int);
            }
        } else {
            proof {
                rolls = rolls.push(0);
            }
        }
        i += 1;
    }
    assert(map.tiles@ =~= spec_adorned(old(map).tiles@, rolls));
}

/// Whether `after` is `before` once a walker has gone from `from` on the
/// rolls `rolls`, leaving the grid `dug`, and what the tile at `center`
/// cannot reach has been walled off again.
pub open spec fn is_dig(
    before: Seq<TileType>,
    after: Seq<TileType>,
    center: Point,
    from: Point,
    rolls: Seq<int>,
    dug: Seq<TileType>,
) -> bool {
    &&& spec_in_bounds(from)
    &&& is_walk(before, dug, from, rolls)
    &&& is_walled_off(
        spec_field(
            dug,
            seq![spec_map_idx(center.x as int, center.y as int) as usize],
            GENERATION_DEPTH,
        ),
        dug,
        after,
    )
}

/// Whether `after` is `before` once a walker has gone from `from`.
pub open spec fn is_dug_from(
    before: Seq<TileType>,
    after: Seq<TileType>,
    center: Point,
    from: Point,
) -> bool {
    exists|rolls: Seq<int>, dug: Seq<TileType>|
        #[trigger] is_dig(before, after, center, from, rolls, dug)
}

/// Whether `after` is `before` once a walker has gone from some tile.
pub open spec fn is_dug(before: Seq<TileType>, after: Seq<TileType>, center: Point) -> bool {
    exists|from: Point| #[trigger] is_dug_from(before, after, center, from)
}

/// Whether `stages` tells how a level of tunnels was dug around `center`:
/// it begins with solid rock; the first walker goes from `center`; further
/// walkers go as long as there is less floor than `DESIRED_FLOOR` and fewer
/// than `MAX_WALKERS` of them have gone; and each stage is the grid that a
/// walker left.
pub open spec fn is_digging(stages: Seq<Seq<TileType>>, center: Point) -> bool {
    &&& 2 <= stages.len() <= MAX_WALKERS + 2
    &&& stages[0].len() == NUM_TILES
    &&& forall|i: int| 0 <= i < NUM_TILES ==> #[trigger] stages[0][i] == TileType::Wall
    &&& is_dug_from(stages[0], stages[1], center, center)
    &&& forall|k: int|
        1 <= k < stages.len() - 1 ==> is_dug(#[trigger] stages[k], stages[k + 1], center)
            && count_floor(stages[k], NUM_TILES as nat) < DESIRED_FLOOR
    &&& count_floor(stages[stages.len() - 1], NUM_TILES as nat) >= DESIRED_FLOOR || stages.len()
        == MAX_WALKERS + 2
}

/// The tiles of the places to spawn at.
pub open spec fn spec_targets(spawns: Seq<Point>) -> Seq<usize> {
    Seq::new(spawns.len(), |k: int| spec_map_idx(spawns[k].x as int, spawns[k].y as int) as usize)
}

/// Whether `mb` is the level of tunnels that was dug in the stages
/// `stages` and decorated on the rolls `rolls`: the player starts in the
/// middle; the places to spawn at were drawn from the grid as the walkers
/// left it; paths from those places to the start were trodden and walls
/// decorated; every walkable tile can be reached from the start; and the
/// goal is the tile farthest from the start.
pub open spec fn is_tunnel_level(stages: Seq<Seq<TileType>>, rolls: Seq<int>, mb: MapBuilder) -> bool {
    let dug = stages[stages.len() - 1];
    &&& mb.map.wf()
    &&& mb.player_start == (Point { x: 40, y: 25 })
    &&& is_digging(stages, mb.player_start)
    &&& spec_spawns_drawn(dug, mb.player_start, mb.monster_spawns@)
    &&& mb.guaranteed_monster_spawns@.len() == 0
    &&& is_adorned(dug, mb.map.tiles@, spec_map_idx(40, 25), spec_targets(mb.monster_spawns@), rolls)
    &&& same_walkability(dug, mb.map.tiles@)
    &&& spec_contiguous(mb.map.tiles@, mb.player_start)
    &&& spec_goal_farthest(mb.map.tiles@, mb.player_start, mb.teleportation_crystal_start)
    &&& mb.theme == Theme::Dungeon
}

/// The number of tiles of plain floor among the first `n`.
pub open spec fn count_floor(tiles: Seq<TileType>, n: nat) -> nat
    decreases n,
{
    if n == 0 {
        0
    } else {
        count_floor(tiles, (n - 1) as nat) + if tiles[n - 1] == TileType::Floor {
            1nat
        } else {
            0nat
        }
    }
}

/// The number of tiles of plain floor on the grid.
pub fn floor_tiles(map: &Grid) -> (n: usize)
    requires
        map.wf(),
    ensures
        n == count_floor(map.tiles@, NUM_TILES as nat),
{
    let mut n: usize = 0;
    let mut i: usize = 0;
    while i < NUM_TILES
        invariant
            i <= NUM_TILES,
            map.wf(),
            n <= i,
            n == count_floor(map.tiles@, i as nat),
        decreases NUM_TILES - i,
    {
        if map.tiles[i] == TileType::Floor {
            n += 1;
        }
        i += 1;
    }
    n
}

/// Turns every tile that the field does not reach into a wall.
pub fn wall_off_unreachable(map: &mut Grid, field: &DistanceField)
    requires
        old(map).wf(),
        field.wf(),
    ensures
        final(map).wf(),
        final(map).revealed_tiles == old(map).revealed_tiles,
        forall|i: int|
            0 <= i < NUM_TILES ==> #[trigger] final(map).tiles@[i] == if field.distances@[i]
                == UNREACHABLE {
                TileType::Wall
            } else {
                old(map).tiles@[i]
            },
{
    let mut i: usize = 0;
    while i < NUM_TILES
        invariant
            i <= NUM_TILES,
            map.wf(),
            field.wf(),
            map.revealed_tiles == old(map).revealed_tiles,
            forall|j: int|
                0 <= j < i ==> #[trigger] map.tiles@[j] == if field.distances@[j] == UNREACHABLE {
                    TileType::Wall
                } else {
                    old(map).tiles@[j]
                },
            forall|j: int| i <= j < NUM_TILES ==> #[trigger] map.tiles@[j] == old(map).tiles@[j],
        decreases NUM_TILES - i,
    {
        if field.distances[i] == UNREACHABLE {
            map.tiles.set(i, TileType::Wall);
        }
        i += 1;
    }
}

impl DrunkardsWalkArchitect {
    /// One walker: it turns the tile under it into plain floor and steps to
    /// a neighbour chosen by chance, until it leaves the grid or has made
    /// `STAGGER_DISTANCE` steps.
    pub fn drunkard(&self, start: &Point, rng: &mut RandomNumberGenerator, map: &mut Grid)
        requires
            old(map).wf(),
            spec_in_bounds(*start),
        ensures
            final(map).wf(),
            final(map).revealed_tiles == old(map).revealed_tiles,
            only_carved(old(map).tiles@, final(map).tiles@),
            final(map).tiles@[spec_map_idx(start.x as int, start.y as int)] == TileType::Floor,
            exists|rolls: Seq<int>| is_walk(old(map).tiles@, final(map).tiles@, *start, rolls),
    {
        let mut drunkard_pos = *start;
        let mut distance_staggered: usize = 0;
        let mut walking = true;
        let ghost mut rolls: Seq<int> = Seq::empty();
        while walking
            invariant
                map.wf(),
                map.revealed_tiles == old(map).revealed_tiles,
                only_carved(old(map).tiles@, map.tiles@),
                distance_staggered <= STAGGER_DISTANCE,
                spec_in_bounds(*start),
                walking ==> rolls.len() == distance_staggered,
                walking ==> drunkard_pos == spec_walker_at(*start, rolls, rolls.len()),
                walking ==> spec_in_bounds(drunkard_pos),
                !walking ==> is_walk(old(map).tiles@, map.tiles@, *start, rolls),
                !walking ==> map.tiles@[spec_map_idx(start.x as int, start.y as int)]
                    == TileType::Floor,
                forall|k: int| 0 <= k < rolls.len() ==> 0 <= #[trigger] rolls[k] < 4,
                forall|k: nat|
                    k < rolls.len() ==> spec_in_bounds(#[trigger] spec_walker_at(*start, rolls, k)),
                rolls.len() <= STAGGER_DISTANCE + 1,
                forall|i: int|
                    0 <= i < NUM_TILES ==> #[trigger] map.tiles@[i] == if spec_trodden(
                        *start,
                        rolls,
                        rolls.len(),
                        spec_point_of(i),
                    ) {
                        TileType::Floor
                    } else {
                        old(map).tiles@[i]
                    },
            decreases STAGGER_DISTANCE - distance_staggered, (if walking { 1int } else { 0int }),
        {
            let ghost earlier = rolls;
            let ghost before = map.tiles@;
            let ghost here = drunkard_pos;
            let drunk_idx = map.point2d_to_index(drunkard_pos);
            map.tiles.set(drunk_idx, TileType::Floor);
            let direction = random::range(rng, 0, 4);
            if direction == 0 {
                drunkard_pos.x -= 1;
            } else if direction == 1 {
                drunkard_pos.x += 1;
            } else if direction == 2 {
                drunkard_pos.y -= 1;
            } else {
                drunkard_pos.y += 1;
            }
            proof {
                rolls = rolls.push(direction as int);
                let n = earlier.len();
                lemma_walker_prefix(*start, earlier, rolls, n);
                assert(spec_walker_at(*start, rolls, n) == here);
                assert(drunkard_pos == spec_walker_at(*start, rolls, rolls.len()));
                assert forall|k: nat| k < rolls.len() implies spec_in_bounds(
                    #[trigger] spec_walker_at(*start, rolls, k),
                ) by {
                    lemma_walker_prefix(*start, earlier, rolls, k);
                }
                assert forall|i: int| 0 <= i < NUM_TILES implies #[trigger] map.tiles@[i]
                    == if spec_trodden(*start, rolls, rolls.len(), spec_point_of(i)) {
                    TileType::Floor
                } else {
                    old(map).tiles@[i]
                } by {
                    lemma_trodden_prefix(*start, earlier, rolls, n, spec_point_of(i));
                    assert(before[i] == if spec_trodden(*start, earlier, n, spec_point_of(i)) {
                        TileType::Floor
                    } else {
                        old(map).tiles@[i]
                    });
                    if spec_point_of(i) == here {
                        assert(i == drunk_idx);
                    }
                }
                if n == 0 {
                    assert(here == *start);
                }
            }
            if !map.in_bounds(drunkard_pos) {
                walking = false;
            } else if distance_staggered >= STAGGER_DISTANCE {
                walking = false;
            } else {
                distance_staggered += 1;
            }
            proof {
                assert(spec_trodden(*start, rolls, rolls.len(), *start)) by {
                    lemma_start_trodden(*start, rolls, rolls.len());
                }
                assert(spec_point_of(spec_map_idx(start.x as int, start.y as int)) == *start);
            }
        }
    }

    /// Marks a path from each target to `start` as trodden, a tile at a
    /// time along the steps toward `start`, and stops one tile short of it;
    /// then decorates some of the plain walls, each on the roll of a die of
    /// ten sides. Targets off the grid are passed over.
    pub fn carve_decorations(
        &self,
        start: usize,
        targets: Vec<usize>,
        rng: &mut RandomNumberGenerator,
        map: &mut Grid,
    )
        requires
            old(map).wf(),
            start < NUM_TILES,
        ensures
            final(map).wf(),
            final(map).revealed_tiles == old(map).revealed_tiles,
            exists|rolls: Seq<int>|
                is_adorned(old(map).tiles@, final(map).tiles@, start as int, targets@, rolls),
            only_adorned(old(map).tiles@, final(map).tiles@),
    {
        let mut starts: Vec<usize> = Vec::new();
        starts.push(start);
        assert(starts@ =~= seq![start]);
        let field = DistanceField::new(map, &starts, DECORATION_DEPTH);
        proof {
            lemma_field_unique(
                field.distances@,
                field.distances@,
                map.tiles@,
                starts@,
                DECORATION_DEPTH,
            );
        }
        tread_paths(map, &field, start, &targets);
        let ghost trodden = map.tiles@;
        adorn_walls(rng, map);
        proof {
            let rolls = choose|rolls: Seq<int>| are_wall_rolls(rolls) && map.tiles@ == spec_adorned(
                trodden,
                rolls,
            );
            let f = spec_field(old(map).tiles@, seq![start as int as usize], DECORATION_DEPTH);
            assert(seq![start as int as usize] == seq![start]);
            assert(f == field.distances@);
            assert(trodden =~= Seq::new(
                NUM_TILES as nat,
                |p: int| spec_trodden_tile(old(map).tiles@, f, start as int, targets@, p),
            ));
            assert(is_adorned(old(map).tiles@, map.tiles@, start as int, targets@, rolls));
            assert forall|i: int| 0 <= i < NUM_TILES implies if spec_floor_class(
                old(map).tiles@[i],
            ) {
                spec_floor_class(#[trigger] map.tiles@[i])
            } else if old(map).tiles@[i] == TileType::Wall {
                map.tiles@[i] == TileType::Wall || map.tiles@[i] == TileType::Wall2
            } else {
                map.tiles@[i] == old(map).tiles@[i]
            } by {
                let f = field.distances@;
                assert(trodden[i] == spec_trodden_tile(
                    old(map).tiles@,
                    f,
                    start as int,
                    targets@,
                    i,
                ));
                assert(map.tiles@[i] == spec_wall_adorned(trodden[i], rolls[i]));
                if spec_on_paths(old(map).tiles@, f, start as int, targets@, targets@.len(), i) {
                    lemma_paths_walkable(
                        old(map).tiles@,
                        f,
                        start as int,
                        targets@,
                        targets@.len(),
                        i,
                    );
                }
            }
        }
    }

    /// Walls off again what the walkers have dug out of reach of `center`.
    /// Afterwards every walkable tile can be reached from there.
    pub fn keep_contiguous(&self, center: Point, map: &mut Grid)
        requires
            old(map).wf(),
            spec_in_bounds(center),
        ensures
            final(map).wf(),
            final(map).revealed_tiles == old(map).revealed_tiles,
            is_walled_off(
                spec_field(
                    old(map).tiles@,
                    seq![spec_map_idx(center.x as int, center.y as int) as usize],
                    GENERATION_DEPTH,
                ),
                old(map).tiles@,
                final(map).tiles@,
            ),
            spec_contiguous(final(map).tiles@, center),
            final(map).tiles@[spec_map_idx(center.x as int, center.y as int)] == old(map).tiles@[spec_map_idx(center.x as int, center.y as int)],
    {
        let mut starts: Vec<usize> = Vec::new();
        starts.push(map.point2d_to_index(center));
        assert(starts@ =~= seq![spec_map_idx(center.x as int, center.y as int) as usize]);
        let ghost dug = map.tiles@;
        let dijkstra_map = DistanceField::new(map, &starts, GENERATION_DEPTH);
        wall_off_unreachable(map, &dijkstra_map);
        proof {
            let f = dijkstra_map.distances@;
            lemma_field_unique(f, f, dug, starts@, GENERATION_DEPTH);
            lemma_source_is_zero(f, dug, starts@, GENERATION_DEPTH, 0);
            lemma_walled_off_field(f, dug, map.tiles@, starts@, GENERATION_DEPTH);
            lemma_field_unique(f, f, map.tiles@, starts@, GENERATION_DEPTH);
        }
    }

    /// Builds a level of tunnels. Walkers dig from the middle of the grid
    /// and from random places until a third of the grid is floor or
    /// `MAX_WALKERS` have gone; after each, what the middle cannot reach is
    /// walled off again. The player starts in the middle; the goal is the
    /// tile farthest from it.
    pub fn build(&mut self, rng: &mut RandomNumberGenerator) -> (mb: MapBuilder)
        ensures
            exists|stages: Seq<Seq<TileType>>, rolls: Seq<int>| is_tunnel_level(stages, rolls, mb),
            spec_goal_farthest(mb.map.tiles@, mb.player_start, mb.teleportation_crystal_start),
            mb.map.wf(),
            mb.player_start == (Point { x: 40, y: 25 }),
            mb.map.spec_can_enter_tile(mb.player_start),
            spec_reachable_from(mb.map.tiles@, mb.player_start, mb.teleportation_crystal_start),
            spec_contiguous(mb.map.tiles@, mb.player_start),
            mb.guaranteed_monster_spawns@.len() == 0,
            forall|k: int|
                0 <= k < mb.monster_spawns@.len() ==> mb.map.spec_can_enter_tile(
                    #[trigger] mb.monster_spawns@[k],
                ),
            mb.monster_spawns@.len() <= NUM_MONSTERS,
            forall|k: int|
                0 <= k < mb.monster_spawns@.len() ==> spec_distance_squared(
                    mb.player_start,
                    #[trigger] mb.monster_spawns@[k],
                ) > 100,
            forall|a: int, b: int|
                0 <= a < b < mb.monster_spawns@.len() ==> #[trigger] mb.monster_spawns@[a]
                    != #[trigger] mb.monster_spawns@[b],
            mb.theme == Theme::Dungeon,
            forall|i: int| 0 <= i < NUM_TILES ==> #[trigger] mb.map.tiles@[i] != TileType::Exit,
            forall|i: int| 0 <= i < NUM_TILES ==> !(#[trigger] mb.map.revealed_tiles@[i]),
    {
        let mut mb = MapBuilder {
            map: Grid::new(),
            monster_spawns: Vec::new(),
            player_start: Point::zero(),
            guaranteed_monster_spawns: Vec::new(),
            teleportation_crystal_start: Point::zero(),
            theme: Theme::Dungeon,
        };
        mb.fill(TileType::Wall);
        let center = Point::new(SCREEN_WIDTH / 2, SCREEN_HEIGHT / 2);
        let center_idx = mb.map.point2d_to_index(center);
        let ghost rock = mb.map.tiles@;
        self.drunkard(&center, rng, &mut mb.map);
        let ghost first = mb.map.tiles@;
        self.keep_contiguous(center, &mut mb.map);
        let ghost mut stages: Seq<Seq<TileType>> = seq![rock, mb.map.tiles@];
        proof {
            let walk = choose|walk: Seq<int>| is_walk(rock, first, center, walk);
            assert(is_dig(rock, mb.map.tiles@, center, center, walk, first));
            assert(is_dug_from(stages[0], stages[1], center, center));
        }
        proof {
            assert forall|i: int| 0 <= i < NUM_TILES implies #[trigger] mb.map.tiles@[i]
                == TileType::Floor || mb.map.tiles@[i] == TileType::Wall by {
                assert(first[i] == TileType::Wall || first[i] == TileType::Floor);
            }
        }
        let mut walkers: usize = 0;
        while floor_tiles(&mb.map) < DESIRED_FLOOR && walkers < MAX_WALKERS
            invariant
                walkers <= MAX_WALKERS,
                mb.map.wf(),
                center == (Point { x: 40, y: 25 }),
                center_idx == spec_map_idx(40, 25),
                stages.len() == walkers + 2,
                stages[stages.len() - 1] == mb.map.tiles@,
                stages[0].len() == NUM_TILES,
                forall|i: int| 0 <= i < NUM_TILES ==> #[trigger] stages[0][i] == TileType::Wall,
                is_dug_from(stages[0], stages[1], center, center),
                forall|k: int|
                    1 <= k < stages.len() - 1 ==> is_dug(#[trigger] stages[k], stages[k + 1], center)
                        && count_floor(stages[k], NUM_TILES as nat) < DESIRED_FLOOR,
                mb.map.tiles@[center_idx as int] == TileType::Floor,
                spec_contiguous(mb.map.tiles@, center),
                mb.guaranteed_monster_spawns@.len() == 0,
                mb.monster_spawns@.len() == 0,
                mb.theme == Theme::Dungeon,
                forall|i: int| 0 <= i < NUM_TILES ==> !(#[trigger] mb.map.revealed_tiles@[i]),
                forall|i: int|
                    0 <= i < NUM_TILES ==> #[trigger] mb.map.tiles@[i] == TileType::Floor
                        || mb.map.tiles@[i] == TileType::Wall,
            decreases MAX_WALKERS - walkers,
        {
            let x = random::range(rng, 0, SCREEN_WIDTH);
            let y = random::range(rng, 0, SCREEN_HEIGHT);
            let ghost before = mb.map.tiles@;
            let ghost earlier = stages;
            self.drunkard(&Point::new(x, y), rng, &mut mb.map);
            let ghost dug = mb.map.tiles@;
            self.keep_contiguous(center, &mut mb.map);
            proof {
                let from = Point { x, y };
                let walk = choose|walk: Seq<int>| is_walk(before, dug, from, walk);
                assert(is_dig(before, mb.map.tiles@, center, from, walk, dug));
                assert(is_dug_from(before, mb.map.tiles@, center, from));
                assert(is_dug(before, mb.map.tiles@, center));
                stages = stages.push(mb.map.tiles@);
                assert forall|k: int| 1 <= k < stages.len() - 1 implies is_dug(
                    #[trigger] stages[k],
                    stages[k + 1],
                    center,
                ) && count_floor(stages[k], NUM_TILES as nat) < DESIRED_FLOOR by {
                    if k < earlier.len() - 1 {
                        assert(is_dug(earlier[k], earlier[k + 1], center));
                    }
                }
            }
            proof {
                assert forall|i: int| 0 <= i < NUM_TILES implies #[trigger] mb.map.tiles@[i]
                    == TileType::Floor || mb.map.tiles@[i] == TileType::Wall by {
                    assert(before[i] == TileType::Floor || before[i] == TileType::Wall);
                    assert(dug[i] == before[i] || dug[i] == TileType::Floor);
                }
                assert(dug[center_idx as int] == before[center_idx as int] || dug[center_idx as int]
                    == TileType::Floor);
            }
            walkers += 1;
        }
        mb.monster_spawns = mb.spawn_monsters(&center, rng);
        mb.player_start = center;
        let mut targets: Vec<usize> = Vec::new();
        let mut k: usize = 0;
        while k < mb.monster_spawns.len()
            invariant
                k <= mb.monster_spawns@.len(),
                targets@.len() == k,
                forall|j: int|
                    0 <= j < k ==> #[trigger] targets@[j] == spec_map_idx(
                        mb.monster_spawns@[j].x as int,
                        mb.monster_spawns@[j].y as int,
                    ),
                forall|j: int|
                    0 <= j < mb.monster_spawns@.len() ==> spec_in_bounds(
                        #[trigger] mb.monster_spawns@[j],
                    ),
            decreases mb.monster_spawns@.len() - k,
        {
            let p = mb.monster_spawns[k];
            targets.push(mb.map.point2d_to_index(p));
            k += 1;
        }
        let ghost dug = mb.map.tiles@;
        let ghost trails = targets@;
        assert(trails =~= spec_targets(mb.monster_spawns@));
        self.carve_decorations(center_idx, targets, rng, &mut mb.map);
        let ghost adorned = choose|rolls: Seq<int>|
            is_adorned(dug, mb.map.tiles@, center_idx as int, trails, rolls);
        proof {
            assert(is_digging(stages, center));
            assert(dug[center_idx as int] == TileType::Floor);
            assert(spec_floor_class(mb.map.tiles@[center_idx as int]));
            assert forall|j: int| 0 <= j < mb.monster_spawns@.len() implies mb.map.spec_can_enter_tile(
                #[trigger] mb.monster_spawns@[j],
            ) by {
                let p = mb.monster_spawns@[j];
                let i = spec_map_idx(p.x as int, p.y as int);
                assert(dug[i] == TileType::Floor);
                assert(spec_floor_class(mb.map.tiles@[i]));
            }
            assert forall|i: int| 0 <= i < NUM_TILES implies #[trigger] mb.map.tiles@[i]
                != TileType::Exit by {
                assert(dug[i] == TileType::Floor || dug[i] == TileType::Wall);
            }
            assert(same_walkability(dug, mb.map.tiles@)) by {
                assert forall|i: int| 0 <= i < NUM_TILES implies (
                #[trigger] mb.map.tiles@[i]).spec_walkable() == dug[i].spec_walkable() by {
                    assert(dug[i] == TileType::Floor || dug[i] == TileType::Wall);
                }
            }
            lemma_field_same_walkability(
                dug,
                mb.map.tiles@,
                seq![center_idx],
                GENERATION_DEPTH,
            );
            assert forall|i: int|
                0 <= i < NUM_TILES && (#[trigger] mb.map.tiles@[i]).spec_walkable() implies spec_field(
                mb.map.tiles@,
                seq![center_idx],
                GENERATION_DEPTH,
            )[i] != UNREACHABLE by {
                assert(dug[i].spec_walkable());
            }
        }
        let goal = mb.find_most_distant();
        mb.teleportation_crystal_start = goal.unwrap();
        assert(is_tunnel_level(stages, adorned, mb));
        mb
    }
}

} // verus!
