//! Level assembly: a generation strategy builds the grid, a structural
//! insert is stamped onto it, and the far end of the level becomes its goal.

use vstd::prelude::*;
use bracket_lib::prelude::RandomNumberGenerator;
use crate::distance_field::{
    is_most_distant, lemma_field_exists, lemma_field_unique, lemma_source_is_zero, spec_field,
    DistanceField, UNREACHABLE,
};
use crate::components::FontCharType;
use crate::random;
use crate::geometry::{spec_distance_squared, Point};
use crate::map::{spec_enterable, spec_in_bounds, spec_map_idx, spec_point_of, Grid, TileType};
use crate::NUM_TILES;

pub mod automata;
pub mod drunkard;
pub mod prefab;
pub mod rooms;
pub mod themes;

use crate::map_builder::automata::{is_cave_level, is_noise, CellularAutomataArchitect};
use crate::map_builder::drunkard::{is_tunnel_level, DrunkardsWalkArchitect};
use crate::map_builder::prefab::{
    apply_prefab, is_fortress, is_monster_fortress, lemma_cell_stamped, lemma_marked_len,
    lemma_marked_members, lemma_outside_len, lemma_outside_members, prefab_list, spec_cell_point,
    spec_footprint, spec_inserted, spec_layout_cells, spec_marked, spec_outside,
};
use crate::map_builder::rooms::{is_room_level, RoomArchitect};
use crate::geometry::Rect;
use crate::map_builder::themes::Theme;

verus! {

/// The looks of a level. A theme only names glyphs; it has no say in what a
/// tile does.
pub trait MapTheme: Sync + Send {
    /// The glyph that stands for a tile of the given type.
    spec fn spec_glyph(&self, tile_type: TileType) -> FontCharType;

    fn tile_to_render(&self, tile_type: TileType) -> (glyph: FontCharType)
        ensures
            glyph == self.spec_glyph(tile_type),
    ;
}

/// Why there is no level to play.
#[derive(Clone, Copy, Debug, PartialEq, Eq, Structural)]
pub enum LevelError {
    /// The grid has no floor for the player to start on.
    NoFloor,
    /// No player is in the world.
    NoPlayer,
    /// The world has no room for what the level holds.
    WorldFull,
}

/// The cutoff of the distance fields that generation works with.
pub const GENERATION_DEPTH: u32 = 1024;

/// A level as generation leaves it.
pub struct MapBuilder {
    pub map: Grid,
    /// Where the player enters the level.
    pub player_start: Point,
    /// The goal of the level: where its exit, or the crystal, is put.
    pub teleportation_crystal_start: Point,
    /// Where something may be spawned.
    pub monster_spawns: Vec<Point>,
    /// Where a structural insert asks for a monster.
    pub guaranteed_monster_spawns: Vec<Point>,
    /// The looks of the level; they change nothing but glyphs.
    pub theme: Theme,
}

impl MapBuilder {
    /// Makes every tile of the grid `tile`.
    pub fn fill(&mut self, tile: TileType)
        requires
            old(self).map.wf(),
        ensures
            final(self).map.wf(),
            forall|i: int| 0 <= i < NUM_TILES ==> final(self).map.tiles@[i] == tile,
            final(self).map.revealed_tiles == old(self).map.revealed_tiles,
            final(self).player_start == old(self).player_start,
            final(self).teleportation_crystal_start == old(self).teleportation_crystal_start,
            final(self).monster_spawns == old(self).monster_spawns,
            final(self).guaranteed_monster_spawns == old(self).guaranteed_monster_spawns,
            final(self).theme == old(self).theme,
    {
        let mut i: usize = 0;
        while i < NUM_TILES
            invariant
                i <= NUM_TILES,
                self.map.wf(),
                forall|j: int| 0 <= j < i ==> self.map.tiles@[j] == tile,
                self.map.revealed_tiles == old(self).map.revealed_tiles,
                self.player_start == old(self).player_start,
                self.teleportation_crystal_start == old(self).teleportation_crystal_start,
                self.monster_spawns == old(self).monster_spawns,
                self.guaranteed_monster_spawns == old(self).guaranteed_monster_spawns,
                self.theme == old(self).theme,
            decreases NUM_TILES - i,
        {
            self.map.tiles.set(i, tile);
            i += 1;
        }
    }
}

/// The most monsters that generation plans for a level.
pub const NUM_MONSTERS: usize = 50;

/// Whether the player can get from `start` to `goal` on the grid, as the
/// distance field from `start` tells it.
pub open spec fn spec_reachable_from(tiles: Seq<TileType>, start: Point, goal: Point) -> bool {
    &&& spec_in_bounds(start)
    &&& spec_in_bounds(goal)
    &&& spec_field(
        tiles,
        seq![spec_map_idx(start.x as int, start.y as int) as usize],
        GENERATION_DEPTH,
    )[spec_map_idx(goal.x as int, goal.y as int)] != UNREACHABLE
}

/// Whether every walkable tile of the grid can be reached from `start`.
pub open spec fn spec_contiguous(tiles: Seq<TileType>, start: Point) -> bool {
    forall|i: int|
        0 <= i < NUM_TILES && (#[trigger] tiles[i]).spec_walkable() ==> spec_field(
            tiles,
            seq![spec_map_idx(start.x as int, start.y as int) as usize],
            GENERATION_DEPTH,
        )[i] != UNREACHABLE
}

/// Whether something may be spawned on the tile with index `i`: it is plain
/// floor, more than ten tiles from `start` as the crow flies.
pub open spec fn spec_spawnable(tiles: Seq<TileType>, start: Point, i: int) -> bool {
    &&& 0 <= i < NUM_TILES
    &&& tiles[i] == TileType::Floor
    &&& spec_distance_squared(start, spec_point_of(i)) > 100
}

/// The number of tiles among the first `n` at which something may be
/// spawned.
pub open spec fn count_spawnable(tiles: Seq<TileType>, start: Point, n: nat) -> nat
    decreases n,
{
    if n == 0 {
        0
    } else {
        count_spawnable(tiles, start, (n - 1) as nat) + if spec_spawnable(tiles, start, n - 1) {
            1nat
        } else {
            0nat
        }
    }
}

/// Whether `goal` is the tile farthest from `start` among those that can be
/// reached from it, the first in the order of the tiles among equals.
pub open spec fn spec_goal_farthest(tiles: Seq<TileType>, start: Point, goal: Point) -> bool {
    &&& spec_in_bounds(start)
    &&& spec_in_bounds(goal)
    &&& is_most_distant(
        spec_field(
            tiles,
            seq![spec_map_idx(start.x as int, start.y as int) as usize],
            GENERATION_DEPTH,
        ),
        spec_map_idx(goal.x as int, goal.y as int),
    )
}

/// Whether `spawns` can have been drawn as places to spawn at on the grid
/// `tiles`: they are `NUM_MONSTERS` tiles of plain floor more than ten tiles
/// from `start`, or all such tiles where there are fewer, and none comes
/// twice.
pub open spec fn spec_spawns_drawn(tiles: Seq<TileType>, start: Point, spawns: Seq<Point>) -> bool {
    &&& spawns.len() == if count_spawnable(tiles, start, NUM_TILES as nat) < NUM_MONSTERS {
        count_spawnable(tiles, start, NUM_TILES as nat)
    } else {
        NUM_MONSTERS as nat
    }
    &&& forall|k: int|
        0 <= k < spawns.len() ==> spec_in_bounds(#[trigger] spawns[k]) && spec_spawnable(
            tiles,
            start,
            spec_map_idx(spawns[k].x as int, spawns[k].y as int),
        )
    &&& forall|a: int, b: int|
        0 <= a < b < spawns.len() ==> #[trigger] spawns[a] != #[trigger] spawns[b]
}

impl MapBuilder {
    /// The tile farthest from the player's start among those the player can
    /// reach, the first in the order of the tiles among equals. There is
    /// none where the start lies off the grid.
    pub fn find_most_distant(&self) -> (r: Option<Point>)
        requires
            self.map.wf(),
        ensures
            !spec_in_bounds(self.player_start) ==> r is None,
            spec_in_bounds(self.player_start) ==> r is Some && is_most_distant(
                spec_field(
                    self.map.tiles@,
                    seq![
                        spec_map_idx(self.player_start.x as int, self.player_start.y as int) as usize,
                    ],
                    GENERATION_DEPTH,
                ),
                spec_map_idx(r.unwrap().x as int, r.unwrap().y as int),
            ) && spec_in_bounds(r.unwrap()) && spec_reachable_from(
                self.map.tiles@,
                self.player_start,
                r.unwrap(),
            ) && spec_goal_farthest(self.map.tiles@, self.player_start, r.unwrap()),
    {
        if !self.map.in_bounds(self.player_start) {
            return None;
        }
        let start = self.map.point2d_to_index(self.player_start);
        let mut starts: Vec<usize> = Vec::new();
        starts.push(start);
        assert(starts@ =~= seq![start]);
        let field = DistanceField::new(&self.map, &starts, GENERATION_DEPTH);
        proof {
            lemma_field_unique(
                field.distances@,
                field.distances@,
                self.map.tiles@,
                starts@,
                GENERATION_DEPTH,
            );
            lemma_source_is_zero(field.distances@, self.map.tiles@, starts@, GENERATION_DEPTH, 0);
        }
        match field.most_distant() {
            Some(i) => Some(self.map.index_to_point2d(i)),
            None => {
                assert(field.spec_reachable(start as int));
                None
            },
        }
    }

    /// Places to spawn at, drawn without repetition from the tiles of plain
    /// floor more than ten tiles from `start`: `NUM_MONSTERS` of them, or all
    /// where there are fewer.
    pub fn spawn_monsters(&self, start: &Point, rng: &mut RandomNumberGenerator) -> (spawns: Vec<
        Point,
    >)
        requires
            self.map.wf(),
        ensures
            spawns@.len() == if count_spawnable(self.map.tiles@, *start, NUM_TILES as nat)
                < NUM_MONSTERS {
                count_spawnable(self.map.tiles@, *start, NUM_TILES as nat)
            } else {
                NUM_MONSTERS as nat
            },
            forall|k: int|
                0 <= k < spawns@.len() ==> spec_in_bounds(#[trigger] spawns@[k]) && spec_spawnable(
                    self.map.tiles@,
                    *start,
                    spec_map_idx(spawns@[k].x as int, spawns@[k].y as int),
                ),
            forall|a: int, b: int|
                0 <= a < b < spawns@.len() ==> #[trigger] spawns@[a] != #[trigger] spawns@[b],
            spec_spawns_drawn(self.map.tiles@, *start, spawns@),
    {
        let mut spawnable_tiles: Vec<Point> = Vec::new();
        let mut i: usize = 0;
        while i < NUM_TILES
            invariant
                i <= NUM_TILES,
                self.map.wf(),
                spawnable_tiles@.len() == count_spawnable(self.map.tiles@, *start, i as nat),
                spawnable_tiles@.len() <= i,
                forall|k: int|
                    0 <= k < spawnable_tiles@.len() ==> spec_in_bounds(
                        #[trigger] spawnable_tiles@[k],
                    ) && spec_spawnable(
                        self.map.tiles@,
                        *start,
                        spec_map_idx(spawnable_tiles@[k].x as int, spawnable_tiles@[k].y as int),
                    ) && spec_map_idx(spawnable_tiles@[k].x as int, spawnable_tiles@[k].y as int)
                        < i,
                forall|a: int, b: int|
                    0 <= a < b < spawnable_tiles@.len() ==> #[trigger] spawnable_tiles@[a]
                        != #[trigger] spawnable_tiles@[b],
            decreases NUM_TILES - i,
        {
            let point = self.map.index_to_point2d(i);
            if self.map.tiles[i] == TileType::Floor && start.distance_squared(point) > 100 {
                spawnable_tiles.push(point);
            }
            i += 1;
        }
        let ghost total = spawnable_tiles@.len();
        let mut spawns: Vec<Point> = Vec::new();
        let mut n: usize = 0;
        while n < NUM_MONSTERS && spawnable_tiles.len() > 0
            invariant
                n <= NUM_MONSTERS,
                spawns@.len() == n,
                spawnable_tiles@.len() + n == total,
                total <= NUM_TILES,
                forall|k: int|
                    0 <= k < spawnable_tiles@.len() ==> spec_in_bounds(
                        #[trigger] spawnable_tiles@[k],
                    ) && spec_spawnable(
                        self.map.tiles@,
                        *start,
                        spec_map_idx(spawnable_tiles@[k].x as int, spawnable_tiles@[k].y as int),
                    ),
                forall|k: int|
                    0 <= k < spawns@.len() ==> spec_in_bounds(#[trigger] spawns@[k])
                        && spec_spawnable(
                        self.map.tiles@,
                        *start,
                        spec_map_idx(spawns@[k].x as int, spawns@[k].y as int),
                    ),
                forall|a: int, b: int|
                    0 <= a < b < spawnable_tiles@.len() ==> #[trigger] spawnable_tiles@[a]
                        != #[trigger] spawnable_tiles@[b],
                forall|a: int, b: int|
                    0 <= a < b < spawns@.len() ==> #[trigger] spawns@[a] != #[trigger] spawns@[b],
                forall|a: int, b: int|
                    0 <= a < spawns@.len() && 0 <= b < spawnable_tiles@.len()
                        ==> #[trigger] spawns@[a] != #[trigger] spawnable_tiles@[b],
            decreases NUM_MONSTERS - n,
        {
            let drawn = random::random_slice_index(rng, &spawnable_tiles);
            let target_index = drawn.unwrap();
            let point = spawnable_tiles[target_index];
            spawns.push(point);
            spawnable_tiles.remove(target_index);
            n += 1;
        }
        spawns
    }
}

/// The ways to generate a grid.
#[derive(Clone, Copy, Debug, PartialEq, Eq, Structural)]
pub enum Strategy {
    RoomAndCorridor,
    CellularAutomata,
    DrunkardWalk,
}

/// The strategy that builds the level of a tier: caves first, tunnels
/// next, rooms from then on.
pub open spec fn spec_strategy_of(map_level: u32) -> Strategy {
    if map_level <= 1 {
        Strategy::CellularAutomata
    } else if map_level <= 3 {
        Strategy::DrunkardWalk
    } else {
        Strategy::RoomAndCorridor
    }
}

/// The looks of the level of a tier: forest first, caves next, the dungeon
/// from then on.
pub open spec fn spec_theme_of(map_level: u32) -> Theme {
    if map_level <= 1 {
        Theme::Forest
    } else if map_level <= 3 {
        Theme::Cave
    } else {
        Theme::Dungeon
    }
}

/// The strategy that builds the level of a tier.
pub fn strategy_of(map_level: u32) -> (strategy: Strategy)
    ensures
        strategy == spec_strategy_of(map_level),
{
    if map_level <= 1 {
        Strategy::CellularAutomata
    } else if map_level <= 3 {
        Strategy::DrunkardWalk
    } else {
        Strategy::RoomAndCorridor
    }
}

/// The looks of the level of a tier.
pub fn theme_of(map_level: u32) -> (theme: Theme)
    ensures
        theme == spec_theme_of(map_level),
{
    if map_level <= 1 {
        Theme::Forest
    } else if map_level <= 3 {
        Theme::Cave
    } else {
        Theme::Dungeon
    }
}

/// What holds of every level that generation hands out: the player starts
/// on a walkable tile and can walk from there to the goal; every place to
/// spawn at is walkable; there is no exit yet, and nothing is revealed.
pub open spec fn spec_playable(mb: MapBuilder) -> bool {
    &&& mb.map.wf()
    &&& mb.map.spec_can_enter_tile(mb.player_start)
    &&& spec_reachable_from(mb.map.tiles@, mb.player_start, mb.teleportation_crystal_start)
    &&& forall|i: int| 0 <= i < NUM_TILES ==> #[trigger] mb.map.tiles@[i] != TileType::Exit
    &&& forall|i: int| 0 <= i < NUM_TILES ==> !(#[trigger] mb.map.revealed_tiles@[i])
    &&& forall|k: int|
        0 <= k < mb.monster_spawns@.len() ==> mb.map.spec_can_enter_tile(
            #[trigger] mb.monster_spawns@[k],
        )
    &&& forall|k: int|
        0 <= k < mb.guaranteed_monster_spawns@.len() ==> mb.map.spec_can_enter_tile(
            #[trigger] mb.guaranteed_monster_spawns@[k],
        )
    &&& mb.monster_spawns@.len() <= NUM_MONSTERS + NUM_TILES
    &&& mb.guaranteed_monster_spawns@.len() <= NUM_TILES
}

/// Whether `r` is what the strategy can hand out: a level of its kind, or,
/// of the caves alone, no level where smoothing leaves no floor.
pub open spec fn spec_generated(strategy: Strategy, r: Result<MapBuilder, LevelError>) -> bool {
    match strategy {
        Strategy::CellularAutomata => exists|noise: Seq<TileType>, rolls: Seq<int>|
            #[trigger] is_noise(noise, rolls) && is_cave_level(noise, r),
        Strategy::DrunkardWalk => r is Ok && exists|stages: Seq<Seq<TileType>>, rolls: Seq<int>|
            is_tunnel_level(stages, rolls, r->Ok_0),
        Strategy::RoomAndCorridor => r is Ok && exists|
            rooms: Seq<Rect>,
            sorted: Seq<Rect>,
            turns: Seq<bool>,
            carved: Seq<TileType>,
            rolls: Seq<int>,
        | is_room_level(rooms, sorted, turns, carved, rolls, r->Ok_0),
    }
}

/// Whether `mb` is the level of the tier `map_level`, assembled from the
/// level `base` that the tier's strategy built: the insert `prefab`, the
/// keep or the den, was stamped where the search for a place ended in
/// `placed`; the start is that of `base`; the goal is the tile farthest from
/// it on the grid as the insert left it; and the looks are the tier's.
pub open spec fn is_assembled(
    map_level: u32,
    base: MapBuilder,
    prefab: (&'static str, i32, i32),
    placed: Option<Point>,
    mb: MapBuilder,
) -> bool {
    &&& spec_generated(spec_strategy_of(map_level), Ok(base))
    &&& spec_playable(base)
    &&& is_fortress(prefab) || is_monster_fortress(prefab)
    &&& spec_inserted(
        base,
        prefab,
        placed,
        mb.map.tiles@,
        mb.monster_spawns@,
        mb.guaranteed_monster_spawns@,
    )
    &&& mb.map.wf()
    &&& mb.player_start == base.player_start
    &&& spec_goal_farthest(mb.map.tiles@, mb.player_start, mb.teleportation_crystal_start)
    &&& mb.theme == spec_theme_of(map_level)
}

/// Runs a strategy. Only the caves can fail: where they leave no floor.
pub fn generate(strategy: Strategy, rng: &mut RandomNumberGenerator) -> (r: Result<
    MapBuilder,
    LevelError,
>)
    ensures
        spec_generated(strategy, r),
        match r {
            Ok(mb) => {
                &&& spec_playable(mb)
                &&& spec_goal_farthest(
                    mb.map.tiles@,
                    mb.player_start,
                    mb.teleportation_crystal_start,
                )
                &&& mb.monster_spawns@.len() <= NUM_MONSTERS
                &&& mb.guaranteed_monster_spawns@.len() == 0
                &&& mb.theme == Theme::Dungeon
                &&& strategy == Strategy::DrunkardWalk ==> mb.player_start == (Point {
                    x: 40,
                    y: 25,
                }) && spec_contiguous(mb.map.tiles@, mb.player_start)
                &&& strategy != Strategy::RoomAndCorridor ==> forall|k: int|
                    0 <= k < mb.monster_spawns@.len() ==> spec_distance_squared(
                        mb.player_start,
                        #[trigger] mb.monster_spawns@[k],
                    ) > 100
            },
            Err(e) => e == LevelError::NoFloor && strategy == Strategy::CellularAutomata,
        },
{
    match strategy {
        Strategy::CellularAutomata => {
            let mut architect = CellularAutomataArchitect {  };
            architect.build(rng)
        },
        Strategy::DrunkardWalk => {
            let mut architect = DrunkardsWalkArchitect {  };
            Ok(architect.build(rng))
        },
        Strategy::RoomAndCorridor => {
            let mut architect = RoomArchitect { rooms: Vec::new() };
            Ok(architect.build(rng))
        },
    }
}

/// An insert leaves a level fit to play: the start and every place to
/// spawn at stay walkable, no exit appears, and the places stay few.
pub proof fn lemma_insert_keeps_playable(
    base: MapBuilder,
    prefab: (&str, i32, i32),
    placed: Option<Point>,
    tiles: Seq<TileType>,
    spawns: Seq<Point>,
    sure: Seq<Point>,
)
    requires
        spec_playable(base),
        base.monster_spawns@.len() <= NUM_MONSTERS,
        base.guaranteed_monster_spawns@.len() == 0,
        spec_inserted(base, prefab, placed, tiles, spawns, sure),
    ensures
        tiles.len() == NUM_TILES,
        spec_enterable(tiles, base.player_start),
        forall|k: int| 0 <= k < spawns.len() ==> spec_enterable(tiles, #[trigger] spawns[k]),
        forall|k: int| 0 <= k < sure.len() ==> spec_enterable(tiles, #[trigger] sure[k]),
        forall|i: int| 0 <= i < NUM_TILES ==> #[trigger] tiles[i] != TileType::Exit,
        spawns.len() <= NUM_MONSTERS + NUM_TILES,
        sure.len() <= NUM_TILES,
{
    let before = base.map.tiles@;
    let start = base.player_start;
    let start_idx = spec_map_idx(start.x as int, start.y as int);
    let planned = base.monster_spawns@;
    if placed is Some {
        let at = placed.unwrap();
        let cells = spec_layout_cells(prefab.0@, prefab.0@.len());
        let width = prefab.1 as int;
        let height = prefab.2 as int;
        let rect = spec_footprint(width, height, at);
        let kept = spec_outside(planned, rect, planned.len());
        let asked = spec_marked(cells, width, at, 'M', cells.len());
        let marked = spec_marked(cells, width, at, 'X', cells.len());
        lemma_outside_len(planned, rect, planned.len());
        lemma_marked_len(cells, width, at, 'M', cells.len());
        lemma_marked_len(cells, width, at, 'X', cells.len());
        assert(cells.len() <= NUM_TILES) by (nonlinear_arith)
            requires
                cells.len() == width * height,
                0 < width < 80,
                0 < height < 50,
        ;
        assert forall|k: int| 0 <= k < spawns.len() implies spec_enterable(
            tiles,
            #[trigger] spawns[k],
        ) by {
            if k < kept.len() {
                lemma_outside_members(planned, rect, planned.len(), k);
                let j = choose|j: int| 0 <= j < planned.len() && #[trigger] planned[j] == kept[k];
                let q = planned[j];
                assert(base.map.spec_can_enter_tile(q));
                assert(spec_point_of(spec_map_idx(q.x as int, q.y as int)) == q);
            } else {
                lemma_marked_members(cells, width, at, 'M', cells.len(), k - kept.len());
                let c = choose|c: int|
                    0 <= c < cells.len() && cells[c] == 'M' && asked[k - kept.len()]
                        == #[trigger] spec_cell_point(width, at, c);
                lemma_cell_stamped(before, cells, width, height, at, c);
            }
        }
        assert forall|k: int| 0 <= k < sure.len() implies spec_enterable(
            tiles,
            #[trigger] sure[k],
        ) by {
            lemma_marked_members(cells, width, at, 'X', cells.len(), k);
            let c = choose|c: int|
                0 <= c < cells.len() && cells[c] == 'X' && marked[k] == #[trigger] spec_cell_point(
                    width,
                    at,
                    c,
                );
            lemma_cell_stamped(before, cells, width, height, at, c);
        }
        let sources = seq![start_idx as usize];
        let f = spec_field(before, sources, GENERATION_DEPTH);
        lemma_field_exists(before, sources, GENERATION_DEPTH);
        lemma_source_is_zero(f, before, sources, GENERATION_DEPTH, 0);
        assert(spec_point_of(start_idx) == start);
        assert(tiles[start_idx] == before[start_idx]);
        assert forall|i: int| 0 <= i < NUM_TILES implies #[trigger] tiles[i]
            != TileType::Exit by {
            assert(before[i] != TileType::Exit);
        }
    } else {
        assert forall|k: int| 0 <= k < spawns.len() implies spec_enterable(
            tiles,
            #[trigger] spawns[k],
        ) by {
            assert(base.map.spec_can_enter_tile(planned[k]));
        }
    }
}

impl MapBuilder {
    /// Assembles the level of a tier: the tier's strategy builds the grid,
    /// an insert chosen by chance is stamped onto it where a place is
    /// found, and the tile farthest from the player's start becomes the
    /// goal. There is no level only where the caves of the first two tiers
    /// leave no floor.
    pub fn new(rng: &mut RandomNumberGenerator, map_level: u32) -> (r: Result<MapBuilder, LevelError>)
        ensures
            match r {
                Ok(mb) => {
                    &&& exists|
                        base: MapBuilder,
                        prefab: (&'static str, i32, i32),
                        placed: Option<Point>,
                    | is_assembled(map_level, base, prefab, placed, mb)
                    &&& spec_playable(mb)
                    &&& spec_goal_farthest(
                        mb.map.tiles@,
                        mb.player_start,
                        mb.teleportation_crystal_start,
                    )
                    &&& mb.theme == spec_theme_of(map_level)
                    &&& spec_strategy_of(map_level) == Strategy::DrunkardWalk ==> mb.player_start
                        == (Point { x: 40, y: 25 })
                },
                Err(e) => e == LevelError::NoFloor && map_level <= 1 && spec_generated(
                    spec_strategy_of(map_level),
                    Err(e),
                ),
            },
    {
        let mut mb = match generate(strategy_of(map_level), rng) {
            Ok(mb) => mb,
            Err(e) => {
                return Err(e);
            },
        };
        let ghost base = mb;
        let prefabs = prefab_list();
        let chosen = random::range(rng, 0, 4);
        let prefab = prefabs[chosen as usize];
        let placed = apply_prefab(&mut mb, rng, prefab);
        proof {
            lemma_insert_keeps_playable(
                base,
                prefab,
                placed,
                mb.map.tiles@,
                mb.monster_spawns@,
                mb.guaranteed_monster_spawns@,
            );
        }
        let goal = mb.find_most_distant();
        mb.teleportation_crystal_start = goal.unwrap();
        mb.theme = theme_of(map_level);
        assert(is_assembled(map_level, base, prefab, placed, mb));
        Ok(mb)
    }
}

/// The start is among the tiles that can be reached from it, so these are
/// never none.
pub proof fn lemma_start_reachable(tiles: Seq<TileType>, start: Point)
    requires
        spec_in_bounds(start),
    ensures
        spec_reachable_from(tiles, start, start),
{
    let sources = seq![spec_map_idx(start.x as int, start.y as int) as usize];
    lemma_field_exists(tiles, sources, GENERATION_DEPTH);
    lemma_source_is_zero(
        spec_field(tiles, sources, GENERATION_DEPTH),
        tiles,
        sources,
        GENERATION_DEPTH,
        0,
    );
}

/// In every level that generation hands out, the tiles that can be reached
/// from the start include the start and the goal.
pub proof fn lemma_playable_connected(mb: MapBuilder)
    requires
        spec_playable(mb),
    ensures
        spec_reachable_from(mb.map.tiles@, mb.player_start, mb.player_start),
        spec_reachable_from(mb.map.tiles@, mb.player_start, mb.teleportation_crystal_start),
        mb.map.tiles@[spec_map_idx(mb.player_start.x as int, mb.player_start.y as int)].spec_walkable(),
{
    lemma_start_reachable(mb.map.tiles@, mb.player_start);
}

} // verus!
