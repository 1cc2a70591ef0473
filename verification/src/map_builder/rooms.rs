//! Rooms and corridors: rectangular rooms that do not touch, joined in the
//! order of their centres by L-shaped corridors.

use vstd::prelude::*;
use bracket_lib::prelude::RandomNumberGenerator;
use crate::geometry::{Point, Rect};
use crate::map::{
    only_carved, spec_in_bounds, spec_map_idx, spec_point_of, Grid, TileType,
};
use crate::map_builder::themes::Theme;
use crate::map_builder::{spec_goal_farthest, spec_reachable_from, MapBuilder};
use crate::random;
use crate::{NUM_TILES, SCREEN_HEIGHT, SCREEN_WIDTH};

verus! {

/// The number of rooms that the strategy aims at.
pub const NUM_ROOMS: usize = 30;

/// The number of rooms that the strategy tries before it settles for those
/// it has.
pub const ROOM_ATTEMPTS: usize = 3000;

/// Lays out rooms and joins them by corridors.
pub struct RoomArchitect {
    pub rooms: Vec<Rect>,
}

/// Whether a room lies inside the rim of the grid and is at least two tiles
/// wide and high.
pub open spec fn room_fits(room: Rect) -> bool {
    &&& 1 <= room.x1
    &&& room.x1 + 2 <= room.x2 <= SCREEN_WIDTH - 2
    &&& 1 <= room.y1
    &&& room.y1 + 2 <= room.y2 <= SCREEN_HEIGHT - 2
}

/// Whether `p` lies in one of the rooms from the one numbered `from` on.
pub open spec fn in_some_room(rooms: Seq<Rect>, from: int, p: Point) -> bool {
    exists|k: int| from <= k < rooms.len() && (#[trigger] rooms[k]).spec_contains(p)
}

/// Whether `p` lies on the horizontal run between columns `x1` and `x2` of
/// row `y`, ends included.
pub open spec fn on_horizontal_run(p: Point, x1: i32, x2: i32, y: i32) -> bool {
    p.y == y && ((x1 <= p.x <= x2) || (x2 <= p.x <= x1))
}

/// Whether `p` lies on the vertical run between rows `y1` and `y2` of column
/// `x`, ends included.
pub open spec fn on_vertical_run(p: Point, y1: i32, y2: i32, x: i32) -> bool {
    p.x == x && ((y1 <= p.y <= y2) || (y2 <= p.y <= y1))
}

/// Whether `p` lies on the corridor from `from` to `to`, which has its bend
/// under or over `to` where it runs along the row of `from` first, and
/// beside `to` otherwise.
pub open spec fn on_corridor(p: Point, from: Point, to: Point, along_row_first: bool) -> bool {
    if along_row_first {
        on_horizontal_run(p, from.x, to.x, from.y) || on_vertical_run(p, from.y, to.y, to.x)
    } else {
        on_vertical_run(p, from.y, to.y, from.x) || on_horizontal_run(p, from.x, to.x, to.y)
    }
}

/// Whether `p` lies on one of the corridors that join each of the rooms
/// numbered 1 to `n` to the room before it; `turns[k]` says of the corridor
/// to room `k` whether it runs along the row first.
pub open spec fn on_corridors(p: Point, rooms: Seq<Rect>, turns: Seq<bool>, n: int) -> bool
    decreases n,
{
    if n <= 0 {
        false
    } else {
        on_corridors(p, rooms, turns, n - 1) || on_corridor(
            p,
            rooms[n - 1].spec_center(),
            rooms[n].spec_center(),
            turns[n],
        )
    }
}

/// Whether `sorted` holds the rooms of `rooms` in the order of the columns
/// of their centres.
pub open spec fn is_sorted_by_center(rooms: Seq<Rect>, sorted: Seq<Rect>) -> bool {
    &&& sorted.to_multiset() == rooms.to_multiset()
    &&& sorted.len() == rooms.len()
    &&& forall|a: int, b: int|
        0 <= a <= b < sorted.len() ==> sorted[a].spec_center().x <= sorted[b].spec_center().x
}

/// Whether `after` is `before` with the corridors dug that join the rooms
/// in the order `sorted`, the order of the columns of their centres, with
/// the turns `turns`.
pub open spec fn corridors_dug(
    before: Seq<TileType>,
    after: Seq<TileType>,
    rooms: Seq<Rect>,
    sorted: Seq<Rect>,
    turns: Seq<bool>,
) -> bool {
    &&& is_sorted_by_center(rooms, sorted)
    &&& turns.len() == sorted.len()
    &&& forall|i: int|
        0 <= i < NUM_TILES ==> #[trigger] after[i] == if on_corridors(
            spec_point_of(i),
            sorted,
            turns,
            sorted.len() - 1,
        ) {
            TileType::Floor
        } else {
            before[i]
        }
}

/// What a tile becomes when it is decorated on the roll `roll` of a die of
/// eleven sides: plain floor is decorated on a roll above 5, a plain wall
/// on a roll above 6, and nothing else changes.
pub open spec fn spec_decorated(tile: TileType, roll: int) -> TileType {
    match tile {
        TileType::Floor => if roll > 5 {
            TileType::Floor2
        } else {
            TileType::Floor
        },
        TileType::Wall => if roll > 6 {
            TileType::Wall2
        } else {
            TileType::Wall
        },
        other => other,
    }
}

/// Whether `after` is `before` decorated, tile `i` on the roll `rolls[i]`.
pub open spec fn is_decorated(before: Seq<TileType>, after: Seq<TileType>, rolls: Seq<int>) -> bool {
    &&& before.len() == NUM_TILES
    &&& after.len() == NUM_TILES
    &&& rolls.len() == NUM_TILES
    &&& forall|i: int| 0 <= i < NUM_TILES ==> 0 <= #[trigger] rolls[i] < 11
    &&& forall|i: int|
        0 <= i < NUM_TILES ==> #[trigger] after[i] == spec_decorated(before[i], rolls[i])
}

/// What a tile becomes when it is decorated on the roll `roll`.
pub fn decorated(tile: TileType, roll: i32) -> (r: TileType)
    ensures
        r == spec_decorated(tile, roll as int),
{
    match tile {
        TileType::Floor => if roll > 5 {
            TileType::Floor2
        } else {
            TileType::Floor
        },
        TileType::Wall => if roll > 6 {
            TileType::Wall2
        } else {
            TileType::Wall
        },
        other => other,
    }
}

/// The grid of solid rock with the rooms carved out.
pub open spec fn spec_room_tiles(rooms: Seq<Rect>) -> Seq<TileType> {
    Seq::new(
        NUM_TILES as nat,
        |i: int|
            if in_some_room(rooms, 0, spec_point_of(i)) {
                TileType::Floor
            } else {
                TileType::Wall
            },
    )
}

/// Whether the rooms are laid out as a level asks: there are between one
/// and `NUM_ROOMS` of them, each fits, and no two touch.
pub open spec fn are_rooms(rooms: Seq<Rect>) -> bool {
    &&& 1 <= rooms.len() <= NUM_ROOMS
    &&& forall|k: int| 0 <= k < rooms.len() ==> room_fits(#[trigger] rooms[k])
    &&& forall|j: int, k: int|
        0 <= j < k < rooms.len() ==> !(#[trigger] rooms[j]).spec_intersect(#[trigger] rooms[k])
}

/// Whether `mb` is the level of the rooms `rooms`, with `carved` the grid
/// once rooms and corridors are dug: the corridors join the rooms in the
/// order `sorted` with the turns `turns`; the floor and the walls were then
/// decorated on the rolls `rolls`; the player starts in the middle of the
/// first room; every other room's middle is a place to spawn at; and the
/// goal is the tile farthest from the start.
pub open spec fn is_room_level(
    rooms: Seq<Rect>,
    sorted: Seq<Rect>,
    turns: Seq<bool>,
    carved: Seq<TileType>,
    rolls: Seq<int>,
    mb: MapBuilder,
) -> bool {
    &&& are_rooms(rooms)
    &&& mb.map.wf()
    &&& corridors_dug(spec_room_tiles(rooms), carved, rooms, sorted, turns)
    &&& is_decorated(carved, mb.map.tiles@, rolls)
    &&& mb.player_start == rooms[0].spec_center()
    &&& mb.monster_spawns@.len() == rooms.len() - 1
    &&& forall|k: int|
        0 <= k < mb.monster_spawns@.len() ==> #[trigger] mb.monster_spawns@[k] == rooms[k
            + 1].spec_center()
    &&& mb.guaranteed_monster_spawns@.len() == 0
    &&& spec_goal_farthest(mb.map.tiles@, mb.player_start, mb.teleportation_crystal_start)
    &&& mb.theme == Theme::Dungeon
}

/// Sorts the rooms with `slice::sort_by_key`, the key being the column of a
/// room's centre. The contract claims that the rooms are the same as before
/// and that the columns of their centres ascend; that the sort is stable is
/// not claimed.
#[verifier::external_body]
fn sort_by_center_column(rooms: &mut Vec<Rect>)
    ensures
        final(rooms)@.to_multiset() == old(rooms)@.to_multiset(),
        final(rooms)@.len() == old(rooms)@.len(),
        forall|a: int, b: int|
            0 <= a <= b < final(rooms)@.len() ==> final(rooms)@[a].spec_center().x <= final(rooms)@[b].spec_center().x,
{
    rooms.sort_by_key(|room| room.center().x);
}

/// Which corridors there are up to room `n` does not depend on the turns of
/// later corridors.
proof fn lemma_corridors_prefix(
    p: Point,
    rooms: Seq<Rect>,
    turns: Seq<bool>,
    longer: Seq<bool>,
    n: int,
)
    requires
        n < turns.len() <= longer.len(),
        forall|k: int| 0 <= k <= n ==> turns[k] == longer[k],
    ensures
        on_corridors(p, rooms, turns, n) == on_corridors(p, rooms, longer, n),
    decreases n,
{
    if n > 0 {
        lemma_corridors_prefix(p, rooms, turns, longer, n - 1);
    }
}

/// Makes the tiles of `rect` that lie on the grid plain floor.
pub fn carve_rect(map: &mut Grid, rect: &Rect)
    requires
        old(map).wf(),
    ensures
        final(map).wf(),
        final(map).revealed_tiles == old(map).revealed_tiles,
        forall|i: int|
            0 <= i < NUM_TILES ==> #[trigger] final(map).tiles@[i] == if rect.spec_contains(
                spec_point_of(i),
            ) {
                TileType::Floor
            } else {
                old(map).tiles@[i]
            },
{
    let mut i: usize = 0;
    while i < NUM_TILES
        invariant
            i <= NUM_TILES,
            map.wf(),
            map.revealed_tiles == old(map).revealed_tiles,
            forall|j: int|
                0 <= j < i ==> #[trigger] map.tiles@[j] == if rect.spec_contains(spec_point_of(j)) {
                    TileType::Floor
                } else {
                    old(map).tiles@[j]
                },
            forall|j: int| i <= j < NUM_TILES ==> #[trigger] map.tiles@[j] == old(map).tiles@[j],
        decreases NUM_TILES - i,
    {
        let point = map.index_to_point2d(i);
        if rect.point_in_rect(point) {
            map.tiles.set(i, TileType::Floor);
        }
        i += 1;
    }
}

impl RoomArchitect {
    /// Carves a corridor along column `x`, from row `y1` to row `y2`.
    pub fn apply_vertical_tunnel(&self, y1: i32, y2: i32, x: i32, map: &mut Grid)
        requires
            old(map).wf(),
        ensures
            final(map).wf(),
            final(map).revealed_tiles == old(map).revealed_tiles,
            forall|i: int|
                0 <= i < NUM_TILES ==> #[trigger] final(map).tiles@[i] == if on_vertical_run(
                    spec_point_of(i),
                    y1,
                    y2,
                    x,
                ) {
                    TileType::Floor
                } else {
                    old(map).tiles@[i]
                },
    {
        let mut i: usize = 0;
        while i < NUM_TILES
            invariant
                i <= NUM_TILES,
                map.wf(),
                map.revealed_tiles == old(map).revealed_tiles,
                forall|j: int|
                    0 <= j < i ==> #[trigger] map.tiles@[j] == if on_vertical_run(
                        spec_point_of(j),
                        y1,
                        y2,
                        x,
                    ) {
                        TileType::Floor
                    } else {
                        old(map).tiles@[j]
                    },
                forall|j: int|
                    i <= j < NUM_TILES ==> #[trigger] map.tiles@[j] == old(map).tiles@[j],
            decreases NUM_TILES - i,
        {
            let p = map.index_to_point2d(i);
            if p.x == x && ((y1 <= p.y && p.y <= y2) || (y2 <= p.y && p.y <= y1)) {
                map.tiles.set(i, TileType::Floor);
            }
            i += 1;
        }
    }

    /// Carves a corridor along row `y`, from column `x1` to column `x2`.
    pub fn apply_horizontal_tunnel(&self, x1: i32, x2: i32, y: i32, map: &mut Grid)
        requires
            old(map).wf(),
        ensures
            final(map).wf(),
            final(map).revealed_tiles == old(map).revealed_tiles,
            forall|i: int|
                0 <= i < NUM_TILES ==> #[trigger] final(map).tiles@[i] == if on_horizontal_run(
                    spec_point_of(i),
                    x1,
                    x2,
                    y,
                ) {
                    TileType::Floor
                } else {
                    old(map).tiles@[i]
                },
    {
        let mut i: usize = 0;
        while i < NUM_TILES
            invariant
                i <= NUM_TILES,
                map.wf(),
                map.revealed_tiles == old(map).revealed_tiles,
                forall|j: int|
                    0 <= j < i ==> #[trigger] map.tiles@[j] == if on_horizontal_run(
                        spec_point_of(j),
                        x1,
                        x2,
                        y,
                    ) {
                        TileType::Floor
                    } else {
                        old(map).tiles@[j]
                    },
                forall|j: int|
                    i <= j < NUM_TILES ==> #[trigger] map.tiles@[j] == old(map).tiles@[j],
            decreases NUM_TILES - i,
        {
            let p = map.index_to_point2d(i);
            if p.y == y && ((x1 <= p.x && p.x <= x2) || (x2 <= p.x && p.x <= x1)) {
                map.tiles.set(i, TileType::Floor);
            }
            i += 1;
        }
    }

    /// Whether `room` touches or overlaps one of the rooms laid out so far.
    pub fn overlaps(&self, room: &Rect) -> (overlap: bool)
        ensures
            overlap == exists|k: int|
                0 <= k < self.rooms@.len() && (#[trigger] self.rooms@[k]).spec_intersect(*room),
    {
        let mut overlap = false;
        let mut k: usize = 0;
        while k < self.rooms.len()
            invariant
                k <= self.rooms@.len(),
                overlap == exists|j: int|
                    0 <= j < k && (#[trigger] self.rooms@[j]).spec_intersect(*room),
            decreases self.rooms@.len() - k,
        {
            if self.rooms[k].intersect(room) {
                overlap = true;
            }
            k += 1;
        }
        overlap
    }

    /// Lays out rooms at random places until there are `NUM_ROOMS` of them
    /// or `ROOM_ATTEMPTS` have been tried, and carves each into the grid. A
    /// room that touches an earlier one is dropped.
    pub fn build_random_rooms(&mut self, rng: &mut RandomNumberGenerator, map: &mut Grid)
        requires
            old(map).wf(),
        ensures
            final(map).wf(),
            final(map).revealed_tiles == old(map).revealed_tiles,
            old(self).rooms@.len() <= final(self).rooms@.len(),
            final(self).rooms@.len() <= NUM_ROOMS || final(self).rooms@.len() == old(self).rooms@.len(),
            final(self).rooms@.subrange(0, old(self).rooms@.len() as int) == old(self).rooms@,
            old(self).rooms@.len() == 0 ==> final(self).rooms@.len() >= 1,
            forall|k: int|
                old(self).rooms@.len() <= k < final(self).rooms@.len() ==> room_fits(
                    #[trigger] final(self).rooms@[k],
                ),
            forall|j: int, k: int|
                0 <= j < k < final(self).rooms@.len() && old(self).rooms@.len() <= k ==> !(
                #[trigger] final(self).rooms@[j]).spec_intersect(#[trigger] final(self).rooms@[k]),
            forall|i: int|
                0 <= i < NUM_TILES ==> #[trigger] final(map).tiles@[i] == if in_some_room(
                    final(self).rooms@,
                    old(self).rooms@.len() as int,
                    spec_point_of(i),
                ) {
                    TileType::Floor
                } else {
                    old(map).tiles@[i]
                },
    {
        let ghost first = self.rooms@.len();
        let mut attempts: usize = 0;
        while self.rooms.len() < NUM_ROOMS && attempts < ROOM_ATTEMPTS
            invariant
                attempts <= ROOM_ATTEMPTS,
                map.wf(),
                map.revealed_tiles == old(map).revealed_tiles,
                first == old(self).rooms@.len(),
                first <= self.rooms@.len(),
                self.rooms@.len() <= NUM_ROOMS || self.rooms@.len() == first,
                self.rooms@.subrange(0, first as int) == old(self).rooms@,
                first == 0 && attempts > 0 ==> self.rooms@.len() >= 1,
                forall|k: int| first <= k < self.rooms@.len() ==> room_fits(#[trigger] self.rooms@[k]),
                forall|j: int, k: int|
                    0 <= j < k < self.rooms@.len() && first <= k ==> !(
                    #[trigger] self.rooms@[j]).spec_intersect(#[trigger] self.rooms@[k]),
                forall|i: int|
                    0 <= i < NUM_TILES ==> #[trigger] map.tiles@[i] == if in_some_room(
                        self.rooms@,
                        first as int,
                        spec_point_of(i),
                    ) {
                        TileType::Floor
                    } else {
                        old(map).tiles@[i]
                    },
            decreases ROOM_ATTEMPTS - attempts,
        {
            let x = random::range(rng, 1, SCREEN_WIDTH - 6);
            let y = random::range(rng, 1, SCREEN_HEIGHT - 6);
            let w = random::range(rng, 2, 6);
            let h = random::range(rng, 2, 6);
            let room = Rect::with_size(x, y, w, h);
            let overlap = self.overlaps(&room);
            if !overlap {
                let ghost before = self.rooms@;
                let ghost tiles = map.tiles@;
                carve_rect(map, &room);
                self.rooms.push(room);
                proof {
                    assert(self.rooms@.subrange(0, first as int) =~= before.subrange(
                        0,
                        first as int,
                    ));
                    assert forall|j: int, k: int|
                        0 <= j < k < self.rooms@.len() && first <= k implies !(
                    #[trigger] self.rooms@[j]).spec_intersect(#[trigger] self.rooms@[k]) by {
                        if k == before.len() {
                            assert(before[j] == self.rooms@[j]);
                        } else {
                            assert(before[j] == self.rooms@[j]);
                            assert(before[k] == self.rooms@[k]);
                        }
                    }
                    assert forall|i: int| 0 <= i < NUM_TILES implies #[trigger] map.tiles@[i]
                        == if in_some_room(self.rooms@, first as int, spec_point_of(i)) {
                        TileType::Floor
                    } else {
                        old(map).tiles@[i]
                    } by {
                        let p = spec_point_of(i);
                        assert(tiles[i] == if in_some_room(before, first as int, p) {
                            TileType::Floor
                        } else {
                            old(map).tiles@[i]
                        });
                        if in_some_room(before, first as int, p) {
                            let k = choose|k: int|
                                first <= k < before.len() && (#[trigger] before[k]).spec_contains(
                                    p,
                                );
                            assert(self.rooms@[k].spec_contains(p));
                        }
                        if room.spec_contains(p) {
                            assert(self.rooms@[before.len() as int].spec_contains(p));
                        }
                        if in_some_room(self.rooms@, first as int, p) {
                            let k = choose|k: int|
                                first <= k < self.rooms@.len() && (
                                #[trigger] self.rooms@[k]).spec_contains(p);
                            if k < before.len() {
                                assert(before[k].spec_contains(p));
                            }
                        }
                    }
                }
            }
            attempts += 1;
        }
    }

    /// Joins each room but the first to the one before it, in the order of
    /// the columns of their centres, by a corridor with one bend. Chance
    /// decides which leg comes first.
    pub fn build_corridors(&self, rng: &mut RandomNumberGenerator, map: &mut Grid)
        requires
            old(map).wf(),
        ensures
            final(map).wf(),
            final(map).revealed_tiles == old(map).revealed_tiles,
            only_carved(old(map).tiles@, final(map).tiles@),
            exists|sorted: Seq<Rect>, turns: Seq<bool>|
                corridors_dug(old(map).tiles@, final(map).tiles@, self.rooms@, sorted, turns),
    {
        let mut rooms = self.rooms.clone();
        assert(rooms@ =~= self.rooms@);
        sort_by_center_column(&mut rooms);
        let ghost mut turns: Seq<bool> = seq![false];
        let mut i: usize = 1;
        while i < rooms.len()
            invariant
                1 <= i,
                i <= rooms@.len() || (rooms@.len() == 0 && i == 1),
                map.wf(),
                map.revealed_tiles == old(map).revealed_tiles,
                only_carved(old(map).tiles@, map.tiles@),
                turns.len() == i,
                forall|t: int|
                    0 <= t < NUM_TILES ==> #[trigger] map.tiles@[t] == if on_corridors(
                        spec_point_of(t),
                        rooms@,
                        turns,
                        i - 1,
                    ) {
                        TileType::Floor
                    } else {
                        old(map).tiles@[t]
                    },
            decreases rooms@.len() - i,
        {
            let prev = rooms[i - 1].center();
            let new = rooms[i].center();
            let ghost before = map.tiles@;
            let ghost earlier = turns;
            let along_row_first = random::range(rng, 0, 2) == 1;
            if along_row_first {
                self.apply_horizontal_tunnel(prev.x, new.x, prev.y, map);
                self.apply_vertical_tunnel(prev.y, new.y, new.x, map);
            } else {
                self.apply_vertical_tunnel(prev.y, new.y, prev.x, map);
                self.apply_horizontal_tunnel(prev.x, new.x, new.y, map);
            }
            proof {
                turns = turns.push(along_row_first);
                assert forall|t: int| 0 <= t < NUM_TILES implies #[trigger] map.tiles@[t]
                    == if on_corridors(spec_point_of(t), rooms@, turns, i as int) {
                    TileType::Floor
                } else {
                    old(map).tiles@[t]
                } by {
                    lemma_corridors_prefix(spec_point_of(t), rooms@, earlier, turns, i - 1);
                    assert(before[t] == if on_corridors(
                        spec_point_of(t),
                        rooms@,
                        earlier,
                        i - 1,
                    ) {
                        TileType::Floor
                    } else {
                        old(map).tiles@[t]
                    });
                }
            }
            i += 1;
        }
        proof {
            assert(is_sorted_by_center(self.rooms@, rooms@));
            if rooms@.len() == 0 {
                let none = Seq::<bool>::empty();
                assert forall|t: int| 0 <= t < NUM_TILES implies !on_corridors(
                    spec_point_of(t),
                    rooms@,
                    none,
                    -1,
                ) && #[trigger] map.tiles@[t] == old(map).tiles@[t] by {
                    assert(!on_corridors(spec_point_of(t), rooms@, turns, 0));
                }
                assert(corridors_dug(old(map).tiles@, map.tiles@, self.rooms@, rooms@, none));
            } else {
                assert(corridors_dug(old(map).tiles@, map.tiles@, self.rooms@, rooms@, turns));
            }
        }
    }

    /// Decorates about half of the plain floor and fewer of the plain walls.
    /// A die of eleven sides is rolled for every tile of plain floor, and
    /// then for every plain wall; what a tile becomes on its roll is what
    /// `decorated` makes of it. A tile keeps its kind: floor stays floor and
    /// wall stays wall.
    pub fn carve_decorations(&self, rng: &mut RandomNumberGenerator, map: &mut Grid)
        requires
            old(map).wf(),
        ensures
            final(map).wf(),
            final(map).revealed_tiles == old(map).revealed_tiles,
            exists|rolls: Seq<int>| is_decorated(old(map).tiles@, final(map).tiles@, rolls),
            forall|i: int|
                0 <= i < NUM_TILES ==> match old(map).tiles@[i] {
                    TileType::Floor => #[trigger] final(map).tiles@[i] == TileType::Floor || final(map).tiles@[i] == TileType::Floor2,
                    TileType::Wall => final(map).tiles@[i] == TileType::Wall || final(map).tiles@[i]
                        == TileType::Wall2,
                    other => final(map).tiles@[i] == other,
                },
    {
        let ghost mut rolls: Seq<int> = Seq::empty();
        let mut i: usize = 0;
        while i < NUM_TILES
            invariant
                i <= NUM_TILES,
                map.wf(),
                map.revealed_tiles == old(map).revealed_tiles,
                rolls.len() == i,
                forall|j: int| 0 <= j < i ==> 0 <= #[trigger] rolls[j] < 11,
                forall|j: int|
                    0 <= j < i ==> #[trigger] map.tiles@[j] == if old(map).tiles@[j]
                        == TileType::Floor {
                        spec_decorated(TileType::Floor, rolls[j])
                    } else {
                        old(map).tiles@[j]
                    },
                forall|j: int| i <= j < NUM_TILES ==> #[trigger] map.tiles@[j] == old(map).tiles@[j],
            decreases NUM_TILES - i,
        {
            if map.tiles[i] == TileType::Floor {
                let roll = random::range(rng, 0, 11);
                map.tiles.set(i, decorated(TileType::Floor, roll));
                proof {
                    rolls = rolls.push(roll as int);
                }
            } else {
                proof {
                    rolls = rolls.push(0);
                }
            }
            i += 1;
        }
        let ghost floors_done = map.tiles@;
        let mut i: usize = 0;
        while i < NUM_TILES
            invariant
                i <= NUM_TILES,
                map.wf(),
                map.revealed_tiles == old(map).revealed_tiles,
                floors_done.len() == NUM_TILES,
                rolls.len() == NUM_TILES,
                forall|j: int| 0 <= j < NUM_TILES ==> 0 <= #[trigger] rolls[j] < 11,
                forall|j: int|
                    0 <= j < i ==> #[trigger] map.tiles@[j] == spec_decorated(
                        old(map).tiles@[j],
                        rolls[j],
                    ),
                forall|j: int| i <= j < NUM_TILES ==> #[trigger] map.tiles@[j] == floors_done[j],
                forall|j: int|
                    0 <= j < NUM_TILES ==> #[trigger] floors_done[j] == if old(map).tiles@[j]
                        == TileType::Floor {
                        spec_decorated(TileType::Floor, rolls[j])
                    } else {
                        old(map).tiles@[j]
                    },
            decreases NUM_TILES - i,
        {
            assert(floors_done[i as int] == TileType::Wall <==> old(map).tiles@[i as int]
                == TileType::Wall);
            if map.tiles[i] == TileType::Wall {
                let roll = random::range(rng, 0, 11);
                map.tiles.set(i, decorated(TileType::Wall, roll));
                proof {
                    rolls = rolls.update(i as int, roll as int);
                }
            }
            i += 1;
        }
        assert(is_decorated(old(map).tiles@, map.tiles@, rolls));
    }

    /// Builds a level of rooms and corridors. The player starts in the
    /// middle of the first room; every other room's middle is a place to
    /// spawn at; the goal is the tile farthest from the start.
    pub fn build(&mut self, rng: &mut RandomNumberGenerator) -> (mb: MapBuilder)
        ensures
            exists|sorted: Seq<Rect>, turns: Seq<bool>, carved: Seq<TileType>, rolls: Seq<int>|
                is_room_level(final(self).rooms@, sorted, turns, carved, rolls, mb),
            spec_goal_farthest(mb.map.tiles@, mb.player_start, mb.teleportation_crystal_start),
            mb.map.wf(),
            mb.map.spec_can_enter_tile(mb.player_start),
            spec_reachable_from(mb.map.tiles@, mb.player_start, mb.teleportation_crystal_start),
            mb.guaranteed_monster_spawns@.len() == 0,
            forall|k: int|
                0 <= k < mb.monster_spawns@.len() ==> mb.map.spec_can_enter_tile(
                    #[trigger] mb.monster_spawns@[k],
                ),
            mb.theme == Theme::Dungeon,
            forall|i: int|
                0 <= i < NUM_TILES ==> #[trigger] mb.map.tiles@[i] != TileType::Exit
                    && mb.map.tiles@[i] != TileType::Floor3,
            forall|i: int| 0 <= i < NUM_TILES ==> !(#[trigger] mb.map.revealed_tiles@[i]),
            1 <= final(self).rooms@.len() <= NUM_ROOMS,
            forall|k: int|
                0 <= k < final(self).rooms@.len() ==> room_fits(#[trigger] final(self).rooms@[k]),
            forall|j: int, k: int|
                0 <= j < k < final(self).rooms@.len() ==> !(
                #[trigger] final(self).rooms@[j]).spec_intersect(#[trigger] final(self).rooms@[k]),
            forall|k: int, i: int|
                0 <= k < final(self).rooms@.len() && 0 <= i < NUM_TILES && (
                #[trigger] final(self).rooms@[k]).spec_contains(spec_point_of(i)) ==> (
                #[trigger] mb.map.tiles@[i]).spec_walkable(),
            mb.player_start == final(self).rooms@[0].spec_center(),
            mb.monster_spawns@.len() == final(self).rooms@.len() - 1,
            forall|k: int|
                0 <= k < mb.monster_spawns@.len() ==> #[trigger] mb.monster_spawns@[k] == final(self).rooms@[k + 1].spec_center(),
    {
        let mut mb = MapBuilder {
            map: Grid::new(),
            monster_spawns: Vec::new(),
            player_start: Point::zero(),
            guaranteed_monster_spawns: Vec::new(),
            teleportation_crystal_start: Point::zero(),
            theme: Theme::Dungeon,
        };
        mb.fill(TileType::Wall);
        self.rooms.clear();
        self.build_random_rooms(rng, &mut mb.map);
        let ghost after_rooms = mb.map.tiles@;
        assert(after_rooms =~= spec_room_tiles(self.rooms@));
        self.build_corridors(rng, &mut mb.map);
        let ghost carved = mb.map.tiles@;
        let ghost (sorted, turns) = choose|sorted: Seq<Rect>, turns: Seq<bool>|
            corridors_dug(after_rooms, carved, self.rooms@, sorted, turns);
        let first = self.rooms[0];
        mb.player_start = first.center();
        proof {
            assert(room_fits(self.rooms@[0]));
            let c = first.spec_center();
            assert(first.spec_contains(c));
            let i = spec_map_idx(c.x as int, c.y as int);
            assert(spec_point_of(i) == c);
            assert(after_rooms[i] == TileType::Floor);
            assert(carved[i] == TileType::Floor);
        }
        let mut k: usize = 1;
        while k < self.rooms.len()
            invariant
                1 <= k <= self.rooms@.len(),
                mb.monster_spawns@.len() == k - 1,
                forall|j: int|
                    0 <= j < mb.monster_spawns@.len() ==> #[trigger] mb.monster_spawns@[j]
                        == self.rooms@[j + 1].spec_center(),
                mb.map.wf(),
                mb.map.tiles@ == carved,
                only_carved(after_rooms, carved),
                mb.guaranteed_monster_spawns@.len() == 0,
                mb.player_start == first.spec_center(),
                mb.theme == Theme::Dungeon,
                forall|i: int| 0 <= i < NUM_TILES ==> !(#[trigger] mb.map.revealed_tiles@[i]),
                forall|r: int| 0 <= r < self.rooms@.len() ==> room_fits(#[trigger] self.rooms@[r]),
                forall|r: int, i: int|
                    0 <= r < self.rooms@.len() && 0 <= i < NUM_TILES && (
                    #[trigger] self.rooms@[r]).spec_contains(spec_point_of(i))
                        ==> #[trigger] after_rooms[i] == TileType::Floor,
                forall|j: int|
                    0 <= j < mb.monster_spawns@.len() ==> spec_in_bounds(
                        #[trigger] mb.monster_spawns@[j],
                    ) && carved[spec_map_idx(
                        mb.monster_spawns@[j].x as int,
                        mb.monster_spawns@[j].y as int,
                    )] == TileType::Floor,
            decreases self.rooms@.len() - k,
        {
            let room = self.rooms[k];
            let center = room.center();
            proof {
                assert(room_fits(self.rooms@[k as int]));
                assert(room.spec_contains(center));
                let i = spec_map_idx(center.x as int, center.y as int);
                assert(spec_point_of(i) == center);
                assert(after_rooms[i] == TileType::Floor);
                assert(carved[i] == TileType::Floor);
            }
            mb.monster_spawns.push(center);
            k += 1;
        }
        self.carve_decorations(rng, &mut mb.map);
        let ghost rolls = choose|rolls: Seq<int>| is_decorated(carved, mb.map.tiles@, rolls);
        proof {
            let i = spec_map_idx(mb.player_start.x as int, mb.player_start.y as int);
            assert(carved[i] == TileType::Floor);
            assert(mb.map.tiles@[i] == TileType::Floor || mb.map.tiles@[i] == TileType::Floor2);
            assert forall|j: int| 0 <= j < mb.monster_spawns@.len() implies mb.map.spec_can_enter_tile(
                #[trigger] mb.monster_spawns@[j],
            ) by {
                let p = mb.monster_spawns@[j];
                let i = spec_map_idx(p.x as int, p.y as int);
                assert(carved[i] == TileType::Floor);
                assert(mb.map.tiles@[i] == TileType::Floor || mb.map.tiles@[i] == TileType::Floor2);
            }
            assert forall|i: int| 0 <= i < NUM_TILES implies #[trigger] mb.map.tiles@[i]
                != TileType::Exit && mb.map.tiles@[i] != TileType::Floor3 by {
                assert(after_rooms[i] == TileType::Wall || after_rooms[i] == TileType::Floor);
                assert(carved[i] == after_rooms[i] || carved[i] == TileType::Floor);
            }
            assert forall|k: int, i: int|
                0 <= k < self.rooms@.len() && 0 <= i < NUM_TILES && (
                #[trigger] self.rooms@[k]).spec_contains(spec_point_of(i)) implies (
            #[trigger] mb.map.tiles@[i]).spec_walkable() by {
                assert(after_rooms[i] == TileType::Floor);
                assert(carved[i] == TileType::Floor);
            }
        }
        let goal = mb.find_most_distant();
        mb.teleportation_crystal_start = goal.unwrap();
        assert(are_rooms(self.rooms@));
        assert(is_room_level(self.rooms@, sorted, turns, carved, rolls, mb));
        mb
    }
}

} // verus!
