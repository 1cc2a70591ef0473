//! Distance fields over the tile grid: for every tile, the number of steps of
//! a shortest walk from the nearest source tile, found by breadth-first
//! expansion over the four orthogonal neighbours.

use vstd::prelude::*;

use crate::map::{same_walkability, Grid, TileType};
use crate::{NUM_TILES, SCREEN_WIDTH};

verus! {

/// The entry of a tile that no walk from a source reaches within the cutoff.
pub const UNREACHABLE: u32 = 0xffff_ffff;

/// The opposite of direction `d`.
pub open spec fn spec_opposite(d: int) -> int {
    if d == 0 {
        1
    } else if d == 1 {
        0
    } else if d == 2 {
        3
    } else {
        2
    }
}

/// The tile next to tile `i` in direction `d`: 0 is west, 1 east, 2 north,
/// 3 south. There is none beyond the edge of the grid.
pub open spec fn spec_neighbor(i: int, d: int) -> Option<int> {
    if !(0 <= i < NUM_TILES) {
        None
    } else if d == 0 {
        if i % (SCREEN_WIDTH as int) != 0 {
            Some(i - 1)
        } else {
            None
        }
    } else if d == 1 {
        if i % (SCREEN_WIDTH as int) != SCREEN_WIDTH - 1 {
            Some(i + 1)
        } else {
            None
        }
    } else if d == 2 {
        if i >= SCREEN_WIDTH {
            Some(i - SCREEN_WIDTH)
        } else {
            None
        }
    } else if d == 3 {
        if i + SCREEN_WIDTH < NUM_TILES {
            Some(i + SCREEN_WIDTH)
        } else {
            None
        }
    } else {
        None
    }
}

/// The neighbour of tile `i` in direction `d`, if an actor can step onto it.
pub open spec fn spec_exit(tiles: Seq<TileType>, i: int, d: int) -> Option<int> {
    match spec_neighbor(i, d) {
        Some(j) => if tiles[j].spec_walkable() {
            Some(j)
        } else {
            None
        },
        None => None,
    }
}

/// Whether a walk of `m` steps or fewer leads from a source to the neighbour
/// of tile `i` in direction `d`.
pub open spec fn within_via(
    tiles: Seq<TileType>,
    sources: Seq<usize>,
    i: int,
    d: int,
    m: nat,
) -> bool
    decreases m, 1nat,
{
    match spec_neighbor(i, d) {
        Some(j) => within(tiles, sources, j, m),
        None => false,
    }
}

/// Whether a walk of `n` steps or fewer leads from a source to tile `i`.
/// Each step goes to an orthogonal neighbour that is walkable; the source
/// itself need not be.
pub open spec fn within(tiles: Seq<TileType>, sources: Seq<usize>, i: int, n: nat) -> bool
    decreases n, 0nat,
{
    if !(0 <= i < NUM_TILES) {
        false
    } else if n == 0 {
        sources.contains(i as usize)
    } else {
        let m = (n - 1) as nat;
        ||| within(tiles, sources, i, m)
        ||| (tiles[i].spec_walkable() && (within_via(tiles, sources, i, 0, m) || within_via(
            tiles,
            sources,
            i,
            1,
            m,
        ) || within_via(tiles, sources, i, 2, m) || within_via(tiles, sources, i, 3, m)))
    }
}

/// Whether the shortest walk from a source to tile `i` has exactly `d` steps.
pub open spec fn is_distance(tiles: Seq<TileType>, sources: Seq<usize>, i: int, d: nat) -> bool {
    within(tiles, sources, i, d) && (d > 0 ==> !within(tiles, sources, i, (d - 1) as nat))
}

/// The longest walk that a field with cutoff `max_depth` records: sources
/// are always recorded, other tiles below the cutoff only.
pub open spec fn spec_limit(max_depth: u32) -> nat {
    if max_depth == 0 {
        0
    } else {
        (max_depth - 1) as nat
    }
}

/// Whether `f` is the distance field of the sources on the grid: each entry
/// is the length of the shortest walk from a source, and `UNREACHABLE` where
/// no walk within the limit exists.
pub open spec fn is_field_of(
    f: Seq<u32>,
    tiles: Seq<TileType>,
    sources: Seq<usize>,
    max_depth: u32,
) -> bool {
    &&& f.len() == NUM_TILES
    &&& forall|i: int|
        0 <= i < NUM_TILES ==> if #[trigger] f[i] == UNREACHABLE {
            !within(tiles, sources, i, spec_limit(max_depth))
        } else {
            f[i] <= spec_limit(max_depth) && is_distance(tiles, sources, i, f[i] as nat)
        }
}

/// A walk that is short enough for `a` steps is short enough for `b >= a`.
pub proof fn lemma_within_monotonic(
    tiles: Seq<TileType>,
    sources: Seq<usize>,
    i: int,
    a: nat,
    b: nat,
)
    requires
        a <= b,
        within(tiles, sources, i, a),
    ensures
        within(tiles, sources, i, b),
    decreases b,
{
    if a < b {
        lemma_within_monotonic(tiles, sources, i, a, (b - 1) as nat);
    }
}

/// A neighbour lies on the grid, and going back from it gives the tile.
pub proof fn lemma_neighbor_symmetric(i: int, d: int)
    requires
        spec_neighbor(i, d) is Some,
    ensures
        0 <= i < NUM_TILES,
        0 <= d < 4,
        0 <= spec_neighbor(i, d).unwrap() < NUM_TILES,
        spec_neighbor(spec_neighbor(i, d).unwrap(), spec_opposite(d)) == Some(i),
{
}

/// One step onto a walkable neighbour lengthens a walk by one.
proof fn lemma_within_step(tiles: Seq<TileType>, sources: Seq<usize>, t: int, d: int, m: nat)
    requires
        within(tiles, sources, t, m),
        spec_exit(tiles, t, d) is Some,
    ensures
        within(tiles, sources, spec_exit(tiles, t, d).unwrap(), m + 1),
{
    lemma_neighbor_symmetric(t, d);
    let j = spec_neighbor(t, d).unwrap();
    assert(within_via(tiles, sources, j, spec_opposite(d), m));
}

/// Where no tile lies exactly `dep` steps from the sources, none lies
/// farther: what is reached at all is reached within `dep` steps.
proof fn lemma_saturated(tiles: Seq<TileType>, sources: Seq<usize>, dep: nat, n: nat, i: int)
    requires
        forall|j: int| 0 <= j < NUM_TILES ==> !is_distance(tiles, sources, j, dep),
        within(tiles, sources, i, n),
    ensures
        within(tiles, sources, i, dep),
        dep > 0,
    decreases n,
{
    if n <= dep {
        lemma_within_monotonic(tiles, sources, i, n, dep);
        assert(!is_distance(tiles, sources, i, dep));
    } else {
        let m = (n - 1) as nat;
        if within(tiles, sources, i, m) {
            lemma_saturated(tiles, sources, dep, m, i);
        } else {
            let d = if within_via(tiles, sources, i, 0, m) {
                0int
            } else if within_via(tiles, sources, i, 1, m) {
                1int
            } else if within_via(tiles, sources, i, 2, m) {
                2int
            } else {
                3int
            };
            assert(within_via(tiles, sources, i, d, m));
            let j = spec_neighbor(i, d).unwrap();
            lemma_saturated(tiles, sources, dep, m, j);
            assert(!is_distance(tiles, sources, j, dep));
            assert(within(tiles, sources, j, (dep - 1) as nat));
            assert(within_via(tiles, sources, i, d, (dep - 1) as nat));
            assert(within(tiles, sources, i, dep));
        }
    }
}

/// The better of `best` and the exit of tile `pos` in direction `d`: the
/// exit wins only with a strictly lower entry.
pub open spec fn spec_better(
    tiles: Seq<TileType>,
    f: Seq<u32>,
    pos: int,
    d: int,
    best: Option<int>,
) -> Option<int> {
    match spec_exit(tiles, pos, d) {
        Some(k) => if best is None || f[k] < f[best.unwrap()] {
            Some(k)
        } else {
            best
        },
        None => best,
    }
}

/// The exit of tile `pos` with the lowest entry; among equals the first in
/// the order west, east, north, south.
pub open spec fn spec_lowest_exit(tiles: Seq<TileType>, f: Seq<u32>, pos: int) -> Option<int> {
    spec_better(
        tiles,
        f,
        pos,
        3,
        spec_better(tiles, f, pos, 2, spec_better(tiles, f, pos, 1, spec_better(tiles, f, pos, 0, None))),
    )
}

/// The step from tile `pos` toward the nearest source: the lowest exit, if
/// its entry is strictly lower than that of `pos`.
pub open spec fn spec_step_toward_source(tiles: Seq<TileType>, f: Seq<u32>, pos: int) -> Option<
    int,
> {
    match spec_lowest_exit(tiles, f, pos) {
        Some(j) => if f[j] < f[pos] {
            Some(j)
        } else {
            None
        },
        None => None,
    }
}

/// The tile reached from `pos` by `n` steps toward the nearest source; the
/// walk stays where no step exists.
pub open spec fn spec_walk(tiles: Seq<TileType>, f: Seq<u32>, pos: int, n: nat) -> int
    decreases n,
{
    if n == 0 {
        pos
    } else {
        match spec_step_toward_source(tiles, f, pos) {
            Some(j) => spec_walk(tiles, f, j, (n - 1) as nat),
            None => pos,
        }
    }
}

/// Whether every source on the grid is a walkable tile.
pub open spec fn sources_walkable(tiles: Seq<TileType>, sources: Seq<usize>) -> bool {
    forall|k: int|
        0 <= k < sources.len() && #[trigger] sources[k] < NUM_TILES ==> tiles[sources[k] as int].spec_walkable()
}

/// The number of tiles among the first `n` whose entry is at most `v`.
pub open spec fn count_upto(f: Seq<u32>, v: int, n: nat) -> nat
    decreases n,
{
    if n == 0 {
        0
    } else {
        count_upto(f, v, (n - 1) as nat) + if f[n - 1] <= v {
            1nat
        } else {
            0nat
        }
    }
}

/// The distance field of the sources on the grid.
pub open spec fn spec_field(tiles: Seq<TileType>, sources: Seq<usize>, max_depth: u32) -> Seq<u32> {
    choose|f: Seq<u32>| is_field_of(f, tiles, sources, max_depth)
}

/// The farthest reachable tile of a field, the lowest index among equals.
pub open spec fn is_most_distant(f: Seq<u32>, i: int) -> bool {
    &&& 0 <= i < NUM_TILES
    &&& f[i] != UNREACHABLE
    &&& forall|j: int| 0 <= j < NUM_TILES && #[trigger] f[j] != UNREACHABLE ==> f[j] <= f[i]
    &&& forall|j: int| 0 <= j < i && #[trigger] f[j] != UNREACHABLE ==> f[j] < f[i]
}

/// Grid and sources have one distance field only.
pub proof fn lemma_field_unique(
    f: Seq<u32>,
    g: Seq<u32>,
    tiles: Seq<TileType>,
    sources: Seq<usize>,
    max_depth: u32,
)
    requires
        is_field_of(f, tiles, sources, max_depth),
        is_field_of(g, tiles, sources, max_depth),
    ensures
        f == g,
        f == spec_field(tiles, sources, max_depth),
{
    let limit = spec_limit(max_depth);
    assert forall|i: int| 0 <= i < NUM_TILES implies f[i] == g[i] by {
        if f[i] != UNREACHABLE && g[i] != UNREACHABLE {
            if f[i] < g[i] {
                lemma_within_monotonic(tiles, sources, i, f[i] as nat, (g[i] - 1) as nat);
            }
            if g[i] < f[i] {
                lemma_within_monotonic(tiles, sources, i, g[i] as nat, (f[i] - 1) as nat);
            }
        } else if f[i] != UNREACHABLE {
            lemma_within_monotonic(tiles, sources, i, f[i] as nat, limit);
        } else if g[i] != UNREACHABLE {
            lemma_within_monotonic(tiles, sources, i, g[i] as nat, limit);
        }
    }
    assert(f =~= g);
    let h = spec_field(tiles, sources, max_depth);
    assert(is_field_of(h, tiles, sources, max_depth));
    assert forall|i: int| 0 <= i < NUM_TILES implies f[i] == h[i] by {
        if f[i] != UNREACHABLE && h[i] != UNREACHABLE {
            if f[i] < h[i] {
                lemma_within_monotonic(tiles, sources, i, f[i] as nat, (h[i] - 1) as nat);
            }
            if h[i] < f[i] {
                lemma_within_monotonic(tiles, sources, i, h[i] as nat, (f[i] - 1) as nat);
            }
        } else if f[i] != UNREACHABLE {
            lemma_within_monotonic(tiles, sources, i, f[i] as nat, limit);
        } else if h[i] != UNREACHABLE {
            lemma_within_monotonic(tiles, sources, i, h[i] as nat, limit);
        }
    }
    assert(f =~= h);
}

/// A source on the grid has the entry 0.
pub proof fn lemma_source_is_zero(
    f: Seq<u32>,
    tiles: Seq<TileType>,
    sources: Seq<usize>,
    max_depth: u32,
    k: int,
)
    requires
        is_field_of(f, tiles, sources, max_depth),
        0 <= k < sources.len(),
        sources[k] < NUM_TILES,
    ensures
        f[sources[k] as int] == 0,
{
    let i = sources[k] as int;
    assert(sources.contains(i as usize));
    assert(within(tiles, sources, i, 0));
    lemma_within_monotonic(tiles, sources, i, 0, spec_limit(max_depth));
    if f[i] > 0 {
        lemma_within_monotonic(tiles, sources, i, 0, (f[i] - 1) as nat);
    }
}

/// A tile that a walk reaches has a shortest walk.
pub proof fn lemma_distance_exists(tiles: Seq<TileType>, sources: Seq<usize>, i: int, n: nat)
    requires
        within(tiles, sources, i, n),
    ensures
        exists|d: nat| d <= n && is_distance(tiles, sources, i, d),
    decreases n,
{
    if n == 0 {
        assert(is_distance(tiles, sources, i, 0));
    } else if within(tiles, sources, i, (n - 1) as nat) {
        lemma_distance_exists(tiles, sources, i, (n - 1) as nat);
    } else {
        assert(is_distance(tiles, sources, i, n));
    }
}

/// Every grid has a distance field for every set of sources and cutoff.
pub proof fn lemma_field_exists(tiles: Seq<TileType>, sources: Seq<usize>, max_depth: u32)
    ensures
        is_field_of(spec_field(tiles, sources, max_depth), tiles, sources, max_depth),
{
    let limit = spec_limit(max_depth);
    let f = Seq::new(
        NUM_TILES as nat,
        |i: int|
            if within(tiles, sources, i, limit) {
                (choose|d: nat| d <= limit && is_distance(tiles, sources, i, d)) as u32
            } else {
                UNREACHABLE
            },
    );
    assert forall|i: int| 0 <= i < NUM_TILES implies if #[trigger] f[i] == UNREACHABLE {
        !within(tiles, sources, i, limit)
    } else {
        f[i] <= limit && is_distance(tiles, sources, i, f[i] as nat)
    } by {
        if within(tiles, sources, i, limit) {
            lemma_distance_exists(tiles, sources, i, limit);
        }
    }
    assert(is_field_of(f, tiles, sources, max_depth));
}

/// Whether a walk reaches a tile depends only on which tiles are walkable.
pub proof fn lemma_within_same_walkability(
    before: Seq<TileType>,
    after: Seq<TileType>,
    sources: Seq<usize>,
    i: int,
    n: nat,
)
    requires
        before.len() == NUM_TILES,
        same_walkability(before, after),
    ensures
        within(before, sources, i, n) == within(after, sources, i, n),
    decreases n,
{
    if n > 0 && 0 <= i < NUM_TILES {
        let m = (n - 1) as nat;
        lemma_within_same_walkability(before, after, sources, i, m);
        assert(after[i].spec_walkable() == before[i].spec_walkable());
        if spec_neighbor(i, 0) is Some {
            lemma_within_same_walkability(before, after, sources, spec_neighbor(i, 0).unwrap(), m);
        }
        if spec_neighbor(i, 1) is Some {
            lemma_within_same_walkability(before, after, sources, spec_neighbor(i, 1).unwrap(), m);
        }
        if spec_neighbor(i, 2) is Some {
            lemma_within_same_walkability(before, after, sources, spec_neighbor(i, 2).unwrap(), m);
        }
        if spec_neighbor(i, 3) is Some {
            lemma_within_same_walkability(before, after, sources, spec_neighbor(i, 3).unwrap(), m);
        }
        assert(within_via(before, sources, i, 0, m) == within_via(after, sources, i, 0, m));
        assert(within_via(before, sources, i, 1, m) == within_via(after, sources, i, 1, m));
        assert(within_via(before, sources, i, 2, m) == within_via(after, sources, i, 2, m));
        assert(within_via(before, sources, i, 3, m) == within_via(after, sources, i, 3, m));
    }
}

/// Redecorating a grid, floor to floor and wall to wall, leaves its
/// distance fields as they are.
pub proof fn lemma_field_same_walkability(
    before: Seq<TileType>,
    after: Seq<TileType>,
    sources: Seq<usize>,
    max_depth: u32,
)
    requires
        before.len() == NUM_TILES,
        same_walkability(before, after),
    ensures
        spec_field(before, sources, max_depth) == spec_field(after, sources, max_depth),
{
    let f = spec_field(before, sources, max_depth);
    lemma_field_exists(before, sources, max_depth);
    lemma_field_exists(after, sources, max_depth);
    assert forall|i: int| 0 <= i < NUM_TILES implies if #[trigger] f[i] == UNREACHABLE {
        !within(after, sources, i, spec_limit(max_depth))
    } else {
        f[i] <= spec_limit(max_depth) && is_distance(after, sources, i, f[i] as nat)
    } by {
        lemma_within_same_walkability(before, after, sources, i, spec_limit(max_depth));
        if f[i] != UNREACHABLE {
            lemma_within_same_walkability(before, after, sources, i, f[i] as nat);
            if f[i] > 0 {
                lemma_within_same_walkability(before, after, sources, i, (f[i] - 1) as nat);
            }
        }
    }
    lemma_field_unique(f, spec_field(after, sources, max_depth), after, sources, max_depth);
}

/// Whether `after` is `before` with every tile that the field does not
/// reach turned into a wall.
pub open spec fn is_walled_off(f: Seq<u32>, before: Seq<TileType>, after: Seq<TileType>) -> bool {
    &&& before.len() == NUM_TILES
    &&& after.len() == NUM_TILES
    &&& forall|i: int|
        0 <= i < NUM_TILES ==> #[trigger] after[i] == if f[i] == UNREACHABLE {
            TileType::Wall
        } else {
            before[i]
        }
}

/// More walls make no walk shorter.
proof fn lemma_within_walled(
    f: Seq<u32>,
    before: Seq<TileType>,
    after: Seq<TileType>,
    sources: Seq<usize>,
    i: int,
    n: nat,
)
    requires
        is_walled_off(f, before, after),
        within(after, sources, i, n),
    ensures
        within(before, sources, i, n),
    decreases n,
{
    if n > 0 {
        let m = (n - 1) as nat;
        if within(after, sources, i, m) {
            lemma_within_walled(f, before, after, sources, i, m);
        } else {
            assert(after[i].spec_walkable());
            assert(after[i] == before[i]);
            let d = if within_via(after, sources, i, 0, m) {
                0int
            } else if within_via(after, sources, i, 1, m) {
                1int
            } else if within_via(after, sources, i, 2, m) {
                2int
            } else {
                3int
            };
            assert(within_via(after, sources, i, d, m));
            lemma_within_walled(f, before, after, sources, spec_neighbor(i, d).unwrap(), m);
            assert(within_via(before, sources, i, d, m));
        }
    }
}

/// Walls on tiles that no walk reaches make no walk longer.
proof fn lemma_within_unwalled(
    f: Seq<u32>,
    before: Seq<TileType>,
    after: Seq<TileType>,
    sources: Seq<usize>,
    max_depth: u32,
    i: int,
    n: nat,
)
    requires
        is_field_of(f, before, sources, max_depth),
        is_walled_off(f, before, after),
        n <= spec_limit(max_depth),
        within(before, sources, i, n),
    ensures
        within(after, sources, i, n),
    decreases n,
{
    if n > 0 {
        let m = (n - 1) as nat;
        if within(before, sources, i, m) {
            lemma_within_unwalled(f, before, after, sources, max_depth, i, m);
        } else {
            lemma_within_monotonic(before, sources, i, n, spec_limit(max_depth));
            assert(f[i] != UNREACHABLE);
            assert(after[i] == before[i]);
            let d = if within_via(before, sources, i, 0, m) {
                0int
            } else if within_via(before, sources, i, 1, m) {
                1int
            } else if within_via(before, sources, i, 2, m) {
                2int
            } else {
                3int
            };
            assert(within_via(before, sources, i, d, m));
            lemma_within_unwalled(
                f,
                before,
                after,
                sources,
                max_depth,
                spec_neighbor(i, d).unwrap(),
                m,
            );
            assert(within_via(after, sources, i, d, m));
        }
    }
}

/// Walling off what a field does not reach leaves the field as it is.
pub proof fn lemma_walled_off_field(
    f: Seq<u32>,
    before: Seq<TileType>,
    after: Seq<TileType>,
    sources: Seq<usize>,
    max_depth: u32,
)
    requires
        is_field_of(f, before, sources, max_depth),
        is_walled_off(f, before, after),
    ensures
        is_field_of(f, after, sources, max_depth),
{
    let limit = spec_limit(max_depth);
    assert forall|i: int| 0 <= i < NUM_TILES implies if #[trigger] f[i] == UNREACHABLE {
        !within(after, sources, i, limit)
    } else {
        f[i] <= limit && is_distance(after, sources, i, f[i] as nat)
    } by {
        if f[i] == UNREACHABLE {
            if within(after, sources, i, limit) {
                lemma_within_walled(f, before, after, sources, i, limit);
            }
        } else {
            assert(is_distance(before, sources, i, f[i] as nat));
            lemma_within_unwalled(f, before, after, sources, max_depth, i, f[i] as nat);
            if f[i] > 0 && within(after, sources, i, (f[i] - 1) as nat) {
                lemma_within_walled(f, before, after, sources, i, (f[i] - 1) as nat);
            }
        }
    }
}

/// The neighbour of tile `i` in direction `d`.
pub fn neighbor(i: usize, d: u8) -> (r: Option<usize>)
    requires
        i < NUM_TILES,
        d < 4,
    ensures
        match r {
            Some(j) => spec_neighbor(i as int, d as int) == Some(j as int) && j < NUM_TILES,
            None => spec_neighbor(i as int, d as int) is None,
        },
{
    let w: usize = SCREEN_WIDTH as usize;
    if d == 0 {
        if i % w != 0 {
            Some(i - 1)
        } else {
            None
        }
    } else if d == 1 {
        if i % w != w - 1 {
            Some(i + 1)
        } else {
            None
        }
    } else if d == 2 {
        if i >= w {
            Some(i - w)
        } else {
            None
        }
    } else {
        if i + w < NUM_TILES {
            Some(i + w)
        } else {
            None
        }
    }
}

/// What holds of the entries while the tiles `depth` steps away are
/// expanded: recorded entries are exact and at most `bound`, and no walk of
/// `depth` steps reaches a tile without an entry.
spec fn entries_exact(
    f: Seq<u32>,
    tiles: Seq<TileType>,
    sources: Seq<usize>,
    depth: nat,
    bound: nat,
) -> bool {
    &&& f.len() == NUM_TILES
    &&& forall|i: int|
        0 <= i < NUM_TILES ==> if #[trigger] f[i] == UNREACHABLE {
            !within(tiles, sources, i, depth)
        } else {
            f[i] <= bound && is_distance(tiles, sources, i, f[i] as nat)
        }
}

/// Every walkable neighbour of tile `t` has an entry.
spec fn expanded(f: Seq<u32>, tiles: Seq<TileType>, t: int, upto: int) -> bool {
    forall|d: int|
        0 <= d < upto ==> match #[trigger] spec_exit(tiles, t, d) {
            Some(j) => f[j] != UNREACHABLE,
            None => true,
        }
}

/// The distance field of a set of source tiles.
pub struct DistanceField {
    /// One entry per tile, in the order of the grid's tiles.
    pub distances: Vec<u32>,
}

impl DistanceField {
    /// Whether the field has one entry per tile.
    pub open spec fn wf(&self) -> bool {
        self.distances@.len() == NUM_TILES
    }

    /// Whether a walk from a source reaches tile `i` within the cutoff.
    pub open spec fn spec_reachable(&self, i: int) -> bool {
        0 <= i < NUM_TILES && self.distances@[i] != UNREACHABLE
    }

    /// Gives the walkable neighbours of `t`, a tile `depth` steps from the
    /// sources, their entries.
    fn expand(
        distances: &mut Vec<u32>,
        next: &mut Vec<usize>,
        map: &Grid,
        t: usize,
        depth: u32,
        Ghost(sources): Ghost<Seq<usize>>,
    )
        requires
            map.wf(),
            t < NUM_TILES,
            depth < UNREACHABLE - 1,
            old(distances)@[t as int] == depth,
            entries_exact(old(distances)@, map.tiles@, sources, depth as nat, depth as nat + 1),
            forall|k: int| 0 <= k < old(next)@.len() ==> old(next)@[k] < NUM_TILES,
            forall|i: int|
                0 <= i < NUM_TILES && #[trigger] old(distances)@[i] == depth + 1 ==> old(next)@.contains(i as usize),
        ensures
            entries_exact(final(distances)@, map.tiles@, sources, depth as nat, depth as nat + 1),
            forall|k: int| 0 <= k < final(next)@.len() ==> final(next)@[k] < NUM_TILES,
            forall|i: int|
                0 <= i < NUM_TILES && #[trigger] final(distances)@[i] == depth + 1 ==> final(next)@.contains(i as usize),
            forall|i: int|
                0 <= i < NUM_TILES && #[trigger] old(distances)@[i] != UNREACHABLE ==> final(distances)@[i] == old(distances)@[i],
            forall|i: int|
                0 <= i < NUM_TILES && #[trigger] final(distances)@[i] != old(distances)@[i]
                    ==> final(distances)@[i] == depth + 1,
            expanded(final(distances)@, map.tiles@, t as int, 4),
            final(next)@.len() >= old(next)@.len(),
    {
        let mut d: u8 = 0;
        while d < 4
            invariant
                d <= 4,
                map.wf(),
                t < NUM_TILES,
                depth < UNREACHABLE - 1,
                distances@[t as int] == depth,
                entries_exact(distances@, map.tiles@, sources, depth as nat, depth as nat + 1),
                forall|k: int| 0 <= k < next@.len() ==> next@[k] < NUM_TILES,
                forall|i: int|
                    0 <= i < NUM_TILES && #[trigger] distances@[i] == depth + 1 ==> next@.contains(
                        i as usize,
                    ),
                forall|i: int|
                    0 <= i < NUM_TILES && #[trigger] old(distances)@[i] != UNREACHABLE
                        ==> distances@[i] == old(distances)@[i],
                forall|i: int|
                    0 <= i < NUM_TILES && #[trigger] distances@[i] != old(distances)@[i]
                        ==> distances@[i] == depth + 1,
                expanded(distances@, map.tiles@, t as int, d as int),
                next@.len() >= old(next)@.len(),
            decreases 4 - d,
        {
            let ghost before = distances@;
            let ghost before_next = next@;
            match neighbor(t, d) {
                Some(j) => {
                    if map.tiles[j].is_walkable() && distances[j] == UNREACHABLE {
                        distances.set(j, depth + 1);
                        next.push(j);
                        proof {
                            assert(spec_exit(map.tiles@, t as int, d as int) == Some(j as int));
                            assert(is_distance(map.tiles@, sources, t as int, depth as nat));
                            lemma_within_step(map.tiles@, sources, t as int, d as int, depth as nat);
                            assert(next@[before_next.len() as int] == j);
                            assert forall|i: int|
                                0 <= i < NUM_TILES && #[trigger] distances@[i] == depth
                                    + 1 implies next@.contains(i as usize) by {
                                if i != j {
                                    assert(before[i] == depth + 1);
                                    let k = choose|k: int|
                                        0 <= k < before_next.len() && before_next[k] == i as usize;
                                    assert(next@[k] == i as usize);
                                }
                            }
                            assert forall|e: int| 0 <= e < d + 1 implies match #[trigger] spec_exit(
                                map.tiles@,
                                t as int,
                                e,
                            ) {
                                Some(x) => distances@[x] != UNREACHABLE,
                                None => true,
                            } by {
                                if e < d {
                                    assert(expanded(before, map.tiles@, t as int, d as int));
                                }
                            }
                        }
                    }
                },
                None => {},
            }
            d += 1;
        }
    }

    /// The distance field of the tiles `starts` on `map`. Tiles that a
    /// shortest walk reaches only in `max_depth` steps or more stay
    /// `UNREACHABLE`; start indices beyond the grid are ignored.
    pub fn new(map: &Grid, starts: &Vec<usize>, max_depth: u32) -> (field: DistanceField)
        requires
            map.wf(),
        ensures
            field.wf(),
            is_field_of(field.distances@, map.tiles@, starts@, max_depth),
    {
        let ghost tiles = map.tiles@;
        let ghost sources = starts@;
        let mut distances: Vec<u32> = Vec::new();
        let mut n: usize = 0;
        while n < NUM_TILES
            invariant
                n <= NUM_TILES,
                distances@.len() == n,
                forall|i: int| 0 <= i < n ==> distances@[i] == UNREACHABLE,
            decreases NUM_TILES - n,
        {
            distances.push(UNREACHABLE);
            n += 1;
        }
        let mut frontier: Vec<usize> = Vec::new();
        let mut s: usize = 0;
        while s < starts.len()
            invariant
                s <= starts@.len(),
                sources == starts@,
                distances@.len() == NUM_TILES,
                forall|i: int|
                    0 <= i < NUM_TILES ==> (#[trigger] distances@[i] == 0 || distances@[i]
                        == UNREACHABLE),
                forall|i: int|
                    0 <= i < NUM_TILES ==> (#[trigger] distances@[i] == 0 <==> starts@.subrange(
                        0,
                        s as int,
                    ).contains(i as usize)),
                forall|k: int| 0 <= k < frontier@.len() ==> frontier@[k] < NUM_TILES,
                forall|i: int|
                    0 <= i < NUM_TILES && #[trigger] distances@[i] == 0 ==> frontier@.contains(
                        i as usize,
                    ),
            decreases starts@.len() - s,
        {
            let start = starts[s];
            let ghost before = distances@;
            let ghost before_frontier = frontier@;
            if start < NUM_TILES && distances[start] == UNREACHABLE {
                distances.set(start, 0);
                frontier.push(start);
                proof {
                    assert(frontier@[before_frontier.len() as int] == start);
                    assert forall|i: int|
                        0 <= i < NUM_TILES && #[trigger] distances@[i] == 0 implies frontier@.contains(
                        i as usize,
                    ) by {
                        if i != start {
                            assert(before[i] == 0);
                            let k = choose|k: int|
                                0 <= k < before_frontier.len() && before_frontier[k] == i as usize;
                            assert(frontier@[k] == i as usize);
                        }
                    }
                }
            }
            proof {
                let shorter = starts@.subrange(0, s as int);
                let longer = starts@.subrange(0, s as int + 1);
                assert(longer[s as int] == start);
                assert forall|i: int| 0 <= i < NUM_TILES implies (#[trigger] distances@[i] == 0
                    <==> longer.contains(i as usize)) by {
                    assert(before[i] == 0 <==> shorter.contains(i as usize));
                    if shorter.contains(i as usize) {
                        let k = choose|k: int| 0 <= k < shorter.len() && shorter[k] == i as usize;
                        assert(longer[k] == i as usize);
                    }
                    if longer.contains(i as usize) && i != start {
                        let k = choose|k: int| 0 <= k < longer.len() && longer[k] == i as usize;
                        assert(shorter[k] == i as usize);
                    }
                }
            }
            s += 1;
        }
        proof {
            assert(starts@.subrange(0, starts@.len() as int) == starts@);
        }
        let mut depth: u32 = 0;
        while frontier.len() > 0 && depth < max_depth && depth + 1 < max_depth
            invariant
                map.wf(),
                tiles == map.tiles@,
                sources == starts@,
                depth <= spec_limit(max_depth),
                entries_exact(distances@, tiles, sources, depth as nat, depth as nat),
                forall|k: int| 0 <= k < frontier@.len() ==> frontier@[k] < NUM_TILES,
                forall|i: int|
                    0 <= i < NUM_TILES && #[trigger] distances@[i] == depth ==> frontier@.contains(
                        i as usize,
                    ),
            decreases max_depth - depth,
        {
            let mut next: Vec<usize> = Vec::new();
            let mut k: usize = 0;
            while k < frontier.len()
                invariant
                    k <= frontier@.len(),
                    map.wf(),
                    tiles == map.tiles@,
                    depth + 1 < max_depth,
                    entries_exact(distances@, tiles, sources, depth as nat, depth as nat + 1),
                    forall|k: int| 0 <= k < frontier@.len() ==> frontier@[k] < NUM_TILES,
                    forall|i: int|
                        0 <= i < NUM_TILES && #[trigger] distances@[i] == depth
                            ==> frontier@.contains(i as usize),
                    forall|k: int| 0 <= k < next@.len() ==> next@[k] < NUM_TILES,
                    forall|i: int|
                        0 <= i < NUM_TILES && #[trigger] distances@[i] == depth + 1
                            ==> next@.contains(i as usize),
                    forall|p: int|
                        0 <= p < k && distances@[#[trigger] frontier@[p] as int] == depth
                            ==> expanded(distances@, tiles, frontier@[p] as int, 4),
                decreases frontier@.len() - k,
            {
                let t = frontier[k];
                let ghost before = distances@;
                if distances[t] == depth {
                    Self::expand(&mut distances, &mut next, map, t, depth, Ghost(sources));
                }
                proof {
                    assert forall|p: int|
                        0 <= p < k + 1 && distances@[#[trigger] frontier@[p] as int]
                            == depth implies expanded(distances@, tiles, frontier@[p] as int, 4) by {
                        let u = frontier@[p] as int;
                        if p < k {
                            assert(before[u] == depth);
                            assert(expanded(before, tiles, u, 4));
                            assert forall|d: int| 0 <= d < 4 implies match #[trigger] spec_exit(
                                tiles,
                                u,
                                d,
                            ) {
                                Some(j) => distances@[j] != UNREACHABLE,
                                None => true,
                            } by {
                                if spec_exit(tiles, u, d) is Some {
                                    lemma_neighbor_symmetric(u, d);
                                    let j = spec_exit(tiles, u, d).unwrap();
                                    assert(before[j] != UNREACHABLE);
                                }
                            }
                        }
                    }
                }
                k += 1;
            }
            proof {
                assert forall|i: int| 0 <= i < NUM_TILES && #[trigger] distances@[i]
                    == UNREACHABLE implies !within(tiles, sources, i, depth as nat + 1) by {
                    Self::lemma_level_complete(
                        distances@,
                        frontier@,
                        tiles,
                        sources,
                        depth as nat,
                        i,
                    );
                }
            }
            frontier = next;
            depth = depth + 1;
        }
        proof {
            if frontier@.len() == 0 {
                assert forall|j: int| 0 <= j < NUM_TILES implies !is_distance(
                    tiles,
                    sources,
                    j,
                    depth as nat,
                ) by {
                    if is_distance(tiles, sources, j, depth as nat) {
                        if distances@[j] != UNREACHABLE {
                            if distances@[j] < depth {
                                lemma_within_monotonic(
                                    tiles,
                                    sources,
                                    j,
                                    distances@[j] as nat,
                                    (depth - 1) as nat,
                                );
                            } else {
                                assert(frontier@.contains(j as usize));
                            }
                        }
                    }
                }
                assert forall|i: int| 0 <= i < NUM_TILES && #[trigger] distances@[i]
                    == UNREACHABLE implies !within(tiles, sources, i, spec_limit(max_depth)) by {
                    if within(tiles, sources, i, spec_limit(max_depth)) {
                        lemma_saturated(tiles, sources, depth as nat, spec_limit(max_depth), i);
                        if distances@[i] == UNREACHABLE {
                            assert(!within(tiles, sources, i, depth as nat));
                        }
                    }
                }
            }
        }
        DistanceField { distances }
    }

    /// When every tile `depth` steps away has given its walkable neighbours
    /// an entry, no walk of `depth + 1` steps reaches a tile without one.
    proof fn lemma_level_complete(
        f: Seq<u32>,
        frontier: Seq<usize>,
        tiles: Seq<TileType>,
        sources: Seq<usize>,
        depth: nat,
        i: int,
    )
        requires
            0 <= i < NUM_TILES,
            f[i] == UNREACHABLE,
            entries_exact(f, tiles, sources, depth, depth + 1),
            forall|k: int| 0 <= k < frontier.len() ==> frontier[k] < NUM_TILES,
            forall|j: int|
                0 <= j < NUM_TILES && #[trigger] f[j] == depth ==> frontier.contains(j as usize),
            forall|p: int|
                0 <= p < frontier.len() && f[#[trigger] frontier[p] as int] == depth ==> expanded(
                    f,
                    tiles,
                    frontier[p] as int,
                    4,
                ),
        ensures
            !within(tiles, sources, i, depth + 1),
    {
        if within(tiles, sources, i, depth + 1) {
            assert(!within(tiles, sources, i, depth));
            let d = if within_via(tiles, sources, i, 0, depth) {
                0int
            } else if within_via(tiles, sources, i, 1, depth) {
                1int
            } else if within_via(tiles, sources, i, 2, depth) {
                2int
            } else {
                3int
            };
            assert(within_via(tiles, sources, i, d, depth));
            let j = spec_neighbor(i, d).unwrap();
            lemma_neighbor_symmetric(i, d);
            assert(within(tiles, sources, j, depth));
            assert(f[j] != UNREACHABLE);
            assert(is_distance(tiles, sources, j, f[j] as nat));
            if f[j] < depth {
                lemma_within_monotonic(tiles, sources, j, f[j] as nat, (depth - 1) as nat);
                assert(within_via(tiles, sources, i, d, (depth - 1) as nat));
                assert(within(tiles, sources, i, depth));
            } else {
                assert(f[j] == depth);
                assert(frontier.contains(j as usize));
                let p = choose|p: int| 0 <= p < frontier.len() && frontier[p] == j as usize;
                assert(expanded(f, tiles, frontier[p] as int, 4));
                assert(spec_exit(tiles, j, spec_opposite(d)) == Some(i));
            }
        }
    }
}

impl DistanceField {
    /// The step from tile `position` toward the nearest source: the walkable
    /// neighbour with the lowest entry, if that entry is strictly lower than
    /// the tile's own. There is none at a source and none where the tile is
    /// enclosed.
    pub fn step_toward_source(&self, position: usize, map: &Grid) -> (r: Option<usize>)
        requires
            self.wf(),
            map.wf(),
            position < NUM_TILES,
        ensures
            match r {
                Some(j) => spec_step_toward_source(map.tiles@, self.distances@, position as int)
                    == Some(j as int) && j < NUM_TILES,
                None => spec_step_toward_source(map.tiles@, self.distances@, position as int)
                    is None,
            },
    {
        let mut best: Option<usize> = None;
        let mut d: u8 = 0;
        let ghost tiles = map.tiles@;
        let ghost f = self.distances@;
        let ghost pos = position as int;
        let ghost b0 = spec_better(tiles, f, pos, 0, None);
        let ghost b1 = spec_better(tiles, f, pos, 1, b0);
        let ghost b2 = spec_better(tiles, f, pos, 2, b1);
        let ghost b3 = spec_better(tiles, f, pos, 3, b2);
        while d < 4
            invariant
                d <= 4,
                self.wf(),
                map.wf(),
                position < NUM_TILES,
                tiles == map.tiles@,
                f == self.distances@,
                pos == position as int,
                b0 == spec_better(tiles, f, pos, 0, None),
                b1 == spec_better(tiles, f, pos, 1, b0),
                b2 == spec_better(tiles, f, pos, 2, b1),
                b3 == spec_better(tiles, f, pos, 3, b2),
                match best {
                    Some(j) => j < NUM_TILES,
                    None => true,
                },
                d == 0 ==> best is None,
                d == 1 ==> (best is Some <==> b0 is Some) && (best is Some ==> best.unwrap() == b0.unwrap()),
                d == 2 ==> (best is Some <==> b1 is Some) && (best is Some ==> best.unwrap() == b1.unwrap()),
                d == 3 ==> (best is Some <==> b2 is Some) && (best is Some ==> best.unwrap() == b2.unwrap()),
                d == 4 ==> (best is Some <==> b3 is Some) && (best is Some ==> best.unwrap() == b3.unwrap()),
            decreases 4 - d,
        {
            match neighbor(position, d) {
                Some(k) => {
                    if map.tiles[k].is_walkable() {
                        let lower = match best {
                            Some(j) => self.distances[k] < self.distances[j],
                            None => true,
                        };
                        if lower {
                            best = Some(k);
                        }
                    }
                },
                None => {},
            }
            d += 1;
        }
        match best {
            Some(j) => {
                if self.distances[j] < self.distances[position] {
                    Some(j)
                } else {
                    None
                }
            },
            None => None,
        }
    }

    /// Whether a walk from a source reaches tile `idx` within the cutoff.
    pub fn is_reachable(&self, idx: usize) -> (b: bool)
        requires
            self.wf(),
        ensures
            b == self.spec_reachable(idx as int),
    {
        idx < NUM_TILES && self.distances[idx] != UNREACHABLE
    }

    /// The reachable tile farthest from the sources; among equals the one
    /// with the lowest index. There is none where no tile is reachable.
    pub fn most_distant(&self) -> (r: Option<usize>)
        requires
            self.wf(),
        ensures
            match r {
                Some(i) => is_most_distant(self.distances@, i as int),
                None => forall|j: int| 0 <= j < NUM_TILES ==> !self.spec_reachable(j),
            },
    {
        let mut best: Option<usize> = None;
        let mut n: usize = 0;
        while n < NUM_TILES
            invariant
                n <= NUM_TILES,
                self.wf(),
                match best {
                    Some(i) => {
                        &&& i < n
                        &&& self.distances@[i as int] != UNREACHABLE
                        &&& forall|j: int|
                            0 <= j < n && #[trigger] self.distances@[j] != UNREACHABLE
                                ==> self.distances@[j] <= self.distances@[i as int]
                        &&& forall|j: int|
                            0 <= j < i && #[trigger] self.distances@[j] != UNREACHABLE
                                ==> self.distances@[j] < self.distances@[i as int]
                    },
                    None => forall|j: int| 0 <= j < n ==> self.distances@[j] == UNREACHABLE,
                },
            decreases NUM_TILES - n,
        {
            let here = self.distances[n];
            if here != UNREACHABLE {
                let farther = match best {
                    Some(i) => here > self.distances[i],
                    None => true,
                };
                if farther {
                    best = Some(n);
                }
            }
            n += 1;
        }
        best
    }
}

/// Whether tile `i` can step onto a tile where a walk begins.
pub open spec fn spec_has_source_exit(tiles: Seq<TileType>, f: Seq<u32>, i: int) -> bool {
    exists|d: int|
        0 <= d < 4 && (#[trigger] spec_exit(tiles, i, d)) is Some && f[spec_exit(
            tiles,
            i,
            d,
        ).unwrap()] == 0
}

/// A reachable tile that is no source is walkable and has a neighbour
/// exactly one step nearer; an actor can step onto that neighbour unless it
/// is a source that is no floor.
pub proof fn lemma_predecessor(
    f: Seq<u32>,
    tiles: Seq<TileType>,
    sources: Seq<usize>,
    max_depth: u32,
    i: int,
) -> (d: int)
    requires
        is_field_of(f, tiles, sources, max_depth),
        0 <= i < NUM_TILES,
        f[i] != UNREACHABLE,
        f[i] > 0,
    ensures
        0 <= d < 4,
        tiles[i].spec_walkable(),
        spec_neighbor(i, d) is Some,
        0 <= spec_neighbor(i, d).unwrap() < NUM_TILES,
        f[spec_neighbor(i, d).unwrap()] == f[i] - 1,
        f[i] >= 2 ==> spec_exit(tiles, i, d) == spec_neighbor(i, d),
{
    let dist = f[i] as nat;
    let m = (dist - 1) as nat;
    let limit = spec_limit(max_depth);
    assert(is_distance(tiles, sources, i, dist));
    let e = if within_via(tiles, sources, i, 0, m) {
        0int
    } else if within_via(tiles, sources, i, 1, m) {
        1int
    } else if within_via(tiles, sources, i, 2, m) {
        2int
    } else {
        3int
    };
    assert(within_via(tiles, sources, i, e, m));
    let n = spec_neighbor(i, e).unwrap();
    lemma_neighbor_symmetric(i, e);
    assert(f[n] != UNREACHABLE) by {
        if f[n] == UNREACHABLE {
            lemma_within_monotonic(tiles, sources, n, m, limit);
        }
    }
    assert(is_distance(tiles, sources, n, f[n] as nat));
    assert(f[n] == m) by {
        if f[n] < m {
            assert(within_via(tiles, sources, i, e, f[n] as nat));
            assert(within(tiles, sources, i, f[n] as nat + 1));
            lemma_within_monotonic(tiles, sources, i, f[n] as nat + 1, m);
        }
        if f[n] > m {
            lemma_within_monotonic(tiles, sources, n, m, (f[n] - 1) as nat);
        }
    }
    e
}

/// No exit of a reachable tile lies more than one step nearer than the
/// tile.
pub proof fn lemma_exits_not_much_nearer(
    f: Seq<u32>,
    tiles: Seq<TileType>,
    sources: Seq<usize>,
    max_depth: u32,
    i: int,
    d: int,
)
    requires
        is_field_of(f, tiles, sources, max_depth),
        0 <= i < NUM_TILES,
        f[i] != UNREACHABLE,
        spec_exit(tiles, i, d) is Some,
    ensures
        0 <= spec_exit(tiles, i, d).unwrap() < NUM_TILES,
        f[spec_exit(tiles, i, d).unwrap()] + 1 >= f[i],
{
    let k = spec_exit(tiles, i, d).unwrap();
    lemma_neighbor_symmetric(i, d);
    if f[k] + 1 < f[i] {
        assert(is_distance(tiles, sources, k, f[k] as nat));
        assert(is_distance(tiles, sources, i, f[i] as nat));
        lemma_within_step(tiles, sources, k, spec_opposite(d), f[k] as nat);
        lemma_within_monotonic(tiles, sources, i, f[k] as nat + 1, (f[i] - 1) as nat);
    }
}

/// From a reachable tile that is no source, the step toward the nearest
/// source exists and leads to a tile exactly one step nearer. Only a tile
/// one step from the sources needs more: that one of those sources can be
/// stepped onto.
pub proof fn lemma_step_descends(
    f: Seq<u32>,
    tiles: Seq<TileType>,
    sources: Seq<usize>,
    max_depth: u32,
    i: int,
)
    requires
        is_field_of(f, tiles, sources, max_depth),
        0 <= i < NUM_TILES,
        f[i] != UNREACHABLE,
        f[i] > 0,
        f[i] == 1 ==> spec_has_source_exit(tiles, f, i),
    ensures
        spec_step_toward_source(tiles, f, i) is Some,
        0 <= spec_step_toward_source(tiles, f, i).unwrap() < NUM_TILES,
        f[spec_step_toward_source(tiles, f, i).unwrap()] == f[i] - 1,
{
    let m = f[i] - 1;
    let e = if f[i] >= 2 {
        lemma_predecessor(f, tiles, sources, max_depth, i)
    } else {
        choose|d: int|
            0 <= d < 4 && (#[trigger] spec_exit(tiles, i, d)) is Some && f[spec_exit(
                tiles,
                i,
                d,
            ).unwrap()] == 0
    };
    assert(spec_exit(tiles, i, e) is Some && f[spec_exit(tiles, i, e).unwrap()] == m);
    assert forall|d: int| 0 <= d < 4 && spec_exit(tiles, i, d) is Some implies f[spec_exit(
        tiles,
        i,
        d,
    ).unwrap()] >= m && 0 <= spec_exit(tiles, i, d).unwrap() < NUM_TILES by {
        lemma_exits_not_much_nearer(f, tiles, sources, max_depth, i, d);
    }
    let b0 = spec_better(tiles, f, i, 0, None);
    let b1 = spec_better(tiles, f, i, 1, b0);
    let b2 = spec_better(tiles, f, i, 2, b1);
    let b3 = spec_better(tiles, f, i, 3, b2);
    assert(b3 is Some && f[b3.unwrap()] == m && 0 <= b3.unwrap() < NUM_TILES);
}

/// A tile one step from the sources that can step onto none of them has no
/// step toward a source.
pub proof fn lemma_step_blocked(
    f: Seq<u32>,
    tiles: Seq<TileType>,
    sources: Seq<usize>,
    max_depth: u32,
    i: int,
)
    requires
        is_field_of(f, tiles, sources, max_depth),
        0 <= i < NUM_TILES,
        f[i] == 1,
        !spec_has_source_exit(tiles, f, i),
    ensures
        spec_step_toward_source(tiles, f, i) is None,
{
    assert forall|d: int| 0 <= d < 4 && spec_exit(tiles, i, d) is Some implies f[spec_exit(
        tiles,
        i,
        d,
    ).unwrap()] >= 1 by {
        assert(!(spec_exit(tiles, i, d) is Some && f[spec_exit(tiles, i, d).unwrap()] == 0));
    }
    let b0 = spec_better(tiles, f, i, 0, None);
    let b1 = spec_better(tiles, f, i, 1, b0);
    let b2 = spec_better(tiles, f, i, 2, b1);
    let b3 = spec_better(tiles, f, i, 3, b2);
    assert(b3 is Some ==> f[b3.unwrap()] >= 1);
}

/// Where every source is walkable, a tile one step from the sources can
/// step onto one of them.
pub proof fn lemma_walkable_sources_suffice(
    f: Seq<u32>,
    tiles: Seq<TileType>,
    sources: Seq<usize>,
    max_depth: u32,
    i: int,
)
    requires
        is_field_of(f, tiles, sources, max_depth),
        sources_walkable(tiles, sources),
        0 <= i < NUM_TILES,
        f[i] == 1,
    ensures
        spec_has_source_exit(tiles, f, i),
{
    let d = lemma_predecessor(f, tiles, sources, max_depth, i);
    let n = spec_neighbor(i, d).unwrap();
    assert(is_distance(tiles, sources, n, 0));
    assert(sources.contains(n as usize));
    let k = choose|k: int| 0 <= k < sources.len() && sources[k] == n as usize;
    assert(sources[k] < NUM_TILES);
    assert(spec_exit(tiles, i, d) == Some(n));
}

/// Counting up to a higher entry counts no fewer tiles, and one more where
/// a tile among those counted has exactly the higher entry.
proof fn lemma_count_grows(f: Seq<u32>, v: int, n: nat, x: int)
    requires
        n <= f.len(),
        0 <= x < f.len(),
        f[x] == v,
    ensures
        count_upto(f, v, n) >= count_upto(f, v - 1, n),
        x < n ==> count_upto(f, v, n) > count_upto(f, v - 1, n),
        count_upto(f, v, n) <= n,
    decreases n,
{
    if n > 0 {
        lemma_count_grows(f, v, (n - 1) as nat, x);
    }
}

/// No reachable tile lies as many steps from the sources as the grid has
/// tiles: every step of a shortest walk lands on another tile.
pub proof fn lemma_distance_bounded(
    f: Seq<u32>,
    tiles: Seq<TileType>,
    sources: Seq<usize>,
    max_depth: u32,
    i: int,
)
    requires
        is_field_of(f, tiles, sources, max_depth),
        0 <= i < NUM_TILES,
        f[i] != UNREACHABLE,
    ensures
        f[i] < NUM_TILES,
        count_upto(f, f[i] as int, NUM_TILES as nat) > f[i],
    decreases f[i],
{
    if f[i] > 0 {
        let d = lemma_predecessor(f, tiles, sources, max_depth, i);
        lemma_distance_bounded(f, tiles, sources, max_depth, spec_neighbor(i, d).unwrap());
    }
    lemma_count_grows(f, f[i] as int, NUM_TILES as nat, i);
}

/// Steps toward the nearest source, from any reachable tile, lower the
/// entry by one each time, down to the last tile before a source.
pub proof fn lemma_walk_descends(
    f: Seq<u32>,
    tiles: Seq<TileType>,
    sources: Seq<usize>,
    max_depth: u32,
    i: int,
    k: nat,
)
    requires
        is_field_of(f, tiles, sources, max_depth),
        0 <= i < NUM_TILES,
        f[i] != UNREACHABLE,
        k < f[i],
    ensures
        0 <= spec_walk(tiles, f, i, k) < NUM_TILES,
        f[spec_walk(tiles, f, i, k)] == f[i] - k,
    decreases k,
{
    if k > 0 {
        lemma_step_descends(f, tiles, sources, max_depth, i);
        let j = spec_step_toward_source(tiles, f, i).unwrap();
        lemma_walk_descends(f, tiles, sources, max_depth, j, (k - 1) as nat);
    }
}

/// Repeated steps toward the nearest source, from any reachable tile, end
/// on a source after as many steps as the entry says, which is fewer than
/// the grid has tiles; every step lowers the entry by one. The last tile
/// before the source must be able to step onto it.
pub proof fn lemma_walk_reaches_source(
    f: Seq<u32>,
    tiles: Seq<TileType>,
    sources: Seq<usize>,
    max_depth: u32,
    i: int,
)
    requires
        is_field_of(f, tiles, sources, max_depth),
        0 <= i < NUM_TILES,
        f[i] != UNREACHABLE,
        f[i] > 0 ==> spec_has_source_exit(tiles, f, spec_walk(tiles, f, i, (f[i] - 1) as nat)),
    ensures
        forall|k: nat|
            k <= f[i] ==> 0 <= #[trigger] spec_walk(tiles, f, i, k) < NUM_TILES && f[spec_walk(
                tiles,
                f,
                i,
                k,
            )] == f[i] - k,
        sources.contains(spec_walk(tiles, f, i, f[i] as nat) as usize),
        spec_step_toward_source(tiles, f, spec_walk(tiles, f, i, f[i] as nat)) is None,
        f[i] < NUM_TILES,
    decreases f[i],
{
    lemma_distance_bounded(f, tiles, sources, max_depth, i);
    if f[i] == 0 {
        assert(is_distance(tiles, sources, i, 0));
        assert(spec_walk(tiles, f, i, 0) == i);
    } else {
        let last = (f[i] - 1) as nat;
        if f[i] == 1 {
            assert(spec_walk(tiles, f, i, 0) == i);
        }
        lemma_step_descends(f, tiles, sources, max_depth, i);
        let j = spec_step_toward_source(tiles, f, i).unwrap();
        if f[j] > 0 {
            assert(spec_walk(tiles, f, i, last) == spec_walk(tiles, f, j, (last - 1) as nat));
        }
        lemma_walk_reaches_source(f, tiles, sources, max_depth, j);
        assert forall|k: nat| k <= f[i] implies 0 <= #[trigger] spec_walk(tiles, f, i, k)
            < NUM_TILES && f[spec_walk(tiles, f, i, k)] == f[i] - k by {
            if k > 0 {
                assert(spec_walk(tiles, f, i, k) == spec_walk(tiles, f, j, (k - 1) as nat));
            }
        }
        assert(spec_walk(tiles, f, i, f[i] as nat) == spec_walk(tiles, f, j, f[j] as nat));
    }
}

/// The same, where every source is walkable: then every walk ends on a
/// source.
pub proof fn lemma_walk_reaches_walkable_source(
    f: Seq<u32>,
    tiles: Seq<TileType>,
    sources: Seq<usize>,
    max_depth: u32,
    i: int,
)
    requires
        is_field_of(f, tiles, sources, max_depth),
        sources_walkable(tiles, sources),
        0 <= i < NUM_TILES,
        f[i] != UNREACHABLE,
    ensures
        forall|k: nat|
            k <= f[i] ==> 0 <= #[trigger] spec_walk(tiles, f, i, k) < NUM_TILES && f[spec_walk(
                tiles,
                f,
                i,
                k,
            )] == f[i] - k,
        sources.contains(spec_walk(tiles, f, i, f[i] as nat) as usize),
        f[i] < NUM_TILES,
{
    if f[i] > 0 {
        let last = (f[i] - 1) as nat;
        lemma_walk_descends(f, tiles, sources, max_depth, i, last);
        lemma_walkable_sources_suffice(
            f,
            tiles,
            sources,
            max_depth,
            spec_walk(tiles, f, i, last),
        );
    }
    lemma_walk_reaches_source(f, tiles, sources, max_depth, i);
}

} // verus!
