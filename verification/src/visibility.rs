//! Visibility: the tiles that can be seen from a point.
//!
//! A tile is seen from an origin when it lies on the grid, no farther than
//! the radius as the crow flies, and no tile on the straight line between
//! the two blocks the view or lies off the grid. The ends of the line do
//! not count: a wall is seen, and so is the origin.

use vstd::prelude::*;
use crate::geometry::{spec_distance_squared, Point};
use crate::map::{spec_in_bounds, spec_map_idx, spec_point_of, Grid, TileType};
use crate::{NUM_TILES, SCREEN_HEIGHT, SCREEN_WIDTH};

verus! {

/// The number of steps of the line from `a` to `b`: the larger of the two
/// distances along the axes.
pub open spec fn spec_line_steps(a: Point, b: Point) -> int {
    let dx = if b.x >= a.x {
        b.x - a.x
    } else {
        a.x - b.x
    };
    let dy = if b.y >= a.y {
        b.y - a.y
    } else {
        a.y - b.y
    };
    if dx >= dy {
        dx
    } else {
        dy
    }
}

/// One coordinate of the point after `k` of `n` steps from `from` to `to`:
/// the `k`-th part of the way, rounded to the nearest whole number, halves
/// away from `from`.
pub open spec fn spec_line_coordinate(from: int, to: int, n: int, k: int) -> int {
    if to >= from {
        from + (2 * k * (to - from) + n) / (2 * n)
    } else {
        from - (2 * k * (from - to) + n) / (2 * n)
    }
}

/// Whether `(x, y)` lies on the grid and its tile lets the view pass.
pub open spec fn spec_tile_clear(tiles: Seq<TileType>, x: int, y: int) -> bool {
    0 <= x < SCREEN_WIDTH && 0 <= y < SCREEN_HEIGHT && !tiles[spec_map_idx(x, y)].spec_opaque()
}

/// Whether the view passes along step `k` of the line from `a` to `b`.
pub open spec fn spec_step_clear(tiles: Seq<TileType>, a: Point, b: Point, k: int) -> bool {
    spec_tile_clear(
        tiles,
        spec_line_coordinate(a.x as int, b.x as int, spec_line_steps(a, b), k),
        spec_line_coordinate(a.y as int, b.y as int, spec_line_steps(a, b), k),
    )
}

/// Whether the view passes along the line from `a` to `b`, its ends left
/// out.
pub open spec fn spec_line_clear(tiles: Seq<TileType>, a: Point, b: Point) -> bool {
    forall|k: int| 0 < k < spec_line_steps(a, b) ==> #[trigger] spec_step_clear(tiles, a, b, k)
}

/// Whether the tile at `p` is seen from `origin` within `radius`.
pub open spec fn spec_visible(tiles: Seq<TileType>, origin: Point, radius: i32, p: Point) -> bool {
    &&& radius >= 0
    &&& spec_in_bounds(p)
    &&& spec_distance_squared(origin, p) <= radius * radius
    &&& spec_line_clear(tiles, origin, p)
}

/// The tiles seen from `origin` among the first `n` of the grid, in the
/// order of the tiles.
pub open spec fn spec_visible_tiles(
    tiles: Seq<TileType>,
    origin: Point,
    radius: i32,
    n: nat,
) -> Seq<Point>
    decreases n,
{
    if n == 0 {
        Seq::empty()
    } else {
        let before = spec_visible_tiles(tiles, origin, radius, (n - 1) as nat);
        if spec_visible(tiles, origin, radius, spec_point_of(n - 1)) {
            before.push(spec_point_of(n - 1))
        } else {
            before
        }
    }
}

/// One coordinate of the point after `k` of `n` steps from `from` to `to`.
fn line_coordinate(from: i32, to: i32, n: i64, k: i64) -> (c: i128)
    requires
        0 < k < n,
        n <= 0xffff_ffff,
        -n <= to - from <= n,
    ensures
        c == spec_line_coordinate(from as int, to as int, n as int, k as int),
{
    let d: i128 = if to >= from {
        to as i128 - from as i128
    } else {
        from as i128 - to as i128
    };
    assert(0 <= k * d <= 0xffff_ffff * 0xffff_ffff) by (nonlinear_arith)
        requires
            0 < k <= 0xffff_ffff,
            0 <= d <= 0xffff_ffff,
    ;
    assert(2 * k * d == 2 * (k * d)) by (nonlinear_arith);
    let part: i128 = (2 * (k as i128 * d) + n as i128) / (2 * n as i128);
    assert(0 <= part <= 2 * (k * d) + n) by (nonlinear_arith)
        requires
            part == (2 * (k * d) + n) / (2 * n),
            n > 0,
            k * d >= 0,
    ;
    if to >= from {
        from as i128 + part
    } else {
        from as i128 - part
    }
}

/// Whether the view passes along the line from `a` to `b`.
pub fn line_clear(map: &Grid, a: Point, b: Point) -> (clear: bool)
    requires
        map.wf(),
    ensures
        clear == spec_line_clear(map.tiles@, a, b),
{
    let dx: i64 = if b.x >= a.x {
        b.x as i64 - a.x as i64
    } else {
        a.x as i64 - b.x as i64
    };
    let dy: i64 = if b.y >= a.y {
        b.y as i64 - a.y as i64
    } else {
        a.y as i64 - b.y as i64
    };
    let n: i64 = if dx >= dy {
        dx
    } else {
        dy
    };
    let mut k: i64 = 1;
    while k < n
        invariant
            1 <= k,
            n == spec_line_steps(a, b),
            n <= 0xffff_ffff,
            map.wf(),
            forall|j: int| 0 < j < k ==> #[trigger] spec_step_clear(map.tiles@, a, b, j),
        decreases n - k,
    {
        let x = line_coordinate(a.x, b.x, n, k);
        let y = line_coordinate(a.y, b.y, n, k);
        let passes = 0 <= x && x < SCREEN_WIDTH as i128 && 0 <= y && y < SCREEN_HEIGHT as i128
            && !map.tiles[(y * SCREEN_WIDTH as i128 + x) as usize].is_opaque();
        if !passes {
            assert(!spec_step_clear(map.tiles@, a, b, k as int));
            return false;
        }
        k += 1;
    }
    true
}

/// Whether the tile at `p` is seen from `origin` within `radius`.
pub fn is_visible(map: &Grid, origin: Point, radius: i32, p: Point) -> (seen: bool)
    requires
        map.wf(),
    ensures
        seen == spec_visible(map.tiles@, origin, radius, p),
{
    if radius < 0 || !map.in_bounds(p) {
        return false;
    }
    let r: u128 = radius as u128;
    assert(r * r <= 0x8000_0000 * 0x8000_0000) by (nonlinear_arith)
        requires
            0 <= r <= 0x8000_0000,
    ;
    if origin.distance_squared(p) > r * r {
        return false;
    }
    line_clear(map, origin, p)
}

/// The tiles seen from `origin` within `radius`, in the order of the
/// grid's tiles.
pub fn field_of_view_set(origin: Point, radius: i32, map: &Grid) -> (seen: Vec<Point>)
    requires
        map.wf(),
    ensures
        seen@ == spec_visible_tiles(map.tiles@, origin, radius, NUM_TILES as nat),
        forall|p: Point| seen@.contains(p) <==> spec_visible(map.tiles@, origin, radius, p),
{
    let mut seen: Vec<Point> = Vec::new();
    let mut i: usize = 0;
    while i < NUM_TILES
        invariant
            i <= NUM_TILES,
            map.wf(),
            seen@ == spec_visible_tiles(map.tiles@, origin, radius, i as nat),
        decreases NUM_TILES - i,
    {
        let p = map.index_to_point2d(i);
        if is_visible(map, origin, radius, p) {
            seen.push(p);
        }
        i += 1;
    }
    proof {
        assert forall|p: Point| seen@.contains(p) <==> spec_visible(
            map.tiles@,
            origin,
            radius,
            p,
        ) by {
            lemma_visible_tiles_complete(map.tiles@, origin, radius, NUM_TILES as nat, p);
        }
    }
    seen
}

/// The tiles listed as seen are those that are seen, neither more nor
/// fewer.
pub proof fn lemma_visible_tiles_complete(
    tiles: Seq<TileType>,
    origin: Point,
    radius: i32,
    n: nat,
    p: Point,
)
    requires
        n <= NUM_TILES,
    ensures
        spec_visible_tiles(tiles, origin, radius, n).contains(p) <==> (spec_visible(
            tiles,
            origin,
            radius,
            p,
        ) && spec_map_idx(p.x as int, p.y as int) < n),
    decreases n,
{
    if n > 0 {
        let before = spec_visible_tiles(tiles, origin, radius, (n - 1) as nat);
        let here = spec_point_of(n - 1);
        lemma_visible_tiles_complete(tiles, origin, radius, (n - 1) as nat, p);
        if spec_visible(tiles, origin, radius, here) {
            let after = before.push(here);
            assert(after[after.len() - 1] == here);
            if before.contains(p) {
                let k = choose|k: int| 0 <= k < before.len() && before[k] == p;
                assert(after[k] == p);
            }
            if after.contains(p) && p != here {
                let k = choose|k: int| 0 <= k < after.len() && after[k] == p;
                assert(before[k] == p);
            }
        }
        if spec_in_bounds(p) && spec_map_idx(p.x as int, p.y as int) == n - 1 {
            assert(spec_point_of(n - 1) == p);
        }
    } else {
        assert(!spec_visible_tiles(tiles, origin, radius, 0).contains(p));
    }
}

/// The origin is seen from itself wherever it lies on the grid.
pub proof fn lemma_origin_visible(tiles: Seq<TileType>, origin: Point, radius: i32)
    requires
        radius >= 0,
        spec_in_bounds(origin),
    ensures
        spec_visible(tiles, origin, radius, origin),
{
    assert(radius * radius >= 0) by (nonlinear_arith);
}

} // verus!
