//! Structural inserts: small hand-drawn layouts that are stamped onto a
//! generated grid, at a place that the player can reach but that lies away
//! from the start and off the goal.
//!
//! A layout is drawn with one character per tile, row by row: `-` is floor,
//! `#` is wall, `M` is floor where something may be spawned and `X` is floor
//! where a monster is spawned for sure. White space between the characters
//! does not count.

use vstd::prelude::*;
use vstd::arithmetic::div_mod::lemma_fundamental_div_mod_converse;
use bracket_lib::prelude::RandomNumberGenerator;
use crate::distance_field::{lemma_field_unique, spec_field, DistanceField};
use crate::geometry::{Point, Rect};
use crate::map::{spec_in_bounds, spec_map_idx, spec_point_of, map_idx, TileType};
use crate::map_builder::{MapBuilder, GENERATION_DEPTH};
use crate::random;
use crate::{NUM_TILES, SCREEN_HEIGHT, SCREEN_WIDTH};

verus! {

/// The number of places that are tried for an insert before it is given up.
pub const PLACEMENT_ATTEMPTS: usize = 10;

/// The layout of the keep.
pub open spec fn spec_fortress_layout() -> Seq<char> {
    "
------------
---######---
---#-XX-#---
---#-XX-#---
-###----###-
------------
-###----###-
---#-XX-#---
---#-XX-#---
---######---
------------
"@
}

/// The layout of the den.
pub open spec fn spec_monster_fortress_layout() -> Seq<char> {
    "
######
M----M
#----#
#X--X#
#-XX-#
######
"@
}

/// Whether `prefab` is the keep.
pub open spec fn is_fortress(prefab: (&'static str, i32, i32)) -> bool {
    prefab.0@ == spec_fortress_layout() && prefab.1 == 12 && prefab.2 == 11
}

/// Whether `prefab` is the den.
pub open spec fn is_monster_fortress(prefab: (&'static str, i32, i32)) -> bool {
    prefab.0@ == spec_monster_fortress_layout() && prefab.1 == 6 && prefab.2 == 6
}

/// A keep with four chambers, a monster pair in each.
pub fn fortress() -> (prefab: (&'static str, i32, i32))
    ensures
        is_fortress(prefab),
{
    (
        "
------------
---######---
---#-XX-#---
---#-XX-#---
-###----###-
------------
-###----###-
---#-XX-#---
---#-XX-#---
---######---
------------
",
        12,
        11,
    )
}

/// A walled den of monsters, open at two sides.
pub fn monster_fortress() -> (prefab: (&'static str, i32, i32))
    ensures
        is_monster_fortress(prefab),
{
    (
        "
######
M----M
#----#
#X--X#
#-XX-#
######
",
        6,
        6,
    )
}

/// The inserts to draw from: the keep three times in four.
pub fn prefab_list() -> (list: Vec<(&'static str, i32, i32)>)
    ensures
        list@.len() == 4,
        is_fortress(list@[0]),
        is_fortress(list@[1]),
        is_fortress(list@[2]),
        is_monster_fortress(list@[3]),
{
    let mut list: Vec<(&'static str, i32, i32)> = Vec::new();
    list.push(fortress());
    list.push(fortress());
    list.push(fortress());
    list.push(monster_fortress());
    list
}

/// What `char::is_whitespace` says of a character.
pub uninterp spec fn char_is_whitespace(c: char) -> bool;

/// Calls `char::is_whitespace`. The contract only names the answer.
#[verifier::external_body]
fn is_whitespace(c: char) -> (b: bool)
    ensures
        b == char_is_whitespace(c),
{
    c.is_whitespace()
}

/// Whether a character of a layout stands for no tile.
pub open spec fn spec_blank(c: char) -> bool {
    c == '\r' || c == '\n' || char_is_whitespace(c)
}

/// The characters among the first `n` of a layout that stand for tiles.
pub open spec fn spec_layout_cells(layout: Seq<char>, n: nat) -> Seq<char>
    decreases n,
{
    if n == 0 {
        Seq::empty()
    } else {
        let before = spec_layout_cells(layout, (n - 1) as nat);
        if spec_blank(layout[n - 1]) {
            before
        } else {
            before.push(layout[n - 1])
        }
    }
}

/// The characters of a layout that stand for tiles, in their order.
pub fn layout_cells(layout: &str) -> (cells: Vec<char>)
    ensures
        cells@ == spec_layout_cells(layout@, layout@.len()),
{
    let n = layout.unicode_len();
    let mut cells: Vec<char> = Vec::new();
    let mut i: usize = 0;
    while i < n
        invariant
            i <= n,
            n == layout@.len(),
            cells@ == spec_layout_cells(layout@, i as nat),
        decreases n - i,
    {
        let c = layout.get_char(i);
        if !(c == '\r' || c == '\n' || is_whitespace(c)) {
            cells.push(c);
        }
        i += 1;
    }
    cells
}

/// Whether an insert `width` wide and `height` high, with its corner at
/// `placement`, lies on the grid.
pub open spec fn spec_fits(width: int, height: int, placement: Point) -> bool {
    &&& 0 < width
    &&& 0 < height
    &&& 0 <= placement.x
    &&& placement.x + width <= SCREEN_WIDTH
    &&& 0 <= placement.y
    &&& placement.y + height <= SCREEN_HEIGHT
}

/// The rectangle that an insert covers.
pub open spec fn spec_footprint(width: int, height: int, placement: Point) -> Rect {
    Rect {
        x1: placement.x,
        x2: (placement.x + width) as i32,
        y1: placement.y,
        y2: (placement.y + height) as i32,
    }
}

/// Whether an insert may cover `rect`: the field reaches every tile of it in
/// more than 20 and fewer than 2000 steps, and the goal is not among them.
pub open spec fn spec_placement_ok(f: Seq<u32>, goal: Point, rect: Rect) -> bool {
    forall|i: int|
        0 <= i < NUM_TILES && rect.spec_contains(spec_point_of(i)) ==> 20 < #[trigger] f[i] < 2000
            && spec_point_of(i) != goal
}

/// What a tile becomes under a character of a layout. A character that the
/// layouts do not know leaves the tile as it is.
pub open spec fn spec_stamp_tile(before: TileType, c: char) -> TileType {
    if c == 'M' || c == 'X' || c == '-' {
        TileType::Floor
    } else if c == '#' {
        TileType::Wall
    } else {
        before
    }
}

/// The tile with index `i` once the insert is stamped.
pub open spec fn spec_stamped(
    before: Seq<TileType>,
    cells: Seq<char>,
    width: int,
    height: int,
    placement: Point,
    i: int,
) -> TileType {
    let p = spec_point_of(i);
    if placement.x <= p.x < placement.x + width && placement.y <= p.y < placement.y + height {
        spec_stamp_tile(before[i], cells[(p.y - placement.y) * width + (p.x - placement.x)])
    } else {
        before[i]
    }
}

/// The point that cell `k` of an insert lands on.
pub open spec fn spec_cell_point(width: int, placement: Point, k: int) -> Point {
    Point { x: (placement.x + k % width) as i32, y: (placement.y + k / width) as i32 }
}

/// The points that the cells marked `mark` land on, among the first `n`
/// cells and in their order.
pub open spec fn spec_marked(
    cells: Seq<char>,
    width: int,
    placement: Point,
    mark: char,
    n: nat,
) -> Seq<Point>
    decreases n,
{
    if n == 0 {
        Seq::empty()
    } else {
        let before = spec_marked(cells, width, placement, mark, (n - 1) as nat);
        if cells[n - 1] == mark {
            before.push(spec_cell_point(width, placement, n - 1))
        } else {
            before
        }
    }
}

/// The points among the first `n` of `spawns` that lie outside `rect`, in
/// their order.
pub open spec fn spec_outside(spawns: Seq<Point>, rect: Rect, n: nat) -> Seq<Point>
    decreases n,
{
    if n == 0 {
        Seq::empty()
    } else {
        let before = spec_outside(spawns, rect, (n - 1) as nat);
        if rect.spec_contains(spawns[n - 1]) {
            before
        } else {
            before.push(spawns[n - 1])
        }
    }
}

/// What is left of the planned spawns lay outside the insert and was
/// planned before.
pub proof fn lemma_outside_members(spawns: Seq<Point>, rect: Rect, n: nat, k: int)
    requires
        n <= spawns.len(),
        0 <= k < spec_outside(spawns, rect, n).len(),
    ensures
        !rect.spec_contains(spec_outside(spawns, rect, n)[k]),
        exists|j: int| 0 <= j < n && #[trigger] spawns[j] == spec_outside(spawns, rect, n)[k],
    decreases n,
{
    if n > 0 {
        let before = spec_outside(spawns, rect, (n - 1) as nat);
        if k < before.len() {
            lemma_outside_members(spawns, rect, (n - 1) as nat, k);
            let j = choose|j: int| 0 <= j < n - 1 && #[trigger] spawns[j] == before[k];
            assert(spawns[j] == spec_outside(spawns, rect, n)[k]);
        } else {
            assert(spawns[n - 1] == spec_outside(spawns, rect, n)[k]);
        }
    }
}

/// A spawn that an insert asks for lies where one of its cells with that
/// mark lands.
pub proof fn lemma_marked_members(
    cells: Seq<char>,
    width: int,
    placement: Point,
    mark: char,
    n: nat,
    k: int,
)
    requires
        n <= cells.len(),
        0 <= k < spec_marked(cells, width, placement, mark, n).len(),
    ensures
        exists|c: int|
            0 <= c < n && cells[c] == mark && spec_marked(cells, width, placement, mark, n)[k]
                == #[trigger] spec_cell_point(width, placement, c),
    decreases n,
{
    if n > 0 {
        let before = spec_marked(cells, width, placement, mark, (n - 1) as nat);
        if k < before.len() {
            lemma_marked_members(cells, width, placement, mark, (n - 1) as nat, k);
            let c = choose|c: int|
                0 <= c < n - 1 && cells[c] == mark && before[k] == #[trigger] spec_cell_point(
                    width,
                    placement,
                    c,
                );
            assert(spec_marked(cells, width, placement, mark, n)[k] == spec_cell_point(
                width,
                placement,
                c,
            ));
        } else {
            assert(spec_marked(cells, width, placement, mark, n)[k] == spec_cell_point(
                width,
                placement,
                n - 1,
            ));
        }
    }
}

/// The tile on which a cell of an insert lands lies on the grid, under the
/// insert, and is stamped with that cell.
pub proof fn lemma_cell_stamped(
    before: Seq<TileType>,
    cells: Seq<char>,
    width: int,
    height: int,
    placement: Point,
    c: int,
)
    requires
        before.len() == NUM_TILES,
        spec_fits(width, height, placement),
        cells.len() == width * height,
        0 <= c < cells.len(),
    ensures
        spec_in_bounds(spec_cell_point(width, placement, c)),
        spec_footprint(width, height, placement).spec_contains(
            spec_cell_point(width, placement, c),
        ),
        spec_stamped(
            before,
            cells,
            width,
            height,
            placement,
            spec_map_idx(
                spec_cell_point(width, placement, c).x as int,
                spec_cell_point(width, placement, c).y as int,
            ),
        ) == spec_stamp_tile(
            before[spec_map_idx(
                spec_cell_point(width, placement, c).x as int,
                spec_cell_point(width, placement, c).y as int,
            )],
            cells[c],
        ),
{
    let row = c / width;
    let column = c % width;
    vstd::arithmetic::div_mod::lemma_fundamental_div_mod(c, width);
    vstd::arithmetic::div_mod::lemma_mod_bound(c, width);
    assert(0 <= row < height) by (nonlinear_arith)
        requires
            0 <= c < width * height,
            c == width * row + column,
            0 <= column < width,
            width > 0,
    ;
    assert(row * width + column == c) by (nonlinear_arith)
        requires
            c == width * row + column,
    ;
    let q = spec_cell_point(width, placement, c);
    assert(q.x == placement.x + column && q.y == placement.y + row);
    assert(spec_point_of(spec_map_idx(q.x as int, q.y as int)) == q);
}

/// Whether an insert may cover `rect`.
pub fn can_place(field: &DistanceField, goal: Point, rect: &Rect) -> (ok: bool)
    requires
        field.wf(),
    ensures
        ok == spec_placement_ok(field.distances@, goal, *rect),
{
    let mut ok = true;
    let mut i: usize = 0;
    while i < NUM_TILES
        invariant
            i <= NUM_TILES,
            field.wf(),
            ok == forall|j: int|
                0 <= j < i && rect.spec_contains(spec_point_of(j)) ==> 20
                    < #[trigger] field.distances@[j] < 2000 && spec_point_of(j) != goal,
        decreases NUM_TILES - i,
    {
        let w: usize = SCREEN_WIDTH as usize;
        let pt = Point::new((i % w) as i32, (i / w) as i32);
        if rect.point_in_rect(pt) {
            let distance = field.distances[i];
            if !(distance < 2000 && distance > 20 && !(goal.x == pt.x && goal.y == pt.y)) {
                ok = false;
            }
        }
        i += 1;
    }
    ok
}

/// Drops the planned spawns that lie inside `rect`.
pub fn remove_spawns_inside(spawns: &mut Vec<Point>, rect: &Rect)
    ensures
        final(spawns)@ == spec_outside(old(spawns)@, *rect, old(spawns)@.len()),
{
    let mut kept: Vec<Point> = Vec::new();
    let mut k: usize = 0;
    while k < spawns.len()
        invariant
            k <= spawns@.len(),
            spawns@ == old(spawns)@,
            kept@ == spec_outside(spawns@, *rect, k as nat),
        decreases spawns@.len() - k,
    {
        let p = spawns[k];
        if !rect.point_in_rect(p) {
            kept.push(p);
        }
        k += 1;
    }
    *spawns = kept;
}

/// Stamps an insert onto the grid with its corner at `placement`, and notes
/// the spawns that it asks for.
pub fn stamp(mb: &mut MapBuilder, cells: &Vec<char>, width: i32, height: i32, placement: Point)
    requires
        old(mb).map.wf(),
        spec_fits(width as int, height as int, placement),
        cells@.len() == width * height,
    ensures
        final(mb).map.wf(),
        final(mb).map.revealed_tiles == old(mb).map.revealed_tiles,
        final(mb).player_start == old(mb).player_start,
        final(mb).teleportation_crystal_start == old(mb).teleportation_crystal_start,
        final(mb).theme == old(mb).theme,
        forall|i: int|
            0 <= i < NUM_TILES ==> #[trigger] final(mb).map.tiles@[i] == spec_stamped(
                old(mb).map.tiles@,
                cells@,
                width as int,
                height as int,
                placement,
                i,
            ),
        final(mb).monster_spawns@ == old(mb).monster_spawns@ + spec_marked(
            cells@,
            width as int,
            placement,
            'M',
            cells@.len(),
        ),
        final(mb).guaranteed_monster_spawns@ == old(mb).guaranteed_monster_spawns@ + spec_marked(
            cells@,
            width as int,
            placement,
            'X',
            cells@.len(),
        ),
{
    let ghost before = mb.map.tiles@;
    let ghost w = width as int;
    let ghost h = height as int;
    let mut i: usize = 0;
    let mut ty: i32 = placement.y;
    proof {
        assert(w * h <= 80 * 50) by (nonlinear_arith)
            requires
                0 < w <= 80,
                0 < h <= 50,
        ;
        assert(mb.monster_spawns@ + Seq::<Point>::empty() =~= mb.monster_spawns@);
        assert(mb.guaranteed_monster_spawns@ + Seq::<Point>::empty()
            =~= mb.guaranteed_monster_spawns@);
    }
    while ty < placement.y + height
        invariant
            placement.y <= ty <= placement.y + height,
            mb.map.wf(),
            spec_fits(w, h, placement),
            w == width,
            h == height,
            cells@.len() == w * h,
            cells@.len() <= NUM_TILES,
            before == old(mb).map.tiles@,
            before.len() == NUM_TILES,
            i == (ty - placement.y) * w,
            mb.map.revealed_tiles == old(mb).map.revealed_tiles,
            mb.player_start == old(mb).player_start,
            mb.teleportation_crystal_start == old(mb).teleportation_crystal_start,
            mb.theme == old(mb).theme,
            forall|j: int|
                0 <= j < NUM_TILES ==> #[trigger] mb.map.tiles@[j] == if spec_point_of(j).y < ty {
                    spec_stamped(before, cells@, w, h, placement, j)
                } else {
                    before[j]
                },
            mb.monster_spawns@ == old(mb).monster_spawns@ + spec_marked(
                cells@,
                w,
                placement,
                'M',
                i as nat,
            ),
            mb.guaranteed_monster_spawns@ == old(mb).guaranteed_monster_spawns@ + spec_marked(
                cells@,
                w,
                placement,
                'X',
                i as nat,
            ),
        decreases placement.y + height - ty,
    {
        let mut tx: i32 = placement.x;
        proof {
            assert((ty - placement.y) * w + w == (ty + 1 - placement.y) * w) by (nonlinear_arith);
            assert((ty + 1 - placement.y) * w <= h * w) by (nonlinear_arith)
                requires
                    ty + 1 - placement.y <= h,
                    w > 0,
            ;
            assert(h * w == w * h) by (nonlinear_arith);
        }
        while tx < placement.x + width
            invariant
                placement.y <= ty < placement.y + height,
                placement.x <= tx <= placement.x + width,
                mb.map.wf(),
                spec_fits(w, h, placement),
                w == width,
                h == height,
                cells@.len() == w * h,
                cells@.len() <= NUM_TILES,
                before == old(mb).map.tiles@,
                before.len() == NUM_TILES,
                i == (ty - placement.y) * w + (tx - placement.x),
                (ty - placement.y) * w + w <= w * h,
                (ty - placement.y) * w >= 0,
                mb.map.revealed_tiles == old(mb).map.revealed_tiles,
                mb.player_start == old(mb).player_start,
                mb.teleportation_crystal_start == old(mb).teleportation_crystal_start,
                mb.theme == old(mb).theme,
                forall|j: int|
                    0 <= j < NUM_TILES ==> #[trigger] mb.map.tiles@[j] == if spec_point_of(j).y < ty
                        || (spec_point_of(j).y == ty && spec_point_of(j).x < tx) {
                        spec_stamped(before, cells@, w, h, placement, j)
                    } else {
                        before[j]
                    },
                mb.monster_spawns@ == old(mb).monster_spawns@ + spec_marked(
                    cells@,
                    w,
                    placement,
                    'M',
                    i as nat,
                ),
                mb.guaranteed_monster_spawns@ == old(mb).guaranteed_monster_spawns@ + spec_marked(
                    cells@,
                    w,
                    placement,
                    'X',
                    i as nat,
                ),
            decreases placement.x + width - tx,
        {
            let idx = map_idx(tx, ty);
            let c = cells[i];
            let ghost spawns = mb.monster_spawns@;
            let ghost sure = mb.guaranteed_monster_spawns@;
            proof {
                lemma_fundamental_div_mod_converse(
                    i as int,
                    w,
                    ty - placement.y,
                    tx - placement.x,
                );
                assert(spec_cell_point(w, placement, i as int) == (Point { x: tx, y: ty }));
            }
            if c == 'M' {
                mb.map.tiles.set(idx, TileType::Floor);
                mb.monster_spawns.push(Point::new(tx, ty));
            } else if c == 'X' {
                mb.map.tiles.set(idx, TileType::Floor);
                mb.guaranteed_monster_spawns.push(Point::new(tx, ty));
            } else if c == '-' {
                mb.map.tiles.set(idx, TileType::Floor);
            } else if c == '#' {
                mb.map.tiles.set(idx, TileType::Wall);
            }
            proof {
                let m_before = spec_marked(cells@, w, placement, 'M', i as nat);
                let x_before = spec_marked(cells@, w, placement, 'X', i as nat);
                assert(mb.monster_spawns@ =~= old(mb).monster_spawns@ + spec_marked(
                    cells@,
                    w,
                    placement,
                    'M',
                    (i + 1) as nat,
                ));
                assert(mb.guaranteed_monster_spawns@ =~= old(mb).guaranteed_monster_spawns@
                    + spec_marked(cells@, w, placement, 'X', (i + 1) as nat));
            }
            i += 1;
            tx += 1;
        }
        ty += 1;
    }
    proof {
        assert(i == h * w);
        assert(h * w == w * h) by (nonlinear_arith);
    }
}

/// Whether an insert can be tried at all: the player's start lies on the
/// grid, the insert is smaller than the grid, and its layout has a cell
/// for each of its tiles.
pub open spec fn spec_insertable(start: Point, prefab: (&str, i32, i32)) -> bool {
    &&& spec_in_bounds(start)
    &&& 0 < prefab.1 < SCREEN_WIDTH
    &&& 0 < prefab.2 < SCREEN_HEIGHT
    &&& spec_layout_cells(prefab.0@, prefab.0@.len()).len() == prefab.1 * prefab.2
}

/// Whether chance can pick `p` as the corner of an insert.
pub open spec fn spec_candidate(width: int, height: int, p: Point) -> bool {
    0 <= p.x < SCREEN_WIDTH - width && 0 <= p.y < SCREEN_HEIGHT - height
}

/// Whether an insert may be put with its corner at `p`.
pub open spec fn spec_placeable(f: Seq<u32>, goal: Point, width: int, height: int, p: Point) -> bool {
    spec_placement_ok(f, goal, spec_footprint(width, height, p))
}

/// Whether `tries` tells a search for a place that ends in `placed`: the
/// corners were tried one after the other, at most `PLACEMENT_ATTEMPTS` of
/// them; the search ended with the first that would do, and it ended
/// without one only when all attempts were spent.
pub open spec fn is_search(
    f: Seq<u32>,
    goal: Point,
    width: int,
    height: int,
    tries: Seq<Point>,
    placed: Option<Point>,
) -> bool {
    &&& tries.len() <= PLACEMENT_ATTEMPTS
    &&& forall|k: int| 0 <= k < tries.len() ==> spec_candidate(width, height, #[trigger] tries[k])
    &&& match placed {
        Some(p) => {
            &&& tries.len() >= 1
            &&& tries[tries.len() - 1] == p
            &&& spec_placeable(f, goal, width, height, p)
            &&& forall|k: int|
                0 <= k < tries.len() - 1 ==> !spec_placeable(
                    f,
                    goal,
                    width,
                    height,
                    #[trigger] tries[k],
                )
        },
        None => {
            &&& tries.len() == PLACEMENT_ATTEMPTS
            &&& forall|k: int|
                0 <= k < tries.len() ==> !spec_placeable(f, goal, width, height, #[trigger] tries[k])
        },
    }
}

/// The distance field that the search for a place goes by: the one that
/// flows from the player's start.
pub open spec fn spec_placement_field(tiles: Seq<TileType>, start: Point) -> Seq<u32> {
    spec_field(tiles, seq![spec_map_idx(start.x as int, start.y as int) as usize], GENERATION_DEPTH)
}

/// Whether a level with the tiles `tiles`, the places to spawn at `spawns`
/// and the places for monsters `sure` is the level `before` after the
/// search for a place for the insert `prefab` that ended in `placed`: where
/// no place was found nothing has changed; where one was found, the insert
/// is stamped there, the planned places under it are dropped, and the places
/// that it asks for are added.
pub open spec fn spec_inserted(
    before: MapBuilder,
    prefab: (&str, i32, i32),
    placed: Option<Point>,
    tiles: Seq<TileType>,
    spawns: Seq<Point>,
    sure: Seq<Point>,
) -> bool {
    let f = spec_placement_field(before.map.tiles@, before.player_start);
    let goal = before.teleportation_crystal_start;
    &&& !spec_insertable(before.player_start, prefab) ==> placed is None
    &&& spec_insertable(before.player_start, prefab) ==> exists|tries: Seq<Point>|
        is_search(f, goal, prefab.1 as int, prefab.2 as int, tries, placed)
    &&& match placed {
        None => {
            &&& tiles == before.map.tiles@
            &&& spawns == before.monster_spawns@
            &&& sure == before.guaranteed_monster_spawns@
        },
        Some(placement) => {
            let cells = spec_layout_cells(prefab.0@, prefab.0@.len());
            let rect = spec_footprint(prefab.1 as int, prefab.2 as int, placement);
            &&& spec_insertable(before.player_start, prefab)
            &&& spec_fits(prefab.1 as int, prefab.2 as int, placement)
            &&& spec_candidate(prefab.1 as int, prefab.2 as int, placement)
            &&& spec_placeable(f, goal, prefab.1 as int, prefab.2 as int, placement)
            &&& tiles.len() == NUM_TILES
            &&& forall|i: int|
                0 <= i < NUM_TILES ==> #[trigger] tiles[i] == spec_stamped(
                    before.map.tiles@,
                    cells,
                    prefab.1 as int,
                    prefab.2 as int,
                    placement,
                    i,
                )
            &&& spawns == spec_outside(before.monster_spawns@, rect, before.monster_spawns@.len())
                + spec_marked(cells, prefab.1 as int, placement, 'M', cells.len())
            &&& sure == before.guaranteed_monster_spawns@ + spec_marked(
                cells,
                prefab.1 as int,
                placement,
                'X',
                cells.len(),
            )
        },
    }
}

/// No more places are left than were planned.
pub proof fn lemma_outside_len(spawns: Seq<Point>, rect: Rect, n: nat)
    ensures
        spec_outside(spawns, rect, n).len() <= n,
    decreases n,
{
    if n > 0 {
        lemma_outside_len(spawns, rect, (n - 1) as nat);
    }
}

/// An insert asks for no more places than it has cells.
pub proof fn lemma_marked_len(cells: Seq<char>, width: int, placement: Point, mark: char, n: nat)
    ensures
        spec_marked(cells, width, placement, mark, n).len() <= n,
    decreases n,
{
    if n > 0 {
        lemma_marked_len(cells, width, placement, mark, (n - 1) as nat);
    }
}

/// Tries to place an insert and stamps it where a place is found. The
/// answer is the corner of the insert. Corners are picked by chance, up to
/// `PLACEMENT_ATTEMPTS` of them, and the first at which the insert may be
/// put is taken. Where none of the corners tried will do, or the layout is
/// not `width` by `height` tiles, or is too large for the grid, or the
/// player's start lies off the grid, nothing changes. So an insert that may
/// be put nowhere is not placed.
pub fn apply_prefab(
    mb: &mut MapBuilder,
    rng: &mut RandomNumberGenerator,
    prefab: (&str, i32, i32),
) -> (placed: Option<Point>)
    requires
        old(mb).map.wf(),
    ensures
        final(mb).map.wf(),
        final(mb).map.revealed_tiles == old(mb).map.revealed_tiles,
        final(mb).player_start == old(mb).player_start,
        final(mb).teleportation_crystal_start == old(mb).teleportation_crystal_start,
        final(mb).theme == old(mb).theme,
        spec_inserted(
            *old(mb),
            prefab,
            placed,
            final(mb).map.tiles@,
            final(mb).monster_spawns@,
            final(mb).guaranteed_monster_spawns@,
        ),
        !spec_insertable(old(mb).player_start, prefab) ==> placed is None,
        spec_insertable(old(mb).player_start, prefab) ==> exists|tries: Seq<Point>|
            is_search(
                spec_placement_field(old(mb).map.tiles@, old(mb).player_start),
                old(mb).teleportation_crystal_start,
                prefab.1 as int,
                prefab.2 as int,
                tries,
                placed,
            ),
        (forall|p: Point|
            #[trigger] spec_candidate(prefab.1 as int, prefab.2 as int, p) ==> !spec_placeable(
                spec_placement_field(old(mb).map.tiles@, old(mb).player_start),
                old(mb).teleportation_crystal_start,
                prefab.1 as int,
                prefab.2 as int,
                p,
            )) ==> placed is None,
        match placed {
            None => {
                &&& final(mb).map.tiles@ == old(mb).map.tiles@
                &&& final(mb).monster_spawns@ == old(mb).monster_spawns@
                &&& final(mb).guaranteed_monster_spawns@ == old(mb).guaranteed_monster_spawns@
            },
            Some(placement) => {
                let cells = spec_layout_cells(prefab.0@, prefab.0@.len());
                let rect = spec_footprint(prefab.1 as int, prefab.2 as int, placement);
                &&& spec_in_bounds(old(mb).player_start)
                &&& spec_fits(prefab.1 as int, prefab.2 as int, placement)
                &&& spec_candidate(prefab.1 as int, prefab.2 as int, placement)
                &&& cells.len() == prefab.1 * prefab.2
                &&& spec_placement_ok(
                    spec_field(
                        old(mb).map.tiles@,
                        seq![
                            spec_map_idx(
                                old(mb).player_start.x as int,
                                old(mb).player_start.y as int,
                            ) as usize,
                        ],
                        GENERATION_DEPTH,
                    ),
                    old(mb).teleportation_crystal_start,
                    rect,
                )
                &&& forall|i: int|
                    0 <= i < NUM_TILES ==> #[trigger] final(mb).map.tiles@[i] == spec_stamped(
                        old(mb).map.tiles@,
                        cells,
                        prefab.1 as int,
                        prefab.2 as int,
                        placement,
                        i,
                    )
                &&& final(mb).monster_spawns@ == spec_outside(
                    old(mb).monster_spawns@,
                    rect,
                    old(mb).monster_spawns@.len(),
                ) + spec_marked(cells, prefab.1 as int, placement, 'M', cells.len())
                &&& final(mb).guaranteed_monster_spawns@ == old(mb).guaranteed_monster_spawns@
                    + spec_marked(cells, prefab.1 as int, placement, 'X', cells.len())
            },
        },
{
    let width = prefab.1;
    let height = prefab.2;
    if !mb.map.in_bounds(mb.player_start) || width <= 0 || height <= 0 || width >= SCREEN_WIDTH
        || height >= SCREEN_HEIGHT {
        return None;
    }
    let cells = layout_cells(prefab.0);
    assert(width * height <= 80 * 50) by (nonlinear_arith)
        requires
            0 < width < 80,
            0 < height < 50,
    ;
    if cells.len() != (width * height) as usize {
        return None;
    }
    let mut starts: Vec<usize> = Vec::new();
    starts.push(mb.map.point2d_to_index(mb.player_start));
    assert(starts@ =~= seq![
        spec_map_idx(mb.player_start.x as int, mb.player_start.y as int) as usize,
    ]);
    let dijkstra_map = DistanceField::new(&mb.map, &starts, GENERATION_DEPTH);
    proof {
        lemma_field_unique(
            dijkstra_map.distances@,
            dijkstra_map.distances@,
            mb.map.tiles@,
            starts@,
            GENERATION_DEPTH,
        );
    }
    let ghost f = dijkstra_map.distances@;
    let ghost goal = mb.teleportation_crystal_start;
    let ghost mut tries: Seq<Point> = Seq::empty();
    let mut placement: Option<Point> = None;
    let mut attempts: usize = 0;
    while placement.is_none() && attempts < PLACEMENT_ATTEMPTS
        invariant
            attempts <= PLACEMENT_ATTEMPTS,
            dijkstra_map.wf(),
            f == dijkstra_map.distances@,
            goal == mb.teleportation_crystal_start,
            0 < width < SCREEN_WIDTH,
            0 < height < SCREEN_HEIGHT,
            mb.teleportation_crystal_start == old(mb).teleportation_crystal_start,
            tries.len() == attempts,
            forall|k: int|
                0 <= k < tries.len() ==> spec_candidate(
                    width as int,
                    height as int,
                    #[trigger] tries[k],
                ),
            match placement {
                Some(p) => {
                    &&& tries.len() >= 1
                    &&& tries[tries.len() - 1] == p
                    &&& spec_fits(width as int, height as int, p)
                    &&& spec_candidate(width as int, height as int, p)
                    &&& spec_placeable(f, goal, width as int, height as int, p)
                    &&& forall|k: int|
                        0 <= k < tries.len() - 1 ==> !spec_placeable(
                            f,
                            goal,
                            width as int,
                            height as int,
                            #[trigger] tries[k],
                        )
                },
                None => forall|k: int|
                    0 <= k < tries.len() ==> !spec_placeable(
                        f,
                        goal,
                        width as int,
                        height as int,
                        #[trigger] tries[k],
                    ),
            },
        decreases PLACEMENT_ATTEMPTS - attempts,
    {
        let x = random::range(rng, 0, SCREEN_WIDTH - width);
        let y = random::range(rng, 0, SCREEN_HEIGHT - height);
        let dimensions = Rect::with_size(x, y, width, height);
        let corner = Point::new(dimensions.x1, dimensions.y1);
        proof {
            tries = tries.push(corner);
            assert(dimensions == spec_footprint(width as int, height as int, corner));
        }
        if can_place(&dijkstra_map, mb.teleportation_crystal_start, &dimensions) {
            placement = Some(corner);
        }
        attempts += 1;
    }
    proof {
        assert(f == spec_placement_field(old(mb).map.tiles@, old(mb).player_start));
        assert(goal == old(mb).teleportation_crystal_start);
        assert(is_search(f, goal, width as int, height as int, tries, placement));
        if placement is Some {
            assert(spec_candidate(width as int, height as int, placement.unwrap()));
        }
    }
    match placement {
        Some(p) => {
            let dimensions = Rect::with_size(p.x, p.y, width, height);
            remove_spawns_inside(&mut mb.monster_spawns, &dimensions);
            stamp(mb, &cells, width, height, p);
            assert(is_search(f, goal, width as int, height as int, tries, Some(p)));
            Some(p)
        },
        None => {
            assert(is_search(f, goal, width as int, height as int, tries, None));
            None
        },
    }
}

} // verus!
