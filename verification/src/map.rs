//! The tile grid: a fixed-size, row-major buffer of tiles with a parallel
//! buffer of "revealed" flags.

use vstd::prelude::*;
use crate::camera::Camera;
use crate::components::FieldOfView;
use crate::geometry::Point;
use crate::{NUM_TILES, SCREEN_HEIGHT, SCREEN_WIDTH};

verus! {

/// The terrain of one tile.
#[derive(Copy, Clone, Debug, PartialEq, Eq, Structural)]
pub enum TileType {
    Wall,
    Floor,
    /// A decorated floor; walks like `Floor`.
    Floor2,
    /// Another decorated floor; walks like `Floor`.
    Floor3,
    /// A decorated wall; blocks like `Wall`.
    Wall2,
    /// The way to the next level; walkable.
    Exit,
}

impl TileType {
    /// Whether an actor can stand on a tile of this type.
    pub open spec fn spec_walkable(self) -> bool {
        self == TileType::Floor || self == TileType::Floor2 || self == TileType::Floor3 || self
            == TileType::Exit
    }

    /// Whether a tile of this type blocks the view.
    pub open spec fn spec_opaque(self) -> bool {
        self == TileType::Wall || self == TileType::Wall2
    }

    pub fn is_walkable(self) -> (b: bool)
        ensures
            b == self.spec_walkable(),
    {
        match self {
            TileType::Floor | TileType::Floor2 | TileType::Floor3 | TileType::Exit => true,
            TileType::Wall | TileType::Wall2 => false,
        }
    }

    pub fn is_opaque(self) -> (b: bool)
        ensures
            b == self.spec_opaque(),
            b == !self.spec_walkable(),
    {
        match self {
            TileType::Wall | TileType::Wall2 => true,
            TileType::Floor | TileType::Floor2 | TileType::Floor3 | TileType::Exit => false,
        }
    }
}

/// Whether `point` lies on the grid.
pub open spec fn spec_in_bounds(point: Point) -> bool {
    0 <= point.x < SCREEN_WIDTH && 0 <= point.y < SCREEN_HEIGHT
}

/// The index of the tile at column `x` of row `y`.
pub open spec fn spec_map_idx(x: int, y: int) -> int {
    y * SCREEN_WIDTH + x
}

/// The point of the tile with index `idx`.
pub open spec fn spec_point_of(idx: int) -> Point {
    Point { x: (idx % (SCREEN_WIDTH as int)) as i32, y: (idx / (SCREEN_WIDTH as int)) as i32 }
}

/// Whether `point` lies on the grid and its tile is walkable.
pub open spec fn spec_enterable(tiles: Seq<TileType>, point: Point) -> bool {
    spec_in_bounds(point) && tiles[spec_map_idx(point.x as int, point.y as int)].spec_walkable()
}

/// The index of the tile at column `x` of row `y`, for a point on the grid.
pub fn map_idx(x: i32, y: i32) -> (idx: usize)
    requires
        spec_in_bounds(Point { x, y }),
    ensures
        idx == spec_map_idx(x as int, y as int),
        idx < NUM_TILES,
{
    ((y * SCREEN_WIDTH) + x) as usize
}

/// Whether every tile of `after` is the tile of `before` or plain floor.
pub open spec fn only_carved(before: Seq<TileType>, after: Seq<TileType>) -> bool {
    &&& before.len() == after.len()
    &&& forall|i: int|
        0 <= i < before.len() ==> (#[trigger] after[i] == before[i] || after[i] == TileType::Floor)
}

/// Whether every tile of `after` walks and blocks as the tile of `before`.
pub open spec fn same_walkability(before: Seq<TileType>, after: Seq<TileType>) -> bool {
    &&& before.len() == after.len()
    &&& forall|i: int|
        0 <= i < before.len() ==> (#[trigger] after[i]).spec_walkable() == before[i].spec_walkable()
}

/// The grid of one level.
pub struct Grid {
    /// The tiles, row by row.
    pub tiles: Vec<TileType>,
    /// For each tile, whether the player has seen it.
    pub revealed_tiles: Vec<bool>,
}

impl Grid {
    /// Both buffers hold one entry per tile.
    pub open spec fn wf(&self) -> bool {
        self.tiles@.len() == NUM_TILES && self.revealed_tiles@.len() == NUM_TILES
    }

    /// Whether `point` lies on the grid and its tile is walkable.
    pub open spec fn spec_can_enter_tile(&self, point: Point) -> bool {
        spec_enterable(self.tiles@, point)
    }

    /// A grid of plain floor, nothing revealed.
    pub fn new() -> (map: Grid)
        ensures
            map.wf(),
            forall|i: int| 0 <= i < NUM_TILES ==> map.tiles@[i] == TileType::Floor,
            forall|i: int| 0 <= i < NUM_TILES ==> !map.revealed_tiles@[i],
    {
        let mut tiles: Vec<TileType> = Vec::new();
        let mut revealed_tiles: Vec<bool> = Vec::new();
        let mut i: usize = 0;
        while i < NUM_TILES
            invariant
                i <= NUM_TILES,
                tiles@.len() == i,
                revealed_tiles@.len() == i,
                forall|j: int| 0 <= j < i ==> tiles@[j] == TileType::Floor,
                forall|j: int| 0 <= j < i ==> !revealed_tiles@[j],
            decreases NUM_TILES - i,
        {
            tiles.push(TileType::Floor);
            revealed_tiles.push(false);
            i += 1;
        }
        Grid { tiles, revealed_tiles }
    }

    pub fn in_bounds(&self, point: Point) -> (b: bool)
        ensures
            b == spec_in_bounds(point),
    {
        point.x >= 0 && point.x < SCREEN_WIDTH && point.y >= 0 && point.y < SCREEN_HEIGHT
    }

    /// Whether an actor can step onto `point`.
    pub fn can_enter_tile(&self, point: Point) -> (b: bool)
        requires
            self.wf(),
        ensures
            b == self.spec_can_enter_tile(point),
    {
        self.in_bounds(point) && self.tiles[map_idx(point.x, point.y)].is_walkable()
    }

    /// The index of `point`, if it lies on the grid.
    pub fn try_idx(&self, point: Point) -> (r: Option<usize>)
        ensures
            spec_in_bounds(point) ==> r == Some(spec_map_idx(point.x as int, point.y as int) as usize),
            !spec_in_bounds(point) ==> r is None,
    {
        if !self.in_bounds(point) {
            None
        } else {
            Some(map_idx(point.x, point.y))
        }
    }

    /// The width and height of the grid.
    pub fn dimensions(&self) -> (p: Point)
        ensures
            p == (Point { x: SCREEN_WIDTH, y: SCREEN_HEIGHT }),
    {
        Point::new(SCREEN_WIDTH, SCREEN_HEIGHT)
    }

    /// The index of a point on the grid.
    pub fn point2d_to_index(&self, pt: Point) -> (idx: usize)
        requires
            spec_in_bounds(pt),
        ensures
            idx == spec_map_idx(pt.x as int, pt.y as int),
            idx < NUM_TILES,
            spec_point_of(idx as int) == pt,
    {
        map_idx(pt.x, pt.y)
    }

    /// The point of a tile index.
    pub fn index_to_point2d(&self, idx: usize) -> (pt: Point)
        requires
            idx < NUM_TILES,
        ensures
            pt == spec_point_of(idx as int),
            spec_in_bounds(pt),
            spec_map_idx(pt.x as int, pt.y as int) == idx,
    {
        let w: usize = SCREEN_WIDTH as usize;
        Point::new((idx % w) as i32, (idx / w) as i32)
    }

    /// Whether the tile with index `idx` blocks the view.
    pub fn is_opaque(&self, idx: usize) -> (b: bool)
        requires
            self.wf(),
            idx < NUM_TILES,
        ensures
            b == self.tiles@[idx as int].spec_opaque(),
    {
        self.tiles[idx].is_opaque()
    }

    /// Marks the tile at `point` as seen by the player; a point off the grid
    /// changes nothing.
    pub fn mark_revealed(&mut self, point: Point)
        requires
            old(self).wf(),
        ensures
            final(self).wf(),
            final(self).tiles == old(self).tiles,
            spec_in_bounds(point) ==> final(self).revealed_tiles@ == old(self).revealed_tiles@.update(
                spec_map_idx(point.x as int, point.y as int),
                true,
            ),
            !spec_in_bounds(point) ==> final(self).revealed_tiles@ == old(self).revealed_tiles@,
    {
        if self.in_bounds(point) {
            let idx = map_idx(point.x, point.y);
            self.revealed_tiles.set(idx, true);
        }
    }
}

/// Going from a point on the grid to its index and back gives the point.
pub proof fn lemma_point_index_round_trip(p: Point)
    requires
        spec_in_bounds(p),
    ensures
        0 <= spec_map_idx(p.x as int, p.y as int) < NUM_TILES,
        spec_point_of(spec_map_idx(p.x as int, p.y as int)) == p,
{
}

/// Going from a tile index to its point and back gives the index.
pub proof fn lemma_index_point_round_trip(i: int)
    requires
        0 <= i < NUM_TILES,
    ensures
        spec_in_bounds(spec_point_of(i)),
        spec_map_idx(spec_point_of(i).x as int, spec_point_of(i).y as int) == i,
{
}

} // verus!

verus! {

/// A tile as the viewport shows it.
#[derive(Clone, Copy, Debug, PartialEq, Eq, Structural)]
pub struct RenderedTile {
    /// The column within the viewport.
    pub x: i64,
    /// The row within the viewport.
    pub y: i64,
    pub tile: TileType,
    /// Whether the player sees the tile now.
    pub visible: bool,
    /// Whether the player has seen the tile before.
    pub revealed: bool,
}

/// Whether the viewport covers `p`.
pub open spec fn spec_in_view(camera: Camera, p: Point) -> bool {
    camera.left_x <= p.x < camera.right_x && camera.top_y <= p.y < camera.bottom_y
}

/// The tile with index `i` as the viewport shows it.
pub open spec fn spec_rendered_tile(
    tiles: Seq<TileType>,
    revealed: Seq<bool>,
    camera: Camera,
    visible: Seq<Point>,
    i: int,
) -> RenderedTile {
    let p = spec_point_of(i);
    RenderedTile {
        x: (p.x - camera.left_x) as i64,
        y: (p.y - camera.top_y) as i64,
        tile: tiles[i],
        visible: visible.contains(p),
        revealed: revealed[i],
    }
}

/// The tiles that the viewport shows among the first `n` of the grid, row
/// by row.
pub open spec fn spec_rendered(
    tiles: Seq<TileType>,
    revealed: Seq<bool>,
    camera: Camera,
    visible: Seq<Point>,
    n: nat,
) -> Seq<RenderedTile>
    decreases n,
{
    if n == 0 {
        Seq::empty()
    } else {
        let before = spec_rendered(tiles, revealed, camera, visible, (n - 1) as nat);
        if spec_in_view(camera, spec_point_of(n - 1)) {
            before.push(spec_rendered_tile(tiles, revealed, camera, visible, n - 1))
        } else {
            before
        }
    }
}

impl Grid {
    /// What there is to draw of the grid: every tile that the viewport
    /// covers, row by row, with its place in the viewport and with what
    /// the player sees and has seen of it.
    pub fn render(&self, camera: &Camera, view: &FieldOfView) -> (drawn: Vec<RenderedTile>)
        requires
            self.wf(),
        ensures
            drawn@ == spec_rendered(
                self.tiles@,
                self.revealed_tiles@,
                *camera,
                view.visible_tiles@,
                NUM_TILES as nat,
            ),
    {
        let mut drawn: Vec<RenderedTile> = Vec::new();
        let mut i: usize = 0;
        while i < NUM_TILES
            invariant
                i <= NUM_TILES,
                self.wf(),
                drawn@ == spec_rendered(
                    self.tiles@,
                    self.revealed_tiles@,
                    *camera,
                    view.visible_tiles@,
                    i as nat,
                ),
            decreases NUM_TILES - i,
        {
            let p = self.index_to_point2d(i);
            if camera.left_x <= p.x && p.x < camera.right_x && camera.top_y <= p.y && p.y
                < camera.bottom_y {
                drawn.push(
                    RenderedTile {
                        x: p.x as i64 - camera.left_x as i64,
                        y: p.y as i64 - camera.top_y as i64,
                        tile: self.tiles[i],
                        visible: view.sees(p),
                        revealed: self.revealed_tiles[i],
                    },
                );
            }
            i += 1;
        }
        drawn
    }
}

} // verus!
