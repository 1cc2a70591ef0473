use drone_dungeon::camera::Camera;
use drone_dungeon::components::FieldOfView;
use drone_dungeon::geometry::{Point, Rect};
use drone_dungeon::map::{map_idx, Grid, TileType};
use drone_dungeon::{DISPLAY_HEIGHT, DISPLAY_WIDTH, NUM_TILES, SCREEN_HEIGHT, SCREEN_WIDTH};

#[test]
fn constants_fit_together() {
    assert_eq!(NUM_TILES, (SCREEN_WIDTH * SCREEN_HEIGHT) as usize);
    assert_eq!(DISPLAY_WIDTH, SCREEN_WIDTH / 2);
    assert_eq!(DISPLAY_HEIGHT, SCREEN_HEIGHT / 2);
}

#[test]
fn point_to_index_and_back() {
    let map = Grid::new();
    for y in 0..SCREEN_HEIGHT {
        for x in 0..SCREEN_WIDTH {
            let p = Point::new(x, y);
            let idx = map.point2d_to_index(p);
            assert!(idx < NUM_TILES);
            assert_eq!(map.index_to_point2d(idx), p);
        }
    }
}

#[test]
fn index_to_point_and_back() {
    let map = Grid::new();
    for i in 0..NUM_TILES {
        let p = map.index_to_point2d(i);
        assert!(map.in_bounds(p));
        assert_eq!(map.point2d_to_index(p), i);
    }
}

#[test]
fn index_is_row_major() {
    assert_eq!(map_idx(0, 0), 0);
    assert_eq!(map_idx(3, 2), 163);
    assert_eq!(map_idx(79, 49), 3999);
    let map = Grid::new();
    assert_eq!(map.index_to_point2d(163), Point::new(3, 2));
    assert_eq!(map.dimensions(), Point::new(80, 50));
}

#[test]
fn bounds_at_the_edges() {
    let map = Grid::new();
    assert!(map.in_bounds(Point::new(0, 0)));
    assert!(map.in_bounds(Point::new(79, 49)));
    assert!(!map.in_bounds(Point::new(80, 0)));
    assert!(!map.in_bounds(Point::new(0, 50)));
    assert!(!map.in_bounds(Point::new(-1, 0)));
    assert!(!map.in_bounds(Point::new(0, -1)));
    assert!(!map.in_bounds(Point::new(i32::MAX, i32::MIN)));
}

#[test]
fn try_idx_gives_none_off_the_grid() {
    let map = Grid::new();
    assert_eq!(map.try_idx(Point::new(3, 2)), Some(163));
    assert_eq!(map.try_idx(Point::new(80, 2)), None);
    assert_eq!(map.try_idx(Point::new(-1, 2)), None);
}

#[test]
fn new_grid_is_floor_and_unrevealed() {
    let map = Grid::new();
    assert_eq!(map.tiles.len(), NUM_TILES);
    assert_eq!(map.revealed_tiles.len(), NUM_TILES);
    assert!(map.tiles.iter().all(|t| *t == TileType::Floor));
    assert!(map.revealed_tiles.iter().all(|r| !*r));
}

#[test]
fn floor_of_every_kind_and_exits_can_be_entered() {
    let mut map = Grid::new();
    let p = Point::new(1, 1);
    let idx = map_idx(1, 1);
    for (tile, walkable) in [
        (TileType::Floor, true),
        (TileType::Floor2, true),
        (TileType::Floor3, true),
        (TileType::Exit, true),
        (TileType::Wall, false),
        (TileType::Wall2, false),
    ] {
        map.tiles[idx] = tile;
        assert_eq!(map.can_enter_tile(p), walkable);
        assert_eq!(tile.is_walkable(), walkable);
        assert_eq!(tile.is_opaque(), !walkable);
        assert_eq!(map.is_opaque(idx), !walkable);
    }
}

#[test]
fn nothing_off_the_grid_can_be_entered() {
    let map = Grid::new();
    assert!(!map.can_enter_tile(Point::new(-1, 5)));
    assert!(!map.can_enter_tile(Point::new(5, 50)));
}

#[test]
fn revealing_marks_one_tile() {
    let mut map = Grid::new();
    map.mark_revealed(Point::new(3, 2));
    map.mark_revealed(Point::new(-3, 2));
    let revealed: Vec<usize> =
        (0..NUM_TILES).filter(|i| map.revealed_tiles[*i]).collect();
    assert_eq!(revealed, vec![163]);
}

#[test]
fn points_add_and_measure() {
    let p = Point::new(3, 4).offset(Point::new(-1, 2));
    assert_eq!(p, Point::new(2, 6));
    assert_eq!(Point::zero(), Point::new(0, 0));
    assert_eq!(Point::new(0, 0).distance_squared(Point::new(3, 4)), 25);
    assert_eq!(Point::new(3, 4).distance_squared(Point::new(0, 0)), 25);
    assert_eq!(
        Point::new(i32::MIN, i32::MIN).distance_squared(Point::new(i32::MAX, i32::MAX)),
        2 * (u32::MAX as u128) * (u32::MAX as u128)
    );
}

#[test]
fn rectangles_touch_and_overlap() {
    let a = Rect::with_size(1, 1, 4, 3);
    assert_eq!(a, Rect { x1: 1, x2: 5, y1: 1, y2: 4 });
    assert!(a.intersect(&Rect::with_size(5, 4, 2, 2)));
    assert!(a.intersect(&Rect::with_size(2, 2, 1, 1)));
    assert!(!a.intersect(&Rect::with_size(6, 1, 2, 2)));
    assert!(!a.intersect(&Rect::with_size(1, 5, 2, 2)));
    assert!(a.point_in_rect(Point::new(1, 1)));
    assert!(a.point_in_rect(Point::new(4, 3)));
    assert!(!a.point_in_rect(Point::new(5, 3)));
    assert!(!a.point_in_rect(Point::new(4, 4)));
}

#[test]
fn centre_rounds_toward_zero() {
    assert_eq!(Rect::with_size(1, 1, 4, 3).center(), Point::new(3, 2));
    assert_eq!(Rect { x1: -3, x2: 0, y1: -5, y2: -2 }.center(), Point::new(-1, -3));
    assert_eq!(
        Rect { x1: i32::MAX, x2: i32::MAX, y1: i32::MIN, y2: i32::MIN }.center(),
        Point::new(i32::MAX, i32::MIN)
    );
}

#[test]
fn camera_is_centred_on_the_player() {
    let camera = Camera::new(Point::new(40, 25));
    assert_eq!(camera, Camera { left_x: 20, right_x: 60, top_y: 13, bottom_y: 37 });
    let mut camera = camera;
    camera.on_player_move(Point::new(0, 0));
    assert_eq!(camera, Camera { left_x: -20, right_x: 20, top_y: -12, bottom_y: 12 });
}

#[test]
fn render_lists_the_tiles_in_view() {
    let mut map = Grid::new();
    map.tiles[map_idx(1, 0)] = TileType::Wall;
    map.mark_revealed(Point::new(0, 1));
    let camera = Camera::new(Point::new(0, 0));
    let view = FieldOfView { visible_tiles: vec![Point::new(1, 0)], radius: 8, is_dirty: false };
    let drawn = map.render(&camera, &view);
    assert_eq!(drawn.len(), 20 * 12);
    assert_eq!((drawn[0].x, drawn[0].y), (20, 12));
    assert_eq!(drawn[0].tile, TileType::Floor);
    assert!(!drawn[0].visible);
    assert!(!drawn[0].revealed);
    assert_eq!((drawn[1].x, drawn[1].y), (21, 12));
    assert_eq!(drawn[1].tile, TileType::Wall);
    assert!(drawn[1].visible);
    assert_eq!((drawn[20].x, drawn[20].y), (20, 13));
    assert!(drawn[20].revealed);
}
