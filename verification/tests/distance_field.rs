use drone_dungeon::distance_field::{neighbor, DistanceField, UNREACHABLE};
use drone_dungeon::map::{map_idx, Grid, TileType};
use drone_dungeon::NUM_TILES;

fn walled() -> Grid {
    let mut map = Grid::new();
    for t in map.tiles.iter_mut() {
        *t = TileType::Wall;
    }
    map
}

fn corridor() -> Grid {
    let mut map = walled();
    for x in 1..=10 {
        map.tiles[map_idx(x, 5)] = TileType::Floor;
    }
    map
}

#[test]
fn neighbours_stop_at_the_edges() {
    assert_eq!(neighbor(0, 0), None);
    assert_eq!(neighbor(0, 1), Some(1));
    assert_eq!(neighbor(0, 2), None);
    assert_eq!(neighbor(0, 3), Some(80));
    assert_eq!(neighbor(79, 1), None);
    assert_eq!(neighbor(80, 0), None);
    assert_eq!(neighbor(3999, 1), None);
    assert_eq!(neighbor(3999, 3), None);
    assert_eq!(neighbor(3999, 0), Some(3998));
    assert_eq!(neighbor(3999, 2), Some(3919));
}

#[test]
fn distances_along_a_corridor() {
    let map = corridor();
    let field = DistanceField::new(&map, &vec![map_idx(1, 5)], 1024);
    assert_eq!(field.distances.len(), NUM_TILES);
    for x in 1..=10 {
        assert_eq!(field.distances[map_idx(x, 5)], (x - 1) as u32);
    }
    assert_eq!(field.distances[map_idx(0, 5)], UNREACHABLE);
    assert_eq!(field.distances[map_idx(11, 5)], UNREACHABLE);
    assert_eq!(field.distances[map_idx(5, 4)], UNREACHABLE);
    assert!(field.is_reachable(map_idx(10, 5)));
    assert!(!field.is_reachable(map_idx(11, 5)));
    assert!(!field.is_reachable(NUM_TILES));
}

#[test]
fn cutoff_prunes_what_lies_too_far() {
    let map = corridor();
    let field = DistanceField::new(&map, &vec![map_idx(1, 5)], 4);
    assert_eq!(field.distances[map_idx(4, 5)], 3);
    assert_eq!(field.distances[map_idx(5, 5)], UNREACHABLE);
    let field = DistanceField::new(&map, &vec![map_idx(1, 5)], 1);
    assert_eq!(field.distances[map_idx(1, 5)], 0);
    assert_eq!(field.distances[map_idx(2, 5)], UNREACHABLE);
    let field = DistanceField::new(&map, &vec![map_idx(1, 5)], 0);
    assert_eq!(field.distances[map_idx(1, 5)], 0);
    assert_eq!(field.distances[map_idx(2, 5)], UNREACHABLE);
}

#[test]
fn a_source_on_a_wall_is_still_a_source() {
    let map = corridor();
    let field = DistanceField::new(&map, &vec![map_idx(0, 5)], 1024);
    assert_eq!(field.distances[map_idx(0, 5)], 0);
    assert_eq!(field.distances[map_idx(1, 5)], 1);
    assert_eq!(field.distances[map_idx(10, 5)], 10);
}

#[test]
fn the_nearest_of_several_sources_counts() {
    let map = corridor();
    let field = DistanceField::new(&map, &vec![map_idx(1, 5), map_idx(10, 5), map_idx(1, 5)], 1024);
    let expected = [0, 1, 2, 3, 4, 4, 3, 2, 1, 0];
    for x in 1..=10 {
        assert_eq!(field.distances[map_idx(x, 5)], expected[(x - 1) as usize]);
    }
}

#[test]
fn sources_beyond_the_grid_are_ignored() {
    let map = corridor();
    let field = DistanceField::new(&map, &vec![NUM_TILES, usize::MAX], 1024);
    assert!(field.distances.iter().all(|d| *d == UNREACHABLE));
    assert_eq!(field.most_distant(), None);
}

#[test]
fn rows_do_not_wrap_around() {
    let mut map = walled();
    map.tiles[map_idx(79, 5)] = TileType::Floor;
    map.tiles[map_idx(0, 6)] = TileType::Floor;
    let field = DistanceField::new(&map, &vec![map_idx(79, 5)], 1024);
    assert_eq!(field.distances[map_idx(79, 5)], 0);
    assert_eq!(field.distances[map_idx(0, 6)], UNREACHABLE);
}

#[test]
fn walks_go_around_walls() {
    let mut map = walled();
    for (x, y) in [(1, 1), (2, 1), (3, 1), (3, 2), (3, 3), (2, 3), (1, 3)] {
        map.tiles[map_idx(x, y)] = TileType::Floor;
    }
    let field = DistanceField::new(&map, &vec![map_idx(1, 1)], 1024);
    assert_eq!(field.distances[map_idx(1, 3)], 6);
    assert_eq!(field.distances[map_idx(1, 2)], UNREACHABLE);
}

#[test]
fn step_leads_down_the_field() {
    let map = corridor();
    let field = DistanceField::new(&map, &vec![map_idx(1, 5)], 1024);
    assert_eq!(field.step_toward_source(map_idx(10, 5), &map), Some(map_idx(9, 5)));
    assert_eq!(field.step_toward_source(map_idx(2, 5), &map), Some(map_idx(1, 5)));
}

#[test]
fn no_step_at_a_source() {
    let map = corridor();
    let field = DistanceField::new(&map, &vec![map_idx(1, 5)], 1024);
    assert_eq!(field.step_toward_source(map_idx(1, 5), &map), None);
}

#[test]
fn no_step_where_enclosed() {
    let mut map = corridor();
    map.tiles[map_idx(20, 20)] = TileType::Floor;
    let field = DistanceField::new(&map, &vec![map_idx(1, 5)], 1024);
    assert_eq!(field.step_toward_source(map_idx(20, 20), &map), None);
    assert_eq!(field.step_toward_source(map_idx(30, 30), &map), None);
}

#[test]
fn no_step_to_an_equal_or_worse_tile() {
    let map = corridor();
    let mut distances = vec![UNREACHABLE; NUM_TILES];
    distances[map_idx(4, 5)] = 7;
    distances[map_idx(5, 5)] = 7;
    distances[map_idx(6, 5)] = 9;
    let field = DistanceField { distances };
    assert_eq!(field.step_toward_source(map_idx(5, 5), &map), None);
    assert_eq!(field.step_toward_source(map_idx(6, 5), &map), Some(map_idx(5, 5)));
}

#[test]
fn ties_go_west_then_east_then_north_then_south() {
    let mut map = walled();
    for y in 9..=11 {
        for x in 9..=11 {
            map.tiles[map_idx(x, y)] = TileType::Floor;
        }
    }
    let field = DistanceField::new(&map, &vec![map_idx(10, 10)], 1024);
    assert_eq!(field.distances[map_idx(11, 11)], 2);
    assert_eq!(field.step_toward_source(map_idx(11, 11), &map), Some(map_idx(10, 11)));
    assert_eq!(field.step_toward_source(map_idx(9, 9), &map), Some(map_idx(10, 9)));
    assert_eq!(field.step_toward_source(map_idx(9, 11), &map), Some(map_idx(10, 11)));
    assert_eq!(field.step_toward_source(map_idx(11, 9), &map), Some(map_idx(10, 9)));
}

#[test]
fn repeated_steps_reach_the_source() {
    let mut map = walled();
    for x in 1..=30 {
        map.tiles[map_idx(x, 5)] = TileType::Floor;
    }
    for y in 5..=40 {
        map.tiles[map_idx(30, y)] = TileType::Floor;
    }
    let source = map_idx(1, 5);
    let field = DistanceField::new(&map, &vec![source], 1024);
    let mut current = map_idx(30, 40);
    let expected = field.distances[current];
    assert_eq!(expected, 29 + 35);
    let mut steps = 0;
    while let Some(next) = field.step_toward_source(current, &map) {
        assert_eq!(field.distances[next] + 1, field.distances[current]);
        current = next;
        steps += 1;
        assert!(steps < NUM_TILES);
    }
    assert_eq!(current, source);
    assert_eq!(steps as u32, expected);
}

#[test]
fn most_distant_is_the_first_of_the_farthest() {
    let mut map = walled();
    for x in 5..=15 {
        map.tiles[map_idx(x, 5)] = TileType::Floor;
    }
    let field = DistanceField::new(&map, &vec![map_idx(10, 5)], 1024);
    assert_eq!(field.distances[map_idx(5, 5)], 5);
    assert_eq!(field.distances[map_idx(15, 5)], 5);
    assert_eq!(field.most_distant(), Some(map_idx(5, 5)));
    let field = DistanceField::new(&map, &vec![map_idx(9, 5)], 1024);
    assert_eq!(field.most_distant(), Some(map_idx(15, 5)));
}

#[test]
fn most_distant_of_a_lone_source_is_the_source() {
    let map = walled();
    let field = DistanceField::new(&map, &vec![map_idx(7, 7)], 1024);
    assert_eq!(field.most_distant(), Some(map_idx(7, 7)));
}
