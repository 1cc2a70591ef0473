use bracket_lib::prelude::RandomNumberGenerator;
use drone_dungeon::distance_field::{DistanceField, UNREACHABLE};
use drone_dungeon::geometry::{Point, Rect};
use drone_dungeon::map::{map_idx, Grid, TileType};
use drone_dungeon::map_builder::automata::{
    grow_grass, noise_tile, sprinkled, strew, CellularAutomataArchitect,
};
use drone_dungeon::map_builder::drunkard::{
    adorn_walls, floor_tiles, tread_path, tread_paths, wall_adorned, wall_off_unreachable,
    DrunkardsWalkArchitect,
};
use drone_dungeon::map_builder::prefab::{
    apply_prefab, can_place, fortress, layout_cells, monster_fortress, prefab_list,
    remove_spawns_inside, stamp,
};
use drone_dungeon::map_builder::rooms::{carve_rect, decorated, RoomArchitect, NUM_ROOMS};
use drone_dungeon::map_builder::themes::{CaveTheme, DungeonTheme, ForestTheme, Theme};
use drone_dungeon::map_builder::{
    generate, strategy_of, theme_of, LevelError, MapBuilder, MapTheme, Strategy, NUM_MONSTERS,
};
use drone_dungeon::NUM_TILES;

fn walled() -> Grid {
    let mut map = Grid::new();
    for t in map.tiles.iter_mut() {
        *t = TileType::Wall;
    }
    map
}

fn blank(map: Grid) -> MapBuilder {
    MapBuilder {
        map,
        player_start: Point::new(0, 0),
        teleportation_crystal_start: Point::new(79, 49),
        monster_spawns: Vec::new(),
        guaranteed_monster_spawns: Vec::new(),
        theme: Theme::Dungeon,
    }
}

fn floor_class(tile: TileType) -> bool {
    matches!(tile, TileType::Floor | TileType::Floor2 | TileType::Floor3)
}

fn check_level(mb: &MapBuilder) {
    assert_eq!(mb.map.tiles.len(), NUM_TILES);
    assert_eq!(mb.map.revealed_tiles.len(), NUM_TILES);
    assert!(mb.map.can_enter_tile(mb.player_start));
    assert!(mb.map.in_bounds(mb.teleportation_crystal_start));
    let start = map_idx(mb.player_start.x, mb.player_start.y);
    let goal = map_idx(mb.teleportation_crystal_start.x, mb.teleportation_crystal_start.y);
    let field = DistanceField::new(&mb.map, &vec![start], 1024);
    assert_ne!(field.distances[goal], UNREACHABLE);
    assert_eq!(field.most_distant(), Some(goal));
    assert!(mb.map.tiles.iter().all(|t| *t != TileType::Exit));
}

#[test]
fn the_goal_of_every_level_can_be_reached() {
    for seed in 1..=6u64 {
        for level in [0u32, 1, 2, 3, 4, 9] {
            let mut rng = RandomNumberGenerator::seeded(seed);
            let mb = MapBuilder::new(&mut rng, level).unwrap();
            check_level(&mb);
            assert_eq!(mb.theme, theme_of(level));
        }
    }
}

#[test]
fn every_strategy_builds_a_level() {
    for seed in 11..=14u64 {
        for strategy in
            [Strategy::CellularAutomata, Strategy::DrunkardWalk, Strategy::RoomAndCorridor]
        {
            let mut rng = RandomNumberGenerator::seeded(seed);
            let mb = generate(strategy, &mut rng).unwrap();
            check_level(&mb);
            assert!(mb.guaranteed_monster_spawns.is_empty());
            for p in mb.monster_spawns.iter() {
                assert!(mb.map.can_enter_tile(*p));
            }
        }
    }
}

#[test]
fn caves_from_one_seed_are_the_same() {
    let mut first = RandomNumberGenerator::seeded(42);
    let mut second = RandomNumberGenerator::seeded(42);
    let a = CellularAutomataArchitect {}.build(&mut first).unwrap();
    let b = CellularAutomataArchitect {}.build(&mut second).unwrap();
    assert_eq!(a.map.tiles, b.map.tiles);
    assert_eq!(a.player_start, b.player_start);
    assert_eq!(a.teleportation_crystal_start, b.teleportation_crystal_start);
    assert_eq!(a.monster_spawns, b.monster_spawns);
}

#[test]
fn levels_from_one_seed_are_the_same() {
    for level in [0u32, 2, 4] {
        let mut first = RandomNumberGenerator::seeded(7);
        let mut second = RandomNumberGenerator::seeded(7);
        let a = MapBuilder::new(&mut first, level).unwrap();
        let b = MapBuilder::new(&mut second, level).unwrap();
        assert_eq!(a.map.tiles, b.map.tiles);
        assert_eq!(a.player_start, b.player_start);
        assert_eq!(a.teleportation_crystal_start, b.teleportation_crystal_start);
        assert_eq!(a.monster_spawns, b.monster_spawns);
        assert_eq!(a.guaranteed_monster_spawns, b.guaranteed_monster_spawns);
    }
}

#[test]
fn tiers_pick_strategy_and_looks() {
    assert_eq!(strategy_of(0), Strategy::CellularAutomata);
    assert_eq!(strategy_of(1), Strategy::CellularAutomata);
    assert_eq!(strategy_of(2), Strategy::DrunkardWalk);
    assert_eq!(strategy_of(3), Strategy::DrunkardWalk);
    assert_eq!(strategy_of(4), Strategy::RoomAndCorridor);
    assert_eq!(strategy_of(u32::MAX), Strategy::RoomAndCorridor);
    assert_eq!(theme_of(0), Theme::Forest);
    assert_eq!(theme_of(1), Theme::Forest);
    assert_eq!(theme_of(2), Theme::Cave);
    assert_eq!(theme_of(3), Theme::Cave);
    assert_eq!(theme_of(4), Theme::Dungeon);
}

#[test]
fn themes_name_glyphs_of_code_page_437() {
    let dungeon = DungeonTheme::new();
    assert_eq!(dungeon.tile_to_render(TileType::Floor), 77);
    assert_eq!(dungeon.tile_to_render(TileType::Floor2), 77);
    assert_eq!(dungeon.tile_to_render(TileType::Floor3), 77);
    assert_eq!(dungeon.tile_to_render(TileType::Wall), 35);
    assert_eq!(dungeon.tile_to_render(TileType::Wall2), 35);
    assert_eq!(dungeon.tile_to_render(TileType::Exit), 62);
    let forest = ForestTheme::new();
    assert_eq!(forest.tile_to_render(TileType::Floor), 61);
    assert_eq!(forest.tile_to_render(TileType::Floor2), 59);
    assert_eq!(forest.tile_to_render(TileType::Floor3), 60);
    assert_eq!(forest.tile_to_render(TileType::Wall), 34);
    assert_eq!(forest.tile_to_render(TileType::Wall2), 34);
    assert_eq!(forest.tile_to_render(TileType::Exit), 62);
    let cave = CaveTheme::new();
    assert_eq!(cave.tile_to_render(TileType::Floor), 45);
    assert_eq!(cave.tile_to_render(TileType::Floor2), 44);
    assert_eq!(cave.tile_to_render(TileType::Floor3), 44);
    assert_eq!(cave.tile_to_render(TileType::Wall), 92);
    assert_eq!(cave.tile_to_render(TileType::Wall2), 36);
    assert_eq!(cave.tile_to_render(TileType::Exit), 62);
    for tile in [TileType::Floor, TileType::Wall2, TileType::Exit] {
        assert_eq!(Theme::Dungeon.tile_to_render(tile), dungeon.tile_to_render(tile));
        assert_eq!(Theme::Forest.tile_to_render(tile), forest.tile_to_render(tile));
        assert_eq!(Theme::Cave.tile_to_render(tile), cave.tile_to_render(tile));
    }
}

#[test]
fn fill_makes_every_tile_the_same() {
    let mut mb = blank(Grid::new());
    mb.fill(TileType::Wall);
    assert!(mb.map.tiles.iter().all(|t| *t == TileType::Wall));
    assert_eq!(mb.map.tiles.len(), NUM_TILES);
}

#[test]
fn noise_is_wall_or_floor() {
    let mut rng = RandomNumberGenerator::seeded(3);
    let mut map = Grid::new();
    CellularAutomataArchitect {}.random_noise_map(&mut rng, &mut map);
    assert!(map.tiles.iter().all(|t| *t == TileType::Wall || *t == TileType::Floor));
    assert!(map.tiles.iter().any(|t| *t == TileType::Wall));
    assert!(map.tiles.iter().any(|t| *t == TileType::Floor));
}

#[test]
fn neighbours_are_counted_around_a_tile() {
    let mut map = Grid::new();
    let architect = CellularAutomataArchitect {};
    assert_eq!(architect.count_neighbors(10, 10, &map), 0);
    map.tiles[map_idx(9, 9)] = TileType::Wall;
    map.tiles[map_idx(11, 10)] = TileType::Wall2;
    map.tiles[map_idx(10, 11)] = TileType::Wall;
    map.tiles[map_idx(10, 10)] = TileType::Wall;
    map.tiles[map_idx(12, 10)] = TileType::Wall;
    assert_eq!(architect.count_neighbors(10, 10, &map), 3);
    assert_eq!(architect.count_neighbors(1, 1, &walled()), 8);
}

#[test]
fn smoothing_follows_the_rule() {
    let architect = CellularAutomataArchitect {};
    let mut map = Grid::new();
    for (x, y) in [(9, 9), (10, 9), (11, 9), (9, 10), (20, 20), (30, 30), (31, 30), (32, 30), (30, 31), (32, 31)] {
        map.tiles[map_idx(x, y)] = TileType::Wall;
    }
    map.tiles[map_idx(0, 0)] = TileType::Wall;
    map.tiles[map_idx(79, 10)] = TileType::Exit;
    architect.iteration(&mut map);
    // four walls around: floor
    assert_eq!(map.tiles[map_idx(10, 10)], TileType::Floor);
    // five walls around: wall
    assert_eq!(map.tiles[map_idx(31, 31)], TileType::Wall);
    // a lone wall has no wall around it: it stays a wall
    assert_eq!(map.tiles[map_idx(20, 20)], TileType::Wall);
    // floor with no wall around it becomes a wall
    assert_eq!(map.tiles[map_idx(50, 40)], TileType::Wall);
    // one wall around: floor
    assert_eq!(map.tiles[map_idx(21, 21)], TileType::Floor);
    // the rim stays
    assert_eq!(map.tiles[map_idx(0, 0)], TileType::Wall);
    assert_eq!(map.tiles[map_idx(5, 0)], TileType::Floor);
    assert_eq!(map.tiles[map_idx(79, 10)], TileType::Exit);
}

#[test]
fn the_start_is_the_floor_nearest_the_middle() {
    let architect = CellularAutomataArchitect {};
    let mut map = walled();
    assert_eq!(architect.find_start(&map), None);
    map.tiles[map_idx(10, 10)] = TileType::Floor;
    assert_eq!(architect.find_start(&map), Some(Point::new(10, 10)));
    map.tiles[map_idx(41, 25)] = TileType::Floor;
    assert_eq!(architect.find_start(&map), Some(Point::new(41, 25)));
    map.tiles[map_idx(39, 25)] = TileType::Floor;
    assert_eq!(architect.find_start(&map), Some(Point::new(39, 25)));
    map.tiles[map_idx(40, 26)] = TileType::Floor;
    assert_eq!(architect.find_start(&map), Some(Point::new(39, 25)));
    map.tiles[map_idx(40, 24)] = TileType::Floor;
    assert_eq!(architect.find_start(&map), Some(Point::new(40, 24)));
    map.tiles[map_idx(40, 25)] = TileType::Floor2;
    assert_eq!(architect.find_start(&map), Some(Point::new(40, 24)));
}

#[test]
fn no_level_without_floor() {
    let mut rng = RandomNumberGenerator::seeded(1);
    let r = CellularAutomataArchitect {}.furnish(walled(), &mut rng);
    assert!(matches!(r, Err(LevelError::NoFloor)));
    let mut map = walled();
    map.tiles[map_idx(3, 3)] = TileType::Floor;
    let mb = CellularAutomataArchitect {}.furnish(map, &mut rng).unwrap();
    assert_eq!(mb.player_start, Point::new(3, 3));
    assert_eq!(mb.teleportation_crystal_start, Point::new(3, 3));
}

#[test]
fn sprinkling_leaves_walls_and_exits_alone() {
    let mut rng = RandomNumberGenerator::seeded(5);
    let mut map = Grid::new();
    for i in 0..NUM_TILES {
        if i % 3 == 0 {
            map.tiles[i] = TileType::Wall;
        }
        if i % 7 == 1 {
            map.tiles[i] = TileType::Exit;
        }
    }
    let before = map.tiles.clone();
    CellularAutomataArchitect {}.sprinkle_details(&mut rng, &mut map);
    let mut decorated = 0;
    for i in 0..NUM_TILES {
        if floor_class(before[i]) {
            assert!(floor_class(map.tiles[i]));
            if map.tiles[i] != TileType::Floor {
                decorated += 1;
            }
        } else {
            assert_eq!(map.tiles[i], before[i]);
        }
    }
    assert!(decorated > 0);
}

#[test]
fn rooms_do_not_touch() {
    let mut rng = RandomNumberGenerator::seeded(9);
    let mut map = walled();
    let mut architect = RoomArchitect { rooms: Vec::new() };
    architect.build_random_rooms(&mut rng, &mut map);
    assert!(!architect.rooms.is_empty());
    assert!(architect.rooms.len() <= NUM_ROOMS);
    for (i, a) in architect.rooms.iter().enumerate() {
        assert!(1 <= a.x1 && a.x1 + 2 <= a.x2 && a.x2 <= 78);
        assert!(1 <= a.y1 && a.y1 + 2 <= a.y2 && a.y2 <= 48);
        for b in architect.rooms.iter().skip(i + 1) {
            assert!(!a.intersect(b));
        }
        for y in a.y1..a.y2 {
            for x in a.x1..a.x2 {
                assert_eq!(map.tiles[map_idx(x, y)], TileType::Floor);
            }
        }
        assert!(architect.overlaps(&Rect::with_size(a.x1 + 1, a.y1 + 1, 1, 1)));
    }
    let inside: usize = architect.rooms.iter().map(|r| ((r.x2 - r.x1) * (r.y2 - r.y1)) as usize).sum();
    assert_eq!(floor_tiles(&map), inside);
}

#[test]
fn tunnels_carve_a_run() {
    let architect = RoomArchitect { rooms: Vec::new() };
    let mut map = walled();
    architect.apply_horizontal_tunnel(5, 2, 3, &mut map);
    let floor: Vec<usize> = (0..NUM_TILES).filter(|i| map.tiles[*i] == TileType::Floor).collect();
    assert_eq!(floor, vec![map_idx(2, 3), map_idx(3, 3), map_idx(4, 3), map_idx(5, 3)]);
    let mut map = walled();
    architect.apply_vertical_tunnel(-5, 2, 0, &mut map);
    let floor: Vec<usize> = (0..NUM_TILES).filter(|i| map.tiles[*i] == TileType::Floor).collect();
    assert_eq!(floor, vec![map_idx(0, 0), map_idx(0, 1), map_idx(0, 2)]);
    let mut map = walled();
    architect.apply_vertical_tunnel(1, 4, 80, &mut map);
    architect.apply_horizontal_tunnel(1, 4, -1, &mut map);
    assert_eq!(floor_tiles(&map), 0);
}

#[test]
fn carving_a_rectangle_stops_at_the_rim() {
    let mut map = walled();
    carve_rect(&mut map, &Rect { x1: 78, x2: 85, y1: -2, y2: 2 });
    let floor: Vec<usize> = (0..NUM_TILES).filter(|i| map.tiles[*i] == TileType::Floor).collect();
    assert_eq!(floor, vec![map_idx(78, 0), map_idx(79, 0), map_idx(78, 1), map_idx(79, 1)]);
}

#[test]
fn corridors_join_rooms_in_the_order_of_their_centres() {
    for seed in 0..8u64 {
        let mut rng = RandomNumberGenerator::seeded(seed);
        let mut map = walled();
        let architect = RoomArchitect {
            rooms: vec![
                Rect::with_size(9, 9, 2, 2),
                Rect::with_size(49, 29, 2, 2),
                Rect::with_size(29, 19, 2, 2),
            ],
        };
        assert_eq!(architect.rooms[0].center(), Point::new(10, 10));
        assert_eq!(architect.rooms[1].center(), Point::new(50, 30));
        assert_eq!(architect.rooms[2].center(), Point::new(30, 20));
        architect.build_corridors(&mut rng, &mut map);
        for p in [(10, 10), (30, 20), (50, 30)] {
            assert_eq!(map.tiles[map_idx(p.0, p.1)], TileType::Floor);
        }
        assert_eq!(map.tiles[map_idx(40, 10)], TileType::Wall);
        assert_eq!(map.tiles[map_idx(10, 25)], TileType::Wall);
        assert_eq!(map.tiles[map_idx(50, 15)], TileType::Wall);
        assert_eq!(floor_tiles(&map), 61);
        let field = DistanceField::new(&map, &vec![map_idx(10, 10)], 1024);
        assert_eq!(field.distances[map_idx(30, 20)], 30);
        assert_eq!(field.distances[map_idx(50, 30)], 60);
    }
}

#[test]
fn room_decorations_keep_floor_floor_and_wall_wall() {
    let mut rng = RandomNumberGenerator::seeded(2);
    let mut map = walled();
    carve_rect(&mut map, &Rect::with_size(5, 5, 30, 30));
    map.tiles[0] = TileType::Exit;
    let before = map.tiles.clone();
    RoomArchitect { rooms: Vec::new() }.carve_decorations(&mut rng, &mut map);
    let mut seen = [false; 4];
    for i in 0..NUM_TILES {
        match before[i] {
            TileType::Floor => {
                assert!(map.tiles[i] == TileType::Floor || map.tiles[i] == TileType::Floor2);
                seen[if map.tiles[i] == TileType::Floor { 0 } else { 1 }] = true;
            }
            TileType::Wall => {
                assert!(map.tiles[i] == TileType::Wall || map.tiles[i] == TileType::Wall2);
                seen[if map.tiles[i] == TileType::Wall { 2 } else { 3 }] = true;
            }
            other => assert_eq!(map.tiles[i], other),
        }
    }
    assert_eq!(seen, [true; 4]);
}

#[test]
fn rooms_put_the_player_in_the_first_room() {
    let mut rng = RandomNumberGenerator::seeded(21);
    let mut architect = RoomArchitect { rooms: Vec::new() };
    let mb = architect.build(&mut rng);
    assert_eq!(mb.player_start, architect.rooms[0].center());
    assert_eq!(mb.monster_spawns.len(), architect.rooms.len() - 1);
    for (spawn, room) in mb.monster_spawns.iter().zip(architect.rooms.iter().skip(1)) {
        assert_eq!(*spawn, room.center());
    }
    check_level(&mb);
}

#[test]
fn a_walker_digs_from_its_start() {
    let mut rng = RandomNumberGenerator::seeded(4);
    let mut map = walled();
    map.tiles[map_idx(1, 1)] = TileType::Exit;
    DrunkardsWalkArchitect {}.drunkard(&Point::new(40, 25), &mut rng, &mut map);
    assert_eq!(map.tiles[map_idx(40, 25)], TileType::Floor);
    let dug = floor_tiles(&map);
    assert!(1 <= dug && dug <= 301);
    for i in 0..NUM_TILES {
        assert!(
            map.tiles[i] == TileType::Floor
                || map.tiles[i] == TileType::Wall
                || i == map_idx(1, 1)
        );
    }
    let field = DistanceField::new(&map, &vec![map_idx(40, 25)], 1024);
    for i in 0..NUM_TILES {
        if map.tiles[i] == TileType::Floor {
            assert_ne!(field.distances[i], UNREACHABLE);
        }
    }
}

#[test]
fn a_walker_at_the_rim_may_leave_at_once() {
    for seed in 0..20u64 {
        let mut rng = RandomNumberGenerator::seeded(seed);
        let mut map = walled();
        DrunkardsWalkArchitect {}.drunkard(&Point::new(0, 0), &mut rng, &mut map);
        assert_eq!(map.tiles[0], TileType::Floor);
    }
}

#[test]
fn what_cannot_be_reached_is_walled_off() {
    let mut map = walled();
    for x in 1..=5 {
        map.tiles[map_idx(x, 1)] = TileType::Floor;
    }
    map.tiles[map_idx(20, 20)] = TileType::Floor2;
    let field = DistanceField::new(&map, &vec![map_idx(1, 1)], 1024);
    wall_off_unreachable(&mut map, &field);
    assert_eq!(map.tiles[map_idx(20, 20)], TileType::Wall);
    assert_eq!(floor_tiles(&map), 5);
}

#[test]
fn pockets_out_of_reach_are_filled_in() {
    let mut map = walled();
    for x in 38..=42 {
        map.tiles[map_idx(x, 25)] = TileType::Floor;
    }
    map.tiles[map_idx(44, 25)] = TileType::Floor;
    map.tiles[map_idx(5, 5)] = TileType::Floor3;
    DrunkardsWalkArchitect {}.keep_contiguous(Point::new(40, 25), &mut map);
    let open: Vec<usize> = (0..NUM_TILES).filter(|i| map.tiles[*i].is_walkable()).collect();
    assert_eq!(open, (38..=42).map(|x| map_idx(x, 25)).collect::<Vec<usize>>());
    assert_eq!(map.tiles[map_idx(44, 25)], TileType::Wall);
    assert_eq!(map.tiles[map_idx(5, 5)], TileType::Wall);
}

#[test]
fn tunnels_start_in_the_middle() {
    let mut rng = RandomNumberGenerator::seeded(8);
    let mb = DrunkardsWalkArchitect {}.build(&mut rng);
    assert_eq!(mb.player_start, Point::new(40, 25));
    check_level(&mb);
    let walkable = mb.map.tiles.iter().filter(|t| t.is_walkable()).count();
    assert!(walkable >= 1333);
    let field = DistanceField::new(&mb.map, &vec![map_idx(40, 25)], 1024);
    for i in 0..NUM_TILES {
        if mb.map.tiles[i].is_walkable() {
            assert_ne!(field.distances[i], UNREACHABLE);
        }
    }
}

#[test]
fn trodden_paths_keep_floor_floor() {
    let mut rng = RandomNumberGenerator::seeded(6);
    let mut map = walled();
    for x in 1..=20 {
        map.tiles[map_idx(x, 5)] = TileType::Floor;
    }
    DrunkardsWalkArchitect {}.carve_decorations(
        map_idx(1, 5),
        vec![map_idx(20, 5), NUM_TILES + 3],
        &mut rng,
        &mut map,
    );
    assert_eq!(map.tiles[map_idx(20, 5)], TileType::Floor);
    for x in 2..=19 {
        assert_eq!(map.tiles[map_idx(x, 5)], TileType::Floor2);
    }
    assert_eq!(map.tiles[map_idx(1, 5)], TileType::Floor);
    assert!(map.tiles.iter().any(|t| *t == TileType::Wall2));
    assert!(map.tiles.iter().any(|t| *t == TileType::Wall));
}

#[test]
fn spawns_lie_on_floor_away_from_the_start() {
    let mut rng = RandomNumberGenerator::seeded(12);
    let mb = blank(Grid::new());
    let start = Point::new(40, 25);
    let spawns = mb.spawn_monsters(&start, &mut rng);
    assert_eq!(spawns.len(), NUM_MONSTERS);
    for (i, p) in spawns.iter().enumerate() {
        assert!(mb.map.in_bounds(*p));
        assert!(start.distance_squared(*p) > 100);
        assert!(!spawns[i + 1..].contains(p));
    }
}

#[test]
fn spawns_run_out_with_the_floor() {
    let mut rng = RandomNumberGenerator::seeded(12);
    let mut map = walled();
    map.tiles[map_idx(1, 1)] = TileType::Floor;
    map.tiles[map_idx(2, 1)] = TileType::Floor;
    map.tiles[map_idx(3, 1)] = TileType::Floor2;
    map.tiles[map_idx(40, 35)] = TileType::Floor;
    map.tiles[map_idx(40, 36)] = TileType::Floor;
    let mb = blank(map);
    let mut spawns = mb.spawn_monsters(&Point::new(40, 25), &mut rng);
    spawns.sort_by_key(|p| (p.y, p.x));
    assert_eq!(spawns, vec![Point::new(1, 1), Point::new(2, 1), Point::new(40, 36)]);
    let none = blank(walled()).spawn_monsters(&Point::new(40, 25), &mut rng);
    assert!(none.is_empty());
}

#[test]
fn the_farthest_tile_is_found_from_the_start() {
    let mut map = walled();
    for x in 5..=15 {
        map.tiles[map_idx(x, 5)] = TileType::Floor;
    }
    let mut mb = blank(map);
    mb.player_start = Point::new(9, 5);
    assert_eq!(mb.find_most_distant(), Some(Point::new(15, 5)));
    mb.player_start = Point::new(10, 5);
    assert_eq!(mb.find_most_distant(), Some(Point::new(5, 5)));
    mb.player_start = Point::new(-1, 5);
    assert_eq!(mb.find_most_distant(), None);
}

#[test]
fn layouts_are_read_without_white_space() {
    assert_eq!(layout_cells("a b\n#\t-\r\nX"), vec!['a', 'b', '#', '-', 'X']);
    assert_eq!(layout_cells(" \u{a0}\u{2003}M"), vec!['M']);
    assert!(layout_cells("").is_empty());
    let keep = fortress();
    assert_eq!((keep.1, keep.2), (12, 11));
    assert_eq!(layout_cells(keep.0).len(), 132);
    let den = monster_fortress();
    assert_eq!((den.1, den.2), (6, 6));
    assert_eq!(layout_cells(den.0).len(), 36);
    let list = prefab_list();
    assert_eq!(list.len(), 4);
    assert_eq!(list[0], keep);
    assert_eq!(list[1], keep);
    assert_eq!(list[2], keep);
    assert_eq!(list[3], den);
}

#[test]
fn stamping_follows_the_layout() {
    let mut mb = blank(Grid::new());
    mb.map.tiles[map_idx(11, 11)] = TileType::Wall2;
    mb.monster_spawns.push(Point::new(1, 1));
    let den = monster_fortress();
    let cells = layout_cells(den.0);
    stamp(&mut mb, &cells, den.1, den.2, Point::new(10, 10));
    let rows = ["######", "M----M", "#----#", "#X--X#", "#-XX-#", "######"];
    for (dy, row) in rows.iter().enumerate() {
        for (dx, c) in row.chars().enumerate() {
            let tile = mb.map.tiles[map_idx(10 + dx as i32, 10 + dy as i32)];
            if c == '#' {
                assert_eq!(tile, TileType::Wall);
            } else {
                assert_eq!(tile, TileType::Floor);
            }
        }
    }
    assert_eq!(mb.map.tiles[map_idx(9, 10)], TileType::Floor);
    assert_eq!(mb.map.tiles[map_idx(16, 10)], TileType::Floor);
    assert_eq!(mb.map.tiles.iter().filter(|t| **t == TileType::Wall).count(), 18);
    assert_eq!(mb.monster_spawns, vec![Point::new(1, 1), Point::new(10, 11), Point::new(15, 11)]);
    assert_eq!(
        mb.guaranteed_monster_spawns,
        vec![Point::new(11, 13), Point::new(14, 13), Point::new(12, 14), Point::new(13, 14)]
    );
}

#[test]
fn unknown_characters_leave_tiles_alone() {
    let mut mb = blank(walled());
    mb.map.tiles[map_idx(1, 0)] = TileType::Floor3;
    let cells = vec!['-', '?', '#', 'q'];
    stamp(&mut mb, &cells, 2, 2, Point::new(0, 0));
    assert_eq!(mb.map.tiles[map_idx(0, 0)], TileType::Floor);
    assert_eq!(mb.map.tiles[map_idx(1, 0)], TileType::Floor3);
    assert_eq!(mb.map.tiles[map_idx(0, 1)], TileType::Wall);
    assert_eq!(mb.map.tiles[map_idx(1, 1)], TileType::Wall);
    assert!(mb.monster_spawns.is_empty());
    assert!(mb.guaranteed_monster_spawns.is_empty());
}

#[test]
fn a_place_must_be_reachable_far_from_the_start_and_off_the_goal() {
    let map = Grid::new();
    let field = DistanceField::new(&map, &vec![map_idx(0, 0)], 1024);
    let goal = Point::new(79, 49);
    assert!(can_place(&field, goal, &Rect::with_size(20, 20, 6, 6)));
    assert!(can_place(&field, goal, &Rect::with_size(21, 0, 1, 1)));
    assert!(!can_place(&field, goal, &Rect::with_size(20, 0, 1, 1)));
    assert!(!can_place(&field, goal, &Rect::with_size(0, 0, 30, 30)));
    assert!(!can_place(&field, goal, &Rect::with_size(74, 44, 6, 6)));
    assert!(can_place(&field, goal, &Rect::with_size(73, 43, 6, 6)));
    let mut map = map;
    for y in 0..50 {
        map.tiles[map_idx(40, y)] = TileType::Wall;
    }
    let field = DistanceField::new(&map, &vec![map_idx(0, 0)], 1024);
    assert!(!can_place(&field, goal, &Rect::with_size(50, 20, 6, 6)));
    assert!(!can_place(&field, goal, &Rect::with_size(38, 20, 6, 6)));
    assert!(can_place(&field, goal, &Rect::with_size(30, 20, 6, 6)));
}

#[test]
fn spawns_inside_an_insert_are_dropped() {
    let mut spawns =
        vec![Point::new(1, 1), Point::new(10, 10), Point::new(15, 15), Point::new(16, 10), Point::new(12, 13)];
    remove_spawns_inside(&mut spawns, &Rect::with_size(10, 10, 6, 6));
    assert_eq!(spawns, vec![Point::new(1, 1), Point::new(16, 10)]);
}

fn check_insert(before: &MapBuilder, after: &MapBuilder, placed: Option<Point>, prefab: (&str, i32, i32)) {
    assert_eq!(after.player_start, before.player_start);
    assert_eq!(after.teleportation_crystal_start, before.teleportation_crystal_start);
    match placed {
        None => {
            assert_eq!(after.map.tiles, before.map.tiles);
            assert_eq!(after.monster_spawns, before.monster_spawns);
            assert_eq!(after.guaranteed_monster_spawns, before.guaranteed_monster_spawns);
        }
        Some(p) => {
            let (w, h) = (prefab.1, prefab.2);
            assert!(0 <= p.x && p.x + w <= 80 && 0 <= p.y && p.y + h <= 50);
            let start = map_idx(before.player_start.x, before.player_start.y);
            let field = DistanceField::new(&before.map, &vec![start], 1024);
            let cells = layout_cells(prefab.0);
            for i in 0..NUM_TILES {
                let (x, y) = ((i % 80) as i32, (i / 80) as i32);
                if p.x <= x && x < p.x + w && p.y <= y && y < p.y + h {
                    assert!(20 < field.distances[i] && field.distances[i] < 2000);
                    assert_ne!(Point::new(x, y), before.teleportation_crystal_start);
                    let c = cells[((y - p.y) * w + (x - p.x)) as usize];
                    let expected = if c == '#' { TileType::Wall } else { TileType::Floor };
                    assert_eq!(after.map.tiles[i], expected);
                } else {
                    assert_eq!(after.map.tiles[i], before.map.tiles[i]);
                }
            }
            let rect = Rect::with_size(p.x, p.y, w, h);
            for s in after.monster_spawns.iter() {
                assert!(before.monster_spawns.contains(s) && !rect.point_in_rect(*s)
                    || cells[((s.y - p.y) * w + (s.x - p.x)) as usize] == 'M');
            }
            let sure = cells.iter().filter(|c| **c == 'X').count();
            assert_eq!(
                after.guaranteed_monster_spawns.len(),
                before.guaranteed_monster_spawns.len() + sure
            );
        }
    }
}

fn copy_of(mb: &MapBuilder) -> MapBuilder {
    MapBuilder {
        map: Grid { tiles: mb.map.tiles.clone(), revealed_tiles: mb.map.revealed_tiles.clone() },
        player_start: mb.player_start,
        teleportation_crystal_start: mb.teleportation_crystal_start,
        monster_spawns: mb.monster_spawns.clone(),
        guaranteed_monster_spawns: mb.guaranteed_monster_spawns.clone(),
        theme: mb.theme,
    }
}

#[test]
fn an_insert_is_stamped_whole_or_not_at_all() {
    for seed in 0..10u64 {
        for strategy in
            [Strategy::CellularAutomata, Strategy::DrunkardWalk, Strategy::RoomAndCorridor]
        {
            for prefab in [fortress(), monster_fortress()] {
                let mut rng = RandomNumberGenerator::seeded(seed);
                let mut mb = generate(strategy, &mut rng).unwrap();
                let before = copy_of(&mb);
                let placed = apply_prefab(&mut mb, &mut rng, prefab);
                check_insert(&before, &mb, placed, prefab);
            }
        }
    }
}

#[test]
fn an_insert_finds_its_place_on_open_ground() {
    let mut rng = RandomNumberGenerator::seeded(1);
    let mut mb = blank(Grid::new());
    let before = copy_of(&mb);
    let placed = apply_prefab(&mut mb, &mut rng, monster_fortress());
    assert!(placed.is_some());
    check_insert(&before, &mb, placed, monster_fortress());
}

#[test]
fn a_layout_of_the_wrong_size_is_not_stamped() {
    let mut rng = RandomNumberGenerator::seeded(1);
    for prefab in [
        ("####", 3, 2),
        ("####", 0, 4),
        ("####", 4, -1),
        (monster_fortress().0, 6, 5),
        ("#", 80, 1),
        ("#", 1, 50),
    ] {
        let mut mb = blank(Grid::new());
        let before = copy_of(&mb);
        assert_eq!(apply_prefab(&mut mb, &mut rng, prefab), None);
        check_insert(&before, &mb, None, prefab);
    }
}

#[test]
fn no_insert_without_a_start_on_the_grid() {
    let mut rng = RandomNumberGenerator::seeded(1);
    let mut mb = blank(Grid::new());
    mb.player_start = Point::new(-1, 0);
    let before = copy_of(&mb);
    assert_eq!(apply_prefab(&mut mb, &mut rng, monster_fortress()), None);
    check_insert(&before, &mb, None, monster_fortress());
}

#[test]
fn no_insert_where_nothing_lies_far_enough() {
    let mut rng = RandomNumberGenerator::seeded(1);
    let mut map = walled();
    carve_rect(&mut map, &Rect::with_size(30, 20, 12, 12));
    let mut mb = blank(map);
    mb.player_start = Point::new(35, 25);
    let before = copy_of(&mb);
    assert_eq!(apply_prefab(&mut mb, &mut rng, monster_fortress()), None);
    check_insert(&before, &mb, None, monster_fortress());
}

#[test]
fn a_roll_decides_what_a_tile_of_a_room_becomes() {
    assert_eq!(decorated(TileType::Floor, 5), TileType::Floor);
    assert_eq!(decorated(TileType::Floor, 6), TileType::Floor2);
    assert_eq!(decorated(TileType::Floor, 10), TileType::Floor2);
    assert_eq!(decorated(TileType::Wall, 6), TileType::Wall);
    assert_eq!(decorated(TileType::Wall, 7), TileType::Wall2);
    assert_eq!(decorated(TileType::Wall, 0), TileType::Wall);
    for tile in [TileType::Floor2, TileType::Floor3, TileType::Wall2, TileType::Exit] {
        assert_eq!(decorated(tile, 0), tile);
        assert_eq!(decorated(tile, 10), tile);
    }
}

#[test]
fn a_roll_of_nought_strews_a_decoration() {
    for tile in [TileType::Floor, TileType::Floor2, TileType::Floor3] {
        assert_eq!(sprinkled(tile, 0, TileType::Floor2), TileType::Floor2);
        assert_eq!(sprinkled(tile, 0, TileType::Floor3), TileType::Floor3);
        assert_eq!(sprinkled(tile, 1, TileType::Floor2), tile);
        assert_eq!(sprinkled(tile, 14, TileType::Floor3), tile);
    }
    for tile in [TileType::Wall, TileType::Wall2, TileType::Exit] {
        assert_eq!(sprinkled(tile, 0, TileType::Floor2), tile);
        assert_eq!(sprinkled(tile, 7, TileType::Floor3), tile);
    }
}

#[test]
fn strewing_decorates_some_of_the_floor() {
    let mut rng = RandomNumberGenerator::seeded(17);
    let mut map = Grid::new();
    for i in 0..NUM_TILES / 2 {
        map.tiles[i] = TileType::Wall;
    }
    strew(&mut rng, &mut map, TileType::Floor3);
    for i in 0..NUM_TILES / 2 {
        assert_eq!(map.tiles[i], TileType::Wall);
    }
    let strewn = map.tiles.iter().filter(|t| **t == TileType::Floor3).count();
    let plain = map.tiles.iter().filter(|t| **t == TileType::Floor).count();
    assert_eq!(strewn + plain, NUM_TILES / 2);
    assert!(40 < strewn && strewn < 300);
}

#[test]
fn grass_spreads_one_step() {
    let mut map = walled();
    for x in 8..=13 {
        map.tiles[map_idx(x, 10)] = TileType::Floor;
    }
    map.tiles[map_idx(10, 10)] = TileType::Floor2;
    map.tiles[map_idx(10, 11)] = TileType::Floor;
    map.tiles[map_idx(10, 9)] = TileType::Floor3;
    map.tiles[map_idx(0, 5)] = TileType::Floor2;
    map.tiles[map_idx(1, 5)] = TileType::Floor;
    map.tiles[map_idx(5, 49)] = TileType::Floor2;
    map.tiles[map_idx(5, 48)] = TileType::Floor;
    map.tiles[map_idx(1, 1)] = TileType::Floor2;
    map.tiles[map_idx(0, 1)] = TileType::Floor;
    map.tiles[map_idx(1, 0)] = TileType::Floor;
    map.tiles[map_idx(2, 1)] = TileType::Exit;
    let before = map.tiles.clone();
    grow_grass(&mut map);
    let grown: Vec<usize> = (0..NUM_TILES).filter(|i| map.tiles[*i] != before[*i]).collect();
    assert_eq!(
        grown,
        vec![map_idx(1, 0), map_idx(0, 1), map_idx(9, 10), map_idx(11, 10), map_idx(10, 11)]
    );
    for i in grown {
        assert_eq!(map.tiles[i], TileType::Floor2);
    }
}

#[test]
fn a_roll_decides_what_a_wall_of_a_tunnel_becomes() {
    assert_eq!(wall_adorned(TileType::Wall, 5), TileType::Wall);
    assert_eq!(wall_adorned(TileType::Wall, 6), TileType::Wall2);
    assert_eq!(wall_adorned(TileType::Wall, 9), TileType::Wall2);
    for tile in [TileType::Floor, TileType::Floor2, TileType::Wall2, TileType::Exit] {
        assert_eq!(wall_adorned(tile, 9), tile);
    }
    let mut rng = RandomNumberGenerator::seeded(23);
    let mut map = walled();
    map.tiles[7] = TileType::Floor;
    map.tiles[8] = TileType::Exit;
    adorn_walls(&mut rng, &mut map);
    assert_eq!(map.tiles[7], TileType::Floor);
    assert_eq!(map.tiles[8], TileType::Exit);
    let adorned = map.tiles.iter().filter(|t| **t == TileType::Wall2).count();
    let plain = map.tiles.iter().filter(|t| **t == TileType::Wall).count();
    assert_eq!(adorned + plain, NUM_TILES - 2);
    assert!(1200 < adorned && adorned < 2000);
}

#[test]
fn a_path_is_trodden_down_the_field() {
    let mut map = walled();
    for x in 1..=10 {
        map.tiles[map_idx(x, 5)] = TileType::Floor;
    }
    for y in 5..=9 {
        map.tiles[map_idx(10, y)] = TileType::Floor3;
    }
    map.tiles[map_idx(6, 5)] = TileType::Exit;
    let start = map_idx(1, 5);
    let field = DistanceField::new(&map, &vec![start], 2048);
    let before = map.tiles.clone();
    tread_path(&mut map, &field, start, map_idx(10, 9));
    for i in 0..NUM_TILES {
        let (x, y) = ((i % 80) as i32, (i / 80) as i32);
        let on_path = (x == 10 && (5..=8).contains(&y)) || (y == 5 && (2..=9).contains(&x));
        if on_path && before[i] != TileType::Exit {
            assert_eq!(map.tiles[i], TileType::Floor2);
        } else {
            assert_eq!(map.tiles[i], before[i]);
        }
    }
    let mut again = Grid { tiles: before.clone(), revealed_tiles: vec![false; NUM_TILES] };
    tread_paths(&mut again, &field, start, &vec![NUM_TILES, map_idx(10, 9), start, map_idx(40, 40)]);
    assert_eq!(again.tiles, map.tiles);
    let mut short = Grid { tiles: before.clone(), revealed_tiles: vec![false; NUM_TILES] };
    tread_path(&mut short, &field, start, map_idx(2, 5));
    assert_eq!(short.tiles, before);
    tread_path(&mut short, &field, start, map_idx(3, 5));
    assert_eq!(short.tiles[map_idx(2, 5)], TileType::Floor2);
    assert_eq!(short.tiles[map_idx(3, 5)], TileType::Floor);
}

#[test]
fn an_insert_that_fits_nowhere_is_not_placed() {
    for seed in 0..5u64 {
        let mut rng = RandomNumberGenerator::seeded(seed);
        let mut mb = blank(walled());
        mb.map.tiles[0] = TileType::Floor;
        let before = copy_of(&mb);
        assert_eq!(apply_prefab(&mut mb, &mut rng, ("-", 1, 1)), None);
        check_insert(&before, &mb, None, ("-", 1, 1));
    }
}

#[test]
fn an_insert_lands_on_a_corner_that_chance_can_pick() {
    for seed in 0..20u64 {
        let mut rng = RandomNumberGenerator::seeded(seed);
        let mut mb = blank(Grid::new());
        let placed = apply_prefab(&mut mb, &mut rng, monster_fortress());
        if let Some(p) = placed {
            assert!(0 <= p.x && p.x < 80 - 6 && 0 <= p.y && p.y < 50 - 6);
            assert!(p.x + p.y > 20);
        }
    }
}

#[test]
fn a_roll_decides_what_a_tile_of_noise_is() {
    assert_eq!(noise_tile(0), TileType::Wall);
    assert_eq!(noise_tile(55), TileType::Wall);
    assert_eq!(noise_tile(56), TileType::Floor);
    assert_eq!(noise_tile(99), TileType::Floor);
    let mut rng = RandomNumberGenerator::seeded(31);
    let mut map = Grid::new();
    CellularAutomataArchitect {}.random_noise_map(&mut rng, &mut map);
    let floor = map.tiles.iter().filter(|t| **t == TileType::Floor).count();
    assert!(1500 < floor && floor < 2000);
}

#[test]
fn the_tier_picks_the_strategy_of_a_level() {
    for seed in 0..4u64 {
        for level in [2u32, 3] {
            let mut rng = RandomNumberGenerator::seeded(seed);
            let mb = MapBuilder::new(&mut rng, level).unwrap();
            assert_eq!(mb.player_start, Point::new(40, 25));
            assert!(mb.map.tiles.iter().all(|t| *t != TileType::Floor3));
        }
        for level in [4u32, 7] {
            let mut rng = RandomNumberGenerator::seeded(seed);
            let mb = MapBuilder::new(&mut rng, level).unwrap();
            assert!(mb.map.tiles.iter().all(|t| *t != TileType::Floor3));
            assert!(mb.map.tiles.iter().any(|t| *t == TileType::Wall2));
            assert!(mb.monster_spawns.len() + mb.guaranteed_monster_spawns.len() <= 50 + 4000);
        }
        for level in [0u32, 1] {
            let mut rng = RandomNumberGenerator::seeded(seed);
            let mb = MapBuilder::new(&mut rng, level).unwrap();
            assert!(mb.map.tiles.iter().all(|t| *t != TileType::Wall2));
        }
    }
}
