use bracket_lib::prelude::RandomNumberGenerator;
use drone_dungeon::components::{
    ChasingPlayer, Color, ColorPair, Damage, Enemy, Entity, Health, Item, Player, ProvidesDungeonMap,
    ProvidesHealing, ProvidesStun, Render, TelerportationCrystal, Weapon,
};
use drone_dungeon::geometry::Point;
use drone_dungeon::spawner::template::{EntityType, Template, Templates};
use drone_dungeon::spawner::{
    spawn_level, spawn_monster, spawn_player, spawn_rolled_monster, spawn_telerportation_crystal,
};
use drone_dungeon::world::World;

fn white_on_black() -> ColorPair {
    ColorPair { fg: Color { r: 255, g: 255, b: 255 }, bg: Color { r: 0, g: 0, b: 0 } }
}

fn template(entity_type: EntityType, name: &str, levels: Vec<usize>, frequency: i32) -> Template {
    Template {
        entity_type,
        name: name.to_string(),
        glyph: 'x',
        levels,
        frequency,
        provides: None,
        hp: if entity_type == EntityType::Enemy { Some(3) } else { None },
        base_damage: None,
    }
}

fn catalogue() -> Templates {
    Templates {
        entities: vec![
            template(EntityType::Item, "Potion", vec![0, 1], 3),
            template(EntityType::Enemy, "Ogre", vec![2], 2),
            template(EntityType::Enemy, "Goblin", vec![0], 5),
            template(EntityType::Item, "Dust", vec![0], 0),
            template(EntityType::Item, "Ghost", vec![0], -4),
        ],
    }
}

#[test]
fn colours_are_what_their_names_say() {
    assert_eq!(Color::white(), Color { r: 255, g: 255, b: 255 });
    assert_eq!(Color::black(), Color { r: 0, g: 0, b: 0 });
    assert_eq!(ColorPair::new(Color::white(), Color::black()), white_on_black());
}

#[test]
fn the_player_is_spawned_whole() {
    let mut ecs = World::new();
    let e = spawn_player(&mut ecs, Point::new(3, 4));
    assert_eq!(e, Entity(0));
    assert_eq!(ecs.entities.len(), 1);
    let player = &ecs.entities[0];
    assert!(player.alive);
    assert_eq!(player.player, Some(Player { map_level: 0, wait_count: 8 }));
    assert_eq!(player.position, Some(Point::new(3, 4)));
    assert_eq!(player.render, Some(Render { color: white_on_black(), glyph: 64 }));
    assert_eq!(player.health, Some(Health { current: 1000, max: 1000 }));
    assert_eq!(player.damage, Some(Damage(100)));
    let sight = player.field_of_view.as_ref().unwrap();
    assert_eq!(sight.radius, 8);
    assert!(sight.is_dirty);
    assert!(sight.visible_tiles.is_empty());
    assert_eq!(player.enemy, None);
    assert_eq!(player.item, None);
    assert!(player.name.is_none());
    assert_eq!(ecs.player(), Some(Entity(0)));
}

#[test]
fn the_crystal_is_an_item_with_a_name() {
    let mut ecs = World::new();
    spawn_player(&mut ecs, Point::new(3, 4));
    let e = spawn_telerportation_crystal(&mut ecs, Point::new(9, 9));
    assert_eq!(e, Entity(1));
    let crystal = &ecs.entities[1];
    assert_eq!(crystal.item, Some(Item));
    assert_eq!(crystal.teleportation_crystal, Some(TelerportationCrystal));
    assert_eq!(crystal.position, Some(Point::new(9, 9)));
    assert_eq!(crystal.render, Some(Render { color: white_on_black(), glyph: 108 }));
    assert_eq!(crystal.name.as_ref().unwrap().0, "Teleportation Crystal");
    assert_eq!(crystal.health, None);
}

#[test]
fn a_roll_up_to_eight_is_a_goblin() {
    for (roll, name, glyph, hp) in
        [(1, "Goblin", 103u16, 1), (8, "Goblin", 103, 1), (9, "Orc", 111, 2), (10, "Orc", 111, 2)]
    {
        let mut ecs = World::new();
        spawn_rolled_monster(&mut ecs, roll, Point::new(1, 2));
        let monster = &ecs.entities[0];
        assert_eq!(monster.name.as_ref().unwrap().0, name);
        assert_eq!(monster.render.unwrap().glyph, glyph);
        assert_eq!(monster.health, Some(Health { current: hp, max: hp }));
        assert_eq!(monster.enemy, Some(Enemy));
        assert_eq!(monster.chasing_player, Some(ChasingPlayer));
        assert_eq!(monster.position, Some(Point::new(1, 2)));
        assert_eq!(monster.field_of_view.as_ref().unwrap().radius, 6);
    }
}

#[test]
fn a_spawned_monster_is_a_goblin_or_an_orc() {
    let mut rng = RandomNumberGenerator::seeded(3);
    let mut ecs = World::new();
    let mut goblins = 0;
    for i in 0..200 {
        let e = spawn_monster(&mut ecs, &mut rng, Point::new(1, 1));
        assert_eq!(e, Entity(i));
        let name = ecs.entities[i].name.as_ref().unwrap().0.clone();
        assert!(name == "Goblin" || name == "Orc");
        if name == "Goblin" {
            goblins += 1;
        }
    }
    assert!(100 < goblins && goblins < 200);
}

#[test]
fn an_item_is_spawned_from_its_entry() {
    let mut entry = template(EntityType::Item, "Healing Potion", vec![0], 1);
    entry.glyph = '\u{263a}';
    entry.provides = Some(vec![
        ("Healing".to_string(), 3),
        ("Nonsense".to_string(), 1),
        ("Healing".to_string(), 7),
    ]);
    let templates = Templates { entities: vec![] };
    let mut ecs = World::new();
    let e = templates.spawn_entity(&Point::new(5, 6), &entry, &mut ecs);
    assert_eq!(e, Entity(0));
    let item = &ecs.entities[0];
    assert!(item.alive);
    assert_eq!(item.position, Some(Point::new(5, 6)));
    assert_eq!(item.render, Some(Render { color: white_on_black(), glyph: 1 }));
    assert_eq!(item.name.as_ref().unwrap().0, "Healing Potion");
    assert_eq!(item.item, Some(Item));
    assert_eq!(item.enemy, None);
    assert_eq!(item.health, None);
    assert!(item.field_of_view.is_none());
    assert_eq!(item.provides_healing, Some(ProvidesHealing { amount: 7 }));
    assert_eq!(item.provides_dungeon_map, None);
    assert_eq!(item.provides_stun, None);
    assert_eq!(item.damage, None);
    assert_eq!(item.weapon, None);
}

#[test]
fn effects_go_by_their_names() {
    let mut entry = template(EntityType::Item, "Scroll", vec![0], 1);
    entry.provides =
        Some(vec![("MagicMap".to_string(), 0), ("GroundStomp".to_string(), 0), ("healing".to_string(), 4)]);
    let templates = Templates { entities: vec![] };
    let mut ecs = World::new();
    templates.spawn_entity(&Point::new(0, 0), &entry, &mut ecs);
    let item = &ecs.entities[0];
    assert_eq!(item.provides_dungeon_map, Some(ProvidesDungeonMap));
    assert_eq!(item.provides_stun, Some(ProvidesStun));
    assert_eq!(item.provides_healing, None);
}

#[test]
fn an_item_with_damage_is_a_weapon() {
    let mut entry = template(EntityType::Item, "Sword", vec![0], 1);
    entry.base_damage = Some(3);
    let templates = Templates { entities: vec![] };
    let mut ecs = World::new();
    templates.spawn_entity(&Point::new(0, 0), &entry, &mut ecs);
    assert_eq!(ecs.entities[0].damage, Some(Damage(3)));
    assert_eq!(ecs.entities[0].weapon, Some(Weapon));
}

#[test]
fn an_enemy_is_spawned_from_its_entry() {
    let mut entry = template(EntityType::Enemy, "Ogre", vec![0], 1);
    entry.hp = Some(12);
    entry.base_damage = Some(4);
    let templates = Templates { entities: vec![] };
    let mut ecs = World::new();
    templates.spawn_entity(&Point::new(7, 8), &entry, &mut ecs);
    let ogre = &ecs.entities[0];
    assert_eq!(ogre.enemy, Some(Enemy));
    assert_eq!(ogre.item, None);
    assert_eq!(ogre.chasing_player, Some(ChasingPlayer));
    assert_eq!(ogre.health, Some(Health { current: 12, max: 12 }));
    assert_eq!(ogre.damage, Some(Damage(4)));
    assert_eq!(ogre.weapon, None);
    let sight = ogre.field_of_view.as_ref().unwrap();
    assert_eq!((sight.radius, sight.is_dirty), (6, true));
    assert_eq!(ogre.render.unwrap().glyph, 120);
}

#[test]
fn weights_add_up_over_the_entries_of_a_tier() {
    let templates = catalogue();
    assert_eq!(templates.total_weight(0, false), 8);
    assert_eq!(templates.total_weight(0, true), 5);
    assert_eq!(templates.total_weight(1, false), 3);
    assert_eq!(templates.total_weight(1, true), 0);
    assert_eq!(templates.total_weight(2, false), 2);
    assert_eq!(templates.total_weight(7, false), 0);
}

#[test]
fn a_ticket_draws_the_entry_it_falls_on() {
    let templates = catalogue();
    let drawn: Vec<Option<usize>> = (0..10).map(|t| templates.drawn(0, false, t)).collect();
    assert_eq!(
        drawn,
        vec![Some(0), Some(0), Some(0), Some(2), Some(2), Some(2), Some(2), Some(2), None, None]
    );
    assert_eq!(templates.drawn(0, true, 0), Some(2));
    assert_eq!(templates.drawn(0, true, 4), Some(2));
    assert_eq!(templates.drawn(0, true, 5), None);
    assert_eq!(templates.drawn(2, false, 1), Some(1));
    assert_eq!(templates.drawn(1, true, 0), None);
}

#[test]
fn draws_follow_the_weights() {
    let templates = catalogue();
    let mut rng = RandomNumberGenerator::seeded(10);
    let mut counts = [0usize; 5];
    for _ in 0..800 {
        counts[templates.draw(&mut rng, 0, false).unwrap()] += 1;
    }
    assert_eq!(counts[1] + counts[3] + counts[4], 0);
    assert!(200 < counts[0] && counts[0] < 400);
    assert!(400 < counts[2] && counts[2] < 600);
    for _ in 0..50 {
        assert_eq!(templates.draw(&mut rng, 0, true), Some(2));
        assert_eq!(templates.draw(&mut rng, 2, false), Some(1));
        assert_eq!(templates.draw(&mut rng, 1, true), None);
        assert_eq!(templates.draw(&mut rng, 1, false), Some(0));
    }
}

#[test]
fn a_level_is_filled_place_by_place() {
    let templates = catalogue();
    let mut rng = RandomNumberGenerator::seeded(10);
    let mut ecs = World::new();
    spawn_player(&mut ecs, Point::new(0, 0));
    let places = vec![Point::new(1, 1), Point::new(2, 2), Point::new(3, 3)];
    let sure = vec![Point::new(4, 4), Point::new(5, 5)];
    spawn_level(&mut ecs, &mut rng, 0, &places, &sure, &templates);
    assert_eq!(ecs.entities.len(), 6);
    for (i, p) in places.iter().chain(sure.iter()).enumerate() {
        let spawned = &ecs.entities[i + 1];
        assert_eq!(spawned.position, Some(*p));
        let name = spawned.name.as_ref().unwrap().0.clone();
        if i >= 3 {
            assert_eq!(name, "Goblin");
            assert_eq!(spawned.enemy, Some(Enemy));
        } else {
            assert!(name == "Goblin" || name == "Potion");
        }
    }
    assert_eq!(ecs.player(), Some(Entity(0)));
}

#[test]
fn places_stay_empty_where_nothing_can_be_drawn() {
    let templates = catalogue();
    let mut rng = RandomNumberGenerator::seeded(10);
    let mut ecs = World::new();
    let places = vec![Point::new(1, 1), Point::new(2, 2)];
    let sure = vec![Point::new(4, 4)];
    templates.spawn_entities(&mut ecs, &mut rng, 1, &places, &sure);
    assert_eq!(ecs.entities.len(), 2);
    assert_eq!(ecs.entities[0].name.as_ref().unwrap().0, "Potion");
    assert_eq!(ecs.entities[1].position, Some(Point::new(2, 2)));
    let mut ecs = World::new();
    templates.spawn_entities(&mut ecs, &mut rng, 5, &places, &sure);
    assert!(ecs.entities.is_empty());
    let empty = Templates { entities: vec![] };
    empty.spawn_entities(&mut ecs, &mut rng, 0, &places, &sure);
    assert!(ecs.entities.is_empty());
}
