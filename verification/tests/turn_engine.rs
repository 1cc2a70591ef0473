use bracket_lib::prelude::RandomNumberGenerator;
use drone_dungeon::camera::Camera;
use drone_dungeon::components::{
    ActivateItem, Carried, ChasingPlayer, Color, ColorPair, Damage, Enemy, Entity, FieldOfView,
    Health, Item, MoveEveryOther, MovingRandomly, Name, Player, ProvidesDungeonMap,
    ProvidesHealing, ProvidesStun, Render, Stunned, TelerportationCrystal, WantsToAttack,
    WantsToLog, WantsToMove, Weapon,
};
use drone_dungeon::event_log::{EventLog, LogEntry, MAX_LOG_LENGTH};
use drone_dungeon::geometry::Point;
use drone_dungeon::map::{map_idx, Grid, TileType};
use drone_dungeon::map_builder::themes::Theme;
use drone_dungeon::systems::chasing::{chasing, flip_rests};
use drone_dungeon::systems::collision::collisions;
use drone_dungeon::systems::combat::{combat, resolve_attack, total_damage};
use drone_dungeon::systems::end_turn::{end_turn, find_crystal};
use drone_dungeon::systems::entity_render::entity_render;
use drone_dungeon::systems::event::event;
use drone_dungeon::systems::fov::fov;
use drone_dungeon::systems::hud::hud;
use drone_dungeon::systems::tooltip::tooltips;
use drone_dungeon::systems::movement::{movement, reveal_all};
use drone_dungeon::systems::player_input::{
    carried_count, pack_slot, player_input, use_item, PlayerInput,
};
use drone_dungeon::systems::random_move::{bump, random_move, wander};
use drone_dungeon::systems::use_effect;
use drone_dungeon::systems::use_item::{reveal_everything, use_items};
use drone_dungeon::systems::{
    build_input_scheduler, build_monster_scheduler, build_player_scheduler, run_step, Resources,
    SystemStep,
};
use drone_dungeon::turn_state::TurnState;
use drone_dungeon::world::{Command, CommandBuffer, EntityRecord, World};
use drone_dungeon::NUM_TILES;

fn at(x: i32, y: i32) -> EntityRecord {
    let mut record = EntityRecord::new();
    record.position = Some(Point::new(x, y));
    record
}

fn player_at(x: i32, y: i32) -> EntityRecord {
    let mut record = at(x, y);
    record.player = Some(Player { map_level: 0, wait_count: 8 });
    record.health = Some(Health { current: 10, max: 10 });
    record.field_of_view = Some(FieldOfView::new(8));
    record
}

fn enemy_at(x: i32, y: i32, hp: i32) -> EntityRecord {
    let mut record = at(x, y);
    record.enemy = Some(Enemy);
    record.health = Some(Health { current: hp, max: hp });
    record.name = Some(Name("Goblin".to_string()));
    record
}

fn item_at(x: i32, y: i32) -> EntityRecord {
    let mut record = at(x, y);
    record.item = Some(Item);
    record
}

fn carried_item(carrier: Entity) -> EntityRecord {
    let mut record = EntityRecord::new();
    record.item = Some(Item);
    record.carried = Some(Carried(carrier));
    record
}

fn resources(map: Grid) -> Resources {
    Resources {
        map,
        camera: Camera::new(Point::new(5, 5)),
        turn_state: TurnState::AwaitingInput,
        theme: Theme::Dungeon,
        event_log: EventLog::new(),
        commands: CommandBuffer::new(),
    }
}

fn left() -> Option<PlayerInput> {
    Some(PlayerInput::Move(Point::new(-1, 0)))
}

fn sees(points: Vec<Point>) -> FieldOfView {
    FieldOfView { visible_tiles: points, radius: 6, is_dirty: false }
}

fn is_move(command: &Command, entity: Entity, destination: Point) -> bool {
    matches!(command, Command::Move(m) if *m == WantsToMove { entity, destination })
}

fn is_attack(command: &Command, attacker: Entity, victim: Entity) -> bool {
    matches!(command, Command::Attack(a) if *a == WantsToAttack { attacker, victim })
}

#[test]
fn without_input_the_wait_goes_on() {
    let mut ecs = World::new();
    ecs.push(player_at(5, 5));
    let map = Grid::new();
    let mut commands = CommandBuffer::new();
    let mut state = TurnState::AwaitingInput;
    player_input(&ecs, &mut commands, &None, &map, &mut state);
    assert_eq!(state, TurnState::AwaitingInput);
    assert!(commands.commands.is_empty());
}

#[test]
fn a_step_onto_floor_begins_the_players_turn() {
    let mut ecs = World::new();
    let player = ecs.push(player_at(5, 5));
    let map = Grid::new();
    let mut commands = CommandBuffer::new();
    let mut state = TurnState::AwaitingInput;
    player_input(&ecs, &mut commands, &left(), &map, &mut state);
    assert_eq!(state, TurnState::PlayerTurn);
    assert_eq!(commands.commands.len(), 1);
    assert!(is_move(&commands.commands[0], player, Point::new(4, 5)));
}

#[test]
fn a_step_at_an_enemy_is_a_strike() {
    let mut ecs = World::new();
    let player = ecs.push(player_at(5, 5));
    let first = ecs.push(enemy_at(4, 5, 3));
    ecs.push(enemy_at(6, 5, 3));
    let second = ecs.push(enemy_at(4, 5, 3));
    let mut dead = enemy_at(4, 5, 3);
    dead.alive = false;
    ecs.push(dead);
    let mut map = Grid::new();
    map.tiles[map_idx(4, 5)] = TileType::Wall;
    let mut commands = CommandBuffer::new();
    let mut state = TurnState::AwaitingInput;
    player_input(&ecs, &mut commands, &left(), &map, &mut state);
    assert_eq!(state, TurnState::PlayerTurn);
    assert_eq!(commands.commands.len(), 2);
    assert!(is_attack(&commands.commands[0], player, first));
    assert!(is_attack(&commands.commands[1], player, second));
}

#[test]
fn a_step_into_a_wall_is_turned_down() {
    let mut ecs = World::new();
    ecs.push(player_at(5, 5));
    let mut map = Grid::new();
    map.tiles[map_idx(4, 5)] = TileType::Wall;
    let mut res = resources(map);
    let mut rng = RandomNumberGenerator::seeded(1);
    build_input_scheduler().execute(&mut ecs, &mut res, &left(), &mut rng);
    assert_eq!(ecs.entities[0].position, Some(Point::new(5, 5)));
    assert_eq!(res.turn_state, TurnState::AwaitingInput);
    assert!(ecs.moves.is_empty());
    assert!(ecs.attacks.is_empty());
    assert!(res.commands.commands.is_empty());
}

#[test]
fn a_step_off_the_grid_or_nowhere_takes_no_turn() {
    let mut ecs = World::new();
    ecs.push(player_at(0, 0));
    let map = Grid::new();
    for delta in [Point::new(-1, 0), Point::new(0, -1), Point::new(0, 0), Point::new(i32::MAX, 0)] {
        let mut commands = CommandBuffer::new();
        let mut state = TurnState::AwaitingInput;
        player_input(&ecs, &mut commands, &Some(PlayerInput::Move(delta)), &map, &mut state);
        assert_eq!(state, TurnState::AwaitingInput);
        assert!(commands.commands.is_empty());
    }
    ecs.entities[0].position = Some(Point::new(i32::MAX, 3));
    let mut commands = CommandBuffer::new();
    let mut state = TurnState::AwaitingInput;
    player_input(&ecs, &mut commands, &Some(PlayerInput::Move(Point::new(1, 0))), &map, &mut state);
    assert_eq!(state, TurnState::AwaitingInput);
    assert!(commands.commands.is_empty());
}

#[test]
fn a_whole_turn_goes_round() {
    let mut ecs = World::new();
    ecs.push(player_at(5, 5));
    let mut res = resources(Grid::new());
    let mut rng = RandomNumberGenerator::seeded(1);
    build_input_scheduler().execute(&mut ecs, &mut res, &left(), &mut rng);
    assert_eq!(res.turn_state, TurnState::PlayerTurn);
    assert_eq!(ecs.moves, vec![WantsToMove { entity: Entity(0), destination: Point::new(4, 5) }]);
    assert_eq!(ecs.entities[0].position, Some(Point::new(5, 5)));
    build_player_scheduler().execute(&mut ecs, &mut res, &None, &mut rng);
    assert_eq!(res.turn_state, TurnState::MonsterTurn);
    assert_eq!(ecs.entities[0].position, Some(Point::new(4, 5)));
    assert!(ecs.moves.is_empty());
    assert_eq!(res.camera, Camera::new(Point::new(4, 5)));
    build_monster_scheduler().execute(&mut ecs, &mut res, &None, &mut rng);
    assert_eq!(res.turn_state, TurnState::AwaitingInput);
    assert_eq!(ecs.entities[0].position, Some(Point::new(4, 5)));
    let sight = ecs.entities[0].field_of_view.as_ref().unwrap();
    assert!(!sight.is_dirty);
    assert!(sight.visible_tiles.contains(&Point::new(4, 5)));
}

#[test]
fn the_end_of_a_turn_passes_it_on() {
    let mut ecs = World::new();
    ecs.push(player_at(5, 5));
    let map = Grid::new();
    for (before, after) in [
        (TurnState::PlayerTurn, TurnState::MonsterTurn),
        (TurnState::MonsterTurn, TurnState::AwaitingInput),
        (TurnState::AwaitingInput, TurnState::AwaitingInput),
        (TurnState::Menu, TurnState::Menu),
        (TurnState::GameOver, TurnState::GameOver),
        (TurnState::Victory, TurnState::Victory),
        (TurnState::NextLevel, TurnState::NextLevel),
    ] {
        let mut state = before;
        end_turn(&ecs, &mut state, &map);
        assert_eq!(state, after);
    }
    let empty = World::new();
    let mut state = TurnState::PlayerTurn;
    end_turn(&empty, &mut state, &map);
    assert_eq!(state, TurnState::MonsterTurn);
}

#[test]
fn death_comes_before_victory_and_victory_before_the_exit() {
    let mut map = Grid::new();
    map.tiles[map_idx(5, 5)] = TileType::Exit;
    let mut ecs = World::new();
    ecs.push(player_at(5, 5));
    let mut crystal = item_at(5, 5);
    crystal.teleportation_crystal = Some(TelerportationCrystal);
    ecs.push(crystal);
    assert_eq!(find_crystal(&ecs), Some(Point::new(5, 5)));

    let mut state = TurnState::PlayerTurn;
    end_turn(&ecs, &mut state, &map);
    assert_eq!(state, TurnState::Victory);

    ecs.entities[0].health = Some(Health { current: 0, max: 10 });
    let mut state = TurnState::MonsterTurn;
    end_turn(&ecs, &mut state, &map);
    assert_eq!(state, TurnState::GameOver);

    ecs.entities[0].health = Some(Health { current: 1, max: 10 });
    ecs.entities[1].alive = false;
    assert_eq!(find_crystal(&ecs), None);
    let mut state = TurnState::PlayerTurn;
    end_turn(&ecs, &mut state, &map);
    assert_eq!(state, TurnState::NextLevel);

    let mut state = TurnState::AwaitingInput;
    ecs.entities[0].health = Some(Health { current: -5, max: 10 });
    end_turn(&ecs, &mut state, &map);
    assert_eq!(state, TurnState::AwaitingInput);
}

#[test]
fn a_strike_with_a_weapon_in_hand() {
    let mut ecs = World::new();
    let mut attacker = enemy_at(5, 5, 10);
    attacker.damage = Some(Damage(5));
    let attacker = ecs.push(attacker);
    let mut weapon = carried_item(attacker);
    weapon.damage = Some(Damage(3));
    weapon.weapon = Some(Weapon);
    ecs.push(weapon);
    let victim = ecs.push(enemy_at(4, 5, 6));
    assert_eq!(total_damage(&ecs, attacker), 8);
    let mut commands = CommandBuffer::new();
    ecs.attacks.push(WantsToAttack { attacker, victim });
    combat(&mut ecs, &mut commands);
    assert_eq!(ecs.entities[victim.0].health, Some(Health { current: -2, max: 6 }));
    assert!(ecs.attacks.is_empty());
    assert!(ecs.entities[victim.0].alive);
    assert_eq!(commands.commands.len(), 1);
    assert!(matches!(commands.commands[0], Command::Remove(e) if e == victim));
    ecs.flush(&mut commands);
    assert!(!ecs.entities[victim.0].alive);
    assert!(!ecs.contains(victim));
    assert!(commands.commands.is_empty());
}

#[test]
fn a_player_struck_down_ends_the_game() {
    let mut ecs = World::new();
    let mut player = player_at(4, 5);
    player.health = Some(Health { current: 6, max: 10 });
    let player = ecs.push(player);
    let mut attacker = enemy_at(5, 5, 10);
    attacker.damage = Some(Damage(5));
    let attacker = ecs.push(attacker);
    let mut weapon = carried_item(attacker);
    weapon.damage = Some(Damage(3));
    ecs.push(weapon);
    let mut res = resources(Grid::new());
    res.turn_state = TurnState::MonsterTurn;
    ecs.attacks.push(WantsToAttack { attacker, victim: player });
    let mut rng = RandomNumberGenerator::seeded(1);
    for step in [SystemStep::Combat, SystemStep::Flush, SystemStep::EndTurn] {
        run_step(step, &mut ecs, &mut res, &None, &mut rng);
    }
    assert_eq!(ecs.entities[player.0].health, Some(Health { current: -2, max: 10 }));
    assert!(ecs.entities[player.0].alive);
    assert_eq!(res.turn_state, TurnState::GameOver);
}

#[test]
fn a_strike_of_the_players_is_reported() {
    let mut ecs = World::new();
    let mut player = player_at(5, 5);
    player.damage = Some(Damage(5));
    let player = ecs.push(player);
    let mut sword = carried_item(player);
    sword.damage = Some(Damage(3));
    ecs.push(sword);
    let mut other = carried_item(Entity(2));
    other.damage = Some(Damage(50));
    ecs.push(other);
    let mut broken = carried_item(player);
    broken.damage = Some(Damage(70));
    broken.alive = false;
    ecs.push(broken);
    let victim = ecs.push(enemy_at(4, 5, 20));
    let mut commands = CommandBuffer::new();
    resolve_attack(&mut ecs, &mut commands, WantsToAttack { attacker: player, victim });
    assert_eq!(ecs.entities[victim.0].health, Some(Health { current: 12, max: 20 }));
    assert_eq!(commands.commands.len(), 1);
    match &commands.commands[0] {
        Command::Log(line) => {
            assert_eq!(line.log_entry.message, "Player attacked Goblin for 8 damage");
            assert_eq!(
                line.log_entry.color,
                ColorPair { fg: Color { r: 255, g: 255, b: 255 }, bg: Color { r: 0, g: 0, b: 0 } }
            );
        }
        _ => panic!("a line for the log was expected"),
    }
}

#[test]
fn strikes_that_do_not_land() {
    let mut ecs = World::new();
    let mut stunned = enemy_at(5, 5, 10);
    stunned.damage = Some(Damage(5));
    stunned.stunned = Some(Stunned(2));
    let stunned = ecs.push(stunned);
    let victim = ecs.push(enemy_at(4, 5, 6));
    let mut gone = enemy_at(3, 5, 6);
    gone.alive = false;
    gone.damage = Some(Damage(5));
    let gone = ecs.push(gone);
    let mut bare = at(9, 9);
    bare.enemy = Some(Enemy);
    let bare = ecs.push(bare);
    let mut commands = CommandBuffer::new();
    ecs.attacks.push(WantsToAttack { attacker: stunned, victim });
    ecs.attacks.push(WantsToAttack { attacker: gone, victim });
    ecs.attacks.push(WantsToAttack { attacker: victim, victim: gone });
    ecs.attacks.push(WantsToAttack { attacker: Entity(99), victim });
    ecs.attacks.push(WantsToAttack { attacker: victim, victim: Entity(99) });
    ecs.attacks.push(WantsToAttack { attacker: victim, victim: bare });
    combat(&mut ecs, &mut commands);
    assert_eq!(ecs.entities[victim.0].health, Some(Health { current: 6, max: 6 }));
    assert_eq!(ecs.entities[gone.0].health, Some(Health { current: 6, max: 6 }));
    assert_eq!(ecs.entities[bare.0].health, None);
    assert!(commands.commands.is_empty());
    assert!(ecs.attacks.is_empty());
}

#[test]
fn strikes_add_up_before_the_flush() {
    let mut ecs = World::new();
    let mut a = enemy_at(5, 5, 10);
    a.damage = Some(Damage(4));
    let a = ecs.push(a);
    let victim = ecs.push(enemy_at(4, 5, 6));
    let mut commands = CommandBuffer::new();
    ecs.attacks.push(WantsToAttack { attacker: a, victim });
    ecs.attacks.push(WantsToAttack { attacker: a, victim });
    ecs.attacks.push(WantsToAttack { attacker: victim, victim: a });
    combat(&mut ecs, &mut commands);
    assert_eq!(ecs.entities[victim.0].health, Some(Health { current: -2, max: 6 }));
    assert_eq!(ecs.entities[a.0].health, Some(Health { current: 10, max: 10 }));
    assert_eq!(commands.commands.len(), 1);
}

#[test]
fn damage_stays_within_the_numbers() {
    let mut ecs = World::new();
    let mut a = enemy_at(5, 5, 10);
    a.damage = Some(Damage(i32::MAX));
    let a = ecs.push(a);
    let mut club = carried_item(a);
    club.damage = Some(Damage(i32::MAX));
    ecs.push(club);
    let mut victim = enemy_at(4, 5, 6);
    victim.health = Some(Health { current: i32::MIN + 5, max: 6 });
    let victim = ecs.push(victim);
    assert_eq!(total_damage(&ecs, a), i32::MAX);
    let mut commands = CommandBuffer::new();
    resolve_attack(&mut ecs, &mut commands, WantsToAttack { attacker: a, victim });
    assert_eq!(ecs.entities[victim.0].health, Some(Health { current: i32::MIN, max: 6 }));
}

#[test]
fn changes_are_applied_in_the_order_in_which_they_were_queued() {
    let mut ecs = World::new();
    let e = ecs.push(at(1, 1));
    let other = ecs.push(at(2, 2));
    let mut commands = CommandBuffer::new();
    commands.push(Command::SetPosition(e, Point::new(3, 3)));
    commands.push(Command::SetPosition(e, Point::new(4, 4)));
    commands.push(Command::SetStunned(e, Stunned(6)));
    commands.push(Command::SetCarried(other, Carried(e)));
    commands.push(Command::RemovePosition(other));
    commands.push(Command::Remove(e));
    commands.push(Command::SetPosition(e, Point::new(9, 9)));
    commands.push(Command::SetPosition(Entity(17), Point::new(9, 9)));
    commands.push(Command::Move(WantsToMove { entity: e, destination: Point::new(0, 0) }));
    commands.push(Command::Attack(WantsToAttack { attacker: e, victim: other }));
    commands.push(Command::Activate(ActivateItem { used_by: e, item: other }));
    EventLog::log(&mut commands, "hello".to_string());
    assert_eq!(ecs.entities[e.0].position, Some(Point::new(1, 1)));
    ecs.flush(&mut commands);
    assert!(commands.commands.is_empty());
    assert!(!ecs.entities[e.0].alive);
    assert_eq!(ecs.entities[e.0].position, Some(Point::new(4, 4)));
    assert_eq!(ecs.entities[e.0].stunned, Some(Stunned(6)));
    assert_eq!(ecs.entities[other.0].position, None);
    assert_eq!(ecs.entities[other.0].carried, Some(Carried(e)));
    assert_eq!(ecs.entities.len(), 2);
    assert_eq!(ecs.moves.len(), 1);
    assert_eq!(ecs.attacks.len(), 1);
    assert_eq!(ecs.activations.len(), 1);
    assert_eq!(ecs.logs.len(), 1);
    assert_eq!(ecs.logs[0].log_entry.message, "hello");
}

#[test]
fn sight_and_stun_come_and_go_with_the_flush() {
    let mut ecs = World::new();
    let mut seer = at(1, 1);
    seer.field_of_view = Some(FieldOfView {
        visible_tiles: vec![Point::new(1, 1), Point::new(2, 1)],
        radius: 5,
        is_dirty: false,
    });
    seer.stunned = Some(Stunned(1));
    let seer = ecs.push(seer);
    let blind = ecs.push(at(2, 2));
    let mut commands = CommandBuffer::new();
    commands.push(Command::MarkFieldOfViewDirty(seer));
    commands.push(Command::MarkFieldOfViewDirty(blind));
    commands.push(Command::RemoveStunned(seer));
    ecs.flush(&mut commands);
    let sight = ecs.entities[seer.0].field_of_view.as_ref().unwrap();
    assert_eq!((sight.radius, sight.is_dirty, sight.visible_tiles.len()), (5, true, 0));
    assert!(ecs.entities[blind.0].field_of_view.is_none());
    assert_eq!(ecs.entities[seer.0].stunned, None);
}

#[test]
fn moves_are_carried_out_at_the_flush() {
    let mut ecs = World::new();
    let mut player = player_at(5, 5);
    player.field_of_view = Some(sees(vec![Point::new(5, 5), Point::new(6, 5), Point::new(-1, 0)]));
    let player = ecs.push(player);
    let mut stunned = enemy_at(9, 9, 3);
    stunned.stunned = Some(Stunned(3));
    stunned.field_of_view = Some(sees(vec![Point::new(9, 9)]));
    let stunned = ecs.push(stunned);
    let blind = ecs.push(enemy_at(20, 20, 3));
    let mut gone = enemy_at(30, 30, 3);
    gone.alive = false;
    let gone = ecs.push(gone);
    let mut map = Grid::new();
    map.tiles[map_idx(21, 20)] = TileType::Wall;
    map.tiles[map_idx(4, 5)] = TileType::Floor2;
    let mut camera = Camera::new(Point::new(5, 5));
    let mut commands = CommandBuffer::new();
    ecs.moves.push(WantsToMove { entity: player, destination: Point::new(4, 5) });
    ecs.moves.push(WantsToMove { entity: stunned, destination: Point::new(9, 8) });
    ecs.moves.push(WantsToMove { entity: blind, destination: Point::new(21, 20) });
    ecs.moves.push(WantsToMove { entity: blind, destination: Point::new(20, 50) });
    ecs.moves.push(WantsToMove { entity: gone, destination: Point::new(30, 31) });
    ecs.moves.push(WantsToMove { entity: blind, destination: Point::new(20, 21) });
    movement(&mut ecs, &mut map, &mut camera, &mut commands);
    assert!(ecs.moves.is_empty());
    assert_eq!(camera, Camera::new(Point::new(4, 5)));
    let revealed: Vec<usize> = (0..NUM_TILES).filter(|i| map.revealed_tiles[*i]).collect();
    assert_eq!(revealed, vec![map_idx(5, 5), map_idx(6, 5)]);
    assert_eq!(commands.commands.len(), 4);
    assert!(matches!(commands.commands[0], Command::MarkFieldOfViewDirty(e) if e == player));
    assert!(matches!(commands.commands[1], Command::SetPosition(e, p) if e == player && p == Point::new(4, 5)));
    assert!(matches!(commands.commands[2], Command::MarkFieldOfViewDirty(e) if e == stunned));
    assert!(matches!(commands.commands[3], Command::SetPosition(e, p) if e == blind && p == Point::new(20, 21)));
    assert_eq!(ecs.entities[player.0].position, Some(Point::new(5, 5)));
    ecs.flush(&mut commands);
    assert_eq!(ecs.entities[player.0].position, Some(Point::new(4, 5)));
    assert_eq!(ecs.entities[stunned.0].position, Some(Point::new(9, 9)));
    assert_eq!(ecs.entities[blind.0].position, Some(Point::new(20, 21)));
    assert!(ecs.entities[player.0].field_of_view.as_ref().unwrap().is_dirty);
    assert!(ecs.entities[stunned.0].field_of_view.as_ref().unwrap().is_dirty);
}

#[test]
fn revealing_skips_what_lies_off_the_grid() {
    let mut map = Grid::new();
    reveal_all(&mut map, &vec![Point::new(0, 0), Point::new(80, 0), Point::new(1, 1)]);
    let revealed: Vec<usize> = (0..NUM_TILES).filter(|i| map.revealed_tiles[*i]).collect();
    assert_eq!(revealed, vec![0, 81]);
    reveal_everything(&mut map);
    assert!(map.revealed_tiles.iter().all(|r| *r));
}

#[test]
fn enemies_under_the_player_are_crushed() {
    let mut ecs = World::new();
    ecs.push(enemy_at(5, 5, 3));
    ecs.push(player_at(5, 5));
    ecs.push(enemy_at(5, 6, 3));
    ecs.push(item_at(5, 5));
    let under = ecs.push(enemy_at(5, 5, 3));
    let mut commands = CommandBuffer::new();
    collisions(&ecs, &mut commands);
    assert_eq!(commands.commands.len(), 2);
    assert!(matches!(commands.commands[0], Command::Remove(e) if e == Entity(0)));
    assert!(matches!(commands.commands[1], Command::Remove(e) if e == under));
    let mut lonely = World::new();
    lonely.push(enemy_at(0, 0, 3));
    lonely.push(enemy_at(1, 0, 3));
    let mut commands = CommandBuffer::new();
    collisions(&lonely, &mut commands);
    assert_eq!(commands.commands.len(), 1);
    assert!(matches!(commands.commands[0], Command::Remove(e) if e == Entity(0)));
}

#[test]
fn the_log_keeps_the_newest_lines() {
    let mut log = EventLog::new();
    let mut ecs = World::new();
    for i in 0..8 {
        ecs.logs.push(WantsToLog {
            log_entry: LogEntry {
                message: format!("line {}", i),
                color: ColorPair::new(Color { r: 255, g: 255, b: 0 }, Color::black()),
            },
        });
    }
    event(&mut ecs, &mut log);
    assert!(ecs.logs.is_empty());
    assert_eq!(log.messages.len(), MAX_LOG_LENGTH);
    let lines: Vec<String> = log.messages.iter().map(|m| m.message.clone()).collect();
    assert_eq!(lines, vec!["line 7", "line 6", "line 5", "line 4", "line 3", "line 2"]);
    assert_eq!(log.messages[0].color.fg, Color { r: 255, g: 255, b: 0 });
    log.record(LogEntry { message: "last".to_string(), color: ColorPair::new(Color::white(), Color::black()) });
    assert_eq!(log.messages.len(), 6);
    assert_eq!(log.messages[0].message, "last");
    assert_eq!(log.messages[5].message, "line 3");
}

#[test]
fn healing_stops_at_full_health() {
    let mut ecs = World::new();
    let mut player = player_at(5, 5);
    player.health = Some(Health { current: 4, max: 10 });
    let player = ecs.push(player);
    let mut small = carried_item(player);
    small.provides_healing = Some(ProvidesHealing { amount: 3 });
    let small = ecs.push(small);
    let mut large = carried_item(player);
    large.provides_healing = Some(ProvidesHealing { amount: 30 });
    let large = ecs.push(large);
    let mut map = Grid::new();
    let mut commands = CommandBuffer::new();
    ecs.activations.push(ActivateItem { used_by: player, item: small });
    use_items(&mut ecs, &mut commands, &mut map);
    assert_eq!(ecs.entities[player.0].health, Some(Health { current: 7, max: 10 }));
    assert!(ecs.activations.is_empty());
    assert_eq!(commands.commands.len(), 1);
    assert!(matches!(commands.commands[0], Command::Remove(e) if e == small));
    assert!(map.revealed_tiles.iter().all(|r| !*r));
    ecs.flush(&mut commands);
    assert!(!ecs.contains(small));
    ecs.activations.push(ActivateItem { used_by: player, item: small });
    ecs.activations.push(ActivateItem { used_by: player, item: large });
    use_items(&mut ecs, &mut commands, &mut map);
    assert_eq!(ecs.entities[player.0].health, Some(Health { current: 10, max: 10 }));
    assert_eq!(commands.commands.len(), 2);
}

#[test]
fn a_map_reveals_the_grid() {
    let mut ecs = World::new();
    let player = ecs.push(player_at(5, 5));
    let mut scroll = carried_item(player);
    scroll.provides_dungeon_map = Some(ProvidesDungeonMap);
    let scroll = ecs.push(scroll);
    let mut map = Grid::new();
    map.tiles[3] = TileType::Wall;
    let mut commands = CommandBuffer::new();
    ecs.activations.push(ActivateItem { used_by: player, item: scroll });
    use_items(&mut ecs, &mut commands, &mut map);
    assert!(map.revealed_tiles.iter().all(|r| *r));
    assert_eq!(map.tiles[3], TileType::Wall);
    assert_eq!(ecs.entities[player.0].health, Some(Health { current: 10, max: 10 }));
}

#[test]
fn a_stomp_stuns_the_enemies_next_to_the_user() {
    let mut ecs = World::new();
    let player = ecs.push(player_at(5, 5));
    let mut stomp = carried_item(player);
    stomp.provides_stun = Some(ProvidesStun);
    let stomp = ecs.push(stomp);
    let east = ecs.push(enemy_at(6, 5, 3));
    let _far = ecs.push(enemy_at(7, 5, 3));
    let _slant = ecs.push(enemy_at(6, 6, 3));
    let north = ecs.push(enemy_at(5, 4, 3));
    let _same = ecs.push(enemy_at(5, 5, 3));
    let _thing = ecs.push(item_at(4, 5));
    let west = ecs.push(enemy_at(4, 5, 3));
    let south = ecs.push(enemy_at(5, 6, 3));
    let mut map = Grid::new();
    let mut commands = CommandBuffer::new();
    ecs.activations.push(ActivateItem { used_by: player, item: stomp });
    use_items(&mut ecs, &mut commands, &mut map);
    assert_eq!(commands.commands.len(), 5);
    for (i, e) in [east, north, west, south].iter().enumerate() {
        assert!(matches!(commands.commands[i], Command::SetStunned(x, Stunned(6)) if x == *e));
    }
    assert!(matches!(commands.commands[4], Command::Remove(e) if e == stomp));
    ecs.flush(&mut commands);
    assert_eq!(ecs.entities[east.0].stunned, Some(Stunned(6)));
    assert_eq!(ecs.entities[_far.0].stunned, None);
}

#[test]
fn stuns_wear_off() {
    let mut ecs = World::new();
    let mut a = enemy_at(1, 1, 3);
    a.stunned = Some(Stunned(2));
    let a = ecs.push(a);
    let mut b = enemy_at(2, 2, 3);
    b.stunned = Some(Stunned(1));
    let b = ecs.push(b);
    let c = ecs.push(enemy_at(3, 3, 3));
    let mut d = enemy_at(4, 4, 3);
    d.stunned = Some(Stunned(i32::MIN));
    let d = ecs.push(d);
    let mut commands = CommandBuffer::new();
    use_effect::use_items(&mut ecs, &mut commands);
    assert_eq!(ecs.entities[a.0].stunned, Some(Stunned(1)));
    assert_eq!(ecs.entities[b.0].stunned, Some(Stunned(0)));
    assert_eq!(ecs.entities[c.0].stunned, None);
    assert_eq!(ecs.entities[d.0].stunned, Some(Stunned(i32::MIN)));
    assert_eq!(commands.commands.len(), 2);
    assert!(matches!(commands.commands[0], Command::RemoveStunned(e) if e == b));
    assert!(matches!(commands.commands[1], Command::RemoveStunned(e) if e == d));
    ecs.flush(&mut commands);
    assert_eq!(ecs.entities[a.0].stunned, Some(Stunned(1)));
    assert_eq!(ecs.entities[b.0].stunned, None);
}

#[test]
fn a_monsters_step_strikes_the_player_and_stops_at_others() {
    let mut ecs = World::new();
    let player = ecs.push(player_at(5, 5));
    let monster = ecs.push(enemy_at(6, 5, 3));
    let other = ecs.push(enemy_at(7, 5, 3));
    ecs.push(item_at(6, 6));
    let mut commands = CommandBuffer::new();
    bump(&ecs, &mut commands, monster, Point::new(5, 5));
    assert_eq!(commands.commands.len(), 1);
    assert!(is_attack(&commands.commands[0], monster, player));
    let mut commands = CommandBuffer::new();
    bump(&ecs, &mut commands, monster, Point::new(7, 5));
    assert!(commands.commands.is_empty());
    let mut commands = CommandBuffer::new();
    bump(&ecs, &mut commands, monster, Point::new(6, 6));
    assert_eq!(commands.commands.len(), 1);
    assert!(is_move(&commands.commands[0], monster, Point::new(6, 6)));
    let mut commands = CommandBuffer::new();
    bump(&ecs, &mut commands, other, Point::new(8, 5));
    assert!(is_move(&commands.commands[0], other, Point::new(8, 5)));
}

#[test]
fn a_roll_picks_the_direction_of_a_wanderer() {
    let mut ecs = World::new();
    let mut wanderer = enemy_at(5, 5, 3);
    wanderer.moving_randomly = Some(MovingRandomly);
    let wanderer = ecs.push(wanderer);
    ecs.push(enemy_at(9, 9, 3));
    for (roll, x, y) in [(0, 4, 5), (1, 6, 5), (2, 5, 4), (3, 5, 6)] {
        let mut commands = CommandBuffer::new();
        wander(&ecs, &mut commands, wanderer.0, roll);
        assert_eq!(commands.commands.len(), 1);
        assert!(is_move(&commands.commands[0], wanderer, Point::new(x, y)));
    }
    let mut commands = CommandBuffer::new();
    wander(&ecs, &mut commands, 1, 0);
    assert!(commands.commands.is_empty());
    ecs.entities[0].position = Some(Point::new(i32::MIN, 0));
    wander(&ecs, &mut commands, 0, 0);
    assert!(commands.commands.is_empty());
}

#[test]
fn every_wanderer_takes_one_step() {
    let mut rng = RandomNumberGenerator::seeded(5);
    let mut ecs = World::new();
    let mut a = enemy_at(5, 5, 3);
    a.moving_randomly = Some(MovingRandomly);
    let a = ecs.push(a);
    ecs.push(enemy_at(20, 20, 3));
    let mut b = enemy_at(30, 30, 3);
    b.moving_randomly = Some(MovingRandomly);
    let b = ecs.push(b);
    let mut gone = enemy_at(40, 40, 3);
    gone.moving_randomly = Some(MovingRandomly);
    gone.alive = false;
    ecs.push(gone);
    let mut directions = [false; 4];
    for _ in 0..40 {
        let mut commands = CommandBuffer::new();
        random_move(&ecs, &mut commands, &mut rng);
        assert_eq!(commands.commands.len(), 2);
        for (command, mover, x, y) in [(&commands.commands[0], a, 5, 5), (&commands.commands[1], b, 30, 30)] {
            let steps = [Point::new(x - 1, y), Point::new(x + 1, y), Point::new(x, y - 1), Point::new(x, y + 1)];
            let which = steps.iter().position(|p| is_move(command, mover, *p));
            assert!(which.is_some());
            directions[which.unwrap()] = true;
        }
    }
    assert_eq!(directions, [true; 4]);
}

#[test]
fn a_hunter_that_sees_the_player_closes_in() {
    let mut map = Grid::new();
    for t in map.tiles.iter_mut() {
        *t = TileType::Wall;
    }
    for x in 1..=12 {
        map.tiles[map_idx(x, 5)] = TileType::Floor;
    }
    let mut ecs = World::new();
    let player = ecs.push(player_at(5, 5));
    let mut near = enemy_at(8, 5, 3);
    near.chasing_player = Some(ChasingPlayer);
    near.field_of_view = Some(sees(vec![Point::new(5, 5)]));
    let near = ecs.push(near);
    let mut blind = enemy_at(2, 5, 3);
    blind.chasing_player = Some(ChasingPlayer);
    blind.field_of_view = Some(sees(vec![Point::new(3, 5)]));
    ecs.push(blind);
    let mut next = enemy_at(4, 5, 3);
    next.chasing_player = Some(ChasingPlayer);
    next.field_of_view = Some(sees(vec![Point::new(5, 5)]));
    let next = ecs.push(next);
    let mut behind = enemy_at(9, 5, 3);
    behind.chasing_player = Some(ChasingPlayer);
    behind.field_of_view = Some(sees(vec![Point::new(5, 5)]));
    ecs.push(behind);
    let mut idle = enemy_at(11, 5, 3);
    idle.field_of_view = Some(sees(vec![Point::new(5, 5)]));
    ecs.push(idle);
    let mut commands = CommandBuffer::new();
    chasing(&map, &mut ecs, &mut commands);
    assert_eq!(commands.commands.len(), 2);
    assert!(is_move(&commands.commands[0], near, Point::new(7, 5)));
    assert!(is_attack(&commands.commands[1], next, player));
}

#[test]
fn a_hunter_rests_every_other_turn() {
    let map = Grid::new();
    let mut ecs = World::new();
    ecs.push(player_at(5, 5));
    let mut slow = enemy_at(8, 5, 3);
    slow.chasing_player = Some(ChasingPlayer);
    slow.field_of_view = Some(sees(vec![Point::new(5, 5)]));
    slow.move_every_other = Some(MoveEveryOther(false));
    let slow = ecs.push(slow);
    let mut commands = CommandBuffer::new();
    chasing(&map, &mut ecs, &mut commands);
    assert_eq!(ecs.entities[slow.0].move_every_other, Some(MoveEveryOther(true)));
    assert!(commands.commands.is_empty());
    chasing(&map, &mut ecs, &mut commands);
    assert_eq!(ecs.entities[slow.0].move_every_other, Some(MoveEveryOther(false)));
    assert_eq!(commands.commands.len(), 1);
    assert!(is_move(&commands.commands[0], slow, Point::new(7, 5)));
    flip_rests(&mut ecs);
    assert_eq!(ecs.entities[slow.0].move_every_other, Some(MoveEveryOther(true)));
    assert_eq!(ecs.entities[0].move_every_other, None);
}

#[test]
fn no_hunt_without_a_player() {
    let map = Grid::new();
    let mut ecs = World::new();
    let mut hunter = enemy_at(8, 5, 3);
    hunter.chasing_player = Some(ChasingPlayer);
    hunter.field_of_view = Some(sees(vec![Point::new(5, 5)]));
    hunter.move_every_other = Some(MoveEveryOther(true));
    ecs.push(hunter);
    let mut commands = CommandBuffer::new();
    chasing(&map, &mut ecs, &mut commands);
    assert!(commands.commands.is_empty());
    assert_eq!(ecs.entities[0].move_every_other, Some(MoveEveryOther(false)));
}

#[test]
fn sight_is_computed_where_it_is_due() {
    let mut map = Grid::new();
    map.tiles[map_idx(7, 5)] = TileType::Wall;
    let mut ecs = World::new();
    let mut player = player_at(5, 5);
    player.field_of_view = Some(FieldOfView::new(3));
    ecs.push(player);
    let mut settled = enemy_at(20, 20, 3);
    settled.field_of_view = Some(sees(vec![Point::new(1, 1)]));
    ecs.push(settled);
    let mut nowhere = EntityRecord::new();
    nowhere.field_of_view = Some(FieldOfView::new(3));
    ecs.push(nowhere);
    let mut gone = enemy_at(30, 30, 3);
    gone.field_of_view = Some(FieldOfView::new(3));
    gone.alive = false;
    ecs.push(gone);
    fov(&mut ecs, &map);
    let sight = ecs.entities[0].field_of_view.as_ref().unwrap();
    assert!(!sight.is_dirty);
    assert_eq!(sight.radius, 3);
    assert_eq!(sight.visible_tiles.len(), 28);
    assert!(sight.visible_tiles.contains(&Point::new(7, 5)));
    assert!(!sight.visible_tiles.contains(&Point::new(8, 5)));
    assert!(sight.visible_tiles.contains(&Point::new(5, 5)));
    assert_eq!(ecs.entities[1].field_of_view.as_ref().unwrap().visible_tiles, vec![Point::new(1, 1)]);
    assert!(ecs.entities[2].field_of_view.as_ref().unwrap().is_dirty);
    assert!(ecs.entities[3].field_of_view.as_ref().unwrap().is_dirty);
}

#[test]
fn picking_up_takes_what_lies_under_the_player() {
    let mut ecs = World::new();
    let player = ecs.push(player_at(5, 5));
    let mut old_sword = carried_item(player);
    old_sword.weapon = Some(Weapon);
    let old_sword = ecs.push(old_sword);
    let potion = ecs.push(item_at(5, 5));
    ecs.push(item_at(6, 5));
    let mut new_sword = item_at(5, 5);
    new_sword.weapon = Some(Weapon);
    let new_sword = ecs.push(new_sword);
    ecs.push(enemy_at(5, 5, 3));
    let map = Grid::new();
    let mut commands = CommandBuffer::new();
    let mut state = TurnState::AwaitingInput;
    player_input(&ecs, &mut commands, &Some(PlayerInput::PickUp), &map, &mut state);
    assert_eq!(state, TurnState::AwaitingInput);
    assert_eq!(commands.commands.len(), 5);
    assert!(matches!(commands.commands[0], Command::RemovePosition(e) if e == potion));
    assert!(matches!(commands.commands[1], Command::SetCarried(e, Carried(c)) if e == potion && c == player));
    assert!(matches!(commands.commands[2], Command::Remove(e) if e == old_sword));
    assert!(matches!(commands.commands[3], Command::RemovePosition(e) if e == new_sword));
    assert!(matches!(commands.commands[4], Command::SetCarried(e, Carried(c)) if e == new_sword && c == player));
    ecs.flush(&mut commands);
    assert_eq!(carried_count(&ecs, player), 2);
    assert_eq!(ecs.entities[potion.0].position, None);
    assert!(!ecs.contains(old_sword));
    assert_eq!(pack_slot(&ecs, player, 0), Some(potion));
    assert_eq!(pack_slot(&ecs, player, 1), Some(new_sword));
    assert_eq!(pack_slot(&ecs, player, 2), None);
}

#[test]
fn a_full_pack_takes_no_more() {
    let mut ecs = World::new();
    let player = ecs.push(player_at(5, 5));
    for _ in 0..10 {
        ecs.push(carried_item(player));
    }
    ecs.push(item_at(5, 5));
    let map = Grid::new();
    let mut commands = CommandBuffer::new();
    let mut state = TurnState::AwaitingInput;
    assert_eq!(carried_count(&ecs, player), 10);
    player_input(&ecs, &mut commands, &Some(PlayerInput::PickUp), &map, &mut state);
    assert_eq!(commands.commands.len(), 2);
    ecs.push(carried_item(player));
    let mut commands = CommandBuffer::new();
    player_input(&ecs, &mut commands, &Some(PlayerInput::PickUp), &map, &mut state);
    assert!(commands.commands.is_empty());
}

#[test]
fn items_are_used_by_their_slot() {
    let mut ecs = World::new();
    let player = ecs.push(player_at(5, 5));
    let first = ecs.push(carried_item(player));
    ecs.push(carried_item(Entity(77)));
    let mut sword = carried_item(player);
    sword.weapon = Some(Weapon);
    ecs.push(sword);
    let third = ecs.push(carried_item(player));
    let map = Grid::new();
    for (slot, used) in [(0usize, Some(first)), (1, None), (2, Some(third)), (3, None), (usize::MAX, None)] {
        let mut commands = CommandBuffer::new();
        let mut state = TurnState::AwaitingInput;
        player_input(&ecs, &mut commands, &Some(PlayerInput::UseItem(slot)), &map, &mut state);
        assert_eq!(state, TurnState::AwaitingInput);
        match used {
            Some(item) => {
                assert_eq!(commands.commands.len(), 1);
                assert!(matches!(&commands.commands[0], Command::Activate(a) if *a == ActivateItem { used_by: player, item }));
            }
            None => assert!(commands.commands.is_empty()),
        }
        let mut again = CommandBuffer::new();
        use_item(slot, &ecs, &mut again);
        assert_eq!(again.commands.len(), commands.commands.len());
    }
}

#[test]
fn nothing_happens_without_a_player() {
    let mut ecs = World::new();
    ecs.push(enemy_at(4, 5, 3));
    let mut ghost = player_at(5, 5);
    ghost.alive = false;
    ecs.push(ghost);
    let map = Grid::new();
    for input in [left(), Some(PlayerInput::PickUp), Some(PlayerInput::UseItem(0))] {
        let mut commands = CommandBuffer::new();
        let mut state = TurnState::AwaitingInput;
        player_input(&ecs, &mut commands, &input, &map, &mut state);
        assert_eq!(state, TurnState::AwaitingInput);
        assert!(commands.commands.is_empty());
    }
    assert_eq!(ecs.player(), None);
}

#[test]
fn the_phases_run_their_steps_in_order() {
    assert_eq!(
        build_input_scheduler().steps,
        vec![SystemStep::PlayerInput, SystemStep::Fov, SystemStep::Flush]
    );
    assert_eq!(
        build_player_scheduler().steps,
        vec![
            SystemStep::UseItems,
            SystemStep::Combat,
            SystemStep::Flush,
            SystemStep::Movement,
            SystemStep::Flush,
            SystemStep::Collisions,
            SystemStep::Flush,
            SystemStep::Fov,
            SystemStep::Flush,
            SystemStep::Event,
            SystemStep::EndTurn,
        ]
    );
    assert_eq!(
        build_monster_scheduler().steps,
        vec![
            SystemStep::UseEffect,
            SystemStep::RandomMove,
            SystemStep::Chasing,
            SystemStep::Flush,
            SystemStep::UseItems,
            SystemStep::Combat,
            SystemStep::Flush,
            SystemStep::Movement,
            SystemStep::Flush,
            SystemStep::Fov,
            SystemStep::Flush,
            SystemStep::Event,
            SystemStep::EndTurn,
        ]
    );
}

#[test]
fn a_fight_runs_through_the_phases() {
    let mut ecs = World::new();
    let mut player = player_at(5, 5);
    player.damage = Some(Damage(5));
    let player = ecs.push(player);
    let mut sword = carried_item(player);
    sword.damage = Some(Damage(3));
    sword.weapon = Some(Weapon);
    ecs.push(sword);
    let goblin = ecs.push(enemy_at(4, 5, 6));
    let mut res = resources(Grid::new());
    let mut rng = RandomNumberGenerator::seeded(1);
    build_input_scheduler().execute(&mut ecs, &mut res, &left(), &mut rng);
    assert_eq!(res.turn_state, TurnState::PlayerTurn);
    assert_eq!(ecs.attacks, vec![WantsToAttack { attacker: player, victim: goblin }]);
    build_player_scheduler().execute(&mut ecs, &mut res, &None, &mut rng);
    assert_eq!(ecs.entities[goblin.0].health, Some(Health { current: -2, max: 6 }));
    assert!(!ecs.contains(goblin));
    assert_eq!(ecs.entities[player.0].position, Some(Point::new(5, 5)));
    assert_eq!(res.turn_state, TurnState::MonsterTurn);
    assert_eq!(res.event_log.messages.len(), 1);
    assert_eq!(res.event_log.messages[0].message, "Player attacked Goblin for 8 damage");
    assert!(ecs.attacks.is_empty() && ecs.logs.is_empty());
}

#[test]
fn the_player_and_what_it_sees_are_drawn() {
    let mut ecs = World::new();
    let mut player = player_at(5, 5);
    player.render = Some(Render { color: ColorPair::new(Color::white(), Color::black()), glyph: 64 });
    player.field_of_view = Some(sees(vec![Point::new(5, 5), Point::new(6, 5), Point::new(7, 5)]));
    ecs.push(player);
    let mut goblin = enemy_at(6, 5, 3);
    goblin.render = Some(Render { color: ColorPair::new(Color::white(), Color::black()), glyph: 103 });
    ecs.push(goblin);
    let mut hidden = enemy_at(9, 5, 3);
    hidden.render = Some(Render { color: ColorPair::new(Color::white(), Color::black()), glyph: 111 });
    ecs.push(hidden);
    let mut potion = item_at(7, 5);
    potion.render = Some(Render { color: ColorPair::new(Color::white(), Color::black()), glyph: 33 });
    ecs.push(potion);
    let mut carried = carried_item(Entity(0));
    carried.render = Some(Render { color: ColorPair::new(Color::white(), Color::black()), glyph: 47 });
    ecs.push(carried);
    let camera = Camera::new(Point::new(5, 5));
    let drawn = entity_render(&ecs, &camera);
    let seen: Vec<(i64, i64, u16, bool)> =
        drawn.iter().map(|d| (d.x, d.y, d.render.glyph, d.actor)).collect();
    assert_eq!(seen, vec![(22, 12, 33, false), (20, 12, 64, true), (21, 12, 103, true)]);
    let mut blind = World::new();
    blind.push(enemy_at(6, 5, 3));
    assert!(entity_render(&blind, &camera).is_empty());
}

#[test]
fn the_status_shows_the_player_and_the_pack() {
    let mut ecs = World::new();
    assert!(hud(&ecs).is_none());
    ecs.push(enemy_at(1, 1, 3));
    let mut player = player_at(5, 5);
    player.player = Some(Player { map_level: 3, wait_count: 7 });
    let player = ecs.push(player);
    let mut potion = carried_item(player);
    potion.name = Some(Name("Potion".to_string()));
    let potion = ecs.push(potion);
    ecs.push(carried_item(player));
    let mut stray = carried_item(Entity(0));
    stray.name = Some(Name("Stray".to_string()));
    ecs.push(stray);
    let mut map = carried_item(player);
    map.name = Some(Name("Map".to_string()));
    let map = ecs.push(map);
    let shown = hud(&ecs).unwrap();
    assert_eq!(shown.health, Some(Health { current: 10, max: 10 }));
    assert_eq!(shown.map_level, 3);
    assert_eq!(shown.wait_count, 7);
    assert_eq!(shown.inventory, vec![potion, map]);
}

#[test]
fn the_mouse_points_at_what_the_player_sees() {
    let mut ecs = World::new();
    let camera = Camera::new(Point::new(5, 5));
    let mut player = player_at(5, 5);
    player.field_of_view = Some(sees(vec![Point::new(5, 5), Point::new(6, 5)]));
    ecs.push(player);
    let goblin = ecs.push(enemy_at(6, 5, 3));
    let mut nameless = enemy_at(6, 5, 3);
    nameless.name = None;
    ecs.push(nameless);
    ecs.push(enemy_at(7, 5, 3));
    let mut gone = enemy_at(6, 5, 3);
    gone.alive = false;
    ecs.push(gone);
    let also = ecs.push(enemy_at(6, 5, 1));
    assert_eq!(tooltips(&ecs, &Point::new(21, 12), &camera), vec![goblin, also]);
    assert!(tooltips(&ecs, &Point::new(22, 12), &camera).is_empty());
    assert!(tooltips(&ecs, &Point::new(20, 12), &camera).is_empty());
    assert!(tooltips(&ecs, &Point::new(i32::MAX, i32::MAX), &camera).is_empty());
    let mut blind = World::new();
    blind.push(enemy_at(6, 5, 3));
    assert!(tooltips(&blind, &Point::new(21, 12), &camera).is_empty());
}
