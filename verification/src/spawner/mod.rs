//! Spawning: the player, the crystal, and what the catalogue holds for a
//! level.

use vstd::prelude::*;
use bracket_lib::prelude::RandomNumberGenerator;
use crate::components::{
    spec_cp437, spec_unseen, spec_white_on_black, to_cp437, ChasingPlayer, Color, ColorPair, Damage, Enemy, Entity,
    FieldOfView, Health, Item, Name, Player, Render, TelerportationCrystal,
};
use crate::geometry::Point;
use crate::random;
use crate::spawner::template::{spec_pickable, spec_spawn_all, Templates};
use crate::world::{spec_bare, EntityRecord, EntityView, World, WorldView};

pub mod template;

verus! {

/// How far the player sees.
pub const PLAYER_SIGHT: i32 = 8;

/// The player as spawned at `pos`.
pub open spec fn spec_new_player(pos: Point) -> EntityView {
    EntityView {
        player: Some(Player { map_level: 0, wait_count: 8 }),
        position: Some(pos),
        render: Some(Render { color: spec_white_on_black(), glyph: spec_cp437('@') }),
        health: Some(Health { current: 1000, max: 1000 }),
        field_of_view: Some(spec_unseen(PLAYER_SIGHT)),
        damage: Some(Damage(100)),
        ..spec_bare()
    }
}

/// The crystal as spawned at `pos`.
pub open spec fn spec_new_crystal(pos: Point) -> EntityView {
    EntityView {
        item: Some(Item),
        teleportation_crystal: Some(TelerportationCrystal),
        position: Some(pos),
        render: Some(Render { color: spec_white_on_black(), glyph: spec_cp437('l') }),
        name: Some("Teleportation Crystal"@),
        ..spec_bare()
    }
}

/// The monster that a roll of a ten-sided die spawns at `pos`: a goblin up
/// to eight, an orc above.
pub open spec fn spec_new_monster(roll: int, pos: Point) -> EntityView {
    let goblin = 1 <= roll <= 8;
    let hp: i32 = if goblin {
        1
    } else {
        2
    };
    EntityView {
        enemy: Some(Enemy),
        position: Some(pos),
        render: Some(
            Render {
                color: spec_white_on_black(),
                glyph: spec_cp437(
                    if goblin {
                        'g'
                    } else {
                        'o'
                    },
                ),
            },
        ),
        chasing_player: Some(ChasingPlayer),
        health: Some(Health { current: hp, max: hp }),
        name: Some(
            if goblin {
                "Goblin"@
            } else {
                "Orc"@
            },
        ),
        field_of_view: Some(spec_unseen(6)),
        ..spec_bare()
    }
}

/// Fills a level from the catalogue.
pub fn spawn_level(
    ecs: &mut World,
    rng: &mut RandomNumberGenerator,
    level: usize,
    spawn_points: &Vec<Point>,
    guaranteed_monster_spawn_points: &Vec<Point>,
    template: &Templates,
)
    requires
        template.wf(),
        old(ecs).entities@.len() + spawn_points@.len() + guaranteed_monster_spawn_points@.len()
            < usize::MAX,
    ensures
        exists|picks: Seq<Option<int>>|
            {
                &&& picks.len() == spawn_points@.len() + guaranteed_monster_spawn_points@.len()
                &&& forall|k: int|
                    0 <= k < picks.len() ==> spec_pickable(
                        template.entities@,
                        level,
                        k >= spawn_points@.len(),
                        #[trigger] picks[k],
                    )
                &&& final(ecs)@ == #[trigger] spec_spawn_all(
                    old(ecs)@,
                    template.entities@,
                    spawn_points@ + guaranteed_monster_spawn_points@,
                    picks,
                    picks.len(),
                )
            },
{
    template.spawn_entities(ecs, rng, level, spawn_points, guaranteed_monster_spawn_points);
}

/// Spawns the player at `pos`.
pub fn spawn_player(ecs: &mut World, pos: Point) -> (e: Entity)
    requires
        old(ecs).entities@.len() < usize::MAX,
    ensures
        e.0 == old(ecs)@.entities.len(),
        final(ecs)@ == (WorldView {
            entities: old(ecs)@.entities.push(spec_new_player(pos)),
            ..old(ecs)@
        }),
{
    let mut record = EntityRecord::new();
    record.player = Some(Player { map_level: 0, wait_count: 8 });
    record.position = Some(pos);
    record.render = Some(
        Render { color: ColorPair::new(Color::white(), Color::black()), glyph: to_cp437('@') },
    );
    record.health = Some(Health { current: 1000, max: 1000 });
    record.field_of_view = Some(FieldOfView::new(PLAYER_SIGHT));
    record.damage = Some(Damage(100));
    ecs.push(record)
}

/// Spawns the monster that `roll` picks at `pos`.
pub fn spawn_rolled_monster(ecs: &mut World, roll: i32, pos: Point) -> (e: Entity)
    requires
        old(ecs).entities@.len() < usize::MAX,
    ensures
        e.0 == old(ecs)@.entities.len(),
        final(ecs)@ == (WorldView {
            entities: old(ecs)@.entities.push(spec_new_monster(roll as int, pos)),
            ..old(ecs)@
        }),
{
    let goblin = 1 <= roll && roll <= 8;
    let mut record = EntityRecord::new();
    record.enemy = Some(Enemy);
    record.position = Some(pos);
    record.render = Some(
        Render {
            color: ColorPair::new(Color::white(), Color::black()),
            glyph: to_cp437(
                if goblin {
                    'g'
                } else {
                    'o'
                },
            ),
        },
    );
    record.chasing_player = Some(ChasingPlayer {  });
    let hp: i32 = if goblin {
        1
    } else {
        2
    };
    record.health = Some(Health { current: hp, max: hp });
    record.name = Some(
        Name(
            if goblin {
                "Goblin".to_owned()
            } else {
                "Orc".to_owned()
            },
        ),
    );
    record.field_of_view = Some(FieldOfView::new(6));
    ecs.push(record)
}

/// Spawns a monster at `pos`: a goblin four times in five, else an orc.
pub fn spawn_monster(ecs: &mut World, rng: &mut RandomNumberGenerator, pos: Point) -> (e: Entity)
    requires
        old(ecs).entities@.len() < usize::MAX,
    ensures
        e.0 == old(ecs)@.entities.len(),
        exists|roll: int|
            1 <= roll <= 10 && final(ecs)@ == (WorldView {
                entities: old(ecs)@.entities.push(#[trigger] spec_new_monster(roll, pos)),
                ..old(ecs)@
            }),
{
    let roll = random::roll_dice(rng, 1, 10);
    let e = spawn_rolled_monster(ecs, roll, pos);
    assert(ecs@.entities == old(ecs)@.entities.push(spec_new_monster(roll as int, pos)));
    e
}

/// Spawns the crystal at `pos`.
pub fn spawn_telerportation_crystal(ecs: &mut World, pos: Point) -> (e: Entity)
    requires
        old(ecs).entities@.len() < usize::MAX,
    ensures
        e.0 == old(ecs)@.entities.len(),
        final(ecs)@ == (WorldView {
            entities: old(ecs)@.entities.push(spec_new_crystal(pos)),
            ..old(ecs)@
        }),
{
    let mut record = EntityRecord::new();
    record.item = Some(Item);
    record.teleportation_crystal = Some(TelerportationCrystal);
    record.position = Some(pos);
    record.render = Some(
        Render { color: ColorPair::new(Color::white(), Color::black()), glyph: to_cp437('l') },
    );
    record.name = Some(Name("Teleportation Crystal".to_owned()));
    ecs.push(record)
}

} // verus!
