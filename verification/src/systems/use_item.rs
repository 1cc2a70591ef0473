//! Items in use: each intent to use an item takes effect, and the item is
//! used up.

use vstd::prelude::*;
use crate::components::{ActivateItem, Entity, Health, Stunned};
use crate::geometry::Point;
use crate::map::Grid;
use crate::systems::combat::spec_clamp;
use crate::world::{Command, CommandBuffer, CommandView, EntityView, World, WorldView};
use crate::NUM_TILES;

verus! {

/// The number of turns that a stun lasts.
pub const STUN_TURNS: i32 = 6;

/// Whether `q` is the tile next to `p` on one of the four sides.
pub open spec fn spec_adjacent(p: Point, q: Point) -> bool {
    ||| (q.x - p.x == 1 && q.y == p.y)
    ||| (q.x - p.x == -1 && q.y == p.y)
    ||| (q.x == p.x && q.y - p.y == 1)
    ||| (q.x == p.x && q.y - p.y == -1)
}

/// Whether a row holds an enemy that stands next to `p`.
pub open spec fn spec_enemy_next_to(record: EntityView, p: Point) -> bool {
    record.alive && record.enemy is Some && record.position is Some && spec_adjacent(
        p,
        record.position.unwrap(),
    )
}

/// The stuns of the enemies next to `p`, among the first `n` rows.
pub open spec fn spec_stuns(entities: Seq<EntityView>, p: Point, n: nat) -> Seq<CommandView>
    decreases n,
{
    if n == 0 {
        Seq::empty()
    } else {
        let before = spec_stuns(entities, p, (n - 1) as nat);
        if spec_enemy_next_to(entities[n - 1], p) {
            before.push(CommandView::SetStunned(Entity((n - 1) as usize), Stunned(STUN_TURNS)))
        } else {
            before
        }
    }
}

/// Whether the item of an intent is in the world.
pub open spec fn spec_item_there(w: WorldView, a: ActivateItem) -> bool {
    w.has(a.item)
}

/// Whether using the item stuns: it is a stunner, and its user stands on
/// the grid.
pub open spec fn spec_item_stuns(w: WorldView, a: ActivateItem) -> bool {
    &&& spec_item_there(w, a)
    &&& w.entities[a.item.0 as int].provides_stun is Some
    &&& w.has(a.used_by)
    &&& w.entities[a.used_by.0 as int].position is Some
}

/// Whether using the item heals: it is a healer, and its user has health.
pub open spec fn spec_item_heals(w: WorldView, a: ActivateItem) -> bool {
    &&& spec_item_there(w, a)
    &&& w.entities[a.item.0 as int].provides_healing is Some
    &&& w.has(a.used_by)
    &&& w.entities[a.used_by.0 as int].health is Some
}

/// Whether using the item reveals the grid.
pub open spec fn spec_item_maps(w: WorldView, a: ActivateItem) -> bool {
    spec_item_there(w, a) && w.entities[a.item.0 as int].provides_dungeon_map is Some
}

/// What the use of an item queues: the stuns, if it stuns, and the removal
/// of the item.
pub open spec fn spec_use_commands(w: WorldView, a: ActivateItem) -> Seq<CommandView> {
    let stuns = if spec_item_stuns(w, a) {
        spec_stuns(w.entities, w.entities[a.used_by.0 as int].position.unwrap(), w.entities.len())
    } else {
        Seq::empty()
    };
    stuns.push(CommandView::Remove(a.item))
}

/// Health after healing by `amount`: it grows by that much, but not beyond
/// its greatest value.
pub open spec fn spec_heal(health: Health, amount: i32) -> Health {
    let grown = spec_clamp(health.current + amount);
    Health {
        current: if health.max < grown {
            health.max
        } else {
            grown
        },
        max: health.max,
    }
}

/// The world after the use of an item: where it heals, its user is healed.
pub open spec fn spec_use_world(w: WorldView, a: ActivateItem) -> WorldView {
    if spec_item_heals(w, a) {
        let user = w.entities[a.used_by.0 as int];
        w.with_entity(
            a.used_by,
            EntityView {
                health: Some(
                    spec_heal(
                        user.health.unwrap(),
                        w.entities[a.item.0 as int].provides_healing.unwrap().amount,
                    ),
                ),
                ..user
            },
        )
    } else {
        w
    }
}

/// The world after the first `n` uses.
pub open spec fn spec_uses_world(w: WorldView, uses: Seq<ActivateItem>, n: nat) -> WorldView
    decreases n,
{
    if n == 0 {
        w
    } else {
        spec_use_world(spec_uses_world(w, uses, (n - 1) as nat), uses[n - 1])
    }
}

/// What the first `n` uses queue.
pub open spec fn spec_uses_commands(w: WorldView, uses: Seq<ActivateItem>, n: nat) -> Seq<
    CommandView,
>
    decreases n,
{
    if n == 0 {
        Seq::empty()
    } else {
        spec_uses_commands(w, uses, (n - 1) as nat) + spec_use_commands(
            spec_uses_world(w, uses, (n - 1) as nat),
            uses[n - 1],
        )
    }
}

/// Whether one of the first `n` uses reveals the grid.
pub open spec fn spec_uses_map(w: WorldView, uses: Seq<ActivateItem>, n: nat) -> bool
    decreases n,
{
    if n == 0 {
        false
    } else {
        spec_uses_map(w, uses, (n - 1) as nat) || spec_item_maps(
            spec_uses_world(w, uses, (n - 1) as nat),
            uses[n - 1],
        )
    }
}

/// Queues a stun for every enemy next to `p`.
pub fn stun_around(ecs: &World, commands: &mut CommandBuffer, p: Point)
    ensures
        final(commands)@ == old(commands)@ + spec_stuns(ecs@.entities, p, ecs@.entities.len()),
{
    let mut i: usize = 0;
    assert(commands@ + Seq::<CommandView>::empty() =~= commands@);
    while i < ecs.entities.len()
        invariant
            i <= ecs.entities@.len(),
            commands@ == old(commands)@ + spec_stuns(ecs@.entities, p, i as nat),
        decreases ecs.entities@.len() - i,
    {
        let record = &ecs.entities[i];
        let next_to = match record.position {
            Some(q) => {
                let dx: i64 = q.x as i64 - p.x as i64;
                let dy: i64 = q.y as i64 - p.y as i64;
                (dx == 1 && dy == 0) || (dx == -1 && dy == 0) || (dx == 0 && dy == 1) || (dx == 0
                    && dy == -1)
            },
            None => false,
        };
        if record.alive && record.enemy.is_some() && next_to {
            commands.push(Command::SetStunned(Entity(i), Stunned(STUN_TURNS)));
            assert(commands@ =~= old(commands)@ + spec_stuns(ecs@.entities, p, (i + 1) as nat));
        }
        i += 1;
    }
}

/// Reveals the whole grid.
pub fn reveal_everything(map: &mut Grid)
    requires
        old(map).wf(),
    ensures
        final(map).wf(),
        final(map).tiles == old(map).tiles,
        forall|i: int| 0 <= i < NUM_TILES ==> final(map).revealed_tiles@[i],
{
    let mut i: usize = 0;
    while i < NUM_TILES
        invariant
            i <= NUM_TILES,
            map.wf(),
            map.tiles == old(map).tiles,
            forall|j: int| 0 <= j < i ==> map.revealed_tiles@[j],
        decreases NUM_TILES - i,
    {
        map.revealed_tiles.set(i, true);
        i += 1;
    }
}

/// Lets one item take effect.
pub fn use_one(ecs: &mut World, commands: &mut CommandBuffer, map: &mut Grid, a: ActivateItem)
    requires
        old(map).wf(),
    ensures
        final(map).wf(),
        final(map).tiles == old(map).tiles,
        final(ecs)@ == spec_use_world(old(ecs)@, a),
        final(commands)@ == old(commands)@ + spec_use_commands(old(ecs)@, a),
        spec_item_maps(old(ecs)@, a) ==> forall|i: int|
            0 <= i < NUM_TILES ==> final(map).revealed_tiles@[i],
        !spec_item_maps(old(ecs)@, a) ==> final(map).revealed_tiles == old(map).revealed_tiles,
{
    let ghost before = ecs@;
    let ghost queued = commands@;
    assert(queued + Seq::<CommandView>::empty() =~= queued);
    if ecs.contains(a.item) {
        let healing = ecs.entities[a.item.0].provides_healing;
        if ecs.entities[a.item.0].provides_dungeon_map.is_some() {
            reveal_everything(map);
        }
        if ecs.entities[a.item.0].provides_stun.is_some() && ecs.contains(a.used_by) {
            match ecs.entities[a.used_by.0].position {
                Some(pt) => {
                    stun_around(ecs, commands, pt);
                },
                None => {},
            }
        }
        match healing {
            Some(healing) => {
                if ecs.contains(a.used_by) {
                    match ecs.entities[a.used_by.0].health {
                        Some(health) => {
                            let grown: i64 = health.current as i64 + healing.amount as i64;
                            let grown: i32 = if grown < i32::MIN as i64 {
                                i32::MIN
                            } else if grown > i32::MAX as i64 {
                                i32::MAX
                            } else {
                                grown as i32
                            };
                            let current = if health.max < grown {
                                health.max
                            } else {
                                grown
                            };
                            ecs.entities[a.used_by.0].health = Some(
                                Health { current, max: health.max },
                            );
                            assert(ecs@.entities =~= before.entities.update(
                                a.used_by.0 as int,
                                EntityView {
                                    health: Some(spec_heal(health, healing.amount)),
                                    ..before.entities[a.used_by.0 as int]
                                },
                            ));
                        },
                        None => {},
                    }
                }
            },
            None => {},
        }
    }
    commands.push(Command::Remove(a.item));
    assert(commands@ =~= queued + spec_use_commands(before, a));
}

/// Lets every item that was asked for take effect, in the order in which
/// they were asked for, and uses the intents up. A healer heals its user, a
/// map reveals the grid, a stunner stuns the enemies next to its user. An
/// item that is gone does nothing.
pub fn use_items(ecs: &mut World, commands: &mut CommandBuffer, map: &mut Grid)
    requires
        old(map).wf(),
    ensures
        final(map).wf(),
        final(map).tiles == old(map).tiles,
        final(ecs)@ == (WorldView {
            activations: Seq::empty(),
            ..spec_uses_world(old(ecs)@, old(ecs)@.activations, old(ecs)@.activations.len())
        }),
        final(commands)@ == old(commands)@ + spec_uses_commands(
            old(ecs)@,
            old(ecs)@.activations,
            old(ecs)@.activations.len(),
        ),
        spec_uses_map(old(ecs)@, old(ecs)@.activations, old(ecs)@.activations.len()) ==> forall|
            i: int,
        | 0 <= i < NUM_TILES ==> final(map).revealed_tiles@[i],
        !spec_uses_map(old(ecs)@, old(ecs)@.activations, old(ecs)@.activations.len()) ==> final(map).revealed_tiles == old(map).revealed_tiles,
{
    let ghost uses = ecs@.activations;
    let mut i: usize = 0;
    assert(commands@ + Seq::<CommandView>::empty() =~= commands@);
    while i < ecs.activations.len()
        invariant
            i <= ecs.activations@.len(),
            map.wf(),
            map.tiles == old(map).tiles,
            uses == old(ecs)@.activations,
            ecs@ == spec_uses_world(old(ecs)@, uses, i as nat),
            ecs@.activations == uses,
            commands@ == old(commands)@ + spec_uses_commands(old(ecs)@, uses, i as nat),
            spec_uses_map(old(ecs)@, uses, i as nat) ==> forall|j: int|
                0 <= j < NUM_TILES ==> map.revealed_tiles@[j],
            !spec_uses_map(old(ecs)@, uses, i as nat) ==> map.revealed_tiles == old(map).revealed_tiles,
        decreases ecs.activations@.len() - i,
    {
        let a = ecs.activations[i];
        use_one(ecs, commands, map, a);
        assert(commands@ =~= old(commands)@ + spec_uses_commands(old(ecs)@, uses, (i + 1) as nat));
        i += 1;
    }
    ecs.activations.clear();
}

} // verus!
