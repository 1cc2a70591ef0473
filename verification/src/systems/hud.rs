//! What the status display shows: the player's health, tier and pack.

use vstd::prelude::*;
use crate::components::{Carried, Entity, Health};
use crate::world::{EntityView, World};

verus! {

/// What the status display shows.
pub struct Hud {
    /// The player's health, if the player has any.
    pub health: Option<Health>,
    /// The tier that the player is on.
    pub map_level: u32,
    pub wait_count: u8,
    /// The named items that the player carries, in the order of their rows.
    pub inventory: Vec<Entity>,
}

/// Whether a row holds an item with a name that `carrier` carries.
pub open spec fn spec_listed(record: EntityView, carrier: Entity) -> bool {
    &&& record.alive
    &&& record.item is Some
    &&& record.name is Some
    &&& record.carried == Some(Carried(carrier))
}

/// The named items that `carrier` carries among the first `n` rows.
pub open spec fn spec_inventory(entities: Seq<EntityView>, carrier: Entity, n: nat) -> Seq<Entity>
    decreases n,
{
    if n == 0 {
        Seq::empty()
    } else {
        let before = spec_inventory(entities, carrier, (n - 1) as nat);
        if spec_listed(entities[n - 1], carrier) {
            before.push(Entity((n - 1) as usize))
        } else {
            before
        }
    }
}

/// What the status display shows; nothing where no player is in the world.
pub fn hud(ecs: &World) -> (r: Option<Hud>)
    ensures
        match r {
            Some(shown) => {
                &&& ecs@.player() is Some
                &&& shown.health == ecs@.entities[ecs@.player().unwrap().0 as int].health
                &&& shown.map_level
                    == ecs@.entities[ecs@.player().unwrap().0 as int].player.unwrap().map_level
                &&& shown.wait_count
                    == ecs@.entities[ecs@.player().unwrap().0 as int].player.unwrap().wait_count
                &&& shown.inventory@ == spec_inventory(
                    ecs@.entities,
                    ecs@.player().unwrap(),
                    ecs@.entities.len(),
                )
            },
            None => ecs@.player() is None,
        },
{
    let player = match ecs.player() {
        Some(player) => player,
        None => {
            return None;
        },
    };
    let record = &ecs.entities[player.0];
    assert(ecs@.entities[player.0 as int] == record@);
    let (map_level, wait_count) = match record.player {
        Some(p) => (p.map_level, p.wait_count),
        None => (0, 0),
    };
    let mut inventory: Vec<Entity> = Vec::new();
    let mut i: usize = 0;
    while i < ecs.entities.len()
        invariant
            i <= ecs.entities@.len(),
            inventory@ == spec_inventory(ecs@.entities, player, i as nat),
        decreases ecs.entities@.len() - i,
    {
        let item = &ecs.entities[i];
        assert(ecs@.entities[i as int] == item@);
        let by_player = match item.carried {
            Some(c) => c.0.0 == player.0,
            None => false,
        };
        if item.alive && item.item.is_some() && item.name.is_some() && by_player {
            inventory.push(Entity(i));
        }
        i += 1;
    }
    Some(Hud { health: record.health, map_level, wait_count, inventory })
}

} // verus!
