//! Collisions: an enemy that shares a tile with the player is gone.

use vstd::prelude::*;
use crate::components::Entity;
use crate::geometry::Point;
use crate::systems::player_input::{spec_enemy_at, spec_player_at};
use crate::world::{Command, CommandBuffer, CommandView, EntityView, World, WorldView};

verus! {

/// The removal of each enemy at `p` among the first `n` rows.
pub open spec fn spec_crushed(entities: Seq<EntityView>, p: Point, n: nat) -> Seq<CommandView>
    decreases n,
{
    if n == 0 {
        Seq::empty()
    } else {
        let before = spec_crushed(entities, p, (n - 1) as nat);
        if spec_enemy_at(entities, n - 1, p) {
            before.push(CommandView::Remove(Entity((n - 1) as usize)))
        } else {
            before
        }
    }
}

/// Where collisions are looked for: where the player stands, or the corner
/// of the grid where no player stands anywhere.
pub open spec fn spec_collision_point(w: WorldView) -> Point {
    match spec_player_at(w) {
        Some((_, p)) => p,
        None => Point { x: 0, y: 0 },
    }
}

/// Queues the removal of every enemy that stands where the player stands.
pub fn collisions(ecs: &World, commands: &mut CommandBuffer)
    ensures
        final(commands)@ == old(commands)@ + spec_crushed(
            ecs@.entities,
            spec_collision_point(ecs@),
            ecs@.entities.len(),
        ),
{
    let player_pos = match ecs.player() {
        Some(e) => match ecs.entities[e.0].position {
            Some(p) => p,
            None => Point::zero(),
        },
        None => Point::zero(),
    };
    let mut i: usize = 0;
    assert(commands@ + Seq::<CommandView>::empty() =~= commands@);
    while i < ecs.entities.len()
        invariant
            i <= ecs.entities@.len(),
            commands@ == old(commands)@ + spec_crushed(ecs@.entities, player_pos, i as nat),
        decreases ecs.entities@.len() - i,
    {
        let record = &ecs.entities[i];
        let here = match record.position {
            Some(pos) => pos.x == player_pos.x && pos.y == player_pos.y,
            None => false,
        };
        if record.alive && record.enemy.is_some() && here {
            commands.push(Command::Remove(Entity(i)));
            assert(commands@ =~= old(commands)@ + spec_crushed(
                ecs@.entities,
                player_pos,
                (i + 1) as nat,
            ));
        }
        i += 1;
    }
}

} // verus!
