//! What lies under the mouse: the named entities there that the player sees.

use vstd::prelude::*;
use crate::camera::Camera;
use crate::components::Entity;
use crate::geometry::Point;
use crate::systems::entity_render::{player_with_sight, spec_player_sight};
use crate::world::{EntityView, World, WorldView};

verus! {

/// Whether `p` is the tile under the mouse, which stands at `mouse_pos`
/// within the viewport.
pub open spec fn spec_under_mouse(p: Point, mouse_pos: Point, camera: Camera) -> bool {
    p.x == mouse_pos.x + camera.left_x && p.y == mouse_pos.y + camera.top_y
}

/// Whether a row holds a named entity under the mouse that is seen.
pub open spec fn spec_pointed_at(
    record: EntityView,
    mouse_pos: Point,
    camera: Camera,
    seen: Seq<Point>,
) -> bool {
    &&& record.alive
    &&& record.position is Some
    &&& record.name is Some
    &&& spec_under_mouse(record.position.unwrap(), mouse_pos, camera)
    &&& seen.contains(record.position.unwrap())
}

/// The entities among the first `n` rows that the mouse points at.
pub open spec fn spec_pointed(
    entities: Seq<EntityView>,
    mouse_pos: Point,
    camera: Camera,
    seen: Seq<Point>,
    n: nat,
) -> Seq<Entity>
    decreases n,
{
    if n == 0 {
        Seq::empty()
    } else {
        let before = spec_pointed(entities, mouse_pos, camera, seen, (n - 1) as nat);
        if spec_pointed_at(entities[n - 1], mouse_pos, camera, seen) {
            before.push(Entity((n - 1) as usize))
        } else {
            before
        }
    }
}

/// The entities that the mouse points at; none where no player with sight
/// is in the world.
pub open spec fn spec_tooltips(w: WorldView, mouse_pos: Point, camera: Camera) -> Seq<Entity> {
    match spec_player_sight(w.entities, 0) {
        Some(sight) => spec_pointed(
            w.entities,
            mouse_pos,
            camera,
            sight.visible_tiles,
            w.entities.len(),
        ),
        None => Seq::empty(),
    }
}

/// The named entities under the mouse that the player sees, in the order
/// of their rows.
pub fn tooltips(ecs: &World, mouse_pos: &Point, camera: &Camera) -> (pointed: Vec<Entity>)
    ensures
        pointed@ == spec_tooltips(ecs@, *mouse_pos, *camera),
{
    let mut pointed: Vec<Entity> = Vec::new();
    let sight = match player_with_sight(ecs) {
        Some(row) => match &ecs.entities[row].field_of_view {
            Some(sight) => sight,
            None => {
                return pointed;
            },
        },
        None => {
            return pointed;
        },
    };
    let mut i: usize = 0;
    while i < ecs.entities.len()
        invariant
            i <= ecs.entities@.len(),
            pointed@ == spec_pointed(
                ecs@.entities,
                *mouse_pos,
                *camera,
                sight.visible_tiles@,
                i as nat,
            ),
        decreases ecs.entities@.len() - i,
    {
        let record = &ecs.entities[i];
        assert(ecs@.entities[i as int] == record@);
        match record.position {
            Some(pos) => {
                let under = pos.x as i64 == mouse_pos.x as i64 + camera.left_x as i64 && pos.y as i64
                    == mouse_pos.y as i64 + camera.top_y as i64;
                if record.alive && record.name.is_some() && under && sight.sees(pos) {
                    pointed.push(Entity(i));
                }
            },
            None => {},
        }
        i += 1;
    }
    pointed
}

} // verus!
