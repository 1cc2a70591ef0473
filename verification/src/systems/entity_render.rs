//! What there is to draw of the entities: those that the player sees.

use vstd::prelude::*;
use crate::camera::Camera;
use crate::components::{FieldOfViewView, Render};
use crate::geometry::Point;
use crate::world::{EntityView, World, WorldView};

verus! {

/// An entity as the viewport shows it.
#[derive(Clone, Copy, Debug, PartialEq, Eq, Structural)]
pub struct RenderedEntity {
    /// The column within the viewport.
    pub x: i64,
    /// The row within the viewport.
    pub y: i64,
    pub render: Render,
    /// Whether the entity is drawn above the items: the player and the
    /// enemies are.
    pub actor: bool,
}

/// Whether a row holds something that is drawn: an item that is no player,
/// or a player or an enemy, with a place and a look.
pub open spec fn spec_drawable(record: EntityView) -> bool {
    &&& record.alive
    &&& record.position is Some
    &&& record.render is Some
    &&& (record.player is Some || record.enemy is Some || record.item is Some)
}

/// Whether a row holds a player or an enemy.
pub open spec fn spec_actor(record: EntityView) -> bool {
    record.player is Some || record.enemy is Some
}

/// A row as the viewport shows it.
pub open spec fn spec_rendered_entity(record: EntityView, camera: Camera) -> RenderedEntity {
    RenderedEntity {
        x: (record.position.unwrap().x - camera.left_x) as i64,
        y: (record.position.unwrap().y - camera.top_y) as i64,
        render: record.render.unwrap(),
        actor: spec_actor(record),
    }
}

/// What the player sees: the sight of the first row from `from` on that
/// holds a player with sight.
pub open spec fn spec_player_sight(entities: Seq<EntityView>, from: int) -> Option<FieldOfViewView>
    decreases entities.len() - from,
{
    if from < 0 || from >= entities.len() {
        None
    } else if entities[from].alive && entities[from].player is Some
        && entities[from].field_of_view is Some {
        entities[from].field_of_view
    } else {
        spec_player_sight(entities, from + 1)
    }
}

/// The entities among the first `n` rows that are drawn on the given
/// layer, in the order of the rows: those that the player sees.
pub open spec fn spec_drawn_entities(
    entities: Seq<EntityView>,
    camera: Camera,
    seen: Seq<Point>,
    actors: bool,
    n: nat,
) -> Seq<RenderedEntity>
    decreases n,
{
    if n == 0 {
        Seq::empty()
    } else {
        let before = spec_drawn_entities(entities, camera, seen, actors, (n - 1) as nat);
        let record = entities[n - 1];
        if spec_drawable(record) && spec_actor(record) == actors && seen.contains(
            record.position.unwrap(),
        ) {
            before.push(spec_rendered_entity(record, camera))
        } else {
            before
        }
    }
}

/// What there is to draw of the entities: first the items, then the player
/// and the enemies, each kind in the order of the rows.
pub open spec fn spec_entity_render(w: WorldView, camera: Camera) -> Seq<RenderedEntity> {
    match spec_player_sight(w.entities, 0) {
        Some(sight) => spec_drawn_entities(
            w.entities,
            camera,
            sight.visible_tiles,
            false,
            w.entities.len(),
        ) + spec_drawn_entities(w.entities, camera, sight.visible_tiles, true, w.entities.len()),
        None => Seq::empty(),
    }
}

/// The row of the first player with sight.
pub fn player_with_sight(ecs: &World) -> (r: Option<usize>)
    ensures
        match r {
            Some(i) => i < ecs@.entities.len() && ecs.entities@[i as int].field_of_view is Some
                && spec_player_sight(ecs@.entities, 0) == Some(
                ecs.entities@[i as int].field_of_view.unwrap()@,
            ),
            None => spec_player_sight(ecs@.entities, 0) is None,
        },
{
    let mut i: usize = 0;
    while i < ecs.entities.len()
        invariant
            i <= ecs.entities@.len(),
            spec_player_sight(ecs@.entities, 0) == spec_player_sight(ecs@.entities, i as int),
        decreases ecs.entities@.len() - i,
    {
        let record = &ecs.entities[i];
        assert(ecs@.entities[i as int] == record@);
        if record.alive && record.player.is_some() && record.field_of_view.is_some() {
            return Some(i);
        }
        i += 1;
    }
    None
}

/// What there is to draw of the entities. Nothing is drawn where no player
/// with sight is in the world.
pub fn entity_render(ecs: &World, camera: &Camera) -> (drawn: Vec<RenderedEntity>)
    ensures
        drawn@ == spec_entity_render(ecs@, *camera),
{
    let mut drawn: Vec<RenderedEntity> = Vec::new();
    let row = match player_with_sight(ecs) {
        Some(row) => row,
        None => {
            return drawn;
        },
    };
    let sight = match &ecs.entities[row].field_of_view {
        Some(sight) => sight,
        None => {
            return drawn;
        },
    };
    let ghost seen = sight.visible_tiles@;
    let mut layer: usize = 0;
    let ghost items = spec_drawn_entities(ecs@.entities, *camera, seen, false, ecs@.entities.len());
    while layer < 2
        invariant
            layer <= 2,
            seen == sight.visible_tiles@,
            items == spec_drawn_entities(ecs@.entities, *camera, seen, false, ecs@.entities.len()),
            layer == 0 ==> drawn@.len() == 0,
            layer == 1 ==> drawn@ == items,
            layer == 2 ==> drawn@ == items + spec_drawn_entities(
                ecs@.entities,
                *camera,
                seen,
                true,
                ecs@.entities.len(),
            ),
        decreases 2 - layer,
    {
        let actors = layer == 1;
        let ghost below = drawn@;
        assert(below + Seq::<RenderedEntity>::empty() =~= below);
        let mut i: usize = 0;
        while i < ecs.entities.len()
            invariant
                i <= ecs.entities@.len(),
                seen == sight.visible_tiles@,
                drawn@ == below + spec_drawn_entities(ecs@.entities, *camera, seen, actors, i as nat),
            decreases ecs.entities@.len() - i,
        {
            let record = &ecs.entities[i];
            assert(ecs@.entities[i as int] == record@);
            let is_actor = record.player.is_some() || record.enemy.is_some();
            match (record.position, record.render) {
                (Some(pos), Some(render)) => {
                    if record.alive && (is_actor || record.item.is_some()) && is_actor == actors
                        && sight.sees(pos) {
                        drawn.push(
                            RenderedEntity {
                                x: pos.x as i64 - camera.left_x as i64,
                                y: pos.y as i64 - camera.top_y as i64,
                                render,
                                actor: is_actor,
                            },
                        );
                        assert(drawn@ =~= below + spec_drawn_entities(
                            ecs@.entities,
                            *camera,
                            seen,
                            actors,
                            (i + 1) as nat,
                        ));
                    }
                },
                _ => {},
            }
            i += 1;
        }
        proof {
            if layer == 0 {
                assert(drawn@ =~= items);
            }
        }
        layer += 1;
    }
    drawn
}

} // verus!
