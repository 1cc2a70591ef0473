//! Sight: what an entity sees is computed afresh where it is due.

use vstd::prelude::*;
use crate::components::{FieldOfView, FieldOfViewView};
use crate::map::{Grid, TileType};
use crate::visibility::{field_of_view_set, spec_visible_tiles};
use crate::world::{EntityView, World, WorldView};
use crate::NUM_TILES;

verus! {

/// A row after its sight has been seen to: where the entity is on the grid
/// and its sight is due, it now sees what can be seen from where it stands,
/// and its sight is no longer due.
pub open spec fn spec_refreshed(record: EntityView, tiles: Seq<TileType>) -> EntityView {
    if record.alive && record.position is Some && record.field_of_view is Some
        && record.field_of_view.unwrap().is_dirty {
        let radius = record.field_of_view.unwrap().radius;
        EntityView {
            field_of_view: Some(
                FieldOfViewView {
                    visible_tiles: spec_visible_tiles(
                        tiles,
                        record.position.unwrap(),
                        radius,
                        NUM_TILES as nat,
                    ),
                    radius,
                    is_dirty: false,
                },
            ),
            ..record
        }
    } else {
        record
    }
}

/// Computes afresh what each entity sees whose sight is due. Sight that is
/// not due is left alone.
pub fn fov(ecs: &mut World, map: &Grid)
    requires
        map.wf(),
    ensures
        final(ecs)@ == (WorldView {
            entities: Seq::new(
                old(ecs)@.entities.len(),
                |i: int| spec_refreshed(old(ecs)@.entities[i], map.tiles@),
            ),
            ..old(ecs)@
        }),
{
    let ghost before = ecs@;
    let mut i: usize = 0;
    while i < ecs.entities.len()
        invariant
            i <= ecs.entities@.len(),
            map.wf(),
            before == old(ecs)@,
            ecs@.entities.len() == before.entities.len(),
            ecs@.moves == before.moves,
            ecs@.attacks == before.attacks,
            ecs@.activations == before.activations,
            ecs@.logs == before.logs,
            forall|j: int|
                0 <= j < i ==> #[trigger] ecs@.entities[j] == spec_refreshed(
                    before.entities[j],
                    map.tiles@,
                ),
            forall|j: int|
                i <= j < before.entities.len() ==> #[trigger] ecs@.entities[j]
                    == before.entities[j],
        decreases ecs.entities@.len() - i,
    {
        let ghost current = ecs@;
        assert(current.entities[i as int] == before.entities[i as int]);
        let due = match (&ecs.entities[i].field_of_view, ecs.entities[i].position) {
            (Some(view), Some(pos)) => if ecs.entities[i].alive && view.is_dirty {
                Some((pos, view.radius))
            } else {
                None
            },
            _ => None,
        };
        match due {
            Some((pos, radius)) => {
                let seen = field_of_view_set(pos, radius, map);
                ecs.entities[i].field_of_view = Some(
                    FieldOfView { visible_tiles: seen, radius, is_dirty: false },
                );
                assert(ecs@.entities =~= current.entities.update(
                    i as int,
                    spec_refreshed(before.entities[i as int], map.tiles@),
                ));
                assert(ecs@.logs =~= before.logs);
            },
            None => {},
        }
        i += 1;
    }
    assert(ecs@.entities =~= Seq::new(
        before.entities.len(),
        |i: int| spec_refreshed(before.entities[i], map.tiles@),
    ));
}

} // verus!
