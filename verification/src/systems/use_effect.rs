//! Lasting effects wear off.

use vstd::prelude::*;
use crate::components::{Entity, Stunned};
use crate::world::{Command, CommandBuffer, CommandView, EntityView, World, WorldView};

verus! {

/// Whether a row holds a stunned entity.
pub open spec fn spec_is_stunned(record: EntityView) -> bool {
    record.alive && record.stunned is Some
}

/// The turns of stun left after one more has passed; the count stops at the
/// least number that an `i32` holds.
pub open spec fn spec_stun_left(turns: i32) -> i32 {
    if turns > i32::MIN {
        (turns - 1) as i32
    } else {
        turns
    }
}

/// A row after a turn has passed: a stun has one turn fewer to run.
pub open spec fn spec_worn(record: EntityView) -> EntityView {
    if spec_is_stunned(record) {
        EntityView { stunned: Some(Stunned(spec_stun_left(record.stunned.unwrap().0))), ..record }
    } else {
        record
    }
}

/// The end of each stun that has run out, among the first `n` rows.
pub open spec fn spec_worn_off(entities: Seq<EntityView>, n: nat) -> Seq<CommandView>
    decreases n,
{
    if n == 0 {
        Seq::empty()
    } else {
        let before = spec_worn_off(entities, (n - 1) as nat);
        if spec_is_stunned(entities[n - 1]) && spec_stun_left(entities[n - 1].stunned.unwrap().0)
            <= 0 {
            before.push(CommandView::RemoveStunned(Entity((n - 1) as usize)))
        } else {
            before
        }
    }
}

/// Lets a turn pass for every stun, and queues the end of those that have
/// run out.
pub fn use_items(ecs: &mut World, commands: &mut CommandBuffer)
    ensures
        final(ecs)@ == (WorldView {
            entities: Seq::new(
                old(ecs)@.entities.len(),
                |i: int| spec_worn(old(ecs)@.entities[i]),
            ),
            ..old(ecs)@
        }),
        final(commands)@ == old(commands)@ + spec_worn_off(
            old(ecs)@.entities,
            old(ecs)@.entities.len(),
        ),
{
    let ghost before = ecs@;
    let mut i: usize = 0;
    assert(commands@ + Seq::<CommandView>::empty() =~= commands@);
    while i < ecs.entities.len()
        invariant
            i <= ecs.entities@.len(),
            before == old(ecs)@,
            ecs@.entities.len() == before.entities.len(),
            ecs@.moves == before.moves,
            ecs@.attacks == before.attacks,
            ecs@.activations == before.activations,
            ecs@.logs == before.logs,
            forall|j: int| 0 <= j < i ==> #[trigger] ecs@.entities[j] == spec_worn(before.entities[j]),
            forall|j: int|
                i <= j < before.entities.len() ==> #[trigger] ecs@.entities[j]
                    == before.entities[j],
            commands@ == old(commands)@ + spec_worn_off(before.entities, i as nat),
        decreases ecs.entities@.len() - i,
    {
        let ghost current = ecs@;
        assert(current.entities[i as int] == before.entities[i as int]);
        if ecs.entities[i].alive {
            match ecs.entities[i].stunned {
                Some(s) => {
                    let left = if s.0 > i32::MIN {
                        s.0 - 1
                    } else {
                        s.0
                    };
                    ecs.entities[i].stunned = Some(Stunned(left));
                    assert(ecs@.entities =~= current.entities.update(
                        i as int,
                        spec_worn(before.entities[i as int]),
                    ));
                    assert(ecs@.logs =~= before.logs);
                    if left <= 0 {
                        commands.push(Command::RemoveStunned(Entity(i)));
                        assert(commands@ =~= old(commands)@ + spec_worn_off(
                            before.entities,
                            (i + 1) as nat,
                        ));
                    }
                },
                None => {},
            }
        }
        i += 1;
    }
    assert(ecs@.entities =~= Seq::new(
        before.entities.len(),
        |i: int| spec_worn(before.entities[i]),
    ));
}

} // verus!
