//! Wandering: an entity that moves at random takes a step in a direction
//! that chance picks.

use vstd::prelude::*;
use bracket_lib::prelude::RandomNumberGenerator;
use crate::components::{Entity, WantsToAttack, WantsToMove};
use crate::geometry::Point;
use crate::random;
use crate::systems::player_input::spec_destination;
use crate::world::{Command, CommandBuffer, CommandView, EntityView, World};

verus! {

/// Whether a row holds something that stands at `p` and can be hit.
pub open spec fn spec_blocker(record: EntityView, p: Point) -> bool {
    record.alive && record.position == Some(p) && record.health is Some
}

/// Whether something among the first `n` rows stands in the way at `p`.
pub open spec fn spec_blocked(entities: Seq<EntityView>, p: Point, n: nat) -> bool
    decreases n,
{
    if n == 0 {
        false
    } else {
        spec_blocked(entities, p, (n - 1) as nat) || spec_blocker(entities[n - 1], p)
    }
}

/// The strikes at the player that a step to `p` becomes, among the first
/// `n` rows.
pub open spec fn spec_bump_attacks(
    entities: Seq<EntityView>,
    mover: Entity,
    p: Point,
    n: nat,
) -> Seq<CommandView>
    decreases n,
{
    if n == 0 {
        Seq::empty()
    } else {
        let before = spec_bump_attacks(entities, mover, p, (n - 1) as nat);
        if spec_blocker(entities[n - 1], p) && entities[n - 1].player is Some {
            before.push(
                CommandView::Attack(
                    WantsToAttack { attacker: mover, victim: Entity((n - 1) as usize) },
                ),
            )
        } else {
            before
        }
    }
}

/// What a monster's step to `p` queues: a strike where the player stands in
/// the way, nothing where another stands in the way, and the move where the
/// way is free.
pub open spec fn spec_bump(entities: Seq<EntityView>, mover: Entity, p: Point) -> Seq<CommandView> {
    let attacks = spec_bump_attacks(entities, mover, p, entities.len());
    if spec_blocked(entities, p, entities.len()) {
        attacks
    } else {
        attacks.push(CommandView::Move(WantsToMove { entity: mover, destination: p }))
    }
}

/// The offset of a step in the direction that a roll of 0 to 3 picks: west,
/// east, north, south.
pub open spec fn spec_direction(roll: int) -> Point {
    if roll == 0 {
        Point { x: -1i32, y: 0 }
    } else if roll == 1 {
        Point { x: 1, y: 0 }
    } else if roll == 2 {
        Point { x: 0, y: -1i32 }
    } else {
        Point { x: 0, y: 1 }
    }
}

/// Whether a row holds a wanderer on the grid.
pub open spec fn spec_wanders(record: EntityView) -> bool {
    record.alive && record.moving_randomly is Some && record.position is Some
}

/// What the wanderer in row `i` queues when its roll is `roll`.
pub open spec fn spec_wander(entities: Seq<EntityView>, i: int, roll: int) -> Seq<CommandView> {
    if spec_wanders(entities[i]) {
        match spec_destination(entities[i].position.unwrap(), spec_direction(roll)) {
            Some(destination) => spec_bump(entities, Entity(i as usize), destination),
            None => Seq::empty(),
        }
    } else {
        Seq::empty()
    }
}

/// What the wanderers among the first `n` rows queue, row `i` rolling
/// `rolls[i]`.
pub open spec fn spec_random_moves(entities: Seq<EntityView>, rolls: Seq<int>, n: nat) -> Seq<
    CommandView,
>
    decreases n,
{
    if n == 0 {
        Seq::empty()
    } else {
        spec_random_moves(entities, rolls, (n - 1) as nat) + spec_wander(
            entities,
            n - 1,
            rolls[n - 1],
        )
    }
}

/// What the wanderers queue does not depend on rolls of rows beyond them.
proof fn lemma_random_moves_prefix(
    entities: Seq<EntityView>,
    rolls: Seq<int>,
    longer: Seq<int>,
    n: nat,
)
    requires
        n <= rolls.len() <= longer.len(),
        forall|i: int| 0 <= i < n ==> rolls[i] == longer[i],
    ensures
        spec_random_moves(entities, rolls, n) == spec_random_moves(entities, longer, n),
    decreases n,
{
    if n > 0 {
        lemma_random_moves_prefix(entities, rolls, longer, (n - 1) as nat);
    }
}

/// Queues what a monster's step to `destination` becomes.
pub fn bump(ecs: &World, commands: &mut CommandBuffer, mover: Entity, destination: Point)
    ensures
        final(commands)@ == old(commands)@ + spec_bump(ecs@.entities, mover, destination),
{
    let mut attacked = false;
    let mut i: usize = 0;
    assert(commands@ + Seq::<CommandView>::empty() =~= commands@);
    while i < ecs.entities.len()
        invariant
            i <= ecs.entities@.len(),
            attacked == spec_blocked(ecs@.entities, destination, i as nat),
            commands@ == old(commands)@ + spec_bump_attacks(
                ecs@.entities,
                mover,
                destination,
                i as nat,
            ),
        decreases ecs.entities@.len() - i,
    {
        let record = &ecs.entities[i];
        let here = match record.position {
            Some(pos) => pos.x == destination.x && pos.y == destination.y,
            None => false,
        };
        if record.alive && here && record.health.is_some() {
            if record.player.is_some() {
                commands.push(
                    Command::Attack(WantsToAttack { attacker: mover, victim: Entity(i) }),
                );
                assert(commands@ =~= old(commands)@ + spec_bump_attacks(
                    ecs@.entities,
                    mover,
                    destination,
                    (i + 1) as nat,
                ));
            }
            attacked = true;
        }
        i += 1;
    }
    if !attacked {
        commands.push(Command::Move(WantsToMove { entity: mover, destination }));
        assert(commands@ =~= old(commands)@ + spec_bump(ecs@.entities, mover, destination));
    }
}

/// The step of one wanderer whose roll is `roll`.
pub fn wander(ecs: &World, commands: &mut CommandBuffer, i: usize, roll: i32)
    requires
        i < ecs@.entities.len(),
    ensures
        final(commands)@ == old(commands)@ + spec_wander(ecs@.entities, i as int, roll as int),
{
    assert(commands@ + Seq::<CommandView>::empty() =~= commands@);
    let record = &ecs.entities[i];
    if record.alive && record.moving_randomly.is_some() {
        match record.position {
            Some(pos) => {
                let delta = if roll == 0 {
                    Point::new(-1, 0)
                } else if roll == 1 {
                    Point::new(1, 0)
                } else if roll == 2 {
                    Point::new(0, -1)
                } else {
                    Point::new(0, 1)
                };
                match (pos.x.checked_add(delta.x), pos.y.checked_add(delta.y)) {
                    (Some(x), Some(y)) => {
                        bump(ecs, commands, Entity(i), Point::new(x, y));
                    },
                    _ => {},
                }
            },
            None => {},
        }
    }
}

/// Lets every wanderer take a step. Each rolls a direction; what the step
/// becomes is what `wander` makes of the roll.
pub fn random_move(ecs: &World, commands: &mut CommandBuffer, rng: &mut RandomNumberGenerator)
    ensures
        exists|rolls: Seq<int>|
            {
                &&& rolls.len() == ecs@.entities.len()
                &&& forall|i: int| 0 <= i < rolls.len() ==> 0 <= #[trigger] rolls[i] < 4
                &&& final(commands)@ == old(commands)@ + spec_random_moves(
                    ecs@.entities,
                    rolls,
                    ecs@.entities.len(),
                )
            },
{
    let ghost mut rolls: Seq<int> = Seq::empty();
    let mut i: usize = 0;
    assert(commands@ + Seq::<CommandView>::empty() =~= commands@);
    while i < ecs.entities.len()
        invariant
            i <= ecs.entities@.len(),
            rolls.len() == i,
            forall|j: int| 0 <= j < rolls.len() ==> 0 <= #[trigger] rolls[j] < 4,
            commands@ == old(commands)@ + spec_random_moves(ecs@.entities, rolls, i as nat),
        decreases ecs.entities@.len() - i,
    {
        let ghost before = rolls;
        let record = &ecs.entities[i];
        if record.alive && record.moving_randomly.is_some() && record.position.is_some() {
            let roll = random::range(rng, 0, 4);
            wander(ecs, commands, i, roll);
            proof {
                rolls = rolls.push(roll as int);
            }
        } else {
            proof {
                rolls = rolls.push(0);
            }
            assert(commands@ + Seq::<CommandView>::empty() =~= commands@);
        }
        proof {
            lemma_random_moves_prefix(ecs@.entities, before, rolls, i as nat);
            assert(commands@ =~= old(commands)@ + spec_random_moves(
                ecs@.entities,
                rolls,
                (i + 1) as nat,
            ));
        }
        i += 1;
    }
    assert(commands@ == old(commands)@ + spec_random_moves(
        ecs@.entities,
        rolls,
        ecs@.entities.len(),
    ));
}

} // verus!
