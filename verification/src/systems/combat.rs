//! Combat: each intent to strike takes its toll on the victim's health.

use vstd::prelude::*;
use crate::components::{spec_white_on_black, Carried, Entity, Health, WantsToAttack};
use crate::event_log::{EventLog, LogEntryView};
use crate::world::{Command, CommandBuffer, CommandView, EntityView, World, WorldView};

verus! {

/// The line that reports a strike of the player's: what `format!` makes of
/// the victim's name and the damage.
pub uninterp spec fn spec_attack_message(name: Seq<char>, damage: int) -> Seq<char>;

/// Formats the report of a strike with `format!`. The contract only names
/// the text.
#[verifier::external_body]
fn attack_message(name: &String, damage: i32) -> (msg: String)
    ensures
        msg@ == spec_attack_message(name@, damage as int),
{
    format!("Player attacked {} for {} damage", name, damage)
}

/// `v`, or the nearest number that an `i32` holds.
pub open spec fn spec_clamp(v: int) -> i32 {
    if v < i32::MIN {
        i32::MIN
    } else if v > i32::MAX {
        i32::MAX
    } else {
        v as i32
    }
}

/// The damage that the things carried by `carrier` add, among the first
/// `n` rows.
pub open spec fn spec_weapon_damage(entities: Seq<EntityView>, carrier: Entity, n: nat) -> int
    decreases n,
{
    if n == 0 {
        0
    } else {
        spec_weapon_damage(entities, carrier, (n - 1) as nat) + if entities[n - 1].alive
            && entities[n - 1].carried == Some(Carried(carrier)) && entities[n - 1].damage
            is Some {
            entities[n - 1].damage.unwrap().0 as int
        } else {
            0
        }
    }
}

/// The damage of a strike by `attacker`: its own and that of what it
/// carries, within the range of an `i32`.
pub open spec fn spec_total_damage(w: WorldView, attacker: Entity) -> i32 {
    let base = match w.entities[attacker.0 as int].damage {
        Some(d) => d.0 as int,
        None => 0,
    };
    spec_clamp(base + spec_weapon_damage(w.entities, attacker, w.entities.len()))
}

/// Whether a strike lands: both are in the world and the attacker is not
/// stunned.
pub open spec fn spec_strike_lands(w: WorldView, attack: WantsToAttack) -> bool {
    w.has(attack.attacker) && w.has(attack.victim) && w.entities[attack.attacker.0 as int].stunned
        is None
}

/// The victim's health after a strike that lands.
pub open spec fn spec_health_after(w: WorldView, attack: WantsToAttack) -> Health {
    let health = w.entities[attack.victim.0 as int].health.unwrap();
    Health {
        current: spec_clamp(health.current - spec_total_damage(w, attack.attacker)),
        max: health.max,
    }
}

/// The world after a strike: where it lands on a victim that has health,
/// the damage comes off; otherwise nothing changes.
pub open spec fn spec_resolve_world(w: WorldView, attack: WantsToAttack) -> WorldView {
    if spec_strike_lands(w, attack) && w.entities[attack.victim.0 as int].health is Some {
        w.with_entity(
            attack.victim,
            EntityView {
                health: Some(spec_health_after(w, attack)),
                ..w.entities[attack.victim.0 as int]
            },
        )
    } else {
        w
    }
}

/// What a strike queues: a line for the log where the player strikes a
/// victim with a name, and the removal of a victim other than the player
/// whose health has run out.
pub open spec fn spec_resolve_commands(w: WorldView, attack: WantsToAttack) -> Seq<CommandView> {
    if spec_strike_lands(w, attack) {
        let attacker = w.entities[attack.attacker.0 as int];
        let victim = w.entities[attack.victim.0 as int];
        let report = if attacker.player is Some && victim.name is Some {
            seq![
                CommandView::Log(
                    LogEntryView {
                        message: spec_attack_message(
                            victim.name.unwrap(),
                            spec_total_damage(w, attack.attacker) as int,
                        ),
                        color: spec_white_on_black(),
                    },
                ),
            ]
        } else {
            Seq::empty()
        };
        if victim.health is Some && spec_health_after(w, attack).current < 1 && victim.player
            is None {
            report.push(CommandView::Remove(attack.victim))
        } else {
            report
        }
    } else {
        Seq::empty()
    }
}

/// The world after the first `n` strikes, one after the other.
pub open spec fn spec_combat_world(w: WorldView, attacks: Seq<WantsToAttack>, n: nat) -> WorldView
    decreases n,
{
    if n == 0 {
        w
    } else {
        spec_resolve_world(spec_combat_world(w, attacks, (n - 1) as nat), attacks[n - 1])
    }
}

/// What the first `n` strikes queue, each judged by the world that the
/// strikes before it left.
pub open spec fn spec_combat_commands(w: WorldView, attacks: Seq<WantsToAttack>, n: nat) -> Seq<
    CommandView,
>
    decreases n,
{
    if n == 0 {
        Seq::empty()
    } else {
        spec_combat_commands(w, attacks, (n - 1) as nat) + spec_resolve_commands(
            spec_combat_world(w, attacks, (n - 1) as nat),
            attacks[n - 1],
        )
    }
}

/// The damage of a strike by `attacker`, an entity in the world.
pub fn total_damage(ecs: &World, attacker: Entity) -> (damage: i32)
    requires
        ecs@.has(attacker),
    ensures
        damage == spec_total_damage(ecs@, attacker),
{
    let mut sum: i128 = match ecs.entities[attacker.0].damage {
        Some(d) => d.0 as i128,
        None => 0,
    };
    let ghost base = sum as int;
    let mut i: usize = 0;
    while i < ecs.entities.len()
        invariant
            i <= ecs.entities@.len(),
            -0x8000_0000 <= base <= 0x7fff_ffff,
            sum == base + spec_weapon_damage(ecs@.entities, attacker, i as nat),
            -0x8000_0000 * (i + 1) <= sum <= 0x8000_0000 * (i + 1),
        decreases ecs.entities@.len() - i,
    {
        let record = &ecs.entities[i];
        let by_attacker = match record.carried {
            Some(c) => c.0.0 == attacker.0,
            None => false,
        };
        if record.alive && by_attacker {
            match record.damage {
                Some(d) => {
                    sum = sum + d.0 as i128;
                },
                None => {},
            }
        }
        i += 1;
    }
    if sum < i32::MIN as i128 {
        i32::MIN
    } else if sum > i32::MAX as i128 {
        i32::MAX
    } else {
        sum as i32
    }
}

/// Resolves one strike.
pub fn resolve_attack(ecs: &mut World, commands: &mut CommandBuffer, attack: WantsToAttack)
    ensures
        final(ecs)@ == spec_resolve_world(old(ecs)@, attack),
        final(commands)@ == old(commands)@ + spec_resolve_commands(old(ecs)@, attack),
{
    let ghost before = ecs@;
    let ghost queued = commands@;
    assert(commands@ + Seq::<CommandView>::empty() =~= commands@);
    if !ecs.contains(attack.attacker) || !ecs.contains(attack.victim) {
        return ;
    }
    if ecs.entities[attack.attacker.0].stunned.is_some() {
        return ;
    }
    let damage = total_damage(ecs, attack.attacker);
    let victim_is_player = ecs.entities[attack.victim.0].player.is_some();
    let attacker_is_player = ecs.entities[attack.attacker.0].player.is_some();
    if attacker_is_player {
        match &ecs.entities[attack.victim.0].name {
            Some(name) => {
                EventLog::log(commands, attack_message(&name.0, damage));
            },
            None => {},
        }
    }
    let ghost report = commands@;
    match ecs.entities[attack.victim.0].health {
        Some(health) => {
            let left: i64 = health.current as i64 - damage as i64;
            let current: i32 = if left < i32::MIN as i64 {
                i32::MIN
            } else if left > i32::MAX as i64 {
                i32::MAX
            } else {
                left as i32
            };
            ecs.entities[attack.victim.0].health = Some(Health { current, max: health.max });
            assert(ecs@.entities =~= before.entities.update(
                attack.victim.0 as int,
                EntityView {
                    health: Some(spec_health_after(before, attack)),
                    ..before.entities[attack.victim.0 as int]
                },
            ));
            if current < 1 && !victim_is_player {
                commands.push(Command::Remove(attack.victim));
            }
        },
        None => {},
    }
    assert(commands@ =~= queued + spec_resolve_commands(before, attack));
}

/// Resolves every intent to strike, in the order in which they came, and
/// uses them up.
pub fn combat(ecs: &mut World, commands: &mut CommandBuffer)
    ensures
        final(ecs)@ == (WorldView {
            attacks: Seq::empty(),
            ..spec_combat_world(old(ecs)@, old(ecs)@.attacks, old(ecs)@.attacks.len())
        }),
        final(commands)@ == old(commands)@ + spec_combat_commands(
            old(ecs)@,
            old(ecs)@.attacks,
            old(ecs)@.attacks.len(),
        ),
{
    let ghost attacks = ecs@.attacks;
    let mut i: usize = 0;
    assert(commands@ + Seq::<CommandView>::empty() =~= commands@);
    while i < ecs.attacks.len()
        invariant
            i <= ecs.attacks@.len(),
            attacks == old(ecs)@.attacks,
            ecs@ == spec_combat_world(old(ecs)@, attacks, i as nat),
            ecs@.attacks == attacks,
            commands@ == old(commands)@ + spec_combat_commands(old(ecs)@, attacks, i as nat),
        decreases ecs.attacks@.len() - i,
    {
        let attack = ecs.attacks[i];
        let ghost before = ecs@;
        let ghost queued = commands@;
        resolve_attack(ecs, commands, attack);
        assert(commands@ =~= old(commands)@ + spec_combat_commands(
            old(ecs)@,
            attacks,
            (i + 1) as nat,
        ));
        i += 1;
    }
    ecs.attacks.clear();
}

} // verus!
