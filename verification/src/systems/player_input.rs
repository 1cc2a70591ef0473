//! The player's input: what the player asked for becomes intents and
//! deferred changes, and a turn begins where the player acted.

use vstd::prelude::*;
use crate::components::{ActivateItem, Carried, Entity, WantsToAttack, WantsToMove};
use crate::geometry::Point;
use crate::map::{spec_enterable, Grid, TileType};
use crate::turn_state::TurnState;
use crate::world::{Command, CommandBuffer, CommandView, EntityView, World, WorldView};

verus! {

/// The most things that the player can carry and still pick up another.
pub const PACK_SIZE: usize = 10;

/// What the player asked for.
#[derive(Clone, Copy, Debug, PartialEq, Eq, Structural)]
pub enum PlayerInput {
    /// A step by the given offset.
    Move(Point),
    /// Picking up what lies under the player.
    PickUp,
    /// Using the item in the given slot of the pack, the first slot being 0.
    UseItem(usize),
}

/// The player and where the player stands, where both are there.
pub open spec fn spec_player_at(w: WorldView) -> Option<(Entity, Point)> {
    match w.player() {
        Some(e) => match w.entities[e.0 as int].position {
            Some(p) => Some((e, p)),
            None => None,
        },
        None => None,
    }
}

/// Whether row `i` holds an enemy that stands at `p`.
pub open spec fn spec_enemy_at(entities: Seq<EntityView>, i: int, p: Point) -> bool {
    entities[i].alive && entities[i].enemy is Some && entities[i].position == Some(p)
}

/// The intents to strike each enemy at `p` among the first `n` rows.
pub open spec fn spec_attacks_on(
    entities: Seq<EntityView>,
    attacker: Entity,
    p: Point,
    n: nat,
) -> Seq<CommandView>
    decreases n,
{
    if n == 0 {
        Seq::empty()
    } else {
        let before = spec_attacks_on(entities, attacker, p, (n - 1) as nat);
        if spec_enemy_at(entities, n - 1, p) {
            before.push(
                CommandView::Attack(WantsToAttack { attacker, victim: Entity((n - 1) as usize) }),
            )
        } else {
            before
        }
    }
}

/// Whether row `i` holds something that `carrier` carries.
pub open spec fn spec_carried_by(entities: Seq<EntityView>, i: int, carrier: Entity) -> bool {
    entities[i].alive && entities[i].carried == Some(Carried(carrier))
}

/// The number of things that `carrier` carries among the first `n` rows.
pub open spec fn spec_carried_count(entities: Seq<EntityView>, carrier: Entity, n: nat) -> nat
    decreases n,
{
    if n == 0 {
        0
    } else {
        spec_carried_count(entities, carrier, (n - 1) as nat) + if spec_carried_by(
            entities,
            n - 1,
            carrier,
        ) {
            1nat
        } else {
            0nat
        }
    }
}

/// The changes that take each weapon that `carrier` carries, among the
/// first `n` rows, out of the world.
pub open spec fn spec_drop_weapons(entities: Seq<EntityView>, carrier: Entity, n: nat) -> Seq<
    CommandView,
>
    decreases n,
{
    if n == 0 {
        Seq::empty()
    } else {
        let before = spec_drop_weapons(entities, carrier, (n - 1) as nat);
        if spec_carried_by(entities, n - 1, carrier) && entities[n - 1].weapon is Some {
            before.push(CommandView::Remove(Entity((n - 1) as usize)))
        } else {
            before
        }
    }
}

/// Whether row `i` holds an item that lies at `p`.
pub open spec fn spec_item_at(entities: Seq<EntityView>, i: int, p: Point) -> bool {
    entities[i].alive && entities[i].item is Some && entities[i].position == Some(p)
}

/// The changes that pick up each item at `p` among the first `n` rows: the
/// item leaves the grid and goes to the carrier, and a weapon picked up
/// ousts the weapons carried before.
pub open spec fn spec_pick_up(entities: Seq<EntityView>, carrier: Entity, p: Point, n: nat) -> Seq<
    CommandView,
>
    decreases n,
{
    if n == 0 {
        Seq::empty()
    } else {
        let before = spec_pick_up(entities, carrier, p, (n - 1) as nat);
        if spec_item_at(entities, n - 1, p) {
            let e = Entity((n - 1) as usize);
            let ousted = if entities[n - 1].weapon is Some {
                spec_drop_weapons(entities, carrier, entities.len())
            } else {
                Seq::empty()
            };
            (before + ousted).push(CommandView::RemovePosition(e)).push(
                CommandView::SetCarried(e, Carried(carrier)),
            )
        } else {
            before
        }
    }
}

/// Whether row `i` holds an item in the pack of `carrier`.
pub open spec fn spec_in_pack(entities: Seq<EntityView>, i: int, carrier: Entity) -> bool {
    entities[i].item is Some && spec_carried_by(entities, i, carrier)
}

/// The item in slot `slot` of the pack of `carrier`, counting the items
/// from row `from` on.
pub open spec fn spec_pack_slot(
    entities: Seq<EntityView>,
    carrier: Entity,
    slot: nat,
    from: int,
) -> Option<Entity>
    decreases entities.len() - from,
{
    if from < 0 || from >= entities.len() {
        None
    } else if spec_in_pack(entities, from, carrier) {
        if slot == 0 {
            Some(Entity(from as usize))
        } else {
            spec_pack_slot(entities, carrier, (slot - 1) as nat, from + 1)
        }
    } else {
        spec_pack_slot(entities, carrier, slot, from + 1)
    }
}

/// Where a step by `delta` from `p` leads, if that lies within the range of
/// the coordinates.
pub open spec fn spec_destination(p: Point, delta: Point) -> Option<Point> {
    if p.offset_fits(delta) {
        Some(p.spec_offset(delta))
    } else {
        None
    }
}

/// What a step by `delta` queues: a strike at each enemy in the way, or
/// else, where the tile can be entered, the move. A step nowhere, off the
/// grid or into a wall queues nothing.
pub open spec fn spec_step_commands(
    w: WorldView,
    tiles: Seq<TileType>,
    player: Entity,
    p: Point,
    delta: Point,
) -> Seq<CommandView> {
    match spec_destination(p, delta) {
        Some(destination) => {
            let attacks = spec_attacks_on(w.entities, player, destination, w.entities.len());
            if delta.x == 0 && delta.y == 0 {
                Seq::empty()
            } else if attacks.len() > 0 {
                attacks
            } else if spec_enterable(tiles, destination) {
                seq![CommandView::Move(WantsToMove { entity: player, destination })]
            } else {
                Seq::empty()
            }
        },
        None => Seq::empty(),
    }
}

/// What the player's input queues.
pub open spec fn spec_input_commands(
    w: WorldView,
    tiles: Seq<TileType>,
    input: Option<PlayerInput>,
) -> Seq<
    CommandView,
> {
    match (input, spec_player_at(w)) {
        (Some(PlayerInput::Move(delta)), Some((player, p))) => spec_step_commands(
            w,
            tiles,
            player,
            p,
            delta,
        ),
        (Some(PlayerInput::PickUp), Some((player, p))) => if spec_carried_count(
            w.entities,
            player,
            w.entities.len(),
        ) <= PACK_SIZE {
            spec_pick_up(w.entities, player, p, w.entities.len())
        } else {
            Seq::empty()
        },
        (Some(PlayerInput::UseItem(slot)), Some((player, p))) => match spec_pack_slot(
            w.entities,
            player,
            slot as nat,
            0,
        ) {
            Some(item) => if w.entities[item.0 as int].weapon is None {
                seq![CommandView::Activate(ActivateItem { used_by: player, item })]
            } else {
                Seq::empty()
            },
            None => Seq::empty(),
        },
        _ => Seq::empty(),
    }
}

/// Whether the input takes a turn: it does where the player struck or
/// moved.
pub open spec fn spec_input_acts(
    w: WorldView,
    tiles: Seq<TileType>,
    input: Option<PlayerInput>,
) -> bool {
    match (input, spec_player_at(w)) {
        (Some(PlayerInput::Move(delta)), Some((player, p))) => spec_step_commands(
            w,
            tiles,
            player,
            p,
            delta,
        ).len() > 0,
        _ => false,
    }
}

/// The phase after the input: the player's turn where the input takes a
/// turn, and the phase as it was otherwise.
pub open spec fn spec_input_state(
    state: TurnState,
    w: WorldView,
    tiles: Seq<TileType>,
    input: Option<PlayerInput>,
) -> TurnState {
    if spec_input_acts(w, tiles, input) {
        TurnState::PlayerTurn
    } else {
        state
    }
}

/// Queues a strike at each enemy that stands at `p`.
pub fn attack_enemies_at(ecs: &World, commands: &mut CommandBuffer, attacker: Entity, p: Point) -> (hit:
    bool)
    ensures
        final(commands)@ == old(commands)@ + spec_attacks_on(
            ecs@.entities,
            attacker,
            p,
            ecs@.entities.len(),
        ),
        hit == (spec_attacks_on(ecs@.entities, attacker, p, ecs@.entities.len()).len() > 0),
{
    let mut hit = false;
    let mut i: usize = 0;
    assert(commands@ + Seq::<CommandView>::empty() =~= commands@);
    while i < ecs.entities.len()
        invariant
            i <= ecs.entities@.len(),
            commands@ == old(commands)@ + spec_attacks_on(ecs@.entities, attacker, p, i as nat),
            hit == (spec_attacks_on(ecs@.entities, attacker, p, i as nat).len() > 0),
        decreases ecs.entities@.len() - i,
    {
        let record = &ecs.entities[i];
        let at_p = match record.position {
            Some(pos) => pos.x == p.x && pos.y == p.y,
            None => false,
        };
        if record.alive && record.enemy.is_some() && at_p {
            let ghost before = commands@;
            commands.push(Command::Attack(WantsToAttack { attacker, victim: Entity(i) }));
            hit = true;
            assert(commands@ =~= old(commands)@ + spec_attacks_on(
                ecs@.entities,
                attacker,
                p,
                (i + 1) as nat,
            ));
        }
        i += 1;
    }
    hit
}

/// The number of things that `carrier` carries.
pub fn carried_count(ecs: &World, carrier: Entity) -> (n: usize)
    ensures
        n == spec_carried_count(ecs@.entities, carrier, ecs@.entities.len()),
{
    let mut n: usize = 0;
    let mut i: usize = 0;
    while i < ecs.entities.len()
        invariant
            i <= ecs.entities@.len(),
            n <= i,
            n == spec_carried_count(ecs@.entities, carrier, i as nat),
        decreases ecs.entities@.len() - i,
    {
        let record = &ecs.entities[i];
        let by_carrier = match record.carried {
            Some(c) => c.0.0 == carrier.0,
            None => false,
        };
        if record.alive && by_carrier {
            n += 1;
        }
        i += 1;
    }
    n
}

/// Queues the removal of each weapon that `carrier` carries.
pub fn drop_weapons(ecs: &World, commands: &mut CommandBuffer, carrier: Entity)
    ensures
        final(commands)@ == old(commands)@ + spec_drop_weapons(
            ecs@.entities,
            carrier,
            ecs@.entities.len(),
        ),
{
    let mut i: usize = 0;
    assert(commands@ + Seq::<CommandView>::empty() =~= commands@);
    while i < ecs.entities.len()
        invariant
            i <= ecs.entities@.len(),
            commands@ == old(commands)@ + spec_drop_weapons(ecs@.entities, carrier, i as nat),
        decreases ecs.entities@.len() - i,
    {
        let record = &ecs.entities[i];
        let by_carrier = match record.carried {
            Some(c) => c.0.0 == carrier.0,
            None => false,
        };
        if record.alive && by_carrier && record.weapon.is_some() {
            commands.push(Command::Remove(Entity(i)));
            assert(commands@ =~= old(commands)@ + spec_drop_weapons(
                ecs@.entities,
                carrier,
                (i + 1) as nat,
            ));
        }
        i += 1;
    }
}

/// Queues what picks up each item that lies at `p`.
pub fn pick_up(ecs: &World, commands: &mut CommandBuffer, carrier: Entity, p: Point)
    ensures
        final(commands)@ == old(commands)@ + spec_pick_up(
            ecs@.entities,
            carrier,
            p,
            ecs@.entities.len(),
        ),
{
    let mut i: usize = 0;
    assert(commands@ + Seq::<CommandView>::empty() =~= commands@);
    while i < ecs.entities.len()
        invariant
            i <= ecs.entities@.len(),
            commands@ == old(commands)@ + spec_pick_up(ecs@.entities, carrier, p, i as nat),
        decreases ecs.entities@.len() - i,
    {
        let record = &ecs.entities[i];
        let at_p = match record.position {
            Some(pos) => pos.x == p.x && pos.y == p.y,
            None => false,
        };
        if record.alive && record.item.is_some() && at_p {
            let ghost before = spec_pick_up(ecs@.entities, carrier, p, i as nat);
            let ghost ousted = if ecs@.entities[i as int].weapon is Some {
                spec_drop_weapons(ecs@.entities, carrier, ecs@.entities.len())
            } else {
                Seq::empty()
            };
            if record.weapon.is_some() {
                drop_weapons(ecs, commands, carrier);
            }
            assert(commands@ =~= old(commands)@ + (before + ousted));
            commands.push(Command::RemovePosition(Entity(i)));
            commands.push(Command::SetCarried(Entity(i), Carried(carrier)));
            assert(commands@ =~= old(commands)@ + spec_pick_up(
                ecs@.entities,
                carrier,
                p,
                (i + 1) as nat,
            ));
        }
        i += 1;
    }
}

/// The item in slot `slot` of the pack of `carrier`.
pub fn pack_slot(ecs: &World, carrier: Entity, slot: usize) -> (r: Option<Entity>)
    ensures
        r == spec_pack_slot(ecs@.entities, carrier, slot as nat, 0),
        r is Some ==> ecs@.has(r.unwrap()),
{
    let mut left: usize = slot;
    let mut i: usize = 0;
    while i < ecs.entities.len()
        invariant
            i <= ecs.entities@.len(),
            spec_pack_slot(ecs@.entities, carrier, slot as nat, 0) == spec_pack_slot(
                ecs@.entities,
                carrier,
                left as nat,
                i as int,
            ),
        decreases ecs.entities@.len() - i,
    {
        let record = &ecs.entities[i];
        let by_carrier = match record.carried {
            Some(c) => c.0.0 == carrier.0,
            None => false,
        };
        if record.alive && by_carrier && record.item.is_some() {
            if left == 0 {
                return Some(Entity(i));
            }
            left -= 1;
        }
        i += 1;
    }
    None
}

/// Queues the intent to use the item in slot `n` of the player's pack,
/// unless the slot is empty or holds a weapon.
pub fn use_item(n: usize, ecs: &World, commands: &mut CommandBuffer)
    ensures
        final(commands)@ == old(commands)@ + spec_input_commands_of_use(ecs@, n),
{
    assert(commands@ + Seq::<CommandView>::empty() =~= commands@);
    match ecs.player() {
        Some(player) => {
            match pack_slot(ecs, player, n) {
                Some(item) => {
                    if ecs.entities[item.0].weapon.is_none() {
                        commands.push(
                            Command::Activate(ActivateItem { used_by: player, item }),
                        );
                        assert(commands@ =~= old(commands)@ + seq![
                            CommandView::Activate(ActivateItem { used_by: player, item }),
                        ]);
                    }
                },
                None => {},
            }
        },
        None => {},
    }
}

/// What using slot `slot` queues.
pub open spec fn spec_input_commands_of_use(w: WorldView, slot: usize) -> Seq<CommandView> {
    match w.player() {
        Some(player) => match spec_pack_slot(w.entities, player, slot as nat, 0) {
            Some(item) => if w.entities[item.0 as int].weapon is None {
                seq![CommandView::Activate(ActivateItem { used_by: player, item })]
            } else {
                Seq::empty()
            },
            None => Seq::empty(),
        },
        None => Seq::empty(),
    }
}

/// Takes the player's input. A step becomes a strike at the enemies in the
/// way, or a move where the way is free; either takes a turn. A step into a
/// wall or off the grid is turned down and takes no turn, nor does picking
/// up or using an item, nor no input at all.
pub fn player_input(
    ecs: &World,
    commands: &mut CommandBuffer,
    input: &Option<PlayerInput>,
    map: &Grid,
    turn_state: &mut TurnState,
)
    requires
        map.wf(),
    ensures
        final(commands)@ == old(commands)@ + spec_input_commands(ecs@, map.tiles@, *input),
        *final(turn_state) == spec_input_state(*old(turn_state), ecs@, map.tiles@, *input),
{
    assert(commands@ + Seq::<CommandView>::empty() =~= commands@);
    let action = match input {
        Some(action) => *action,
        None => {
            return ;
        },
    };
    let player = match ecs.player() {
        Some(player) => player,
        None => {
            return ;
        },
    };
    let player_pos = match ecs.entities[player.0].position {
        Some(p) => p,
        None => {
            return ;
        },
    };
    match action {
        PlayerInput::Move(delta) => {
            let x = player_pos.x.checked_add(delta.x);
            let y = player_pos.y.checked_add(delta.y);
            match (x, y) {
                (Some(x), Some(y)) => {
                    let destination = Point::new(x, y);
                    if delta.x != 0 || delta.y != 0 {
                        let ghost attacks = spec_attacks_on(
                            ecs@.entities,
                            player,
                            destination,
                            ecs@.entities.len(),
                        );
                        let hit_something = attack_enemies_at(ecs, commands, player, destination);
                        if hit_something {
                            *turn_state = TurnState::PlayerTurn;
                        } else {
                            assert(attacks =~= Seq::<CommandView>::empty());
                            if map.can_enter_tile(destination) {
                                commands.push(
                                    Command::Move(WantsToMove { entity: player, destination }),
                                );
                                assert(commands@ =~= old(commands)@ + seq![
                                    CommandView::Move(WantsToMove { entity: player, destination }),
                                ]);
                                *turn_state = TurnState::PlayerTurn;
                            }
                        }
                    }
                },
                _ => {},
            }
        },
        PlayerInput::PickUp => {
            if carried_count(ecs, player) <= PACK_SIZE {
                pick_up(ecs, commands, player, player_pos);
            }
        },
        PlayerInput::UseItem(slot) => {
            use_item(slot, ecs, commands);
        },
    }
}

/// Without input, or with input that is no step, the phase stays as it
/// is.
pub proof fn lemma_no_step_no_turn(
    state: TurnState,
    w: WorldView,
    tiles: Seq<TileType>,
    input: Option<PlayerInput>,
)
    requires
        !(input matches Some(PlayerInput::Move(_))),
    ensures
        spec_input_state(state, w, tiles, input) == state,
{
}

/// A step onto a tile that can be entered, or at an enemy, begins the
/// player's turn.
pub proof fn lemma_step_takes_turn(
    state: TurnState,
    w: WorldView,
    tiles: Seq<TileType>,
    delta: Point,
)
    requires
        spec_player_at(w) is Some,
        delta.x != 0 || delta.y != 0,
        spec_destination(spec_player_at(w).unwrap().1, delta) is Some,
        spec_enterable(tiles, spec_destination(spec_player_at(w).unwrap().1, delta).unwrap())
            || exists|i: int|
            0 <= i < w.entities.len() && spec_enemy_at(
                w.entities,
                i,
                spec_destination(spec_player_at(w).unwrap().1, delta).unwrap(),
            ),
    ensures
        spec_input_state(state, w, tiles, Some(PlayerInput::Move(delta))) == TurnState::PlayerTurn,
{
    let (player, p) = spec_player_at(w).unwrap();
    let destination = spec_destination(p, delta).unwrap();
    if exists|i: int| 0 <= i < w.entities.len() && spec_enemy_at(w.entities, i, destination) {
        let i = choose|i: int| 0 <= i < w.entities.len() && spec_enemy_at(w.entities, i, destination);
        lemma_attacks_nonempty(w.entities, player, destination, w.entities.len(), i);
    }
}

/// An enemy at `p` among the rows draws a strike.
proof fn lemma_attacks_nonempty(
    entities: Seq<EntityView>,
    attacker: Entity,
    p: Point,
    n: nat,
    i: int,
)
    requires
        0 <= i < n <= entities.len(),
        spec_enemy_at(entities, i, p),
    ensures
        spec_attacks_on(entities, attacker, p, n).len() > 0,
    decreases n,
{
    if i < n - 1 {
        lemma_attacks_nonempty(entities, attacker, p, (n - 1) as nat, i);
    }
}

/// No enemy at `p` among the rows, no strike.
proof fn lemma_attacks_empty(entities: Seq<EntityView>, attacker: Entity, p: Point, n: nat)
    requires
        n <= entities.len(),
        forall|i: int| 0 <= i < n ==> !spec_enemy_at(entities, i, p),
    ensures
        spec_attacks_on(entities, attacker, p, n).len() == 0,
    decreases n,
{
    if n > 0 {
        lemma_attacks_empty(entities, attacker, p, (n - 1) as nat);
    }
}

/// A step into a tile that cannot be entered and holds no enemy is turned
/// down: nothing is queued, and the phase stays as it is.
pub proof fn lemma_blocked_step_rejected(
    state: TurnState,
    w: WorldView,
    tiles: Seq<TileType>,
    delta: Point,
)
    requires
        spec_player_at(w) is Some,
        spec_destination(spec_player_at(w).unwrap().1, delta) is Some,
        !spec_enterable(tiles, spec_destination(spec_player_at(w).unwrap().1, delta).unwrap()),
        forall|i: int|
            0 <= i < w.entities.len() ==> !spec_enemy_at(
                w.entities,
                i,
                spec_destination(spec_player_at(w).unwrap().1, delta).unwrap(),
            ),
    ensures
        spec_input_commands(w, tiles, Some(PlayerInput::Move(delta))).len() == 0,
        spec_input_state(state, w, tiles, Some(PlayerInput::Move(delta))) == state,
{
    let (player, p) = spec_player_at(w).unwrap();
    let destination = spec_destination(p, delta).unwrap();
    lemma_attacks_empty(w.entities, player, destination, w.entities.len());
}

} // verus!
