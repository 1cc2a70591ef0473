//! The entity store and the queue of deferred changes.
//!
//! Entities live in a table; an entity's name is its row, and a row is
//! never used again once its entity is gone. Rule systems do not change the
//! shape of the table themselves: they queue commands, and a flush applies
//! the queue in one go between two groups of systems.

use vstd::prelude::*;
use crate::components::{
    spec_unseen, ActivateItem, Carried, ChasingPlayer, Damage, Enemy, Entity, FieldOfView,
    FieldOfViewView, Health, Item, MoveEveryOther, MovingRandomly, Name, Player, ProvidesDungeonMap,
    ProvidesHealing, ProvidesStun, Render, Stunned, TelerportationCrystal, WantsToAttack, WantsToLog,
    WantsToMove, Weapon,
};
use crate::event_log::{LogEntry, LogEntryView};
use crate::geometry::Point;

verus! {

/// A row of the table: every part that an entity can have, each there or
/// not.
pub struct EntityRecord {
    /// Whether the entity is still in the world.
    pub alive: bool,
    pub position: Option<Point>,
    pub render: Option<Render>,
    pub name: Option<Name>,
    pub health: Option<Health>,
    pub damage: Option<Damage>,
    pub player: Option<Player>,
    pub enemy: Option<Enemy>,
    pub item: Option<Item>,
    pub weapon: Option<Weapon>,
    pub chasing_player: Option<ChasingPlayer>,
    pub moving_randomly: Option<MovingRandomly>,
    pub move_every_other: Option<MoveEveryOther>,
    pub teleportation_crystal: Option<TelerportationCrystal>,
    pub field_of_view: Option<FieldOfView>,
    pub provides_healing: Option<ProvidesHealing>,
    pub provides_dungeon_map: Option<ProvidesDungeonMap>,
    pub provides_stun: Option<ProvidesStun>,
    pub carried: Option<Carried>,
    pub stunned: Option<Stunned>,
}

/// A row of the table as a plain value.
pub struct EntityView {
    pub alive: bool,
    pub position: Option<Point>,
    pub render: Option<Render>,
    pub name: Option<Seq<char>>,
    pub health: Option<Health>,
    pub damage: Option<Damage>,
    pub player: Option<Player>,
    pub enemy: Option<Enemy>,
    pub item: Option<Item>,
    pub weapon: Option<Weapon>,
    pub chasing_player: Option<ChasingPlayer>,
    pub moving_randomly: Option<MovingRandomly>,
    pub move_every_other: Option<MoveEveryOther>,
    pub teleportation_crystal: Option<TelerportationCrystal>,
    pub field_of_view: Option<FieldOfViewView>,
    pub provides_healing: Option<ProvidesHealing>,
    pub provides_dungeon_map: Option<ProvidesDungeonMap>,
    pub provides_stun: Option<ProvidesStun>,
    pub carried: Option<Carried>,
    pub stunned: Option<Stunned>,
}

impl View for EntityRecord {
    type V = EntityView;

    open spec fn view(&self) -> EntityView {
        EntityView {
            alive: self.alive,
            position: self.position,
            render: self.render,
            name: match self.name {
                Some(name) => Some(name.0@),
                None => None,
            },
            health: self.health,
            damage: self.damage,
            player: self.player,
            enemy: self.enemy,
            item: self.item,
            weapon: self.weapon,
            chasing_player: self.chasing_player,
            moving_randomly: self.moving_randomly,
            move_every_other: self.move_every_other,
            teleportation_crystal: self.teleportation_crystal,
            field_of_view: match self.field_of_view {
                Some(fov) => Some(fov@),
                None => None,
            },
            provides_healing: self.provides_healing,
            provides_dungeon_map: self.provides_dungeon_map,
            provides_stun: self.provides_stun,
            carried: self.carried,
            stunned: self.stunned,
        }
    }
}

/// An entity with no parts.
pub open spec fn spec_bare() -> EntityView {
    EntityView {
        alive: true,
        position: None,
        render: None,
        name: None,
        health: None,
        damage: None,
        player: None,
        enemy: None,
        item: None,
        weapon: None,
        chasing_player: None,
        moving_randomly: None,
        move_every_other: None,
        teleportation_crystal: None,
        field_of_view: None,
        provides_healing: None,
        provides_dungeon_map: None,
        provides_stun: None,
        carried: None,
        stunned: None,
    }
}

impl EntityRecord {
    /// An entity with no parts.
    pub fn new() -> (record: EntityRecord)
        ensures
            record@ == spec_bare(),
    {
        EntityRecord {
            alive: true,
            position: None,
            render: None,
            name: None,
            health: None,
            damage: None,
            player: None,
            enemy: None,
            item: None,
            weapon: None,
            chasing_player: None,
            moving_randomly: None,
            move_every_other: None,
            teleportation_crystal: None,
            field_of_view: None,
            provides_healing: None,
            provides_dungeon_map: None,
            provides_stun: None,
            carried: None,
            stunned: None,
        }
    }
}

/// A deferred change.
pub enum Command {
    /// Takes an entity out of the world.
    Remove(Entity),
    /// Puts an entity at a point.
    SetPosition(Entity, Point),
    /// Takes an entity off the grid.
    RemovePosition(Entity),
    /// Hands an entity to a carrier.
    SetCarried(Entity, Carried),
    /// Makes what an entity sees due to be computed afresh.
    MarkFieldOfViewDirty(Entity),
    /// Stuns an entity.
    SetStunned(Entity, Stunned),
    /// Ends an entity's stun.
    RemoveStunned(Entity),
    /// Passes on the intent to move.
    Move(WantsToMove),
    /// Passes on the intent to strike.
    Attack(WantsToAttack),
    /// Passes on the intent to use an item.
    Activate(ActivateItem),
    /// Passes on the intent to log a line.
    Log(WantsToLog),
}

/// A deferred change as a plain value.
pub enum CommandView {
    Remove(Entity),
    SetPosition(Entity, Point),
    RemovePosition(Entity),
    SetCarried(Entity, Carried),
    MarkFieldOfViewDirty(Entity),
    SetStunned(Entity, Stunned),
    RemoveStunned(Entity),
    Move(WantsToMove),
    Attack(WantsToAttack),
    Activate(ActivateItem),
    Log(LogEntryView),
}

impl View for Command {
    type V = CommandView;

    open spec fn view(&self) -> CommandView {
        match self {
            Command::Remove(e) => CommandView::Remove(*e),
            Command::SetPosition(e, p) => CommandView::SetPosition(*e, *p),
            Command::RemovePosition(e) => CommandView::RemovePosition(*e),
            Command::SetCarried(e, c) => CommandView::SetCarried(*e, *c),
            Command::MarkFieldOfViewDirty(e) => CommandView::MarkFieldOfViewDirty(*e),
            Command::SetStunned(e, s) => CommandView::SetStunned(*e, *s),
            Command::RemoveStunned(e) => CommandView::RemoveStunned(*e),
            Command::Move(m) => CommandView::Move(*m),
            Command::Attack(a) => CommandView::Attack(*a),
            Command::Activate(a) => CommandView::Activate(*a),
            Command::Log(l) => CommandView::Log(l.log_entry@),
        }
    }
}

/// The queue of deferred changes, oldest first.
pub struct CommandBuffer {
    pub commands: Vec<Command>,
}

impl View for CommandBuffer {
    type V = Seq<CommandView>;

    open spec fn view(&self) -> Seq<CommandView> {
        self.commands@.map_values(|c: Command| c@)
    }
}

impl CommandBuffer {
    pub fn new() -> (buffer: CommandBuffer)
        ensures
            buffer@ == Seq::<CommandView>::empty(),
    {
        let buffer = CommandBuffer { commands: Vec::new() };
        assert(buffer@ =~= Seq::<CommandView>::empty());
        buffer
    }

    /// Queues a change behind those already queued.
    pub fn push(&mut self, command: Command)
        ensures
            final(self)@ == old(self)@.push(command@),
    {
        self.commands.push(command);
        assert(self@ =~= old(self)@.push(command@));
    }
}

/// The entity store, with the intents that wait for their systems.
pub struct World {
    /// The table; the entity `Entity(i)` is row `i`.
    pub entities: Vec<EntityRecord>,
    pub moves: Vec<WantsToMove>,
    pub attacks: Vec<WantsToAttack>,
    pub activations: Vec<ActivateItem>,
    pub logs: Vec<WantsToLog>,
}

/// The entity store as a plain value.
pub struct WorldView {
    pub entities: Seq<EntityView>,
    pub moves: Seq<WantsToMove>,
    pub attacks: Seq<WantsToAttack>,
    pub activations: Seq<ActivateItem>,
    pub logs: Seq<LogEntryView>,
}

impl View for World {
    type V = WorldView;

    open spec fn view(&self) -> WorldView {
        WorldView {
            entities: self.entities@.map_values(|r: EntityRecord| r@),
            moves: self.moves@,
            attacks: self.attacks@,
            activations: self.activations@,
            logs: self.logs@.map_values(|l: WantsToLog| l.log_entry@),
        }
    }
}

impl WorldView {
    /// Whether `e` names an entity that is in the world.
    pub open spec fn has(self, e: Entity) -> bool {
        e.0 < self.entities.len() && self.entities[e.0 as int].alive
    }

    /// The world with row `e` replaced.
    pub open spec fn with_entity(self, e: Entity, record: EntityView) -> WorldView {
        WorldView { entities: self.entities.update(e.0 as int, record), ..self }
    }
}

/// The world after one deferred change. A change to an entity that is no
/// longer in the world does nothing.
pub open spec fn spec_apply(w: WorldView, c: CommandView) -> WorldView {
    match c {
        CommandView::Remove(e) => if w.has(e) {
            w.with_entity(e, EntityView { alive: false, ..w.entities[e.0 as int] })
        } else {
            w
        },
        CommandView::SetPosition(e, p) => if w.has(e) {
            w.with_entity(e, EntityView { position: Some(p), ..w.entities[e.0 as int] })
        } else {
            w
        },
        CommandView::RemovePosition(e) => if w.has(e) {
            w.with_entity(e, EntityView { position: None, ..w.entities[e.0 as int] })
        } else {
            w
        },
        CommandView::SetCarried(e, c) => if w.has(e) {
            w.with_entity(e, EntityView { carried: Some(c), ..w.entities[e.0 as int] })
        } else {
            w
        },
        CommandView::MarkFieldOfViewDirty(e) => if w.has(e) && w.entities[e.0 as int].field_of_view
            is Some {
            w.with_entity(
                e,
                EntityView {
                    field_of_view: Some(
                        spec_unseen(w.entities[e.0 as int].field_of_view.unwrap().radius),
                    ),
                    ..w.entities[e.0 as int]
                },
            )
        } else {
            w
        },
        CommandView::SetStunned(e, s) => if w.has(e) {
            w.with_entity(e, EntityView { stunned: Some(s), ..w.entities[e.0 as int] })
        } else {
            w
        },
        CommandView::RemoveStunned(e) => if w.has(e) {
            w.with_entity(e, EntityView { stunned: None, ..w.entities[e.0 as int] })
        } else {
            w
        },
        CommandView::Move(m) => WorldView { moves: w.moves.push(m), ..w },
        CommandView::Attack(a) => WorldView { attacks: w.attacks.push(a), ..w },
        CommandView::Activate(a) => WorldView { activations: w.activations.push(a), ..w },
        CommandView::Log(l) => WorldView { logs: w.logs.push(l), ..w },
    }
}

/// The world after the first `n` of the queued changes, applied in order.
pub open spec fn spec_flush(w: WorldView, commands: Seq<CommandView>, n: nat) -> WorldView
    decreases n,
{
    if n == 0 {
        w
    } else {
        spec_apply(spec_flush(w, commands, (n - 1) as nat), commands[n - 1])
    }
}

/// The first row from `from` on that holds the player, if there is one.
pub open spec fn spec_find_player(entities: Seq<EntityView>, from: int) -> Option<Entity>
    decreases entities.len() - from,
{
    if from < 0 || from >= entities.len() {
        None
    } else if entities[from].alive && entities[from].player is Some {
        Some(Entity(from as usize))
    } else {
        spec_find_player(entities, from + 1)
    }
}

impl WorldView {
    /// The player, if one is in the world.
    pub open spec fn player(self) -> Option<Entity> {
        spec_find_player(self.entities, 0)
    }
}

impl World {
    /// A world with nothing in it.
    pub fn new() -> (world: World)
        ensures
            world@.entities.len() == 0,
            world@.moves.len() == 0,
            world@.attacks.len() == 0,
            world@.activations.len() == 0,
            world@.logs.len() == 0,
    {
        World {
            entities: Vec::new(),
            moves: Vec::new(),
            attacks: Vec::new(),
            activations: Vec::new(),
            logs: Vec::new(),
        }
    }

    /// Takes a new entity into the world and gives it its name.
    pub fn push(&mut self, record: EntityRecord) -> (e: Entity)
        requires
            old(self).entities@.len() < usize::MAX,
        ensures
            e.0 == old(self)@.entities.len(),
            final(self)@ == (WorldView {
                entities: old(self)@.entities.push(record@),
                ..old(self)@
            }),
    {
        let e = Entity(self.entities.len());
        self.entities.push(record);
        assert(self@.entities =~= old(self)@.entities.push(record@));
        e
    }

    /// Whether `e` names an entity that is in the world.
    pub fn contains(&self, e: Entity) -> (b: bool)
        ensures
            b == self@.has(e),
    {
        e.0 < self.entities.len() && self.entities[e.0].alive
    }

    /// The player, if one is in the world.
    pub fn player(&self) -> (r: Option<Entity>)
        ensures
            r == self@.player(),
            r is Some ==> self@.has(r.unwrap()) && self@.entities[r.unwrap().0 as int].player
                is Some,
    {
        let mut i: usize = 0;
        while i < self.entities.len()
            invariant
                i <= self.entities@.len(),
                spec_find_player(self@.entities, 0) == spec_find_player(self@.entities, i as int),
            decreases self.entities@.len() - i,
        {
            if self.entities[i].alive && self.entities[i].player.is_some() {
                return Some(Entity(i));
            }
            i += 1;
        }
        None
    }

    /// Applies one deferred change.
    pub fn apply(&mut self, command: &Command)
        ensures
            final(self)@ == spec_apply(old(self)@, command@),
    {
        let ghost before = self@;
        match command {
            Command::Remove(e) => {
                if self.contains(*e) {
                    self.entities[e.0].alive = false;
                    assert(self@.entities =~= before.entities.update(
                        e.0 as int,
                        EntityView { alive: false, ..before.entities[e.0 as int] },
                    ));
                }
            },
            Command::SetPosition(e, p) => {
                if self.contains(*e) {
                    self.entities[e.0].position = Some(*p);
                    assert(self@.entities =~= before.entities.update(
                        e.0 as int,
                        EntityView { position: Some(*p), ..before.entities[e.0 as int] },
                    ));
                }
            },
            Command::RemovePosition(e) => {
                if self.contains(*e) {
                    self.entities[e.0].position = None;
                    assert(self@.entities =~= before.entities.update(
                        e.0 as int,
                        EntityView { position: None, ..before.entities[e.0 as int] },
                    ));
                }
            },
            Command::SetCarried(e, c) => {
                if self.contains(*e) {
                    self.entities[e.0].carried = Some(*c);
                    assert(self@.entities =~= before.entities.update(
                        e.0 as int,
                        EntityView { carried: Some(*c), ..before.entities[e.0 as int] },
                    ));
                }
            },
            Command::MarkFieldOfViewDirty(e) => {
                if self.contains(*e) {
                    let fresh = match &self.entities[e.0].field_of_view {
                        Some(fov) => Some(fov.clone_dirty()),
                        None => None,
                    };
                    if fresh.is_some() {
                        self.entities[e.0].field_of_view = fresh;
                        assert(self@.entities =~= before.entities.update(
                            e.0 as int,
                            EntityView {
                                field_of_view: Some(
                                    spec_unseen(
                                        before.entities[e.0 as int].field_of_view.unwrap().radius,
                                    ),
                                ),
                                ..before.entities[e.0 as int]
                            },
                        ));
                    }
                }
            },
            Command::SetStunned(e, s) => {
                if self.contains(*e) {
                    self.entities[e.0].stunned = Some(*s);
                    assert(self@.entities =~= before.entities.update(
                        e.0 as int,
                        EntityView { stunned: Some(*s), ..before.entities[e.0 as int] },
                    ));
                }
            },
            Command::RemoveStunned(e) => {
                if self.contains(*e) {
                    self.entities[e.0].stunned = None;
                    assert(self@.entities =~= before.entities.update(
                        e.0 as int,
                        EntityView { stunned: None, ..before.entities[e.0 as int] },
                    ));
                }
            },
            Command::Move(m) => {
                self.moves.push(*m);
            },
            Command::Attack(a) => {
                self.attacks.push(*a);
            },
            Command::Activate(a) => {
                self.activations.push(*a);
            },
            Command::Log(l) => {
                let entry = LogEntry {
                    message: l.log_entry.message.clone(),
                    color: l.log_entry.color,
                };
                self.logs.push(WantsToLog { log_entry: entry });
                assert(self@.logs =~= before.logs.push(l.log_entry@));
            },
        }
    }

    /// The flush barrier: applies every queued change, in the order in
    /// which they were queued, and leaves the queue empty.
    pub fn flush(&mut self, commands: &mut CommandBuffer)
        ensures
            final(self)@ == spec_flush(old(self)@, old(commands)@, old(commands)@.len()),
            final(commands)@.len() == 0,
    {
        let mut i: usize = 0;
        while i < commands.commands.len()
            invariant
                i <= commands.commands@.len(),
                commands@ == old(commands)@,
                self@ == spec_flush(old(self)@, commands@, i as nat),
            decreases commands.commands@.len() - i,
        {
            assert(commands@[i as int] == commands.commands@[i as int]@);
            self.apply(&commands.commands[i]);
            i += 1;
        }
        commands.commands.clear();
    }
}

} // verus!
