//! The rule systems of the turn engine and the order in which each phase
//! runs them.

use vstd::prelude::*;
use bracket_lib::prelude::RandomNumberGenerator;
use crate::camera::Camera;
use crate::event_log::{EventLog, LogEntryView};
use crate::map::{Grid, TileType};
use crate::map_builder::themes::Theme;
use crate::systems::chasing::{spec_chasing_commands, spec_flipped_world};
use crate::systems::collision::{spec_collision_point, spec_crushed};
use crate::systems::combat::{spec_combat_commands, spec_combat_world};
use crate::systems::end_turn::spec_end_turn;
use crate::systems::event::spec_log_all;
use crate::systems::fov::spec_refreshed;
use crate::systems::movement::{
    spec_movement_camera, spec_movement_commands, spec_movement_revealed,
};
use crate::systems::player_input::{spec_input_commands, spec_input_state, PlayerInput};
use crate::systems::random_move::spec_random_moves;
use crate::systems::use_effect::{spec_worn, spec_worn_off};
use crate::systems::use_item::{spec_uses_commands, spec_uses_map, spec_uses_world};
use crate::turn_state::TurnState;
use crate::world::{spec_flush, CommandBuffer, CommandView, World, WorldView};

pub mod chasing;
pub mod collision;
pub mod combat;
pub mod end_turn;
pub mod entity_render;
pub mod event;
pub mod fov;
pub mod hud;
pub mod movement;
pub mod player_input;
pub mod random_move;
pub mod tooltip;
pub mod use_effect;
pub mod use_item;

verus! {

/// A step of a phase: a rule system, or the barrier at which the queued
/// changes are applied.
#[derive(Clone, Copy, Debug, PartialEq, Eq, Structural)]
pub enum SystemStep {
    PlayerInput,
    Fov,
    Flush,
    UseItems,
    Combat,
    Movement,
    Collisions,
    UseEffect,
    RandomMove,
    Chasing,
    Event,
    EndTurn,
}

/// The steps of a phase, in the order in which they run.
pub struct Schedule {
    pub steps: Vec<SystemStep>,
}

/// What the rule systems share besides the entity store.
pub struct Resources {
    pub map: Grid,
    pub camera: Camera,
    pub turn_state: TurnState,
    pub theme: Theme,
    pub event_log: EventLog,
    /// The changes that wait for the next flush.
    pub commands: CommandBuffer,
}

/// Everything that a step can read or change, as a plain value.
pub struct EngineView {
    pub world: WorldView,
    pub commands: Seq<CommandView>,
    pub tiles: Seq<TileType>,
    pub revealed: Seq<bool>,
    pub camera: Camera,
    pub turn_state: TurnState,
    pub log: Seq<LogEntryView>,
}

/// The state of the engine.
pub open spec fn spec_engine(ecs: World, resources: Resources) -> EngineView {
    EngineView {
        world: ecs@,
        commands: resources.commands@,
        tiles: resources.map.tiles@,
        revealed: resources.map.revealed_tiles@,
        camera: resources.camera,
        turn_state: resources.turn_state,
        log: resources.event_log@,
    }
}

/// The steps while input is awaited: the input is taken and sight is seen
/// to, then the barrier.
pub open spec fn spec_input_steps() -> Seq<SystemStep> {
    seq![SystemStep::PlayerInput, SystemStep::Fov, SystemStep::Flush]
}

/// The steps of the player's turn.
pub open spec fn spec_player_steps() -> Seq<SystemStep> {
    seq![
        SystemStep::UseItems,
        SystemStep::Combat,
        SystemStep::Flush,
        SystemStep::Movement,
        SystemStep::Flush,
        SystemStep::Collisions,
        SystemStep::Flush,
        SystemStep::Fov,
        SystemStep::Flush,
        SystemStep::Event,
        SystemStep::EndTurn,
    ]
}

/// The steps of the monsters' turn.
pub open spec fn spec_monster_steps() -> Seq<SystemStep> {
    seq![
        SystemStep::UseEffect,
        SystemStep::RandomMove,
        SystemStep::Chasing,
        SystemStep::Flush,
        SystemStep::UseItems,
        SystemStep::Combat,
        SystemStep::Flush,
        SystemStep::Movement,
        SystemStep::Flush,
        SystemStep::Fov,
        SystemStep::Flush,
        SystemStep::Event,
        SystemStep::EndTurn,
    ]
}

/// Whether `after` is what `step` makes of `before`.
#[verifier::opaque]
pub open spec fn spec_step(
    step: SystemStep,
    input: Option<PlayerInput>,
    before: EngineView,
    after: EngineView,
) -> bool {
    match step {
        SystemStep::PlayerInput => after == (EngineView {
            commands: before.commands + spec_input_commands(before.world, before.tiles, input),
            turn_state: spec_input_state(before.turn_state, before.world, before.tiles, input),
            ..before
        }),
        SystemStep::Fov => after == (EngineView {
            world: WorldView {
                entities: Seq::new(
                    before.world.entities.len(),
                    |i: int| spec_refreshed(before.world.entities[i], before.tiles),
                ),
                ..before.world
            },
            ..before
        }),
        SystemStep::Flush => after == (EngineView {
            world: spec_flush(before.world, before.commands, before.commands.len()),
            commands: Seq::empty(),
            ..before
        }),
        SystemStep::UseItems => {
            let uses = before.world.activations;
            &&& after.world == (WorldView {
                activations: Seq::empty(),
                ..spec_uses_world(before.world, uses, uses.len())
            })
            &&& after.commands == before.commands + spec_uses_commands(
                before.world,
                uses,
                uses.len(),
            )
            &&& after.tiles == before.tiles
            &&& after.revealed.len() == before.revealed.len()
            &&& if spec_uses_map(before.world, uses, uses.len()) {
                forall|i: int| 0 <= i < after.revealed.len() ==> after.revealed[i]
            } else {
                after.revealed == before.revealed
            }
            &&& after.camera == before.camera
            &&& after.turn_state == before.turn_state
            &&& after.log == before.log
        },
        SystemStep::Combat => after == (EngineView {
            world: WorldView {
                attacks: Seq::empty(),
                ..spec_combat_world(
                    before.world,
                    before.world.attacks,
                    before.world.attacks.len(),
                )
            },
            commands: before.commands + spec_combat_commands(
                before.world,
                before.world.attacks,
                before.world.attacks.len(),
            ),
            ..before
        }),
        SystemStep::Movement => after == (EngineView {
            world: WorldView { moves: Seq::empty(), ..before.world },
            commands: before.commands + spec_movement_commands(
                before.world,
                before.tiles,
                before.world.moves.len(),
            ),
            revealed: spec_movement_revealed(
                before.revealed,
                before.world,
                before.tiles,
                before.world.moves.len(),
            ),
            camera: spec_movement_camera(
                before.camera,
                before.world,
                before.tiles,
                before.world.moves.len(),
            ),
            ..before
        }),
        SystemStep::Collisions => after == (EngineView {
            commands: before.commands + spec_crushed(
                before.world.entities,
                spec_collision_point(before.world),
                before.world.entities.len(),
            ),
            ..before
        }),
        SystemStep::UseEffect => after == (EngineView {
            world: WorldView {
                entities: Seq::new(
                    before.world.entities.len(),
                    |i: int| spec_worn(before.world.entities[i]),
                ),
                ..before.world
            },
            commands: before.commands + spec_worn_off(
                before.world.entities,
                before.world.entities.len(),
            ),
            ..before
        }),
        SystemStep::RandomMove => exists|rolls: Seq<int>|
            {
                &&& rolls.len() == before.world.entities.len()
                &&& forall|i: int| 0 <= i < rolls.len() ==> 0 <= #[trigger] rolls[i] < 4
                &&& after == (EngineView {
                    commands: before.commands + spec_random_moves(
                        before.world.entities,
                        rolls,
                        before.world.entities.len(),
                    ),
                    ..before
                })
            },
        SystemStep::Chasing => after == (EngineView {
            world: spec_flipped_world(before.world),
            commands: before.commands + spec_chasing_commands(before.world, before.tiles),
            ..before
        }),
        SystemStep::Event => after == (EngineView {
            world: WorldView { logs: Seq::empty(), ..before.world },
            log: spec_log_all(before.log, before.world.logs, before.world.logs.len()),
            ..before
        }),
        SystemStep::EndTurn => after == (EngineView {
            turn_state: spec_end_turn(before.turn_state, before.world, before.tiles),
            ..before
        }),
    }
}

/// Whether `trace` tells a run of `steps`: it holds the state before the
/// first step and after every step, each made from the one before by its
/// step.
pub open spec fn spec_run(
    steps: Seq<SystemStep>,
    input: Option<PlayerInput>,
    trace: Seq<EngineView>,
) -> bool {
    &&& trace.len() == steps.len() + 1
    &&& forall|k: int|
        0 <= k < steps.len() ==> spec_step(#[trigger] steps[k], input, trace[k], trace[k + 1])
}

/// The steps while input is awaited.
pub fn build_input_scheduler() -> (schedule: Schedule)
    ensures
        schedule.steps@ == spec_input_steps(),
{
    let mut steps: Vec<SystemStep> = Vec::new();
    steps.push(SystemStep::PlayerInput);
    steps.push(SystemStep::Fov);
    steps.push(SystemStep::Flush);
    assert(steps@ =~= spec_input_steps());
    Schedule { steps }
}

/// The steps of the player's turn.
pub fn build_player_scheduler() -> (schedule: Schedule)
    ensures
        schedule.steps@ == spec_player_steps(),
{
    let mut steps: Vec<SystemStep> = Vec::new();
    steps.push(SystemStep::UseItems);
    steps.push(SystemStep::Combat);
    steps.push(SystemStep::Flush);
    steps.push(SystemStep::Movement);
    steps.push(SystemStep::Flush);
    steps.push(SystemStep::Collisions);
    steps.push(SystemStep::Flush);
    steps.push(SystemStep::Fov);
    steps.push(SystemStep::Flush);
    steps.push(SystemStep::Event);
    steps.push(SystemStep::EndTurn);
    assert(steps@ =~= spec_player_steps());
    Schedule { steps }
}

/// The steps of the monsters' turn.
pub fn build_monster_scheduler() -> (schedule: Schedule)
    ensures
        schedule.steps@ == spec_monster_steps(),
{
    let mut steps: Vec<SystemStep> = Vec::new();
    steps.push(SystemStep::UseEffect);
    steps.push(SystemStep::RandomMove);
    steps.push(SystemStep::Chasing);
    steps.push(SystemStep::Flush);
    steps.push(SystemStep::UseItems);
    steps.push(SystemStep::Combat);
    steps.push(SystemStep::Flush);
    steps.push(SystemStep::Movement);
    steps.push(SystemStep::Flush);
    steps.push(SystemStep::Fov);
    steps.push(SystemStep::Flush);
    steps.push(SystemStep::Event);
    steps.push(SystemStep::EndTurn);
    assert(steps@ =~= spec_monster_steps());
    Schedule { steps }
}

/// Runs one step.
pub fn run_step(
    step: SystemStep,
    ecs: &mut World,
    resources: &mut Resources,
    input: &Option<PlayerInput>,
    rng: &mut RandomNumberGenerator,
)
    requires
        old(resources).map.wf(),
    ensures
        final(resources).map.wf(),
        final(resources).theme == old(resources).theme,
        spec_step(
            step,
            *input,
            spec_engine(*old(ecs), *old(resources)),
            spec_engine(*final(ecs), *final(resources)),
        ),
{
    let ghost before = spec_engine(*ecs, *resources);
    proof {
        reveal(spec_step);
    }
    match step {
        SystemStep::PlayerInput => {
            player_input::player_input(
                ecs,
                &mut resources.commands,
                input,
                &resources.map,
                &mut resources.turn_state,
            );
        },
        SystemStep::Fov => {
            fov::fov(ecs, &resources.map);
        },
        SystemStep::Flush => {
            ecs.flush(&mut resources.commands);
            assert(resources.commands@ =~= Seq::<CommandView>::empty());
        },
        SystemStep::UseItems => {
            use_item::use_items(ecs, &mut resources.commands, &mut resources.map);
        },
        SystemStep::Combat => {
            combat::combat(ecs, &mut resources.commands);
        },
        SystemStep::Movement => {
            movement::movement(
                ecs,
                &mut resources.map,
                &mut resources.camera,
                &mut resources.commands,
            );
        },
        SystemStep::Collisions => {
            collision::collisions(ecs, &mut resources.commands);
        },
        SystemStep::UseEffect => {
            use_effect::use_items(ecs, &mut resources.commands);
        },
        SystemStep::RandomMove => {
            random_move::random_move(ecs, &mut resources.commands, rng);
        },
        SystemStep::Chasing => {
            chasing::chasing(&resources.map, ecs, &mut resources.commands);
        },
        SystemStep::Event => {
            event::event(ecs, &mut resources.event_log);
        },
        SystemStep::EndTurn => {
            end_turn::end_turn(ecs, &mut resources.turn_state, &resources.map);
        },
    }
}

impl Schedule {
    /// Runs the steps in their order, each on what the one before left.
    pub fn execute(
        &self,
        ecs: &mut World,
        resources: &mut Resources,
        input: &Option<PlayerInput>,
        rng: &mut RandomNumberGenerator,
    )
        requires
            old(resources).map.wf(),
        ensures
            final(resources).map.wf(),
            final(resources).theme == old(resources).theme,
            exists|trace: Seq<EngineView>|
                {
                    &&& spec_run(self.steps@, *input, trace)
                    &&& trace[0] == spec_engine(*old(ecs), *old(resources))
                    &&& trace[self.steps@.len() as int] == spec_engine(*final(ecs), *final(resources))
                },
    {
        let ghost mut trace: Seq<EngineView> = seq![spec_engine(*ecs, *resources)];
        let mut k: usize = 0;
        while k < self.steps.len()
            invariant
                k <= self.steps@.len(),
                resources.map.wf(),
                resources.theme == old(resources).theme,
                trace.len() == k + 1,
                trace[0] == spec_engine(*old(ecs), *old(resources)),
                trace[k as int] == spec_engine(*ecs, *resources),
                forall|j: int|
                    0 <= j < k ==> spec_step(#[trigger] self.steps@[j], *input, trace[j], trace[j + 1]),
            decreases self.steps@.len() - k,
        {
            run_step(self.steps[k], ecs, resources, input, rng);
            proof {
                trace = trace.push(spec_engine(*ecs, *resources));
            }
            k += 1;
        }
        assert(spec_run(self.steps@, *input, trace));
    }
}

/// Only the player's input and the end of a turn change the phase, and no
/// step changes a tile.
pub proof fn lemma_step_keeps_phase(
    step: SystemStep,
    input: Option<PlayerInput>,
    before: EngineView,
    after: EngineView,
)
    requires
        spec_step(step, input, before, after),
    ensures
        after.tiles == before.tiles,
        step != SystemStep::PlayerInput && step != SystemStep::EndTurn ==> after.turn_state
            == before.turn_state,
        step == SystemStep::PlayerInput ==> after.turn_state == spec_input_state(
            before.turn_state,
            before.world,
            before.tiles,
            input,
        ),
        step == SystemStep::EndTurn ==> after.turn_state == spec_end_turn(
            before.turn_state,
            before.world,
            before.tiles,
        ),
{
    reveal(spec_step);
}

/// Through the first `k` steps of a run that are neither the player's input
/// nor the end of a turn, the phase stays.
pub proof fn lemma_run_keeps_phase(
    steps: Seq<SystemStep>,
    input: Option<PlayerInput>,
    trace: Seq<EngineView>,
    k: nat,
)
    requires
        spec_run(steps, input, trace),
        k <= steps.len(),
        forall|j: int|
            0 <= j < k ==> #[trigger] steps[j] != SystemStep::PlayerInput && steps[j]
                != SystemStep::EndTurn,
    ensures
        trace[k as int].turn_state == trace[0].turn_state,
        trace[k as int].tiles == trace[0].tiles,
    decreases k,
{
    if k > 0 {
        lemma_run_keeps_phase(steps, input, trace, (k - 1) as nat);
        assert(spec_step(steps[k - 1], input, trace[k - 1], trace[k as int]));
        lemma_step_keeps_phase(steps[k - 1], input, trace[k - 1], trace[k as int]);
    }
}

/// The wait for input ends exactly where the input takes a turn: the phase
/// after the steps of the wait is the player's turn where the player
/// struck or moved, and the phase as it was otherwise.
pub proof fn lemma_input_phase(input: Option<PlayerInput>, trace: Seq<EngineView>)
    requires
        spec_run(spec_input_steps(), input, trace),
    ensures
        trace[3].turn_state == spec_input_state(
            trace[0].turn_state,
            trace[0].world,
            trace[0].tiles,
            input,
        ),
{
    let steps = spec_input_steps();
    assert(spec_step(steps[0], input, trace[0], trace[1]));
    assert(spec_step(steps[1], input, trace[1], trace[2]));
    assert(spec_step(steps[2], input, trace[2], trace[3]));
    lemma_step_keeps_phase(steps[0], input, trace[0], trace[1]);
    lemma_step_keeps_phase(steps[1], input, trace[1], trace[2]);
    lemma_step_keeps_phase(steps[2], input, trace[2], trace[3]);
}

/// The player's turn ends with the evaluation of the world that its steps
/// left.
pub proof fn lemma_player_phase(input: Option<PlayerInput>, trace: Seq<EngineView>)
    requires
        spec_run(spec_player_steps(), input, trace),
    ensures
        trace[11].turn_state == spec_end_turn(trace[0].turn_state, trace[10].world, trace[0].tiles),
{
    let steps = spec_player_steps();
    lemma_run_keeps_phase(steps, input, trace, 10);
    assert(spec_step(steps[10], input, trace[10], trace[11]));
    lemma_step_keeps_phase(steps[10], input, trace[10], trace[11]);
}

/// The monsters' turn ends with the evaluation of the world that its steps
/// left.
pub proof fn lemma_monster_phase(input: Option<PlayerInput>, trace: Seq<EngineView>)
    requires
        spec_run(spec_monster_steps(), input, trace),
    ensures
        trace[13].turn_state == spec_end_turn(trace[0].turn_state, trace[12].world, trace[0].tiles),
{
    let steps = spec_monster_steps();
    lemma_run_keeps_phase(steps, input, trace, 12);
    assert(spec_step(steps[12], input, trace[12], trace[13]));
    lemma_step_keeps_phase(steps[12], input, trace[12], trace[13]);
}

} // verus!
