//! The game as a whole: a world, what the rule systems share, and the step
//! that a frame takes.
//!
//! Nothing here draws or reads keys. The frame driver hands in what the
//! player asked for and draws what the state holds afterwards.

use vstd::prelude::*;
use bracket_lib::prelude::RandomNumberGenerator;
use crate::camera::{spec_camera_at, Camera};
use crate::components::{Carried, Entity, FieldOfViewView, Player};
use crate::distance_field::{
    is_distance, lemma_field_exists, lemma_field_same_walkability, lemma_source_is_zero,
    spec_field,
};
use crate::event_log::{EventLog, LogEntryView};
use crate::geometry::Point;
use crate::map::{same_walkability, spec_enterable, spec_in_bounds, spec_map_idx, TileType};

use crate::map_builder::{
    spec_generated, spec_playable, spec_reachable_from, spec_strategy_of, spec_theme_of,
    LevelError, MapBuilder, GENERATION_DEPTH, NUM_MONSTERS,
};
use crate::spawner::template::{spec_pickable, spec_spawn_all, Template, Templates};
use crate::spawner::{
    spawn_level, spawn_player, spawn_telerportation_crystal, spec_new_crystal, spec_new_player,
};
use crate::systems::player_input::{spec_player_at, PlayerInput};
use crate::systems::{
    build_input_scheduler, build_monster_scheduler, build_player_scheduler, spec_engine,
    spec_input_steps, spec_monster_steps, spec_player_steps, spec_run, EngineView, Resources,
    SystemStep,
};
use crate::turn_state::TurnState;
use crate::world::{spec_find_player, CommandBuffer, EntityView, World, WorldView};
use crate::NUM_TILES;

verus! {

/// The tier on which the crystal lies in place of an exit.
pub const LAST_LEVEL: u32 = 4;

/// The game.
pub struct State {
    pub ecs: World,
    pub resources: Resources,
}

/// What the frame driver hands to a tick.
#[derive(Clone, Copy, Debug, PartialEq, Eq, Structural)]
pub struct FrameInput {
    /// Whether any key is down.
    pub key_pressed: bool,
    /// Whether the key that starts a new game is down.
    pub restart: bool,
    /// What the player asked for, if anything.
    pub action: Option<PlayerInput>,
}

/// Whether a level is ready to be played: the player stands on its start,
/// which is walkable; the goal can be reached from there; and the goal is
/// marked, by the crystal on the last tier and by an exit on the others.
pub open spec fn spec_level_ready(
    w: WorldView,
    tiles: Seq<TileType>,
    start: Point,
    goal: Point,
    level: u32,
) -> bool {
    &&& spec_player_at(w) is Some
    &&& spec_player_at(w).unwrap().1 == start
    &&& spec_enterable(tiles, start)
    &&& spec_reachable_from(tiles, start, goal)
    &&& if level == LAST_LEVEL {
        exists|i: int| 0 <= i < w.entities.len() && #[trigger] w.entities[i] == spec_new_crystal(goal)
    } else {
        tiles[spec_map_idx(goal.x as int, goal.y as int)] == TileType::Exit
    }
}

/// The tiles of a level once its goal is marked.
pub open spec fn spec_marked_tiles(tiles: Seq<TileType>, goal: Point, level: u32) -> Seq<TileType> {
    if level == LAST_LEVEL {
        tiles
    } else {
        tiles.update(spec_map_idx(goal.x as int, goal.y as int), TileType::Exit)
    }
}

/// The world of a level once its goal is marked.
pub open spec fn spec_marked_world(w: WorldView, goal: Point, level: u32) -> WorldView {
    if level == LAST_LEVEL {
        WorldView { entities: w.entities.push(spec_new_crystal(goal)), ..w }
    } else {
        w
    }
}

/// A row as it is taken along to the next level: only the player and what
/// the player carries stay in the world; the player moves to the new start
/// and up a tier; and all sight is due.
pub open spec fn spec_carried_over(
    record: EntityView,
    i: int,
    player: Entity,
    start: Point,
    level: u32,
) -> EntityView {
    let is_player = i == player.0;
    EntityView {
        alive: record.alive && (is_player || record.carried == Some(Carried(player))),
        position: if is_player {
            Some(start)
        } else {
            record.position
        },
        player: if is_player && record.player is Some {
            Some(Player { map_level: level, ..record.player.unwrap() })
        } else {
            record.player
        },
        field_of_view: match record.field_of_view {
            Some(view) => Some(FieldOfViewView { is_dirty: true, ..view }),
            None => None,
        },
        ..record
    }
}

/// The world as it is taken along to the next level, with no intent left.
pub open spec fn spec_carried_world(w: WorldView, player: Entity, start: Point, level: u32) -> WorldView {
    WorldView {
        entities: Seq::new(
            w.entities.len(),
            |i: int| spec_carried_over(w.entities[i], i, player, start, level),
        ),
        moves: Seq::empty(),
        attacks: Seq::empty(),
        activations: Seq::empty(),
        logs: Seq::empty(),
    }
}

/// The tier after `level`; the last number that a tier can have is its own
/// successor.
pub open spec fn spec_next_level(level: u32) -> u32 {
    if level < u32::MAX {
        (level + 1) as u32
    } else {
        level
    }
}

/// Filling a level adds rows and touches nothing else.
pub proof fn lemma_spawn_all_keeps(
    w: WorldView,
    entries: Seq<Template>,
    places: Seq<Point>,
    picks: Seq<Option<int>>,
    n: nat,
)
    ensures
        spec_spawn_all(w, entries, places, picks, n).entities.len() >= w.entities.len(),
        spec_spawn_all(w, entries, places, picks, n).entities.subrange(
            0,
            w.entities.len() as int,
        ) == w.entities,
        spec_spawn_all(w, entries, places, picks, n).moves == w.moves,
        spec_spawn_all(w, entries, places, picks, n).attacks == w.attacks,
        spec_spawn_all(w, entries, places, picks, n).activations == w.activations,
        spec_spawn_all(w, entries, places, picks, n).logs == w.logs,
    decreases n,
{
    if n > 0 {
        lemma_spawn_all_keeps(w, entries, places, picks, (n - 1) as nat);
        let before = spec_spawn_all(w, entries, places, picks, (n - 1) as nat);
        let after = spec_spawn_all(w, entries, places, picks, n);
        assert(after.entities.subrange(0, w.entities.len() as int) =~= before.entities.subrange(
            0,
            w.entities.len() as int,
        ));
    } else {
        assert(w.entities.subrange(0, w.entities.len() as int) =~= w.entities);
    }
}

/// The player stays the player when rows are added behind.
pub proof fn lemma_player_kept(shorter: Seq<EntityView>, longer: Seq<EntityView>, from: int)
    requires
        0 <= from,
        shorter.len() <= longer.len(),
        longer.subrange(0, shorter.len() as int) == shorter,
        spec_find_player(shorter, from) is Some,
    ensures
        spec_find_player(longer, from) == spec_find_player(shorter, from),
    decreases shorter.len() - from,
{
    if from < shorter.len() {
        assert(longer[from] == longer.subrange(0, shorter.len() as int)[from]);
        if !(shorter[from].alive && shorter[from].player is Some) {
            lemma_player_kept(shorter, longer, from + 1);
        }
    }
}

/// The player stays the player when the world is taken along to the next
/// level.
pub proof fn lemma_player_carried_over(
    w: WorldView,
    player: Entity,
    start: Point,
    level: u32,
    from: int,
)
    requires
        0 <= from <= player.0,
        w.entities.len() <= usize::MAX,
        spec_find_player(w.entities, from) == Some(player),
    ensures
        spec_find_player(spec_carried_world(w, player, start, level).entities, from) == Some(
            player,
        ),
        player.0 < w.entities.len(),
        spec_carried_world(w, player, start, level).entities[player.0 as int].position == Some(
            start,
        ),
    decreases w.entities.len() - from,
{
    let after = spec_carried_world(w, player, start, level).entities;
    if from < w.entities.len() {
        if w.entities[from].alive && w.entities[from].player is Some {
            assert(from == player.0);
            assert(after[from].alive && after[from].player is Some);
        } else {
            assert(from != player.0) by {
                lemma_found_player_is_player(w.entities, from);
            }
            lemma_player_carried_over(w, player, start, level, from + 1);
            assert(!(after[from].alive && after[from].player is Some));
        }
    }
}

/// A row that is found as the player holds the player.
pub proof fn lemma_found_player_is_player(entities: Seq<EntityView>, from: int)
    requires
        0 <= from,
        entities.len() <= usize::MAX,
        spec_find_player(entities, from) is Some,
    ensures
        from <= spec_find_player(entities, from).unwrap().0 < entities.len(),
        entities[spec_find_player(entities, from).unwrap().0 as int].alive,
        entities[spec_find_player(entities, from).unwrap().0 as int].player is Some,
    decreases entities.len() - from,
{
    if from < entities.len() && !(entities[from].alive && entities[from].player is Some) {
        lemma_found_player_is_player(entities, from + 1);
    }
}

/// Whether the world has room for the largest level that generation hands
/// out.
pub open spec fn spec_roomy(w: WorldView) -> bool {
    w.entities.len() + NUM_MONSTERS + 2 * NUM_TILES + 2 < usize::MAX
}

/// The tier that the player is on.
pub open spec fn spec_player_level(w: WorldView) -> u32 {
    w.entities[w.player().unwrap().0 as int].player.unwrap().map_level
}

/// Whether `e` says truly why the game `before` could not go on to its next
/// level: no player is there; or the caves of the next tier, which must be
/// one of the first two, left no floor; or the world has no room for the
/// largest level.
pub open spec fn spec_advance_failed(before: State, e: LevelError) -> bool {
    match e {
        LevelError::NoPlayer => before.ecs@.player() is None,
        LevelError::NoFloor => {
            &&& before.ecs@.player() is Some
            &&& spec_next_level(spec_player_level(before.ecs@)) <= 1
            &&& spec_generated(
                spec_strategy_of(spec_next_level(spec_player_level(before.ecs@))),
                Err(e),
            )
        },
        LevelError::WorldFull => before.ecs@.player() is Some && !spec_roomy(before.ecs@),
    }
}

/// Whether the world has room for what a level holds.
pub open spec fn spec_has_room(w: WorldView, mb: MapBuilder) -> bool {
    w.entities.len() + mb.monster_spawns@.len() + mb.guaranteed_monster_spawns@.len() + 2
        < usize::MAX
}

/// Whether the world has room for what a level holds.
pub fn has_room(ecs: &World, mb: &MapBuilder) -> (b: bool)
    ensures
        b == spec_has_room(ecs@, *mb),
{
    let needed: u128 = ecs.entities.len() as u128 + mb.monster_spawns.len() as u128
        + mb.guaranteed_monster_spawns.len() as u128 + 2;
    assert(ecs@.entities.len() == ecs.entities@.len());
    needed < usize::MAX as u128
}

/// Sets up a generated level for play: marks its goal, by the crystal on
/// the last tier and by an exit on the others, and fills it from the
/// catalogue. Where the world has no room for the level nothing happens.
pub fn populate(
    ecs: &mut World,
    rng: &mut RandomNumberGenerator,
    templates: &Templates,
    mb: MapBuilder,
    level: u32,
) -> (r: Result<Resources, LevelError>)
    requires
        spec_playable(mb),
        templates.wf(),
    ensures
        match r {
            Ok(resources) => {
                &&& resources.map.wf()
                &&& resources.map.tiles@ == spec_marked_tiles(
                    mb.map.tiles@,
                    mb.teleportation_crystal_start,
                    level,
                )
                &&& resources.map.revealed_tiles@ == mb.map.revealed_tiles@
                &&& resources.camera == spec_camera_at(mb.player_start)
                &&& resources.turn_state == TurnState::AwaitingInput
                &&& resources.theme == mb.theme
                &&& resources.event_log@.len() == 0
                &&& resources.commands@.len() == 0
                &&& spec_reachable_from(
                    resources.map.tiles@,
                    mb.player_start,
                    mb.teleportation_crystal_start,
                )
                &&& spec_enterable(resources.map.tiles@, mb.player_start)
                &&& exists|picks: Seq<Option<int>>|
                    {
                        &&& picks.len() == mb.monster_spawns@.len()
                            + mb.guaranteed_monster_spawns@.len()
                        &&& forall|k: int|
                            0 <= k < picks.len() ==> spec_pickable(
                                templates.entities@,
                                level as usize,
                                k >= mb.monster_spawns@.len(),
                                #[trigger] picks[k],
                            )
                        &&& final(ecs)@ == #[trigger] spec_spawn_all(
                            spec_marked_world(old(ecs)@, mb.teleportation_crystal_start, level),
                            templates.entities@,
                            mb.monster_spawns@ + mb.guaranteed_monster_spawns@,
                            picks,
                            picks.len(),
                        )
                    }
            },
            Err(e) => e == LevelError::WorldFull && final(ecs)@ == old(ecs)@,
        },
        r is Ok <==> spec_has_room(old(ecs)@, mb),
{
    if !has_room(ecs, &mb) {
        return Err(LevelError::WorldFull);
    }
    let ghost generated = mb.map.tiles@;
    let mut mb = mb;
    let start = mb.player_start;
    let goal = mb.teleportation_crystal_start;
    assert(spec_in_bounds(goal));
    if level == LAST_LEVEL {
        spawn_telerportation_crystal(ecs, goal);
    } else {
        let exit_idx = mb.map.point2d_to_index(goal);
        mb.map.tiles.set(exit_idx, TileType::Exit);
        proof {
            let sources = seq![spec_map_idx(start.x as int, start.y as int) as usize];
            lemma_field_exists(generated, sources, GENERATION_DEPTH);
            let f = spec_field(generated, sources, GENERATION_DEPTH);
            assert(generated[exit_idx as int].spec_walkable()) by {
                lemma_source_is_zero(
                    f,
                    generated,
                    sources,
                    GENERATION_DEPTH,
                    0,
                );
                if exit_idx != sources[0] {
                    assert(is_distance(
                        generated,
                        sources,
                        exit_idx as int,
                        f[exit_idx as int] as nat,
                    ));
                    if f[exit_idx as int] == 0 {
                        assert(sources.contains(exit_idx));
                    }
                }
            }
            assert(same_walkability(generated, mb.map.tiles@));
            lemma_field_same_walkability(generated, mb.map.tiles@, sources, GENERATION_DEPTH);
        }
    }
    assert(ecs@.entities.len() == ecs.entities@.len());
    let ghost marked = ecs@;
    let ghost places = mb.monster_spawns@ + mb.guaranteed_monster_spawns@;
    assert(marked == spec_marked_world(old(ecs)@, goal, level));
    spawn_level(
        ecs,
        rng,
        level as usize,
        &mb.monster_spawns,
        &mb.guaranteed_monster_spawns,
        templates,
    );
    proof {
        let picks = choose|picks: Seq<Option<int>>|
            {
                &&& picks.len() == mb.monster_spawns@.len() + mb.guaranteed_monster_spawns@.len()
                &&& forall|k: int|
                    0 <= k < picks.len() ==> spec_pickable(
                        templates.entities@,
                        level as usize,
                        k >= mb.monster_spawns@.len(),
                        #[trigger] picks[k],
                    )
                &&& ecs@ == #[trigger] spec_spawn_all(
                    marked,
                    templates.entities@,
                    places,
                    picks,
                    picks.len(),
                )
            };
        assert(ecs@ == spec_spawn_all(
            spec_marked_world(old(ecs)@, goal, level),
            templates.entities@,
            places,
            picks,
            picks.len(),
        ));
    }
    Ok(
        Resources {
            map: mb.map,
            camera: Camera::new(start),
            turn_state: TurnState::AwaitingInput,
            theme: mb.theme,
            event_log: EventLog::new(),
            commands: CommandBuffer::new(),
        },
    )
}

/// Takes the world along to the next level.
pub fn carry_over(ecs: &mut World, player: Entity, start: Point, level: u32)
    ensures
        final(ecs)@ == spec_carried_world(old(ecs)@, player, start, level),
{
    let ghost before = ecs@;
    let mut i: usize = 0;
    while i < ecs.entities.len()
        invariant
            i <= ecs.entities@.len(),
            before == old(ecs)@,
            ecs@.entities.len() == before.entities.len(),
            forall|j: int|
                0 <= j < i ==> #[trigger] ecs@.entities[j] == spec_carried_over(
                    before.entities[j],
                    j,
                    player,
                    start,
                    level,
                ),
            forall|j: int|
                i <= j < before.entities.len() ==> #[trigger] ecs@.entities[j]
                    == before.entities[j],
        decreases ecs.entities@.len() - i,
    {
        let ghost current = ecs@;
        assert(current.entities[i as int] == before.entities[i as int]);
        let is_player = i == player.0;
        let carried = match ecs.entities[i].carried {
            Some(c) => c.0.0 == player.0,
            None => false,
        };
        if !(is_player || carried) {
            ecs.entities[i].alive = false;
        }
        if is_player {
            ecs.entities[i].position = Some(start);
            match ecs.entities[i].player {
                Some(p) => {
                    ecs.entities[i].player = Some(
                        Player { map_level: level, wait_count: p.wait_count },
                    );
                },
                None => {},
            }
        }
        let dirty = match &ecs.entities[i].field_of_view {
            Some(view) => !view.is_dirty,
            None => false,
        };
        if dirty {
            match &mut ecs.entities[i].field_of_view {
                Some(view) => {
                    view.is_dirty = true;
                },
                None => {},
            }
        }
        assert(ecs@.entities =~= current.entities.update(
            i as int,
            spec_carried_over(before.entities[i as int], i as int, player, start, level),
        ));
        i += 1;
    }
    ecs.moves.clear();
    ecs.attacks.clear();
    ecs.activations.clear();
    ecs.logs.clear();
    assert(ecs@.entities =~= spec_carried_world(before, player, start, level).entities);
    assert(ecs@.logs =~= Seq::<LogEntryView>::empty());
}

/// Whether a game has just begun: the player, fresh, is the first entity
/// and stands at the start of a first level that is ready to be played;
/// nothing is revealed, logged or queued.
pub open spec fn spec_fresh_game(state: State, turn_state: TurnState) -> bool {
    &&& state.resources.map.wf()
    &&& state.resources.turn_state == turn_state
    &&& state.resources.theme == spec_theme_of(0)
    &&& state.resources.event_log@.len() == 0
    &&& state.resources.commands@.len() == 0
    &&& forall|i: int| 0 <= i < NUM_TILES ==> !(#[trigger] state.resources.map.revealed_tiles@[i])
    &&& state.ecs@.entities.len() >= 1
    &&& state.ecs@.moves.len() == 0
    &&& state.ecs@.attacks.len() == 0
    &&& state.ecs@.activations.len() == 0
    &&& state.ecs@.logs.len() == 0
    &&& exists|start: Point, goal: Point|
        {
            &&& state.ecs@.entities[0] == spec_new_player(start)
            &&& state.resources.camera == spec_camera_at(start)
            &&& #[trigger] spec_level_ready(state.ecs@, state.resources.map.tiles@, start, goal, 0)
        }
}

/// Whether `after` is `before` taken to its next level: the rows that were
/// there are taken along, and the new level is ready to be played.
pub open spec fn spec_advanced(before: State, after: State) -> bool {
    let player = before.ecs@.player().unwrap();
    let level = spec_next_level(before.ecs@.entities[player.0 as int].player.unwrap().map_level);
    &&& before.ecs@.player() is Some
    &&& after.resources.map.wf()
    &&& after.resources.turn_state == TurnState::AwaitingInput
    &&& after.resources.theme == spec_theme_of(level)
    &&& after.resources.event_log@.len() == 0
    &&& after.resources.commands@.len() == 0
    &&& after.ecs@.entities.len() >= before.ecs@.entities.len()
    &&& exists|start: Point, goal: Point|
        {
            &&& after.ecs@.entities.subrange(0, before.ecs@.entities.len() as int)
                == spec_carried_world(before.ecs@, player, start, level).entities
            &&& after.resources.camera == spec_camera_at(start)
            &&& #[trigger] spec_level_ready(
                after.ecs@,
                after.resources.map.tiles@,
                start,
                goal,
                level,
            )
        }
}

impl State {
    /// Begins a game in the given phase: generates the first level, puts
    /// the player on its start and fills it from the catalogue.
    pub fn begin(
        rng: &mut RandomNumberGenerator,
        templates: &Templates,
        turn_state: TurnState,
    ) -> (r: Result<State, LevelError>)
        requires
            templates.wf(),
        ensures
            match r {
                Ok(state) => spec_fresh_game(state, turn_state),
                Err(e) => e == LevelError::NoFloor && spec_generated(spec_strategy_of(0), Err(e)),
            },
    {
        let mb = match MapBuilder::new(rng, 0) {
            Ok(mb) => mb,
            Err(e) => {
                return Err(e);
            },
        };
        let ghost start = mb.player_start;
        let ghost goal = mb.teleportation_crystal_start;
        let ghost places = mb.monster_spawns@ + mb.guaranteed_monster_spawns@;
        let mut ecs = World::new();
        spawn_player(&mut ecs, mb.player_start);
        let ghost with_player = ecs@;
        assert(ecs@.entities.len() == 1);
        let mut resources = match populate(&mut ecs, rng, templates, mb, 0) {
            Ok(resources) => resources,
            Err(e) => {
                assert(false);
                return Err(e);
            },
        };
        resources.turn_state = turn_state;
        let state = State { ecs, resources };
        proof {
            let picks = choose|picks: Seq<Option<int>>|
                state.ecs@ == #[trigger] spec_spawn_all(
                    with_player,
                    templates.entities@,
                    places,
                    picks,
                    picks.len(),
                );
            lemma_spawn_all_keeps(with_player, templates.entities@, places, picks, picks.len());
            assert(with_player.entities[0] == spec_new_player(start));
            assert(state.ecs@.entities[0] == state.ecs@.entities.subrange(
                0,
                with_player.entities.len() as int,
            )[0]);
            assert(spec_find_player(with_player.entities, 0) == Some(Entity(0)));
            lemma_player_kept(with_player.entities, state.ecs@.entities, 0);
            assert(spec_level_ready(state.ecs@, state.resources.map.tiles@, start, goal, 0));
        }
        Ok(state)
    }

    /// Begins a game at the menu.
    pub fn new(rng: &mut RandomNumberGenerator, templates: &Templates) -> (r: Result<
        State,
        LevelError,
    >)
        requires
            templates.wf(),
        ensures
            match r {
                Ok(state) => spec_fresh_game(state, TurnState::Menu),
                Err(e) => e == LevelError::NoFloor && spec_generated(spec_strategy_of(0), Err(e)),
            },
    {
        Self::begin(rng, templates, TurnState::Menu)
    }

    /// Begins the game anew, past the menu. Where no level comes about the
    /// game stays as it is.
    pub fn reset_game_state(&mut self, rng: &mut RandomNumberGenerator, templates: &Templates) -> (r:
        Result<(), LevelError>)
        requires
            templates.wf(),
        ensures
            match r {
                Ok(_) => spec_fresh_game(*final(self), TurnState::AwaitingInput),
                Err(e) => e == LevelError::NoFloor && spec_generated(spec_strategy_of(0), Err(e))
                    && *final(self) == *old(self),
            },
    {
        match Self::begin(rng, templates, TurnState::AwaitingInput) {
            Ok(state) => {
                *self = state;
                Ok(())
            },
            Err(e) => Err(e),
        }
    }

    /// The step to the next level: a level of the next tier is generated;
    /// the player and what the player carries move there, everything else
    /// is left behind; all sight is due; and the level is filled from the
    /// catalogue. Where no level comes about, or no player is there to
    /// move, the game stays as it is.
    pub fn advance_level(&mut self, rng: &mut RandomNumberGenerator, templates: &Templates) -> (r:
        Result<(), LevelError>)
        requires
            templates.wf(),
        ensures
            match r {
                Ok(_) => spec_advanced(*old(self), *final(self)),
                Err(e) => *final(self) == *old(self) && spec_advance_failed(*old(self), e),
            },
            old(self).ecs@.player() is Some && spec_next_level(spec_player_level(old(self).ecs@))
                >= 2 && spec_roomy(old(self).ecs@) ==> r is Ok,
    {
        let player_entity = match self.ecs.player() {
            Some(e) => e,
            None => {
                return Err(LevelError::NoPlayer);
            },
        };
        let map_level = self.ecs.entities[player_entity.0].player.unwrap().map_level;
        let next = if map_level < u32::MAX {
            map_level + 1
        } else {
            map_level
        };
        let mb = match MapBuilder::new(rng, next) {
            Ok(mb) => mb,
            Err(e) => {
                return Err(e);
            },
        };
        if !has_room(&self.ecs, &mb) {
            return Err(LevelError::WorldFull);
        }
        let ghost before = self.ecs@;
        let ghost start = mb.player_start;
        let ghost goal = mb.teleportation_crystal_start;
        let ghost places = mb.monster_spawns@ + mb.guaranteed_monster_spawns@;
        carry_over(&mut self.ecs, player_entity, mb.player_start, next);
        let ghost carried = self.ecs@;
        assert(carried.entities.len() == before.entities.len());
        assert(before.entities.len() <= usize::MAX) by {
            assert(before.entities.len() == old(self).ecs.entities@.len());
        }
        match populate(&mut self.ecs, rng, templates, mb, next) {
            Ok(resources) => {
                self.resources = resources;
            },
            Err(_) => {
                assert(false);
            },
        }
        proof {
            let marked = spec_marked_world(carried, goal, next);
            let picks = choose|picks: Seq<Option<int>>|
                self.ecs@ == #[trigger] spec_spawn_all(
                    marked,
                    templates.entities@,
                    places,
                    picks,
                    picks.len(),
                );
            lemma_spawn_all_keeps(marked, templates.entities@, places, picks, picks.len());
            assert(marked.entities.subrange(0, carried.entities.len() as int)
                =~= carried.entities);
            assert(self.ecs@.entities.subrange(0, before.entities.len() as int)
                =~= carried.entities) by {
                assert forall|j: int| 0 <= j < before.entities.len() implies self.ecs@.entities[j]
                    == carried.entities[j] by {
                    assert(self.ecs@.entities[j] == self.ecs@.entities.subrange(
                        0,
                        marked.entities.len() as int,
                    )[j]);
                }
            }
            lemma_found_player_is_player(before.entities, 0);
            lemma_player_carried_over(before, player_entity, start, next, 0);
            lemma_player_kept(carried.entities, self.ecs@.entities, 0);
            if next == LAST_LEVEL {
                let c = carried.entities.len() as int;
                assert(self.ecs@.entities[c] == self.ecs@.entities.subrange(
                    0,
                    marked.entities.len() as int,
                )[c]);
                assert(self.ecs@.entities[c] == spec_new_crystal(goal));
            }
            assert(spec_level_ready(self.ecs@, self.resources.map.tiles@, start, goal, next));
        }
        Ok(())
    }

    /// What a frame does to the game. At the menu any key begins the wait
    /// for input. While input is awaited, and in the player's and the
    /// monsters' turns, the steps of that phase run. When the game is over
    /// or won, the key for a new game begins one. Between levels the next
    /// level is entered. Where no level comes about the game stays as it
    /// is, and the answer says why.
    pub fn tick(
        &mut self,
        input: &FrameInput,
        rng: &mut RandomNumberGenerator,
        templates: &Templates,
    ) -> (r: Result<(), LevelError>)
        requires
            templates.wf(),
            old(self).resources.map.wf(),
        ensures
            r is Err ==> *final(self) == *old(self),
            match old(self).resources.turn_state {
                TurnState::Menu => r is Ok && final(self).ecs == old(self).ecs && final(self).resources == (Resources {
                    turn_state: if input.key_pressed {
                        TurnState::AwaitingInput
                    } else {
                        TurnState::Menu
                    },
                    ..old(self).resources
                }),
                TurnState::AwaitingInput => r is Ok && spec_ran(
                    spec_input_steps(),
                    input.action,
                    *old(self),
                    *final(self),
                ),
                TurnState::PlayerTurn => r is Ok && spec_ran(
                    spec_player_steps(),
                    input.action,
                    *old(self),
                    *final(self),
                ),
                TurnState::MonsterTurn => r is Ok && spec_ran(
                    spec_monster_steps(),
                    input.action,
                    *old(self),
                    *final(self),
                ),
                TurnState::GameOver | TurnState::Victory => if input.restart {
                    match r {
                        Ok(_) => spec_fresh_game(*final(self), TurnState::AwaitingInput),
                        Err(e) => e == LevelError::NoFloor && spec_generated(
                            spec_strategy_of(0),
                            Err(e),
                        ),
                    }
                } else {
                    r is Ok && *final(self) == *old(self)
                },
                TurnState::NextLevel => {
                    &&& match r {
                        Ok(_) => spec_advanced(*old(self), *final(self)),
                        Err(e) => spec_advance_failed(*old(self), e),
                    }
                    &&& old(self).ecs@.player() is Some && spec_next_level(
                        spec_player_level(old(self).ecs@),
                    ) >= 2 && spec_roomy(old(self).ecs@) ==> r is Ok
                },
            },
    {
        match self.resources.turn_state {
            TurnState::Menu => {
                if input.key_pressed {
                    self.resources.turn_state = TurnState::AwaitingInput;
                }
                Ok(())
            },
            TurnState::AwaitingInput => {
                let schedule = build_input_scheduler();
                schedule.execute(&mut self.ecs, &mut self.resources, &input.action, rng);
                Ok(())
            },
            TurnState::PlayerTurn => {
                let schedule = build_player_scheduler();
                schedule.execute(&mut self.ecs, &mut self.resources, &input.action, rng);
                Ok(())
            },
            TurnState::MonsterTurn => {
                let schedule = build_monster_scheduler();
                schedule.execute(&mut self.ecs, &mut self.resources, &input.action, rng);
                Ok(())
            },
            TurnState::GameOver | TurnState::Victory => {
                if input.restart {
                    self.reset_game_state(rng, templates)
                } else {
                    Ok(())
                }
            },
            TurnState::NextLevel => self.advance_level(rng, templates),
        }
    }
}

/// Whether `after` is what a run of `steps` makes of `before`.
pub open spec fn spec_ran(
    steps: Seq<SystemStep>,
    input: Option<PlayerInput>,
    before: State,
    after: State,
) -> bool {
    &&& after.resources.map.wf()
    &&& after.resources.theme == before.resources.theme
    &&& exists|trace: Seq<EngineView>|
        {
            &&& #[trigger] spec_run(steps, input, trace)
            &&& trace[0] == spec_engine(before.ecs, before.resources)
            &&& trace[steps.len() as int] == spec_engine(after.ecs, after.resources)
        }
}

} // verus!
