//! The evaluation at the end of a turn.

use vstd::prelude::*;

use crate::geometry::Point;
use crate::map::{spec_in_bounds, spec_map_idx, Grid, TileType};
use crate::turn_state::TurnState;
use crate::world::{EntityView, World, WorldView};

verus! {

/// The phase that follows `state` where nothing ends the level or the game.
pub open spec fn spec_next_phase(state: TurnState) -> TurnState {
    match state {
        TurnState::PlayerTurn => TurnState::MonsterTurn,
        TurnState::MonsterTurn => TurnState::AwaitingInput,
        other => other,
    }
}

/// Where the crystal lies: the place of the first row from `from` on that
/// holds a crystal on the grid.
pub open spec fn spec_find_crystal(entities: Seq<EntityView>, from: int) -> Option<Point>
    decreases entities.len() - from,
{
    if from < 0 || from >= entities.len() {
        None
    } else if entities[from].alive && entities[from].teleportation_crystal is Some
        && entities[from].position is Some {
        entities[from].position
    } else {
        spec_find_crystal(entities, from + 1)
    }
}

/// Whether the player is dead.
pub open spec fn spec_player_dead(player: EntityView) -> bool {
    player.health is Some && player.health.unwrap().current <= 0
}

/// Whether the player stands on the crystal.
pub open spec fn spec_player_on_goal(player: EntityView, crystal: Option<Point>) -> bool {
    player.position is Some && crystal is Some && player.position == crystal
}

/// Whether the player stands on an exit.
pub open spec fn spec_player_on_exit(player: EntityView, tiles: Seq<TileType>) -> bool {
    player.position is Some && spec_in_bounds(player.position.unwrap()) && tiles[spec_map_idx(
        player.position.unwrap().x as int,
        player.position.unwrap().y as int,
    )] == TileType::Exit
}

/// The phase after the evaluation at the end of a turn. While input is
/// awaited nothing is evaluated. Otherwise the first of these decides: the
/// player is dead, and the game is over; the player stands on the crystal,
/// and the game is won; the player stands on an exit, and the next level
/// follows. Where none holds, the turn passes on.
pub open spec fn spec_end_turn(state: TurnState, w: WorldView, tiles: Seq<TileType>) -> TurnState {
    if state == TurnState::AwaitingInput {
        state
    } else {
        match w.player() {
            Some(e) => {
                let player = w.entities[e.0 as int];
                if spec_player_dead(player) {
                    TurnState::GameOver
                } else if spec_player_on_goal(player, spec_find_crystal(w.entities, 0)) {
                    TurnState::Victory
                } else if spec_player_on_exit(player, tiles) {
                    TurnState::NextLevel
                } else {
                    spec_next_phase(state)
                }
            },
            None => spec_next_phase(state),
        }
    }
}

/// Where the crystal lies, if one lies on the grid.
pub fn find_crystal(ecs: &World) -> (r: Option<Point>)
    ensures
        r == spec_find_crystal(ecs@.entities, 0),
{
    let mut i: usize = 0;
    while i < ecs.entities.len()
        invariant
            i <= ecs.entities@.len(),
            spec_find_crystal(ecs@.entities, 0) == spec_find_crystal(ecs@.entities, i as int),
        decreases ecs.entities@.len() - i,
    {
        let record = &ecs.entities[i];
        if record.alive && record.teleportation_crystal.is_some() && record.position.is_some() {
            return record.position;
        }
        i += 1;
    }
    None
}

/// Ends a turn: decides the phase that follows.
pub fn end_turn(ecs: &World, turn_state: &mut TurnState, map: &Grid)
    requires
        map.wf(),
    ensures
        *final(turn_state) == spec_end_turn(*old(turn_state), ecs@, map.tiles@),
{
    let current_state = *turn_state;
    let next = match current_state {
        TurnState::AwaitingInput => {
            return ;
        },
        TurnState::PlayerTurn => TurnState::MonsterTurn,
        TurnState::MonsterTurn => TurnState::AwaitingInput,
        _ => current_state,
    };
    let mut new_state = next;
    match ecs.player() {
        Some(e) => {
            let player = &ecs.entities[e.0];
            let crystal = find_crystal(ecs);
            let dead = match player.health {
                Some(hp) => hp.current < 1,
                None => false,
            };
            let on_goal = match (player.position, crystal) {
                (Some(pos), Some(goal)) => pos.x == goal.x && pos.y == goal.y,
                _ => false,
            };
            let on_exit = match player.position {
                Some(pos) => map.in_bounds(pos) && map.tiles[map.point2d_to_index(pos)]
                    == TileType::Exit,
                None => false,
            };
            if dead {
                new_state = TurnState::GameOver;
            } else if on_goal {
                new_state = TurnState::Victory;
            } else if on_exit {
                new_state = TurnState::NextLevel;
            }
        },
        None => {},
    }
    *turn_state = new_state;
}

/// A turn passes on where nothing ends it: from the player's turn to the
/// monsters', and from the monsters' turn back to the wait for input, as
/// long as the player is not dead and stands neither on the crystal nor on
/// an exit.
pub proof fn lemma_turn_passes_on(state: TurnState, w: WorldView, tiles: Seq<TileType>)
    requires
        w.player() is Some ==> {
            let player = w.entities[w.player().unwrap().0 as int];
            &&& !spec_player_dead(player)
            &&& !spec_player_on_goal(player, spec_find_crystal(w.entities, 0))
            &&& !spec_player_on_exit(player, tiles)
        },
    ensures
        state == TurnState::PlayerTurn ==> spec_end_turn(state, w, tiles) == TurnState::MonsterTurn,
        state == TurnState::MonsterTurn ==> spec_end_turn(state, w, tiles)
            == TurnState::AwaitingInput,
{
}

/// Where the player stands on the crystal and lives, the game is won; where
/// the player stands on an exit, lives and is not on the crystal, the next
/// level follows.
pub proof fn lemma_goal_and_exit(state: TurnState, w: WorldView, tiles: Seq<TileType>)
    requires
        state != TurnState::AwaitingInput,
        w.player() is Some,
        !spec_player_dead(w.entities[w.player().unwrap().0 as int]),
    ensures
        spec_player_on_goal(
            w.entities[w.player().unwrap().0 as int],
            spec_find_crystal(w.entities, 0),
        ) ==> spec_end_turn(state, w, tiles) == TurnState::Victory,
        !spec_player_on_goal(
            w.entities[w.player().unwrap().0 as int],
            spec_find_crystal(w.entities, 0),
        ) && spec_player_on_exit(w.entities[w.player().unwrap().0 as int], tiles)
            ==> spec_end_turn(state, w, tiles) == TurnState::NextLevel,
{
}

/// A dead player ends the game, whatever else holds.
pub proof fn lemma_dead_player_ends_game(state: TurnState, w: WorldView, tiles: Seq<TileType>)
    requires
        state != TurnState::AwaitingInput,
        w.player() is Some,
        spec_player_dead(w.entities[w.player().unwrap().0 as int]),
    ensures
        spec_end_turn(state, w, tiles) == TurnState::GameOver,
{
}

} // verus!
