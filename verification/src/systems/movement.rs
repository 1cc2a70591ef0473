//! Movement: each intent to move is carried out or dropped.

use vstd::prelude::*;
use crate::camera::{spec_camera_at, Camera};
use crate::components::WantsToMove;
use crate::geometry::Point;
use crate::map::{spec_enterable, spec_in_bounds, spec_map_idx, Grid, TileType};
use crate::world::{Command, CommandBuffer, CommandView, World, WorldView};

verus! {

/// Whether a move is carried out: the tile can be entered and the mover is
/// in the world.
pub open spec fn spec_move_allowed(w: WorldView, tiles: Seq<TileType>, m: WantsToMove) -> bool {
    spec_enterable(tiles, m.destination) && w.has(m.entity)
}

/// What a move queues: the mover's sight becomes due, and the mover is put
/// on its new tile unless it is stunned.
pub open spec fn spec_move_commands(w: WorldView, tiles: Seq<TileType>, m: WantsToMove) -> Seq<
    CommandView,
> {
    if spec_move_allowed(w, tiles, m) {
        let mover = w.entities[m.entity.0 as int];
        let sight = if mover.field_of_view is Some {
            seq![CommandView::MarkFieldOfViewDirty(m.entity)]
        } else {
            Seq::empty()
        };
        if mover.stunned is None {
            sight.push(CommandView::SetPosition(m.entity, m.destination))
        } else {
            sight
        }
    } else {
        Seq::empty()
    }
}

/// Whether a move is one of the player's, with eyes open.
pub open spec fn spec_player_moves(w: WorldView, tiles: Seq<TileType>, m: WantsToMove) -> bool {
    spec_move_allowed(w, tiles, m) && w.entities[m.entity.0 as int].field_of_view is Some
        && w.entities[m.entity.0 as int].player is Some
}

/// The flags after the first `n` of the points have been revealed; points
/// off the grid reveal nothing.
pub open spec fn spec_reveal_all(revealed: Seq<bool>, points: Seq<Point>, n: nat) -> Seq<bool>
    decreases n,
{
    if n == 0 {
        revealed
    } else {
        let before = spec_reveal_all(revealed, points, (n - 1) as nat);
        if spec_in_bounds(points[n - 1]) {
            before.update(spec_map_idx(points[n - 1].x as int, points[n - 1].y as int), true)
        } else {
            before
        }
    }
}

/// The flags after a move: a move of the player's reveals what the player
/// saw before the step.
pub open spec fn spec_move_revealed(
    revealed: Seq<bool>,
    w: WorldView,
    tiles: Seq<TileType>,
    m: WantsToMove,
) -> Seq<bool> {
    if spec_player_moves(w, tiles, m) {
        let seen = w.entities[m.entity.0 as int].field_of_view.unwrap().visible_tiles;
        spec_reveal_all(revealed, seen, seen.len())
    } else {
        revealed
    }
}

/// The viewport after a move: it follows a move of the player's.
pub open spec fn spec_move_camera(
    camera: Camera,
    w: WorldView,
    tiles: Seq<TileType>,
    m: WantsToMove,
) -> Camera {
    if spec_player_moves(w, tiles, m) {
        spec_camera_at(m.destination)
    } else {
        camera
    }
}

/// What the first `n` moves queue.
pub open spec fn spec_movement_commands(w: WorldView, tiles: Seq<TileType>, n: nat) -> Seq<
    CommandView,
>
    decreases n,
{
    if n == 0 {
        Seq::empty()
    } else {
        spec_movement_commands(w, tiles, (n - 1) as nat) + spec_move_commands(
            w,
            tiles,
            w.moves[n - 1],
        )
    }
}

/// The flags after the first `n` moves.
pub open spec fn spec_movement_revealed(
    revealed: Seq<bool>,
    w: WorldView,
    tiles: Seq<TileType>,
    n: nat,
) -> Seq<bool>
    decreases n,
{
    if n == 0 {
        revealed
    } else {
        spec_move_revealed(
            spec_movement_revealed(revealed, w, tiles, (n - 1) as nat),
            w,
            tiles,
            w.moves[n - 1],
        )
    }
}

/// The viewport after the first `n` moves.
pub open spec fn spec_movement_camera(
    camera: Camera,
    w: WorldView,
    tiles: Seq<TileType>,
    n: nat,
) -> Camera
    decreases n,
{
    if n == 0 {
        camera
    } else {
        spec_move_camera(
            spec_movement_camera(camera, w, tiles, (n - 1) as nat),
            w,
            tiles,
            w.moves[n - 1],
        )
    }
}

/// Reveals every one of the points that lies on the grid.
pub fn reveal_all(map: &mut Grid, points: &Vec<Point>)
    requires
        old(map).wf(),
    ensures
        final(map).wf(),
        final(map).tiles == old(map).tiles,
        final(map).revealed_tiles@ == spec_reveal_all(
            old(map).revealed_tiles@,
            points@,
            points@.len(),
        ),
{
    let mut k: usize = 0;
    while k < points.len()
        invariant
            k <= points@.len(),
            map.wf(),
            map.tiles == old(map).tiles,
            map.revealed_tiles@ == spec_reveal_all(old(map).revealed_tiles@, points@, k as nat),
        decreases points@.len() - k,
    {
        map.mark_revealed(points[k]);
        k += 1;
    }
}

/// Carries out the intents to move, in the order in which they came, and
/// uses them up. A move onto a tile that cannot be entered, or by an entity
/// that is gone, is dropped. A stunned mover stays where it is.
pub fn movement(ecs: &mut World, map: &mut Grid, camera: &mut Camera, commands: &mut CommandBuffer)
    requires
        old(map).wf(),
    ensures
        final(map).wf(),
        final(map).tiles == old(map).tiles,
        final(ecs)@ == (WorldView { moves: Seq::empty(), ..old(ecs)@ }),
        final(commands)@ == old(commands)@ + spec_movement_commands(
            old(ecs)@,
            old(map).tiles@,
            old(ecs)@.moves.len(),
        ),
        final(map).revealed_tiles@ == spec_movement_revealed(
            old(map).revealed_tiles@,
            old(ecs)@,
            old(map).tiles@,
            old(ecs)@.moves.len(),
        ),
        *final(camera) == spec_movement_camera(
            *old(camera),
            old(ecs)@,
            old(map).tiles@,
            old(ecs)@.moves.len(),
        ),
{
    let ghost w = ecs@;
    let ghost tiles = map.tiles@;
    let mut i: usize = 0;
    assert(commands@ + Seq::<CommandView>::empty() =~= commands@);
    while i < ecs.moves.len()
        invariant
            i <= ecs.moves@.len(),
            map.wf(),
            map.tiles == old(map).tiles,
            tiles == map.tiles@,
            ecs@ == old(ecs)@,
            w == ecs@,
            commands@ == old(commands)@ + spec_movement_commands(w, tiles, i as nat),
            map.revealed_tiles@ == spec_movement_revealed(
                old(map).revealed_tiles@,
                w,
                tiles,
                i as nat,
            ),
            *camera == spec_movement_camera(*old(camera), w, tiles, i as nat),
        decreases ecs.moves@.len() - i,
    {
        let want_move = ecs.moves[i];
        let ghost queued = commands@;
        assert(queued + Seq::<CommandView>::empty() =~= queued);
        if map.can_enter_tile(want_move.destination) && ecs.contains(want_move.entity) {
            let mover = &ecs.entities[want_move.entity.0];
            assert(w.entities[want_move.entity.0 as int] == mover@);
            match &mover.field_of_view {
                Some(view) => {
                    commands.push(Command::MarkFieldOfViewDirty(want_move.entity));
                    if mover.player.is_some() {
                        camera.on_player_move(want_move.destination);
                        reveal_all(map, &view.visible_tiles);
                    }
                },
                None => {},
            }
            if mover.stunned.is_none() {
                commands.push(Command::SetPosition(want_move.entity, want_move.destination));
            }
            assert(commands@ =~= queued + spec_move_commands(w, tiles, want_move));
        }
        assert(commands@ =~= old(commands)@ + spec_movement_commands(w, tiles, (i + 1) as nat));
        i += 1;
    }
    ecs.moves.clear();
}

} // verus!
