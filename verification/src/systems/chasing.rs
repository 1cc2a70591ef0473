//! The hunt: a monster that sees the player takes a step along the
//! distance field that flows from the player.

use vstd::prelude::*;
use crate::components::{Entity, MoveEveryOther};
use crate::distance_field::{
    lemma_field_unique, spec_field, spec_step_toward_source, DistanceField,
};
use crate::geometry::{spec_distance_squared, Point};
use crate::map::{spec_in_bounds, spec_map_idx, spec_point_of, Grid, TileType};
use crate::systems::player_input::spec_player_at;
use crate::systems::random_move::{bump, spec_bump};
use crate::world::{CommandBuffer, CommandView, EntityView, World, WorldView};

verus! {

/// The cutoff of the distance field that the hunt follows.
pub const CHASE_DEPTH: u32 = 1024;

/// A row after the rest flags have been turned over.
pub open spec fn spec_flipped(record: EntityView) -> EntityView {
    if record.alive && record.move_every_other is Some {
        EntityView {
            move_every_other: Some(MoveEveryOther(!record.move_every_other.unwrap().0)),
            ..record
        }
    } else {
        record
    }
}

/// The sources of the hunt's distance field: the player's tile, if the
/// player stands on the grid.
pub open spec fn spec_chase_sources(player_pos: Point) -> Seq<usize> {
    if spec_in_bounds(player_pos) {
        seq![spec_map_idx(player_pos.x as int, player_pos.y as int) as usize]
    } else {
        Seq::empty()
    }
}

/// Whether a row holds a hunter that hunts this turn: it stands on the
/// grid, sees the player and does not rest.
pub open spec fn spec_hunts(record: EntityView, player_pos: Point) -> bool {
    &&& record.alive
    &&& record.chasing_player is Some
    &&& record.position is Some
    &&& spec_in_bounds(record.position.unwrap())
    &&& record.field_of_view is Some
    &&& record.field_of_view.unwrap().visible_tiles.contains(player_pos)
    &&& record.move_every_other != Some(MoveEveryOther(true))
}

/// Where the hunter in row `i` heads: one step down the field, or at the
/// player itself once the player is within reach.
pub open spec fn spec_chase_target(
    entities: Seq<EntityView>,
    tiles: Seq<TileType>,
    player_pos: Point,
    i: int,
) -> Option<Point> {
    let pos = entities[i].position.unwrap();
    let field = spec_field(tiles, spec_chase_sources(player_pos), CHASE_DEPTH);
    match spec_step_toward_source(tiles, field, spec_map_idx(pos.x as int, pos.y as int)) {
        Some(j) => if spec_distance_squared(pos, player_pos) > 1 {
            Some(spec_point_of(j))
        } else {
            Some(player_pos)
        },
        None => None,
    }
}

/// What the hunter in row `i` queues.
pub open spec fn spec_chase(
    entities: Seq<EntityView>,
    tiles: Seq<TileType>,
    player_pos: Point,
    i: int,
) -> Seq<CommandView> {
    if spec_hunts(entities[i], player_pos) {
        match spec_chase_target(entities, tiles, player_pos, i) {
            Some(destination) => spec_bump(entities, Entity(i as usize), destination),
            None => Seq::empty(),
        }
    } else {
        Seq::empty()
    }
}

/// What the hunters among the first `n` rows queue.
pub open spec fn spec_chases(
    entities: Seq<EntityView>,
    tiles: Seq<TileType>,
    player_pos: Point,
    n: nat,
) -> Seq<CommandView>
    decreases n,
{
    if n == 0 {
        Seq::empty()
    } else {
        spec_chases(entities, tiles, player_pos, (n - 1) as nat) + spec_chase(
            entities,
            tiles,
            player_pos,
            n - 1,
        )
    }
}

/// The world after the rest flags have been turned over.
pub open spec fn spec_flipped_world(w: WorldView) -> WorldView {
    WorldView { entities: Seq::new(w.entities.len(), |i: int| spec_flipped(w.entities[i])), ..w }
}

/// What the hunt queues: nothing where no player stands anywhere.
pub open spec fn spec_chasing_commands(w: WorldView, tiles: Seq<TileType>) -> Seq<CommandView> {
    let flipped = spec_flipped_world(w);
    match spec_player_at(flipped) {
        Some((_, player_pos)) => spec_chases(
            flipped.entities,
            tiles,
            player_pos,
            flipped.entities.len(),
        ),
        None => Seq::empty(),
    }
}

/// Turns over the rest flag of every entity that has one.
pub fn flip_rests(ecs: &mut World)
    ensures
        final(ecs)@ == spec_flipped_world(old(ecs)@),
{
    let ghost before = ecs@;
    let mut i: usize = 0;
    while i < ecs.entities.len()
        invariant
            i <= ecs.entities@.len(),
            before == old(ecs)@,
            ecs@.entities.len() == before.entities.len(),
            ecs@.moves == before.moves,
            ecs@.attacks == before.attacks,
            ecs@.activations == before.activations,
            ecs@.logs == before.logs,
            forall|j: int|
                0 <= j < i ==> #[trigger] ecs@.entities[j] == spec_flipped(before.entities[j]),
            forall|j: int|
                i <= j < before.entities.len() ==> #[trigger] ecs@.entities[j]
                    == before.entities[j],
        decreases ecs.entities@.len() - i,
    {
        let ghost current = ecs@;
        assert(current.entities[i as int] == before.entities[i as int]);
        if ecs.entities[i].alive {
            match ecs.entities[i].move_every_other {
                Some(rest) => {
                    ecs.entities[i].move_every_other = Some(MoveEveryOther(!rest.0));
                    assert(ecs@.entities =~= current.entities.update(
                        i as int,
                        spec_flipped(before.entities[i as int]),
                    ));
                    assert(ecs@.logs =~= before.logs);
                },
                None => {},
            }
        }
        i += 1;
    }
    assert(ecs@.entities =~= Seq::new(
        before.entities.len(),
        |i: int| spec_flipped(before.entities[i]),
    ));
}

/// The step of one hunter.
pub fn chase_one(
    ecs: &World,
    commands: &mut CommandBuffer,
    map: &Grid,
    field: &DistanceField,
    player_pos: Point,
    i: usize,
)
    requires
        map.wf(),
        field.wf(),
        i < ecs@.entities.len(),
        field.distances@ == spec_field(map.tiles@, spec_chase_sources(player_pos), CHASE_DEPTH),
    ensures
        final(commands)@ == old(commands)@ + spec_chase(
            ecs@.entities,
            map.tiles@,
            player_pos,
            i as int,
        ),
{
    assert(commands@ + Seq::<CommandView>::empty() =~= commands@);
    let record = &ecs.entities[i];
    assert(ecs@.entities[i as int] == record@);
    if !record.alive || record.chasing_player.is_none() {
        return ;
    }
    let pos = match record.position {
        Some(pos) => pos,
        None => {
            return ;
        },
    };
    let sees_player = match &record.field_of_view {
        Some(view) => view.sees(player_pos),
        None => false,
    };
    let rests = match record.move_every_other {
        Some(rest) => rest.0,
        None => false,
    };
    if !sees_player || rests || !map.in_bounds(pos) {
        return ;
    }
    let idx = map.point2d_to_index(pos);
    match field.step_toward_source(idx, map) {
        Some(j) => {
            let destination = if pos.distance_squared(player_pos) > 1 {
                map.index_to_point2d(j)
            } else {
                player_pos
            };
            bump(ecs, commands, Entity(i), destination);
        },
        None => {},
    }
}

/// Lets the hunters hunt. The rest flags are turned over first. Then every
/// hunter that sees the player and does not rest takes a step toward the
/// player along the shortest way, or strikes where the player stands in the
/// way.
pub fn chasing(map: &Grid, ecs: &mut World, commands: &mut CommandBuffer)
    requires
        map.wf(),
    ensures
        final(ecs)@ == spec_flipped_world(old(ecs)@),
        final(commands)@ == old(commands)@ + spec_chasing_commands(old(ecs)@, map.tiles@),
{
    flip_rests(ecs);
    assert(commands@ + Seq::<CommandView>::empty() =~= commands@);
    let player_pos = match ecs.player() {
        Some(e) => match ecs.entities[e.0].position {
            Some(p) => p,
            None => {
                return ;
            },
        },
        None => {
            return ;
        },
    };
    let mut search_targets: Vec<usize> = Vec::new();
    if map.in_bounds(player_pos) {
        search_targets.push(map.point2d_to_index(player_pos));
    }
    assert(search_targets@ =~= spec_chase_sources(player_pos));
    let field = DistanceField::new(map, &search_targets, CHASE_DEPTH);
    proof {
        lemma_field_unique(
            field.distances@,
            field.distances@,
            map.tiles@,
            search_targets@,
            CHASE_DEPTH,
        );
    }
    let mut i: usize = 0;
    while i < ecs.entities.len()
        invariant
            i <= ecs.entities@.len(),
            map.wf(),
            field.wf(),
            field.distances@ == spec_field(map.tiles@, spec_chase_sources(player_pos), CHASE_DEPTH),
            ecs@ == spec_flipped_world(old(ecs)@),
            commands@ == old(commands)@ + spec_chases(
                ecs@.entities,
                map.tiles@,
                player_pos,
                i as nat,
            ),
        decreases ecs.entities@.len() - i,
    {
        chase_one(ecs, commands, map, &field, player_pos, i);
        assert(commands@ =~= old(commands)@ + spec_chases(
            ecs@.entities,
            map.tiles@,
            player_pos,
            (i + 1) as nat,
        ));
        i += 1;
    }
}

} // verus!
