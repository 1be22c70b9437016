//! Core game logic: game state, the actions that mutate it, and the pure
//! `apply` function that advances it. Given identical inputs, `apply` always
//! produces the same state and events, which makes replay and cross-player
//! consistency checks possible.

use vstd::prelude::*;

use crate::ecs::{
    Direction, Entity, EntityGenerator, EntityID, EntityMap, EntityType, Point, spec_blocks_movement,
    spec_delta,
};

verus! {

/// Every possible state-mutating action that can be applied to the game.
#[derive(Debug, Clone, PartialEq, Eq)]
pub enum GameAction {
    Move(Direction),
    SpawnPlayer(String),
    /// Networking-level: request to control an existing entity.
    SpawnAs(EntityID),
    SaveWorld,
}

/// Events emitted by [`apply`] so upper layers know what happened.
#[derive(Debug, Clone, PartialEq, Eq, Structural)]
pub enum GameEvent {
    EntityMoved { entity_id: EntityID },
    PlayerSpawned { entity_id: EntityID },
    /// Upper layer should map this entity to the requesting endpoint.
    SpawnAsRequested { entity_id: EntityID },
    /// Upper layer should trigger a world save.
    SaveRequested,
}

/// Pure, deterministic game state: no networking handles, no interface state.
#[derive(Debug, Clone, PartialEq)]
pub struct GameState {
    pub entity_gen: EntityGenerator,
    pub entities: EntityMap,
    pub world_name: String,
}

/// Addition on `i32` that clamps at the ends of the range.
pub open spec fn spec_sat_add(a: int, b: int) -> int {
    if a + b > i32::MAX {
        i32::MAX as int
    } else if a + b < i32::MIN {
        i32::MIN as int
    } else {
        a + b
    }
}

fn sat_add(a: i32, b: i32) -> (r: i32)
    ensures
        r as int == spec_sat_add(a as int, b as int),
{
    if b >= 0 {
        if a > i32::MAX - b {
            i32::MAX
        } else {
            a + b
        }
    } else {
        if a < i32::MIN - b {
            i32::MIN
        } else {
            a + b
        }
    }
}

/// Where a step from `p` in direction `d` lands.
pub open spec fn spec_target(p: Point, d: Direction) -> (int, int) {
    let dd = spec_delta(d);
    (spec_sat_add(p.x as int, dd.0), spec_sat_add(p.y as int, dd.1))
}

/// Whether some entity that blocks movement stands on tile `np`.
pub open spec fn spec_blocked(entries: Seq<(EntityID, Entity)>, np: (int, int)) -> bool {
    exists|i: int|
        0 <= i < entries.len() && spec_blocks_movement((#[trigger] entries[i]).1.entity_type) && ((
        entries[i].1.position.x as int,
        entries[i].1.position.y as int,
    ) == np)
}

/// How `move_entity` relates the map after the call to the map before it: a
/// missing entity or a blocked destination leaves the map unchanged,
/// otherwise exactly the moved entity's position is replaced.
pub open spec fn spec_move_rel(
    pre: EntityMap,
    post: EntityMap,
    entity_id: EntityID,
    direction: Direction,
) -> bool {
    if !pre.spec_contains_key(entity_id) {
        post == pre
    } else {
        let np = spec_target(pre.spec_get(entity_id).position, direction);
        if spec_blocked(pre@, np) {
            post == pre
        } else {
            &&& post@.len() == pre@.len()
            &&& forall|k: int|
                0 <= k < pre@.len() ==> (#[trigger] post@[k]) == (if pre@[k].0 == entity_id {
                    (
                        entity_id,
                        Entity {
                            position: (Point { x: np.0 as i32, y: np.1 as i32 }),
                            name: pre@[k].1.name,
                            entity_type: pre@[k].1.entity_type,
                        },
                    )
                } else {
                    pre@[k]
                })
        }
    }
}

/// Move an entity one tile in the given direction.
///
/// The move is rejected if the destination tile is occupied by an entity
/// that blocks movement; a missing entity is a no-op. Coordinates saturate
/// at the ends of the `i32` range.
pub fn move_entity(state: &mut GameState, entity_id: EntityID, direction: Direction)
    requires
        old(state).entities.wf(),
    ensures
        final(state).entities.wf(),
        final(state).entity_gen == old(state).entity_gen,
        final(state).world_name == old(state).world_name,
        spec_move_rel(old(state).entities, final(state).entities, entity_id, direction),
{
    let pos = match state.entities.get(&entity_id) {
        Some(e) => e.position,
        None => {
            return ;
        },
    };
    let d = direction.delta();
    let nx = sat_add(pos.x, d.0);
    let ny = sat_add(pos.y, d.1);
    let np = Point { x: nx, y: ny };
    let ghost npi = (nx as int, ny as int);
    let n = state.entities.len();
    let mut i: usize = 0;
    let mut blocked = false;
    while i < n
        invariant
            n == state.entities@.len(),
            i <= n,
            npi == (np.x as int, np.y as int),
            blocked == exists|k: int|
                0 <= k < i && spec_blocks_movement((#[trigger] state.entities@[k]).1.entity_type)
                    && ((state.entities@[k].1.position.x as int,
                state.entities@[k].1.position.y as int) == npi),
        decreases n - i,
    {
        let entry = state.entities.entry_at(i);
        if entry.1.position == np && entry.1.entity_type.blocks_movement() {
            proof {
                assert(0 <= (i as int) && (i as int) < i + 1);
            }
            blocked = true;
        }
        i = i + 1;
    }
    if !blocked {
        state.entities.set_position(entity_id, np);
    }
}

/// How `spawn_player` relates the map after the call to the map before it:
/// the freshly generated identity maps to a new player entity at the spawn
/// tile, and everything else is untouched.
pub open spec fn spec_spawn_rel(
    pre: EntityMap,
    post: EntityMap,
    id: EntityID,
    name: String,
) -> bool {
    let e = (
        Entity {
            position: (Point { x: 10, y: 10 }),
            name: Some(name),
            entity_type: EntityType::Player,
        }
    );
    if pre.spec_contains_key(id) {
        &&& post@.len() == pre@.len()
        &&& forall|k: int|
            0 <= k < pre@.len() ==> (#[trigger] post@[k]) == (if pre@[k].0 == id {
                (id, e)
            } else {
                pre@[k]
            })
    } else {
        post@ == pre@.push((id, e))
    }
}

/// Spawn a new player entity at the spawn tile and return its identity.
pub fn spawn_player(state: &mut GameState, name: String) -> (r: EntityID)
    requires
        old(state).entities.wf(),
        old(state).entity_gen.counter() < u64::MAX,
    ensures
        final(state).entities.wf(),
        final(state).world_name == old(state).world_name,
        r == EntityID(old(state).entity_gen.counter()),
        final(state).entity_gen.counter() == old(state).entity_gen.counter() + 1,
        spec_spawn_rel(old(state).entities, final(state).entities, r, name),
{
    let id = state.entity_gen.next_id();
    state.entities.insert(
        id,
        Entity {
            position: Point { x: 10, y: 10 },
            name: Some(name),
            entity_type: EntityType::Player,
        },
    );
    id
}

/// Apply a single [`GameAction`] to the game state and return the resulting
/// events. This is the only way game state should be mutated; the function
/// is pure in the sense that identical `(state, entity_id, action)` inputs
/// always produce the same state and events.
pub fn apply(state: &mut GameState, entity_id: EntityID, action: &GameAction) -> (events: Vec<
    GameEvent,
>)
    requires
        old(state).entities.wf(),
        action is SpawnPlayer ==> old(state).entity_gen.counter() < u64::MAX,
    ensures
        final(state).entities.wf(),
        final(state).world_name == old(state).world_name,
        ({
            match action {
                GameAction::Move(direction) => {
                    &&& spec_move_rel(
                        old(state).entities,
                        final(state).entities,
                        entity_id,
                        *direction,
                    )
                    &&& final(state).entity_gen == old(state).entity_gen
                    &&& events@ == seq![(GameEvent::EntityMoved { entity_id })]
                },
                GameAction::SpawnPlayer(name) => {
                    let new_id = EntityID(old(state).entity_gen.counter());
                    &&& spec_spawn_rel(old(state).entities, final(state).entities, new_id, *name)
                    &&& final(state).entity_gen.counter() == old(state).entity_gen.counter() + 1
                    &&& events@ == seq![(GameEvent::PlayerSpawned { entity_id: new_id })]
                },
                GameAction::SpawnAs(eid) => {
                    &&& *final(state) == *old(state)
                    &&& events@ == seq![(GameEvent::SpawnAsRequested { entity_id: *eid })]
                },
                GameAction::SaveWorld => {
                    &&& *final(state) == *old(state)
                    &&& events@ == seq![(GameEvent::SaveRequested)]
                },
            }
        }),
{
    match action {
        GameAction::Move(direction) => {
            move_entity(state, entity_id, *direction);
            let mut events: Vec<GameEvent> = Vec::new();
            events.push(GameEvent::EntityMoved { entity_id });
            proof {
                assert(events@ =~= seq![(GameEvent::EntityMoved { entity_id })]);
            }
            events
        },
        GameAction::SpawnPlayer(name) => {
            let new_id = spawn_player(state, name.clone());
            let mut events: Vec<GameEvent> = Vec::new();
            events.push(GameEvent::PlayerSpawned { entity_id: new_id });
            proof {
                assert(events@ =~= seq![(GameEvent::PlayerSpawned { entity_id: new_id })]);
            }
            events
        },
        GameAction::SpawnAs(eid) => {
            let mut events: Vec<GameEvent> = Vec::new();
            events.push(GameEvent::SpawnAsRequested { entity_id: *eid });
            proof {
                assert(events@ =~= seq![(GameEvent::SpawnAsRequested { entity_id: *eid })]);
            }
            events
        },
        GameAction::SaveWorld => {
            let mut events: Vec<GameEvent> = Vec::new();
            events.push(GameEvent::SaveRequested);
            proof {
                assert(events@ =~= seq![(GameEvent::SaveRequested)]);
            }
            events
        },
    }
}


/// `x` reinterpreted as the low 64 bits of an unsigned value.
pub open spec fn spec_low64(x: i32) -> u64 {
    if x >= 0 {
        x as u64
    } else {
        (x + 0x1_0000_0000_0000_0000) as u64
    }
}

fn low64(x: i32) -> (r: u64)
    ensures
        r == spec_low64(x),
{
    if x >= 0 {
        x as u64
    } else {
        let k: u64 = (-(x as i64)) as u64;
        u64::MAX - k + 1
    }
}

/// The deterministic hash that drives world generation: a mix of shifts,
/// xors and wrapping multiplications over the seed and the coordinates.
pub open spec fn spec_simple_hash(seed: u64, x: i32, y: i32) -> u64 {
    let a = vstd::wrapping::u64_specs::wrapping_add(seed, spec_low64(x));
    let b = a ^ (a << 13);
    let c = b ^ (b >> 7);
    let d = vstd::wrapping::u64_specs::wrapping_mul(
        vstd::wrapping::u64_specs::wrapping_add(c, spec_low64(y)),
        0x517c_c1b7_2722_0a95,
    );
    let e = d ^ (d >> 17);
    let f = vstd::wrapping::u64_specs::wrapping_mul(e, 0x6c62_e91d_b73b_840b);
    f ^ (f >> 31)
}

/// Simple deterministic hash for world generation: a pseudo-random `u64`
/// from a seed and grid coordinates.
pub fn simple_hash(seed: u64, x: i32, y: i32) -> (r: u64)
    ensures
        r == spec_simple_hash(seed, x, y),
{
    let mut h = seed;
    h = h.wrapping_add(low64(x));
    h ^= h << 13;
    h ^= h >> 7;
    h = h.wrapping_add(low64(y)).wrapping_mul(0x517c_c1b7_2722_0a95);
    h ^= h >> 17;
    h = h.wrapping_mul(0x6c62_e91d_b73b_840b);
    h ^= h >> 31;
    h
}

/// The fixed tree positions of the hand-made test world.
pub open spec fn spec_tree_position(i: int) -> (int, int) {
    if i == 0 {
        (5, 5)
    } else if i == 1 {
        (15, 5)
    } else if i == 2 {
        (5, 15)
    } else if i == 3 {
        (15, 15)
    } else if i == 4 {
        (10, 5)
    } else {
        (10, 15)
    }
}

/// Whether the forest generator puts a tree on cell `(x, y)`: the cell is
/// outside the clear zone around the spawn tile and the hash of its
/// coordinates falls under the density threshold.
pub open spec fn spec_forest_tree_at(
    threshold: u64,
    seed: u64,
    sx: int,
    sy: int,
    x: int,
    y: int,
) -> bool {
    let dx = if x - sx < 0 {
        sx - x
    } else {
        x - sx
    };
    let dy = if y - sy < 0 {
        sy - y
    } else {
        y - sy
    };
    &&& !(dx <= 3 && dy <= 3)
    &&& (spec_simple_hash(seed, x as i32, y as i32) & 0xFFFF_FFFF) < threshold
}

/// The tree entities of row `y`, for columns before `x`, in scan order.
pub open spec fn spec_forest_row(
    threshold: u64,
    seed: u64,
    sx: int,
    sy: int,
    y: int,
    x: int,
) -> Seq<Entity>
    decreases (if x >= 0 { x } else { 0 }),
{
    if x <= 0 {
        Seq::empty()
    } else {
        let rest = spec_forest_row(threshold, seed, sx, sy, y, x - 1);
        if spec_forest_tree_at(threshold, seed, sx, sy, x - 1, y) {
            rest.push(
                Entity {
                    position: (Point { x: (x - 1) as i32, y: y as i32 }),
                    name: None,
                    entity_type: EntityType::Tree,
                },
            )
        } else {
            rest
        }
    }
}

/// The tree entities of the rows before `y`, in scan order.
pub open spec fn spec_forest_rows(
    width: int,
    threshold: u64,
    seed: u64,
    sx: int,
    sy: int,
    y: int,
) -> Seq<Entity>
    decreases (if y >= 0 { y } else { 0 }),
{
    if y <= 0 {
        Seq::empty()
    } else {
        spec_forest_rows(width, threshold, seed, sx, sy, y - 1) + spec_forest_row(
            threshold,
            seed,
            sx,
            sy,
            y - 1,
            width,
        )
    }
}

impl GameState {
    /// Create a test world populated with a few trees at fixed positions.
    pub fn create_test_world(name: String) -> (r: Self)
        ensures
            r.world_name == name,
            r.entities.wf(),
            r.entity_gen.counter() == 6,
            r.entities@.len() == 6,
            forall|i: int|
                0 <= i < 6 ==> (#[trigger] r.entities@[i]) == (
                EntityID(i as u64),
                Entity {
                    position: (
                        Point {
                            x: spec_tree_position(i).0 as i32,
                            y: spec_tree_position(i).1 as i32,
                        }
                    ),
                    name: None,
                    entity_type: EntityType::Tree,
                },
            ),
    {
        let mut entity_gen = EntityGenerator::default();
        let mut entities = EntityMap::new();
        let mut i: u64 = 0;
        while i < 6
            invariant
                i <= 6,
                entity_gen.counter() == i,
                entities.wf(),
                entities@.len() == i,
                forall|k: int|
                    0 <= k < i ==> (#[trigger] entities@[k]) == (
                    EntityID(k as u64),
                    Entity {
                        position: (
                            Point {
                                x: spec_tree_position(k).0 as i32,
                                y: spec_tree_position(k).1 as i32,
                            }
                        ),
                        name: None,
                        entity_type: EntityType::Tree,
                    },
                ),
            decreases 6 - i,
        {
            let pos: Point = if i == 0 {
                Point { x: 5, y: 5 }
            } else if i == 1 {
                Point { x: 15, y: 5 }
            } else if i == 2 {
                Point { x: 5, y: 15 }
            } else if i == 3 {
                Point { x: 15, y: 15 }
            } else if i == 4 {
                Point { x: 10, y: 5 }
            } else {
                Point { x: 10, y: 15 }
            };
            let id = entity_gen.next_id();
            proof {
                assert(forall|k: int|
                    0 <= k < entities@.len() ==> (#[trigger] entities@[k]).0 != id);
                assert(!entities.spec_contains_key(id));
            }
            entities.insert(id, Entity { position: pos, name: None, entity_type: EntityType::Tree });
            i = i + 1;
        }
        GameState { entity_gen, entities, world_name: name }
    }

    /// Return the identities of all player-type entities, in map order.
    pub fn get_playable_entities(&self) -> (r: Vec<EntityID>)
        ensures
            r@ == spec_playable(self.entities@, self.entities@.len() as int),
    {
        let mut out: Vec<EntityID> = Vec::new();
        let n = self.entities.len();
        let mut i: usize = 0;
        while i < n
            invariant
                n == self.entities@.len(),
                i <= n,
                out@ == spec_playable(self.entities@, i as int),
            decreases n - i,
        {
            let entry = self.entities.entry_at(i);
            if matches!(entry.1.entity_type, EntityType::Player) {
                out.push(entry.0);
            }
            i = i + 1;
        }
        out
    }

    /// Generate a forest world: trees scattered over the `width` by `height`
    /// grid wherever the seeded hash of a cell falls under `threshold`
    /// (against the low 32 bits), with a clear zone around the spawn tile at
    /// the centre of the map. The same arguments always produce the same
    /// world.
    pub fn create_forest_world(name: String, width: i32, height: i32, threshold: u64, seed: u64) -> (r:
        Self)
        requires
            0 <= width <= 10_000,
            0 <= height <= 10_000,
        ensures
            r.world_name == name,
            r.entities.wf(),
            ({
                let forest = spec_forest_rows(
                    width as int,
                    threshold,
                    seed,
                    (width / 2) as int,
                    (height / 2) as int,
                    height as int,
                );
                &&& r.entities@.len() == forest.len()
                &&& r.entity_gen.counter() == forest.len()
                &&& forall|k: int|
                    0 <= k < forest.len() ==> (#[trigger] r.entities@[k]) == (
                    EntityID(k as u64),
                    forest[k],
                )
            }),
    {
        let mut entity_gen = EntityGenerator::default();
        let mut entities = EntityMap::new();
        let spawn_x: i32 = width / 2;
        let spawn_y: i32 = height / 2;
        let ghost sx = spawn_x as int;
        let ghost sy = spawn_y as int;
        let mut y: i32 = 0;
        while y < height
            invariant
                0 <= width <= 10_000,
                0 <= height <= 10_000,
                sx == spawn_x as int,
                sy == spawn_y as int,
                0 <= spawn_x <= 10_000,
                0 <= spawn_y <= 10_000,
                0 <= y <= height,
                entities.wf(),
                ({
                    let forest = spec_forest_rows(width as int, threshold, seed, sx, sy, y as int);
                    &&& entities@.len() == forest.len()
                    &&& entity_gen.counter() == forest.len()
                    &&& forest.len() <= y * width
                    &&& forall|k: int|
                        0 <= k < forest.len() ==> (#[trigger] entities@[k]) == (
                        EntityID(k as u64),
                        forest[k],
                    )
                }),
            decreases height - y,
        {
            let mut x: i32 = 0;
            while x < width
                invariant
                    0 <= width <= 10_000,
                    0 <= height <= 10_000,
                    sx == spawn_x as int,
                    sy == spawn_y as int,
                    0 <= spawn_x <= 10_000,
                    0 <= spawn_y <= 10_000,
                    0 <= y < height,
                    0 <= x <= width,
                    entities.wf(),
                    ({
                        let forest = spec_forest_rows(width as int, threshold, seed, sx, sy, y as int)
                            + spec_forest_row(threshold, seed, sx, sy, y as int, x as int);
                        &&& entities@.len() == forest.len()
                        &&& entity_gen.counter() == forest.len()
                        &&& forest.len() <= y * width + x
                        &&& forall|k: int|
                            0 <= k < forest.len() ==> (#[trigger] entities@[k]) == (
                            EntityID(k as u64),
                            forest[k],
                        )
                    }),
                decreases width - x,
            {
                let dx: i32 = if x >= spawn_x {
                    x - spawn_x
                } else {
                    spawn_x - x
                };
                let dy: i32 = if y >= spawn_y {
                    y - spawn_y
                } else {
                    spawn_y - y
                };
                let in_clear = dx <= 3 && dy <= 3;
                let plant = if in_clear {
                    false
                } else {
                    let hash = simple_hash(seed, x, y);
                    (hash & 0xFFFF_FFFF) < threshold
                };
                proof {
                    assert(plant == spec_forest_tree_at(threshold, seed, sx, sy, x as int, y as int));
                    assert(spec_forest_row(threshold, seed, sx, sy, y as int, x as int + 1)
                        == (if spec_forest_tree_at(threshold, seed, sx, sy, x as int, y as int) {
                        spec_forest_row(threshold, seed, sx, sy, y as int, x as int).push(
                            Entity {
                                position: (Point { x: x as i32, y: y as i32 }),
                                name: None,
                                entity_type: EntityType::Tree,
                            },
                        )
                    } else {
                        spec_forest_row(threshold, seed, sx, sy, y as int, x as int)
                    }));
                }
                if plant {
                    proof {
                        assert(y * width + x < 100_000_000) by (nonlinear_arith)
                            requires 0 <= y < 10_000 && 0 <= x < 10_000 && width <= 10_000 && x < width;
                        assert(forall|k: int|
                            0 <= k < entities@.len() ==> (#[trigger] entities@[k]).0 != EntityID(
                                entity_gen.counter(),
                            ));
                        assert(!entities.spec_contains_key(EntityID(entity_gen.counter())));
                    }
                    let id = entity_gen.next_id();
                    entities.insert(
                        id,
                        Entity { position: Point { x, y }, name: None, entity_type: EntityType::Tree },
                    );
                }
                x = x + 1;
            }
            proof {
                assert(spec_forest_rows(width as int, threshold, seed, sx, sy, y as int + 1)
                    == spec_forest_rows(width as int, threshold, seed, sx, sy, y as int)
                    + spec_forest_row(threshold, seed, sx, sy, y as int, width as int));
                assert((y + 1) * width == y * width + width) by (nonlinear_arith);
            }
            y = y + 1;
        }
        proof {
            assert(spec_forest_rows(width as int, threshold, seed, sx, sy, height as int).len()
                <= height * width);
        }
        GameState { entity_gen, entities, world_name: name }
    }
}

/// The identities of the player entities among the first `n` entries.
pub open spec fn spec_playable(entries: Seq<(EntityID, Entity)>, n: int) -> Seq<EntityID>
    decreases (if n >= 0 { n } else { 0 }),
{
    if n <= 0 {
        Seq::empty()
    } else {
        let rest = spec_playable(entries, n - 1);
        if entries[n - 1].1.entity_type is Player {
            rest.push(entries[n - 1].0)
        } else {
            rest
        }
    }
}

} // verus!
