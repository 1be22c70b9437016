use gamik::ecs::{Direction, Entity, EntityGenerator, EntityID, EntityMap, EntityType, Point};
use gamik::game::{GameAction, GameEvent, GameState, apply, move_entity, spawn_player};

fn empty_state() -> GameState {
    GameState {
        entity_gen: EntityGenerator::default(),
        entities: EntityMap::new(),
        world_name: "test".into(),
    }
}

fn threshold_for_density(density: f64) -> u64 {
    (density * f64::from(u32::MAX)) as u64
}

// -- spawn_player --------------------------------------------------------

#[test]
fn spawn_player_creates_entity() {
    let mut state = empty_state();
    let id = spawn_player(&mut state, "Alice".into());

    assert!(state.entities.contains_key(&id));
    let entity = state.entities.get(&id).expect("just spawned");
    assert_eq!(entity.name, Some("Alice".into()));
    assert_eq!(entity.entity_type, EntityType::Player);
    assert_eq!(entity.position, Point { x: 10, y: 10 });
}

#[test]
fn spawn_player_ids_are_unique() {
    let mut state = empty_state();
    let id1 = spawn_player(&mut state, "Alice".into());
    let id2 = spawn_player(&mut state, "Bob".into());
    assert_ne!(id1, id2);
}

// -- move_entity ---------------------------------------------------------

#[test]
fn move_entity_up() {
    let mut state = empty_state();
    let id = spawn_player(&mut state, "P".into());
    let start = state.entities.get(&id).expect("exists").position;

    move_entity(&mut state, id, Direction::Up);
    assert_eq!(
        state.entities.get(&id).expect("exists").position,
        Point { x: start.x, y: start.y - 1 }
    );
}

#[test]
fn move_entity_down() {
    let mut state = empty_state();
    let id = spawn_player(&mut state, "P".into());
    let start = state.entities.get(&id).expect("exists").position;

    move_entity(&mut state, id, Direction::Down);
    assert_eq!(
        state.entities.get(&id).expect("exists").position,
        Point { x: start.x, y: start.y + 1 }
    );
}

#[test]
fn move_entity_left() {
    let mut state = empty_state();
    let id = spawn_player(&mut state, "P".into());
    let start = state.entities.get(&id).expect("exists").position;

    move_entity(&mut state, id, Direction::Left);
    assert_eq!(
        state.entities.get(&id).expect("exists").position,
        Point { x: start.x - 1, y: start.y }
    );
}

#[test]
fn move_entity_right() {
    let mut state = empty_state();
    let id = spawn_player(&mut state, "P".into());
    let start = state.entities.get(&id).expect("exists").position;

    move_entity(&mut state, id, Direction::Right);
    assert_eq!(
        state.entities.get(&id).expect("exists").position,
        Point { x: start.x + 1, y: start.y }
    );
}

#[test]
fn move_nonexistent_entity_is_noop() {
    let mut state = empty_state();
    let before = state.clone();
    move_entity(&mut state, EntityID(999), Direction::Up);
    assert_eq!(state, before);
}

#[test]
fn move_allows_negative_coordinates() {
    let mut state = empty_state();
    let id = spawn_player(&mut state, "P".into());
    // Place entity at origin
    state.entities.set_position(id, Point { x: 0, y: 0 });

    // Saturating arithmetic allows going below zero (saturates at i32::MIN)
    move_entity(&mut state, id, Direction::Up);
    assert_eq!(state.entities.get(&id).expect("exists").position, Point { x: 0, y: -1 });

    state.entities.set_position(id, Point { x: 0, y: 0 });
    move_entity(&mut state, id, Direction::Left);
    assert_eq!(state.entities.get(&id).expect("exists").position, Point { x: -1, y: 0 });
}

// -- apply ---------------------------------------------------------------

#[test]
fn apply_move_returns_entity_moved_event() {
    let mut state = empty_state();
    let id = spawn_player(&mut state, "P".into());
    let events = apply(&mut state, id, &GameAction::Move(Direction::Right));
    assert_eq!(events, vec![GameEvent::EntityMoved { entity_id: id }]);
}

#[test]
fn apply_spawn_player_returns_player_spawned_event() {
    let mut state = empty_state();
    let events = apply(&mut state, EntityID(0), &GameAction::SpawnPlayer("Bob".into()));
    assert_eq!(events.len(), 1);
    match &events[0] {
        GameEvent::PlayerSpawned { entity_id } => {
            assert!(state.entities.contains_key(entity_id));
        },
        other => panic!("expected PlayerSpawned, got {other:?}"),
    }
}

#[test]
fn apply_save_world_returns_save_requested() {
    let mut state = empty_state();
    let events = apply(&mut state, EntityID(0), &GameAction::SaveWorld);
    assert_eq!(events, vec![GameEvent::SaveRequested]);
}

#[test]
fn apply_spawn_as_returns_spawn_as_requested() {
    let mut state = empty_state();
    let events = apply(&mut state, EntityID(0), &GameAction::SpawnAs(EntityID(42)));
    assert_eq!(events, vec![GameEvent::SpawnAsRequested { entity_id: EntityID(42) }]);
}

// -- determinism ---------------------------------------------------------

#[test]
fn identical_action_sequences_produce_identical_states() {
    let actions = vec![
        (EntityID(0), GameAction::SpawnPlayer("Alice".into())),
        (EntityID(1), GameAction::Move(Direction::Right)),
        (EntityID(1), GameAction::Move(Direction::Down)),
        (EntityID(0), GameAction::SpawnPlayer("Bob".into())),
        (EntityID(2), GameAction::Move(Direction::Left)),
    ];

    let mut state_a = empty_state();
    let mut state_b = empty_state();

    for (eid, action) in &actions {
        apply(&mut state_a, *eid, action);
        apply(&mut state_b, *eid, action);
    }

    assert_eq!(state_a, state_b);
}

// -- create_test_world ---------------------------------------------------

#[test]
fn create_test_world_has_trees() {
    let state = GameState::create_test_world("w".into());
    let mut tree_count = 0;
    for i in 0..state.entities.len() {
        if state.entities.entry_at(i).1.entity_type == EntityType::Tree {
            tree_count += 1;
        }
    }
    assert_eq!(tree_count, 6);
}

// -- get_playable_entities -----------------------------------------------

#[test]
fn get_playable_entities_returns_only_players() {
    let mut state = GameState::create_test_world("w".into());
    assert!(state.get_playable_entities().is_empty());

    let pid = spawn_player(&mut state, "Alice".into());
    let playable = state.get_playable_entities();
    assert_eq!(playable.len(), 1);
    assert!(playable.contains(&pid));
}

// -- entity_type ---------------------------------------------------------

#[test]
fn tree_blocks_sight() {
    assert!(EntityType::Tree.blocks_sight());
}

#[test]
fn player_does_not_block_sight() {
    assert!(!EntityType::Player.blocks_sight());
}

// -- collision -----------------------------------------------------------

#[test]
fn tree_blocks_movement() {
    assert!(EntityType::Tree.blocks_movement());
}

#[test]
fn player_does_not_block_movement() {
    assert!(!EntityType::Player.blocks_movement());
}

#[test]
fn move_blocked_by_tree() {
    let mut state = empty_state();
    let pid = spawn_player(&mut state, "P".into());
    // Place player at (5, 5).
    state.entities.set_position(pid, Point { x: 5, y: 5 });

    // Place a tree at (6, 5) — one step to the right.
    let tid = state.entity_gen.next_id();
    state.entities.insert(
        tid,
        Entity {
            position: Point { x: 6, y: 5 },
            name: None,
            entity_type: EntityType::Tree,
        },
    );

    move_entity(&mut state, pid, Direction::Right);
    // Player should NOT have moved.
    assert_eq!(
        state.entities.get(&pid).expect("exists").position,
        Point { x: 5, y: 5 },
        "player should be blocked by tree"
    );
}

// -- forest world gen ----------------------------------------------------

#[test]
fn forest_world_has_trees() {
    let state =
        GameState::create_forest_world("forest".into(), 50, 50, threshold_for_density(0.15), 42);
    let mut tree_count = 0;
    for i in 0..state.entities.len() {
        if state.entities.entry_at(i).1.entity_type == EntityType::Tree {
            tree_count += 1;
        }
    }
    assert!(tree_count > 0, "forest world should have trees");
}

#[test]
fn forest_world_spawn_area_clear() {
    let state =
        GameState::create_forest_world("forest".into(), 50, 50, threshold_for_density(0.5), 42);
    let spawn = Point { x: 25, y: 25 };
    let clear_radius = 3;

    for i in 0..state.entities.len() {
        let e = &state.entities.entry_at(i).1;
        if e.entity_type == EntityType::Tree {
            let dx = (e.position.x - spawn.x).abs();
            let dy = (e.position.y - spawn.y).abs();
            assert!(
                dx > clear_radius || dy > clear_radius,
                "tree at ({}, {}) is inside spawn clear zone",
                e.position.x,
                e.position.y,
            );
        }
    }
}

#[test]
fn forest_world_deterministic() {
    let state_a = GameState::create_forest_world("f".into(), 30, 30, threshold_for_density(0.2), 99);
    let state_b = GameState::create_forest_world("f".into(), 30, 30, threshold_for_density(0.2), 99);
    assert_eq!(state_a, state_b, "same seed should produce identical worlds");
}
