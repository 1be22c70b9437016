use gamik::ecs::{Direction, Entity, EntityID, EntityMap, EntityType, Point};
use gamik::fov::{AwareEntity, AwarenessSource, TileVisibility, VisibilityGrid, build_awareness};
use gamik::game::{GameState, simple_hash};
use gamik::shadowcast::{compute_fov, transform_octant};
use gamik::structs::{Entities, Entity as SlabEntity, EntityType as SlabEntityType};
use gamik::human::{EyeColor, HairColor, Human, SkinColor};
use gamik::tileset::TileSet;
use gamik::ui::TemplateApp;

#[test]
fn open_field_matches_brute_force_disk() {
    // With no occluders the visible set is exactly the integer disk, for
    // every small radius.
    for r in 1..=10i32 {
        let fov = compute_fov(Point { x: 0, y: 0 }, r, &TileSet::new());
        for dx in -(r + 2)..=(r + 2) {
            for dy in -(r + 2)..=(r + 2) {
                let in_disk = dx * dx + dy * dy <= r * r;
                assert_eq!(
                    fov.contains((dx, dy)),
                    in_disk,
                    "radius {r}: offset ({dx}, {dy})"
                );
            }
        }
    }
}

#[test]
fn fov_is_deterministic() {
    let mut opaque = TileSet::new();
    opaque.insert((2, 1));
    opaque.insert((-3, 4));
    opaque.insert((0, -2));
    let a = compute_fov(Point { x: 7, y: -3 }, 9, &opaque);
    let b = compute_fov(Point { x: 7, y: -3 }, 9, &opaque);
    assert_eq!(a, b);
}

#[test]
fn fov_symmetric_between_two_points() {
    // Symmetry: if A sees B then B sees A, under the same occluders.
    let mut opaque = TileSet::new();
    opaque.insert((3, 2));
    opaque.insert((1, 4));
    let a = Point { x: 0, y: 0 };
    let b = Point { x: 5, y: 3 };
    let fov_a = compute_fov(a, 8, &opaque);
    let fov_b = compute_fov(b, 8, &opaque);
    assert_eq!(fov_a.contains((b.x, b.y)), fov_b.contains((a.x, a.y)));
}

#[test]
fn transform_octant_covers_all_reflections() {
    assert_eq!(transform_octant(-1, -2, 0), (-1, -2));
    assert_eq!(transform_octant(-1, -2, 1), (-2, -1));
    assert_eq!(transform_octant(-1, -2, 2), (-2, 1));
    assert_eq!(transform_octant(-1, -2, 3), (-1, 2));
    assert_eq!(transform_octant(-1, -2, 4), (1, 2));
    assert_eq!(transform_octant(-1, -2, 5), (2, 1));
    assert_eq!(transform_octant(-1, -2, 6), (2, -1));
    assert_eq!(transform_octant(-1, -2, 7), (1, -2));
}

#[test]
fn simple_hash_exact_values() {
    assert_eq!(simple_hash(42, 3, 4), 7795848301142360837);
    assert_eq!(simple_hash(42, -1, 7), 9731506134649030927);
    assert_eq!(simple_hash(0, 0, 0), 0);
}

#[test]
fn tile_visibility_default_is_unexplored() {
    assert_eq!(TileVisibility::default(), TileVisibility::Unexplored);
}

#[test]
fn grid_keeps_visible_when_still_in_fov() {
    let mut grid = VisibilityGrid::new();
    let mut fov = TileSet::new();
    fov.insert((4, 4));
    grid.update(&fov);
    grid.update(&fov);
    assert_eq!(grid.get(Point { x: 4, y: 4 }), TileVisibility::Visible);
}

#[test]
fn awareness_excludes_far_entity() {
    let mut entities = EntityMap::new();
    entities.insert(
        EntityID(9),
        Entity {
            position: Point { x: 100, y: 100 },
            name: None,
            entity_type: EntityType::Player,
        },
    );
    let aware = build_awareness(&TileSet::new(), &entities, 0, Point { x: 0, y: 0 });
    assert!(aware.is_empty());
}

#[test]
fn awareness_margin_window_uses_default_radius() {
    // The window is DEFAULT_FOV_RADIUS + margin on each axis.
    let mut entities = EntityMap::new();
    entities.insert(
        EntityID(1),
        Entity {
            position: Point { x: 14, y: 0 },
            name: None,
            entity_type: EntityType::Player,
        },
    );
    entities.insert(
        EntityID(2),
        Entity {
            position: Point { x: 15, y: 0 },
            name: None,
            entity_type: EntityType::Player,
        },
    );
    let aware = build_awareness(&TileSet::new(), &entities, 2, Point { x: 0, y: 0 });
    assert_eq!(aware.len(), 1);
    let expected = AwareEntity {
        entity_id: EntityID(1),
        position: Point { x: 14, y: 0 },
        source: AwarenessSource::Sight,
    };
    assert!(aware.contains(&expected));
}

#[test]
fn slab_reuses_freed_slots_and_updates() {
    let mut slab = Entities::default();
    let tree = SlabEntity {
        position: Point { x: 1, y: 1 },
        name: None,
        entity_type: SlabEntityType::Tree,
    };
    let a = slab.add_entity(tree.clone());
    let b = slab.add_entity(SlabEntity {
        position: Point { x: 2, y: 2 },
        name: None,
        entity_type: SlabEntityType::Player(Human::new()),
    });
    assert_eq!(a, 0);
    assert_eq!(b, 1);
    slab.update_entity(
        a,
        SlabEntity {
            position: Point { x: 9, y: 9 },
            name: None,
            entity_type: SlabEntityType::Tree,
        },
    );
    assert_eq!(slab.e_vec[a].position, Point { x: 9, y: 9 });
    let playable = slab.get_playable_entities();
    assert_eq!(playable, vec![b]);
}

#[test]
fn slab_move_entity_directions_and_saturation() {
    let mut slab = Entities::default();
    let id = slab.add_entity(SlabEntity {
        position: Point { x: 0, y: 0 },
        name: None,
        entity_type: SlabEntityType::Player(Human::new()),
    });
    slab.move_entity(id, Direction::Down);
    assert_eq!(slab.e_vec[id].position, Point { x: 0, y: 1 });
    slab.move_entity(id, Direction::Right);
    assert_eq!(slab.e_vec[id].position, Point { x: 1, y: 1 });
    slab.update_entity(
        id,
        SlabEntity {
            position: Point { x: i32::MIN, y: i32::MIN },
            name: None,
            entity_type: SlabEntityType::Player(Human::new()),
        },
    );
    slab.move_entity(id, Direction::Up);
    slab.move_entity(id, Direction::Left);
    assert_eq!(slab.e_vec[id].position, Point { x: i32::MIN, y: i32::MIN });
}

#[test]
fn display_char_prefers_first_entity_on_tile() {
    let mut slab = Entities::default();
    slab.add_entity(SlabEntity {
        position: Point { x: 2, y: 3 },
        name: None,
        entity_type: SlabEntityType::Tree,
    });
    slab.add_entity(SlabEntity {
        position: Point { x: 4, y: 4 },
        name: Some("P".into()),
        entity_type: SlabEntityType::Player(Human::new()),
    });
    assert_eq!(slab.get_display_char(&Point { x: 2, y: 3 }), "\u{6728}");
    assert_eq!(slab.get_display_char(&Point { x: 4, y: 4 }), "@");
    assert_eq!(slab.get_display_char(&Point { x: 0, y: 0 }), ".");
}

#[test]
fn human_new_has_default_appearance() {
    let h = Human::new();
    assert_eq!(h.body().skin_color(), SkinColor::Bronze);
    assert_eq!(h.body().hair_color(), HairColor::Brunette);
    assert_eq!(h.body().eye_color(), EyeColor::Hazel);
    assert!(h.body().body_mods().is_empty());
}

#[test]
fn template_app_grid_fit() {
    let mut app_state = TemplateApp::default();
    assert_eq!(app_state.grid_size(), 1);
    app_state.fit_grid(7, 5);
    assert_eq!(app_state.grid_size(), 5);
    app_state.fit_grid(0, 9);
    assert_eq!(app_state.grid_size(), 1);
}

#[test]
fn forest_world_exact_layout_for_seed() {
    // Exact scan-order layout for one seed and threshold: identity k maps
    // to the k-th qualifying cell in row-major order.
    let state = GameState::create_forest_world("w".into(), 10, 10, 2_000_000_000, 7);
    assert_eq!(state.entities.len(), 23);
    let first = state.entities.entry_at(0);
    assert_eq!(first.0, EntityID(0));
    assert_eq!(first.1.position, Point { x: 2, y: 0 });
    assert_eq!(first.1.entity_type, EntityType::Tree);
    let second = state.entities.entry_at(1);
    assert_eq!(second.1.position, Point { x: 6, y: 0 });
}
