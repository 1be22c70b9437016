use gamik::ecs::{Entity, EntityID, EntityMap, EntityType, Point};
use gamik::fov::{
    AwarenessSource, PlayerFov, TileVisibility, VisibilityGrid, build_awareness,
    compute_fov_from_entities,
};
use gamik::shadowcast::compute_fov;
use gamik::tileset::TileSet;

#[test]
fn origin_always_visible() {
    let origin = Point { x: 5, y: 5 };
    let fov = compute_fov(origin, 10, &TileSet::new());
    assert!(fov.contains((5, 5)), "origin should always be visible");
}

#[test]
fn fov_respects_radius() {
    let origin = Point { x: 0, y: 0 };
    let fov = compute_fov(origin, 3, &TileSet::new());
    // A tile 4 steps away on an axis should not be visible.
    assert!(!fov.contains((4, 0)), "tile beyond radius should not be visible");
    // A tile 3 steps away on an axis should be visible.
    assert!(fov.contains((3, 0)), "tile at radius boundary should be visible");
}

#[test]
fn opaque_tile_visible_but_blocks_behind() {
    // Place an opaque wall at (2, 0). It should be visible, but (3, 0)
    // should not be.
    let origin = Point { x: 0, y: 0 };
    let mut opaque = TileSet::new();
    opaque.insert((2, 0));
    let fov = compute_fov(origin, 10, &opaque);
    assert!(fov.contains((2, 0)), "opaque tile itself should be visible");
    assert!(!fov.contains((3, 0)), "tile behind opaque should be blocked");
}

#[test]
fn visibility_grid_promotes_and_demotes() {
    let mut grid = VisibilityGrid::new();
    let pos = Point { x: 1, y: 2 };

    // Initially unexplored.
    assert_eq!(grid.get(pos), TileVisibility::Unexplored);

    // Tile enters the field of view: Visible.
    let mut fov = TileSet::new();
    fov.insert((1, 2));
    grid.update(&fov);
    assert_eq!(grid.get(pos), TileVisibility::Visible);

    // Tile leaves the field of view: Remembered.
    let empty_fov = TileSet::new();
    grid.update(&empty_fov);
    assert_eq!(grid.get(pos), TileVisibility::Remembered);

    // Tile never goes back to Unexplored.
    grid.update(&empty_fov);
    assert_eq!(grid.get(pos), TileVisibility::Remembered);
}

#[test]
fn compute_fov_from_entities_blocks_trees() {
    let mut entities = EntityMap::new();
    // Place a tree at (3, 0).
    entities.insert(
        EntityID(1),
        Entity {
            position: Point { x: 3, y: 0 },
            name: None,
            entity_type: EntityType::Tree,
        },
    );

    let origin = Point { x: 0, y: 0 };
    let fov = compute_fov_from_entities(origin, 10, &entities);

    assert!(fov.contains((3, 0)), "tree tile should be visible");
    assert!(!fov.contains((4, 0)), "tile behind tree should be blocked");
}

#[test]
fn player_fov_recompute_updates_visibility() {
    let entities = EntityMap::new();
    let mut pfov = PlayerFov::new(5);

    let origin = Point { x: 0, y: 0 };
    pfov.recompute(origin, &entities);

    assert_eq!(pfov.visibility.get(Point { x: 0, y: 0 }), TileVisibility::Visible);
    assert!(pfov.current_fov.contains((0, 0)));
}

#[test]
fn awareness_includes_entities_in_fov() {
    let mut entities = EntityMap::new();
    entities.insert(
        EntityID(1),
        Entity {
            position: Point { x: 1, y: 0 },
            name: None,
            entity_type: EntityType::Player,
        },
    );

    let mut fov = TileSet::new();
    fov.insert((1, 0));

    let aware = build_awareness(&fov, &entities, 0, Point { x: 0, y: 0 });
    assert_eq!(aware.len(), 1);
    assert_eq!(aware.first().expect("non-empty").entity_id, EntityID(1));
    assert_eq!(aware.first().expect("non-empty").source, AwarenessSource::Sight);
}
