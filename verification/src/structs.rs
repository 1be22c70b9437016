//! The server-world data model: a slab of entities addressed by index, the
//! commands a client can send, and the serializable part of a world.

use vstd::prelude::*;

use crate::game::spec_tree_position;
use crate::human::Human;

pub use crate::ecs::Direction;
pub use crate::ecs::Point;

verus! {

/// Index of an entity in the slab.
pub type EntityID = usize;

/// A command a client can send to the world.
#[derive(Debug, Clone)]
pub enum GameCommand {
    Move(Direction),
    SpawnPlayer(String),
    SpawnAs(EntityID),
    SaveWorld,
}

/// A queued event: who sent which command.
pub type GameEvent = (EntityID, GameCommand);

/// The kind of an entity; a player carries its human.
#[derive(Debug, Clone, PartialEq, Eq)]
pub enum EntityType {
    Player(Human),
    Tree,
}

/// A world entity: where it stands, an optional name, and its kind.
#[derive(Debug, Clone, PartialEq, Eq)]
pub struct Entity {
    pub position: Point,
    pub name: Option<String>,
    pub entity_type: EntityType,
}

/// A slab of entities: freed indices are kept on a free list and reused by
/// the next insertion.
#[derive(Debug, Clone)]
pub struct Entities {
    pub e_vec: Vec<Entity>,
    free_list: Vec<usize>,
}

impl Default for Entities {
    fn default() -> (r: Self)
        ensures
            r.spec_slots() == Seq::<Entity>::empty(),
            r.spec_free_list() == Seq::<usize>::empty(),
            r.wf(),
    {
        Entities { e_vec: Vec::new(), free_list: Vec::new() }
    }
}

/// The display glyphs, first match wins: a player, a tree, or the empty
/// ground, scanning the slab from the front for an entity on tile `p`.
pub open spec fn spec_display_from(s: Seq<Entity>, p: (int, int), i: int) -> Seq<char>
    decreases (if i <= s.len() { s.len() - i } else { 0 }),
{
    if i < 0 || i >= s.len() {
        "."@
    } else if ((s[i].position.x as int, s[i].position.y as int) == p) {
        match s[i].entity_type {
            EntityType::Player(_) => "@"@,
            EntityType::Tree => "\u{6728}"@,
        }
    } else {
        spec_display_from(s, p, i + 1)
    }
}

/// The indices of the player entities among the first `n` slots.
pub open spec fn spec_playable_indices(s: Seq<Entity>, n: int) -> Seq<usize>
    decreases (if n >= 0 { n } else { 0 }),
{
    if n <= 0 {
        Seq::empty()
    } else {
        let rest = spec_playable_indices(s, n - 1);
        if s[n - 1].entity_type is Player {
            rest.push((n - 1) as usize)
        } else {
            rest
        }
    }
}

impl Entities {
    /// The slab contents, slot by slot.
    pub closed spec fn spec_slots(&self) -> Seq<Entity> {
        self.e_vec@
    }

    /// Every free index points into the slab.
    pub closed spec fn spec_free_list(&self) -> Seq<usize> {
        self.free_list@
    }

    pub open spec fn wf(&self) -> bool {
        forall|i: int|
            0 <= i < self.spec_free_list().len() ==> (#[trigger] self.spec_free_list()[i]) < self.spec_slots().len()
    }

    /// Reads the free list, for persisting the slab.
    pub fn free_slots(&self) -> (r: &Vec<usize>)
        ensures
            r@ == self.spec_free_list(),
    {
        &self.free_list
    }

    /// A slab restored from persisted parts; every free index must point
    /// into the slab.
    pub fn from_parts(e_vec: Vec<Entity>, free_list: Vec<usize>) -> (r: Self)
        requires
            forall|i: int| 0 <= i < free_list@.len() ==> (#[trigger] free_list@[i]) < e_vec@.len(),
        ensures
            r.wf(),
            r.spec_slots() == e_vec@,
            r.spec_free_list() == free_list@,
    {
        Entities { e_vec, free_list }
    }

    /// Adds an entity, reusing the most recently freed slot if one exists
    /// and appending otherwise; returns the slot.
    pub fn add_entity(&mut self, entity: Entity) -> (r: EntityID)
        requires
            old(self).wf(),
        ensures
            final(self).wf(),
            old(self).spec_free_list().len() > 0 ==> {
                &&& r == old(self).spec_free_list().last()
                &&& final(self).spec_slots() == old(self).spec_slots().update(r as int, entity)
                &&& final(self).spec_free_list() == old(self).spec_free_list().drop_last()
            },
            old(self).spec_free_list().len() == 0 ==> {
                &&& r == old(self).spec_slots().len()
                &&& final(self).spec_slots() == old(self).spec_slots().push(entity)
                &&& final(self).spec_free_list() == old(self).spec_free_list()
            },
    {
        match self.free_list.pop() {
            Some(id) => {
                self.e_vec[id] = entity;
                id
            },
            None => {
                let id = self.e_vec.len();
                self.e_vec.push(entity);
                id
            },
        }
    }

    /// Replaces the entity in slot `eid`; the slot must be in use.
    pub fn update_entity(&mut self, eid: EntityID, entity: Entity)
        requires
            old(self).wf(),
            eid < old(self).spec_slots().len(),
        ensures
            final(self).wf(),
            final(self).spec_slots() == old(self).spec_slots().update(eid as int, entity),
            final(self).spec_free_list() == old(self).spec_free_list(),
    {
        self.e_vec[eid] = entity;
        proof {
            assert(self.spec_slots().len() == old(self).spec_slots().len());
            assert(self.spec_free_list() == old(self).spec_free_list());
        }
    }

    /// Moves the entity in slot `entity_id` one tile; `Up` and `Left`
    /// saturate at the lower end of the range.
    pub fn move_entity(&mut self, entity_id: EntityID, direction: Direction)
        requires
            old(self).wf(),
            entity_id < old(self).spec_slots().len(),
            direction is Down ==> old(self).spec_slots()[entity_id as int].position.y < i32::MAX,
            direction is Right ==> old(self).spec_slots()[entity_id as int].position.x < i32::MAX,
        ensures
            final(self).wf(),
            final(self).spec_free_list() == old(self).spec_free_list(),
            ({
                let p = old(self).spec_slots()[entity_id as int].position;
                let np = (
                    match direction {
                        Direction::Up => (
                            Point {
                                x: p.x,
                                y: (if p.y as int - 1 < i32::MIN {
                                    i32::MIN
                                } else {
                                    (p.y - 1) as i32
                                }),
                            }
                        ),
                        Direction::Down => (Point { x: p.x, y: (p.y + 1) as i32 }),
                        Direction::Left => (
                            Point {
                                x: (if p.x as int - 1 < i32::MIN {
                                    i32::MIN
                                } else {
                                    (p.x - 1) as i32
                                }),
                                y: p.y,
                            }
                        ),
                        Direction::Right => (Point { x: (p.x + 1) as i32, y: p.y }),
                    }
                );
                final(self).spec_slots() == old(self).spec_slots().update(
                    entity_id as int,
                    Entity {
                        position: np,
                        name: old(self).spec_slots()[entity_id as int].name,
                        entity_type: old(self).spec_slots()[entity_id as int].entity_type,
                    },
                )
            }),
    {
        let current = self.e_vec[entity_id].position;
        let new_pos = match direction {
            Direction::Up => Point {
                x: current.x,
                y: if current.y > i32::MIN {
                    current.y - 1
                } else {
                    i32::MIN
                },
            },
            Direction::Down => Point { x: current.x, y: current.y + 1 },
            Direction::Left => Point {
                x: if current.x > i32::MIN {
                    current.x - 1
                } else {
                    i32::MIN
                },
                y: current.y,
            },
            Direction::Right => Point { x: current.x + 1, y: current.y },
        };
        self.e_vec[entity_id].position = new_pos;
        proof {
            assert(self.spec_slots().len() == old(self).spec_slots().len());
            assert(self.spec_free_list() == old(self).spec_free_list());
            assert(final(self).spec_slots() =~= old(self).spec_slots().update(
                entity_id as int,
                Entity {
                    position: new_pos,
                    name: old(self).spec_slots()[entity_id as int].name,
                    entity_type: old(self).spec_slots()[entity_id as int].entity_type,
                },
            ));
        }
    }

    /// The indices of all player entities, in slab order.
    pub fn get_playable_entities(&self) -> (r: Vec<EntityID>)
        ensures
            r@ == spec_playable_indices(self.spec_slots(), self.spec_slots().len() as int),
    {
        let mut out: Vec<EntityID> = Vec::new();
        let n = self.e_vec.len();
        let mut i: usize = 0;
        while i < n
            invariant
                n == self.spec_slots().len(),
                i <= n,
                out@ == spec_playable_indices(self.spec_slots(), i as int),
            decreases n - i,
        {
            if matches!(self.e_vec[i].entity_type, EntityType::Player(_)) {
                out.push(i);
            }
            i = i + 1;
        }
        out
    }

    /// The glyph to draw for tile `point`: the first entity standing on it,
    /// or the ground.
    pub fn get_display_char(&self, point: &Point) -> (r: &'static str)
        ensures
            r@ == spec_display_from(self.spec_slots(), (point.x as int, point.y as int), 0),
    {
        let n = self.e_vec.len();
        let mut i: usize = 0;
        while i < n
            invariant
                n == self.spec_slots().len(),
                i <= n,
                spec_display_from(self.spec_slots(), (point.x as int, point.y as int), 0)
                    == spec_display_from(self.spec_slots(), (point.x as int, point.y as int), i as int),
            decreases n - i,
        {
            let e = &self.e_vec[i];
            if e.position.x == point.x && e.position.y == point.y {
                match e.entity_type {
                    EntityType::Player(_) => {
                        return "@";
                    },
                    EntityType::Tree => {
                        return "\u{6728}";
                    },
                }
            }
            i = i + 1;
        }
        "."
    }
}

/// A fresh slab populated with the fixed test trees, in slot order.
pub fn create_test_entities() -> (r: Entities)
    ensures
        r.wf(),
        r.spec_free_list() == Seq::<usize>::empty(),
        r.spec_slots().len() == 6,
        forall|i: int|
            0 <= i < 6 ==> (#[trigger] r.spec_slots()[i]) == (Entity {
                position: (
                    Point { x: spec_tree_position(i).0 as i32, y: spec_tree_position(i).1 as i32 }
                ),
                name: None,
                entity_type: EntityType::Tree,
            }),
{
    let mut entities = Entities::default();
    let mut i: u64 = 0;
    while i < 6
        invariant
            i <= 6,
            entities.wf(),
            entities.spec_free_list() == Seq::<usize>::empty(),
            entities.spec_slots().len() == i,
            forall|k: int|
                0 <= k < i ==> (#[trigger] entities.spec_slots()[k]) == (Entity {
                    position: (
                        Point {
                            x: spec_tree_position(k).0 as i32,
                            y: spec_tree_position(k).1 as i32,
                        }
                    ),
                    name: None,
                    entity_type: EntityType::Tree,
                }),
        decreases 6 - i,
    {
        let pos: Point = if i == 0 {
            Point { x: 5, y: 5 }
        } else if i == 1 {
            Point { x: 15, y: 5 }
        } else if i == 2 {
            Point { x: 5, y: 15 }
        } else if i == 3 {
            Point { x: 15, y: 15 }
        } else if i == 4 {
            Point { x: 10, y: 5 }
        } else {
            Point { x: 10, y: 15 }
        };
        entities.add_entity(Entity { position: pos, name: None, entity_type: EntityType::Tree });
        i = i + 1;
    }
    entities
}

/// The serializable part of a world: the entities and the world's name.
#[derive(Debug, Clone)]
pub struct SerializableGameWorld {
    pub entities: Entities,
    pub world_name: String,
}

} // verus!
