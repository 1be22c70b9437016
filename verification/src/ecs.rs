//! Entity-component basics: tile coordinates, directions, entity identities,
//! and a small map from identity to entity backed by a vector with unique
//! keys.

use vstd::prelude::*;

verus! {

/// A tile coordinate. The world is conceptually unbounded; coordinates may be
/// negative.
#[derive(Debug, Clone, Copy, PartialEq, Eq, Hash, Structural)]
pub struct Point {
    pub x: i32,
    pub y: i32,
}

/// One of the four cardinal movement directions.
#[derive(Debug, Clone, Copy, PartialEq, Eq, Structural)]
pub enum Direction {
    Up,
    Down,
    Left,
    Right,
}

/// The `(dx, dy)` step of a direction; `Up` decreases `y`.
pub open spec fn spec_delta(d: Direction) -> (int, int) {
    match d {
        Direction::Up => (0, -1),
        Direction::Down => (0, 1),
        Direction::Left => (-1, 0),
        Direction::Right => (1, 0),
    }
}

impl Direction {
    pub fn delta(&self) -> (r: (i32, i32))
        ensures
            (r.0 as int, r.1 as int) == spec_delta(*self),
    {
        match self {
            Direction::Up => (0, -1),
            Direction::Down => (0, 1),
            Direction::Left => (-1, 0),
            Direction::Right => (1, 0),
        }
    }
}

/// Identity of an entity; allocated sequentially by [`EntityGenerator`].
#[derive(Debug, Clone, Copy, PartialEq, Eq, Hash, Structural)]
pub struct EntityID(pub u64);

/// Allocates fresh entity identities in increasing order.
#[derive(Debug, Clone, PartialEq)]
pub struct EntityGenerator {
    next: u64,
}

impl EntityGenerator {
    /// The identity the next call to `next_id` will hand out.
    pub closed spec fn counter(&self) -> u64 {
        self.next
    }

    /// Reads the counter, for persisting the generator.
    pub fn counter_value(&self) -> (r: u64)
        ensures
            r == self.counter(),
    {
        self.next
    }

    /// A generator restored to a persisted counter.
    pub fn with_counter(next: u64) -> (r: Self)
        ensures
            r.counter() == next,
    {
        EntityGenerator { next }
    }

    pub fn next_id(&mut self) -> (r: EntityID)
        requires
            old(self).counter() < u64::MAX,
        ensures
            r == EntityID(old(self).counter()),
            final(self).counter() == old(self).counter() + 1,
    {
        let id = EntityID(self.next);
        self.next = self.next + 1;
        id
    }
}

impl Default for EntityGenerator {
    fn default() -> (r: Self)
        ensures
            r.counter() == 0,
    {
        EntityGenerator { next: 0 }
    }
}

/// The kind of an entity, which decides its capabilities.
#[derive(Debug, Clone, Copy, PartialEq, Eq, Structural)]
pub enum EntityType {
    Player,
    Tree,
}

/// Whether the kind blocks line of sight.
pub open spec fn spec_blocks_sight(t: EntityType) -> bool {
    t is Tree
}

/// Whether the kind blocks movement onto its tile.
pub open spec fn spec_blocks_movement(t: EntityType) -> bool {
    t is Tree
}

impl EntityType {
    pub fn blocks_sight(&self) -> (r: bool)
        ensures
            r == spec_blocks_sight(*self),
    {
        match self {
            EntityType::Tree => true,
            EntityType::Player => false,
        }
    }

    pub fn blocks_movement(&self) -> (r: bool)
        ensures
            r == spec_blocks_movement(*self),
    {
        match self {
            EntityType::Tree => true,
            EntityType::Player => false,
        }
    }
}

/// A world entity: where it stands, an optional name, and its kind.
#[derive(Debug, Clone, PartialEq, Eq)]
pub struct Entity {
    pub position: Point,
    pub name: Option<String>,
    pub entity_type: EntityType,
}

/// A map from entity identity to entity, viewed as the sequence of its
/// entries in insertion order; keys are unique.
#[derive(Debug, Clone, PartialEq)]
pub struct EntityMap {
    entries: Vec<(EntityID, Entity)>,
}

impl View for EntityMap {
    type V = Seq<(EntityID, Entity)>;

    closed spec fn view(&self) -> Seq<(EntityID, Entity)> {
        self.entries@
    }
}

impl EntityMap {
    /// Keys are pairwise distinct.
    pub open spec fn wf(&self) -> bool {
        forall|i: int, j: int|
            0 <= i < j < self@.len() ==> (#[trigger] self@[i]).0 != (#[trigger] self@[j]).0
    }

    pub open spec fn spec_contains_key(&self, id: EntityID) -> bool {
        exists|i: int| 0 <= i < self@.len() && (#[trigger] self@[i]).0 == id
    }

    /// The entity stored under `id`; meaningful only when the key is there.
    pub open spec fn spec_get(&self, id: EntityID) -> Entity {
        self@[choose|i: int| 0 <= i < self@.len() && (#[trigger] self@[i]).0 == id].1
    }

    pub fn new() -> (r: EntityMap)
        ensures
            r@ == Seq::<(EntityID, Entity)>::empty(),
            r.wf(),
    {
        EntityMap { entries: Vec::new() }
    }

    pub fn len(&self) -> (r: usize)
        ensures
            r == self@.len(),
    {
        self.entries.len()
    }

    pub fn entry_at(&self, i: usize) -> (r: &(EntityID, Entity))
        requires
            i < self@.len(),
        ensures
            *r == self@[i as int],
    {
        &self.entries[i]
    }

    pub fn contains_key(&self, id: &EntityID) -> (r: bool)
        ensures
            r == self.spec_contains_key(*id),
    {
        let n = self.entries.len();
        let mut i: usize = 0;
        while i < n
            invariant
                n == self@.len(),
                i <= n,
                forall|k: int| 0 <= k < i ==> (#[trigger] self@[k]).0 != *id,
            decreases n - i,
        {
            if self.entries[i].0.0 == id.0 {
                proof {
                    assert(self@[i as int].0 == *id);
                }
                return true;
            }
            i = i + 1;
        }
        false
    }

    pub fn get(&self, id: &EntityID) -> (r: Option<&Entity>)
        requires
            self.wf(),
        ensures
            match r {
                Some(e) => self.spec_contains_key(*id) && *e == self.spec_get(*id),
                None => !self.spec_contains_key(*id),
            },
    {
        let n = self.entries.len();
        let mut i: usize = 0;
        while i < n
            invariant
                self.wf(),
                n == self@.len(),
                i <= n,
                forall|k: int| 0 <= k < i ==> (#[trigger] self@[k]).0 != *id,
            decreases n - i,
        {
            if self.entries[i].0.0 == id.0 {
                proof {
                    assert(self@[i as int].0 == *id);
                    let w = choose|k: int| 0 <= k < self@.len() && (#[trigger] self@[k]).0 == *id;
                    assert(w == i as int);
                }
                return Some(&self.entries[i].1);
            }
            i = i + 1;
        }
        None
    }

    /// The index of the entry holding `id`, if any.
    fn index_of(&self, id: &EntityID) -> (r: Option<usize>)
        ensures
            match r {
                Some(k) => 0 <= k < self@.len() && self@[k as int].0 == *id,
                None => forall|k: int| 0 <= k < self@.len() ==> (#[trigger] self@[k]).0 != *id,
            },
    {
        let n = self.entries.len();
        let mut i: usize = 0;
        while i < n
            invariant
                n == self@.len(),
                i <= n,
                forall|k: int| 0 <= k < i ==> (#[trigger] self@[k]).0 != *id,
            decreases n - i,
        {
            if self.entries[i].0.0 == id.0 {
                return Some(i);
            }
            i = i + 1;
        }
        None
    }

    /// Stores `e` under `id`, replacing the entry if the key is present and
    /// appending it otherwise.
    pub fn insert(&mut self, id: EntityID, e: Entity)
        requires
            old(self).wf(),
        ensures
            final(self).wf(),
            old(self).spec_contains_key(id) ==> {
                &&& final(self)@.len() == old(self)@.len()
                &&& forall|k: int|
                    0 <= k < old(self)@.len() ==> (#[trigger] final(self)@[k]) == (
                    if old(self)@[k].0 == id {
                        (id, e)
                    } else {
                        old(self)@[k]
                    })
            },
            !old(self).spec_contains_key(id) ==> final(self)@ == old(self)@.push((id, e)),
    {
        match self.index_of(&id) {
            Some(k) => {
                self.entries[k] = (id, e);
                proof {
                    let news = self@;
                    let olds = old(self)@;
                    assert(olds[k as int].0 == id);
                    assert(forall|a: int|
                        0 <= a < olds.len() && a != k ==> (#[trigger] olds[a]).0 != id);
                    assert(forall|a: int|
                        0 <= a < olds.len() ==> (#[trigger] news[a]) == (
                        if olds[a].0 == id {
                            (id, e)
                        } else {
                            olds[a]
                        }));
                }
            },
            None => {
                let ghost olds = self@;
                self.entries.push((id, e));
                proof {
                    assert(self@ =~= olds.push((id, e)));
                }
            },
        }
    }

    /// Moves the entity stored under `id` to `p`; a no-op when the key is
    /// absent.
    pub fn set_position(&mut self, id: EntityID, p: Point)
        requires
            old(self).wf(),
        ensures
            final(self).wf(),
            !old(self).spec_contains_key(id) ==> *final(self) == *old(self),
            old(self).spec_contains_key(id) ==> {
                &&& final(self)@.len() == old(self)@.len()
                &&& forall|k: int|
                    0 <= k < old(self)@.len() ==> (#[trigger] final(self)@[k]) == (
                    if old(self)@[k].0 == id {
                        (
                            id,
                            Entity {
                                position: p,
                                name: old(self)@[k].1.name,
                                entity_type: old(self)@[k].1.entity_type,
                            },
                        )
                    } else {
                        old(self)@[k]
                    })
            },
    {
        match self.index_of(&id) {
            Some(k) => {
                self.entries[k].1.position = p;
                proof {
                    let news = self@;
                    let olds = old(self)@;
                    assert(olds[k as int].0 == id);
                    assert(forall|a: int|
                        0 <= a < olds.len() && a != k ==> (#[trigger] olds[a]).0 != id);
                    assert(forall|a: int|
                        0 <= a < olds.len() && a != k ==> (#[trigger] news[a]) == olds[a]);
                    assert(news[k as int] == (
                        id,
                        Entity {
                            position: p,
                            name: olds[k as int].1.name,
                            entity_type: olds[k as int].1.entity_type,
                        },
                    ));
                }
            },
            None => {},
        }
    }

    /// The entry at `i` is what `spec_get` returns for its key.
    pub proof fn lemma_get_at(m: Self, i: int)
        requires
            m.wf(),
            0 <= i < m@.len(),
        ensures
            m.spec_contains_key(m@[i].0),
            m.spec_get(m@[i].0) == m@[i].1,
    {
        assert(0 <= i < m@.len() && m@[i].0 == m@[i].0);
        let w = choose|k: int| 0 <= k < m@.len() && (#[trigger] m@[k]).0 == m@[i].0;
        assert(0 <= w < m@.len() && m@[w].0 == m@[i].0);
        if w < i {
            assert(m@[w].0 != m@[i].0);
        } else if w > i {
            assert(m@[i].0 != m@[w].0);
        }
    }
}


impl Default for EntityMap {
    fn default() -> (r: EntityMap)
        ensures
            r@ == Seq::<(EntityID, Entity)>::empty(),
            r.wf(),
    {
        EntityMap::new()
    }
}

} // verus!
