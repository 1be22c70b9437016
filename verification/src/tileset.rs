//! A small set of tile coordinates backed by a vector without duplicates.
//!
//! The view of a `TileSet` is the sequence of coordinates in insertion order;
//! `insert` is a no-op on a coordinate that is already present, so the view
//! never holds a coordinate twice and membership can be read as set
//! membership.

use vstd::prelude::*;

verus! {

/// Appends `p` to `s` unless it is already there.
pub open spec fn seq_push_new(s: Seq<(int, int)>, p: (int, int)) -> Seq<(int, int)> {
    if s.contains(p) {
        s
    } else {
        s.push(p)
    }
}

#[derive(Debug, Clone, PartialEq)]
pub struct TileSet {
    items: Vec<(i32, i32)>,
}

impl View for TileSet {
    type V = Seq<(int, int)>;

    closed spec fn view(&self) -> Seq<(int, int)> {
        self.items@.map_values(|p: (i32, i32)| (p.0 as int, p.1 as int))
    }
}

impl TileSet {
    /// The coordinates as a mathematical set.
    pub open spec fn set(&self) -> Set<(int, int)> {
        self@.to_set()
    }

    pub fn new() -> (r: TileSet)
        ensures
            r@ == Seq::<(int, int)>::empty(),
    {
        let r = TileSet { items: Vec::new() };
        proof {
            assert(r@ =~= Seq::<(int, int)>::empty());
        }
        r
    }

    pub fn len(&self) -> (r: usize)
        ensures
            r == self@.len(),
    {
        self.items.len()
    }

    pub fn index(&self, i: usize) -> (r: (i32, i32))
        requires
            i < self@.len(),
        ensures
            (r.0 as int, r.1 as int) == self@[i as int],
    {
        self.items[i]
    }

    pub fn contains(&self, p: (i32, i32)) -> (r: bool)
        ensures
            r == self@.contains((p.0 as int, p.1 as int)),
    {
        let pv = (p.0, p.1);
        let n = self.items.len();
        let mut i: usize = 0;
        while i < n
            invariant
                n == self@.len(),
                i <= n,
                forall|k: int| 0 <= k < i ==> self@[k] != (p.0 as int, p.1 as int),
            decreases n - i,
        {
            let q = self.items[i];
            if q.0 == p.0 && q.1 == p.1 {
                proof {
                    assert(self@[i as int] == (p.0 as int, p.1 as int));
                }
                return true;
            }
            i = i + 1;
        }
        false
    }

    pub fn insert(&mut self, p: (i32, i32))
        ensures
            final(self)@ == seq_push_new(old(self)@, (p.0 as int, p.1 as int)),
    {
        if !self.contains(p) {
            let ghost before = self@;
            self.items.push(p);
            proof {
                assert(self@ =~= before.push((p.0 as int, p.1 as int)));
            }
        }
    }
}


impl Default for TileSet {
    fn default() -> (r: TileSet)
        ensures
            r@ == Seq::<(int, int)>::empty(),
    {
        TileSet::new()
    }
}

} // verus!
