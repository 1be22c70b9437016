//! Tile visibility, the per-player visibility grid, and the awareness
//! derivation.
//!
//! A player's grid remembers, per tile, one of three states: never seen,
//! seen before, or currently in the field of view. `update` consumes a
//! freshly computed visible set: every tile of the set becomes `Visible`,
//! every previously `Visible` tile not in the set becomes `Remembered`, and
//! nothing ever falls back to `Unexplored`.

use vstd::prelude::*;

use crate::ecs::{Entity, EntityID, EntityMap, Point, spec_blocks_sight};
use crate::shadowcast::{MAX_FOV_ORIGIN, MAX_FOV_RADIUS, compute_fov, spec_compute_fov};
use crate::tileset::TileSet;

verus! {

broadcast use vstd::seq_lib::lemma_seq_contains_after_push;

/// Default field-of-view radius in tiles.
pub const DEFAULT_FOV_RADIUS: i32 = 12;

/// Extra margin (in tiles) beyond the FOV radius used when filtering
/// entities for network transmission. Avoids visual popping at FOV edges.
pub const FOV_NETWORK_MARGIN: i32 = 2;

/// Three-state visibility of a single tile from one player's perspective.
#[derive(Debug, Clone, Copy, PartialEq, Eq, Structural)]
pub enum TileVisibility {
    /// Never been seen by this player.
    Unexplored,
    /// Previously visible but currently outside the field of view.
    Remembered,
    /// Currently within the player's field of view.
    Visible,
}

impl Default for TileVisibility {
    fn default() -> (r: Self)
        ensures
            r == TileVisibility::Unexplored,
    {
        TileVisibility::Unexplored
    }
}

/// Per-player persistent visibility state: a sparse map from tile coordinate
/// to [`TileVisibility`], absent tiles reading as `Unexplored`.
#[derive(Debug, Clone)]
pub struct VisibilityGrid {
    tiles: Vec<((i32, i32), TileVisibility)>,
}

impl VisibilityGrid {
    /// Keys are pairwise distinct.
    pub closed spec fn wf(&self) -> bool {
        forall|i: int, j: int|
            0 <= i < j < self.tiles@.len() ==> (#[trigger] self.tiles@[i]).0 != (
            #[trigger] self.tiles@[j]).0
    }

    /// The state of tile `p`, `Unexplored` when absent.
    pub closed spec fn spec_get(&self, p: (int, int)) -> TileVisibility {
        if exists|i: int|
            0 <= i < self.tiles@.len() && ((#[trigger] self.tiles@[i]).0.0 as int, self.tiles@[i].0.1 as int)
                == p {
            self.tiles@[choose|i: int|
                0 <= i < self.tiles@.len() && ((#[trigger] self.tiles@[i]).0.0 as int,
                self.tiles@[i].0.1 as int) == p].1
        } else {
            TileVisibility::Unexplored
        }
    }

    pub fn new() -> (r: VisibilityGrid)
        ensures
            r.wf(),
            forall|p: (int, int)| r.spec_get(p) == TileVisibility::Unexplored,
    {
        VisibilityGrid { tiles: Vec::new() }
    }

    /// Returns the visibility state of the given tile.
    pub fn get(&self, pos: Point) -> (r: TileVisibility)
        requires
            self.wf(),
        ensures
            r == self.spec_get((pos.x as int, pos.y as int)),
    {
        let n = self.tiles.len();
        let mut i: usize = 0;
        while i < n
            invariant
                self.wf(),
                n == self.tiles@.len(),
                i <= n,
                forall|k: int|
                    0 <= k < i ==> ((#[trigger] self.tiles@[k]).0.0 as int, self.tiles@[k].0.1 as int)
                        != (pos.x as int, pos.y as int),
            decreases n - i,
        {
            let entry = self.tiles[i];
            if entry.0.0 == pos.x && entry.0.1 == pos.y {
                proof {
                    let p = (pos.x as int, pos.y as int);
                    assert((self.tiles@[i as int].0.0 as int, self.tiles@[i as int].0.1 as int) == p);
                    let w = choose|k: int|
                        0 <= k < self.tiles@.len() && ((#[trigger] self.tiles@[k]).0.0 as int,
                        self.tiles@[k].0.1 as int) == p;
                    if w < i as int {
                        assert(self.tiles@[w].0 != self.tiles@[i as int].0);
                    } else if w > i as int {
                        assert(self.tiles@[i as int].0 != self.tiles@[w].0);
                    }
                }
                return entry.1;
            }
            i = i + 1;
        }
        TileVisibility::Unexplored
    }

    /// Sets tile `p` to `v`, inserting an entry if none is there.
    fn set_tile(&mut self, p: (i32, i32), v: TileVisibility)
        requires
            old(self).wf(),
        ensures
            final(self).wf(),
            final(self).spec_get((p.0 as int, p.1 as int)) == v,
            forall|q: (int, int)|
                q != (p.0 as int, p.1 as int) ==> #[trigger] final(self).spec_get(q) == old(
                    self,
                ).spec_get(q),
    {
        let ghost pv = (p.0 as int, p.1 as int);
        let n = self.tiles.len();
        let mut i: usize = 0;
        while i < n
            invariant
                self == old(self),
                old(self).wf(),
                pv == (p.0 as int, p.1 as int),
                n == self.tiles@.len(),
                i <= n,
                forall|k: int|
                    0 <= k < i ==> ((#[trigger] self.tiles@[k]).0.0 as int, self.tiles@[k].0.1 as int)
                        != (p.0 as int, p.1 as int),
            decreases n - i,
        {
            let entry = self.tiles[i];
            if entry.0.0 == p.0 && entry.0.1 == p.1 {
                self.tiles[i] = (entry.0, v);
                proof {
                    let olds = old(self).tiles@;
                    let news = self.tiles@;
                    assert(news[i as int].0 == olds[i as int].0);
                    assert(forall|k: int|
                        0 <= k < olds.len() && k != i ==> #[trigger] news[k] == olds[k]);
                    assert(self.wf());
                    assert((olds[i as int].0.0 as int, olds[i as int].0.1 as int) == pv);
                    lemma_grid_get_at(*self, i as int);
                    assert forall|q: (int, int)| q != pv implies #[trigger] self.spec_get(q)
                        == old(self).spec_get(q) by {
                        assert(forall|k: int|
                            0 <= k < olds.len() && ((#[trigger] olds[k]).0.0 as int,
                            olds[k].0.1 as int) == q ==> k != i);
                        assert(forall|k: int|
                            0 <= k < olds.len() && ((#[trigger] olds[k]).0.0 as int,
                            olds[k].0.1 as int) == q ==> news[k].1 == olds[k].1);
                        lemma_grid_get_other(*old(self), *self, q);
                    }
                }
                return ;
            }
            i = i + 1;
        }
        let ghost olds = self.tiles@;
        self.tiles.push((p, v));
        proof {
            assert(forall|k: int| 0 <= k < olds.len() ==> #[trigger] self.tiles@[k] == olds[k]);
            assert(self.tiles@[olds.len() as int] == ((p.0, p.1), v));
            assert forall|a: int, b: int|
                0 <= a < b < self.tiles@.len() implies (#[trigger] self.tiles@[a]).0 != (
            #[trigger] self.tiles@[b]).0 by {
                if b < olds.len() {
                } else {
                    assert((self.tiles@[a].0.0 as int, self.tiles@[a].0.1 as int) != pv);
                }
            }
            lemma_grid_get_at(*self, olds.len() as int);
            assert forall|q: (int, int)| q != pv implies #[trigger] self.spec_get(q) == old(
                self,
            ).spec_get(q) by {
                if exists|k: int|
                    0 <= k < olds.len() && ((#[trigger] olds[k]).0.0 as int, olds[k].0.1 as int)
                        == q {
                    let k = choose|k: int|
                        0 <= k < olds.len() && ((#[trigger] olds[k]).0.0 as int,
                        olds[k].0.1 as int) == q;
                    lemma_grid_get_at(*old(self), k);
                    lemma_grid_get_at(*self, k);
                } else {
                    assert(forall|k: int|
                        0 <= k < self.tiles@.len() ==> ((#[trigger] self.tiles@[k]).0.0 as int,
                        self.tiles@[k].0.1 as int) != q);
                }
            }
        }
    }

    /// Update the grid after a new field-of-view computation.
    ///
    /// Tiles in `fov_set` become `Visible`; tiles previously `Visible` but no
    /// longer in the set become `Remembered`; everything else stays as it
    /// was. In particular no tile ever returns to `Unexplored`.
    pub fn update(&mut self, fov_set: &TileSet)
        requires
            old(self).wf(),
        ensures
            final(self).wf(),
            forall|q: (int, int)|
                #[trigger] final(self).spec_get(q) == (if fov_set@.contains(q) {
                    TileVisibility::Visible
                } else if old(self).spec_get(q) == TileVisibility::Visible {
                    TileVisibility::Remembered
                } else {
                    old(self).spec_get(q)
                }),
            forall|q: (int, int)|
                old(self).spec_get(q) != TileVisibility::Unexplored ==> #[trigger] final(self).spec_get(
                    q,
                ) != TileVisibility::Unexplored,
    {
        // Demote previously visible tiles; only values change, never keys.
        let n = self.tiles.len();
        let mut i: usize = 0;
        while i < n
            invariant
                old(self).wf(),
                self.wf(),
                n == self.tiles@.len(),
                self.tiles@.len() == old(self).tiles@.len(),
                i <= n,
                forall|k: int|
                    0 <= k < self.tiles@.len() ==> (#[trigger] self.tiles@[k]).0 == old(
                        self,
                    ).tiles@[k].0,
                forall|k: int|
                    0 <= k < i ==> (#[trigger] self.tiles@[k]).1 == demote(old(self).tiles@[k].1),
                forall|k: int| i <= k < n ==> #[trigger] self.tiles@[k] == old(self).tiles@[k],
            decreases n - i,
        {
            let entry = self.tiles[i];
            if matches!(entry.1, TileVisibility::Visible) {
                self.tiles[i] = (entry.0, TileVisibility::Remembered);
            }
            i = i + 1;
        }
        proof {
            assert forall|q: (int, int)| #[trigger] self.spec_get(q) == demote(
                old(self).spec_get(q),
            ) by {
                lemma_grid_get_demote(*old(self), *self, q);
            }
        }
        let ghost mid = *self;
        // Promote tiles that are currently in the field of view.
        let m = fov_set.len();
        let mut t: usize = 0;
        while t < m
            invariant
                mid.wf(),
                self.wf(),
                m == fov_set@.len(),
                t <= m,
                forall|q: (int, int)|
                    #[trigger] self.spec_get(q) == (if exists|u: int|
                        0 <= u < t && fov_set@[u] == q {
                        TileVisibility::Visible
                    } else {
                        mid.spec_get(q)
                    }),
            decreases m - t,
        {
            let p = fov_set.index(t);
            self.set_tile(p, TileVisibility::Visible);
            proof {
                assert(fov_set@[t as int] == (p.0 as int, p.1 as int));
                assert forall|q: (int, int)| #[trigger] self.spec_get(q) == (if exists|u: int|
                    0 <= u < t + 1 && fov_set@[u] == q {
                    TileVisibility::Visible
                } else {
                    mid.spec_get(q)
                }) by {
                    if q == (p.0 as int, p.1 as int) {
                        assert(fov_set@[t as int] == q);
                    }
                }
            }
            t = t + 1;
        }
        proof {
            assert forall|q: (int, int)| #[trigger] self.spec_get(q) == (if fov_set@.contains(
                q,
            ) {
                TileVisibility::Visible
            } else if old(self).spec_get(q) == TileVisibility::Visible {
                TileVisibility::Remembered
            } else {
                old(self).spec_get(q)
            }) by {
                if fov_set@.contains(q) {
                    let u = choose|u: int| 0 <= u < fov_set@.len() && fov_set@[u] == q;
                    assert(0 <= u < m && fov_set@[u] == q);
                }
            }
        }
    }
}

/// One demotion step: `Visible` becomes `Remembered`, the rest stays.
pub open spec fn demote(v: TileVisibility) -> TileVisibility {
    if v == TileVisibility::Visible {
        TileVisibility::Remembered
    } else {
        v
    }
}

/// The entry at index `i` is what `spec_get` returns for its key.
proof fn lemma_grid_get_at(g: VisibilityGrid, i: int)
    requires
        g.wf(),
        0 <= i < g.tiles@.len(),
    ensures
        g.spec_get((g.tiles@[i].0.0 as int, g.tiles@[i].0.1 as int)) == g.tiles@[i].1,
{
    let p = (g.tiles@[i].0.0 as int, g.tiles@[i].0.1 as int);
    assert(0 <= i < g.tiles@.len() && ((g.tiles@[i]).0.0 as int, g.tiles@[i].0.1 as int)
        == p);
    let w = choose|k: int|
        0 <= k < g.tiles@.len() && ((#[trigger] g.tiles@[k]).0.0 as int,
        g.tiles@[k].0.1 as int) == p;
    if w < i {
        assert(g.tiles@[w].0 != g.tiles@[i].0);
    } else if w > i {
        assert(g.tiles@[i].0 != g.tiles@[w].0);
    }
}

/// Two grids with the same keys agree on every key that neither maps
/// differently.
proof fn lemma_grid_get_other(g1: VisibilityGrid, g2: VisibilityGrid, q: (int, int))
    requires
        g1.wf(),
        g2.wf(),
        g1.tiles@.len() == g2.tiles@.len(),
        forall|k: int|
            0 <= k < g1.tiles@.len() ==> (#[trigger] g2.tiles@[k]).0 == g1.tiles@[k].0,
        forall|k: int|
            0 <= k < g1.tiles@.len() && ((#[trigger] g1.tiles@[k]).0.0 as int,
            g1.tiles@[k].0.1 as int) == q ==> g2.tiles@[k].1 == g1.tiles@[k].1,
    ensures
        g2.spec_get(q) == g1.spec_get(q),
{
    if exists|i: int|
        0 <= i < g1.tiles@.len() && ((#[trigger] g1.tiles@[i]).0.0 as int,
        g1.tiles@[i].0.1 as int) == q {
        let i = choose|i: int|
            0 <= i < g1.tiles@.len() && ((#[trigger] g1.tiles@[i]).0.0 as int,
            g1.tiles@[i].0.1 as int) == q;
        lemma_grid_get_at(g1, i);
        lemma_grid_get_at(g2, i);
    } else {
        assert(forall|i: int|
            0 <= i < g2.tiles@.len() ==> ((#[trigger] g2.tiles@[i]).0.0 as int,
            g2.tiles@[i].0.1 as int) != q);
    }
}

/// After the demote pass the grid reads as the demotion of the old grid.
proof fn lemma_grid_get_demote(g1: VisibilityGrid, g2: VisibilityGrid, q: (int, int))
    requires
        g1.wf(),
        g2.wf(),
        g1.tiles@.len() == g2.tiles@.len(),
        forall|k: int|
            0 <= k < g1.tiles@.len() ==> (#[trigger] g2.tiles@[k]).0 == g1.tiles@[k].0,
        forall|k: int|
            0 <= k < g1.tiles@.len() ==> (#[trigger] g2.tiles@[k]).1 == demote(
                g1.tiles@[k].1,
            ),
    ensures
        g2.spec_get(q) == demote(g1.spec_get(q)),
{
    if exists|i: int|
        0 <= i < g1.tiles@.len() && ((#[trigger] g1.tiles@[i]).0.0 as int,
        g1.tiles@[i].0.1 as int) == q {
        let i = choose|i: int|
            0 <= i < g1.tiles@.len() && ((#[trigger] g1.tiles@[i]).0.0 as int,
            g1.tiles@[i].0.1 as int) == q;
        lemma_grid_get_at(g1, i);
        lemma_grid_get_at(g2, i);
    } else {
        assert(forall|i: int|
            0 <= i < g2.tiles@.len() ==> ((#[trigger] g2.tiles@[i]).0.0 as int,
            g2.tiles@[i].0.1 as int) != q);
    }
}


impl Default for VisibilityGrid {
    fn default() -> (r: Self)
        ensures
            r.wf(),
            forall|p: (int, int)| r.spec_get(p) == TileVisibility::Unexplored,
    {
        VisibilityGrid::new()
    }
}

// ---------------------------------------------------------------------------
// Awareness
// ---------------------------------------------------------------------------

/// Describes how a player became aware of an entity.
#[derive(Debug, Clone, Copy, PartialEq, Eq, Structural)]
pub enum AwarenessSource {
    /// Full visual awareness from the field of view.
    Sight,
    /// Reserved for auditory awareness; not produced yet.
    Sound,
}

/// An entity the player is aware of, along with how they learned about it.
#[derive(Debug, Clone, PartialEq, Eq, Structural)]
pub struct AwareEntity {
    pub entity_id: EntityID,
    pub position: Point,
    pub source: AwarenessSource,
}

pub open spec fn spec_abs(x: int) -> int {
    if x < 0 {
        -x
    } else {
        x
    }
}

/// Whether an entity is perceived: its tile is in the visible set, or it lies
/// in the square window of half-width `DEFAULT_FOV_RADIUS + margin` around
/// the player. The window is measured from the default radius, not the
/// player's own, matching the established behaviour.
pub open spec fn spec_qualifies(fov: Seq<(int, int)>, margin: int, pp: (int, int), ent: Entity) -> bool {
    let ex = ent.position.x as int;
    let ey = ent.position.y as int;
    ||| fov.contains((ex, ey))
    ||| (spec_abs(ex - pp.0) <= DEFAULT_FOV_RADIUS + margin && spec_abs(ey - pp.1)
        <= DEFAULT_FOV_RADIUS + margin)
}

/// The aware record produced for one map entry.
pub open spec fn spec_aware_of(entry: (EntityID, Entity)) -> AwareEntity {
    AwareEntity { entity_id: entry.0, position: entry.1.position, source: AwarenessSource::Sight }
}

/// The awareness list for the map entries in order.
pub open spec fn spec_aware(
    fov: Seq<(int, int)>,
    entries: Seq<(EntityID, Entity)>,
    margin: int,
    pp: (int, int),
) -> Seq<AwareEntity>
    decreases entries.len(),
{
    if entries.len() == 0 {
        Seq::empty()
    } else {
        let rest = spec_aware(fov, entries.drop_last(), margin, pp);
        if spec_qualifies(fov, margin, pp, entries.last().1) {
            rest.push(spec_aware_of(entries.last()))
        } else {
            rest
        }
    }
}

/// Build the awareness set for a single player.
///
/// Every entity whose tile is in `fov_set`, or which lies within the margin
/// window around `player_pos`, is reported, tagged `Sight`.
pub fn build_awareness(
    fov_set: &TileSet,
    entities: &EntityMap,
    margin: i32,
    player_pos: Point,
) -> (r: Vec<AwareEntity>)
    ensures
        r@ == spec_aware(
            fov_set@,
            entities@,
            margin as int,
            (player_pos.x as int, player_pos.y as int),
        ),
{
    let ghost pp = (player_pos.x as int, player_pos.y as int);
    let mut aware: Vec<AwareEntity> = Vec::new();
    let n = entities.len();
    let mut i: usize = 0;
    while i < n
        invariant
            pp == (player_pos.x as int, player_pos.y as int),
            n == entities@.len(),
            i <= n,
            aware@ == spec_aware(fov_set@, entities@.take(i as int), margin as int, pp),
        decreases n - i,
    {
        let entry = entities.entry_at(i);
        let ex: i64 = entry.1.position.x as i64;
        let ey: i64 = entry.1.position.y as i64;
        let px: i64 = player_pos.x as i64;
        let py: i64 = player_pos.y as i64;
        let dx: i64 = if ex >= px {
            ex - px
        } else {
            px - ex
        };
        let dy: i64 = if ey >= py {
            ey - py
        } else {
            py - ey
        };
        let in_fov = fov_set.contains((entry.1.position.x, entry.1.position.y));
        let window: i64 = (DEFAULT_FOV_RADIUS as i64) + (margin as i64);
        let in_margin = dx <= window && dy <= window;
        proof {
            assert(entities@.take(i as int + 1).drop_last() =~= entities@.take(i as int));
            assert(entities@.take(i as int + 1).last() == entities@[i as int]);
            assert((in_fov || in_margin) == spec_qualifies(
                fov_set@,
                margin as int,
                pp,
                entities@[i as int].1,
            ));
        }
        if in_fov || in_margin {
            aware.push(AwareEntity {
                entity_id: entry.0,
                position: entry.1.position,
                source: AwarenessSource::Sight,
            });
        }
        i = i + 1;
    }
    proof {
        assert(entities@.take(n as int) =~= entities@);
    }
    aware
}

/// Everything `spec_aware` reports is tagged `Sight`, an entity on a visible
/// tile is always reported, and an entity outside both the visible set and
/// the margin window is not: perception depends only on membership, never on
/// the order of the entries.
pub proof fn lemma_awareness_inclusion(
    fov: Seq<(int, int)>,
    entries: Seq<(EntityID, Entity)>,
    margin: int,
    pp: (int, int),
    k: int,
)
    requires
        0 <= k < entries.len(),
        forall|a: int, b: int|
            0 <= a < b < entries.len() ==> (#[trigger] entries[a]).0 != (#[trigger] entries[b]).0,
    ensures
        spec_qualifies(fov, margin, pp, entries[k].1) <==> spec_aware(
            fov,
            entries,
            margin,
            pp,
        ).contains(spec_aware_of(entries[k])),
        forall|m: int|
            0 <= m < spec_aware(fov, entries, margin, pp).len() ==> (#[trigger] spec_aware(
                fov,
                entries,
                margin,
                pp,
            )[m]).source == AwarenessSource::Sight,
    decreases entries.len(),
{
    lemma_aware_sight_and_members(fov, entries, margin, pp);
    let aware = spec_aware(fov, entries, margin, pp);
    if k == entries.len() - 1 {
        if !spec_qualifies(fov, margin, pp, entries[k].1) {
            // a record for this entry would need another entry with the same
            // identity, and keys are unique
            if aware.contains(spec_aware_of(entries[k])) {
                let rest = spec_aware(fov, entries.drop_last(), margin, pp);
                assert(rest.contains(spec_aware_of(entries[k])));
                lemma_aware_sight_and_members(fov, entries.drop_last(), margin, pp);
                let m = choose|m: int| 0 <= m < rest.len() && rest[m] == spec_aware_of(entries[k]);
                assert(0 <= m < rest.len() && rest[m] == spec_aware_of(entries[k]));
                let j = choose|j: int|
                    0 <= j < entries.drop_last().len() && (#[trigger] rest[m]).entity_id == (
                    #[trigger] entries.drop_last()[j]).0 && rest[m] == spec_aware_of(
                        entries.drop_last()[j],
                    );
                assert(entries.drop_last()[j] == entries[j]);
                assert(entries[j].0 == entries[k].0);
                assert(false);
            }
        }
    } else {
        lemma_awareness_inclusion(fov, entries.drop_last(), margin, pp, k);
        assert(entries.drop_last()[k] == entries[k]);
        if !spec_qualifies(fov, margin, pp, entries[k].1) {
            if aware.contains(spec_aware_of(entries[k])) {
                let rest = spec_aware(fov, entries.drop_last(), margin, pp);
                if spec_qualifies(fov, margin, pp, entries.last().1) {
                    assert(aware == rest.push(spec_aware_of(entries.last())));
                    if spec_aware_of(entries.last()) == spec_aware_of(entries[k]) {
                        assert(entries[entries.len() - 1].0 == entries[k].0);
                        assert(false);
                    }
                    assert(rest.contains(spec_aware_of(entries[k])));
                }
                assert(false);
            }
        }
    }
}

/// Every record of `spec_aware` is tagged `Sight` and stems from some entry.
proof fn lemma_aware_sight_and_members(
    fov: Seq<(int, int)>,
    entries: Seq<(EntityID, Entity)>,
    margin: int,
    pp: (int, int),
)
    ensures
        forall|m: int|
            0 <= m < spec_aware(fov, entries, margin, pp).len() ==> (#[trigger] spec_aware(
                fov,
                entries,
                margin,
                pp,
            )[m]).source == AwarenessSource::Sight,
        forall|m: int|
            0 <= m < spec_aware(fov, entries, margin, pp).len() ==> exists|j: int|
                0 <= j < entries.len() && (#[trigger] spec_aware(fov, entries, margin, pp)[m]).entity_id
                    == (#[trigger] entries[j]).0 && spec_aware(fov, entries, margin, pp)[m]
                    == spec_aware_of(entries[j]),
    decreases entries.len(),
{
    if entries.len() > 0 {
        lemma_aware_sight_and_members(fov, entries.drop_last(), margin, pp);
        assert(forall|j: int|
            0 <= j < entries.drop_last().len() ==> #[trigger] entries.drop_last()[j] == entries[j]);
    }
}

// ---------------------------------------------------------------------------
// From entities to a field of view
// ---------------------------------------------------------------------------

/// The tiles blocked by sight-blocking entities.
pub open spec fn opaque_set(entries: Seq<(EntityID, Entity)>) -> Set<(int, int)> {
    Set::new(
        |p: (int, int)|
            exists|i: int|
                0 <= i < entries.len() && spec_blocks_sight((#[trigger] entries[i]).1.entity_type)
                    && ((entries[i].1.position.x as int, entries[i].1.position.y as int) == p),
    )
}

/// Collect positions of all entities that block line of sight.
pub fn opaque_positions(entities: &EntityMap) -> (r: TileSet)
    ensures
        forall|p: (int, int)| #[trigger] r@.contains(p) <==> opaque_set(entities@).contains(p),
        r.set() == opaque_set(entities@),
{
    let mut acc = TileSet::new();
    let n = entities.len();
    let mut i: usize = 0;
    while i < n
        invariant
            n == entities@.len(),
            i <= n,
            forall|p: (int, int)| #[trigger] acc@.contains(p) <==> exists|k: int|
                0 <= k < i && spec_blocks_sight((#[trigger] entities@[k]).1.entity_type) && ((
                entities@[k].1.position.x as int,
                entities@[k].1.position.y as int,
            ) == p),
        decreases n - i,
    {
        let entry = entities.entry_at(i);
        if entry.1.entity_type.blocks_sight() {
            acc.insert((entry.1.position.x, entry.1.position.y));
        }
        proof {
            assert forall|p: (int, int)| #[trigger] acc@.contains(p) implies exists|k: int|
                0 <= k < i + 1 && spec_blocks_sight((#[trigger] entities@[k]).1.entity_type) && ((
                entities@[k].1.position.x as int,
                entities@[k].1.position.y as int,
            ) == p) by {
                if spec_blocks_sight(entities@[i as int].1.entity_type) && ((
                entities@[i as int].1.position.x as int,
                entities@[i as int].1.position.y as int,
                ) == p) {
                    assert(0 <= (i as int) && (i as int) < i + 1);
                }
            }
        }
        i = i + 1;
    }
    proof {
        assert(acc.set() =~= opaque_set(entities@));
    }
    acc
}

/// Compute the field of view for a player at `origin`, deriving the opaque
/// tiles from the entity snapshot.
pub fn compute_fov_from_entities(origin: Point, radius: i32, entities: &EntityMap) -> (r: TileSet)
    requires
        0 <= radius <= MAX_FOV_RADIUS,
        -MAX_FOV_ORIGIN <= origin.x <= MAX_FOV_ORIGIN,
        -MAX_FOV_ORIGIN <= origin.y <= MAX_FOV_ORIGIN,
    ensures
        r@ == spec_compute_fov(
            (origin.x as int, origin.y as int),
            radius as int,
            opaque_set(entities@),
        ),
        r@.contains((origin.x as int, origin.y as int)),
{
    let opaque = opaque_positions(entities);
    compute_fov(origin, radius, &opaque)
}

// ---------------------------------------------------------------------------
// Per-player field-of-view state
// ---------------------------------------------------------------------------

/// Per-player field-of-view state that persists across ticks.
#[derive(Debug, Clone)]
pub struct PlayerFov {
    pub visibility: VisibilityGrid,
    pub current_fov: TileSet,
    pub fov_radius: i32,
}

impl PlayerFov {
    pub fn new(radius: i32) -> (r: Self)
        ensures
            r.visibility.wf(),
            forall|p: (int, int)| r.visibility.spec_get(p) == TileVisibility::Unexplored,
            r.current_fov@ == Seq::<(int, int)>::empty(),
            r.fov_radius == radius,
    {
        PlayerFov { visibility: VisibilityGrid::new(), current_fov: TileSet::new(), fov_radius: radius }
    }

    /// Recompute the field of view from `origin` and update the visibility
    /// grid: the new visible set replaces the old one wholesale.
    pub fn recompute(&mut self, origin: Point, entities: &EntityMap)
        requires
            old(self).visibility.wf(),
            0 <= old(self).fov_radius <= MAX_FOV_RADIUS,
            -MAX_FOV_ORIGIN <= origin.x <= MAX_FOV_ORIGIN,
            -MAX_FOV_ORIGIN <= origin.y <= MAX_FOV_ORIGIN,
        ensures
            final(self).fov_radius == old(self).fov_radius,
            final(self).current_fov@ == spec_compute_fov(
                (origin.x as int, origin.y as int),
                old(self).fov_radius as int,
                opaque_set(entities@),
            ),
            final(self).visibility.wf(),
            forall|q: (int, int)|
                #[trigger] final(self).visibility.spec_get(q) == (if final(self).current_fov@.contains(
                    q,
                ) {
                    TileVisibility::Visible
                } else if old(self).visibility.spec_get(q) == TileVisibility::Visible {
                    TileVisibility::Remembered
                } else {
                    old(self).visibility.spec_get(q)
                }),
    {
        self.current_fov = compute_fov_from_entities(origin, self.fov_radius, entities);
        self.visibility.update(&self.current_fov);
    }
}


impl Default for PlayerFov {
    fn default() -> (r: Self)
        ensures
            r.visibility.wf(),
            forall|p: (int, int)| r.visibility.spec_get(p) == TileVisibility::Unexplored,
            r.current_fov@ == Seq::<(int, int)>::empty(),
            r.fov_radius == 0,
    {
        PlayerFov::new(0)
    }
}

} // verus!
