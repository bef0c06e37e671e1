//! The entity store: one typed table per component kind, all keyed by the
//! same entity identifier (an index). An entity is alive from `spawn` until
//! a `despawn` is finalized by `maintain`; `spawn` reuses the lowest freed
//! slot before growing the tables.
//!
//! The store's mathematical image is a `WorldView`: one sequence per table,
//! all of the same length, over the components' integer images.

use vstd::prelude::*;

use crate::components::{BoxV, CollisionBox, PosV, Position};

verus! {

/// Identifies an entity: an index shared by every component table.
pub type EntityId = usize;

/// Mathematical image of a `World`: the component tables as sequences over
/// the components' integer images, indexed by entity identifier.
#[verifier::ext_equal]
pub ghost struct WorldView {
    pub positions: Seq<Option<PosV>>,
    pub boxes: Seq<Option<BoxV>>,
    pub images: Seq<Option<u64>>,
    pub controllable: Seq<bool>,
    pub alive: Seq<bool>,
    pub pending: Seq<bool>,
}

impl WorldView {
    /// Number of slots, live or freed.
    pub open spec fn len(self) -> nat {
        self.alive.len()
    }

    /// Well-formedness: the tables run in lockstep; a despawn can only be
    /// pending on a live entity; a freed slot carries nothing; every stored
    /// box has non-negative extent.
    pub open spec fn wf(self) -> bool {
        &&& self.positions.len() == self.len()
        &&& self.boxes.len() == self.len()
        &&& self.images.len() == self.len()
        &&& self.controllable.len() == self.len()
        &&& self.pending.len() == self.len()
        &&& forall|e: int|
            0 <= e < self.len() && #[trigger] self.pending[e] ==> self.alive[e]
        &&& forall|e: int|
            0 <= e < self.len() && !(#[trigger] self.alive[e]) ==> self.positions[e] is None
                && self.boxes[e] is None && self.images[e] is None && !self.controllable[e]
        &&& forall|e: int|
            0 <= e < self.len() && (#[trigger] self.boxes[e]) is Some ==> self.boxes[e]->Some_0.width
                >= 0 && self.boxes[e]->Some_0.height >= 0
    }
}

/// Every table agrees between `a` and `b` at slot `e`.
pub open spec fn slot_unchanged(a: WorldView, b: WorldView, e: int) -> bool {
    &&& a.positions[e] == b.positions[e]
    &&& a.boxes[e] == b.boxes[e]
    &&& a.images[e] == b.images[e]
    &&& a.controllable[e] == b.controllable[e]
    &&& a.alive[e] == b.alive[e]
    &&& a.pending[e] == b.pending[e]
}

/// The result of finalizing deferred despawns: every pending slot is freed
/// and cleared, every other slot is kept as it was.
pub open spec fn maintain_spec(w: WorldView) -> WorldView {
    WorldView {
        positions: Seq::new(w.len(), |e: int| if w.pending[e] { None } else { w.positions[e] }),
        boxes: Seq::new(w.len(), |e: int| if w.pending[e] { None } else { w.boxes[e] }),
        images: Seq::new(w.len(), |e: int| if w.pending[e] { None } else { w.images[e] }),
        controllable: Seq::new(
            w.len(),
            |e: int| if w.pending[e] { false } else { w.controllable[e] },
        ),
        alive: Seq::new(w.len(), |e: int| if w.pending[e] { false } else { w.alive[e] }),
        pending: Seq::new(w.len(), |e: int| false),
    }
}

/// The presentation query up to slot `i`: every (position, image handle)
/// pair of a live entity with both components, in slot order.
pub open spec fn render_upto(w: WorldView, i: int) -> Seq<(PosV, u64)>
    decreases i,
{
    if i <= 0 {
        Seq::empty()
    } else {
        render_upto(w, i - 1) + if w.alive[i - 1] && w.positions[i - 1] is Some && w.images[i
            - 1] is Some {
            seq![(w.positions[i - 1]->Some_0, w.images[i - 1]->Some_0)]
        } else {
            Seq::empty()
        }
    }
}

/// The full presentation query: one entry per live entity that has both a
/// position and an image handle, in slot order.
pub open spec fn render_seq(w: WorldView) -> Seq<(PosV, u64)> {
    render_upto(w, w.len() as int)
}

/// The entity store: typed component tables in lockstep, keyed by `EntityId`.
pub struct World {
    pub positions: Vec<Option<Position>>,
    pub boxes: Vec<Option<CollisionBox>>,
    pub images: Vec<Option<u64>>,
    pub controllable: Vec<bool>,
    pub alive: Vec<bool>,
    pub pending: Vec<bool>,
}

impl View for World {
    type V = WorldView;

    open spec fn view(&self) -> WorldView {
        WorldView {
            positions: self.positions@.map_values(
                |p: Option<Position>|
                    match p {
                        Some(q) => Some(q@),
                        None => None,
                    },
            ),
            boxes: self.boxes@.map_values(
                |b: Option<CollisionBox>|
                    match b {
                        Some(c) => Some(c@),
                        None => None,
                    },
            ),
            images: self.images@,
            controllable: self.controllable@,
            alive: self.alive@,
            pending: self.pending@,
        }
    }
}

impl World {
    /// An empty store: no entities, every table empty.
    pub fn new() -> (w: World)
        ensures
            w@.wf(),
            w@.len() == 0,
    {
        let w = World {
            positions: Vec::new(),
            boxes: Vec::new(),
            images: Vec::new(),
            controllable: Vec::new(),
            alive: Vec::new(),
            pending: Vec::new(),
        };
        proof {
            assert(w@.positions =~= Seq::<Option<PosV>>::empty());
            assert(w@.boxes =~= Seq::<Option<BoxV>>::empty());
        }
        w
    }

    /// Number of slots, live or freed.
    pub fn slot_count(&self) -> (n: usize)
        requires
            self@.wf(),
        ensures
            n == self@.len(),
    {
        self.alive.len()
    }

    /// Whether `id` names a live entity.
    pub fn is_alive(&self, id: EntityId) -> (r: bool)
        requires
            self@.wf(),
            id < self@.len(),
        ensures
            r == self@.alive[id as int],
    {
        self.alive[id]
    }

    /// Creates a live entity with no components, reusing the lowest freed
    /// slot if one exists and growing the tables by one slot otherwise.
    pub fn spawn(&mut self) -> (id: EntityId)
        requires
            old(self)@.wf(),
        ensures
            final(self)@.wf(),
            id < final(self)@.len(),
            id <= old(self)@.len(),
            old(self)@.len() <= final(self)@.len() <= old(self)@.len() + 1,
            id == old(self)@.len() ==> final(self)@.len() == old(self)@.len() + 1,
            id < old(self)@.len() ==> final(self)@.len() == old(self)@.len() && !old(self)@.alive[id as int],
            forall|e: int| 0 <= e < id ==> old(self)@.alive[e],
            final(self)@.alive[id as int],
            !final(self)@.pending[id as int],
            !final(self)@.controllable[id as int],
            final(self)@.positions[id as int] is None,
            final(self)@.boxes[id as int] is None,
            final(self)@.images[id as int] is None,
            forall|e: int|
                0 <= e < old(self)@.len() && e != id ==> #[trigger] slot_unchanged(
                    final(self)@,
                    old(self)@,
                    e,
                ),
    {
        let n = self.alive.len();
        let mut i: usize = 0;
        while i < n
            invariant
                i <= n,
                n == self@.len(),
                self@ == old(self)@,
                old(self)@.wf(),
                forall|e: int| 0 <= e < i ==> old(self)@.alive[e],
            decreases n - i,
        {
            if !self.alive[i] {
                self.alive.set(i, true);
                proof {
                    assert(self@.alive =~= old(self)@.alive.update(i as int, true));
                    assert(self@.positions =~= old(self)@.positions);
                    assert(self@.boxes =~= old(self)@.boxes);
                }
                return i;
            }
            i = i + 1;
        }
        self.positions.push(None);
        self.boxes.push(None);
        self.images.push(None);
        self.controllable.push(false);
        self.alive.push(true);
        self.pending.push(false);
        proof {
            assert(self@.positions =~= old(self)@.positions.push(None));
            assert(self@.boxes =~= old(self)@.boxes.push(None));
        }
        n
    }

    /// Attaches (or replaces) the position of a live entity.
    pub fn attach_position(&mut self, id: EntityId, p: Position)
        requires
            old(self)@.wf(),
            id < old(self)@.len(),
            old(self)@.alive[id as int],
        ensures
            final(self)@.wf(),
            final(self)@ == (WorldView {
                positions: old(self)@.positions.update(id as int, Some(p@)),
                ..old(self)@
            }),
    {
        self.positions.set(id, Some(p));
        proof {
            assert(self@.positions =~= old(self)@.positions.update(id as int, Some(p@)));
            assert(self@.boxes =~= old(self)@.boxes);
        }
    }

    /// Attaches (or replaces) the collision box of a live entity.
    pub fn attach_collision_box(&mut self, id: EntityId, b: CollisionBox)
        requires
            old(self)@.wf(),
            id < old(self)@.len(),
            old(self)@.alive[id as int],
            b.width >= 0,
            b.height >= 0,
        ensures
            final(self)@.wf(),
            final(self)@ == (WorldView {
                boxes: old(self)@.boxes.update(id as int, Some(b@)),
                ..old(self)@
            }),
    {
        self.boxes.set(id, Some(b));
        proof {
            assert(self@.boxes =~= old(self)@.boxes.update(id as int, Some(b@)));
            assert(self@.positions =~= old(self)@.positions);
        }
    }

    /// Attaches (or replaces) the image handle of a live entity. The same
    /// handle may be shared by any number of entities.
    pub fn attach_image(&mut self, id: EntityId, handle: u64)
        requires
            old(self)@.wf(),
            id < old(self)@.len(),
            old(self)@.alive[id as int],
        ensures
            final(self)@.wf(),
            final(self)@ == (WorldView {
                images: old(self)@.images.update(id as int, Some(handle)),
                ..old(self)@
            }),
    {
        self.images.set(id, Some(handle));
        proof {
            assert(self@.positions =~= old(self)@.positions);
            assert(self@.boxes =~= old(self)@.boxes);
        }
    }

    /// Marks a live entity as player-controlled. Presence of the marker is
    /// the whole meaning; there is no payload.
    pub fn attach_controllable(&mut self, id: EntityId)
        requires
            old(self)@.wf(),
            id < old(self)@.len(),
            old(self)@.alive[id as int],
        ensures
            final(self)@.wf(),
            final(self)@ == (WorldView {
                controllable: old(self)@.controllable.update(id as int, true),
                ..old(self)@
            }),
    {
        self.controllable.set(id, true);
        proof {
            assert(self@.positions =~= old(self)@.positions);
            assert(self@.boxes =~= old(self)@.boxes);
        }
    }

    /// The entity's position, if it has one.
    pub fn get_position(&self, id: EntityId) -> (r: Option<Position>)
        requires
            self@.wf(),
            id < self@.len(),
        ensures
            r is Some <==> self@.positions[id as int] is Some,
            r is Some ==> self@.positions[id as int]->Some_0 == r->Some_0@,
    {
        self.positions[id]
    }

    /// The entity's collision box, if it has one.
    pub fn get_collision_box(&self, id: EntityId) -> (r: Option<CollisionBox>)
        requires
            self@.wf(),
            id < self@.len(),
        ensures
            r is Some <==> self@.boxes[id as int] is Some,
            r is Some ==> self@.boxes[id as int]->Some_0 == r->Some_0@,
    {
        self.boxes[id]
    }

    /// The entity's image handle, if it has one.
    pub fn get_image(&self, id: EntityId) -> (r: Option<u64>)
        requires
            self@.wf(),
            id < self@.len(),
        ensures
            r == self@.images[id as int],
    {
        self.images[id]
    }

    /// Whether the entity carries the player-control marker.
    pub fn is_controllable(&self, id: EntityId) -> (r: bool)
        requires
            self@.wf(),
            id < self@.len(),
        ensures
            r == self@.controllable[id as int],
    {
        self.controllable[id]
    }

    /// Requests destruction of a live entity. The slot is freed, and its
    /// handle reclaimable, only once `maintain` runs.
    pub fn despawn(&mut self, id: EntityId)
        requires
            old(self)@.wf(),
            id < old(self)@.len(),
            old(self)@.alive[id as int],
        ensures
            final(self)@.wf(),
            final(self)@ == (WorldView {
                pending: old(self)@.pending.update(id as int, true),
                ..old(self)@
            }),
    {
        self.pending.set(id, true);
        proof {
            assert(self@.positions =~= old(self)@.positions);
            assert(self@.boxes =~= old(self)@.boxes);
        }
    }

    /// Finalizes every pending despawn: clears the slot's components and
    /// frees it for reuse by a later `spawn`. Run once per tick, after the
    /// movement and collision steps.
    pub fn maintain(&mut self)
        requires
            old(self)@.wf(),
        ensures
            final(self)@.wf(),
            final(self)@ == maintain_spec(old(self)@),
    {
        let ghost w0 = self@;
        let ghost p0 = self.positions@;
        let ghost b0 = self.boxes@;
        let ghost g0 = self.images@;
        let ghost c0 = self.controllable@;
        let ghost a0 = self.alive@;
        let ghost d0 = self.pending@;
        let n = self.alive.len();
        let mut i: usize = 0;
        while i < n
            invariant
                i <= n,
                n == w0.len(),
                w0.wf(),
                p0.len() == n,
                b0.len() == n,
                g0.len() == n,
                c0.len() == n,
                a0.len() == n,
                d0.len() == n,
                self.positions@ == Seq::new(
                    n as nat,
                    |e: int| if 0 <= e < i && d0[e] { None } else { p0[e] },
                ),
                self.boxes@ == Seq::new(
                    n as nat,
                    |e: int| if 0 <= e < i && d0[e] { None } else { b0[e] },
                ),
                self.images@ == Seq::new(
                    n as nat,
                    |e: int| if 0 <= e < i && d0[e] { None } else { g0[e] },
                ),
                self.controllable@ == Seq::new(
                    n as nat,
                    |e: int| if 0 <= e < i && d0[e] { false } else { c0[e] },
                ),
                self.alive@ == Seq::new(
                    n as nat,
                    |e: int| if 0 <= e < i && d0[e] { false } else { a0[e] },
                ),
                self.pending@ == Seq::new(
                    n as nat,
                    |e: int| if 0 <= e < i { false } else { d0[e] },
                ),
            decreases n - i,
        {
            if self.pending[i] {
                self.positions.set(i, None);
                self.boxes.set(i, None);
                self.images.set(i, None);
                self.controllable.set(i, false);
                self.alive.set(i, false);
            }
            self.pending.set(i, false);
            i = i + 1;
            proof {
                assert(self.positions@ =~= Seq::new(
                    n as nat,
                    |e: int| if 0 <= e < i && d0[e] { None } else { p0[e] },
                ));
                assert(self.boxes@ =~= Seq::new(
                    n as nat,
                    |e: int| if 0 <= e < i && d0[e] { None } else { b0[e] },
                ));
                assert(self.images@ =~= Seq::new(
                    n as nat,
                    |e: int| if 0 <= e < i && d0[e] { None } else { g0[e] },
                ));
                assert(self.controllable@ =~= Seq::new(
                    n as nat,
                    |e: int| if 0 <= e < i && d0[e] { false } else { c0[e] },
                ));
                assert(self.alive@ =~= Seq::new(
                    n as nat,
                    |e: int| if 0 <= e < i && d0[e] { false } else { a0[e] },
                ));
                assert(self.pending@ =~= Seq::new(
                    n as nat,
                    |e: int| if 0 <= e < i { false } else { d0[e] },
                ));
            }
        }
        proof {
            assert forall|e: int| 0 <= e < n implies self@.positions[e] == maintain_spec(
                w0,
            ).positions[e] by {
                assert(self@.positions[e] == (match self.positions@[e] {
                    Some(q) => Some(q@),
                    None => None,
                }));
                assert(w0.positions[e] == (match p0[e] {
                    Some(q) => Some(q@),
                    None => None,
                }));
            }
            assert forall|e: int| 0 <= e < n implies self@.boxes[e] == maintain_spec(
                w0,
            ).boxes[e] by {
                assert(self@.boxes[e] == (match self.boxes@[e] {
                    Some(c) => Some(c@),
                    None => None,
                }));
                assert(w0.boxes[e] == (match b0[e] {
                    Some(c) => Some(c@),
                    None => None,
                }));
            }
            assert(self@.positions =~= maintain_spec(w0).positions);
            assert(self@.boxes =~= maintain_spec(w0).boxes);
            assert(self@.images =~= maintain_spec(w0).images);
            assert(self@.controllable =~= maintain_spec(w0).controllable);
            assert(self@.alive =~= maintain_spec(w0).alive);
            assert(self@.pending =~= maintain_spec(w0).pending);
            assert(self@ =~= maintain_spec(w0));
        }
    }

    /// Enumerates, in slot order, the (position, image handle) pair of every
    /// live entity that carries both: what a renderer draws each frame.
    pub fn render_list(&self) -> (r: Vec<(Position, u64)>)
        requires
            self@.wf(),
        ensures
            r@.len() == render_seq(self@).len(),
            forall|k: int|
                0 <= k < r@.len() ==> (#[trigger] r@[k]).0@ == render_seq(self@)[k].0 && r@[k].1
                    == render_seq(self@)[k].1,
    {
        let n = self.alive.len();
        let mut r: Vec<(Position, u64)> = Vec::new();
        let mut i: usize = 0;
        while i < n
            invariant
                i <= n,
                n == self@.len(),
                self@.wf(),
                r@.len() == render_upto(self@, i as int).len(),
                forall|k: int|
                    0 <= k < r@.len() ==> (#[trigger] r@[k]).0@ == render_upto(self@, i as int)[k].0
                        && r@[k].1 == render_upto(self@, i as int)[k].1,
            decreases n - i,
        {
            proof {
                assert(self@.positions[i as int] == (match self.positions@[i as int] {
                    Some(q) => Some(q@),
                    None => None,
                }));
            }
            if self.alive[i] && self.positions[i].is_some() && self.images[i].is_some() {
                let p = self.positions[i].unwrap();
                let h = self.images[i].unwrap();
                r.push((p, h));
            }
            i = i + 1;
        }
        r
    }
}

} // verus!
