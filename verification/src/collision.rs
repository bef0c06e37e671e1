//! The collision step: a pure query over the store. Every collision box of
//! a player-controlled entity is tested against every box of a live entity
//! that is not player-controlled, and each overlapping pair is reported.
//!
//! The overlap test is the standard axis-aligned interval test with strict
//! inequalities: boxes whose edges exactly touch do not overlap. A sustained
//! overlap is reported again on every step while it persists; there is no
//! deduplication across steps.

use vstd::prelude::*;

use crate::components::{BoxV, CollisionBox};
use crate::world::{EntityId, World, WorldView};

verus! {

/// The axis-aligned overlap test, with half-open interval semantics:
/// exactly-touching edges do not count as overlap.
pub open spec fn overlaps(a: BoxV, b: BoxV) -> bool {
    &&& a.x < b.x + b.width
    &&& a.x + a.width > b.x
    &&& a.y < b.y + b.height
    &&& a.y + a.height > b.y
}

/// The controlled side of the collision join: a live entity with a box and
/// the player-control marker.
pub open spec fn controlled_join(w: WorldView, e: int) -> bool {
    &&& 0 <= e < w.len()
    &&& w.alive[e]
    &&& w.controllable[e]
    &&& w.boxes[e] is Some
}

/// The other side of the collision join: a live entity with a position and
/// a box but without the player-control marker.
pub open spec fn target_join(w: WorldView, e: int) -> bool {
    &&& 0 <= e < w.len()
    &&& w.alive[e]
    &&& !w.controllable[e]
    &&& w.positions[e] is Some
    &&& w.boxes[e] is Some
}

/// The reports of controlled entity `i` against targets in slots below `j`,
/// in slot order.
pub open spec fn row_upto(w: WorldView, i: int, j: int) -> Seq<(EntityId, EntityId)>
    decreases j,
{
    if j <= 0 {
        Seq::empty()
    } else {
        row_upto(w, i, j - 1) + if target_join(w, j - 1) && overlaps(
            w.boxes[i]->Some_0,
            w.boxes[j - 1]->Some_0,
        ) {
            seq![(i as usize, (j - 1) as usize)]
        } else {
            Seq::empty()
        }
    }
}

/// The reports of every controlled entity in slots below `i`, each against
/// all targets, in slot order.
pub open spec fn reports_upto(w: WorldView, i: int) -> Seq<(EntityId, EntityId)>
    decreases i,
{
    if i <= 0 {
        Seq::empty()
    } else {
        reports_upto(w, i - 1) + if controlled_join(w, i - 1) {
            row_upto(w, i - 1, w.len() as int)
        } else {
            Seq::empty()
        }
    }
}

/// Every (controlled, other) pair whose boxes overlap, ordered by the
/// controlled slot and then by the other slot.
pub open spec fn collision_reports(w: WorldView) -> Seq<(EntityId, EntityId)> {
    reports_upto(w, w.len() as int)
}

/// The overlap test on stored boxes, widened so that no coordinate sum can
/// leave the machine range.
pub fn boxes_overlap(a: &CollisionBox, b: &CollisionBox) -> (r: bool)
    ensures
        r == overlaps(a@, b@),
{
    (a.origin_x as i128) < (b.origin_x as i128) + (b.width as i128) && (a.origin_x as i128) + (
    a.width as i128) > (b.origin_x as i128) && (a.origin_y as i128) < (b.origin_y as i128) + (
    b.height as i128) && (a.origin_y as i128) + (a.height as i128) > (b.origin_y as i128)
}

/// Runs one collision step: reads the store, mutates nothing, and returns
/// every overlapping (controlled, other) pair in slot order. Running it
/// twice with no movement in between returns the same reports twice.
pub fn collision_step(w: &World) -> (reports: Vec<(EntityId, EntityId)>)
    requires
        w@.wf(),
    ensures
        reports@ == collision_reports(w@),
{
    let n = w.alive.len();
    let mut reports: Vec<(EntityId, EntityId)> = Vec::new();
    let mut i: usize = 0;
    while i < n
        invariant
            i <= n,
            n == w@.len(),
            w@.wf(),
            reports@ == reports_upto(w@, i as int),
        decreases n - i,
    {
        proof {
            assert(w@.boxes[i as int] == (match w.boxes@[i as int] {
                Some(c) => Some(c@),
                None => None,
            }));
        }
        if w.alive[i] && w.controllable[i] && w.boxes[i].is_some() {
            let player_box = w.boxes[i].unwrap();
            let mut j: usize = 0;
            while j < n
                invariant
                    j <= n,
                    i < n,
                    n == w@.len(),
                    w@.wf(),
                    controlled_join(w@, i as int),
                    player_box@ == w@.boxes[i as int]->Some_0,
                    reports@ == reports_upto(w@, i as int) + row_upto(w@, i as int, j as int),
                decreases n - j,
            {
                proof {
                    assert(w@.boxes[j as int] == (match w.boxes@[j as int] {
                        Some(c) => Some(c@),
                        None => None,
                    }));
                    assert(w@.positions[j as int] == (match w.positions@[j as int] {
                        Some(q) => Some(q@),
                        None => None,
                    }));
                }
                if w.alive[j] && !w.controllable[j] && w.positions[j].is_some()
                    && w.boxes[j].is_some() {
                    let other_box = w.boxes[j].unwrap();
                    if boxes_overlap(&player_box, &other_box) {
                        reports.push((i, j));
                    }
                }
                j = j + 1;
                proof {
                    assert(reports@ =~= reports_upto(w@, i as int) + row_upto(
                        w@,
                        i as int,
                        j as int,
                    ));
                }
            }
        }
        i = i + 1;
        proof {
            assert(reports@ =~= reports_upto(w@, i as int));
        }
    }
    reports
}

/// Collision detection is idempotent: it mutates nothing, and any two runs
/// over the same store yield the very same report sequence.
pub proof fn lemma_collision_idempotent(
    w: WorldView,
    r1: Seq<(EntityId, EntityId)>,
    r2: Seq<(EntityId, EntityId)>,
)
    requires
        r1 == collision_reports(w),
        r2 == collision_reports(w),
    ensures
        r1 == r2,
{
}

/// The overlap relation is symmetric: whether two boxes overlap does not
/// depend on which of them is tested against the other.
pub proof fn lemma_overlap_symmetric(a: BoxV, b: BoxV)
    ensures
        overlaps(a, b) == overlaps(b, a),
{
}

/// Boxes whose edges exactly touch, on either axis and on either side, do
/// not overlap: the interval test is strict.
pub proof fn lemma_touching_edges_do_not_overlap(a: BoxV, b: BoxV)
    requires
        a.x + a.width == b.x || b.x + b.width == a.x || a.y + a.height == b.y || b.y + b.height
            == a.y,
    ensures
        !overlaps(a, b),
{
}

} // verus!
