//! The tick driver: accumulates elapsed wall time and runs whole simulation
//! steps — movement, then collision, then store maintenance — at a fixed
//! cadence, independent of how often the host calls it.
//!
//! This is a drop-accumulator: after a stall it runs several catch-up steps
//! of the ordinary magnitude rather than one oversized step, and keeps the
//! remainder below one step accumulated for the next call.

use vstd::arithmetic::div_mod::{lemma_fundamental_div_mod, lemma_fundamental_div_mod_converse};
use vstd::prelude::*;

use crate::collision::{collision_reports, collision_step};
use crate::components::{Direction, MOVE_STEP};
use crate::movement::{move_spec, movement_join, movement_step, step_safe};
use crate::world::{maintain_spec, EntityId, World, WorldView};

verus! {

/// One whole simulation step's effect on the store: movement with the given
/// input, then maintenance. (Collision runs between the two but mutates
/// nothing.)
pub open spec fn step_world(w: WorldView, d: Direction) -> WorldView {
    maintain_spec(move_spec(w, d))
}

/// The store after `k` whole simulation steps under a constant input.
pub open spec fn world_after(w: WorldView, d: Direction, k: nat) -> WorldView
    decreases k,
{
    if k == 0 {
        w
    } else {
        step_world(world_after(w, d, (k - 1) as nat), d)
    }
}

/// How many whole steps an accumulator of `acc`, grown by `elapsed`, funds
/// at a fixed step length.
pub open spec fn steps_due(acc: u64, elapsed: u64, step_len: u64) -> nat {
    ((acc + elapsed) / (step_len as int)) as nat
}

/// One whole step keeps every touched coordinate far enough from the `i64`
/// limits for the steps still to come.
pub proof fn lemma_step_keeps_safety(w: WorldView, d: Direction, n: nat)
    requires
        w.wf(),
        n >= 1,
        step_safe(w, n),
    ensures
        step_safe(w, 1),
        step_safe(step_world(w, d), (n - 1) as nat),
{
    assert forall|e: int| #[trigger] movement_join(w, e) implies {
        let p = w.positions[e]->Some_0;
        &&& i64::MIN + (MOVE_STEP as int) * 1 <= p.x <= i64::MAX - (MOVE_STEP as int) * 1
        &&& i64::MIN + (MOVE_STEP as int) * 1 <= p.y <= i64::MAX - (MOVE_STEP as int) * 1
    } by {
        assert((MOVE_STEP as int) * 1 <= (MOVE_STEP as int) * n) by (nonlinear_arith)
            requires
                n >= 1,
        ;
    }
    let m = step_world(w, d);
    assert forall|e: int| #[trigger] movement_join(m, e) implies {
        let p = m.positions[e]->Some_0;
        &&& i64::MIN + (MOVE_STEP as int) * ((n - 1) as nat) <= p.x <= i64::MAX - (
        MOVE_STEP as int) * ((n - 1) as nat)
        &&& i64::MIN + (MOVE_STEP as int) * ((n - 1) as nat) <= p.y <= i64::MAX - (
        MOVE_STEP as int) * ((n - 1) as nat)
    } by {
        let mv = move_spec(w, d);
        assert(!mv.pending[e]);
        assert(movement_join(w, e));
        assert(m.positions[e]->Some_0 == move_spec(w, d).positions[e]->Some_0);
        assert((MOVE_STEP as int) * ((n - 1) as nat) == (MOVE_STEP as int) * n - (
        MOVE_STEP as int)) by (nonlinear_arith)
            requires
                n >= 1,
        ;
    }
}

/// The tick driver's state: the fixed step length and the accumulated time
/// not yet spent, both in the host's time unit.
pub struct TickDriver {
    /// Length of one simulation step, in the host's time unit; positive.
    pub step_len: u64,
    /// Accumulated time not yet spent on steps.
    pub acc: u64,
}

impl TickDriver {
    /// A driver is usable only with a positive step length.
    pub open spec fn wf(self) -> bool {
        self.step_len > 0
    }

    /// A fresh driver with nothing accumulated.
    pub fn new(step_len: u64) -> (t: TickDriver)
        requires
            step_len > 0,
        ensures
            t.wf(),
            t.step_len == step_len,
            t.acc == 0,
    {
        TickDriver { step_len, acc: 0 }
    }

    /// Adds `elapsed` to the accumulator, then runs one whole simulation
    /// step — movement with the given input, collision, maintenance — for
    /// every full step length accumulated, and keeps the remainder. Returns
    /// one report list per step run, in order: the collision reports as
    /// they stood right after that step's movement.
    pub fn advance(&mut self, w: &mut World, d: &Direction, elapsed: u64) -> (reports: Vec<
        Vec<(EntityId, EntityId)>,
    >)
        requires
            old(self).wf(),
            old(self).acc + elapsed <= u64::MAX,
            old(w)@.wf(),
            step_safe(old(w)@, steps_due(old(self).acc, elapsed, old(self).step_len)),
        ensures
            final(self).wf(),
            final(self).step_len == old(self).step_len,
            final(self).acc == (old(self).acc + elapsed) as int % (old(self).step_len as int),
            final(self).acc < old(self).step_len,
            final(w)@.wf(),
            reports@.len() == steps_due(old(self).acc, elapsed, old(self).step_len),
            forall|k: int|
                0 <= k < reports@.len() ==> (#[trigger] reports@[k])@ == collision_reports(
                    move_spec(world_after(old(w)@, *d, k as nat), *d),
                ),
            final(w)@ == world_after(old(w)@, *d, steps_due(
                old(self).acc,
                elapsed,
                old(self).step_len,
            )),
    {
        let ghost w0 = w@;
        let step = self.step_len;
        let mut acc: u64 = self.acc + elapsed;
        let ghost total = acc as int;
        let ghost nd = steps_due(old(self).acc, elapsed, old(self).step_len);
        let ghost rem0 = total % (step as int);
        proof {
            lemma_fundamental_div_mod(total, step as int);
        }
        let mut reports: Vec<Vec<(EntityId, EntityId)>> = Vec::new();
        while acc >= step
            invariant
                step == old(self).step_len,
                step > 0,
                total == (step as int) * (nd as int) + rem0,
                0 <= rem0 < step,
                total == (step as int) * (reports@.len() as int) + acc,
                reports@.len() <= nd,
                w0.wf(),
                w@.wf(),
                w@ == world_after(w0, *d, reports@.len() as nat),
                step_safe(w@, (nd - reports@.len()) as nat),
                forall|k: int|
                    0 <= k < reports@.len() ==> (#[trigger] reports@[k])@ == collision_reports(
                        move_spec(world_after(w0, *d, k as nat), *d),
                    ),
            decreases acc,
        {
            proof {
                assert(reports@.len() < nd) by (nonlinear_arith)
                    requires
                        total == (step as int) * (reports@.len() as int) + acc,
                        total == (step as int) * (nd as int) + rem0,
                        0 <= rem0 < step,
                        acc >= step,
                        step > 0,
                        reports@.len() <= nd,
                ;
                lemma_step_keeps_safety(w@, *d, (nd - reports@.len()) as nat);
            }
            let ghost k_before = reports@.len() as nat;
            movement_step(w, d);
            let r = collision_step(w);
            w.maintain();
            reports.push(r);
            acc = acc - step;
            proof {
                assert(w@ == step_world(world_after(w0, *d, k_before), *d));
                assert(w@ == world_after(w0, *d, (k_before + 1) as nat));
                assert(reports@.len() == k_before + 1);
                assert((step as int) * ((k_before + 1) as int) == (step as int) * (
                k_before as int) + (step as int)) by (nonlinear_arith);
            }
        }
        self.acc = acc;
        proof {
            lemma_fundamental_div_mod_converse(
                total,
                step as int,
                reports@.len() as int,
                acc as int,
            );
        }
        reports
    }
}

} // verus!

