//! Rolling burn-rate estimation for a monitored unit.
//!
//! A monitored unit's consumption reading is an unsigned counter that falls
//! as the unit spends its allotted resource. Each strict decrease is a
//! consumption event whose size joins the retained history; the average rate
//! is the exact mean over that history. A non-decrease (a refill, reset or
//! noise artifact) is not a consumption event and leaves the history and the
//! average untouched. The history is kept unbounded, as the retention policy
//! of this engine.

use vstd::prelude::*;
use crate::ratio::Ratio;
use crate::sums::{sum_of, lemma_sum_of_push, lemma_sum_of_bounds};

verus! {

/// Burn-rate state of one monitored unit.
pub struct BurnRateState {
    pub previous_reading: u64,
    pub delta_history: Vec<u64>,
    /// Running total of `delta_history`, kept so the mean needs no rescan.
    pub total_delta: u128,
}

/// The abstract state: the last reading seen and the consumption deltas
/// retained so far, in insertion order.
pub struct BurnRateModel {
    pub previous_reading: u64,
    pub deltas: Seq<u64>,
}

impl View for BurnRateState {
    type V = BurnRateModel;

    open spec fn view(&self) -> BurnRateModel {
        BurnRateModel { previous_reading: self.previous_reading, deltas: self.delta_history@ }
    }
}

impl BurnRateModel {
    /// The average rate as an exact value: the mean of the retained deltas,
    /// or zero while no consumption event has been seen.
    pub open spec fn mean(self) -> (int, int) {
        if self.deltas.len() == 0 {
            (0, 1)
        } else {
            (sum_of(self.deltas), self.deltas.len() as int)
        }
    }

    /// One update step. A first reading (`previous_reading == 0`) or a
    /// non-decrease only advances the reading; a strict decrease appends the
    /// difference to the history.
    pub open spec fn updated(self, current_reading: u64) -> BurnRateModel {
        if self.previous_reading == 0 || current_reading >= self.previous_reading {
            BurnRateModel { previous_reading: current_reading, deltas: self.deltas }
        } else {
            BurnRateModel {
                previous_reading: current_reading,
                deltas: self.deltas.push((self.previous_reading - current_reading) as u64),
            }
        }
    }
}

impl BurnRateState {
    pub open spec fn wf(self) -> bool {
        self.total_delta == sum_of(self.delta_history@)
    }

    /// A fresh estimator: no reading seen, empty history.
    pub fn new() -> (r: BurnRateState)
        ensures
            r.wf(),
            r@.previous_reading == 0,
            r@.deltas.len() == 0,
    {
        BurnRateState { previous_reading: 0, delta_history: Vec::new(), total_delta: 0 }
    }

    /// The current average rate, exact.
    pub fn average_rate(&self) -> (r: Ratio)
        requires
            self.wf(),
        ensures
            r.wf(),
            r.parts() == self@.mean(),
    {
        if self.delta_history.len() == 0 {
            Ratio::zero()
        } else {
            Ratio::new(self.total_delta, self.delta_history.len() as u128)
        }
    }

    /// Fold one reading into the estimator and return the resulting average
    /// rate. Always succeeds; a non-decrease leaves the history and the mean
    /// unchanged.
    pub fn update(&mut self, current_reading: u64) -> (avg: Ratio)
        requires
            old(self).wf(),
        ensures
            final(self).wf(),
            final(self)@ == old(self)@.updated(current_reading),
            avg.wf(),
            avg.parts() == final(self)@.mean(),
            old(self)@.previous_reading == 0 || current_reading >= old(self)@.previous_reading
                ==> final(self)@.mean() == old(self)@.mean(),
    {
        if self.previous_reading != 0 && current_reading < self.previous_reading {
            let delta = self.previous_reading - current_reading;
            let hist_len = self.delta_history.len();
            proof {
                lemma_sum_of_bounds(self.delta_history@);
                assert(hist_len * (u64::MAX as int) + (u64::MAX as int)
                    < u128::MAX) by (nonlinear_arith)
                    requires hist_len <= usize::MAX;
                lemma_sum_of_push(self.delta_history@, delta);
            }
            self.delta_history.push(delta);
            self.total_delta = self.total_delta + delta as u128;
        }
        self.previous_reading = current_reading;
        self.average_rate()
    }
}

/// The consumption deltas of a strictly decreasing run of readings that
/// starts below `first`: `first - rs[0], rs[0] - rs[1], ...`.
pub open spec fn deltas_of_run(first: u64, rs: Seq<u64>) -> Seq<u64> {
    Seq::new(rs.len(), |i: int| if i == 0 { (first - rs[0]) as u64 } else { (rs[i - 1] - rs[i]) as u64 })
}

/// The model after folding in a whole sequence of readings, first one first.
pub open spec fn model_after(m: BurnRateModel, rs: Seq<u64>) -> BurnRateModel
    decreases rs.len(),
{
    if rs.len() == 0 {
        m
    } else {
        model_after(m.updated(rs[0]), rs.drop_first())
    }
}

proof fn lemma_run_appends_deltas(m: BurnRateModel, rs: Seq<u64>)
    requires
        m.previous_reading != 0,
        rs.len() > 0 ==> rs[0] < m.previous_reading,
        forall|i: int| 0 <= i < rs.len() - 1 ==> rs[i + 1] < #[trigger] rs[i],
    ensures
        model_after(m, rs).deltas =~= m.deltas + deltas_of_run(m.previous_reading, rs),
        model_after(m, rs).previous_reading == if rs.len() == 0 { m.previous_reading } else { rs.last() },
    decreases rs.len(),
{
    if rs.len() == 0 {
        assert(m.deltas + deltas_of_run(m.previous_reading, rs) =~= m.deltas);
    } else {
        let m1 = m.updated(rs[0]);
        assert(m1.previous_reading == rs[0]);
        if rs[0] == 0 {
            // A reading of zero ends the run of consumption events: no later
            // reading can lie strictly below it, so the tail must be empty.
            assert(rs.len() >= 2 ==> rs[1] < rs[0]);
            assert(rs.len() == 1);
            assert(rs.drop_first().len() == 0);
            assert(model_after(m1, rs.drop_first()) == m1);
            assert(model_after(m, rs) == m1);
            assert(m1.deltas =~= m.deltas + deltas_of_run(m.previous_reading, rs));
        } else {
            lemma_run_appends_deltas(m1, rs.drop_first());
            assert(m1.deltas + deltas_of_run(rs[0], rs.drop_first())
                =~= m.deltas + deltas_of_run(m.previous_reading, rs));
        }
    }
}

/// Law of the estimator: fed a strictly decreasing sequence of readings
/// `r0 > r1 > ... > rn`, a fresh estimator retains exactly the deltas
/// `r0 - r1, r1 - r2, ..., r(n-1) - rn`, and its average rate is their mean.
pub proof fn lemma_average_of_decreasing_run(m: BurnRateModel, rs: Seq<u64>)
    requires
        m.previous_reading == 0,
        m.deltas.len() == 0,
        rs.len() >= 2,
        forall|i: int| 0 <= i < rs.len() - 1 ==> rs[i + 1] < #[trigger] rs[i],
    ensures
        model_after(m, rs).deltas =~= deltas_of_run(rs[0], rs.drop_first()),
        model_after(m, rs).mean() == (
            sum_of(deltas_of_run(rs[0], rs.drop_first())),
            rs.len() - 1 as int,
        ),
{
    let m1 = m.updated(rs[0]);
    assert(m1.previous_reading == rs[0]);
    assert(rs.drop_first()[0] == rs[1]);
    assert(rs[1] < rs[0]);
    lemma_run_appends_deltas(m1, rs.drop_first());
    assert(model_after(m, rs).deltas =~= deltas_of_run(rs[0], rs.drop_first()));
}

} // verus!
