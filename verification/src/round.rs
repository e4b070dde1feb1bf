//! The round synchronizer: per-round collection of verified submissions,
//! quorum detection, at-most-once release of the aggregate, and the reset
//! for the next round.
//!
//! All mutation of the round record goes through the methods of
//! [`RoundSynchronizer`]; the caller serializes access to it (one lock
//! around the whole value), so each method is one critical section.

use crate::average::{calculate_average, spec_mean};
use vstd::prelude::*;

verus! {

/// Mathematical model of the synchronizer: the collected values, the count
/// of verified submissions, the published flag and the quorum threshold.
pub struct RoundView {
    pub values: Seq<i64>,
    pub count: nat,
    pub published: bool,
    pub quorum: nat,
}

impl RoundView {
    /// The record is well formed: each verified submission appended exactly
    /// one value, and the published flag is only raised once the quorum
    /// has been reached.
    pub open spec fn wf(self) -> bool {
        &&& self.count == self.values.len()
        &&& (self.published ==> self.count >= self.quorum)
    }

    /// The state a round starts from: nothing collected, nothing published.
    pub open spec fn empty_collecting(self) -> bool {
        &&& self.values.len() == 0
        &&& self.count == 0
        &&& !self.published
    }
}

/// Effect of one verified submission on the model: the value is appended,
/// the count incremented, and the published flag raised when the new count
/// reaches the quorum.
pub open spec fn step_submit(v: RoundView, x: i64) -> RoundView {
    RoundView {
        values: v.values.push(x),
        count: (v.count + 1) as nat,
        published: v.published || v.count + 1 >= v.quorum,
        quorum: v.quorum,
    }
}

/// Whether this submission is the one that detects quorum: it finds the
/// flag down and its own append reaches the threshold.
pub open spec fn submit_triggers(v: RoundView, x: i64) -> bool {
    !v.published && v.count + 1 >= v.quorum
}

/// The model after a sequence of verified submissions, first to last.
pub open spec fn run_submits(v: RoundView, xs: Seq<i64>) -> RoundView
    decreases xs.len(),
{
    if xs.len() == 0 {
        v
    } else {
        run_submits(step_submit(v, xs[0]), xs.skip(1))
    }
}

/// Per-round record: the values collected so far, the count of verified
/// submissions, and whether the round's quorum has been detected but the
/// result not yet taken.
pub struct RoundState {
    pub collected_values: Vec<i64>,
    pub verified_count: usize,
    pub published: bool,
}

/// The coordination core.  `quorum` is the configured number of
/// participating clients, fixed for the process lifetime.
pub struct RoundSynchronizer {
    pub state: RoundState,
    pub quorum: usize,
}

/// What a result request finds: either the round is still collecting (the
/// caller should wait for a quorum signal and ask again), or the round is
/// published and the aggregate — `None` when, pathologically, quorum was
/// reached with nothing collected — is handed out while the record resets.
pub enum TakeOutcome {
    NotReady,
    Published { values: Vec<i64>, mean: Option<i64> },
}

impl View for RoundSynchronizer {
    type V = RoundView;

    open spec fn view(&self) -> RoundView {
        RoundView {
            values: self.state.collected_values@,
            count: self.state.verified_count as nat,
            published: self.state.published,
            quorum: self.quorum as nat,
        }
    }
}

impl RoundSynchronizer {
    /// A synchronizer at process start: empty record, configured quorum.
    pub fn new(quorum: usize) -> (r: Self)
        ensures
            r@.empty_collecting(),
            r@.wf(),
            r@.quorum == quorum,
    {
        RoundSynchronizer {
            state: RoundState { collected_values: Vec::new(), verified_count: 0, published: false },
            quorum,
        }
    }

    /// Record one verified submission: append the value, bump the count,
    /// and detect quorum.  Returns whether this very call made the
    /// `Collecting -> QuorumReached` transition, so that the caller wakes
    /// any pending result request exactly once per round.
    pub fn submit(&mut self, value: i64) -> (triggered: bool)
        requires
            old(self)@.wf(),
        ensures
            final(self)@.wf(),
            final(self)@ == step_submit(old(self)@, value),
            triggered == submit_triggers(old(self)@, value),
    {
        self.state.collected_values.push(value);
        self.state.verified_count = self.state.collected_values.len();
        let triggered = !self.state.published && self.state.verified_count >= self.quorum;
        if triggered {
            self.state.published = true;
        }
        triggered
    }

    /// Serve a result request.  Before quorum this changes nothing and
    /// reports `NotReady`.  Once the round is published, the aggregate of
    /// exactly the collected values is computed and the whole record is
    /// reset to the empty collecting state in the same critical section,
    /// so no submission of the next round can be merged into this one.
    pub fn take_result(&mut self) -> (r: TakeOutcome)
        requires
            old(self)@.wf(),
        ensures
            final(self)@.wf(),
            final(self)@.quorum == old(self)@.quorum,
            !old(self)@.published ==> r == TakeOutcome::NotReady && final(self)@ == old(self)@,
            old(self)@.published ==> final(self)@.empty_collecting(),
            old(self)@.published ==> (r matches TakeOutcome::Published { values, mean }
                && values@ == old(self)@.values
                && (mean is Some <==> old(self)@.values.len() > 0)
                && (mean matches Some(m) ==> m == spec_mean(old(self)@.values))),
    {
        if !self.state.published {
            return TakeOutcome::NotReady;
        }
        let values = copy_values(&self.state.collected_values);
        let mean = calculate_average(&values);
        self.state.collected_values = Vec::new();
        self.state.verified_count = 0;
        self.state.published = false;
        TakeOutcome::Published { values, mean }
    }
}

/// A plain copy of the collected values, handed out when a round
/// publishes so the caller can persist them.
fn copy_values(v: &Vec<i64>) -> (r: Vec<i64>)
    ensures
        r@ == v@,
{
    let mut out: Vec<i64> = Vec::new();
    let mut i: usize = 0;
    while i < v.len()
        invariant
            0 <= i <= v@.len(),
            out@ == v@.take(i as int),
        decreases v@.len() - i,
    {
        out.push(v[i]);
        proof {
            assert(v@.take(i as int).push(v@[i as int]) =~= v@.take(i as int + 1));
        }
        i = i + 1;
    }
    proof {
        assert(v@.take(v@.len() as int) =~= v@);
    }
    out
}

/// Running a batch of submissions appends them all, adds their number to
/// the count, and raises the published flag exactly when some prefix of
/// the batch carried the count over the quorum.
pub proof fn lemma_run_submits(v: RoundView, xs: Seq<i64>)
    ensures
        run_submits(v, xs).values == v.values + xs,
        run_submits(v, xs).count == v.count + xs.len(),
        run_submits(v, xs).quorum == v.quorum,
        run_submits(v, xs).published
            == (v.published || (xs.len() >= 1 && v.count + xs.len() >= v.quorum)),
    decreases xs.len(),
{
    if xs.len() == 0 {
        assert(v.values + xs =~= v.values);
    } else {
        let v1 = step_submit(v, xs[0]);
        lemma_run_submits(v1, xs.skip(1));
        assert(v1.values + xs.skip(1) =~= v.values + xs);
    }
}

/// One quorum transition per round (with the round invariant along the
/// way): starting from the empty collecting state with quorum
/// `n == xs.len() >= 1`, after any `i` of the submissions the count equals
/// the number of collected values equals `i` and nothing is published yet;
/// exactly the last submission triggers the `Collecting -> QuorumReached`
/// transition; and the full batch ends published with precisely the values
/// `xs` collected — so the one result request that then completes observes
/// the mean of precisely those `n` values.
pub proof fn lemma_quorum_exactly_once(v0: RoundView, xs: Seq<i64>)
    requires
        v0.empty_collecting(),
        v0.wf(),
        v0.quorum == xs.len(),
        xs.len() >= 1,
    ensures
        forall|i: int|
            0 <= i < xs.len() ==> (#[trigger] run_submits(v0, xs.take(i))).count == i,
        forall|i: int|
            0 <= i < xs.len() ==> (#[trigger] run_submits(v0, xs.take(i))).values == xs.take(i),
        forall|i: int|
            0 <= i < xs.len() ==> !(#[trigger] run_submits(v0, xs.take(i))).published,
        forall|i: int|
            0 <= i < xs.len()
                ==> (submit_triggers(#[trigger] run_submits(v0, xs.take(i)), xs[i])
                    <==> i == xs.len() - 1),
        run_submits(v0, xs).published,
        run_submits(v0, xs).values == xs,
        run_submits(v0, xs).count == xs.len(),
{
    assert forall|i: int| 0 <= i < xs.len() implies {
        let vi = #[trigger] run_submits(v0, xs.take(i));
        &&& vi.count == i
        &&& vi.values == xs.take(i)
        &&& !vi.published
        &&& (submit_triggers(vi, xs[i]) <==> i == xs.len() - 1)
    } by {
        lemma_run_submits(v0, xs.take(i));
        assert(v0.values + xs.take(i) =~= xs.take(i));
    }
    lemma_run_submits(v0, xs);
    assert(v0.values + xs =~= xs);
}

} // verus!
