//! The shared state of a batch of concurrent runs.
//!
//! A batch fans one task out per concrete run. The only state the tasks
//! share is modelled here: the permit pool that bounds how many runs do
//! work at once, and the append-only aggregator that collects each run's
//! failure without aborting its siblings. The host program drives both
//! from its task loop under mutual exclusion.

use vstd::prelude::*;

verus! {

/// An error of one run, recorded by the batch without cancelling the
/// run's siblings.
#[derive(Debug)]
pub struct RunError {
    pub message: String,
}

/// The instrumented counter of a counting semaphore: how many runs hold a
/// permit, and the capacity if one was configured. The invariant is the
/// concurrency bound itself: the holders never exceed the capacity.
pub struct PermitPool {
    bound: Option<usize>,
    held: usize,
}

impl PermitPool {
    /// The configured capacity; `None` leaves concurrency unbounded.
    pub closed spec fn bound(self) -> Option<usize> {
        self.bound
    }

    /// How many runs hold a permit now.
    pub closed spec fn held(self) -> nat {
        self.held as nat
    }

    /// The concurrency bound: with a capacity of `k`, at most `k` runs
    /// hold a permit at any point. Established by `new` and preserved by
    /// every operation.
    pub closed spec fn wf(self) -> bool {
        self.bound matches Some(k) ==> self.held <= k
    }

    /// A fresh pool with the given capacity and no permit held.
    pub fn new(bound: Option<usize>) -> (r: PermitPool)
        ensures
            r.wf(),
            r.bound() == bound,
            r.held() == 0,
    {
        PermitPool { bound, held: 0 }
    }

    /// Takes one permit if the capacity allows another holder, and says
    /// whether it did. With no capacity configured it always succeeds.
    pub fn try_acquire(&mut self) -> (got: bool)
        requires
            old(self).wf(),
            old(self).held() < usize::MAX,
        ensures
            final(self).wf(),
            final(self).bound() == old(self).bound(),
            got == (old(self).bound() matches Some(k) ==> old(self).held() < k),
            got ==> final(self).held() == old(self).held() + 1,
            !got ==> final(self).held() == old(self).held(),
    {
        match self.bound {
            Some(k) => {
                if self.held < k {
                    self.held = self.held + 1;
                    true
                } else {
                    false
                }
            },
            None => {
                self.held = self.held + 1;
                true
            },
        }
    }

    /// Gives one permit back. Release is unconditional in the batch: a run
    /// returns its permit whether it succeeded or failed.
    pub fn release(&mut self)
        requires
            old(self).wf(),
            old(self).held() >= 1,
        ensures
            final(self).wf(),
            final(self).bound() == old(self).bound(),
            final(self).held() == old(self).held() - 1,
    {
        self.held = self.held - 1;
    }
}

/// Law of the concurrency bound: every pool state the operations can
/// reach is well formed, and in a well-formed state with a configured
/// capacity no more runs hold a permit than that capacity.
pub proof fn lemma_concurrency_bound(pool: PermitPool)
    requires
        pool.wf(),
    ensures
        pool.bound() matches Some(k) ==> pool.held() <= k,
{
}

/// How many of the recorded outcomes were failures.
pub open spec fn failures(s: Seq<bool>) -> nat
    decreases s.len(),
{
    if s.len() == 0 {
        0
    } else {
        failures(s.drop_last()) + (
        if s.last() {
            1nat
        } else {
            0nat
        })
    }
}

/// The batch-wide error aggregate. Every run's outcome is recorded,
/// failures append their error, and nothing is ever dropped: the batch
/// reports only after all runs have been recorded.
pub struct BatchAggregator {
    errors: Vec<RunError>,
    attempted: usize,
    outcomes: Ghost<Seq<bool>>,
}

impl BatchAggregator {
    /// The outcomes recorded so far, in order; `true` marks a failure.
    pub closed spec fn outcomes(self) -> Seq<bool> {
        self.outcomes@
    }

    /// How many runs have been recorded.
    pub closed spec fn attempted(self) -> nat {
        self.attempted as nat
    }

    /// The errors collected so far, in the order they were recorded.
    pub closed spec fn recorded_errors(self) -> Seq<RunError> {
        self.errors@
    }

    /// Every outcome is counted, and the error list holds exactly one
    /// entry per recorded failure. Established by `new` and preserved by
    /// every operation.
    pub closed spec fn wf(self) -> bool {
        &&& self.attempted == self.outcomes@.len()
        &&& self.errors@.len() == failures(self.outcomes@)
    }

    /// A fresh aggregator with nothing recorded.
    pub fn new() -> (r: BatchAggregator)
        ensures
            r.wf(),
            r.outcomes() =~= Seq::<bool>::empty(),
            r.attempted() == 0,
            r.recorded_errors() =~= Seq::<RunError>::empty(),
    {
        BatchAggregator { errors: Vec::new(), attempted: 0, outcomes: Ghost(Seq::empty()) }
    }

    /// Records one run's outcome. A failure appends its error; a success
    /// appends nothing; neither cancels any sibling.
    pub fn record(&mut self, outcome: Result<(), RunError>)
        requires
            old(self).wf(),
            old(self).attempted() < usize::MAX,
        ensures
            final(self).wf(),
            final(self).outcomes() == old(self).outcomes().push(outcome is Err),
            final(self).attempted() == old(self).attempted() + 1,
            outcome matches Err(e) ==> final(self).recorded_errors() == old(
                self,
            ).recorded_errors().push(e),
            outcome is Ok ==> final(self).recorded_errors() == old(self).recorded_errors(),
    {
        self.attempted = self.attempted + 1;
        let failed = match outcome {
            Ok(_) => false,
            Err(e) => {
                self.errors.push(e);
                true
            },
        };
        proof {
            let prior = self.outcomes@;
            self.outcomes@ = self.outcomes@.push(failed);
            assert(self.outcomes@.drop_last() =~= prior);
        }
    }

    /// The number of errors collected so far.
    pub fn error_count(&self) -> (n: usize)
        requires
            self.wf(),
        ensures
            n == failures(self.outcomes()),
    {
        self.errors.len()
    }

    /// The batch's verdict once every run has been recorded: success if
    /// no run failed, otherwise all collected errors together.
    pub fn into_result(self) -> (r: Result<(), Vec<RunError>>)
        requires
            self.wf(),
        ensures
            r is Ok <==> failures(self.outcomes()) == 0,
            r matches Err(es) ==> es@ == self.recorded_errors(),
    {
        if self.errors.len() == 0 {
            Ok(())
        } else {
            Err(self.errors)
        }
    }
}

/// Law of run-to-completion aggregation: after any sequence of recorded
/// outcomes, every run was counted and the error list holds exactly one
/// entry per failed run — `M` failures among `N` runs leave exactly `M`
/// collected errors.
pub proof fn lemma_run_to_completion(agg: BatchAggregator)
    requires
        agg.wf(),
    ensures
        agg.attempted() == agg.outcomes().len(),
        agg.recorded_errors().len() == failures(agg.outcomes()),
{
}

} // verus!
