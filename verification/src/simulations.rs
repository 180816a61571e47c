//! Run kinds and the per-run agent lifecycle scheduler.

use crate::agents::{AgentBox, AgentError, Agents};
use vstd::prelude::*;

verus! {

/// The kinds of simulation a run can execute. Adding a run type means
/// adding a variant here and wiring its setup in the host program.
#[derive(Clone, Copy, Debug, PartialEq, Eq, Structural)]
pub enum SimulationType {
    /// A run that drives an exchange price along a simulated price path.
    SimulatedPricePath,
    /// A run that repeatedly increments a counter contract.
    Counter,
}

/// One phase call of the per-run lifecycle: which agent is invoked, and
/// with which capability.
#[derive(Clone, Copy, Debug, PartialEq, Eq, Structural)]
pub enum Phase {
    /// The one-time startup pass, before any tick.
    Startup,
    /// The first pass of a tick.
    PriorityStep,
    /// The second pass of a tick.
    Step,
}

/// One planned call: the phase and the index of the agent it goes to.
#[derive(Clone, Copy, Debug, PartialEq, Eq, Structural)]
pub struct Call {
    pub agent: usize,
    pub phase: Phase,
}

/// One full pass over `n` agents in collection order, all with the same
/// phase.
pub open spec fn pass(n: nat, phase: Phase) -> Seq<Call> {
    Seq::new(n, |i: int| Call { agent: i as usize, phase })
}

/// The calls of one tick: the complete priority pass, then the complete
/// step pass. The passes never interleave.
pub open spec fn tick_calls(n: nat) -> Seq<Call> {
    pass(n, Phase::PriorityStep) + pass(n, Phase::Step)
}

/// The complete lifecycle schedule of a run with `n` agents and `steps`
/// ticks: one startup pass, then `steps` ticks.
pub open spec fn lifecycle_schedule(n: nat, steps: nat) -> Seq<Call>
    decreases steps,
{
    if steps == 0 {
        pass(n, Phase::Startup)
    } else {
        lifecycle_schedule(n, (steps - 1) as nat) + tick_calls(n)
    }
}

/// The calls of tick `t` within the complete schedule: the slice of `2n`
/// calls that follows the startup pass and the `t` earlier ticks.
pub open spec fn tick_of(n: nat, steps: nat, t: int) -> Seq<Call> {
    lifecycle_schedule(n, steps).subrange(n + t * (2 * n), n + (t + 1) * (2 * n))
}

/// Law of the scheduling order: a run's lifecycle executes the startup
/// pass first, agents strictly in collection order, and then exactly
/// `steps` ticks; each tick is the complete priority pass followed by the
/// complete step pass, again in collection order, and the passes never
/// interleave.
pub proof fn lemma_lifecycle_order(n: nat, steps: nat)
    ensures
        lifecycle_schedule(n, steps).len() == n + steps * (2 * n),
        lifecycle_schedule(n, steps).take(n as int) =~= pass(n, Phase::Startup),
        forall|t: int| 0 <= t < steps ==> #[trigger] tick_of(n, steps, t) =~= tick_calls(n),
    decreases steps,
{
    if steps == 0 {
        assert(0 * (2 * n) == 0) by (nonlinear_arith);
        assert(lifecycle_schedule(n, 0).take(n as int) =~= pass(n, Phase::Startup));
    } else {
        let prev = (steps - 1) as nat;
        lemma_lifecycle_order(n, prev);
        let before = lifecycle_schedule(n, prev);
        let whole = lifecycle_schedule(n, steps);
        assert(prev * (2 * n) + 2 * n == steps * (2 * n)) by (nonlinear_arith)
            requires
                prev == steps - 1,
        ;
        assert(whole.len() == n + steps * (2 * n));
        assert(whole.take(n as int) =~= pass(n, Phase::Startup));
        assert forall|t: int| 0 <= t < steps implies #[trigger] tick_of(n, steps, t)
            =~= tick_calls(n) by {
            if t < prev {
                assert((t + 1) * (2 * n) <= prev * (2 * n)) by (nonlinear_arith)
                    requires
                        t + 1 <= prev,
                        n >= 0,
                ;
                assert(t * (2 * n) >= 0) by (nonlinear_arith)
                    requires
                        t >= 0,
                        n >= 0,
                ;
                let lo = n + t * (2 * n);
                let hi = n + (t + 1) * (2 * n);
                assert(hi - lo == 2 * n) by (nonlinear_arith)
                    requires
                        lo == n + t * (2 * n),
                        hi == n + (t + 1) * (2 * n),
                ;
                assert(hi <= before.len());
                assert forall|k: int| 0 <= k < hi - lo implies whole.subrange(lo, hi)[k]
                    == before.subrange(lo, hi)[k] by {
                    assert(whole.subrange(lo, hi)[k] == whole[lo + k]);
                    assert(before.subrange(lo, hi)[k] == before[lo + k]);
                    assert(whole[lo + k] == before[lo + k]);
                }
                assert(whole.subrange(lo, hi) =~= before.subrange(lo, hi));
                assert(tick_of(n, steps, t) =~= tick_of(n, prev, t));
            } else {
                assert(t == prev);
                assert(tick_of(n, steps, t) =~= tick_calls(n));
            }
        }
    }
}

/// The call at a startup-pass position of the schedule: the `i`-th
/// startup, addressed to agent `i`.
pub proof fn lemma_schedule_index_startup(n: nat, steps: nat, i: int)
    requires
        0 <= i < n,
    ensures
        lifecycle_schedule(n, steps)[i] == (Call { agent: i as usize, phase: Phase::Startup }),
{
    lemma_lifecycle_order(n, steps);
    assert(steps * (2 * n) >= 0) by (nonlinear_arith);
    assert(lifecycle_schedule(n, steps).take(n as int)[i] == lifecycle_schedule(n, steps)[i]);
    assert(pass(n, Phase::Startup)[i] == (Call { agent: i as usize, phase: Phase::Startup }));
}

/// The call at a priority-pass position of tick `t`: the `i`-th call of
/// the first pass, addressed to agent `i`.
pub proof fn lemma_schedule_index_priority(n: nat, steps: nat, t: int, i: int)
    requires
        0 <= t < steps,
        0 <= i < n,
    ensures
        lifecycle_schedule(n, steps)[n + t * (2 * n) + i] == (Call {
            agent: i as usize,
            phase: Phase::PriorityStep,
        }),
{
    lemma_lifecycle_order(n, steps);
    assert(0 <= t * (2 * n) && t * (2 * n) + 2 * n == (t + 1) * (2 * n) && (t + 1) * (2 * n)
        <= steps * (2 * n)) by (nonlinear_arith)
        requires
            0 <= t < steps,
            n >= 0,
    ;
    let sched = lifecycle_schedule(n, steps);
    let lo = n + t * (2 * n);
    assert(tick_of(n, steps, t) =~= tick_calls(n));
    assert(sched.subrange(lo, n + (t + 1) * (2 * n))[i] == sched[lo + i]);
    assert(tick_calls(n)[i] == (Call { agent: i as usize, phase: Phase::PriorityStep }));
}

/// The call at a step-pass position of tick `t`: the `i`-th call of the
/// second pass, addressed to agent `i`.
pub proof fn lemma_schedule_index_step(n: nat, steps: nat, t: int, i: int)
    requires
        0 <= t < steps,
        0 <= i < n,
    ensures
        lifecycle_schedule(n, steps)[n + t * (2 * n) + n + i] == (Call {
            agent: i as usize,
            phase: Phase::Step,
        }),
{
    lemma_lifecycle_order(n, steps);
    assert(0 <= t * (2 * n) && t * (2 * n) + 2 * n == (t + 1) * (2 * n) && (t + 1) * (2 * n)
        <= steps * (2 * n)) by (nonlinear_arith)
        requires
            0 <= t < steps,
            n >= 0,
    ;
    let sched = lifecycle_schedule(n, steps);
    let lo = n + t * (2 * n);
    assert(tick_of(n, steps, t) =~= tick_calls(n));
    assert(sched.subrange(lo, n + (t + 1) * (2 * n))[n + i] == sched[lo + n + i]);
    assert(tick_calls(n)[n + i] == (Call { agent: i as usize, phase: Phase::Step }));
}

/// Drives one run's agents through the full lifecycle: every agent's
/// `startup` in collection order, then `steps` ticks of a complete
/// `priority_step` pass followed by a complete `step` pass. An agent's
/// error aborts the run immediately and is handed back; nothing is
/// retried.
///
/// The returned ghost log records every phase call made, in order. The
/// contract ties the run to [`lifecycle_schedule`]: the log is always a
/// prefix of the schedule of the collection size and `steps` — so no call
/// is ever made out of order, and nothing runs after a failing call — and
/// on the success path it is the complete schedule.
#[verifier::loop_isolation(false)]
pub fn looper(agents: Agents, steps: usize) -> (r: (Result<(), AgentError>, Ghost<Seq<Call>>))
    ensures
        r.1@.len() <= lifecycle_schedule(agents.0@.len(), steps as nat).len(),
        r.1@ == lifecycle_schedule(agents.0@.len(), steps as nat).take(r.1@.len() as int),
        r.0 is Ok ==> r.1@ == lifecycle_schedule(agents.0@.len(), steps as nat),
        r.0 is Err ==> r.1@.len() >= 1,
        agents.0@.len() == 0 ==> r.0 is Ok,
{
    let mut v: Vec<AgentBox> = agents.0;
    let n = v.len();
    let ghost sched = lifecycle_schedule(n as nat, steps as nat);
    proof {
        lemma_lifecycle_order(n as nat, steps as nat);
        assert((steps as nat) * (2 * (n as nat)) >= 0) by (nonlinear_arith);
    }
    let ghost mut log: Seq<Call> = Seq::empty();
    proof {
        assert(log =~= sched.take(0));
    }
    let mut i: usize = 0;
    while i < n
        invariant
            v@.len() == n,
            i <= n,
            log.len() == i,
            log == sched.take(i as int),
        decreases n - i,
    {
        let agent = &mut v[i];
        let outcome = agent.0.startup();
        proof {
            lemma_schedule_index_startup(n as nat, steps as nat, i as int);
            assert(sched.take(i as int + 1) =~= sched.take(i as int).push(sched[i as int]));
            log = log.push(Call { agent: i, phase: Phase::Startup });
        }
        match outcome {
            Ok(_) => {},
            Err(e) => {
                return (Err(e), Ghost(log));
            },
        }
        i = i + 1;
    }
    let mut t: usize = 0;
    while t < steps
        invariant
            v@.len() == n,
            t <= steps,
            log.len() == n + t * (2 * n),
            log == sched.take(log.len() as int),
        decreases steps - t,
    {
        proof {
            assert(0 <= t * (2 * n) && t * (2 * n) + 2 * n == (t + 1) * (2 * n) && (t + 1) * (2
                * n) <= steps * (2 * n)) by (nonlinear_arith)
                requires
                    0 <= t < steps,
                    n >= 0,
            ;
        }
        let mut i: usize = 0;
        while i < n
            invariant
                v@.len() == n,
                i <= n,
                t < steps,
                log.len() == n + t * (2 * n) + i,
                log == sched.take(log.len() as int),
            decreases n - i,
        {
            let agent = &mut v[i];
            let outcome = agent.0.priority_step();
            proof {
                lemma_schedule_index_priority(n as nat, steps as nat, t as int, i as int);
                let at = log.len() as int;
                assert(sched.take(at + 1) =~= sched.take(at).push(sched[at]));
                log = log.push(Call { agent: i, phase: Phase::PriorityStep });
            }
            match outcome {
                Ok(_) => {},
                Err(e) => {
                    return (Err(e), Ghost(log));
                },
            }
            i = i + 1;
        }
        let mut i: usize = 0;
        while i < n
            invariant
                v@.len() == n,
                i <= n,
                t < steps,
                log.len() == n + t * (2 * n) + n + i,
                log == sched.take(log.len() as int),
            decreases n - i,
        {
            let agent = &mut v[i];
            let outcome = agent.0.step();
            proof {
                lemma_schedule_index_step(n as nat, steps as nat, t as int, i as int);
                let at = log.len() as int;
                assert(sched.take(at + 1) =~= sched.take(at).push(sched[at]));
                log = log.push(Call { agent: i, phase: Phase::Step });
            }
            match outcome {
                Ok(_) => {},
                Err(e) => {
                    return (Err(e), Ghost(log));
                },
            }
            i = i + 1;
        }
        t = t + 1;
    }
    proof {
        assert(log.len() == sched.len());
        assert(sched.take(sched.len() as int) =~= sched);
    }
    (Ok(()), Ghost(log))
}

/// The next position of a run's simulated chain clock: the block number
/// advances by one and the timestamp is the new number of elapsed
/// timesteps.
pub fn advance_block(block_number: u64, timestep_size: u64) -> (r: (u64, u64))
    requires
        block_number + 1 <= u64::MAX,
        (block_number + 1) * timestep_size <= u64::MAX,
    ensures
        r.0 == block_number + 1,
        r.1 == (block_number + 1) * timestep_size,
{
    let number = block_number + 1;
    (number, number * timestep_size)
}

} // verus!
