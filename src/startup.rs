//! The bootstrap sequence run at startup, as a state machine: for each
//! bootstrap node in turn, dial it, add its address to the routing table and
//! register it as a reachability server; then start the DHT bootstrap. The
//! first failing step ends the sequence with its error.
use vstd::prelude::*;

verus! {

/// One step of the startup sequence; nodes are numbered from zero.
#[derive(Debug, Clone, Copy, PartialEq, Eq, Structural)]
pub enum StartupStep {
    Dial(usize),
    AddAddress(usize),
    AddAutonatServer(usize),
    Bootstrap,
}

/// Where the sequence stands after a step reported.
#[derive(Debug, Clone, Copy, PartialEq, Eq, Structural)]
pub enum Startup {
    /// The step to perform next.
    Perform(StartupStep),
    /// Every step succeeded.
    Succeeded,
    /// The sequence stopped; this step failed and its error is the result.
    Failed(StartupStep),
}

/// The steps, in order, for `n` bootstrap nodes.
pub open spec fn planned_steps(n: nat) -> Seq<StartupStep> {
    Seq::new(
        3 * n + 1,
        |k: int|
            if k == 3 * n {
                StartupStep::Bootstrap
            } else if k % 3 == 0 {
                StartupStep::Dial((k / 3) as usize)
            } else if k % 3 == 1 {
                StartupStep::AddAddress((k / 3) as usize)
            } else {
                StartupStep::AddAutonatServer((k / 3) as usize)
            },
    )
}

/// The step names a node among the first `n`.
pub open spec fn step_in_range(n: usize, step: StartupStep) -> bool {
    match step {
        StartupStep::Dial(i) => i < n,
        StartupStep::AddAddress(i) => i < n,
        StartupStep::AddAutonatServer(i) => i < n,
        StartupStep::Bootstrap => true,
    }
}

/// What follows `step` for `n` nodes, given whether it succeeded.
pub open spec fn spec_advance(n: usize, step: StartupStep, succeeded: bool) -> Startup {
    if !succeeded {
        Startup::Failed(step)
    } else {
        match step {
            StartupStep::Dial(i) => Startup::Perform(StartupStep::AddAddress(i)),
            StartupStep::AddAddress(i) => Startup::Perform(StartupStep::AddAutonatServer(i)),
            StartupStep::AddAutonatServer(i) => if i + 1 < n {
                Startup::Perform(StartupStep::Dial((i + 1) as usize))
            } else {
                Startup::Perform(StartupStep::Bootstrap)
            },
            StartupStep::Bootstrap => Startup::Succeeded,
        }
    }
}

/// The first step for `n` bootstrap nodes.
pub fn first_startup_step(n: usize) -> (r: StartupStep)
    ensures
        r == planned_steps(n as nat)[0],
{
    if n == 0 {
        StartupStep::Bootstrap
    } else {
        StartupStep::Dial(0)
    }
}

/// What follows `step` of the startup sequence for `n` bootstrap nodes,
/// given whether it succeeded.
pub fn advance_startup(n: usize, step: StartupStep, succeeded: bool) -> (r: Startup)
    requires
        step_in_range(n, step),
    ensures
        r == spec_advance(n, step, succeeded),
{
    if !succeeded {
        return Startup::Failed(step);
    }
    match step {
        StartupStep::Dial(i) => Startup::Perform(StartupStep::AddAddress(i)),
        StartupStep::AddAddress(i) => Startup::Perform(StartupStep::AddAutonatServer(i)),
        StartupStep::AddAutonatServer(i) => {
            if i + 1 < n {
                Startup::Perform(StartupStep::Dial(i + 1))
            } else {
                Startup::Perform(StartupStep::Bootstrap)
            }
        },
        StartupStep::Bootstrap => Startup::Succeeded,
    }
}

/// The startup sequence performs the planned steps in order: after each
/// step that succeeds comes the next planned one, and after the last the
/// sequence has succeeded; a step that fails ends it with that step, so no
/// later step, the bootstrap included, is performed.
pub proof fn lemma_startup_follows_plan(n: usize, k: int)
    requires
        0 <= k < 3 * n + 1,
    ensures
        step_in_range(n, planned_steps(n as nat)[k]),
        spec_advance(n, planned_steps(n as nat)[k], false) == Startup::Failed(
            planned_steps(n as nat)[k],
        ),
        spec_advance(n, planned_steps(n as nat)[k], true) == if k + 1 < 3 * n + 1 {
            Startup::Perform(planned_steps(n as nat)[k + 1])
        } else {
            Startup::Succeeded
        },
{
    let p = planned_steps(n as nat);
    if k < 3 * n {
        assert(k / 3 < n);
        if k % 3 == 2 {
            assert((k + 1) % 3 == 0 && (k + 1) / 3 == k / 3 + 1);
            if k / 3 + 1 < n {
                assert(k + 1 < 3 * n);
            } else {
                assert(k + 1 == 3 * n);
            }
        } else {
            assert((k + 1) % 3 == k % 3 + 1 && (k + 1) / 3 == k / 3);
            assert(k + 1 < 3 * n);
        }
    }
}

} // verus!
