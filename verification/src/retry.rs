//! The supervisor of the outbound connection: how often to try, how long to
//! wait in between, and when to give up.
//!
//! The supervisor decides; the caller acts. The caller carries out each step
//! it is given (read the port descriptor and connect, or wait first and then
//! do so) and reports how the attempt ended.

use vstd::prelude::*;
use crate::endpoint::Liveness;

verus! {

/// How often the outbound connection is tried and how long the relay waits
/// between two attempts.
#[derive(Clone, Copy, Debug, PartialEq, Eq, Structural)]
pub struct RetryPolicy {
    /// The number of attempts after which the relay gives up.
    pub max_attempts: u32,
    /// The wait between two attempts, in milliseconds.
    pub delay_ms: u64,
}

/// How one attempt to connect ended. A port descriptor that is missing or
/// unreadable counts as a failed attempt, like a refused connection.
#[derive(Clone, Copy, Debug, PartialEq, Eq, Structural)]
pub enum AttemptOutcome {
    /// The port descriptor was missing or did not name a port.
    PortUnavailable,
    /// The port was read but the connection was not established.
    ConnectFailed,
    /// The connection is established.
    Connected,
}

/// What the caller has to do next.
#[derive(Clone, Copy, Debug, PartialEq, Eq, Structural)]
pub enum ConnectStep {
    /// Make the first attempt, at once.
    Attempt,
    /// Wait for the given number of milliseconds, then make another attempt.
    WaitThenAttempt { delay_ms: u64 },
    /// The connection is established: go on with it.
    Proceed,
    /// Every attempt has failed: report the failure and stop.
    GiveUp,
}

/// The supervisor as the contracts see it.
pub struct SupervisorView {
    /// The policy that the supervisor was made with.
    pub policy: RetryPolicy,
    /// The number of attempts that have failed so far.
    pub failures: nat,
    /// How far along the connection is.
    pub liveness: Liveness,
}

/// The supervisor of one outbound connection.
#[derive(Clone, Copy, Debug)]
pub struct ConnectSupervisor {
    policy: RetryPolicy,
    failures: u32,
    liveness: Liveness,
}

impl SupervisorView {
    /// The supervisor before the first attempt. With a policy of no attempts
    /// at all it has given up already.
    pub open spec fn initial(policy: RetryPolicy) -> SupervisorView {
        SupervisorView {
            policy,
            failures: 0,
            liveness: if policy.max_attempts == 0 {
                Liveness::Closed
            } else {
                Liveness::Connecting
            },
        }
    }

    /// What every supervisor satisfies: no more failures than attempts
    /// allowed, and fewer as long as it is still connecting.
    pub open spec fn valid(self) -> bool {
        &&& self.failures <= self.policy.max_attempts
        &&& self.liveness == Liveness::Connecting ==> self.failures < self.policy.max_attempts
    }

    /// The step that the caller has to take in this state.
    pub open spec fn pending(self) -> ConnectStep {
        match self.liveness {
            Liveness::Connecting => if self.failures == 0 {
                ConnectStep::Attempt
            } else {
                ConnectStep::WaitThenAttempt { delay_ms: self.policy.delay_ms }
            },
            Liveness::Active => ConnectStep::Proceed,
            Liveness::Closed => ConnectStep::GiveUp,
        }
    }

    /// The state after an attempt has ended in `outcome`. A supervisor that is
    /// no longer connecting stays as it is.
    pub open spec fn after(self, outcome: AttemptOutcome) -> SupervisorView {
        if self.liveness != Liveness::Connecting {
            self
        } else if outcome == AttemptOutcome::Connected {
            SupervisorView { liveness: Liveness::Active, ..self }
        } else if self.failures + 1 < self.policy.max_attempts {
            SupervisorView { failures: self.failures + 1, ..self }
        } else {
            SupervisorView { failures: self.failures + 1, liveness: Liveness::Closed, ..self }
        }
    }

    /// The steps that the supervisor hands out, from this state on, when the
    /// attempts end in the given outcomes one after the other: the pending
    /// step first, then, as long as it is still connecting and an outcome is
    /// left, the steps after that outcome.
    pub open spec fn schedule(self, outcomes: Seq<AttemptOutcome>) -> Seq<ConnectStep>
        decreases outcomes.len(),
    {
        if self.liveness == Liveness::Connecting && outcomes.len() > 0 {
            seq![self.pending()] + self.after(outcomes.first()).schedule(outcomes.drop_first())
        } else {
            seq![self.pending()]
        }
    }
}

/// Whether a step is an attempt to connect, at once or after a wait.
pub open spec fn is_attempt(step: ConnectStep) -> bool {
    step is Attempt || step is WaitThenAttempt
}

/// The steps of a connection that never comes about: one attempt at once,
/// then a wait and another attempt until the attempts are used up, then
/// giving up. Without any attempt allowed, giving up is all there is.
pub open spec fn failing_schedule(policy: RetryPolicy) -> Seq<ConnectStep> {
    if policy.max_attempts == 0 {
        seq![ConnectStep::GiveUp]
    } else {
        seq![ConnectStep::Attempt] + Seq::new(
            (policy.max_attempts - 1) as nat,
            |i: int| ConnectStep::WaitThenAttempt { delay_ms: policy.delay_ms },
        ) + seq![ConnectStep::GiveUp]
    }
}

impl RetryPolicy {
    /// The policy of the relay as it is deployed: ten attempts, half a second
    /// apart.
    pub fn standard() -> (policy: RetryPolicy)
        ensures
            policy == (RetryPolicy { max_attempts: 10, delay_ms: 500 }),
    {
        RetryPolicy { max_attempts: 10, delay_ms: 500 }
    }
}

impl View for ConnectSupervisor {
    type V = SupervisorView;

    closed spec fn view(&self) -> SupervisorView {
        SupervisorView {
            policy: self.policy,
            failures: self.failures as nat,
            liveness: self.liveness,
        }
    }
}

impl ConnectSupervisor {
    #[verifier::type_invariant]
    closed spec fn well_formed(self) -> bool {
        self@.valid()
    }

    /// A supervisor that has made no attempt yet.
    pub fn new(policy: RetryPolicy) -> (supervisor: ConnectSupervisor)
        ensures
            supervisor@ == SupervisorView::initial(policy),
            supervisor@.valid(),
    {
        let liveness = if policy.max_attempts == 0 {
            Liveness::Closed
        } else {
            Liveness::Connecting
        };
        ConnectSupervisor { policy, failures: 0, liveness }
    }

    /// The policy that the supervisor was made with.
    pub fn policy(&self) -> (policy: RetryPolicy)
        ensures
            policy == self@.policy,
    {
        self.policy
    }

    /// The number of attempts that have failed so far.
    pub fn failures(&self) -> (failures: u32)
        ensures
            failures == self@.failures,
    {
        self.failures
    }

    /// How far along the connection is: connecting while attempts are left,
    /// active once one has succeeded, closed once all have failed.
    pub fn liveness(&self) -> (liveness: Liveness)
        ensures
            liveness == self@.liveness,
    {
        self.liveness
    }

    /// The step that the caller has to take now.
    pub fn pending_step(&self) -> (step: ConnectStep)
        ensures
            step == self@.pending(),
    {
        match self.liveness {
            Liveness::Connecting => if self.failures == 0 {
                ConnectStep::Attempt
            } else {
                ConnectStep::WaitThenAttempt { delay_ms: self.policy.delay_ms }
            },
            Liveness::Active => ConnectStep::Proceed,
            Liveness::Closed => ConnectStep::GiveUp,
        }
    }

    /// Takes note of how an attempt ended and says what to do next.
    ///
    /// A failed attempt is counted. While fewer attempts have failed than the
    /// policy allows, the next step is to wait and try again; with the last
    /// one allowed, the supervisor gives up for good. A successful attempt
    /// makes the connection active. Once active or closed, the supervisor
    /// stays as it is whatever is reported.
    pub fn record(&mut self, outcome: AttemptOutcome) -> (step: ConnectStep)
        ensures
            final(self)@ == old(self)@.after(outcome),
            final(self)@.valid(),
            step == final(self)@.pending(),
            old(self)@.liveness.can_become(final(self)@.liveness),
    {
        proof {
            use_type_invariant(&*self);
        }
        match self.liveness {
            Liveness::Connecting => {
                match outcome {
                    AttemptOutcome::Connected => {
                        self.liveness = self.liveness.activated();
                    },
                    _ => {
                        if self.failures + 1 < self.policy.max_attempts {
                            self.failures = self.failures + 1;
                        } else {
                            self.liveness = self.liveness.closed();
                            self.failures = self.failures + 1;
                        }
                    },
                }
            },
            _ => {},
        }
        self.pending_step()
    }
}

/// The steps from a state with `failures` failed attempts on, when no attempt
/// ever succeeds and the outcomes do not run out before the attempts do.
proof fn lemma_failing_schedule_from(state: SupervisorView, outcomes: Seq<AttemptOutcome>)
    requires
        state.valid(),
        state.liveness == Liveness::Connecting,
        forall|i: int| 0 <= i < outcomes.len() ==> outcomes[i] != AttemptOutcome::Connected,
        outcomes.len() >= state.policy.max_attempts - state.failures,
    ensures
        state.schedule(outcomes) == seq![state.pending()] + Seq::new(
            (state.policy.max_attempts - 1 - state.failures) as nat,
            |i: int| ConnectStep::WaitThenAttempt { delay_ms: state.policy.delay_ms },
        ) + seq![ConnectStep::GiveUp],
    decreases state.policy.max_attempts - state.failures,
{
    let next = state.after(outcomes.first());
    let rest = outcomes.drop_first();
    let wait = ConnectStep::WaitThenAttempt { delay_ms: state.policy.delay_ms };
    let waits = Seq::new((state.policy.max_attempts - 1 - state.failures) as nat, |i: int| wait);
    assert(outcomes.first() != AttemptOutcome::Connected);
    if state.failures + 1 < state.policy.max_attempts {
        assert forall|i: int| 0 <= i < rest.len() implies rest[i] != AttemptOutcome::Connected by {
            assert(rest[i] == outcomes[i + 1]);
        }
        lemma_failing_schedule_from(next, rest);
        let fewer = Seq::new((state.policy.max_attempts - 2 - state.failures) as nat, |i: int| wait);
        assert(next.pending() == wait);
        assert(seq![wait] + fewer =~= waits);
        assert(state.schedule(outcomes) =~= seq![state.pending()] + waits + seq![
            ConnectStep::GiveUp,
        ]);
    } else {
        assert(next.liveness == Liveness::Closed);
        assert(next.schedule(rest) =~= seq![ConnectStep::GiveUp]);
        assert(waits =~= Seq::<ConnectStep>::empty());
        assert(state.schedule(outcomes) =~= seq![state.pending()] + waits + seq![
            ConnectStep::GiveUp,
        ]);
    }
}

/// The retry bound. When no attempt ever succeeds, the supervisor hands out
/// exactly as many attempts as the policy allows, the first at once and each
/// later one after the wait that the policy sets, and then gives up: the
/// steps are those of `failing_schedule`, however many more failures are
/// reported.
pub proof fn lemma_retry_bound(policy: RetryPolicy, outcomes: Seq<AttemptOutcome>)
    requires
        forall|i: int| 0 <= i < outcomes.len() ==> outcomes[i] != AttemptOutcome::Connected,
        outcomes.len() >= policy.max_attempts,
    ensures
        SupervisorView::initial(policy).schedule(outcomes) == failing_schedule(policy),
        failing_schedule(policy).len() == policy.max_attempts + 1,
        forall|i: int|
            0 <= i < policy.max_attempts ==> is_attempt(#[trigger] failing_schedule(policy)[i]),
        forall|i: int|
            1 <= i < policy.max_attempts ==> #[trigger] failing_schedule(policy)[i]
                == (ConnectStep::WaitThenAttempt { delay_ms: policy.delay_ms }),
        failing_schedule(policy).last() == ConnectStep::GiveUp,
{
    let state = SupervisorView::initial(policy);
    if policy.max_attempts == 0 {
        assert(state.schedule(outcomes) =~= failing_schedule(policy));
    } else {
        lemma_failing_schedule_from(state, outcomes);
        assert(state.schedule(outcomes) =~= failing_schedule(policy));
    }
}

/// A successful attempt ends the retries. When the first attempts fail, fewer
/// of them than the policy allows, and the next one succeeds, the supervisor
/// goes on with the connection and hands out nothing more.
pub proof fn lemma_success_ends_retries(state: SupervisorView, outcomes: Seq<AttemptOutcome>, failed: int)
    requires
        state.valid(),
        state.liveness == Liveness::Connecting,
        0 <= failed < outcomes.len(),
        forall|i: int| 0 <= i < failed ==> outcomes[i] != AttemptOutcome::Connected,
        outcomes[failed] == AttemptOutcome::Connected,
        state.failures + failed < state.policy.max_attempts,
    ensures
        state.schedule(outcomes).len() == failed + 2,
        state.schedule(outcomes).last() == ConnectStep::Proceed,
        forall|i: int|
            1 <= i <= failed ==> #[trigger] state.schedule(outcomes)[i]
                == (ConnectStep::WaitThenAttempt { delay_ms: state.policy.delay_ms }),
    decreases failed,
{
    let next = state.after(outcomes.first());
    let rest = outcomes.drop_first();
    if failed == 0 {
        assert(next.liveness == Liveness::Active);
        assert(next.schedule(rest) =~= seq![ConnectStep::Proceed]);
    } else {
        assert(outcomes[0] != AttemptOutcome::Connected);
        assert forall|i: int| 0 <= i < failed - 1 implies rest[i] != AttemptOutcome::Connected by {
            assert(rest[i] == outcomes[i + 1]);
        }
        assert(rest[failed - 1] == outcomes[failed]);
        lemma_success_ends_retries(next, rest, failed - 1);
        assert forall|i: int| 1 <= i <= failed implies #[trigger] state.schedule(outcomes)[i]
            == (ConnectStep::WaitThenAttempt { delay_ms: state.policy.delay_ms }) by {
            assert(state.schedule(outcomes)[i] == next.schedule(rest)[i - 1]);
            if i == 1 {
                assert(next.schedule(rest)[0] == next.pending());
            }
        }
    }
}

} // verus!
