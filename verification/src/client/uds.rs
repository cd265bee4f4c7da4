//! Dialling again when a long-lived connection has ended.

use crate::client::multiplex::MultiplexError;
use crate::client::multiplex::MultiplexErrorView;
use crate::error::TransportError;
use crate::error::TransportErrorView;
use crate::span::Span;
use vstd::prelude::*;

verus! {

/// How a connection that has ended is dialled again.
///
/// At most `max_attempts` dials are made. The first is made at once; before each of the others
/// there is a wait, which starts at `base_backoff` and doubles from one to the next, and is never
/// longer than `max_backoff`.
#[derive(Clone, Copy, Debug)]
pub struct RetryPolicy {
    /// The most dials that are made before giving up; at least one.
    pub max_attempts: u32,
    /// The wait before the second dial.
    pub base_backoff: Span,
    /// The longest wait between dials.
    pub max_backoff: Span,
}

impl Default for RetryPolicy {
    fn default() -> (policy: Self)
        ensures
            policy.max_attempts == 5,
            policy.base_backoff.total() == 50_000_000,
            policy.max_backoff.total() == 5_000_000_000,
    {
        RetryPolicy {
            max_attempts: 5,
            base_backoff: Span::from_millis(50),
            max_backoff: Span::from_secs(5),
        }
    }
}

/// How many dials are made at most.
pub open spec fn attempts(policy: RetryPolicy) -> int {
    if policy.max_attempts >= 1 {
        policy.max_attempts as int
    } else {
        1
    }
}

/// Whether a policy says that nothing is dialled again: a single attempt and no waiting.
pub open spec fn never_redials(policy: RetryPolicy) -> bool {
    policy.max_attempts == 1 && policy.base_backoff.total() == 0 && policy.max_backoff.total() == 0
}

/// A wait, in nanoseconds, that is cut to the longest wait.
pub open spec fn capped(policy: RetryPolicy, wait: nat) -> nat {
    if wait <= policy.max_backoff.total() {
        wait
    } else {
        policy.max_backoff.total()
    }
}

/// The wait after so many failed dials, in nanoseconds.
pub open spec fn wait_after(policy: RetryPolicy, failed: nat) -> nat
    decreases failed,
{
    if failed <= 1 {
        capped(policy, policy.base_backoff.total())
    } else {
        capped(policy, 2 * wait_after(policy, (failed - 1) as nat))
    }
}

/// What is done when a connection is needed.
pub enum Reconnect {
    /// The connection lives and is used.
    Keep,
    /// The connection is dialled again.
    Dial(Redial),
    /// It is not dialled again.
    GiveUp(MultiplexError),
}

/// What is done after a dial has failed.
pub enum RedialStep {
    /// Wait, then dial.
    Wait(Span),
    /// Give up.
    GiveUp(MultiplexError),
}

/// A connection that is being dialled again.
pub struct Redial {
    policy: RetryPolicy,
    failed: u32,
    backoff: Span,
}

impl RetryPolicy {
    /// A policy that never dials again: a connection that has ended stays so.
    pub fn none() -> (policy: Self)
        ensures
            never_redials(policy),
    {
        RetryPolicy {
            max_attempts: 1,
            base_backoff: Span::from_secs(0),
            max_backoff: Span::from_secs(0),
        }
    }

    /// Whether the policy says that nothing is dialled again.
    pub fn is_none(&self) -> (answer: bool)
        ensures
            answer == never_redials(*self),
    {
        self.max_attempts == 1 && self.base_backoff.is_zero() && self.max_backoff.is_zero()
    }

    /// What is done when a connection is needed: one that lives is used, one that has ended is
    /// dialled again, unless the policy says otherwise.
    pub fn reconnect(&self, connected: bool) -> (reconnect: Reconnect)
        ensures
            match reconnect {
                Reconnect::Keep => connected,
                Reconnect::Dial(redial) => {
                    &&& !connected && !never_redials(*self)
                    &&& redial.policy() == *self
                    &&& redial.failures() == 0
                },
                Reconnect::GiveUp(error) => {
                    &&& !connected && never_redials(*self)
                    &&& error@ == MultiplexErrorView::ConnectionClosed
                },
            },
    {
        if connected {
            Reconnect::Keep
        } else if self.is_none() {
            Reconnect::GiveUp(MultiplexError::ConnectionClosed)
        } else {
            let backoff = self.base_backoff.min(&self.max_backoff);
            Reconnect::Dial(Redial { policy: *self, failed: 0, backoff })
        }
    }
}

impl Redial {
    #[verifier::type_invariant]
    spec fn is_under_way(self) -> bool {
        &&& self.failed < attempts(self.policy)
        &&& self.backoff.total() == wait_after(self.policy, (self.failed + 1) as nat)
    }

    /// The policy.
    pub closed spec fn policy(self) -> RetryPolicy {
        self.policy
    }

    /// How many dials have failed.
    pub closed spec fn failures(self) -> nat {
        self.failed as nat
    }

    /// Takes the failure of a dial: another dial is made after a wait, unless all attempts are
    /// used up.
    pub fn dial_failed(self, error: std::io::Error) -> (next: (RedialStep, Option<Redial>))
        ensures
            match next.0 {
                RedialStep::Wait(wait) => {
                    &&& self.failures() + 1 < attempts(self.policy())
                    &&& wait.total() == wait_after(self.policy(), self.failures() + 1)
                    &&& next.1 matches Some(redial)
                    &&& redial.policy() == self.policy()
                    &&& redial.failures() == self.failures() + 1
                },
                RedialStep::GiveUp(failure) => {
                    &&& self.failures() + 1 == attempts(self.policy())
                    &&& failure@ == MultiplexErrorView::Transport(TransportErrorView::Io(error))
                    &&& next.1 is None
                },
            },
    {
        proof {
            use_type_invariant(&self);
        }
        if self.failed + 1 >= self.policy.max_attempts {
            return (
                RedialStep::GiveUp(MultiplexError::Transport(TransportError::Io(error))),
                None,
            );
        }
        let backoff = self.backoff.double_up_to(&self.policy.max_backoff);
        (
            RedialStep::Wait(self.backoff),
            Some(Redial { policy: self.policy, failed: self.failed + 1, backoff }),
        )
    }
}

} // verus!
