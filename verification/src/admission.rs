//! The admission engine: the counting state and the decision on each attempt.

use crate::rate::{InvalidPolicy, Rate};
use vstd::prelude::*;

verus! {

/// An attempt fell outside the cadence that the policy grants.
#[derive(Clone, Copy, Debug, PartialEq, Eq, Structural)]
pub struct RateLimitExceeded;

/// What an engine remembers between attempts.
///
/// `last_tick` is the tick of the latest admission, or of the engine's
/// creation while nothing has been admitted. `count_in_tick` is the number of
/// admissions granted at `last_tick`; only `PerBlock` reads it.
#[derive(Clone, Copy, Debug, PartialEq, Eq, Structural)]
pub struct AdmissionState {
    pub last_tick: u64,
    pub count_in_tick: u64,
}

/// Whether an attempt at `tick` is admitted from `state`.
///
/// Under `PerBlock(n)` a tick other than `last_tick` starts a fresh count, and
/// the attempt passes while fewer than `n` were granted in its tick. Under
/// `Blocks(b)` it passes once `b` ticks have gone by since `last_tick`.
pub open spec fn admits(policy: Rate, state: AdmissionState, tick: u64) -> bool {
    match policy {
        Rate::PerBlock(n) => if tick == state.last_tick {
            state.count_in_tick < n
        } else {
            0 < n
        },
        Rate::Blocks(b) => tick - state.last_tick >= b,
    }
}

/// The state that an admission at `tick` leaves behind.
pub open spec fn admitted(policy: Rate, state: AdmissionState, tick: u64) -> AdmissionState {
    match policy {
        Rate::PerBlock(_) => AdmissionState {
            last_tick: tick,
            count_in_tick: if tick == state.last_tick {
                (state.count_in_tick + 1) as u64
            } else {
                1
            },
        },
        Rate::Blocks(_) => AdmissionState { last_tick: tick, count_in_tick: state.count_in_tick },
    }
}

/// The state after one attempt at `tick`: a rejected attempt changes nothing.
pub open spec fn attempt(policy: Rate, state: AdmissionState, tick: u64) -> AdmissionState {
    if admits(policy, state, tick) {
        admitted(policy, state, tick)
    } else {
        state
    }
}

/// A rate policy together with its counting state. One engine serves every
/// sender of a gate: the budget is shared.
#[derive(Clone, Copy, Debug, PartialEq, Eq)]
pub struct AdmissionEngine {
    policy: Rate,
    state: AdmissionState,
}

impl AdmissionEngine {
    /// The policy is one that a constructor accepts.
    pub open spec fn wf(&self) -> bool {
        self.policy().valid()
    }

    pub closed spec fn spec_policy(&self) -> Rate {
        self.policy
    }

    pub closed spec fn spec_state(&self) -> AdmissionState {
        self.state
    }

    /// An engine created at `current_tick`, with nothing admitted yet. The
    /// clock of a `Blocks` policy starts here: the first admission has to wait
    /// for its `b` ticks as any other.
    pub fn new(policy: Rate, current_tick: u64) -> (r: Result<AdmissionEngine, InvalidPolicy>)
        ensures
            policy.valid() <==> r is Ok,
            r is Ok ==> {
                &&& r->Ok_0.policy() == policy
                &&& r->Ok_0.state() == (AdmissionState {
                    last_tick: current_tick,
                    count_in_tick: 0,
                })
            },
    {
        Self::restore(policy, AdmissionState { last_tick: current_tick, count_in_tick: 0 })
    }

    /// An engine that goes on from a state kept elsewhere.
    pub fn restore(policy: Rate, state: AdmissionState) -> (r: Result<
        AdmissionEngine,
        InvalidPolicy,
    >)
        ensures
            policy.valid() <==> r is Ok,
            r is Ok ==> r->Ok_0.policy() == policy && r->Ok_0.state() == state,
    {
        if policy.is_valid() {
            Ok(AdmissionEngine { policy, state })
        } else {
            Err(InvalidPolicy)
        }
    }

    /// The policy, which never changes.
    #[verifier::when_used_as_spec(spec_policy)]
    pub fn policy(&self) -> (p: Rate)
        ensures
            p == self.spec_policy(),
    {
        self.policy
    }

    /// The counting state as it stands.
    #[verifier::when_used_as_spec(spec_state)]
    pub fn state(&self) -> (s: AdmissionState)
        ensures
            s == self.spec_state(),
    {
        self.state
    }

    /// Decides one attempt at `current_tick`, and counts it if it passes.
    ///
    /// The host's clock never runs backwards, so `current_tick` is not below
    /// the tick of the latest admission. The attempt passes exactly when
    /// [`admits`] says so; a rejected attempt leaves the engine as it was.
    pub fn try_admit(&mut self, current_tick: u64) -> (r: Result<(), RateLimitExceeded>)
        requires
            current_tick >= old(self).state().last_tick,
        ensures
            r is Ok <==> admits(old(self).policy(), old(self).state(), current_tick),
            final(self).policy() == old(self).policy(),
            final(self).state() == attempt(old(self).policy(), old(self).state(), current_tick),
            r is Err ==> *final(self) == *old(self),
    {
        match self.policy {
            Rate::PerBlock(n) => {
                let count: u64 = if current_tick != self.state.last_tick {
                    0
                } else {
                    self.state.count_in_tick
                };
                if count >= n {
                    return Err(RateLimitExceeded);
                }
                self.state.last_tick = current_tick;
                self.state.count_in_tick = count + 1;
                Ok(())
            },
            Rate::Blocks(b) => {
                let elapsed: u64 = current_tick - self.state.last_tick;
                if elapsed < b {
                    return Err(RateLimitExceeded);
                }
                self.state.last_tick = current_tick;
                Ok(())
            },
        }
    }
}

} // verus!
