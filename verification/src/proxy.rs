//! The proxy as a whole: an admission engine in front of a relay gateway.

use crate::admission::{admits, attempt, AdmissionEngine, AdmissionState, RateLimitExceeded};
use crate::rate::{InvalidPolicy, Rate};
use crate::relay::{Relay, RelayGateway};
use vstd::prelude::*;

verus! {

/// A rate-limited proxy in front of one origin. Every sender goes through
/// the same engine.
#[derive(Clone, Debug, PartialEq, Eq)]
pub struct RateLimitedProxy {
    engine: AdmissionEngine,
    gateway: RelayGateway,
}

impl RateLimitedProxy {
    pub closed spec fn spec_engine(&self) -> AdmissionEngine {
        self.engine
    }

    pub closed spec fn spec_gateway(&self) -> RelayGateway {
        self.gateway
    }

    /// The policy of the engine.
    pub open spec fn policy(&self) -> Rate {
        self.spec_engine().policy()
    }

    /// The counting state of the engine.
    pub open spec fn state(&self) -> AdmissionState {
        self.spec_engine().state()
    }

    /// The origin of the gateway.
    pub open spec fn origin(&self) -> Option<String> {
        self.spec_gateway().spec_origin()
    }

    /// The policy is one that a constructor accepts.
    pub open spec fn wf(&self) -> bool {
        self.policy().valid()
    }

    /// A proxy set up at `current_tick` with its policy and, if it relays,
    /// its origin. Neither changes afterwards.
    pub fn new(rate_limit: Rate, origin: Option<String>, current_tick: u64) -> (r: Result<
        RateLimitedProxy,
        InvalidPolicy,
    >)
        ensures
            rate_limit.valid() <==> r is Ok,
            r is Ok ==> {
                &&& r->Ok_0.policy() == rate_limit
                &&& r->Ok_0.state() == (AdmissionState {
                    last_tick: current_tick,
                    count_in_tick: 0,
                })
                &&& r->Ok_0.origin() == origin
            },
    {
        match AdmissionEngine::new(rate_limit, current_tick) {
            Ok(engine) => Ok(RateLimitedProxy { engine, gateway: RelayGateway::new(origin) }),
            Err(e) => Err(e),
        }
    }

    /// A proxy that goes on from a state kept elsewhere.
    pub fn restore(rate_limit: Rate, state: AdmissionState, origin: Option<String>) -> (r: Result<
        RateLimitedProxy,
        InvalidPolicy,
    >)
        ensures
            rate_limit.valid() <==> r is Ok,
            r is Ok ==> {
                &&& r->Ok_0.policy() == rate_limit
                &&& r->Ok_0.state() == state
                &&& r->Ok_0.origin() == origin
            },
    {
        match AdmissionEngine::restore(rate_limit, state) {
            Ok(engine) => Ok(RateLimitedProxy { engine, gateway: RelayGateway::new(origin) }),
            Err(e) => Err(e),
        }
    }

    /// The engine, for reading.
    pub fn engine(&self) -> (r: &AdmissionEngine)
        ensures
            *r == self.spec_engine(),
    {
        &self.engine
    }

    /// The gateway, for reading.
    pub fn gateway(&self) -> (r: &RelayGateway)
        ensures
            *r == self.spec_gateway(),
    {
        &self.gateway
    }

    /// One attempt of `sender_identity` at `current_tick`.
    ///
    /// The engine decides. If it admits, the state is updated and the result
    /// says what the host has to relay; if not, nothing changes.
    pub fn receive<P>(&mut self, current_tick: u64, sender_identity: String, payload: P) -> (r:
        Result<Relay<P>, RateLimitExceeded>)
        requires
            current_tick >= old(self).state().last_tick,
        ensures
            r is Ok <==> admits(old(self).policy(), old(self).state(), current_tick),
            r is Ok ==> r->Ok_0 == old(self).spec_gateway().relay(sender_identity, payload),
            final(self).policy() == old(self).policy(),
            final(self).origin() == old(self).origin(),
            final(self).spec_gateway() == old(self).spec_gateway(),
            final(self).state() == attempt(old(self).policy(), old(self).state(), current_tick),
            r is Err ==> *final(self) == *old(self),
    {
        match self.engine.try_admit(current_tick) {
            Ok(()) => Ok(self.gateway.on_admitted(sender_identity, payload)),
            Err(e) => Err(e),
        }
    }
}

} // verus!
