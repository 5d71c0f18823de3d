//! The relay gateway: what is sent on to the origin once an attempt is
//! admitted.
//!
//! The gateway does not send anything itself. It says what is to be sent and
//! where; the host carries that out and reports how it went.

use vstd::prelude::*;

verus! {

/// What the origin is told about an admitted attempt: who sent it, and the
/// payload as it came.
#[derive(Clone, Debug, PartialEq, Eq)]
pub struct RelayNotification<P> {
    pub sender_identity: String,
    pub payload: P,
}

/// A notification and the address it goes to.
#[derive(Clone, Debug, PartialEq, Eq)]
pub struct Dispatch<P> {
    pub origin: String,
    pub notification: RelayNotification<P>,
}

/// What the host has to do for an admitted attempt.
#[derive(Clone, Debug, PartialEq, Eq)]
pub enum Relay<P> {
    /// No origin is set: the proxy only meters, and the attempt is done.
    Skipped,
    /// Deliver this to the origin.
    Send(Dispatch<P>),
}

/// What became of a dispatch, as the host reports it.
#[derive(Clone, Copy, Debug, PartialEq, Eq, Structural)]
pub enum Delivery {
    Delivered,
    Unreachable,
    Rejected,
}

/// The origin did not take a notification. The admission that led to it
/// stands all the same.
#[derive(Clone, Copy, Debug, PartialEq, Eq, Structural)]
pub enum RelayError {
    OriginUnreachable,
    OriginRejected,
}

/// Where admitted attempts are relayed to, if anywhere.
#[derive(Clone, Debug, PartialEq, Eq)]
pub struct RelayGateway {
    origin: Option<String>,
}

impl RelayGateway {
    pub closed spec fn spec_origin(&self) -> Option<String> {
        self.origin
    }

    /// The relay that an admitted attempt of `sender_identity` with `payload`
    /// calls for.
    pub open spec fn relay<P>(&self, sender_identity: String, payload: P) -> Relay<P> {
        match self.spec_origin() {
            None => Relay::Skipped,
            Some(origin) => Relay::Send(
                Dispatch { origin, notification: RelayNotification { sender_identity, payload } },
            ),
        }
    }

    /// A gateway to `origin`; with `None` nothing is relayed.
    pub fn new(origin: Option<String>) -> (r: RelayGateway)
        ensures
            r.spec_origin() == origin,
    {
        RelayGateway { origin }
    }

    /// The address of the origin, if one is set.
    pub fn origin(&self) -> (r: &Option<String>)
        ensures
            *r == self.spec_origin(),
    {
        &self.origin
    }

    /// Builds the notification for an admitted attempt. Call it only for an
    /// attempt that the engine admitted.
    pub fn on_admitted<P>(&self, sender_identity: String, payload: P) -> (r: Relay<P>)
        ensures
            r == self.relay(sender_identity, payload),
    {
        match &self.origin {
            None => Relay::Skipped,
            Some(origin) => Relay::Send(
                Dispatch {
                    origin: origin.clone(),
                    notification: RelayNotification { sender_identity, payload },
                },
            ),
        }
    }

    /// The result of the relay step, from what the host reports of the
    /// dispatch.
    pub fn on_delivery(delivery: Delivery) -> (r: Result<(), RelayError>)
        ensures
            r == relay_result(delivery),
    {
        match delivery {
            Delivery::Delivered => Ok(()),
            Delivery::Unreachable => Err(RelayError::OriginUnreachable),
            Delivery::Rejected => Err(RelayError::OriginRejected),
        }
    }
}

/// Each failed delivery has its own error; a delivered one has none.
pub open spec fn relay_result(delivery: Delivery) -> Result<(), RelayError> {
    match delivery {
        Delivery::Delivered => Ok(()),
        Delivery::Unreachable => Err(RelayError::OriginUnreachable),
        Delivery::Rejected => Err(RelayError::OriginRejected),
    }
}

} // verus!
