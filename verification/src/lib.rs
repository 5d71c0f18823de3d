//! A rate-limiting admission gate.
//!
//! Many senders forward notifications through one gate to a single origin.
//! It admits or rejects each attempt from the tick its host supplies
//! and nothing else: a [`Rate`] fixes the cadence, an [`AdmissionEngine`]
//! keeps the count.

pub mod admission;
pub mod cadence;
pub mod decimal;
pub mod history;
pub mod payload;
pub mod proxy;
pub mod random;
pub mod rate;
pub mod relay;
pub mod simulation;

pub use admission::{AdmissionEngine, AdmissionState, RateLimitExceeded};
pub use proxy::RateLimitedProxy;
pub use rate::{InvalidPolicy, Rate};
pub use random::random_rate;
pub use relay::{Delivery, Dispatch, Relay, RelayError, RelayGateway, RelayNotification};
pub use simulation::{App, ReceiveMsg, Test, START_HEIGHT};
