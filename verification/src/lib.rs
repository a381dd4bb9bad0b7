//! A single-round, binary-outcome prediction market: participants stake a
//! fungible value on whether an observed count will come in higher or lower
//! than a predicted baseline. Losers forfeit their stake; winners split the
//! combined pot in proportion to their stake. Refunds of the original stake
//! become available after a grace period if the round is never resolved.
//!
//! The host services the market runs against (durable storage, the value
//! transfer primitive, caller authentication, and the ledger clock) are
//! external collaborators: accounts appear here as plain identifiers and the
//! clock as a tick passed in by the caller.

pub mod laws;
pub mod market;
pub mod model;
pub mod rules;
pub mod stakes;

pub use market::KalePrediction;

pub use model::Error;
pub use model::Outcome;
pub use model::Round;
pub use model::Side;
pub use model::Stake;
pub use model::GRACE_LEDGERS;
pub use model::MAX_TOTAL_POOL;
