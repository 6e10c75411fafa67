//! Escrow engine for binary-outcome prediction markets.
//!
//! Participants lock value on a YES/NO question, an administrator resolves
//! the outcome once the market's unlock time has passed, and the winning side
//! withdraws a proportional share of the combined pool minus a platform fee.
//! The engine is a deterministic state machine: the host supplies the current
//! time and the already-authenticated caller, and carries out the value
//! transfers that each successful operation asks for.

pub mod fees;
pub mod types;
pub mod treasury;
pub mod ledger;
pub mod model;
pub mod contract;
pub mod records;
pub mod laws;
