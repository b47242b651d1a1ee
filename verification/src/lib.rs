//! Sale of a fixed collection of numbered tokens.
//!
//! The crate holds the rules of the sale as functions of the stored state and
//! of what the host reports about one call: who signed it, what was attached,
//! what the ledger already holds. It never reaches for the host itself; every
//! operation hands back what has to be done there (tokens to issue, funds to
//! move, a key to register).
pub mod contract;
pub mod error;
pub mod model;
pub mod pending;
pub mod pricing;
pub mod raffle;
pub mod whitelist;
