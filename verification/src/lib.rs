//! A minimal fungible-token ledger: accounts keyed by caller identity, a
//! single token with a total supply, an append-only transfer log, and a
//! privileged owner who may mint and hand the role on.
//!
//! The ledger itself is a pure state machine: every mutating operation takes
//! the authenticated caller (and, for transfers, the current time) as a plain
//! argument, validates fully before touching anything, and either commits as
//! one atomic step or returns a typed error with the state untouched.

pub mod identity;
pub mod laws;
pub mod ledger;
