//! A minimal ledger core: per-account unsigned balances with deposit,
//! withdraw, and all-or-nothing transfer operations.
//!
//! The ledger itself lives in [`accounts`]; the record of a committed
//! balance change in [`tx`]; the error taxonomy in [`errors`].

pub mod accounts;
pub mod errors;
pub mod tx;
