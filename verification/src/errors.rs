//! The ledger's error taxonomy: every failure names the offending account
//! and, where relevant, the attempted amount.

use vstd::prelude::*;

verus! {

/// The mathematical value of a ledger error: the account key as a sequence
/// of characters, together with the attempted amount where one applies.
pub enum ErrorView {
    NotFound(Seq<char>),
    UnderFunded(Seq<char>, u64),
    OverFunded(Seq<char>, u64),
}

/// Why a ledger operation was refused. Every error is detected before any
/// mutation is committed for that operation.
///
/// - `NotFound(account)`: the operation referenced an account with no
///   existing balance entry.
/// - `UnderFunded(account, amount)`: the withdrawal `amount` exceeds the
///   account's current balance. The amount carried is the attempted one.
/// - `OverFunded(account, amount)`: depositing `amount` would overflow the
///   balance's integer range. The amount carried is the attempted one, not
///   a computed invalid value.
#[derive(Debug)]
pub enum ApplicationError {
    NotFound(String),
    UnderFunded(String, u64),
    OverFunded(String, u64),
}

impl View for ApplicationError {
    type V = ErrorView;

    open spec fn view(&self) -> ErrorView {
        match self {
            ApplicationError::NotFound(account) => ErrorView::NotFound(account@),
            ApplicationError::UnderFunded(account, amount) => ErrorView::UnderFunded(
                account@,
                *amount,
            ),
            ApplicationError::OverFunded(account, amount) => ErrorView::OverFunded(
                account@,
                *amount,
            ),
        }
    }
}

} // verus!
