//! Transaction records: immutable artifacts of successful ledger operations.

use vstd::prelude::*;

verus! {

/// The mathematical value of a transaction record: the account key as a
/// sequence of characters, together with the amount moved.
pub enum TxView {
    Deposit { account: Seq<char>, amount: u64 },
    Withdraw { account: Seq<char>, amount: u64 },
}

/// A record of one committed balance change, created only as the return
/// value of a successful ledger operation and immutable thereafter.
///
/// A transfer has no record of its own: it decomposes into exactly one
/// `Withdraw` followed by one `Deposit`.
#[derive(Debug)]
pub enum Tx {
    Deposit { account: String, amount: u64 },
    Withdraw { account: String, amount: u64 },
}

impl View for Tx {
    type V = TxView;

    open spec fn view(&self) -> TxView {
        match self {
            Tx::Deposit { account, amount } => TxView::Deposit {
                account: account@,
                amount: *amount,
            },
            Tx::Withdraw { account, amount } => TxView::Withdraw {
                account: account@,
                amount: *amount,
            },
        }
    }
}

} // verus!
