//! The ledger: an account-to-balance mapping and the three operations on
//! it, each atomic with respect to its own consistency rules.

use vstd::pervasive::VecAdditionalExecFns;
use vstd::prelude::*;

use crate::errors::{ApplicationError, ErrorView};
use crate::tx::{Tx, TxView};

verus! {

/// Whether some entry of `s` carries the account key `k`.
pub open spec fn has_key(s: Seq<(String, u64)>, k: Seq<char>) -> bool {
    exists|i: int| 0 <= i < s.len() && s[i].0@ == k
}

/// The index of the entry of `s` carrying the account key `k`; meaningful
/// only when `has_key(s, k)` holds and the keys of `s` are distinct.
pub open spec fn key_index(s: Seq<(String, u64)>, k: Seq<char>) -> int {
    choose|i: int| 0 <= i < s.len() && s[i].0@ == k
}

/// At most one entry of `s` per account key.
pub open spec fn distinct_keys(s: Seq<(String, u64)>) -> bool {
    forall|i: int, j: int| 0 <= i < j < s.len() ==> s[i].0@ != s[j].0@
}

/// The account-to-balance mapping that a sequence of entries denotes.
pub open spec fn entries_map(s: Seq<(String, u64)>) -> Map<Seq<char>, u64> {
    Map::new(|k: Seq<char>| has_key(s, k), |k: Seq<char>| s[key_index(s, k)].1)
}

/// What `deposit` does, stated over the mathematical mapping: the mapping
/// it leaves behind and the record or error it reports.
pub open spec fn deposit_model(m: Map<Seq<char>, u64>, account: Seq<char>, amount: u64) -> (
    Map<Seq<char>, u64>,
    Result<TxView, ErrorView>,
) {
    if !m.contains_key(account) {
        (m.insert(account, amount), Ok(TxView::Deposit { account, amount }))
    } else if m[account] + amount <= u64::MAX {
        (
            m.insert(account, (m[account] + amount) as u64),
            Ok(TxView::Deposit { account, amount }),
        )
    } else {
        (m, Err(ErrorView::OverFunded(account, amount)))
    }
}

/// What `withdraw` does, stated over the mathematical mapping.
pub open spec fn withdraw_model(m: Map<Seq<char>, u64>, account: Seq<char>, amount: u64) -> (
    Map<Seq<char>, u64>,
    Result<TxView, ErrorView>,
) {
    if !m.contains_key(account) {
        (m, Err(ErrorView::NotFound(account)))
    } else if amount <= m[account] {
        (
            m.insert(account, (m[account] - amount) as u64),
            Ok(TxView::Withdraw { account, amount }),
        )
    } else {
        (m, Err(ErrorView::UnderFunded(account, amount)))
    }
}

/// What `send` does, stated over the mathematical mapping: a withdrawal
/// from the sender followed by a deposit to the recipient, with the whole
/// operation undone when either step fails.
pub open spec fn send_model(
    m: Map<Seq<char>, u64>,
    sender: Seq<char>,
    recipient: Seq<char>,
    amount: u64,
) -> (Map<Seq<char>, u64>, Result<(TxView, TxView), ErrorView>) {
    if !m.contains_key(sender) {
        (m, Err(ErrorView::NotFound(sender)))
    } else {
        let (mid, w) = withdraw_model(m, sender, amount);
        match w {
            Ok(wtx) => {
                let (out, d) = deposit_model(mid, recipient, amount);
                match d {
                    Ok(dtx) => (out, Ok((wtx, dtx))),
                    Err(e) => (m, Err(e)),
                }
            },
            Err(e) => (m, Err(e)),
        }
    }
}

/// The mathematical value of a `deposit` or `withdraw` result.
pub open spec fn tx_res_view(r: Result<Tx, ApplicationError>) -> Result<TxView, ErrorView> {
    match r {
        Ok(t) => Ok(t@),
        Err(e) => Err(e@),
    }
}

/// The mathematical value of a `send` result.
pub open spec fn send_res_view(r: Result<(Tx, Tx), ApplicationError>) -> Result<
    (TxView, TxView),
    ErrorView,
> {
    match r {
        Ok(p) => Ok((p.0@, p.1@)),
        Err(e) => Err(e@),
    }
}

proof fn lemma_key_index_of_entry(s: Seq<(String, u64)>, i: int)
    requires
        distinct_keys(s),
        0 <= i < s.len(),
    ensures
        has_key(s, s[i].0@),
        key_index(s, s[i].0@) == i,
        entries_map(s).contains_key(s[i].0@),
        entries_map(s)[s[i].0@] == s[i].1,
{
    assert(has_key(s, s[i].0@));
    let j = key_index(s, s[i].0@);
    assert(0 <= j < s.len() && s[j].0@ == s[i].0@);
    if j < i {
        assert(s[j].0@ != s[i].0@);
    } else if i < j {
        assert(s[i].0@ != s[j].0@);
    }
}

/// Overwriting the balance at index `i` leaves the keys as they were and
/// denotes the mapping with only that account's balance replaced.
proof fn lemma_update_balance(s: Seq<(String, u64)>, i: int, b: u64)
    requires
        distinct_keys(s),
        0 <= i < s.len(),
    ensures
        distinct_keys(s.update(i, (s[i].0, b))),
        entries_map(s.update(i, (s[i].0, b))) == entries_map(s).insert(s[i].0@, b),
{
    let s2 = s.update(i, (s[i].0, b));
    assert(forall|p: int| 0 <= p < s2.len() ==> s2[p].0 == s[p].0);
    assert forall|k: Seq<char>| has_key(s2, k) == has_key(s, k) by {
        if has_key(s2, k) {
            let p = choose|p: int| 0 <= p < s2.len() && s2[p].0@ == k;
            assert(s[p].0@ == k);
        }
        if has_key(s, k) {
            let p = choose|p: int| 0 <= p < s.len() && s[p].0@ == k;
            assert(s2[p].0@ == k);
        }
    }
    assert forall|k: Seq<char>| has_key(s2, k) implies entries_map(s2)[k] == entries_map(
        s,
    ).insert(s[i].0@, b)[k] by {
        let j = key_index(s2, k);
        assert(0 <= j < s2.len() && s2[j].0@ == k);
        lemma_key_index_of_entry(s, j);
        assert(key_index(s, k) == j);
        if j == i {
            assert(k == s[i].0@);
            assert(entries_map(s2)[k] == b);
        } else {
            assert(s[j].0@ != s[i].0@);
            assert(entries_map(s2)[k] == s[j].1);
        }
    }
    assert(entries_map(s2) =~= entries_map(s).insert(s[i].0@, b));
}

/// Appending an entry under a fresh key keeps the keys distinct and
/// denotes the mapping extended with that one account.
proof fn lemma_push_new(s: Seq<(String, u64)>, key: String, b: u64)
    requires
        distinct_keys(s),
        !has_key(s, key@),
    ensures
        distinct_keys(s.push((key, b))),
        entries_map(s.push((key, b))) == entries_map(s).insert(key@, b),
{
    let s2 = s.push((key, b));
    assert(forall|p: int| 0 <= p < s.len() ==> s2[p] == s[p]);
    assert(s2[s.len() as int].0@ == key@);
    assert forall|p: int, q: int| 0 <= p < q < s2.len() implies s2[p].0@ != s2[q].0@ by {
        if q < s.len() {
            assert(s[p].0@ != s[q].0@);
        } else {
            assert(s2[q].0@ == key@);
            assert(s[p].0@ != key@);
        }
    }
    assert forall|k: Seq<char>| has_key(s2, k) implies entries_map(s2)[k] == entries_map(
        s,
    ).insert(key@, b)[k] by {
        let j = key_index(s2, k);
        assert(0 <= j < s2.len() && s2[j].0@ == k);
        if j == s.len() {
            assert(entries_map(s2)[k] == b);
        } else {
            lemma_key_index_of_entry(s2, j);
            assert(s[j].0@ == k);
            lemma_key_index_of_entry(s, j);
            assert(k != key@);
        }
    }
    assert forall|k: Seq<char>| has_key(s, k) || k == key@ implies has_key(s2, k) by {
        if has_key(s, k) {
            let p = choose|p: int| 0 <= p < s.len() && s[p].0@ == k;
            assert(s2[p].0@ == k);
        } else {
            assert(s2[s.len() as int].0@ == k);
        }
    }
    assert forall|k: Seq<char>| has_key(s2, k) implies has_key(s, k) || k == key@ by {
        let p = choose|p: int| 0 <= p < s2.len() && s2[p].0@ == k;
        if p < s.len() {
            assert(s[p].0@ == k);
        }
    }
    assert(entries_map(s2) =~= entries_map(s).insert(key@, b));
}

/// Linear search for the entry carrying `key`.
fn find_index(v: &Vec<(String, u64)>, key: &String) -> (r: Option<usize>)
    ensures
        match r {
            Some(i) => 0 <= i < v@.len() && v@[i as int].0@ == key@,
            None => !has_key(v@, key@),
        },
{
    let mut i: usize = 0;
    while i < v.len()
        invariant
            i <= v@.len(),
            forall|j: int| 0 <= j < i ==> v@[j].0@ != key@,
        decreases v@.len() - i,
    {
        if v[i].0 == *key {
            return Some(i);
        }
        i = i + 1;
    }
    None
}

/// A ledger of accounts and their current balances. At most one entry per
/// account identifier; a missing identifier means the account has never
/// been deposited into.
#[derive(Debug)]
pub struct Accounts {
    accounts: Vec<(String, u64)>,
}

impl View for Accounts {
    type V = Map<Seq<char>, u64>;

    closed spec fn view(&self) -> Map<Seq<char>, u64> {
        entries_map(self.accounts@)
    }
}

impl Accounts {
    #[verifier::type_invariant]
    spec fn wf(self) -> bool {
        distinct_keys(self.accounts@)
    }

    /// Returns an empty ledger.
    pub fn new() -> (r: Self)
        ensures
            r@ == Map::<Seq<char>, u64>::empty(),
    {
        let r = Accounts { accounts: Vec::new() };
        proof {
            assert(r@ =~= Map::<Seq<char>, u64>::empty());
        }
        r
    }

    /// Deposits `amount` into the `signer` account, creating the account
    /// with balance `amount` when it does not yet exist. On overflow of the
    /// existing balance the ledger is left unchanged and the attempted
    /// amount is reported in the error.
    pub fn deposit(&mut self, signer: &str, amount: u64) -> (r: Result<Tx, ApplicationError>)
        ensures
            final(self)@ == deposit_model(old(self)@, signer@, amount).0,
            tx_res_view(r) == deposit_model(old(self)@, signer@, amount).1,
    {
        proof {
            use_type_invariant(&*self);
        }
        let key: String = signer.to_owned();
        let mut v: Vec<(String, u64)> = Vec::new();
        std::mem::swap(&mut v, &mut self.accounts);
        let ghost s0 = v@;
        match find_index(&v, &key) {
            Some(i) => {
                proof {
                    lemma_key_index_of_entry(s0, i as int);
                }
                let cur: u64 = v[i].1;
                match cur.checked_add(amount) {
                    Some(nb) => {
                        let k2 = v[i].0.clone();
                        v.set(i, (k2, nb));
                        proof {
                            lemma_update_balance(s0, i as int, nb);
                        }
                        self.accounts = v;
                        Ok(Tx::Deposit { account: key, amount })
                    },
                    None => {
                        self.accounts = v;
                        Err(ApplicationError::OverFunded(key, amount))
                    },
                }
            },
            None => {
                let k2 = key.clone();
                v.push((k2, amount));
                proof {
                    lemma_push_new(s0, key, amount);
                }
                self.accounts = v;
                Ok(Tx::Deposit { account: key, amount })
            },
        }
    }

    /// Withdraws `amount` from the `signer` account. An unknown account or
    /// a balance smaller than `amount` leaves the ledger unchanged and is
    /// reported in the error.
    pub fn withdraw(&mut self, signer: &str, amount: u64) -> (r: Result<Tx, ApplicationError>)
        ensures
            final(self)@ == withdraw_model(old(self)@, signer@, amount).0,
            tx_res_view(r) == withdraw_model(old(self)@, signer@, amount).1,
    {
        proof {
            use_type_invariant(&*self);
        }
        let key: String = signer.to_owned();
        let mut v: Vec<(String, u64)> = Vec::new();
        std::mem::swap(&mut v, &mut self.accounts);
        let ghost s0 = v@;
        match find_index(&v, &key) {
            Some(i) => {
                proof {
                    lemma_key_index_of_entry(s0, i as int);
                }
                let cur: u64 = v[i].1;
                match cur.checked_sub(amount) {
                    Some(nb) => {
                        let k2 = v[i].0.clone();
                        v.set(i, (k2, nb));
                        proof {
                            lemma_update_balance(s0, i as int, nb);
                        }
                        self.accounts = v;
                        Ok(Tx::Withdraw { account: key, amount })
                    },
                    None => {
                        self.accounts = v;
                        Err(ApplicationError::UnderFunded(key, amount))
                    },
                }
            },
            None => {
                self.accounts = v;
                Err(ApplicationError::NotFound(key))
            },
        }
    }

    /// Puts the balance of an existing account back to `bal`.
    fn restore(&mut self, key: &String, bal: u64)
        requires
            old(self)@.contains_key(key@),
        ensures
            final(self)@ == old(self)@.insert(key@, bal),
    {
        proof {
            use_type_invariant(&*self);
        }
        let mut v: Vec<(String, u64)> = Vec::new();
        std::mem::swap(&mut v, &mut self.accounts);
        let ghost s0 = v@;
        match find_index(&v, key) {
            Some(i) => {
                let k2 = v[i].0.clone();
                v.set(i, (k2, bal));
                proof {
                    lemma_update_balance(s0, i as int, bal);
                }
                self.accounts = v;
            },
            None => {
                // An account the ledger contains is always found.
                proof {
                    assert(false);
                }
                self.accounts = v;
            },
        }
    }

    /// Withdraws `amount` from the `sender` account and deposits it into
    /// the `recipient` account, atomically: when the withdrawal succeeds
    /// but crediting the recipient would overflow, the sender's balance is
    /// restored to its value before the call and the deposit's error is
    /// returned unchanged.
    pub fn send(&mut self, sender: &str, recipient: &str, amount: u64) -> (r: Result<
        (Tx, Tx),
        ApplicationError,
    >)
        ensures
            final(self)@ == send_model(old(self)@, sender@, recipient@, amount).0,
            send_res_view(r) == send_model(old(self)@, sender@, recipient@, amount).1,
    {
        let sender_key: String = sender.to_owned();
        let prev: u64 = match self.balance(sender) {
            Some(b) => b,
            None => {
                return Err(ApplicationError::NotFound(sender_key));
            },
        };
        match self.withdraw(sender, amount) {
            Ok(wtx) => match self.deposit(recipient, amount) {
                Ok(dtx) => Ok((wtx, dtx)),
                Err(e) => {
                    self.restore(&sender_key, prev);
                    proof {
                        assert(self@ =~= old(self)@);
                    }
                    Err(e)
                },
            },
            Err(e) => Err(e),
        }
    }

    /// Reads the current balance of `account`: `None` when the account has
    /// never been deposited into.
    pub fn balance(&self, account: &str) -> (r: Option<u64>)
        ensures
            r == if self@.contains_key(account@) {
                Some(self@[account@])
            } else {
                None::<u64>
            },
    {
        proof {
            use_type_invariant(&*self);
        }
        let key: String = account.to_owned();
        match find_index(&self.accounts, &key) {
            Some(i) => {
                proof {
                    lemma_key_index_of_entry(self.accounts@, i as int);
                }
                Some(self.accounts[i].1)
            },
            None => None,
        }
    }

    /// A read-only snapshot of the full account-to-balance mapping, one
    /// entry per account, for display by the caller.
    pub fn snapshot(&self) -> (r: &Vec<(String, u64)>)
        ensures
            entries_map(r@) == self@,
            distinct_keys(r@),
    {
        proof {
            use_type_invariant(&*self);
        }
        &self.accounts
    }
}

/// A deposit that fits: when account `a` holds balance `b` and `b + amount`
/// does not overflow, the deposit leaves `a` at `b + amount`, touches no
/// other account, and reports `Deposit { a, amount }`.
pub proof fn lemma_deposit_adds(m: Map<Seq<char>, u64>, a: Seq<char>, amount: u64)
    requires
        m.contains_key(a),
        m[a] + amount <= u64::MAX,
    ensures
        deposit_model(m, a, amount).0 == m.insert(a, (m[a] + amount) as u64),
        deposit_model(m, a, amount).0[a] == m[a] + amount,
        deposit_model(m, a, amount).1 == Ok::<TxView, ErrorView>(
            TxView::Deposit { account: a, amount },
        ),
{
}

/// A deposit that overflows: when account `a` holds balance `b` and
/// `b + amount` exceeds the integer width, every balance stays as it was
/// and the attempted amount is reported in `OverFunded { a, amount }`.
pub proof fn lemma_deposit_overflow_rejected(m: Map<Seq<char>, u64>, a: Seq<char>, amount: u64)
    requires
        m.contains_key(a),
        m[a] + amount > u64::MAX,
    ensures
        deposit_model(m, a, amount).0 == m,
        deposit_model(m, a, amount).1 == Err::<TxView, ErrorView>(
            ErrorView::OverFunded(a, amount),
        ),
{
}

/// A covered withdrawal: when account `a` holds balance `b` and
/// `amount <= b`, the withdrawal leaves `a` at `b - amount`, touches no
/// other account, and reports `Withdraw { a, amount }`.
pub proof fn lemma_withdraw_subtracts(m: Map<Seq<char>, u64>, a: Seq<char>, amount: u64)
    requires
        m.contains_key(a),
        amount <= m[a],
    ensures
        withdraw_model(m, a, amount).0 == m.insert(a, (m[a] - amount) as u64),
        withdraw_model(m, a, amount).0[a] == m[a] - amount,
        withdraw_model(m, a, amount).1 == Ok::<TxView, ErrorView>(
            TxView::Withdraw { account: a, amount },
        ),
{
}

/// An uncovered withdrawal: when account `a` holds balance `b` and
/// `amount > b`, every balance stays as it was and the attempted amount is
/// reported in `UnderFunded { a, amount }`.
pub proof fn lemma_withdraw_underfunded_rejected(m: Map<Seq<char>, u64>, a: Seq<char>, amount: u64)
    requires
        m.contains_key(a),
        amount > m[a],
    ensures
        withdraw_model(m, a, amount).0 == m,
        withdraw_model(m, a, amount).1 == Err::<TxView, ErrorView>(
            ErrorView::UnderFunded(a, amount),
        ),
{
}

/// A withdrawal from, or a transfer out of, an account with no balance
/// entry always answers `NotFound` for that account and mutates nothing.
pub proof fn lemma_missing_account_not_found(
    m: Map<Seq<char>, u64>,
    a: Seq<char>,
    recipient: Seq<char>,
    amount: u64,
)
    requires
        !m.contains_key(a),
    ensures
        withdraw_model(m, a, amount).0 == m,
        withdraw_model(m, a, amount).1 == Err::<TxView, ErrorView>(ErrorView::NotFound(a)),
        send_model(m, a, recipient, amount).0 == m,
        send_model(m, a, recipient, amount).1 == Err::<(TxView, TxView), ErrorView>(
            ErrorView::NotFound(a),
        ),
{
}

/// The transfer rollback law: when the withdrawal from `sender` succeeds
/// but the deposit to `recipient` fails, the transfer leaves the sender's
/// balance — and every other balance — exactly as it was before the call,
/// and the error it returns is the deposit's error, unchanged.
pub proof fn lemma_send_rollback(
    m: Map<Seq<char>, u64>,
    sender: Seq<char>,
    recipient: Seq<char>,
    amount: u64,
)
    requires
        withdraw_model(m, sender, amount).1 is Ok,
        deposit_model(withdraw_model(m, sender, amount).0, recipient, amount).1 is Err,
    ensures
        send_model(m, sender, recipient, amount).0 == m,
        send_model(m, sender, recipient, amount).0[sender] == m[sender],
        send_model(m, sender, recipient, amount).1 == Err::<(TxView, TxView), ErrorView>(
            deposit_model(withdraw_model(m, sender, amount).0, recipient, amount).1->Err_0,
        ),
{
}

/// Idempotence of failure: an operation that fails never changes any
/// balance — the mapping after the call is the mapping before it, for
/// every account at once.
pub proof fn lemma_failure_changes_nothing(
    m: Map<Seq<char>, u64>,
    sender: Seq<char>,
    recipient: Seq<char>,
    amount: u64,
)
    ensures
        deposit_model(m, sender, amount).1 is Err ==> deposit_model(m, sender, amount).0 == m,
        withdraw_model(m, sender, amount).1 is Err ==> withdraw_model(m, sender, amount).0 == m,
        send_model(m, sender, recipient, amount).1 is Err ==> send_model(
            m,
            sender,
            recipient,
            amount,
        ).0 == m,
{
}

} // verus!
