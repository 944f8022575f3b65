//! The engine: every client's account, and the transaction ids that deposits
//! and withdrawals have used across all clients.

use crate::account::{fresh_account, Account, AccountView};
use crate::amount::{
    amount_text, fixed_point_4_decimal_to_float_str, signed_amount_text,
    signed_fixed_point_4_decimal_to_float_str,
};
use crate::error::LedgerError;
use crate::transaction::Transaction;
use std::collections::{HashMap, HashSet};
use vstd::std_specs::hash::spec_hash_map_iter;
use vstd::std_specs::iter::IteratorSpec;
use vstd::prelude::*;

verus! {

broadcast use vstd::std_specs::hash::group_hash_axioms;

/// What the engine holds, in mathematical terms.
pub ghost struct EngineView {
    pub accounts: Map<u16, AccountView>,
    pub used_tx_ids: Set<u32>,
}

impl EngineView {
    /// Every account is well formed, and every deposit's id is among the used ids.
    pub open spec fn wf(self) -> bool {
        &&& self.accounts.dom().finite()
        &&& forall|c: u16| #[trigger]
            self.accounts.contains_key(c) ==> {
                &&& self.accounts[c].wf()
                &&& forall|t: u32| #[trigger]
                    self.accounts[c].deposits.contains_key(t) ==> self.used_tx_ids.contains(t)
            }
    }

    /// A client's account, or a fresh one for a client not seen yet.
    pub open spec fn account_or_fresh(self, client_id: u16) -> AccountView {
        if self.accounts.contains_key(client_id) {
            self.accounts[client_id]
        } else {
            fresh_account()
        }
    }

    /// The engine after `client_id`'s account became `acct`.
    pub open spec fn with_account(self, client_id: u16, acct: AccountView) -> EngineView {
        EngineView { accounts: self.accounts.insert(client_id, acct), ..self }
    }

    /// Runs a step of an existing client's account, or fails with
    /// `AccountNotFound` for an unknown client.
    pub open spec fn on_account(
        self,
        client_id: u16,
        step: spec_fn(AccountView) -> (AccountView, Result<(), LedgerError>),
    ) -> (EngineView, Result<(), LedgerError>) {
        if self.accounts.contains_key(client_id) {
            let (acct, r) = step(self.accounts[client_id]);
            (self.with_account(client_id, acct), r)
        } else {
            (self, Err(LedgerError::AccountNotFound))
        }
    }

    /// One transaction: the outcome, and the engine after it.
    ///
    /// A deposit or withdrawal whose id was used before fails with
    /// `DuplicateTransactionId` and changes nothing. Otherwise its id is used
    /// from then on, whatever the account operation returns. A successful
    /// deposit opens an account for a client not seen yet; every other kind
    /// needs one. Apart from the used id, a failed transaction changes nothing.
    pub open spec fn process_step(self, t: Transaction) -> (EngineView, Result<(), LedgerError>) {
        match t {
            Transaction::Deposit { client_id, tx_id, amount } => {
                if self.used_tx_ids.contains(tx_id) {
                    (self, Err(LedgerError::DuplicateTransactionId))
                } else {
                    let (acct, r) = self.account_or_fresh(client_id).deposit_step(tx_id, amount);
                    (
                        EngineView {
                            accounts: if r is Ok {
                                self.accounts.insert(client_id, acct)
                            } else {
                                self.accounts
                            },
                            used_tx_ids: self.used_tx_ids.insert(tx_id),
                        },
                        r,
                    )
                }
            },
            Transaction::Withdrawal { client_id, tx_id, amount } => {
                if self.used_tx_ids.contains(tx_id) {
                    (self, Err(LedgerError::DuplicateTransactionId))
                } else {
                    let marked = EngineView {
                        used_tx_ids: self.used_tx_ids.insert(tx_id),
                        ..self
                    };
                    marked.on_account(client_id, |a: AccountView| a.withdraw_step(amount))
                }
            },
            Transaction::Dispute { client_id, tx_id } => self.on_account(
                client_id,
                |a: AccountView| a.dispute_step(tx_id),
            ),
            Transaction::Resolve { client_id, tx_id } => self.on_account(
                client_id,
                |a: AccountView| a.resolve_step(tx_id),
            ),
            Transaction::Chargeback { client_id, tx_id } => self.on_account(
                client_id,
                |a: AccountView| a.chargeback_step(tx_id),
            ),
        }
    }
}

/// The id that a transaction takes up: deposits and withdrawals take theirs;
/// the dispute operations only refer to a deposit's.
pub open spec fn consumed_id(t: Transaction) -> Option<u32> {
    match t {
        Transaction::Deposit { tx_id, .. } => Some(tx_id),
        Transaction::Withdrawal { tx_id, .. } => Some(tx_id),
        _ => None,
    }
}

/// The engine after the transactions of `ts`, in order, whatever each returned.
pub open spec fn replay(e: EngineView, ts: Seq<Transaction>) -> EngineView
    decreases ts.len(),
{
    if ts.len() == 0 {
        e
    } else {
        replay(e, ts.drop_last()).process_step(ts.last()).0
    }
}

/// No transaction gives an id back once it is used.
pub proof fn lemma_used_ids_persist(e: EngineView, ts: Seq<Transaction>)
    ensures
        e.used_tx_ids.subset_of(replay(e, ts).used_tx_ids),
    decreases ts.len(),
{
    if ts.len() > 0 {
        lemma_used_ids_persist(e, ts.drop_last());
    }
}

/// Once a deposit has taken a transaction id, a deposit or withdrawal with that
/// id later in the stream, for any client, fails with `DuplicateTransactionId`
/// and changes nothing.
pub proof fn lemma_reused_tx_id_rejected(
    e: EngineView,
    client_id: u16,
    tx_id: u32,
    amount: u64,
    between: Seq<Transaction>,
    next: Transaction,
)
    requires
        consumed_id(next) == Some(tx_id),
    ensures
        ({
            let first = e.process_step(Transaction::Deposit { client_id, tx_id, amount }).0;
            let before = replay(first, between);
            before.process_step(next) == (before, Err::<(), LedgerError>(
                LedgerError::DuplicateTransactionId,
            ))
        }),
{
    let first = e.process_step(Transaction::Deposit { client_id, tx_id, amount }).0;
    assert(first.used_tx_ids.contains(tx_id));
    lemma_used_ids_persist(first, between);
}

/// One line of the balance report.
pub struct BalanceRow {
    pub client: u16,
    pub available: String,
    pub held: String,
    pub total: String,
    pub locked: bool,
}

/// `row` reports `client`'s account `acct`: amounts with four fractional
/// digits, a minus sign only where negative.
pub open spec fn row_shows(row: BalanceRow, client: u16, acct: AccountView) -> bool {
    &&& row.client == client
    &&& row.available@ == signed_amount_text(acct.available)
    &&& row.held@ == amount_text(acct.held as nat)
    &&& row.total@ == signed_amount_text(acct.total())
    &&& row.locked == acct.locked
}

fn balance_row(client: u16, acct: &Account) -> (r: BalanceRow)
    requires
        acct.wf(),
    ensures
        row_shows(r, client, acct@),
{
    let available = acct.available_amount();
    let held = acct.held_amount();
    let total = (available as i128 + held as i128) as i64;
    BalanceRow {
        client,
        available: signed_fixed_point_4_decimal_to_float_str(available),
        held: fixed_point_4_decimal_to_float_str(held),
        total: signed_fixed_point_4_decimal_to_float_str(total),
        locked: acct.is_locked(),
    }
}

/// All accounts, keyed by client id, and the ids that deposits and
/// withdrawals have used.
pub struct Engine {
    accounts: HashMap<u16, Account>,
    transactions: HashSet<u32>,
}

impl View for Engine {
    type V = EngineView;

    closed spec fn view(&self) -> EngineView {
        EngineView {
            accounts: self.accounts@.map_values(|a: Account| a@),
            used_tx_ids: self.transactions@,
        }
    }
}

impl Engine {
    pub open spec fn wf(&self) -> bool {
        self@.wf()
    }

    /// An engine with no accounts and no used ids.
    pub fn new() -> (r: Self)
        ensures
            r.wf(),
            r@.accounts == Map::<u16, AccountView>::empty(),
            r@.used_tx_ids == Set::<u32>::empty(),
    {
        let r = Engine { accounts: HashMap::new(), transactions: HashSet::new() };
        proof {
            assert(r@.accounts =~= Map::<u16, AccountView>::empty());
        }
        r
    }

    /// Takes a client's account out of the map, to work on it.
    fn take_account(&mut self, client_id: u16) -> (r: Option<Account>)
        requires
            old(self).wf(),
        ensures
            final(self).transactions@ == old(self).transactions@,
            final(self)@.accounts == old(self)@.accounts.remove(client_id),
            match r {
                Some(a) => old(self)@.accounts.contains_key(client_id) && a@ == old(
                    self,
                )@.accounts[client_id] && a.wf(),
                None => !old(self)@.accounts.contains_key(client_id) && final(self)@ == old(
                    self,
                )@,
            },
    {
        let r = self.accounts.remove(&client_id);
        proof {
            assert(self@.accounts =~= old(self)@.accounts.remove(client_id));
            if old(self)@.accounts.contains_key(client_id) {
                assert(old(self)@.accounts[client_id] == old(self).accounts@[client_id]@);
                assert(old(self)@.accounts[client_id].wf());
            } else {
                assert(self@.accounts =~= old(self)@.accounts);
            }
        }
        r
    }

    /// Puts a client's account (back) into the map.
    fn put_account(&mut self, client_id: u16, acct: Account)
        ensures
            final(self).transactions@ == old(self).transactions@,
            final(self)@.accounts == old(self)@.accounts.insert(client_id, acct@),
    {
        self.accounts.insert(client_id, acct);
        proof {
            assert(self@.accounts =~= old(self)@.accounts.insert(client_id, acct@));
        }
    }

    /// One row per account, in no particular order.
    pub fn snapshot(&self) -> (rows: Vec<BalanceRow>)
        requires
            self.wf(),
        ensures
            rows.len() == self@.accounts.dom().len(),
            forall|i: int|
                0 <= i < rows.len() ==> self@.accounts.contains_key(#[trigger] rows[i].client)
                    && row_shows(rows[i], rows[i].client, self@.accounts[rows[i].client]),
            forall|c: u16|
                self@.accounts.contains_key(c) ==> exists|i: int|
                    0 <= i < rows.len() && #[trigger] rows[i].client == c,
            forall|i: int, j: int|
                0 <= i < j < rows.len() ==> rows[i].client != rows[j].client,
    {
        let mut rows: Vec<BalanceRow> = Vec::new();
        let ghost v = spec_hash_map_iter(&self.accounts).remaining();
        for (client_id, acct) in it: self.accounts.iter()
            invariant
                self.wf(),
                it.seq() == v,
                rows.len() == it.index(),
                forall|i: int|
                    0 <= i < rows.len() ==> #[trigger] rows[i].client == *v[i].0
                        && row_shows(rows[i], rows[i].client, self@.accounts[rows[i].client]),
        {
            proof {
                assert(self.accounts@.contains_key(*client_id));
                assert(self@.accounts[*client_id] == acct@);
                assert(self@.accounts.contains_key(*client_id));
            }
            rows.push(balance_row(*client_id, acct));
        }
        proof {
            assert(self@.accounts.dom() == self.accounts@.dom());
            assert forall|c: u16| self@.accounts.contains_key(c) implies exists|i: int|
                0 <= i < rows.len() && #[trigger] rows[i].client == c by {
                assert(self.accounts@.contains_key(c));
                let i = v.index_of((&c, &self.accounts@[c]));
                assert(rows[i].client == c);
            }
            assert forall|i: int, j: int| 0 <= i < j < rows.len() implies rows[i].client
                != rows[j].client by {
                if rows[i].client == rows[j].client {
                    assert(v[i] == v[j]);
                }
            }
        }
        rows
    }

    /// Applies one transaction. A rejected transaction is reported in the
    /// result; see `EngineView::process_step` for what it still changes.
    pub fn process_transaction(&mut self, transaction: Transaction) -> (r: Result<
        (),
        LedgerError,
    >)
        requires
            old(self).wf(),
        ensures
            final(self).wf(),
            (final(self)@, r) == old(self)@.process_step(transaction),
    {
        match transaction {
            Transaction::Deposit { client_id, tx_id, amount } => {
                if !self.transactions.insert(tx_id) {
                    proof {
                        assert(self.transactions@ =~= old(self).transactions@);
                        assert(self@ == old(self)@);
                    }
                    return Err(LedgerError::DuplicateTransactionId);
                }
                let ghost before = self@;
                let (mut acct, existed) = match self.take_account(client_id) {
                    Some(a) => (a, true),
                    None => (Account::new(), false),
                };
                let r = acct.deposit(tx_id, amount);
                if r.is_ok() || existed {
                    let ghost after = acct@;
                    self.put_account(client_id, acct);
                    proof {
                        assert(self@.accounts =~= before.accounts.insert(client_id, after));
                        if r.is_err() {
                            assert(self@.accounts =~= before.accounts);
                        }
                    }
                }
                r
            },
            Transaction::Withdrawal { client_id, tx_id, amount } => {
                if !self.transactions.insert(tx_id) {
                    proof {
                        assert(self.transactions@ =~= old(self).transactions@);
                        assert(self@ == old(self)@);
                    }
                    return Err(LedgerError::DuplicateTransactionId);
                }
                let mut acct = match self.take_account(client_id) {
                    Some(a) => a,
                    None => return Err(LedgerError::AccountNotFound),
                };
                let r = acct.withdraw(amount);
                let ghost after = acct@;
                self.put_account(client_id, acct);
                proof {
                    assert(self@.accounts =~= old(self)@.accounts.insert(client_id, after));
                }
                r
            },
            Transaction::Dispute { client_id, tx_id } => {
                let mut acct = match self.take_account(client_id) {
                    Some(a) => a,
                    None => return Err(LedgerError::AccountNotFound),
                };
                let r = acct.start_dispute(tx_id);
                let ghost after = acct@;
                self.put_account(client_id, acct);
                proof {
                    assert(self@.accounts =~= old(self)@.accounts.insert(client_id, after));
                }
                r
            },
            Transaction::Resolve { client_id, tx_id } => {
                let mut acct = match self.take_account(client_id) {
                    Some(a) => a,
                    None => return Err(LedgerError::AccountNotFound),
                };
                let r = acct.resolve_dispute(tx_id);
                let ghost after = acct@;
                self.put_account(client_id, acct);
                proof {
                    assert(self@.accounts =~= old(self)@.accounts.insert(client_id, after));
                }
                r
            },
            Transaction::Chargeback { client_id, tx_id } => {
                let mut acct = match self.take_account(client_id) {
                    Some(a) => a,
                    None => return Err(LedgerError::AccountNotFound),
                };
                let r = acct.chargeback(tx_id);
                let ghost after = acct@;
                self.put_account(client_id, acct);
                proof {
                    assert(self@.accounts =~= old(self)@.accounts.insert(client_id, after));
                }
                r
            },
        }
    }
}

} // verus!
