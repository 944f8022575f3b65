//! One client's ledger: available and held funds, a lock flag, and the
//! client's deposits, each with its place in the dispute lifecycle.

use crate::error::LedgerError;
use std::collections::HashMap;
use vstd::prelude::*;

verus! {

broadcast use vstd::std_specs::hash::group_hash_axioms;

/// Where a deposit stands: `Valid -> InDispute -> {Valid, ChargedBack}`;
/// `ChargedBack` is final.
#[derive(Debug, Clone, Copy, PartialEq, Eq, Structural)]
pub enum DepositState {
    Valid,
    InDispute,
    ChargedBack,
}

/// A deposit that an account has taken.
#[derive(Debug, Clone, Copy, PartialEq, Eq, Structural)]
pub struct Deposit {
    pub amount: u64,
    pub state: DepositState,
}

/// What an account holds, in mathematical terms.
pub ghost struct AccountView {
    pub available: int,
    pub held: int,
    pub locked: bool,
    pub deposits: Map<u32, Deposit>,
}

/// The amount that a deposit keeps held: all of it while in dispute, else nothing.
pub open spec fn held_part(d: Deposit) -> int {
    if d.state == DepositState::InDispute {
        d.amount as int
    } else {
        0
    }
}

/// The sum of `held_part` over the deposits under `keys`.
pub open spec fn held_sum(deposits: Map<u32, Deposit>, keys: Set<u32>) -> int
    decreases keys.len(),
    when keys.finite()
{
    if keys.len() > 0 {
        let k = keys.choose();
        held_part(deposits[k]) + held_sum(deposits, keys.remove(k))
    } else {
        0
    }
}

/// The sum of the amounts of the deposits that are in dispute.
pub open spec fn disputed_total(deposits: Map<u32, Deposit>) -> int {
    held_sum(deposits, deposits.dom())
}

impl AccountView {
    pub open spec fn total(self) -> int {
        self.available + self.held
    }

    /// Held funds are exactly the disputed deposits, and the balances fit
    /// their machine types, the total included.
    pub open spec fn wf(self) -> bool {
        &&& self.deposits.dom().finite()
        &&& self.held == disputed_total(self.deposits)
        &&& i64::MIN <= self.available
        &&& 0 <= self.held
        &&& self.total() <= i64::MAX
    }

    /// A deposit fails on a locked account, and where the total would pass the
    /// largest signed balance.
    pub open spec fn deposit_result(self, amount: u64) -> Result<(), LedgerError> {
        if self.locked {
            Err(LedgerError::AccountLocked)
        } else if self.total() + amount > i64::MAX {
            Err(LedgerError::BalanceOverflow)
        } else {
            Ok(())
        }
    }

    pub open spec fn after_deposit(self, tx_id: u32, amount: u64) -> AccountView {
        AccountView {
            available: self.available + amount,
            deposits: self.deposits.insert(tx_id, Deposit { amount, state: DepositState::Valid }),
            ..self
        }
    }

    /// A withdrawal fails on a locked account, and where it exceeds the
    /// available funds.
    pub open spec fn withdraw_result(self, amount: u64) -> Result<(), LedgerError> {
        if self.locked {
            Err(LedgerError::AccountLocked)
        } else if self.available < amount {
            Err(LedgerError::InsufficientFunds)
        } else {
            Ok(())
        }
    }

    pub open spec fn after_withdraw(self, amount: u64) -> AccountView {
        AccountView { available: self.available - amount, ..self }
    }

    /// Only a valid deposit can be disputed, locked account or not; the dispute
    /// also fails where the available funds would fall below the smallest
    /// signed balance.
    pub open spec fn dispute_result(self, tx_id: u32) -> Result<(), LedgerError> {
        if !self.deposits.contains_key(tx_id) {
            Err(LedgerError::DepositNotFound)
        } else if self.deposits[tx_id].state != DepositState::Valid {
            Err(LedgerError::InvalidDepositState)
        } else if self.available - self.deposits[tx_id].amount < i64::MIN {
            Err(LedgerError::BalanceOverflow)
        } else {
            Ok(())
        }
    }

    pub open spec fn after_dispute(self, tx_id: u32) -> AccountView {
        let d = self.deposits[tx_id];
        AccountView {
            available: self.available - d.amount,
            held: self.held + d.amount,
            deposits: self.deposits.insert(
                tx_id,
                Deposit { amount: d.amount, state: DepositState::InDispute },
            ),
            ..self
        }
    }

    /// Resolving and charging back both need a deposit that is in dispute.
    pub open spec fn settle_result(self, tx_id: u32) -> Result<(), LedgerError> {
        if !self.deposits.contains_key(tx_id) {
            Err(LedgerError::DepositNotFound)
        } else if self.deposits[tx_id].state != DepositState::InDispute {
            Err(LedgerError::InvalidDepositState)
        } else {
            Ok(())
        }
    }

    pub open spec fn after_resolve(self, tx_id: u32) -> AccountView {
        let d = self.deposits[tx_id];
        AccountView {
            available: self.available + d.amount,
            held: self.held - d.amount,
            deposits: self.deposits.insert(
                tx_id,
                Deposit { amount: d.amount, state: DepositState::Valid },
            ),
            ..self
        }
    }

    pub open spec fn after_chargeback(self, tx_id: u32) -> AccountView {
        let d = self.deposits[tx_id];
        AccountView {
            held: self.held - d.amount,
            locked: true,
            deposits: self.deposits.insert(
                tx_id,
                Deposit { amount: d.amount, state: DepositState::ChargedBack },
            ),
            ..self
        }
    }

    /// A deposit: the outcome, and the account after it (unchanged on failure).
    pub open spec fn deposit_step(self, tx_id: u32, amount: u64) -> (
        AccountView,
        Result<(), LedgerError>,
    ) {
        let r = self.deposit_result(amount);
        (if r is Ok { self.after_deposit(tx_id, amount) } else { self }, r)
    }

    pub open spec fn withdraw_step(self, amount: u64) -> (
        AccountView,
        Result<(), LedgerError>,
    ) {
        let r = self.withdraw_result(amount);
        (if r is Ok { self.after_withdraw(amount) } else { self }, r)
    }

    pub open spec fn dispute_step(self, tx_id: u32) -> (
        AccountView,
        Result<(), LedgerError>,
    ) {
        let r = self.dispute_result(tx_id);
        (if r is Ok { self.after_dispute(tx_id) } else { self }, r)
    }

    pub open spec fn resolve_step(self, tx_id: u32) -> (
        AccountView,
        Result<(), LedgerError>,
    ) {
        let r = self.settle_result(tx_id);
        (if r is Ok { self.after_resolve(tx_id) } else { self }, r)
    }

    pub open spec fn chargeback_step(self, tx_id: u32) -> (
        AccountView,
        Result<(), LedgerError>,
    ) {
        let r = self.settle_result(tx_id);
        (if r is Ok { self.after_chargeback(tx_id) } else { self }, r)
    }
}

/// The state of a freshly opened account.
pub open spec fn fresh_account() -> AccountView {
    AccountView { available: 0, held: 0, locked: false, deposits: Map::empty() }
}

proof fn lemma_held_sum_nonneg(deposits: Map<u32, Deposit>, keys: Set<u32>)
    requires
        keys.finite(),
    ensures
        held_sum(deposits, keys) >= 0,
    decreases keys.len(),
{
    if keys.len() > 0 {
        lemma_held_sum_nonneg(deposits, keys.remove(keys.choose()));
    }
}

/// Any key of the set can be taken out first.
proof fn lemma_held_sum_remove(deposits: Map<u32, Deposit>, keys: Set<u32>, k: u32)
    requires
        keys.finite(),
        keys.contains(k),
    ensures
        held_sum(deposits, keys) == held_part(deposits[k]) + held_sum(deposits, keys.remove(k)),
    decreases keys.len(),
{
    let c = keys.choose();
    if c != k {
        lemma_held_sum_remove(deposits, keys.remove(c), k);
        lemma_held_sum_remove(deposits, keys.remove(k), c);
        assert(keys.remove(c).remove(k) =~= keys.remove(k).remove(c));
    }
}

/// The sum reads the deposits under `keys` only.
proof fn lemma_held_sum_agree(a: Map<u32, Deposit>, b: Map<u32, Deposit>, keys: Set<u32>)
    requires
        keys.finite(),
        forall|k: u32| keys.contains(k) ==> a[k] == b[k],
    ensures
        held_sum(a, keys) == held_sum(b, keys),
    decreases keys.len(),
{
    if keys.len() > 0 {
        lemma_held_sum_agree(a, b, keys.remove(keys.choose()));
    }
}

proof fn lemma_disputed_total_insert(deposits: Map<u32, Deposit>, k: u32, d: Deposit)
    requires
        deposits.dom().finite(),
    ensures
        disputed_total(deposits.insert(k, d)) == disputed_total(deposits) + held_part(d) - (
        if deposits.contains_key(k) {
            held_part(deposits[k])
        } else {
            0
        }),
{
    let after = deposits.insert(k, d);
    let rest = deposits.dom().remove(k);
    lemma_held_sum_remove(after, after.dom(), k);
    assert(after.dom().remove(k) =~= rest);
    lemma_held_sum_agree(after, deposits, rest);
    if deposits.contains_key(k) {
        lemma_held_sum_remove(deposits, deposits.dom(), k);
    } else {
        assert(rest =~= deposits.dom());
    }
}

proof fn lemma_disputed_total_covers(deposits: Map<u32, Deposit>, k: u32)
    requires
        deposits.dom().finite(),
        deposits.contains_key(k),
    ensures
        disputed_total(deposits) >= held_part(deposits[k]),
{
    lemma_held_sum_remove(deposits, deposits.dom(), k);
    lemma_held_sum_nonneg(deposits, deposits.dom().remove(k));
}

/// Two deposits into a fresh account, whose sum fits the balance range, both
/// succeed and leave exactly their sum available and nothing held.
pub proof fn lemma_two_deposits_into_fresh_account(tx1: u32, a1: u64, tx2: u32, a2: u64)
    requires
        a1 + a2 <= i64::MAX,
    ensures
        ({
            let (first, r1) = fresh_account().deposit_step(tx1, a1);
            let (second, r2) = first.deposit_step(tx2, a2);
            &&& r1 is Ok
            &&& r2 is Ok
            &&& second.available == a1 + a2
            &&& second.held == 0
        }),
{
}

/// Disputing a valid deposit of amount `a` moves exactly `a` from available to
/// held; resolving that dispute gives back the account exactly as it was;
/// charging it back instead takes `a` out of held, leaves available as it is,
/// and locks the account.
pub proof fn lemma_dispute_lifecycle(v: AccountView, tx_id: u32)
    requires
        v.deposits.contains_key(tx_id),
        v.deposits[tx_id].state == DepositState::Valid,
        v.available - v.deposits[tx_id].amount >= i64::MIN,
    ensures
        ({
            let a = v.deposits[tx_id].amount;
            let (disputed, rd) = v.dispute_step(tx_id);
            let (charged, rc) = disputed.chargeback_step(tx_id);
            &&& rd is Ok
            &&& disputed.available == v.available - a
            &&& disputed.held == v.held + a
            &&& disputed.resolve_step(tx_id) == (v, Ok::<(), LedgerError>(()))
            &&& rc is Ok
            &&& charged.available == disputed.available
            &&& charged.held == disputed.held - a
            &&& charged.locked
        }),
{
    let disputed = v.dispute_step(tx_id).0;
    assert(disputed.after_resolve(tx_id).deposits =~= v.deposits);
}

/// A deposit in dispute cannot be disputed again: the second dispute fails
/// with `InvalidDepositState` and leaves the account as it was.
pub proof fn lemma_second_dispute_rejected(v: AccountView, tx_id: u32)
    requires
        v.dispute_result(tx_id) is Ok,
    ensures
        ({
            let disputed = v.dispute_step(tx_id).0;
            disputed.dispute_step(tx_id) == (disputed, Err::<(), LedgerError>(
                LedgerError::InvalidDepositState,
            ))
        }),
{
}

/// A withdrawal from an unlocked account that exceeds the available funds
/// fails with `InsufficientFunds` and leaves the account as it was.
pub proof fn lemma_overdraft_rejected(v: AccountView, amount: u64)
    requires
        !v.locked,
        amount > v.available,
    ensures
        v.withdraw_step(amount) == (v, Err::<(), LedgerError>(LedgerError::InsufficientFunds)),
{
}

/// One client's balances and deposits.
pub struct Account {
    available_amount: i64,
    held_amount: u64,
    locked: bool,
    deposits: HashMap<u32, Deposit>,
}

impl View for Account {
    type V = AccountView;

    closed spec fn view(&self) -> AccountView {
        AccountView {
            available: self.available_amount as int,
            held: self.held_amount as int,
            locked: self.locked,
            deposits: self.deposits@,
        }
    }
}

impl Account {
    pub open spec fn wf(&self) -> bool {
        self@.wf()
    }

    /// An unlocked account with no funds and no deposits.
    pub fn new() -> (r: Self)
        ensures
            r.wf(),
            r@ == fresh_account(),
    {
        let r = Account {
            available_amount: 0,
            held_amount: 0,
            locked: false,
            deposits: HashMap::new(),
        };
        proof {
            assert(r.deposits@.dom() =~= Set::<u32>::empty());
        }
        r
    }

    /// Takes a deposit under a transaction id that this account has not seen:
    /// the amount becomes available and the deposit can later be disputed.
    pub fn deposit(&mut self, tx_id: u32, amount: u64) -> (r: Result<(), LedgerError>)
        requires
            old(self).wf(),
            !old(self)@.deposits.contains_key(tx_id),
        ensures
            final(self).wf(),
            (final(self)@, r) == old(self)@.deposit_step(tx_id, amount),
    {
        if self.locked {
            return Err(LedgerError::AccountLocked);
        }
        if self.available_amount as i128 + self.held_amount as i128 + amount as i128
            > i64::MAX as i128 {
            return Err(LedgerError::BalanceOverflow);
        }
        let d = Deposit { amount, state: DepositState::Valid };
        proof {
            lemma_disputed_total_insert(self.deposits@, tx_id, d);
        }
        self.deposits.insert(tx_id, d);
        self.available_amount = (self.available_amount as i128 + amount as i128) as i64;
        Ok(())
    }

    /// Takes `amount` out of the available funds, which must cover it.
    pub fn withdraw(&mut self, amount: u64) -> (r: Result<(), LedgerError>)
        requires
            old(self).wf(),
        ensures
            final(self).wf(),
            (final(self)@, r) == old(self)@.withdraw_step(amount),
    {
        if self.locked {
            return Err(LedgerError::AccountLocked);
        }
        if (self.available_amount as i128) < amount as i128 {
            return Err(LedgerError::InsufficientFunds);
        }
        self.available_amount = self.available_amount - amount as i64;
        Ok(())
    }

    /// Puts a valid deposit in dispute: its amount moves from available to held.
    /// Available funds may go below zero.
    pub fn start_dispute(&mut self, tx_id: u32) -> (r: Result<(), LedgerError>)
        requires
            old(self).wf(),
        ensures
            final(self).wf(),
            (final(self)@, r) == old(self)@.dispute_step(tx_id),
    {
        let d = match self.deposits.get(&tx_id) {
            Some(d) => *d,
            None => return Err(LedgerError::DepositNotFound),
        };
        match d.state {
            DepositState::Valid => {},
            DepositState::InDispute | DepositState::ChargedBack => {
                return Err(LedgerError::InvalidDepositState);
            },
        }
        if (self.available_amount as i128) - (d.amount as i128) < i64::MIN as i128 {
            return Err(LedgerError::BalanceOverflow);
        }
        let updated = Deposit { amount: d.amount, state: DepositState::InDispute };
        proof {
            lemma_disputed_total_insert(self.deposits@, tx_id, updated);
        }
        self.deposits.insert(tx_id, updated);
        self.available_amount = (self.available_amount as i128 - d.amount as i128) as i64;
        self.held_amount = self.held_amount + d.amount;
        Ok(())
    }

    /// Ends the dispute of a deposit in its favour: its amount moves from held
    /// back to available.
    pub fn resolve_dispute(&mut self, tx_id: u32) -> (r: Result<(), LedgerError>)
        requires
            old(self).wf(),
        ensures
            final(self).wf(),
            (final(self)@, r) == old(self)@.resolve_step(tx_id),
    {
        let d = match self.deposits.get(&tx_id) {
            Some(d) => *d,
            None => return Err(LedgerError::DepositNotFound),
        };
        match d.state {
            DepositState::InDispute => {},
            DepositState::Valid | DepositState::ChargedBack => {
                return Err(LedgerError::InvalidDepositState);
            },
        }
        let updated = Deposit { amount: d.amount, state: DepositState::Valid };
        proof {
            lemma_disputed_total_covers(self.deposits@, tx_id);
            lemma_disputed_total_insert(self.deposits@, tx_id, updated);
        }
        self.deposits.insert(tx_id, updated);
        self.held_amount = self.held_amount - d.amount;
        self.available_amount = (self.available_amount as i128 + d.amount as i128) as i64;
        Ok(())
    }

    /// Ends the dispute of a deposit against it: its amount leaves the held
    /// funds and the account is locked.
    pub fn chargeback(&mut self, tx_id: u32) -> (r: Result<(), LedgerError>)
        requires
            old(self).wf(),
        ensures
            final(self).wf(),
            (final(self)@, r) == old(self)@.chargeback_step(tx_id),
    {
        let d = match self.deposits.get(&tx_id) {
            Some(d) => *d,
            None => return Err(LedgerError::DepositNotFound),
        };
        match d.state {
            DepositState::InDispute => {},
            DepositState::Valid | DepositState::ChargedBack => {
                return Err(LedgerError::InvalidDepositState);
            },
        }
        let updated = Deposit { amount: d.amount, state: DepositState::ChargedBack };
        proof {
            lemma_disputed_total_covers(self.deposits@, tx_id);
            lemma_disputed_total_insert(self.deposits@, tx_id, updated);
        }
        self.deposits.insert(tx_id, updated);
        self.held_amount = self.held_amount - d.amount;
        self.locked = true;
        Ok(())
    }

    pub fn available_amount(&self) -> (r: i64)
        ensures
            r == self@.available,
    {
        self.available_amount
    }

    pub fn held_amount(&self) -> (r: u64)
        ensures
            r == self@.held,
    {
        self.held_amount
    }

    pub fn is_locked(&self) -> (r: bool)
        ensures
            r == self@.locked,
    {
        self.locked
    }

    /// How many deposits the account has taken.
    pub fn deposit_count(&self) -> (r: usize)
        ensures
            r == self@.deposits.len(),
    {
        self.deposits.len()
    }
}

} // verus!
