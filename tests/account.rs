use ledger_engine::account::Account;
use ledger_engine::error::LedgerError;
use std::ops::Not;

#[test]
fn test_account_flow() {
    let mut account = Account::new();
    assert_eq!(account.available_amount(), 0);
    assert_eq!(account.held_amount(), 0);
    assert!(account.is_locked().not());
    assert_eq!(account.deposit_count(), 0);

    // Make 2 deposits totalling 60
    account.deposit(1, 20).unwrap();
    account.deposit(2, 40).unwrap();
    assert_eq!(account.available_amount(), 60);
    assert_eq!(account.held_amount(), 0);

    // Check disputing tx 1
    account.start_dispute(1).unwrap();
    assert_eq!(account.available_amount(), 40);
    assert_eq!(account.held_amount(), 20);

    // Check resolving tx 1
    account.resolve_dispute(1).unwrap();
    assert_eq!(account.available_amount(), 60);
    assert_eq!(account.held_amount(), 0);

    // Check dispute can be started again + can't dispute same tx again
    account.start_dispute(1).unwrap();
    assert!(account.start_dispute(1).is_err());
    assert_eq!(account.available_amount(), 40);
    assert_eq!(account.held_amount(), 20);

    // Check having multiple in-progress disputes
    account.start_dispute(2).unwrap();
    assert_eq!(account.available_amount(), 0);
    assert_eq!(account.held_amount(), 60);

    // Resolve all disputes
    account.resolve_dispute(1).unwrap();
    account.resolve_dispute(2).unwrap();
    assert_eq!(account.available_amount(), 60);
    assert_eq!(account.held_amount(), 0);

    // Chargeback non disputed tx returns error
    assert!(account.chargeback(1).is_err());
    assert_eq!(account.available_amount(), 60);
    assert_eq!(account.held_amount(), 0);

    // Check chargeback
    account.start_dispute(1).unwrap();
    account.chargeback(1).unwrap();
    assert_eq!(account.available_amount(), 40);
    assert_eq!(account.held_amount(), 0);
    assert!(account.is_locked());
}

#[test]
fn test_account_chargeback_after_withdrawal_flow() {
    let mut account = Account::new();
    account.deposit(1, 100).unwrap();
    account.deposit(2, 50).unwrap();
    assert_eq!(account.available_amount(), 150);
    assert_eq!(account.held_amount(), 0);

    account.withdraw(100).unwrap();
    assert_eq!(account.available_amount(), 50);
    assert_eq!(account.held_amount(), 0);

    account.start_dispute(1).unwrap();
    assert_eq!(account.available_amount(), -50);
    assert_eq!(account.held_amount(), 100);

    account.deposit(3, 25).unwrap();
    assert_eq!(account.available_amount(), -25);
    assert_eq!(account.held_amount(), 100);

    account.start_dispute(3).unwrap();
    assert_eq!(account.available_amount(), -50);
    assert_eq!(account.held_amount(), 125);

    account.resolve_dispute(3).unwrap();
    assert_eq!(account.available_amount(), -25);
    assert_eq!(account.held_amount(), 100);

    account.chargeback(1).unwrap();
    assert_eq!(account.available_amount(), -25);
    assert_eq!(account.held_amount(), 0);
    assert!(account.is_locked());
}

#[test]
fn two_deposits_into_a_fresh_account_add_up() {
    let mut account = Account::new();
    account.deposit(10, 12_345).unwrap();
    account.deposit(11, 67_890).unwrap();
    assert_eq!(account.available_amount(), 80_235);
    assert_eq!(account.held_amount(), 0);
    assert_eq!(account.deposit_count(), 2);
}

#[test]
fn dispute_resolve_and_chargeback_move_the_exact_amount() {
    let mut account = Account::new();
    account.deposit(1, 500).unwrap();
    account.deposit(2, 300).unwrap();
    account.start_dispute(1).unwrap();
    assert_eq!((account.available_amount(), account.held_amount()), (300, 500));
    account.resolve_dispute(1).unwrap();
    assert_eq!((account.available_amount(), account.held_amount()), (800, 0));
    assert!(account.is_locked().not());
    account.start_dispute(2).unwrap();
    account.chargeback(2).unwrap();
    assert_eq!((account.available_amount(), account.held_amount()), (500, 0));
    assert!(account.is_locked());
}

#[test]
fn second_dispute_of_a_deposit_is_rejected() {
    let mut account = Account::new();
    account.deposit(1, 70).unwrap();
    account.start_dispute(1).unwrap();
    assert_eq!(account.start_dispute(1), Err(LedgerError::InvalidDepositState));
    assert_eq!((account.available_amount(), account.held_amount()), (0, 70));
}

#[test]
fn overdraft_is_rejected_and_changes_nothing() {
    let mut account = Account::new();
    account.deposit(1, 100).unwrap();
    assert_eq!(account.withdraw(101), Err(LedgerError::InsufficientFunds));
    assert_eq!((account.available_amount(), account.held_amount()), (100, 0));
    assert_eq!(account.withdraw(u64::MAX), Err(LedgerError::InsufficientFunds));
    assert_eq!(account.withdraw(100), Ok(()));
    assert_eq!(account.available_amount(), 0);
}

#[test]
fn unknown_or_settled_deposits_cannot_be_disputed() {
    let mut account = Account::new();
    assert_eq!(account.start_dispute(9), Err(LedgerError::DepositNotFound));
    assert_eq!(account.resolve_dispute(9), Err(LedgerError::DepositNotFound));
    assert_eq!(account.chargeback(9), Err(LedgerError::DepositNotFound));
    account.deposit(9, 10).unwrap();
    assert_eq!(account.resolve_dispute(9), Err(LedgerError::InvalidDepositState));
    account.start_dispute(9).unwrap();
    account.chargeback(9).unwrap();
    assert_eq!(account.start_dispute(9), Err(LedgerError::InvalidDepositState));
    assert_eq!(account.resolve_dispute(9), Err(LedgerError::InvalidDepositState));
    assert_eq!(account.chargeback(9), Err(LedgerError::InvalidDepositState));
}

#[test]
fn locked_account_refuses_deposits_and_withdrawals() {
    let mut account = Account::new();
    account.deposit(1, 10).unwrap();
    account.deposit(2, 20).unwrap();
    account.start_dispute(1).unwrap();
    account.chargeback(1).unwrap();
    assert_eq!(account.deposit(3, 5), Err(LedgerError::AccountLocked));
    assert_eq!(account.withdraw(5), Err(LedgerError::AccountLocked));
    assert_eq!(account.deposit_count(), 2);
    // Disputes still run on a locked account.
    account.start_dispute(2).unwrap();
    assert_eq!((account.available_amount(), account.held_amount()), (0, 20));
}

#[test]
fn balances_that_would_overflow_are_rejected() {
    let mut account = Account::new();
    account.deposit(1, i64::MAX as u64).unwrap();
    assert_eq!(account.deposit(2, 1), Err(LedgerError::BalanceOverflow));
    assert_eq!(account.available_amount(), i64::MAX);

    let mut fresh = Account::new();
    assert_eq!(fresh.deposit(1, u64::MAX), Err(LedgerError::BalanceOverflow));
    assert_eq!(fresh.available_amount(), 0);

    // Withdraw everything, then deposit again: disputing both deposits would
    // take the available funds below the signed range.
    let mut drained = Account::new();
    drained.deposit(1, i64::MAX as u64).unwrap();
    drained.withdraw(i64::MAX as u64).unwrap();
    drained.deposit(2, i64::MAX as u64).unwrap();
    drained.withdraw(i64::MAX as u64).unwrap();
    drained.start_dispute(1).unwrap();
    assert_eq!(drained.available_amount(), -i64::MAX);
    assert_eq!(drained.start_dispute(2), Err(LedgerError::BalanceOverflow));
    assert_eq!(drained.held_amount(), i64::MAX as u64);
}

#[test]
fn error_messages_name_the_failure() {
    assert_eq!(LedgerError::AccountLocked.to_string(), "The target account is locked");
    assert_eq!(
        LedgerError::DuplicateTransactionId.to_string(),
        "The transaction id was already used"
    );
}
