//! Why a record or a transaction was rejected.

use vstd::prelude::*;

verus! {

/// A record that cannot become a transaction.
#[derive(Debug, Clone, Copy, PartialEq, Eq, Structural)]
pub enum ParseError {
    /// The amount text is not a non-negative decimal that fits the fixed-point range.
    InvalidAmount,
    DepositWithoutAmount,
    WithdrawalWithoutAmount,
    DisputeWithAmount,
    ResolveWithAmount,
    ChargebackWithAmount,
}

/// A transaction that the ledger refused; the ledger is left as it was.
#[derive(Debug, Clone, Copy, PartialEq, Eq, Structural)]
pub enum LedgerError {
    AccountLocked,
    InsufficientFunds,
    AccountNotFound,
    DepositNotFound,
    InvalidDepositState,
    DuplicateTransactionId,
    /// A balance would leave the range of a signed 64-bit count of ten-thousandths.
    BalanceOverflow,
}

impl ParseError {
    pub open spec fn message(self) -> Seq<char> {
        match self {
            ParseError::InvalidAmount => "Failed to parse amount into fixed point representation"@,
            ParseError::DepositWithoutAmount => "Deposit found without amount"@,
            ParseError::WithdrawalWithoutAmount => "Withdrawal found without amount"@,
            ParseError::DisputeWithAmount => "Dispute found with amount"@,
            ParseError::ResolveWithAmount => "Resolve found with amount"@,
            ParseError::ChargebackWithAmount => "Chargeback found with amount"@,
        }
    }

    /// A human-readable description of the error.
    pub fn to_string(&self) -> (r: String)
        ensures
            r@ == self.message(),
    {
        match self {
            ParseError::InvalidAmount => String::from_str(
                "Failed to parse amount into fixed point representation",
            ),
            ParseError::DepositWithoutAmount => String::from_str("Deposit found without amount"),
            ParseError::WithdrawalWithoutAmount => String::from_str(
                "Withdrawal found without amount",
            ),
            ParseError::DisputeWithAmount => String::from_str("Dispute found with amount"),
            ParseError::ResolveWithAmount => String::from_str("Resolve found with amount"),
            ParseError::ChargebackWithAmount => String::from_str("Chargeback found with amount"),
        }
    }
}

impl LedgerError {
    pub open spec fn message(self) -> Seq<char> {
        match self {
            LedgerError::AccountLocked => "The target account is locked"@,
            LedgerError::InsufficientFunds => "The available balance is insufficient"@,
            LedgerError::AccountNotFound => "The target account couldn't be found"@,
            LedgerError::DepositNotFound => "The referenced deposit couldn't be found"@,
            LedgerError::InvalidDepositState => "The referenced deposit is not in a state that allows this operation"@,
            LedgerError::DuplicateTransactionId => "The transaction id was already used"@,
            LedgerError::BalanceOverflow => "A balance would leave the representable range"@,
        }
    }

    /// A human-readable description of the error.
    pub fn to_string(&self) -> (r: String)
        ensures
            r@ == self.message(),
    {
        match self {
            LedgerError::AccountLocked => String::from_str("The target account is locked"),
            LedgerError::InsufficientFunds => String::from_str(
                "The available balance is insufficient",
            ),
            LedgerError::AccountNotFound => String::from_str(
                "The target account couldn't be found",
            ),
            LedgerError::DepositNotFound => String::from_str(
                "The referenced deposit couldn't be found",
            ),
            LedgerError::InvalidDepositState => String::from_str(
                "The referenced deposit is not in a state that allows this operation",
            ),
            LedgerError::DuplicateTransactionId => String::from_str(
                "The transaction id was already used",
            ),
            LedgerError::BalanceOverflow => String::from_str(
                "A balance would leave the representable range",
            ),
        }
    }
}

} // verus!
