//! Input records and the transactions they become.

use crate::error::ParseError;
use vstd::prelude::*;

verus! {

/// The kind of an input record.
#[derive(Debug, Clone, Copy, PartialEq, Eq, Structural)]
pub enum RawTransactionType {
    Deposit,
    Withdrawal,
    Dispute,
    Resolve,
    Chargeback,
}

/// One input record as read, its amount already in ten-thousandths.
#[derive(Debug, Clone, Copy, PartialEq, Eq, Structural)]
pub struct RawTransaction {
    pub transaction_type: RawTransactionType,
    pub client: u16,
    pub tx: u32,
    pub amount: Option<u64>,
}

/// A validated transaction: deposits and withdrawals carry an amount, the
/// dispute operations carry none.
#[derive(Debug, Clone, Copy, PartialEq, Eq, Structural)]
pub enum Transaction {
    Deposit { client_id: u16, tx_id: u32, amount: u64 },
    Withdrawal { client_id: u16, tx_id: u32, amount: u64 },
    Dispute { client_id: u16, tx_id: u32 },
    Resolve { client_id: u16, tx_id: u32 },
    Chargeback { client_id: u16, tx_id: u32 },
}

/// The transaction a record stands for, or why it stands for none.
pub open spec fn transaction_of(raw: RawTransaction) -> Result<Transaction, ParseError> {
    match raw.transaction_type {
        RawTransactionType::Deposit => match raw.amount {
            Some(amount) => Ok(Transaction::Deposit { client_id: raw.client, tx_id: raw.tx, amount }),
            None => Err(ParseError::DepositWithoutAmount),
        },
        RawTransactionType::Withdrawal => match raw.amount {
            Some(amount) => Ok(
                Transaction::Withdrawal { client_id: raw.client, tx_id: raw.tx, amount },
            ),
            None => Err(ParseError::WithdrawalWithoutAmount),
        },
        RawTransactionType::Dispute => if raw.amount is None {
            Ok(Transaction::Dispute { client_id: raw.client, tx_id: raw.tx })
        } else {
            Err(ParseError::DisputeWithAmount)
        },
        RawTransactionType::Resolve => if raw.amount is None {
            Ok(Transaction::Resolve { client_id: raw.client, tx_id: raw.tx })
        } else {
            Err(ParseError::ResolveWithAmount)
        },
        RawTransactionType::Chargeback => if raw.amount is None {
            Ok(Transaction::Chargeback { client_id: raw.client, tx_id: raw.tx })
        } else {
            Err(ParseError::ChargebackWithAmount)
        },
    }
}

impl Transaction {
    /// Checks that a record carries an amount exactly when its kind needs one.
    pub fn try_from(value: RawTransaction) -> (r: Result<Transaction, ParseError>)
        ensures
            r == transaction_of(value),
    {
        match value.transaction_type {
            RawTransactionType::Deposit => match value.amount {
                Some(amount) => Ok(
                    Transaction::Deposit { client_id: value.client, tx_id: value.tx, amount },
                ),
                None => Err(ParseError::DepositWithoutAmount),
            },
            RawTransactionType::Withdrawal => match value.amount {
                Some(amount) => Ok(
                    Transaction::Withdrawal { client_id: value.client, tx_id: value.tx, amount },
                ),
                None => Err(ParseError::WithdrawalWithoutAmount),
            },
            RawTransactionType::Dispute => {
                if value.amount.is_some() {
                    return Err(ParseError::DisputeWithAmount);
                }
                Ok(Transaction::Dispute { client_id: value.client, tx_id: value.tx })
            },
            RawTransactionType::Resolve => {
                if value.amount.is_some() {
                    return Err(ParseError::ResolveWithAmount);
                }
                Ok(Transaction::Resolve { client_id: value.client, tx_id: value.tx })
            },
            RawTransactionType::Chargeback => {
                if value.amount.is_some() {
                    return Err(ParseError::ChargebackWithAmount);
                }
                Ok(Transaction::Chargeback { client_id: value.client, tx_id: value.tx })
            },
        }
    }
}

} // verus!
