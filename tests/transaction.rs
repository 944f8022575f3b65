use ledger_engine::error::ParseError;
use ledger_engine::transaction::{RawTransaction, RawTransactionType, Transaction};

#[test]
fn test_deposit_without_amount() {
    let raw = RawTransaction {
        transaction_type: RawTransactionType::Deposit,
        client: 1,
        tx: 1,
        amount: None,
    };
    let result = Transaction::try_from(raw);
    assert!(result.is_err());
    assert_eq!(
        result.unwrap_err().to_string(),
        "Deposit found without amount"
    );
}

#[test]
fn test_withdrawal_without_amount() {
    let raw = RawTransaction {
        transaction_type: RawTransactionType::Withdrawal,
        client: 1,
        tx: 1,
        amount: None,
    };
    let result = Transaction::try_from(raw);
    assert!(result.is_err());
    assert_eq!(
        result.unwrap_err().to_string(),
        "Withdrawal found without amount"
    );
}

fn raw(kind: RawTransactionType, amount: Option<u64>) -> RawTransaction {
    RawTransaction {
        transaction_type: kind,
        client: 7,
        tx: 42,
        amount,
    }
}

#[test]
fn records_with_the_right_fields_become_transactions() {
    assert_eq!(
        Transaction::try_from(raw(RawTransactionType::Deposit, Some(15_000))),
        Ok(Transaction::Deposit { client_id: 7, tx_id: 42, amount: 15_000 })
    );
    assert_eq!(
        Transaction::try_from(raw(RawTransactionType::Withdrawal, Some(5))),
        Ok(Transaction::Withdrawal { client_id: 7, tx_id: 42, amount: 5 })
    );
    assert_eq!(
        Transaction::try_from(raw(RawTransactionType::Dispute, None)),
        Ok(Transaction::Dispute { client_id: 7, tx_id: 42 })
    );
    assert_eq!(
        Transaction::try_from(raw(RawTransactionType::Resolve, None)),
        Ok(Transaction::Resolve { client_id: 7, tx_id: 42 })
    );
    assert_eq!(
        Transaction::try_from(raw(RawTransactionType::Chargeback, None)),
        Ok(Transaction::Chargeback { client_id: 7, tx_id: 42 })
    );
}

#[test]
fn dispute_operations_with_an_amount_are_rejected() {
    let cases = [
        (RawTransactionType::Dispute, ParseError::DisputeWithAmount, "Dispute found with amount"),
        (RawTransactionType::Resolve, ParseError::ResolveWithAmount, "Resolve found with amount"),
        (
            RawTransactionType::Chargeback,
            ParseError::ChargebackWithAmount,
            "Chargeback found with amount",
        ),
    ];
    for (kind, error, message) in cases {
        let result = Transaction::try_from(raw(kind, Some(1)));
        assert_eq!(result, Err(error));
        assert_eq!(result.unwrap_err().to_string(), message);
    }
}
