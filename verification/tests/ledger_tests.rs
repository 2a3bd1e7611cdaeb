use toy_txn_engine::{Account, Ledger, ProcessEvent, Record};

fn record(txn_type: String, client: u16, tx: u32, amount: Option<u128>) -> Record {
    Record { txn_type, client, tx, amount }
}

#[test]
fn test_deposit() -> Result<(), ProcessEvent> {
    let mut ledger = Ledger::new();

    ledger.process_transaction(record("deposit".to_owned(), 1, 1, Some(5_0000)))?;
    ledger.process_transaction(record("deposit".to_owned(), 1, 2, Some(5)))?;
    ledger.process_transaction(record("deposit".to_owned(), 2, 3, Some(270_0000)))?;
    ledger.process_transaction(record("deposit".to_owned(), 2, 4, Some(1234)))?;

    let account1: &Account = ledger.accounts.get(&1).unwrap();
    let account2: &Account = ledger.accounts.get(&2).unwrap();

    assert_eq!(account1.available, 5_0005);
    assert_eq!(account2.available, 270_1234);

    Ok(())
}

#[test]
fn test_withdrawal() -> Result<(), ProcessEvent> {
    let mut ledger = Ledger::new();

    ledger.process_transaction(record("deposit".to_owned(), 1, 1, Some(1000_0000)))?;
    ledger.process_transaction(record("withdrawal".to_owned(), 1, 2, Some(700_0000)))?;
    ledger.process_transaction(record("deposit".to_owned(), 2, 3, Some(10_0000)))?;
    ledger.process_transaction(record("withdrawal".to_owned(), 2, 4, Some(100_0000)))?;

    let account1: &Account = ledger.accounts.get(&1).unwrap();
    let account2: &Account = ledger.accounts.get(&2).unwrap();

    assert_eq!(account1.available, 300_0000); // withdrawal succeeded
    assert_eq!(account2.available, 10_0000); // withdrawal failed

    Ok(())
}

#[test]
fn test_dispute() -> Result<(), ProcessEvent> {
    let mut ledger = Ledger::new();

    ledger.process_transaction(record("deposit".to_owned(), 1, 1, Some(1000_0000)))?;
    ledger.process_transaction(record("deposit".to_owned(), 1, 2, Some(700_0000)))?;
    ledger.process_transaction(record("dispute".to_owned(), 1, 2, None))?;

    let account: &Account = ledger.accounts.get(&1).unwrap();

    assert_eq!(account.available, 1000_0000);
    assert_eq!(account.held, 700_0000);

    // let client 2 dispute client 1's txn #1
    ledger.process_transaction(record("dispute".to_owned(), 2, 1, None))?;
    let account: &Account = ledger.accounts.get(&1).unwrap();

    assert_eq!(account.available, 0);
    assert_eq!(account.held, 1700_0000);
    Ok(())
}

#[test]
fn test_resolve() -> Result<(), ProcessEvent> {
    let mut ledger = Ledger::new();

    ledger.process_transaction(record("deposit".to_owned(), 1, 1, Some(1000_0000)))?;
    ledger.process_transaction(record("deposit".to_owned(), 1, 2, Some(700_0000)))?;
    ledger.process_transaction(record("dispute".to_owned(), 1, 2, None))?;
    ledger.process_transaction(record("resolve".to_owned(), 1, 2, None))?;
    let account: &Account = ledger.accounts.get(&1).unwrap();

    assert_eq!(account.available, 1700_0000);
    assert_eq!(account.held, 0);

    // try resolve undisputed txn #1
    ledger.process_transaction(record("resolve".to_owned(), 1, 1, None))?;
    let account: &Account = ledger.accounts.get(&1).unwrap();

    // confirm its ignored
    assert_eq!(account.available, 1700_0000);
    assert_eq!(account.held, 0);

    Ok(())
}

#[test]
fn test_chargeback() -> Result<(), ProcessEvent> {
    let mut ledger = Ledger::new();

    ledger.process_transaction(record("deposit".to_owned(), 1, 1, Some(1000_0000)))?;
    ledger.process_transaction(record("deposit".to_owned(), 1, 2, Some(700_0000)))?;
    ledger.process_transaction(record("dispute".to_owned(), 1, 2, None))?;
    let account: &Account = ledger.accounts.get(&1).unwrap();

    assert_eq!(account.available, 1000_0000);
    assert_eq!(account.held, 700_0000);
    assert!(!account.frozen);

    ledger.process_transaction(record("chargeback".to_owned(), 1, 2, None))?;
    let account: &Account = ledger.accounts.get(&1).unwrap();

    assert_eq!(account.available, 1000_0000);
    assert_eq!(account.held, 0);
    assert!(account.frozen);

    // try a deposit
    ledger.process_transaction(record("deposit".to_owned(), 1, 3, Some(1000_0000)))?;
    let account: &Account = ledger.accounts.get(&1).unwrap();

    // funds the same but account frozen
    assert_eq!(account.available, 1000_0000);
    assert_eq!(account.held, 0);
    assert!(account.frozen);

    // try a deposit
    ledger.process_transaction(record("withdrawal".to_owned(), 1, 4, Some(100_0000)))?;
    let account: &Account = ledger.accounts.get(&1).unwrap();

    // state is the same
    assert_eq!(account.available, 1000_0000);
    assert_eq!(account.held, 0);
    assert!(account.frozen);

    //try to chargeback undisputed
    ledger.process_transaction(record("chargeback".to_owned(), 1, 1, None))?;
    let account: &Account = ledger.accounts.get(&1).unwrap();

    // nothing changes
    assert_eq!(account.available, 1000_0000);
    assert_eq!(account.held, 0);
    assert!(account.frozen);

    Ok(())
}

// A dispute referencing a withdrawal's transaction id is ignored entirely.
#[test]
fn test_dispute_of_withdrawal_ignored() -> Result<(), ProcessEvent> {
    let mut ledger = Ledger::new();

    ledger.process_transaction(record("deposit".to_owned(), 1, 1, Some(1000_0000)))?;
    ledger.process_transaction(record("withdrawal".to_owned(), 1, 2, Some(300_0000)))?;
    ledger.process_transaction(record("dispute".to_owned(), 1, 2, None))?;
    let account: &Account = ledger.accounts.get(&1).unwrap();

    assert_eq!(account.available, 700_0000);
    assert_eq!(account.held, 0);
    assert!(!account.frozen);

    Ok(())
}

// A dispute whose re-credit cannot be covered by the available balance is
// an internal arithmetic error: reported, with the ledger untouched.
#[test]
fn test_dispute_underflow_is_error() -> Result<(), ProcessEvent> {
    let mut ledger = Ledger::new();

    ledger.process_transaction(record("deposit".to_owned(), 1, 1, Some(100_0000)))?;
    ledger.process_transaction(record("withdrawal".to_owned(), 1, 2, Some(50_0000)))?;
    let r = ledger.process_transaction(record("dispute".to_owned(), 1, 1, None));

    assert_eq!(r, Err(ProcessEvent::InsufficientFunds));
    let account: &Account = ledger.accounts.get(&1).unwrap();
    assert_eq!(account.available, 50_0000);
    assert_eq!(account.held, 0);

    Ok(())
}

// A deposit that would overflow the available balance is suppressed; the
// balance stays as it was.
#[test]
fn test_deposit_overflow_suppressed() -> Result<(), ProcessEvent> {
    let mut ledger = Ledger::new();

    ledger.process_transaction(record("deposit".to_owned(), 1, 1, Some(u128::MAX)))?;
    ledger.process_transaction(record("deposit".to_owned(), 1, 2, Some(1)))?;
    let account: &Account = ledger.accounts.get(&1).unwrap();

    assert_eq!(account.available, u128::MAX);
    assert_eq!(account.held, 0);

    Ok(())
}

// A dispute whose held-balance credit would overflow is an internal
// arithmetic error: reported, with the ledger untouched.
#[test]
fn test_dispute_overflow_is_error() -> Result<(), ProcessEvent> {
    let mut ledger = Ledger::new();

    ledger.process_transaction(record("deposit".to_owned(), 1, 1, Some(u128::MAX)))?;
    ledger.process_transaction(record("dispute".to_owned(), 1, 1, None))?;
    ledger.process_transaction(record("deposit".to_owned(), 1, 2, Some(u128::MAX)))?;
    let r = ledger.process_transaction(record("dispute".to_owned(), 1, 2, None));

    assert_eq!(r, Err(ProcessEvent::AmountOverflow));
    let account: &Account = ledger.accounts.get(&1).unwrap();
    assert_eq!(account.available, u128::MAX);
    assert_eq!(account.held, u128::MAX);

    Ok(())
}

// A frozen account still resolves its remaining open disputes: the freeze
// blocks only deposits and withdrawals.
#[test]
fn test_frozen_account_still_resolves() -> Result<(), ProcessEvent> {
    let mut ledger = Ledger::new();

    ledger.process_transaction(record("deposit".to_owned(), 1, 1, Some(500_0000)))?;
    ledger.process_transaction(record("deposit".to_owned(), 1, 2, Some(200_0000)))?;
    ledger.process_transaction(record("dispute".to_owned(), 1, 1, None))?;
    ledger.process_transaction(record("dispute".to_owned(), 1, 2, None))?;
    ledger.process_transaction(record("chargeback".to_owned(), 1, 1, None))?;
    let account: &Account = ledger.accounts.get(&1).unwrap();

    assert_eq!(account.available, 0);
    assert_eq!(account.held, 200_0000);
    assert!(account.frozen);

    ledger.process_transaction(record("resolve".to_owned(), 1, 2, None))?;
    let account: &Account = ledger.accounts.get(&1).unwrap();

    assert_eq!(account.available, 200_0000);
    assert_eq!(account.held, 0);
    assert!(account.frozen);

    Ok(())
}

// A deposit or withdrawal without an amount is rejected; an unknown type
// tag is rejected with the tag.
#[test]
fn test_invalid_records_rejected() {
    let mut ledger = Ledger::new();

    let r = ledger.process_transaction(record("deposit".to_owned(), 1, 1, None));
    assert_eq!(r, Err(ProcessEvent::MissingAmount));

    let r = ledger.process_transaction(record("withdrawal".to_owned(), 1, 2, None));
    assert_eq!(r, Err(ProcessEvent::MissingAmount));

    let r = ledger.process_transaction(record("transfer".to_owned(), 1, 3, Some(1)));
    assert_eq!(
        r,
        Err(ProcessEvent::UnrecognizedTransactionType("transfer".to_owned()))
    );

    assert!(ledger.accounts.get(&1).is_none());
}
