use tx_engine::{EngineError, TransactionEngine, TransactionRecord, TransactionType};

/// Converts a decimal amount to ten-thousandths of a unit.
fn units(x: f64) -> i64 {
    (x * 10000.0).round() as i64
}

fn rec(tx_type: TransactionType, client_id: u16, transaction_id: u32, amount: Option<f64>) -> TransactionRecord {
    TransactionRecord {
        tx_type,
        client_id,
        transaction_id,
        amount: amount.map(|a| units(a) as u64),
    }
}

fn deposit(client: u16, tx: u32, amount: f64) -> TransactionRecord {
    rec(TransactionType::Deposit, client, tx, Some(amount))
}

fn withdrawal(client: u16, tx: u32, amount: f64) -> TransactionRecord {
    rec(TransactionType::Withdraw, client, tx, Some(amount))
}

fn dispute(client: u16, tx: u32) -> TransactionRecord {
    rec(TransactionType::Dispute, client, tx, None)
}

fn resolve(client: u16, tx: u32) -> TransactionRecord {
    rec(TransactionType::Resolve, client, tx, None)
}

fn chargeback(client: u16, tx: u32) -> TransactionRecord {
    rec(TransactionType::Chargeback, client, tx, None)
}

/// Runs the records through a new engine and returns, sorted by client,
/// (client, available, held, total, locked).
fn snapshot(records: Vec<TransactionRecord>) -> Vec<(u16, i64, i64, i128, bool)> {
    let mut engine = TransactionEngine::new();
    engine.process_records(&records).unwrap();
    let mut rows: Vec<(u16, i64, i64, i128, bool)> = engine
        .accounts()
        .iter()
        .map(|a| (a.client_id, a.available_balance, a.held_balance, a.total_balance(), a.locked))
        .collect();
    rows.sort_by_key(|r| r.0);
    rows
}

fn row(client: u16, available: f64, held: f64, total: f64, locked: bool) -> (u16, i64, i64, i128, bool) {
    (client, units(available), units(held), units(total) as i128, locked)
}

#[test]
fn test_tx_deposits_one_client() {
    let out = snapshot(vec![deposit(1, 1, 1.0), deposit(1, 2, 2.0), deposit(1, 3, 2.0), deposit(1, 4, 20.5)]);
    assert_eq!(out, vec![row(1, 25.5, 0.0, 25.5, false)]);
}

#[test]
fn test_tx_deposits_withdrawals_positive_balance() {
    let out = snapshot(vec![deposit(1, 1, 10.0), deposit(1, 2, 25.0), withdrawal(1, 3, 15.0)]);
    assert_eq!(out, vec![row(1, 20.0, 0.0, 20.0, false)]);
}

#[test]
fn test_tx_deposits_withdrawals_zero_balance() {
    let out = snapshot(vec![deposit(1, 1, 10.0), deposit(1, 2, 25.0), withdrawal(1, 3, 35.0)]);
    assert_eq!(out, vec![row(1, 0.0, 0.0, 0.0, false)]);
}

#[test]
fn test_tx_deposits_withdrawals_negative_balance() {
    let out = snapshot(vec![deposit(1, 1, 10.0), deposit(1, 2, 25.0), withdrawal(1, 3, 40.0)]);
    assert_eq!(out, vec![row(1, 35.0, 0.0, 35.0, false)]);
}

#[test]
fn test_tx_dispute() {
    let out = snapshot(vec![deposit(1, 1, 10.0), deposit(1, 2, 25.0), dispute(1, 2)]);
    assert_eq!(out, vec![row(1, 10.0, 25.0, 35.0, false)]);
}

#[test]
fn test_tx_with_invalid_dispute() {
    let out = snapshot(vec![deposit(1, 1, 10.0), deposit(1, 2, 25.0), dispute(1, 3)]);
    assert_eq!(out, vec![row(1, 35.0, 0.0, 35.0, false)]);
}

#[test]
fn test_tx_dispute_with_resolution() {
    let out = snapshot(vec![
        deposit(1, 1, 10.0),
        deposit(1, 2, 25.0),
        dispute(1, 2),
        deposit(1, 3, 10.0),
        resolve(1, 2),
    ]);
    assert_eq!(out, vec![row(1, 45.0, 0.0, 45.0, false)]);
}

#[test]
fn test_tx_dispute_with_invalid_resolution() {
    let out = snapshot(vec![
        deposit(1, 1, 10.0),
        deposit(1, 2, 25.0),
        dispute(1, 2),
        deposit(1, 3, 10.0),
        resolve(1, 4),
    ]);
    assert_eq!(out, vec![row(1, 20.0, 25.0, 45.0, false)]);
}

#[test]
fn test_tx_undisputed_resolution() {
    let out = snapshot(vec![deposit(1, 1, 10.0), deposit(1, 2, 25.0), resolve(1, 2)]);
    assert_eq!(out, vec![row(1, 35.0, 0.0, 35.0, false)]);
}

#[test]
fn test_tx_dispute_with_chargeback() {
    let out = snapshot(vec![deposit(1, 1, 10.0), deposit(1, 2, 25.0), dispute(1, 2), chargeback(1, 2)]);
    assert_eq!(out, vec![row(1, 10.0, 0.0, 10.0, true)]);
}

#[test]
fn test_tx_with_undisputed_chargeback() {
    let out = snapshot(vec![deposit(1, 1, 10.0), deposit(1, 2, 25.0), chargeback(1, 2)]);
    assert_eq!(out, vec![row(1, 35.0, 0.0, 35.0, false)]);
}

#[test]
fn test_tx_deposit_with_locked_account() {
    let out = snapshot(vec![
        deposit(1, 1, 10.0),
        deposit(1, 2, 25.0),
        dispute(1, 2),
        chargeback(1, 2),
        deposit(1, 3, 50.0),
    ]);
    assert_eq!(out, vec![row(1, 10.0, 0.0, 10.0, true)]);
}

#[test]
fn test_multiple_deposits_withdrawals() {
    let out = snapshot(vec![
        deposit(1, 1, 10.0),
        deposit(2, 2, 10.0),
        deposit(1, 3, 10.0),
        deposit(5, 4, 10.0),
        deposit(4, 5, 10.0),
        withdrawal(1, 6, 20.0),
        deposit(6, 7, 10.0),
        deposit(3, 8, 20.0),
        dispute(2, 2),
        deposit(3, 9, 5.0),
        deposit(2, 10, 10.0),
        resolve(2, 2),
        dispute(3, 8),
        deposit(7, 11, 15.0),
        dispute(7, 11),
        chargeback(7, 11),
        deposit(7, 12, 20.0),
    ]);
    assert_eq!(
        out,
        vec![
            row(1, 0.0, 0.0, 0.0, false),
            row(2, 20.0, 0.0, 20.0, false),
            row(3, 5.0, 20.0, 25.0, false),
            row(4, 10.0, 0.0, 10.0, false),
            row(5, 10.0, 0.0, 10.0, false),
            row(6, 10.0, 0.0, 10.0, false),
            row(7, 0.0, 0.0, 0.0, true),
        ]
    );
}

#[test]
fn new_engine_has_no_accounts() {
    let engine = TransactionEngine::new();
    assert!(engine.accounts().is_empty());
}

#[test]
fn invalid_record_stops_processing_and_keeps_prior_work() {
    let mut engine = TransactionEngine::new();
    let records = vec![
        deposit(1, 1, 10.0),
        rec(TransactionType::Dispute, 1, 1, Some(1.0)),
        deposit(1, 2, 5.0),
    ];
    assert_eq!(engine.process_records(&records), Err(EngineError::InvalidRecord));
    let accounts = engine.accounts();
    assert_eq!(accounts.len(), 1);
    assert_eq!(accounts[0].available_balance, units(10.0));
    assert!(!accounts[0].transactions.contains_key(&2));
}

#[test]
fn deposit_without_amount_is_invalid_and_creates_no_account() {
    let mut engine = TransactionEngine::new();
    let r = rec(TransactionType::Deposit, 9, 1, None);
    assert_eq!(engine.process_transaction(&r), Err(EngineError::InvalidRecord));
    assert!(engine.accounts().is_empty());
}

#[test]
fn overflowing_deposit_is_rejected_unchanged() {
    let mut engine = TransactionEngine::new();
    let big = TransactionRecord {
        tx_type: TransactionType::Deposit,
        client_id: 3,
        transaction_id: 1,
        amount: Some(i64::MAX as u64),
    };
    assert_eq!(engine.process_transaction(&big), Ok(()));
    let one_more = TransactionRecord { transaction_id: 2, amount: Some(1), ..big };
    assert_eq!(engine.process_transaction(&one_more), Err(EngineError::Overflow));
    let accounts = engine.accounts();
    assert_eq!(accounts[0].available_balance, i64::MAX);
    assert!(!accounts[0].transactions.contains_key(&2));
    assert_eq!(accounts[0].total_balance(), i64::MAX as i128);
}

#[test]
fn deposit_above_i64_range_is_rejected() {
    let mut engine = TransactionEngine::new();
    let r = TransactionRecord {
        tx_type: TransactionType::Deposit,
        client_id: 3,
        transaction_id: 1,
        amount: Some(u64::MAX),
    };
    assert_eq!(engine.process_transaction(&r), Err(EngineError::Overflow));
    assert!(engine.accounts().is_empty());
}

#[test]
fn zero_deposit_is_recorded() {
    let out = snapshot(vec![deposit(4, 1, 0.0)]);
    assert_eq!(out, vec![row(4, 0.0, 0.0, 0.0, false)]);
}

#[test]
fn refused_withdrawal_is_still_disputable() {
    // The refused withdrawal reserves its id; disputing it moves its amount
    // from available to held.
    let out = snapshot(vec![deposit(1, 1, 10.0), withdrawal(1, 2, 40.0), dispute(1, 2)]);
    assert_eq!(out, vec![row(1, -30.0, 40.0, 10.0, false)]);
}

#[test]
fn accounts_keep_order_of_first_appearance() {
    let mut engine = TransactionEngine::new();
    engine.process_records(&vec![deposit(7, 1, 1.0), deposit(2, 2, 2.0), deposit(7, 3, 3.0)]).unwrap();
    let ids: Vec<u16> = engine.accounts().iter().map(|a| a.client_id).collect();
    assert_eq!(ids, vec![7, 2]);
    assert_eq!(engine.accounts()[0].available_balance, units(4.0));
}

#[test]
fn snapshot_copies_transactions() {
    let mut engine = TransactionEngine::new();
    engine.process_records(&vec![deposit(1, 5, 2.5), dispute(1, 5)]).unwrap();
    let accounts = engine.accounts();
    let d = accounts[0].transactions.get(&5).unwrap();
    assert_eq!(d.amount, units(2.5) as u64);
    assert!(d.disputed);
    let copy = accounts[0].duplicate();
    assert_eq!(copy.transactions.len(), 1);
    assert_eq!(copy.held_balance, units(2.5));
}
