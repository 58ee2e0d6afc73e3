//! Tests that replay transaction streams and check the resulting account
//! snapshots. Amounts are fixed-point: 1/10_000 currency units.

use transactions::ledger::Ledger;
use transactions::processor::{process_all, process_transaction};
use transactions::types::Transaction;

/// `x` whole currency units as a fixed-point amount.
fn units(x: i64) -> i64 {
    x * 10_000
}

fn run(ts: Vec<Transaction>) -> Ledger {
    let mut l = Ledger::new();
    process_all(&ts, &mut l);
    l
}

fn check(l: &Ledger, client: u16, available: i64, held: i64, total: i64, locked: bool) {
    let a = l.get_account(client).expect("account should exist");
    assert_eq!(a.client, client);
    assert_eq!(a.available, available);
    assert_eq!(a.held, held);
    assert_eq!(a.total, total);
    assert_eq!(a.locked, locked);
}

#[test]
fn lib_chargeback() {
    let l = run(vec![
        Transaction::Deposit { client: 1, tx: 1, amount: units(10) },
        Transaction::Dispute { client: 1, tx: 1 },
        Transaction::Chargeback { client: 1, tx: 1 },
    ]);
    check(&l, 1, 0, 0, 0, true);
    assert_eq!(l.accounts().len(), 1);
}

#[test]
fn chargeback_duplicate() {
    let l = run(vec![
        Transaction::Deposit { client: 1, tx: 1, amount: units(10) },
        Transaction::Dispute { client: 1, tx: 1 },
        Transaction::Chargeback { client: 1, tx: 1 },
        Transaction::Chargeback { client: 1, tx: 1 },
        Transaction::Chargeback { client: 1, tx: 1 },
    ]);
    check(&l, 1, 0, 0, 0, true);
    assert_eq!(l.accounts().len(), 1);
}

#[test]
fn chargeback_invalid_tx() {
    let l = run(vec![
        Transaction::Deposit { client: 1, tx: 1, amount: units(10) },
        Transaction::Dispute { client: 1, tx: 1 },
        Transaction::Chargeback { client: 1, tx: 2 },
    ]);
    check(&l, 1, 0, units(10), units(10), false);
    assert_eq!(l.accounts().len(), 1);
}

#[test]
fn chargeback_loop() {
    let l = run(vec![
        Transaction::Deposit { client: 1, tx: 1, amount: units(10) },
        Transaction::Dispute { client: 1, tx: 1 },
        Transaction::Chargeback { client: 1, tx: 1 },
        Transaction::Dispute { client: 1, tx: 1 },
        Transaction::Chargeback { client: 1, tx: 1 },
    ]);
    check(&l, 1, 0, 0, 0, true);
    assert_eq!(l.accounts().len(), 1);
}

#[test]
fn chargeback_lock() {
    let l = run(vec![
        Transaction::Deposit { client: 1, tx: 1, amount: units(10) },
        Transaction::Deposit { client: 1, tx: 2, amount: units(10) },
        Transaction::Dispute { client: 1, tx: 1 },
        Transaction::Chargeback { client: 1, tx: 1 },
        Transaction::Deposit { client: 1, tx: 3, amount: units(10) },
        Transaction::Deposit { client: 1, tx: 4, amount: units(10) },
        Transaction::Deposit { client: 1, tx: 5, amount: units(10) },
        Transaction::Withdrawal { client: 1, tx: 6, amount: units(5) },
        Transaction::Withdrawal { client: 1, tx: 7, amount: units(5) },
        Transaction::Dispute { client: 1, tx: 2 },
        Transaction::Dispute { client: 1, tx: 3 },
        Transaction::Resolve { client: 1, tx: 3 },
    ]);
    check(&l, 1, units(10), 0, units(10), true);
    assert_eq!(l.accounts().len(), 1);
}

#[test]
fn chargeback_nondisputed() {
    let l = run(vec![
        Transaction::Deposit { client: 1, tx: 1, amount: units(10) },
        Transaction::Chargeback { client: 1, tx: 1 },
    ]);
    check(&l, 1, units(10), 0, units(10), false);
    assert_eq!(l.accounts().len(), 1);
}

#[test]
fn deposit() {
    let l = run(vec![
        Transaction::Deposit { client: 1, tx: 1, amount: units(10) },
        Transaction::Deposit { client: 2, tx: 2, amount: units(5) },
        Transaction::Deposit { client: 2, tx: 3, amount: units(5) },
        Transaction::Deposit { client: 1, tx: 4, amount: units(10) },
    ]);
    check(&l, 1, units(20), 0, units(20), false);
    check(&l, 2, units(10), 0, units(10), false);
    assert_eq!(l.accounts().len(), 2);
}

#[test]
fn lib_dispute() {
    let l = run(vec![
        Transaction::Deposit { client: 1, tx: 1, amount: units(10) },
        Transaction::Deposit { client: 1, tx: 2, amount: units(5) },
        Transaction::Dispute { client: 1, tx: 1 },
    ]);
    check(&l, 1, units(5), units(10), units(15), false);
    assert_eq!(l.accounts().len(), 1);
}

#[test]
fn dispute_duplicate() {
    let l = run(vec![
        Transaction::Deposit { client: 1, tx: 1, amount: units(10) },
        Transaction::Deposit { client: 1, tx: 2, amount: units(5) },
        Transaction::Dispute { client: 1, tx: 1 },
        Transaction::Dispute { client: 1, tx: 1 },
        Transaction::Dispute { client: 1, tx: 1 },
    ]);
    check(&l, 1, units(5), units(10), units(15), false);
    assert_eq!(l.accounts().len(), 1);
}

#[test]
fn dispute_invalid_tx() {
    let l = run(vec![
        Transaction::Deposit { client: 1, tx: 1, amount: units(10) },
        Transaction::Dispute { client: 1, tx: 2 },
        Transaction::Dispute { client: 1, tx: 3 },
        Transaction::Dispute { client: 1, tx: 4 },
    ]);
    check(&l, 1, units(10), 0, units(10), false);
    assert_eq!(l.accounts().len(), 1);
}

#[test]
fn lib_resolve() {
    let l = run(vec![
        Transaction::Deposit { client: 1, tx: 1, amount: units(10) },
        Transaction::Deposit { client: 1, tx: 2, amount: units(5) },
        Transaction::Dispute { client: 1, tx: 1 },
        Transaction::Resolve { client: 1, tx: 1 },
    ]);
    check(&l, 1, units(15), 0, units(15), false);
    assert_eq!(l.accounts().len(), 1);
}

#[test]
fn resolve_duplicate() {
    let l = run(vec![
        Transaction::Deposit { client: 1, tx: 1, amount: units(10) },
        Transaction::Deposit { client: 1, tx: 2, amount: units(5) },
        Transaction::Dispute { client: 1, tx: 1 },
        Transaction::Resolve { client: 1, tx: 1 },
        Transaction::Resolve { client: 1, tx: 1 },
        Transaction::Resolve { client: 1, tx: 1 },
    ]);
    check(&l, 1, units(15), 0, units(15), false);
    assert_eq!(l.accounts().len(), 1);
}

#[test]
fn resolve_invalid_tx() {
    let l = run(vec![
        Transaction::Deposit { client: 1, tx: 1, amount: units(10) },
        Transaction::Resolve { client: 1, tx: 2 },
        Transaction::Resolve { client: 1, tx: 3 },
        Transaction::Resolve { client: 1, tx: 4 },
    ]);
    check(&l, 1, units(10), 0, units(10), false);
    assert_eq!(l.accounts().len(), 1);
}

#[test]
fn resolve_loop() {
    let l = run(vec![
        Transaction::Deposit { client: 1, tx: 1, amount: units(10) },
        Transaction::Dispute { client: 1, tx: 1 },
        Transaction::Resolve { client: 1, tx: 1 },
        Transaction::Dispute { client: 1, tx: 1 },
        Transaction::Resolve { client: 1, tx: 1 },
    ]);
    check(&l, 1, units(10), 0, units(10), false);
    assert_eq!(l.accounts().len(), 1);
}

#[test]
fn withdraw() {
    let l = run(vec![
        Transaction::Deposit { client: 1, tx: 1, amount: units(10) },
        Transaction::Withdrawal { client: 1, tx: 2, amount: units(5) },
    ]);
    check(&l, 1, units(5), 0, units(5), false);
    assert_eq!(l.accounts().len(), 1);
}

#[test]
fn withdraw_insufficient_funds() {
    let l = run(vec![
        Transaction::Deposit { client: 1, tx: 1, amount: units(10) },
        Transaction::Withdrawal { client: 1, tx: 2, amount: units(15) },
    ]);
    check(&l, 1, units(10), 0, units(10), false);
    assert_eq!(l.accounts().len(), 1);
}

#[test]
fn deposit_nonpositive_amount_rejected() {
    let l = run(vec![
        Transaction::Deposit { client: 1, tx: 1, amount: 0 },
        Transaction::Deposit { client: 1, tx: 2, amount: -units(5) },
    ]);
    check(&l, 1, 0, 0, 0, false);
}

#[test]
fn withdrawal_nonpositive_amount_rejected() {
    let l = run(vec![
        Transaction::Deposit { client: 1, tx: 1, amount: units(10) },
        Transaction::Withdrawal { client: 1, tx: 2, amount: 0 },
        Transaction::Withdrawal { client: 1, tx: 3, amount: -units(5) },
    ]);
    check(&l, 1, units(10), 0, units(10), false);
}

#[test]
fn deposit_duplicate_tx_id_ignored() {
    let l = run(vec![
        Transaction::Deposit { client: 1, tx: 1, amount: units(10) },
        Transaction::Deposit { client: 1, tx: 1, amount: units(99) },
        Transaction::Deposit { client: 2, tx: 1, amount: units(7) },
    ]);
    check(&l, 1, units(10), 0, units(10), false);
    check(&l, 2, 0, 0, 0, false);
}

#[test]
fn rejected_deposit_leaves_tx_id_unbound() {
    let l = run(vec![
        Transaction::Deposit { client: 1, tx: 1, amount: 0 },
        Transaction::Deposit { client: 1, tx: 1, amount: units(10) },
    ]);
    check(&l, 1, units(10), 0, units(10), false);
}

#[test]
fn dispute_cross_client_ignored() {
    let l = run(vec![
        Transaction::Deposit { client: 1, tx: 1, amount: units(10) },
        Transaction::Dispute { client: 2, tx: 1 },
    ]);
    check(&l, 1, units(10), 0, units(10), false);
    check(&l, 2, 0, 0, 0, false);
    let d = l.get_deposit(1).expect("deposit record should be retained");
    assert!(!d.disputed);
}

#[test]
fn dispute_marks_record_disputed() {
    let mut l = Ledger::new();
    process_transaction(Transaction::Deposit { client: 1, tx: 1, amount: units(10) }, &mut l);
    process_transaction(Transaction::Dispute { client: 1, tx: 1 }, &mut l);
    let d = l.get_deposit(1).expect("deposit record should be retained");
    assert_eq!(d.client, 1);
    assert_eq!(d.amount, units(10));
    assert!(d.disputed);
    process_transaction(Transaction::Resolve { client: 1, tx: 1 }, &mut l);
    let d = l.get_deposit(1).expect("deposit record should be retained");
    assert!(!d.disputed);
}

#[test]
fn chargeback_leaves_record_disputed() {
    let l = run(vec![
        Transaction::Deposit { client: 1, tx: 1, amount: units(10) },
        Transaction::Dispute { client: 1, tx: 1 },
        Transaction::Chargeback { client: 1, tx: 1 },
    ]);
    let d = l.get_deposit(1).expect("deposit record should be retained");
    assert!(d.disputed);
}

#[test]
fn deposit_overflowing_balance_rejected() {
    let l = run(vec![
        Transaction::Deposit { client: 1, tx: 1, amount: i64::MAX },
        Transaction::Deposit { client: 1, tx: 2, amount: units(1) },
    ]);
    check(&l, 1, i64::MAX, 0, i64::MAX, false);
}

#[test]
fn post_lock_stream_is_ignored() {
    let l = run(vec![
        Transaction::Deposit { client: 1, tx: 1, amount: units(10) },
        Transaction::Dispute { client: 1, tx: 1 },
        Transaction::Chargeback { client: 1, tx: 1 },
        Transaction::Dispute { client: 1, tx: 1 },
        Transaction::Deposit { client: 1, tx: 2, amount: units(50) },
        Transaction::Withdrawal { client: 1, tx: 3, amount: units(1) },
        Transaction::Resolve { client: 1, tx: 1 },
    ]);
    check(&l, 1, 0, 0, 0, true);
}

#[test]
fn totals_stay_consistent_across_stream() {
    let l = run(vec![
        Transaction::Deposit { client: 1, tx: 1, amount: units(10) },
        Transaction::Deposit { client: 2, tx: 2, amount: units(3) },
        Transaction::Dispute { client: 1, tx: 1 },
        Transaction::Withdrawal { client: 2, tx: 3, amount: units(1) },
        Transaction::Resolve { client: 1, tx: 1 },
        Transaction::Deposit { client: 1, tx: 4, amount: units(2) },
    ]);
    for a in l.accounts() {
        assert!(a.available >= 0);
        assert!(a.held >= 0);
        assert_eq!(a.total, a.available + a.held);
    }
    check(&l, 1, units(12), 0, units(12), false);
    check(&l, 2, units(2), 0, units(2), false);
}

#[test]
fn snapshot_lists_each_account_once() {
    let l = run(vec![
        Transaction::Deposit { client: 3, tx: 1, amount: units(1) },
        Transaction::Deposit { client: 1, tx: 2, amount: units(2) },
        Transaction::Deposit { client: 2, tx: 3, amount: units(3) },
        Transaction::Deposit { client: 1, tx: 4, amount: units(4) },
    ]);
    let mut snapshot = l.accounts();
    assert_eq!(snapshot.len(), 3);
    snapshot.sort_by_key(|a| a.client);
    assert_eq!(snapshot[0].client, 1);
    assert_eq!(snapshot[0].available, units(6));
    assert_eq!(snapshot[1].client, 2);
    assert_eq!(snapshot[1].available, units(3));
    assert_eq!(snapshot[2].client, 3);
    assert_eq!(snapshot[2].available, units(1));
}

#[test]
fn empty_stream_yields_empty_snapshot() {
    let l = run(vec![]);
    assert!(l.accounts().is_empty());
    assert!(l.get_account(1).is_none());
    assert!(l.get_deposit(1).is_none());
}
