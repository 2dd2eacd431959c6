use payment_engine::{
    process_records, Account, Amount, DisputeRecord, DisputeRecordKind, Ledger, LedgerError,
    Record, RecordInner, TxnRecord, TxnRecordKind, TxnState,
};

fn amount(text: &str) -> Amount {
    Amount::from_decimal(text.as_bytes()).unwrap()
}

fn txn(kind: TxnRecordKind, client: u16, tx: u32, text: &str) -> Record {
    Record {
        inner: RecordInner::TxnRecord(TxnRecord {
            kind,
            client,
            tx,
            amount: amount(text),
            state: TxnState::Undisputed,
        }),
    }
}

fn deposit(client: u16, tx: u32, text: &str) -> Record {
    txn(TxnRecordKind::Deposit, client, tx, text)
}

fn withdrawal(client: u16, tx: u32, text: &str) -> Record {
    txn(TxnRecordKind::Withdrawal, client, tx, text)
}

fn dispute_family(kind: DisputeRecordKind, client: u16, tx: u32) -> Record {
    Record {
        inner: RecordInner::DisputeRecord(DisputeRecord { kind, client, tx }),
    }
}

fn dispute(client: u16, tx: u32) -> Record {
    dispute_family(DisputeRecordKind::Dispute, client, tx)
}

fn resolve(client: u16, tx: u32) -> Record {
    dispute_family(DisputeRecordKind::Resolve, client, tx)
}

fn chargeback(client: u16, tx: u32) -> Record {
    dispute_family(DisputeRecordKind::ChargeBack, client, tx)
}

fn run(records: Vec<Record>) -> Ledger {
    process_records(&records).unwrap()
}

fn check(account: Account, available: &str, held: &str, total: &str, locked: bool) {
    assert_eq!(account.available, amount(available));
    assert_eq!(account.held, amount(held));
    assert_eq!(account.total, amount(total));
    assert_eq!(account.locked, locked);
}

#[test]
fn scenario_deposits_and_withdrawal() {
    let ledger = run(vec![deposit(1, 1, "5.0"), deposit(2, 2, "10.0"), withdrawal(1, 3, "3.0")]);
    check(ledger.account(1).unwrap(), "2.0", "0", "2.0", false);
    check(ledger.account(2).unwrap(), "10.0", "0", "10.0", false);
    assert_eq!(ledger.into_accounts().len(), 2);
}

#[test]
fn scenario_dispute_holds_funds() {
    let ledger = run(vec![deposit(1, 1, "5.0"), dispute(1, 1)]);
    check(ledger.account(1).unwrap(), "0", "5.0", "5.0", false);
}

#[test]
fn scenario_chargeback_locks() {
    let mut ledger = run(vec![deposit(1, 1, "5.0"), dispute(1, 1), chargeback(1, 1)]);
    check(ledger.account(1).unwrap(), "0", "0", "0", true);
    assert_eq!(ledger.apply(deposit(1, 2, "1.0")), Ok(()));
    check(ledger.account(1).unwrap(), "0", "0", "0", true);
}

#[test]
fn scenario_withdrawal_without_deposit() {
    let ledger = run(vec![withdrawal(9, 1, "100.0")]);
    let account = ledger.account(9).unwrap();
    assert_eq!(account.client, 9);
    check(account, "0", "0", "0", false);
}

#[test]
fn scenario_dispute_of_unknown_tx() {
    let mut ledger = run(vec![deposit(1, 1, "5.0")]);
    assert_eq!(ledger.apply(dispute(1, 999)), Ok(()));
    check(ledger.account(1).unwrap(), "5.0", "0", "5.0", false);
    assert!(ledger.account(2).is_none());
    let alone = run(vec![dispute(1, 999)]);
    assert!(alone.into_accounts().is_empty());
}

#[test]
fn scenario_truncated_deposit() {
    let ledger = run(vec![deposit(1, 1, "5.00009999")]);
    let account = ledger.account(1).unwrap();
    check(account, "5.0", "0", "5.0", false);
    assert_eq!(account.available.units(), 50000);
    assert_eq!(account.total.to_decimal(), b"5.0000".to_vec());
}

#[test]
fn handles_emptiness() {
    let ledger = run(vec![]);
    assert!(ledger.into_accounts().is_empty());
}

#[test]
fn handler_empty_amount() {
    // dispute-protocol records alone have nothing to act on
    let ledger = run(vec![dispute(1, 1), chargeback(1, 1), resolve(1, 1)]);
    assert!(ledger.into_accounts().is_empty());
    // a deposit or withdrawal needs an amount
    assert!(Amount::from_decimal(b"").is_err());
}

#[test]
fn resolve_releases_held_funds() {
    let mut ledger = run(vec![deposit(1, 1, "5.0"), dispute(1, 1), resolve(1, 1)]);
    check(ledger.account(1).unwrap(), "5.0", "0", "5.0", false);
    // once resolved, the transaction can be disputed again
    assert_eq!(ledger.apply(dispute(1, 1)), Ok(()));
    check(ledger.account(1).unwrap(), "0", "5.0", "5.0", false);
}

#[test]
fn resolve_and_chargeback_need_a_dispute() {
    let ledger = run(vec![deposit(1, 1, "5.0"), resolve(1, 1), chargeback(1, 1)]);
    check(ledger.account(1).unwrap(), "5.0", "0", "5.0", false);
}

#[test]
fn insufficient_funds_is_not_an_error() {
    let ledger = run(vec![deposit(1, 1, "2.0"), withdrawal(1, 2, "2.0001")]);
    check(ledger.account(1).unwrap(), "2.0", "0", "2.0", false);
    let exact = run(vec![deposit(1, 1, "2.0"), withdrawal(1, 2, "2.0")]);
    check(exact.account(1).unwrap(), "0", "0", "0", false);
}

#[test]
fn dispute_may_leave_available_negative() {
    let ledger = run(vec![deposit(1, 1, "5.0"), withdrawal(1, 2, "4.0"), dispute(1, 1)]);
    check(ledger.account(1).unwrap(), "-4.0", "5.0", "1.0", false);
}

#[test]
fn disputed_withdrawal_holds_its_amount() {
    let ledger = run(vec![deposit(1, 1, "5.0"), withdrawal(1, 2, "2.0"), dispute(1, 2)]);
    check(ledger.account(1).unwrap(), "1.0", "2.0", "3.0", false);
}

#[test]
fn reused_tx_id_overwrites_stored_transaction() {
    let ledger = run(vec![deposit(1, 1, "5.0"), deposit(1, 1, "2.0"), dispute(1, 1)]);
    check(ledger.account(1).unwrap(), "5.0", "2.0", "7.0", false);
}

#[test]
fn dispute_under_other_client_is_structural_violation() {
    let records = vec![deposit(1, 1, "5.0"), dispute(2, 1)];
    assert_eq!(process_records(&records).err(), Some(LedgerError::StructuralInvariantViolation));
}

#[test]
fn error_leaves_ledger_unchanged() {
    let mut ledger = run(vec![deposit(1, 1, "5.0")]);
    assert_eq!(ledger.apply(dispute(2, 1)), Err(LedgerError::StructuralInvariantViolation));
    check(ledger.account(1).unwrap(), "5.0", "0", "5.0", false);
    assert!(ledger.account(2).is_none());
}

#[test]
fn overflowing_balance_is_an_error() {
    let records = vec![
        deposit(1, 1, "922337203685477.5807"),
        deposit(1, 2, "0.0001"),
    ];
    assert_eq!(process_records(&records).err(), Some(LedgerError::AmountOverflow));
    let fits = run(vec![deposit(1, 1, "922337203685477.5807")]);
    assert_eq!(fits.account(1).unwrap().total.units(), i64::MAX);
}

#[test]
fn run_stops_at_first_error() {
    let records = vec![deposit(1, 1, "5.0"), dispute(3, 1), deposit(2, 2, "1.0")];
    assert!(process_records(&records).is_err());
}

#[test]
fn balance_invariant_holds_throughout() {
    let records = vec![
        deposit(1, 1, "5.5"),
        deposit(2, 2, "3.25"),
        withdrawal(1, 3, "1.1"),
        dispute(1, 1),
        dispute(2, 2),
        resolve(2, 2),
        chargeback(1, 1),
        withdrawal(2, 4, "0.25"),
    ];
    let mut ledger = Ledger::new();
    for record in records {
        ledger.apply(record).unwrap();
        for (_, account) in ledger_accounts(&ledger) {
            assert_eq!(account.total.units(), account.available.units() + account.held.units());
        }
    }
    check(ledger.account(1).unwrap(), "-1.1", "0", "-1.1", true);
    check(ledger.account(2).unwrap(), "3.0", "0", "3.0", false);
}

fn ledger_accounts(ledger: &Ledger) -> Vec<(u16, Account)> {
    let mut out = Vec::new();
    for client in 0..=u16::MAX {
        if let Some(account) = ledger.account(client) {
            out.push((client, account));
        }
    }
    out
}

#[test]
fn dispute_twice_equals_once() {
    let once = run(vec![deposit(1, 1, "5.0"), dispute(1, 1)]);
    let twice = run(vec![deposit(1, 1, "5.0"), dispute(1, 1), dispute(1, 1)]);
    assert_eq!(once.account(1), twice.account(1));
}

#[test]
fn chargeback_is_terminal() {
    let base = vec![deposit(1, 1, "5.0"), deposit(1, 2, "3.0"), dispute(1, 1), chargeback(1, 1)];
    let before = run(base.clone()).account(1).unwrap();
    check(before, "3.0", "0", "3.0", true);
    for extra in [dispute(1, 1), resolve(1, 1), chargeback(1, 1)] {
        let mut records = base.clone();
        records.push(extra);
        records.push(dispute(1, 1));
        assert_eq!(run(records).account(1), Some(before));
    }
}

#[test]
fn locked_account_ignores_deposits_and_withdrawals() {
    let base = vec![deposit(1, 1, "5.0"), deposit(1, 2, "3.0"), dispute(1, 1), chargeback(1, 1)];
    let mut ledger = run(base);
    let before = ledger.account(1).unwrap();
    assert_eq!(ledger.apply(deposit(1, 3, "10.0")), Ok(()));
    assert_eq!(ledger.apply(withdrawal(1, 4, "1.0")), Ok(()));
    assert_eq!(ledger.account(1), Some(before));
    // a dispute on a still-undisputed transaction may move funds, but the
    // account stays locked
    assert_eq!(ledger.apply(dispute(1, 2)), Ok(()));
    let after = ledger.account(1).unwrap();
    assert!(after.locked);
    check(after, "0", "3.0", "3.0", true);
}
