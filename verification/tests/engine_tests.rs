use toy_trx::ledger::process;
use toy_trx::ledger::Ledger;
use toy_trx::model::Account;
use toy_trx::model::Amount;
use toy_trx::model::Transaction;
use toy_trx::model::TxError;
use toy_trx::model::TxType;
use toy_trx::to_transaction;

fn deposit_tx(client: u16, tx: u32, raw: i64) -> Transaction {
    Transaction::new(client, tx, TxType::DEPOSIT, Some(Amount::from_raw(raw)))
}

fn withdrawal_tx(client: u16, tx: u32, raw: i64) -> Transaction {
    Transaction::new(client, tx, TxType::WITHDRAWAL, Some(Amount::from_raw(raw)))
}

#[test]
fn scenario_two_deposits_one_withdrawal() {
    let mut account = Account::new(1);
    account.deposit(&deposit_tx(1, 1, 10_000)).unwrap();
    account.deposit(&deposit_tx(1, 2, 20_000)).unwrap();
    account.withdraw(&withdrawal_tx(1, 3, 15_000)).unwrap();

    assert_eq!(account.available, Amount::from_raw(15_000));
    assert_eq!(account.held, Amount::zero());
    assert_eq!(account.total(), Amount::from_raw(15_000));
    assert_eq!(account.locked, false);
}

#[test]
fn scenario_dispute_then_resolve() {
    let mut account = Account::new(1);
    account.deposit(&deposit_tx(1, 1, 50_000)).unwrap();

    assert_eq!(account.dispute(1), Ok(true));
    assert_eq!(account.available, Amount::zero());
    assert_eq!(account.held, Amount::from_raw(50_000));
    assert_eq!(account.total(), Amount::from_raw(50_000));

    assert_eq!(account.resolve(1), Ok(true));
    assert_eq!(account.available, Amount::from_raw(50_000));
    assert_eq!(account.held, Amount::zero());
    assert_eq!(account.total(), Amount::from_raw(50_000));
}

#[test]
fn scenario_dispute_then_chargeback() {
    let mut account = Account::new(1);
    account.deposit(&deposit_tx(1, 1, 50_000)).unwrap();
    assert_eq!(account.dispute(1), Ok(true));
    assert_eq!(account.chargeback(1), Ok(true));

    assert_eq!(account.available, Amount::zero());
    assert_eq!(account.held, Amount::zero());
    assert_eq!(account.total(), Amount::zero());
    assert_eq!(account.locked, true);
}

#[test]
fn scenario_withdrawal_without_balance() {
    let mut account = Account::new(2);
    let result = account.withdraw(&withdrawal_tx(2, 9, 100_000));

    assert_eq!(result, Err(TxError::InsufficientFunds));
    assert_eq!(account.available, Amount::zero());
    assert_eq!(account.held, Amount::zero());
    assert_eq!(account.total(), Amount::zero());
}

#[test]
fn scenario_dispute_unknown_reference() {
    let mut account = Account::new(1);
    account.deposit(&deposit_tx(1, 1, 50_000)).unwrap();

    assert_eq!(account.dispute(999), Ok(false));
    assert_eq!(account.available, Amount::from_raw(50_000));
    assert_eq!(account.held, Amount::zero());
    assert_eq!(account.total(), Amount::from_raw(50_000));
}

#[test]
fn duplicate_dispute_keeps_single_dispute_balances() {
    let mut account = Account::new(1);
    account.deposit(&deposit_tx(1, 1, 30_000)).unwrap();

    assert_eq!(account.dispute(1), Ok(true));
    let available = account.available;
    let held = account.held;

    assert_eq!(account.dispute(1), Ok(false));
    assert_eq!(account.available, available);
    assert_eq!(account.held, held);
    assert_eq!(account.available, Amount::zero());
    assert_eq!(account.held, Amount::from_raw(30_000));
}

#[test]
fn resolve_restores_predispute_balances_exactly() {
    let mut account = Account::new(1);
    account.deposit(&deposit_tx(1, 1, 12_345)).unwrap();
    account.deposit(&deposit_tx(1, 2, 55_555)).unwrap();
    account.withdraw(&withdrawal_tx(1, 3, 11_111)).unwrap();
    let available = account.available;
    let held = account.held;
    let total = account.total();

    assert_eq!(account.dispute(2), Ok(true));
    assert_eq!(account.total(), total);
    assert_eq!(account.resolve(2), Ok(true));

    assert_eq!(account.available, available);
    assert_eq!(account.held, held);
    assert_eq!(account.total(), total);
    // the transaction can be disputed again after a resolve
    assert_eq!(account.dispute(2), Ok(true));
}

#[test]
fn chargeback_is_terminal() {
    let mut account = Account::new(1);
    account.deposit(&deposit_tx(1, 1, 50_000)).unwrap();
    account.deposit(&deposit_tx(1, 2, 20_000)).unwrap();
    assert_eq!(account.dispute(1), Ok(true));
    assert_eq!(account.chargeback(1), Ok(true));
    assert_eq!(account.locked, true);

    // every later balance-affecting operation is rejected or a no-op
    assert_eq!(
        account.deposit(&deposit_tx(1, 3, 10_000)),
        Err(TxError::AccountLocked)
    );
    assert_eq!(
        account.withdraw(&withdrawal_tx(1, 4, 10_000)),
        Err(TxError::AccountLocked)
    );
    assert_eq!(account.dispute(2), Ok(false));
    assert_eq!(account.resolve(2), Ok(false));
    assert_eq!(account.chargeback(2), Ok(false));
    assert_eq!(account.available, Amount::from_raw(20_000));
    assert_eq!(account.held, Amount::zero());
}

#[test]
fn deposit_overflow_is_rejected() {
    let mut account = Account::new(1);
    account.deposit(&deposit_tx(1, 1, i64::MAX)).unwrap();
    let result = account.deposit(&deposit_tx(1, 2, i64::MAX));

    assert_eq!(result, Err(TxError::BalanceOutOfRange));
    assert_eq!(account.available, Amount::from_raw(i64::MAX));
    assert_eq!(account.held, Amount::zero());
}

#[test]
fn ledger_creates_accounts_lazily() {
    let mut ledger = Ledger::new();
    assert_eq!(ledger.len(), 0);
    assert!(ledger.get(1).is_none());

    {
        let account = ledger.get_or_create(1);
        assert_eq!(account.client, 1);
        assert_eq!(account.available, Amount::zero());
        assert_eq!(account.locked, false);
    }
    assert_eq!(ledger.len(), 1);

    // a second reference finds the same account rather than a fresh one
    ledger.apply(&deposit_tx(1, 1, 10_000)).unwrap();
    let account = ledger.get_or_create(1);
    assert_eq!(account.available, Amount::from_raw(10_000));
}

#[test]
fn ledger_apply_swallows_soft_failures() {
    let mut ledger = Ledger::new();
    // an uncovered withdrawal and an unknown dispute are not surfaced
    assert_eq!(ledger.apply(&withdrawal_tx(5, 1, 10_000)), Ok(()));
    assert_eq!(
        ledger.apply(&Transaction::new(5, 999, TxType::DISPUTE, None)),
        Ok(())
    );
    let account = ledger.get(5).unwrap();
    assert_eq!(account.available, Amount::zero());
    assert_eq!(account.total(), Amount::zero());
}

#[test]
fn ledger_apply_surfaces_deposit_failures() {
    let mut ledger = Ledger::new();
    ledger.apply(&deposit_tx(9, 1, 10_000)).unwrap();
    ledger
        .apply(&Transaction::new(9, 1, TxType::DISPUTE, None))
        .unwrap();
    ledger
        .apply(&Transaction::new(9, 1, TxType::CHARGEBACK, None))
        .unwrap();

    // the account is now locked, so a deposit fails and the failure shows
    assert_eq!(
        ledger.apply(&deposit_tx(9, 2, 10_000)),
        Err(TxError::AccountLocked)
    );
}

#[test]
fn snapshot_has_one_row_per_client() {
    let mut ledger = Ledger::new();
    ledger.apply(&deposit_tx(1, 1, 10_000)).unwrap();
    ledger.apply(&deposit_tx(2, 2, 20_000)).unwrap();
    ledger.apply(&deposit_tx(1, 3, 5_000)).unwrap();

    let mut rows = ledger.snapshot();
    assert_eq!(rows.len(), 2);
    rows.sort_by_key(|r| r.client);

    assert_eq!(rows[0].client, 1);
    assert_eq!(rows[0].available, Amount::from_raw(15_000));
    assert_eq!(rows[0].held, Amount::zero());
    assert_eq!(rows[0].total, Amount::from_raw(15_000));
    assert_eq!(rows[0].locked, false);

    assert_eq!(rows[1].client, 2);
    assert_eq!(rows[1].total, Amount::from_raw(20_000));
}

#[test]
fn kind_tokens_parse_exactly() {
    assert_eq!(TxType::from_str("deposit"), Ok(TxType::DEPOSIT));
    assert_eq!(TxType::from_str("withdrawal"), Ok(TxType::WITHDRAWAL));
    assert_eq!(TxType::from_str("dispute"), Ok(TxType::DISPUTE));
    assert_eq!(TxType::from_str("resolve"), Ok(TxType::RESOLVE));
    assert_eq!(TxType::from_str("chargeback"), Ok(TxType::CHARGEBACK));
    assert_eq!(TxType::from_str("Deposit"), Err(TxError::MalformedTransaction));
    assert_eq!(TxType::from_str(""), Err(TxError::MalformedTransaction));
}

#[test]
fn process_runs_a_whole_stream() {
    let rows = [
        "deposit,1,1,1.0",
        "deposit,2,2,2.0",
        "deposit,1,3,2.0",
        "withdrawal,1,4,1.5",
        "dispute,2,2,",
        "withdrawal,2,5,0.5",
        "chargeback,2,2,",
    ];
    let mut txs: Vec<Transaction> = Vec::new();
    for row in rows {
        txs.push(to_transaction(row));
    }
    let ledger = process(&txs);

    let one = ledger.get(1).unwrap();
    assert_eq!(one.available, Amount::from_raw(15_000));
    assert_eq!(one.held, Amount::zero());
    assert_eq!(one.total(), Amount::from_raw(15_000));
    assert_eq!(one.locked, false);

    // client 2's only deposit was charged back; the withdrawal while the
    // funds were held had nothing available to draw on
    let two = ledger.get(2).unwrap();
    assert_eq!(two.available, Amount::zero());
    assert_eq!(two.held, Amount::zero());
    assert_eq!(two.total(), Amount::zero());
    assert_eq!(two.locked, true);

    assert!(ledger.get(3).is_none());
    assert_eq!(ledger.len(), 2);
}
