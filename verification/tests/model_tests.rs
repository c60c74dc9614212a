use toy_trx::model::Account;
use toy_trx::model::Amount;
use toy_trx::model::TxError;
use toy_trx::model::Transaction;
use toy_trx::model::TxType;

#[test]
fn create_account_with_zero_defaults() {
    let account = Account::new(1);

    assert_eq!(1, account.client);
    assert_eq!(Amount::zero(), account.available);
    assert_eq!(Amount::zero(), account.held);
    assert_eq!(Amount::zero(), account.total());
    assert_eq!(false, account.locked);
}

#[test]
fn default_account_with_defaults() {
    let account = Account::default();

    assert_eq!(0, account.client);
    assert_eq!(Amount::zero(), account.available);
    assert_eq!(Amount::zero(), account.held);
    assert_eq!(Amount::zero(), account.total());
    assert_eq!(false, account.locked);
}

#[test]
fn find_tx_after_add_tx() {
    let mut account = Account::new(7);
    let tx = Transaction::new(7, 42, TxType::DEPOSIT, Some(Amount::from_raw(12_345)));
    assert!(account.find_tx(42).is_none());
    account.add_tx(tx).unwrap();
    let found = account.find_tx(42).unwrap();
    assert_eq!(found.tx, 42);
    assert_eq!(found.client, 7);
    assert_eq!(found.amount, Some(Amount::from_raw(12_345)));
}

#[test]
fn try_new_enforces_amount_shape() {
    // an amount-bearing kind without an amount is malformed
    assert_eq!(
        Transaction::try_new(1, 1, TxType::DEPOSIT, None),
        Err(TxError::MalformedTransaction)
    );
    // a non-positive amount is malformed
    assert_eq!(
        Transaction::try_new(1, 1, TxType::WITHDRAWAL, Some(Amount::from_raw(0))),
        Err(TxError::MalformedTransaction)
    );
    assert_eq!(
        Transaction::try_new(1, 1, TxType::DEPOSIT, Some(Amount::from_raw(-5))),
        Err(TxError::MalformedTransaction)
    );
    // a reference-only kind with an amount is malformed
    assert_eq!(
        Transaction::try_new(1, 1, TxType::DISPUTE, Some(Amount::from_raw(10_000))),
        Err(TxError::MalformedTransaction)
    );
    // the valid shapes come back unchanged
    let d = Transaction::try_new(1, 1, TxType::DEPOSIT, Some(Amount::from_raw(10_000))).unwrap();
    assert_eq!(d, Transaction::new(1, 1, TxType::DEPOSIT, Some(Amount::from_raw(10_000))));
    let r = Transaction::try_new(1, 2, TxType::RESOLVE, None).unwrap();
    assert_eq!(r, Transaction::new(1, 2, TxType::RESOLVE, None));
}

#[test]
fn amount_constructors() {
    assert_eq!(Amount::from_units(100), Some(Amount::from_raw(1_000_000)));
    assert_eq!(Amount::from_units(0), Some(Amount::zero()));
    assert_eq!(Amount::from_units(i64::MAX), None);
    assert!(Amount::from_raw(1).is_positive());
    assert!(!Amount::from_raw(0).is_positive());
    assert!(!Amount::from_raw(-1).is_positive());
}

#[test]
fn to_output_derives_total() {
    let mut account = Account::new(3);
    let tx = Transaction::new(3, 1, TxType::DEPOSIT, Some(Amount::from_raw(25_000)));
    account.deposit(&tx).unwrap();
    account.dispute(1).unwrap();
    let out = account.to_output();
    assert_eq!(out.client, 3);
    assert_eq!(out.available, Amount::zero());
    assert_eq!(out.held, Amount::from_raw(25_000));
    assert_eq!(out.total, Amount::from_raw(25_000));
    assert_eq!(out.locked, false);
}

#[test]
fn render_four_fractional_digits() {
    assert_eq!(Amount::from_raw(10_000).render(), "1.0000");
    assert_eq!(Amount::from_raw(15_000).render(), "1.5000");
    assert_eq!(Amount::from_raw(1).render(), "0.0001");
    assert_eq!(Amount::zero().render(), "0.0000");
    assert_eq!(Amount::from_raw(-15_000).render(), "-1.5000");
    assert_eq!(Amount::from_raw(1_234_567).render(), "123.4567");
    assert_eq!(Amount::from_raw(i64::MAX).render(), "922337203685477.5807");
    assert_eq!(Amount::from_raw(i64::MIN).render(), "-922337203685477.5808");
}

#[test]
fn render_parses_back() {
    for raw in [1i64, 9_999, 10_000, 15_000, 123_456_789, i64::MAX] {
        let text = format!("deposit,1,1,{}", Amount::from_raw(raw).render());
        let trx = toy_trx::try_to_transaction(&text).unwrap();
        assert_eq!(trx.amount, Some(Amount::from_raw(raw)));
    }
}
