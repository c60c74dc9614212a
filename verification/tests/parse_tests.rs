use toy_trx::model::Amount;
use toy_trx::model::TxType;
use toy_trx::to_transaction;
use toy_trx::try_to_transaction;

#[test]
fn parse_csv_to_transactions() {
    let input = "\ndeposit,1,1,1.0\ndeposit,1,2,2.0\nwithdrawal,1,3,1.0\ndispute,1,2,\nresolve,1,2,\nchargeback,1,2,\n";
    let rows: Vec<&str> = input.lines().filter(|l| !l.is_empty()).collect();

    assert_eq!(6, rows.len());

    for row in rows {
        let trx = to_transaction(row);

        match trx.tx_type {
            TxType::DEPOSIT => {
                assert_eq!(trx.tx_type, TxType::DEPOSIT);
            }
            TxType::WITHDRAWAL => {
                assert_eq!(trx.tx_type, TxType::WITHDRAWAL);
            }
            TxType::DISPUTE => {
                assert_eq!(trx.tx_type, TxType::DISPUTE);
            }
            TxType::RESOLVE => {
                assert_eq!(trx.tx_type, TxType::RESOLVE);
            }
            TxType::CHARGEBACK => {
                assert_eq!(trx.tx_type, TxType::CHARGEBACK);
            }
        }
    }
}

#[test]
fn parse_deposit_tx() {
    let deposit = "deposit,1,1,1.0";
    let trx = to_transaction(deposit);

    assert_eq!(trx.client, 1);
    assert_eq!(trx.tx, 1);
    assert_eq!(trx.tx_type, TxType::DEPOSIT);
    assert_eq!(trx.amount, Some(Amount::from_raw(10_000)));
}

#[test]
fn parse_withdrawal_tx() {
    let withdrawal = "withdrawal,1,1,1.0";
    let trx = to_transaction(withdrawal);

    assert_eq!(trx.client, 1);
    assert_eq!(trx.tx, 1);
    assert_eq!(trx.tx_type, TxType::WITHDRAWAL);
    assert_eq!(trx.amount, Some(Amount::from_raw(10_000)));
}

#[test]
fn parse_dispute_tx() {
    let dispute = "dispute,1,1,";
    let trx = to_transaction(dispute);

    assert_eq!(trx.client, 1);
    assert_eq!(trx.tx, 1);
    assert_eq!(trx.tx_type, TxType::DISPUTE);
    assert_eq!(trx.amount, None);
}

#[test]
fn parse_resolve_tx() {
    let resolve = "resolve,1,1,";
    let trx = to_transaction(resolve);

    assert_eq!(trx.client, 1);
    assert_eq!(trx.tx, 1);
    assert_eq!(trx.tx_type, TxType::RESOLVE);
    assert_eq!(trx.amount, None);
}

#[test]
fn parse_chargeback_tx() {
    let chargeback = "chargeback,1,1,";
    let trx = to_transaction(chargeback);

    assert_eq!(trx.client, 1);
    assert_eq!(trx.tx, 1);
    assert_eq!(trx.tx_type, TxType::CHARGEBACK);
    assert_eq!(trx.amount, None);
}

#[test]
fn try_parse_deposit_tx() {
    let deposit = "deposit,1,1,1.0";
    let trx = try_to_transaction(deposit);

    assert_eq!(trx.is_ok(), true);
}

#[test]
fn try_parse_withdrawal_tx() {
    let withdrawal = "withdrawal,1,1,1.0";
    let trx = try_to_transaction(withdrawal);

    assert_eq!(trx.is_ok(), true);
}

#[test]
fn try_parse_dispute_tx() {
    let dispute = "dispute,1,1,";
    let trx = try_to_transaction(dispute);

    assert_eq!(trx.is_ok(), true);
}

#[test]
fn try_parse_resolve_tx() {
    let resolve = "resolve,1,1,";
    let trx = try_to_transaction(resolve);

    assert_eq!(trx.is_ok(), true);
}

#[test]
fn try_parse_chargeback_tx() {
    let chargeback = "chargeback,1,1,";
    let trx = try_to_transaction(chargeback);

    assert_eq!(trx.is_ok(), true);
}

#[test]
fn parse_three_field_reference_rows() {
    // a reference row may omit the fourth field entirely
    let trx = to_transaction("dispute,5,77");
    assert_eq!(trx.client, 5);
    assert_eq!(trx.tx, 77);
    assert_eq!(trx.tx_type, TxType::DISPUTE);
    assert_eq!(trx.amount, None);
}

#[test]
fn parse_fractional_amounts_exactly() {
    assert_eq!(
        to_transaction("deposit,1,1,1.5").amount,
        Some(Amount::from_raw(15_000))
    );
    assert_eq!(
        to_transaction("deposit,1,1,0.0001").amount,
        Some(Amount::from_raw(1))
    );
    assert_eq!(
        to_transaction("deposit,1,1,2").amount,
        Some(Amount::from_raw(20_000))
    );
    assert_eq!(
        to_transaction("deposit,1,1,3.14").amount,
        Some(Amount::from_raw(31_400))
    );
    // the largest representable amount
    assert_eq!(
        to_transaction("deposit,1,1,922337203685477.5807").amount,
        Some(Amount::from_raw(i64::MAX))
    );
}

#[test]
fn reject_malformed_rows() {
    // unknown kind token
    assert!(try_to_transaction("transfer,1,1,1.0").is_err());
    // client id out of the unsigned 16-bit range
    assert!(try_to_transaction("deposit,70000,1,1.0").is_err());
    // transaction id out of the unsigned 32-bit range
    assert!(try_to_transaction("deposit,1,4294967296,1.0").is_err());
    // non-numeric fields
    assert!(try_to_transaction("deposit,one,1,1.0").is_err());
    assert!(try_to_transaction("deposit,1,one,1.0").is_err());
    // missing fields
    assert!(try_to_transaction("").is_err());
    assert!(try_to_transaction("deposit").is_err());
    assert!(try_to_transaction("deposit,1").is_err());
    // too many fields
    assert!(try_to_transaction("deposit,1,1,1.0,junk").is_err());
}

#[test]
fn reject_malformed_amounts() {
    // an amount-bearing row needs an amount
    assert!(try_to_transaction("deposit,1,1,").is_err());
    assert!(try_to_transaction("deposit,1,1").is_err());
    assert!(try_to_transaction("withdrawal,1,1,").is_err());
    // a reference row must not carry one
    assert!(try_to_transaction("dispute,1,1,1.0").is_err());
    assert!(try_to_transaction("resolve,1,1,0.5").is_err());
    // zero and negative amounts are rejected, not coerced
    assert!(try_to_transaction("deposit,1,1,0").is_err());
    assert!(try_to_transaction("deposit,1,1,0.0000").is_err());
    assert!(try_to_transaction("deposit,1,1,-1.0").is_err());
    // malformed decimals
    assert!(try_to_transaction("deposit,1,1,1.").is_err());
    assert!(try_to_transaction("deposit,1,1,.5").is_err());
    assert!(try_to_transaction("deposit,1,1,1.2.3").is_err());
    assert!(try_to_transaction("deposit,1,1,1.00000").is_err());
    assert!(try_to_transaction("deposit,1,1,1a").is_err());
    // just past the largest representable amount
    assert!(try_to_transaction("deposit,1,1,922337203685477.5808").is_err());
    assert!(try_to_transaction("deposit,1,1,922337203685478").is_err());
}
