//! A small account-ledger engine for a stream of financial transactions.
//!
//! The stream carries five kinds of records (deposit, withdrawal, dispute,
//! resolve, chargeback), each scoped to one client.  Every account keeps an
//! `available` and a `held` balance together with a lock flag; the derived
//! `total` is always `available + held`.  Monetary values are fixed-point
//! numbers with four fractional digits, held in a [`model::Amount`].

use parse::find_char;
use parse::lemma_char_after;
use vstd::prelude::*;
use vstd::string::StrSliceExecFns;

pub mod laws;
pub mod ledger;
pub mod model;
pub mod parse;

verus! {

/// Reads one input row into a `Transaction`, reporting a malformed row.
///
/// The result is exactly what [`parse::parse_row`] gives on the row's
/// characters, and a successful result always satisfies
/// [`model::Transaction::well_formed`].
pub fn try_to_transaction(input_row: &str) -> (r: Result<model::Transaction, model::TxError>)
    ensures
        match r {
            Ok(t) => parse::parse_row(input_row@) == Some(t) && t.well_formed(),
            Err(e) => parse::parse_row(input_row@) is None && e
                == model::TxError::MalformedTransaction,
        },
{
    let n = input_row.unicode_len();
    let c1 = find_char(input_row, 0, ',');
    proof {
        lemma_char_after(input_row@, 0, ',');
    }
    if c1 == n {
        return Err(model::TxError::MalformedTransaction);
    }
    let c2 = find_char(input_row, c1 + 1, ',');
    proof {
        lemma_char_after(input_row@, c1 as int + 1, ',');
    }
    if c2 == n {
        return Err(model::TxError::MalformedTransaction);
    }
    let c3 = find_char(input_row, c2 + 1, ',');
    proof {
        lemma_char_after(input_row@, c2 as int + 1, ',');
    }
    let kind = match parse::kind_token(input_row.substring_char(0, c1)) {
        Some(k) => k,
        None => {
            return Err(model::TxError::MalformedTransaction);
        },
    };
    let client = match parse::parse_digits(input_row.substring_char(c1 + 1, c2), 65535) {
        Some(v) => v as u16,
        None => {
            return Err(model::TxError::MalformedTransaction);
        },
    };
    let tx = match parse::parse_digits(input_row.substring_char(c2 + 1, c3), 4294967295) {
        Some(v) => v as u32,
        None => {
            return Err(model::TxError::MalformedTransaction);
        },
    };
    let carries = match kind {
        model::TxType::DEPOSIT => true,
        model::TxType::WITHDRAWAL => true,
        _ => false,
    };
    if c3 == n {
        if carries {
            return Err(model::TxError::MalformedTransaction);
        }
        return Ok(model::Transaction::new(client, tx, kind, None));
    }
    if find_char(input_row, c3 + 1, ',') != n {
        return Err(model::TxError::MalformedTransaction);
    }
    if c3 + 1 == n {
        if carries {
            return Err(model::TxError::MalformedTransaction);
        }
        return Ok(model::Transaction::new(client, tx, kind, None));
    }
    if !carries {
        return Err(model::TxError::MalformedTransaction);
    }
    match parse::parse_amount(input_row.substring_char(c3 + 1, n)) {
        Some(v) => {
            if v > 0 {
                Ok(model::Transaction::new(client, tx, kind, Some(model::Amount::from_raw(v))))
            } else {
                Err(model::TxError::MalformedTransaction)
            }
        },
        None => Err(model::TxError::MalformedTransaction),
    }
}

/// Reads one input row that is known to be well shaped; rows that
/// [`parse::parse_row`] rejects are ruled out beforehand.
pub fn to_transaction(input_row: &str) -> (r: model::Transaction)
    requires
        parse::parse_row(input_row@) is Some,
    ensures
        Some(r) == parse::parse_row(input_row@),
{
    match try_to_transaction(input_row) {
        Ok(t) => t,
        Err(_) => {
            proof {
                assert(false);
            }
            vstd::pervasive::unreached()
        },
    }
}

} // verus!
