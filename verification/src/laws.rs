//! The general laws of the account state machine, proved over the same
//! spec functions the operations' contracts use.

use crate::model::account_step;
use crate::model::dec_digits;
use crate::model::digit_char;
use crate::model::render_spec;
use crate::model::chargeback_applied;
use crate::model::chargeback_ok;
use crate::model::chargeback_spec;
use crate::model::deposit_applied;
use crate::model::deposit_fits;
use crate::model::deposit_spec;
use crate::model::dispute_applied;
use crate::model::dispute_ok;
use crate::model::dispute_spec;
use crate::model::resolve_applied;
use crate::model::resolve_ok;
use crate::model::resolve_spec;
use crate::model::withdraw_applied;
use crate::model::withdraw_spec;
use crate::model::AccountView;
use crate::model::Transaction;
use crate::model::TxError;
use crate::model::TxType;
use crate::parse::all_digits;
use crate::parse::amount_of;
use crate::parse::char_after;
use crate::parse::digit_val;
use crate::parse::digits_val;
use crate::parse::frac_scale;
use crate::parse::lemma_char_after_at;
use vstd::prelude::*;

verus! {

/// Every step of the account state machine preserves well-formedness: in
/// particular the derived total `available + held` stays representable at
/// every observation point, whatever transaction arrives.
pub proof fn lemma_account_step_preserves_wf(a: AccountView, t: Transaction)
    requires
        a.wf(),
        t.well_formed(),
        t.client == a.client,
    ensures
        account_step(a, t).wf(),
{
    match t.tx_type {
        TxType::DEPOSIT => {
            if !a.locked && deposit_fits(a, t.amount->0@) {
                let b = deposit_applied(a, t);
                assert forall|k: u32| #[trigger] b.ledger.contains_key(k) implies {
                    let e = b.ledger[k];
                    e.tx == k && e.client == b.client && e.tx_type.carries_amount()
                        && e.well_formed()
                } by {
                    if k != t.tx {
                        assert(a.ledger.contains_key(k));
                    }
                }
                assert forall|k: u32| #[trigger] b.disputes.contains(k) implies
                    b.ledger.contains_key(k) by {
                    assert(a.ledger.contains_key(k));
                }
            }
        },
        TxType::WITHDRAWAL => {
            if !a.locked && a.available >= t.amount->0@ {
                let b = withdraw_applied(a, t);
                assert forall|k: u32| #[trigger] b.ledger.contains_key(k) implies {
                    let e = b.ledger[k];
                    e.tx == k && e.client == b.client && e.tx_type.carries_amount()
                        && e.well_formed()
                } by {
                    if k != t.tx {
                        assert(a.ledger.contains_key(k));
                    }
                }
                assert forall|k: u32| #[trigger] b.disputes.contains(k) implies
                    b.ledger.contains_key(k) by {
                    assert(a.ledger.contains_key(k));
                }
            }
        },
        TxType::DISPUTE => {
            if dispute_ok(a, t.tx) {
                let b = dispute_applied(a, t.tx);
                assert(a.ledger.contains_key(t.tx));
                assert forall|k: u32| #[trigger] b.disputes.contains(k) implies
                    b.ledger.contains_key(k) by {
                    if k != t.tx {
                        assert(a.disputes.contains(k));
                    }
                }
            }
        },
        TxType::RESOLVE => {
            if resolve_ok(a, t.tx) {
                let b = resolve_applied(a, t.tx);
                assert(a.ledger.contains_key(t.tx));
                assert forall|k: u32| #[trigger] b.disputes.contains(k) implies
                    b.ledger.contains_key(k) by {
                    assert(a.disputes.contains(k));
                }
            }
        },
        TxType::CHARGEBACK => {
            if chargeback_ok(a, t.tx) {
                let b = chargeback_applied(a, t.tx);
                assert(a.ledger.contains_key(t.tx));
                assert forall|k: u32| #[trigger] b.disputes.contains(k) implies
                    b.ledger.contains_key(k) by {
                    assert(a.disputes.contains(k));
                }
            }
        },
    }
}

/// The available balance never goes negative through a deposit, a covered
/// withdrawal, a resolve or a chargeback; a dispute keeps it non-negative
/// whenever the disputed funds are still available.
pub proof fn lemma_available_stays_nonneg(a: AccountView, t: Transaction)
    requires
        a.wf(),
        t.well_formed(),
        t.client == a.client,
        a.available >= 0,
        t.tx_type == TxType::DISPUTE && dispute_ok(a, t.tx) ==> a.available
            >= a.referenced_amount(t.tx),
    ensures
        account_step(a, t).available >= 0,
{
    if t.tx_type == TxType::RESOLVE && resolve_ok(a, t.tx) {
        assert(a.ledger.contains_key(t.tx));
        assert(a.ledger[t.tx].well_formed());
    }
}

/// Disputing the same transaction twice in a row yields `true` then
/// `false`, and the second, rejected dispute leaves the balances exactly
/// as the single successful dispute did.
pub proof fn lemma_dispute_idempotent(a: AccountView, k: u32)
    requires
        a.wf(),
        dispute_ok(a, k),
    ensures
        dispute_spec(a, k) == (dispute_applied(a, k), true),
        dispute_spec(dispute_applied(a, k), k) == (dispute_applied(a, k), false),
{
    let a1 = dispute_applied(a, k);
    assert(a1.disputes.contains(k));
    assert(!dispute_ok(a1, k));
}

/// A successful dispute followed by its resolve restores the account
/// exactly — balances, dispute set and all — and the total never moves at
/// either step.
pub proof fn lemma_dispute_resolve_round_trip(a: AccountView, k: u32)
    requires
        a.wf(),
        dispute_ok(a, k),
    ensures
        resolve_ok(dispute_applied(a, k), k),
        resolve_applied(dispute_applied(a, k), k) == a,
        dispute_applied(a, k).total() == a.total(),
        resolve_spec(dispute_applied(a, k), k) == (a, true),
{
    let a1 = dispute_applied(a, k);
    assert(a1.disputes.contains(k));
    let a2 = resolve_applied(a1, k);
    assert(a2.disputes =~= a.disputes);
    assert(a2 =~= a);
}

/// A chargeback is terminal: it locks the account, and on a locked account
/// every later deposit or withdrawal is rejected with `AccountLocked` and
/// every later dispute, resolve or chargeback is a silent no-op.
pub proof fn lemma_chargeback_terminal(a: AccountView, k: u32)
    requires
        a.wf(),
        chargeback_ok(a, k),
    ensures
        chargeback_spec(a, k) == (chargeback_applied(a, k), true),
        chargeback_applied(a, k).locked,
        forall|t: Transaction| #[trigger] deposit_spec(chargeback_applied(a, k), t) == (
            chargeback_applied(a, k),
            Err::<(), TxError>(TxError::AccountLocked),
        ),
        forall|t: Transaction| #[trigger] withdraw_spec(chargeback_applied(a, k), t) == (
            chargeback_applied(a, k),
            Err::<(), TxError>(TxError::AccountLocked),
        ),
        forall|j: u32| #[trigger] dispute_spec(chargeback_applied(a, k), j) == (
            chargeback_applied(a, k),
            false,
        ),
        forall|j: u32| #[trigger] resolve_spec(chargeback_applied(a, k), j) == (
            chargeback_applied(a, k),
            false,
        ),
        forall|j: u32| #[trigger] chargeback_spec(chargeback_applied(a, k), j) == (
            chargeback_applied(a, k),
            false,
        ),
{
}

/// Appending one digit multiplies a digit string's value by ten.
proof fn lemma_digits_val_push(s: Seq<char>, c: char)
    ensures
        digits_val(s.push(c)) == digits_val(s) * 10 + digit_val(c),
{
    assert(s.push(c).drop_last() =~= s);
    assert(s.push(c).last() == c);
}

/// The decimal digits of a non-negative number form a digit string worth
/// that number.
proof fn lemma_dec_digits_val(n: int)
    requires
        n >= 0,
    ensures
        dec_digits(n).len() >= 1,
        all_digits(dec_digits(n)),
        digits_val(dec_digits(n)) == n,
    decreases n,
{
    if n < 10 {
        let s = seq![digit_char(n)];
        assert(s.drop_last() =~= Seq::<char>::empty());
        assert(digits_val(Seq::<char>::empty()) == 0);
        assert(digits_val(s) == digit_val(digit_char(n)));
    } else {
        lemma_dec_digits_val(n / 10);
        let s = dec_digits(n / 10).push(digit_char(n % 10));
        assert(s.drop_last() =~= dec_digits(n / 10));
        assert(all_digits(s)) by {
            assert(forall|i: int|
                0 <= i < s.len() - 1 ==> #[trigger] s[i] == dec_digits(n / 10)[i]);
            assert(s[s.len() - 1] == digit_char(n % 10));
        }
    }
}

/// Rendering a non-negative amount and reading the text back as an amount
/// returns exactly the value that was rendered: the fixed four-digit
/// rendering loses nothing.
#[verifier::rlimit(50)]
pub proof fn lemma_render_parses_back(v: int)
    requires
        0 <= v <= i64::MAX,
    ensures
        amount_of(render_spec(v)) == Some(v as i64),
{
    let f = v % 10000;
    let w = v / 10000;
    let ip = dec_digits(w);
    let fp = seq![
        digit_char(f / 1000),
        digit_char((f / 100) % 10),
        digit_char((f / 10) % 10),
        digit_char(f % 10),
    ];
    let s = render_spec(v);
    lemma_dec_digits_val(w);
    assert(s =~= ip + seq!['.'] + fp);

    // the fraction is four digits worth exactly `f`
    assert(all_digits(fp));
    assert(digits_val(fp) == f) by {
        let d0 = digit_char(f / 1000);
        let d1 = digit_char((f / 100) % 10);
        let d2 = digit_char((f / 10) % 10);
        let d3 = digit_char(f % 10);
        let s0 = seq![d0];
        let s1 = s0.push(d1);
        let s2 = s1.push(d2);
        assert(fp =~= s2.push(d3));
        assert(s0.drop_last() =~= Seq::<char>::empty());
        assert(digits_val(Seq::<char>::empty()) == 0);
        assert(digits_val(s0) == digit_val(d0));
        lemma_digits_val_push(s0, d1);
        lemma_digits_val_push(s1, d2);
        lemma_digits_val_push(s2, d3);
        assert((f / 1000) * 10 + (f / 100) % 10 == f / 100) by (nonlinear_arith)
            requires
                0 <= f < 10000,
        ;
        assert((f / 100) * 10 + (f / 10) % 10 == f / 10) by (nonlinear_arith)
            requires
                0 <= f < 10000,
        ;
        assert((f / 10) * 10 + f % 10 == f);
    }

    // the one point sits right after the whole units
    let dot = ip.len() as int;
    assert(char_after(s, 0, '.') == dot) by {
        assert(forall|j: int| 0 <= j < dot ==> s[j] == ip[j] && s[j] != '.');
        assert(s[dot] == '.');
        lemma_char_after_at(s, 0, dot, '.');
    }
    assert(char_after(s, dot + 1, '.') == s.len()) by {
        assert(forall|j: int| dot + 1 <= j < s.len() ==> s[j] == fp[j - dot - 1] && s[j] != '.');
        lemma_char_after_at(s, dot + 1, s.len() as int, '.');
    }

    assert(s.subrange(0, dot) =~= ip);
    assert(s.subrange(dot + 1, s.len() as int) =~= fp);
    assert(digits_val(ip) * 10000 + digits_val(fp) * frac_scale(4) == v);
}

} // verus!
