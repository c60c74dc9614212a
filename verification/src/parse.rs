//! Parsing of one delimited input row into a [`Transaction`].
//!
//! A row is `kind,client,tx` or `kind,client,tx,amount`, with an empty
//! fourth field counting as an absent amount.  The amount is a decimal
//! number with at most four fractional digits, read into a raw count of
//! ten-thousandths.  Everything that violates this shape — or the tie
//! between kind and amount — is a `MalformedTransaction`.

use crate::model::Amount;
use crate::model::Transaction;
use crate::model::TxType;
use vstd::prelude::*;

verus! {

/// A decimal digit, by code point.
pub open spec fn is_digit(c: char) -> bool {
    48 <= c as u32 <= 57
}

/// The numeric value of a decimal digit.
pub open spec fn digit_val(c: char) -> int {
    c as u32 - 48
}

/// Every character of `s` is a decimal digit.
pub open spec fn all_digits(s: Seq<char>) -> bool {
    forall|i: int| 0 <= i < s.len() ==> is_digit(#[trigger] s[i])
}

/// The value of a digit string, most significant digit first.
pub open spec fn digits_val(s: Seq<char>) -> int
    decreases s.len(),
{
    if s.len() == 0 {
        0
    } else {
        digits_val(s.drop_last()) * 10 + digit_val(s.last())
    }
}

/// Ten to the `n`th.
pub open spec fn pow10(n: nat) -> int
    decreases n,
{
    if n == 0 {
        1
    } else {
        10 * pow10((n - 1) as nat)
    }
}

/// A digit string's value is non-negative and below ten to its length.
pub proof fn lemma_digits_val_bounds(s: Seq<char>)
    requires
        all_digits(s),
    ensures
        0 <= digits_val(s) < pow10(s.len()),
    decreases s.len(),
{
    if s.len() > 0 {
        assert(all_digits(s.drop_last())) by {
            assert(forall|i: int|
                0 <= i < s.drop_last().len() ==> #[trigger] s.drop_last()[i] == s[i]);
        }
        lemma_digits_val_bounds(s.drop_last());
        assert(is_digit(s.last()));
    }
}

/// Extending a digit prefix by one digit multiplies its value by ten and
/// adds the new digit.
pub proof fn lemma_digits_val_step(s: Seq<char>, i: int)
    requires
        0 <= i < s.len(),
    ensures
        digits_val(s.take(i + 1)) == digits_val(s.take(i)) * 10 + digit_val(s[i]),
{
    assert(s.take(i + 1).drop_last() =~= s.take(i));
    assert(s.take(i + 1).last() == s[i]);
}

/// A digit string is worth at least any of its prefixes.
pub proof fn lemma_digits_val_prefix(s: Seq<char>, i: int)
    requires
        all_digits(s),
        0 <= i <= s.len(),
    ensures
        digits_val(s.take(i)) <= digits_val(s),
    decreases s.len() - i,
{
    if i == s.len() {
        assert(s.take(i) =~= s);
    } else {
        lemma_digits_val_step(s, i);
        assert(all_digits(s.take(i))) by {
            assert(forall|j: int| 0 <= j < i ==> #[trigger] s.take(i)[j] == s[j]);
        }
        lemma_digits_val_bounds(s.take(i));
        assert(is_digit(s[i]));
        lemma_digits_val_prefix(s, i + 1);
    }
}

/// Reads the whole of `s` as a digit string worth at most `cap`; yields
/// nothing when `s` is empty, holds a non-digit, or is worth more.
pub fn parse_digits(s: &str, cap: u64) -> (r: Option<u64>)
    requires
        cap <= 1_000_000_000_000_000_000u64,  // ten times the cap plus a digit must fit
    ensures
        match r {
            Some(v) => s@.len() > 0 && all_digits(s@) && digits_val(s@) == v && v <= cap,
            None => !(s@.len() > 0 && all_digits(s@) && digits_val(s@) <= cap),
        },
{
    let n = s.unicode_len();
    if n == 0 {
        return None;
    }
    let mut acc: u64 = 0;
    let mut i: usize = 0;
    while i < n
        invariant
            0 <= i <= n,
            n == s@.len(),
            cap <= 1_000_000_000_000_000_000u64,
            acc <= cap,
            all_digits(s@.take(i as int)),
            acc == digits_val(s@.take(i as int)),
        decreases n - i,
    {
        let c = s.get_char(i);
        let u = c as u32;
        if u < 48 || u > 57 {
            proof {
                assert(!is_digit(s@[i as int]));
            }
            return None;
        }
        let d = (u - 48) as u64;
        proof {
            lemma_digits_val_step(s@, i as int);
            assert(all_digits(s@.take(i as int + 1))) by {
                assert(forall|j: int|
                    0 <= j < i as int + 1 ==> #[trigger] s@.take(i as int + 1)[j] == s@[j]);
            }
        }
        let next = acc * 10 + d;
        if next > cap {
            proof {
                if all_digits(s@) {
                    lemma_digits_val_prefix(s@, i as int + 1);
                }
            }
            return None;
        }
        acc = next;
        i += 1;
    }
    proof {
        assert(s@.take(n as int) =~= s@);
    }
    Some(acc)
}

/// The position of the first `sep` in `s` at or after `from`; the length
/// of `s` when there is none.
pub open spec fn char_after(s: Seq<char>, from: int, sep: char) -> int
    decreases s.len() - from when 0 <= from <= s.len()
{
    if from >= s.len() {
        s.len() as int
    } else if s[from] == sep {
        from
    } else {
        char_after(s, from + 1, sep)
    }
}

/// What [`char_after`] finds: a position bounded by the length, holding
/// `sep` unless it is the length, with no `sep` before it.
pub proof fn lemma_char_after(s: Seq<char>, from: int, sep: char)
    requires
        0 <= from <= s.len(),
    ensures
        from <= char_after(s, from, sep) <= s.len(),
        char_after(s, from, sep) < s.len() ==> s[char_after(s, from, sep)] == sep,
        forall|j: int| from <= j < char_after(s, from, sep) ==> s[j] != sep,
    decreases s.len() - from,
{
    if from < s.len() && s[from] != sep {
        lemma_char_after(s, from + 1, sep);
    }
}

/// The converse: a position with no `sep` before it that holds `sep` or is
/// the length is what [`char_after`] finds.
pub proof fn lemma_char_after_at(s: Seq<char>, from: int, i: int, sep: char)
    requires
        0 <= from <= i <= s.len(),
        forall|j: int| from <= j < i ==> s[j] != sep,
        i == s.len() || s[i] == sep,
    ensures
        char_after(s, from, sep) == i,
    decreases i - from,
{
    if from < i {
        lemma_char_after_at(s, from + 1, i, sep);
    }
}

/// Finds the first `sep` in `s` at or after `from`, returning the length
/// of `s` when there is none.
pub fn find_char(s: &str, from: usize, sep: char) -> (r: usize)
    requires
        from <= s@.len(),
    ensures
        r == char_after(s@, from as int, sep),
{
    let n = s.unicode_len();
    let mut i: usize = from;
    while i < n
        invariant
            from <= i <= n,
            n == s@.len(),
            forall|j: int| from <= j < i ==> s@[j] != sep,
        decreases n - i,
    {
        let c = s.get_char(i);
        if c == sep {
            proof {
                lemma_char_after_at(s@, from as int, i as int, sep);
            }
            return i;
        }
        i += 1;
    }
    proof {
        lemma_char_after_at(s@, from as int, n as int, sep);
    }
    n
}

/// The worth of one fractional digit at position `n` of `1..=4` past the
/// point, in ten-thousandths: the scale that pads a fraction of `n` digits
/// out to four.
pub open spec fn frac_scale(n: int) -> int {
    if n == 1 {
        1000
    } else if n == 2 {
        100
    } else if n == 3 {
        10
    } else {
        1
    }
}

/// The largest integer part whose scaled value can still fit the raw
/// range: `i64::MAX / 10000`, rounded down.
pub const MAX_WHOLE_UNITS: u64 = 922337203685477;

/// Reads a decimal amount — digits, optionally a point followed by one to
/// four fractional digits — as a raw count of ten-thousandths.  Anything
/// else, including a value too large for the raw range, yields nothing.
pub open spec fn amount_of(s: Seq<char>) -> Option<i64> {
    let dot = char_after(s, 0, '.');
    if dot == s.len() {
        if s.len() > 0 && all_digits(s) && digits_val(s) * 10000 <= i64::MAX {
            Some((digits_val(s) * 10000) as i64)
        } else {
            None
        }
    } else {
        let ip = s.subrange(0, dot);
        let fp = s.subrange(dot + 1, s.len() as int);
        let raw = digits_val(ip) * 10000 + digits_val(fp) * frac_scale(fp.len() as int);
        if ip.len() > 0 && 1 <= fp.len() <= 4 && all_digits(ip) && all_digits(fp) && char_after(
            s,
            dot + 1,
            '.',
        ) == s.len() && raw <= i64::MAX {
            Some(raw as i64)
        } else {
            None
        }
    }
}

/// Reads the whole of `s` as a decimal amount in ten-thousandths.
pub fn parse_amount(s: &str) -> (r: Option<i64>)
    ensures
        r == amount_of(s@),
{
    let n = s.unicode_len();
    let dot = find_char(s, 0, '.');
    proof {
        lemma_char_after(s@, 0, '.');
    }
    if dot == n {
        match parse_digits(s, MAX_WHOLE_UNITS) {
            Some(v) => Some((v * 10000) as i64),
            None => None,
        }
    } else {
        let fl = n - dot - 1;
        if fl < 1 || fl > 4 {
            return None;
        }
        if find_char(s, dot + 1, '.') != n {
            return None;
        }
        let ip_str = s.substring_char(0, dot);
        let fp_str = s.substring_char(dot + 1, n);
        let ghost ip = s@.subrange(0, dot as int);
        let ghost fp = s@.subrange(dot as int + 1, s@.len() as int);
        let fp_v = match parse_digits(fp_str, 9999) {
            Some(v) => v,
            None => {
                proof {
                    if all_digits(fp) {
                        lemma_digits_val_bounds(fp);
                        assert(pow10(0) == 1);
                        assert(pow10(1) == 10);
                        assert(pow10(2) == 100);
                        assert(pow10(3) == 1000);
                        assert(pow10(4) == 10000);
                    }
                }
                return None;
            },
        };
        let ip_v = match parse_digits(ip_str, MAX_WHOLE_UNITS) {
            Some(v) => v,
            None => {
                proof {
                    if ip.len() > 0 && all_digits(ip) {
                        lemma_digits_val_bounds(fp);
                    }
                }
                return None;
            },
        };
        let scale: u64 = if fl == 1 {
            1000
        } else if fl == 2 {
            100
        } else if fl == 3 {
            10
        } else {
            1
        };
        proof {
            lemma_digits_val_bounds(fp);
            assert(pow10(0) == 1);
            assert(pow10(1) == 10);
            assert(pow10(2) == 100);
            assert(pow10(3) == 1000);
            assert(pow10(4) == 10000);
        }
        let raw = ip_v * 10000 + fp_v * scale;
        if raw > i64::MAX as u64 {
            return None;
        }
        Some(raw as i64)
    }
}

/// The five recognised kind tokens, and nothing else.
pub open spec fn kind_of(s: Seq<char>) -> Option<TxType> {
    if s == "deposit"@ {
        Some(TxType::DEPOSIT)
    } else if s == "withdrawal"@ {
        Some(TxType::WITHDRAWAL)
    } else if s == "dispute"@ {
        Some(TxType::DISPUTE)
    } else if s == "resolve"@ {
        Some(TxType::RESOLVE)
    } else if s == "chargeback"@ {
        Some(TxType::CHARGEBACK)
    } else {
        None
    }
}

/// Character-for-character string equality.
fn str_eq(a: &str, b: &str) -> (r: bool)
    ensures
        r == (a@ == b@),
{
    let na = a.unicode_len();
    let nb = b.unicode_len();
    if na != nb {
        return false;
    }
    let mut i: usize = 0;
    while i < na
        invariant
            0 <= i <= na,
            na == a@.len(),
            na == b@.len(),
            forall|j: int| 0 <= j < i ==> a@[j] == b@[j],
        decreases na - i,
    {
        if a.get_char(i) != b.get_char(i) {
            return false;
        }
        i += 1;
    }
    proof {
        assert(a@ =~= b@);
    }
    true
}

/// Reads a kind token.
pub fn kind_token(s: &str) -> (r: Option<TxType>)
    ensures
        r == kind_of(s@),
{
    if str_eq(s, "deposit") {
        Some(TxType::DEPOSIT)
    } else if str_eq(s, "withdrawal") {
        Some(TxType::WITHDRAWAL)
    } else if str_eq(s, "dispute") {
        Some(TxType::DISPUTE)
    } else if str_eq(s, "resolve") {
        Some(TxType::RESOLVE)
    } else if str_eq(s, "chargeback") {
        Some(TxType::CHARGEBACK)
    } else {
        None
    }
}

impl TxType {
    /// Reads a kind token, reporting an unrecognised one as malformed.
    pub fn from_str(s: &str) -> (r: Result<TxType, crate::model::TxError>)
        ensures
            match r {
                Ok(k) => kind_of(s@) == Some(k),
                Err(e) => kind_of(s@) is None && e == crate::model::TxError::MalformedTransaction,
            },
    {
        match kind_token(s) {
            Some(k) => Ok(k),
            None => Err(crate::model::TxError::MalformedTransaction),
        }
    }
}

/// Reads one whole input row: `kind,client,tx` or `kind,client,tx,amount`,
/// an empty fourth field counting as an absent amount.  The amount must be
/// present and positive for `deposit`/`withdrawal` rows and absent for the
/// reference-only rows; extra fields, unknown tokens and out-of-range
/// numbers all yield nothing.
pub open spec fn parse_row(s: Seq<char>) -> Option<Transaction> {
    let c1 = char_after(s, 0, ',');
    if c1 == s.len() {
        None
    } else {
        let c2 = char_after(s, c1 + 1, ',');
        if c2 == s.len() {
            None
        } else {
            let c3 = char_after(s, c2 + 1, ',');
            let kind = kind_of(s.subrange(0, c1));
            let client_s = s.subrange(c1 + 1, c2);
            let tx_s = s.subrange(c2 + 1, c3);
            if kind is None {
                None
            } else if !(client_s.len() > 0 && all_digits(client_s) && digits_val(client_s)
                <= u16::MAX) {
                None
            } else if !(tx_s.len() > 0 && all_digits(tx_s) && digits_val(tx_s) <= u32::MAX) {
                None
            } else {
                let k = kind->0;
                let client = digits_val(client_s) as u16;
                let tx = digits_val(tx_s) as u32;
                if c3 == s.len() {
                    if k.carries_amount() {
                        None
                    } else {
                        Some(Transaction { client, tx, tx_type: k, amount: None })
                    }
                } else if char_after(s, c3 + 1, ',') != s.len() {
                    None
                } else {
                    let amt_s = s.subrange(c3 + 1, s.len() as int);
                    if amt_s.len() == 0 {
                        if k.carries_amount() {
                            None
                        } else {
                            Some(Transaction { client, tx, tx_type: k, amount: None })
                        }
                    } else if !k.carries_amount() {
                        None
                    } else if amount_of(amt_s) is Some && amount_of(amt_s)->0 > 0 {
                        Some(
                            Transaction {
                                client,
                                tx,
                                tx_type: k,
                                amount: Some(Amount { raw: amount_of(amt_s)->0 }),
                            },
                        )
                    } else {
                        None
                    }
                }
            }
        }
    }
}

} // verus!
