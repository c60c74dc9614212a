//! Data model: monetary amounts, transaction kinds, transactions, accounts.

use std::collections::HashMap;
use std::collections::HashSet;
use vstd::prelude::*;

verus! {

broadcast use vstd::std_specs::hash::group_hash_axioms;

/// One ten-thousandth of a currency unit: the resolution of every amount.
pub const AMOUNT_SCALE: i64 = 10000;

/// A fixed-point monetary value with four fractional digits.
///
/// The value is `raw / 10000` currency units.  Balances may become negative
/// (a dispute can reference a deposit whose funds were already withdrawn),
/// so the raw value is signed.
#[derive(Clone, Copy, Debug, PartialEq, Eq, Structural, Hash)]
pub struct Amount {
    pub raw: i64,
}

impl View for Amount {
    type V = int;

    open spec fn view(&self) -> int {
        self.raw as int
    }
}

impl Amount {
    /// The zero amount.
    pub fn zero() -> (r: Amount)
        ensures
            r@ == 0,
    {
        Amount { raw: 0 }
    }

    /// Builds an amount from a raw count of ten-thousandths.
    pub fn from_raw(raw: i64) -> (r: Amount)
        ensures
            r@ == raw as int,
    {
        Amount { raw }
    }

    /// Builds an amount from a count of whole currency units, if the scaled
    /// value fits the raw range.
    pub fn from_units(units: i64) -> (r: Option<Amount>)
        ensures
            match r {
                Some(a) => a@ == units * AMOUNT_SCALE,
                None => !(i64::MIN <= units * AMOUNT_SCALE <= i64::MAX),
            },
    {
        match units.checked_mul(AMOUNT_SCALE) {
            Some(raw) => Some(Amount { raw }),
            None => None,
        }
    }

    /// True when the amount is strictly positive, as every transaction
    /// amount must be.
    pub fn is_positive(&self) -> (r: bool)
        ensures
            r == (self@ > 0),
    {
        self.raw > 0
    }

    /// Renders the amount as decimal text with the conventional four
    /// fractional digits, exactly as [`render_spec`] lays it out.
    pub fn render(&self) -> (r: String)
        ensures
            r@ == render_spec(self@),
    {
        let neg = self.raw < 0;
        let abs: u64 = if self.raw >= 0 {
            self.raw as u64
        } else {
            ((-(self.raw + 1)) as u64) + 1
        };
        let whole: u64 = abs / 10000;
        let frac: u64 = abs % 10000;
        let mut s = String::new();
        if neg {
            s.append("-");
            proof {
                reveal_strlit("-");
                assert(s@ =~= seq!['-']);
            }
        }
        append_dec(&mut s, whole);
        s.append(".");
        proof {
            reveal_strlit(".");
        }
        append_digit(&mut s, frac / 1000);
        append_digit(&mut s, (frac / 100) % 10);
        append_digit(&mut s, (frac / 10) % 10);
        append_digit(&mut s, frac % 10);
        proof {
            assert(s@ =~= render_spec(self@));
        }
        s
    }
}

/// The character of one decimal digit.
pub open spec fn digit_char(d: int) -> char {
    if d == 0 {
        '0'
    } else if d == 1 {
        '1'
    } else if d == 2 {
        '2'
    } else if d == 3 {
        '3'
    } else if d == 4 {
        '4'
    } else if d == 5 {
        '5'
    } else if d == 6 {
        '6'
    } else if d == 7 {
        '7'
    } else if d == 8 {
        '8'
    } else {
        '9'
    }
}

/// The decimal digits of a non-negative number, most significant first,
/// a single zero included.
pub open spec fn dec_digits(n: int) -> Seq<char>
    decreases n when n >= 0
{
    if n < 10 {
        seq![digit_char(n)]
    } else {
        dec_digits(n / 10).push(digit_char(n % 10))
    }
}

/// How a raw fixed-point value reads as text: an optional minus sign, the
/// whole units, a point, and exactly four fractional digits.
pub open spec fn render_spec(v: int) -> Seq<char> {
    let abs = if v < 0 {
        -v
    } else {
        v
    };
    let sign = if v < 0 {
        seq!['-']
    } else {
        Seq::<char>::empty()
    };
    sign + dec_digits(abs / 10000) + seq!['.'] + seq![
        digit_char((abs % 10000) / 1000),
        digit_char(((abs % 10000) / 100) % 10),
        digit_char(((abs % 10000) / 10) % 10),
        digit_char((abs % 10000) % 10),
    ]
}

/// Appends one decimal digit character.
fn append_digit(s: &mut String, d: u64)
    requires
        d < 10,
    ensures
        final(s)@ == old(s)@ + seq![digit_char(d as int)],
{
    let ghost pre = s@;
    if d == 0 {
        s.append("0");
        proof {
            reveal_strlit("0");
            assert(s@ =~= pre + seq!['0']);
        }
    } else if d == 1 {
        s.append("1");
        proof {
            reveal_strlit("1");
            assert(s@ =~= pre + seq!['1']);
        }
    } else if d == 2 {
        s.append("2");
        proof {
            reveal_strlit("2");
            assert(s@ =~= pre + seq!['2']);
        }
    } else if d == 3 {
        s.append("3");
        proof {
            reveal_strlit("3");
            assert(s@ =~= pre + seq!['3']);
        }
    } else if d == 4 {
        s.append("4");
        proof {
            reveal_strlit("4");
            assert(s@ =~= pre + seq!['4']);
        }
    } else if d == 5 {
        s.append("5");
        proof {
            reveal_strlit("5");
            assert(s@ =~= pre + seq!['5']);
        }
    } else if d == 6 {
        s.append("6");
        proof {
            reveal_strlit("6");
            assert(s@ =~= pre + seq!['6']);
        }
    } else if d == 7 {
        s.append("7");
        proof {
            reveal_strlit("7");
            assert(s@ =~= pre + seq!['7']);
        }
    } else if d == 8 {
        s.append("8");
        proof {
            reveal_strlit("8");
            assert(s@ =~= pre + seq!['8']);
        }
    } else {
        s.append("9");
        proof {
            reveal_strlit("9");
            assert(s@ =~= pre + seq!['9']);
        }
    }
}

/// Appends the decimal digits of `n`, most significant first.
fn append_dec(s: &mut String, n: u64)
    ensures
        final(s)@ == old(s)@ + dec_digits(n as int),
    decreases n,
{
    if n < 10 {
        append_digit(s, n);
    } else {
        append_dec(s, n / 10);
        append_digit(s, n % 10);
        proof {
            assert(s@ =~= old(s)@ + dec_digits(n as int));
        }
    }
}

/// The closed set of transaction kinds.
///
/// `DEPOSIT` and `WITHDRAWAL` carry an amount; `DISPUTE`, `RESOLVE` and
/// `CHARGEBACK` carry none and instead reference the id of a prior
/// amount-bearing transaction of the same client.
#[derive(Clone, Copy, Debug, PartialEq, Eq, Structural, Hash)]
pub enum TxType {
    DEPOSIT,
    WITHDRAWAL,
    DISPUTE,
    RESOLVE,
    CHARGEBACK,
}

impl TxType {
    /// True for the kinds that carry a monetary amount.
    pub open spec fn carries_amount(self) -> bool {
        self == TxType::DEPOSIT || self == TxType::WITHDRAWAL
    }
}

/// The failures a single transaction can produce.
///
/// None of them is fatal to a run: a malformed row is skipped, the soft
/// failures leave the account unchanged, and the stream goes on.
#[derive(Clone, Copy, Debug, PartialEq, Eq, Structural, Hash)]
pub enum TxError {
    /// The input row violates the required shape: unknown kind token,
    /// unparsable client or transaction id, an amount on a reference-only
    /// kind, or a missing or non-positive amount on an amount-bearing kind.
    MalformedTransaction,
    /// A withdrawal asked for more than the available balance.
    InsufficientFunds,
    /// A balance-affecting operation reached an account frozen by a
    /// chargeback.
    AccountLocked,
    /// The operation would push a balance outside the representable
    /// fixed-point range.
    BalanceOutOfRange,
}

/// One parsed input row: an immutable value with no behaviour of its own.
#[derive(Clone, Copy, Debug, PartialEq, Eq, Structural, Hash)]
pub struct Transaction {
    /// The account holder the row is scoped to.
    pub client: u16,
    /// For `DEPOSIT`/`WITHDRAWAL` the id of this transaction, unique within
    /// the input stream; for the reference-only kinds the id of the prior
    /// transaction being referenced.
    pub tx: u32,
    /// The kind of the row.
    pub tx_type: TxType,
    /// The monetary amount; present exactly for the amount-bearing kinds.
    pub amount: Option<Amount>,
}

impl Transaction {
    /// Shape invariant of a constructed transaction: an amount is present
    /// if and only if the kind carries one, and a present amount is
    /// strictly positive.
    pub open spec fn well_formed(self) -> bool {
        &&& self.amount is Some <==> self.tx_type.carries_amount()
        &&& self.amount is Some ==> self.amount->0@ > 0
    }

    /// Plain constructor from already-typed fields.
    pub fn new(client: u16, tx: u32, tx_type: TxType, amount: Option<Amount>) -> (r: Transaction)
        ensures
            r == (Transaction { client, tx, tx_type, amount }),
    {
        Transaction { client, tx, tx_type, amount }
    }

    /// Validating constructor: accepts exactly the field combinations that
    /// satisfy [`Transaction::well_formed`].
    pub fn try_new(client: u16, tx: u32, tx_type: TxType, amount: Option<Amount>) -> (r: Result<
        Transaction,
        TxError,
    >)
        ensures
            ({
                let t = (Transaction { client, tx, tx_type, amount });
                if t.well_formed() {
                    r == Ok::<Transaction, TxError>(t)
                } else {
                    r == Err::<Transaction, TxError>(TxError::MalformedTransaction)
                }
            }),
    {
        let amount_ok = match (tx_type, &amount) {
            (TxType::DEPOSIT, Some(a)) => a.is_positive(),
            (TxType::WITHDRAWAL, Some(a)) => a.is_positive(),
            (TxType::DISPUTE, None) => true,
            (TxType::RESOLVE, None) => true,
            (TxType::CHARGEBACK, None) => true,
            _ => false,
        };
        if amount_ok {
            Ok(Transaction { client, tx, tx_type, amount })
        } else {
            Err(TxError::MalformedTransaction)
        }
    }
}

/// The mathematical state of one account: what every contract of
/// [`Account`] speaks about.
#[verifier::ext_equal]
pub ghost struct AccountView {
    /// The client this account belongs to.
    pub client: u16,
    /// Funds immediately withdrawable, in ten-thousandths.
    pub available: int,
    /// Funds earmarked by open disputes, in ten-thousandths.
    pub held: int,
    /// Whether a chargeback froze the account for good.
    pub locked: bool,
    /// The ids currently under dispute.
    pub disputes: Set<u32>,
    /// The past amount-bearing transactions that disputes may reference.
    pub ledger: Map<u32, Transaction>,
}

/// The state of a newly created account: zero balances, unlocked, empty.
pub open spec fn fresh_account_view(client: u16) -> AccountView {
    AccountView {
        client,
        available: 0,
        held: 0,
        locked: false,
        disputes: Set::empty(),
        ledger: Map::empty(),
    }
}

impl AccountView {
    /// The derived total: never stored, always `available + held`.
    pub open spec fn total(self) -> int {
        self.available + self.held
    }

    /// Well-formedness: balances and the derived total stay in the raw
    /// fixed-point range, every referenceable transaction is an
    /// amount-bearing one of this client stored under its own id, and only
    /// referenceable transactions are disputed.
    pub open spec fn wf(self) -> bool {
        &&& i64::MIN <= self.available <= i64::MAX
        &&& i64::MIN <= self.held <= i64::MAX
        &&& i64::MIN <= self.total() <= i64::MAX
        &&& forall|k: u32| #[trigger] self.ledger.contains_key(k) ==> {
            let t = self.ledger[k];
            &&& t.tx == k
            &&& t.client == self.client
            &&& t.tx_type.carries_amount()
            &&& t.well_formed()
        }
        &&& forall|k: u32| #[trigger] self.disputes.contains(k) ==> self.ledger.contains_key(k)
    }

    /// The amount of the referenceable transaction `k`; meaningful only
    /// when `k` is in the ledger.
    pub open spec fn referenced_amount(self, k: u32) -> int {
        self.ledger[k].amount->0@
    }
}

/// Whether a deposit of `amt` keeps the balances representable.
pub open spec fn deposit_fits(a: AccountView, amt: int) -> bool {
    &&& a.available + amt <= i64::MAX
    &&& a.total() + amt <= i64::MAX
}

/// The account after a successful deposit: `amt` joins the available funds
/// and the transaction becomes referenceable.
pub open spec fn deposit_applied(a: AccountView, t: Transaction) -> AccountView {
    AccountView {
        available: a.available + t.amount->0@,
        ledger: a.ledger.insert(t.tx, t),
        ..a
    }
}

/// Outcome of a deposit: rejected on a locked account, rejected when the
/// balances would leave the representable range, applied otherwise.
pub open spec fn deposit_spec(a: AccountView, t: Transaction) -> (AccountView, Result<
    (),
    TxError,
>) {
    if a.locked {
        (a, Err(TxError::AccountLocked))
    } else if !deposit_fits(a, t.amount->0@) {
        (a, Err(TxError::BalanceOutOfRange))
    } else {
        (deposit_applied(a, t), Ok(()))
    }
}

/// The account after a successful withdrawal: `amt` leaves the available
/// funds and the transaction becomes referenceable.
pub open spec fn withdraw_applied(a: AccountView, t: Transaction) -> AccountView {
    AccountView {
        available: a.available - t.amount->0@,
        ledger: a.ledger.insert(t.tx, t),
        ..a
    }
}

/// Outcome of a withdrawal: rejected on a locked account, rejected when the
/// available funds do not cover it, applied otherwise.  All-or-nothing: a
/// rejected withdrawal changes nothing.
pub open spec fn withdraw_spec(a: AccountView, t: Transaction) -> (AccountView, Result<
    (),
    TxError,
>) {
    if a.locked {
        (a, Err(TxError::AccountLocked))
    } else if a.available < t.amount->0@ {
        (a, Err(TxError::InsufficientFunds))
    } else {
        (withdraw_applied(a, t), Ok(()))
    }
}

/// Whether moving the disputed amount from available to held keeps both
/// balances representable.
pub open spec fn dispute_fits(a: AccountView, amt: int) -> bool {
    &&& a.available - amt >= i64::MIN
    &&& a.held + amt <= i64::MAX
}

/// Whether a dispute of `k` takes effect: the account is not frozen, `k`
/// references a known amount-bearing transaction of this client, `k` is not
/// already under dispute, and the moved funds stay representable.
pub open spec fn dispute_ok(a: AccountView, k: u32) -> bool {
    &&& !a.locked
    &&& a.ledger.contains_key(k)
    &&& !a.disputes.contains(k)
    &&& dispute_fits(a, a.referenced_amount(k))
}

/// The account after a successful dispute: the referenced amount moves from
/// available to held, the total is untouched, and `k` is now disputed.
pub open spec fn dispute_applied(a: AccountView, k: u32) -> AccountView {
    AccountView {
        available: a.available - a.referenced_amount(k),
        held: a.held + a.referenced_amount(k),
        disputes: a.disputes.insert(k),
        ..a
    }
}

/// Outcome of a dispute: a silent no-op returning `false` unless
/// [`dispute_ok`] holds, in which case [`dispute_applied`] and `true`.
pub open spec fn dispute_spec(a: AccountView, k: u32) -> (AccountView, bool) {
    if dispute_ok(a, k) {
        (dispute_applied(a, k), true)
    } else {
        (a, false)
    }
}

/// Whether moving the disputed amount back to available keeps both
/// balances representable.
pub open spec fn resolve_fits(a: AccountView, amt: int) -> bool {
    &&& a.available + amt <= i64::MAX
    &&& a.held - amt >= i64::MIN
}

/// Whether a resolve of `k` takes effect: the account is not frozen and `k`
/// is currently under dispute.
pub open spec fn resolve_ok(a: AccountView, k: u32) -> bool {
    &&& !a.locked
    &&& a.disputes.contains(k)
    &&& resolve_fits(a, a.referenced_amount(k))
}

/// The account after a successful resolve: the disputed amount returns to
/// available, the total is untouched, and the dispute on `k` is closed.
pub open spec fn resolve_applied(a: AccountView, k: u32) -> AccountView {
    AccountView {
        available: a.available + a.referenced_amount(k),
        held: a.held - a.referenced_amount(k),
        disputes: a.disputes.remove(k),
        ..a
    }
}

/// Outcome of a resolve: a silent no-op returning `false` unless
/// [`resolve_ok`] holds, in which case [`resolve_applied`] and `true`.
pub open spec fn resolve_spec(a: AccountView, k: u32) -> (AccountView, bool) {
    if resolve_ok(a, k) {
        (resolve_applied(a, k), true)
    } else {
        (a, false)
    }
}

/// Whether removing the disputed amount from the account keeps the held
/// balance and the total representable.
pub open spec fn chargeback_fits(a: AccountView, amt: int) -> bool {
    &&& a.held - amt >= i64::MIN
    &&& a.total() - amt >= i64::MIN
}

/// Whether a chargeback of `k` takes effect: the account is not already
/// frozen and `k` is currently under dispute.
pub open spec fn chargeback_ok(a: AccountView, k: u32) -> bool {
    &&& !a.locked
    &&& a.disputes.contains(k)
    &&& chargeback_fits(a, a.referenced_amount(k))
}

/// The account after a successful chargeback: the disputed amount leaves
/// the account entirely — the one operation that lowers the total — and the
/// account is frozen for good.
pub open spec fn chargeback_applied(a: AccountView, k: u32) -> AccountView {
    AccountView {
        held: a.held - a.referenced_amount(k),
        disputes: a.disputes.remove(k),
        locked: true,
        ..a
    }
}

/// Outcome of a chargeback: a silent no-op returning `false` unless
/// [`chargeback_ok`] holds, in which case [`chargeback_applied`] and `true`.
pub open spec fn chargeback_spec(a: AccountView, k: u32) -> (AccountView, bool) {
    if chargeback_ok(a, k) {
        (chargeback_applied(a, k), true)
    } else {
        (a, false)
    }
}

/// One step of the account state machine: the transaction dispatched by
/// kind, with every rejection and silent no-op leaving the state unchanged.
pub open spec fn account_step(a: AccountView, t: Transaction) -> AccountView {
    match t.tx_type {
        TxType::DEPOSIT => deposit_spec(a, t).0,
        TxType::WITHDRAWAL => withdraw_spec(a, t).0,
        TxType::DISPUTE => dispute_spec(a, t.tx).0,
        TxType::RESOLVE => resolve_spec(a, t.tx).0,
        TxType::CHARGEBACK => chargeback_spec(a, t.tx).0,
    }
}

/// What the processor reports for one transaction: only a rejected deposit
/// surfaces; withdrawal failures and the no-ops of the reference-only kinds
/// are swallowed.
pub open spec fn apply_result(a: AccountView, t: Transaction) -> Result<(), TxError> {
    match t.tx_type {
        TxType::DEPOSIT => deposit_spec(a, t).1,
        _ => Ok(()),
    }
}

/// One client's balances, lock flag, dispute set and referenceable
/// transactions.  Mutated exclusively through its own operations, each of
/// which preserves [`AccountView::wf`] and pins the new state exactly.
#[derive(Debug)]
pub struct Account {
    /// The client this account belongs to.
    pub client: u16,
    /// Funds immediately withdrawable.
    pub available: Amount,
    /// Funds earmarked by open disputes.
    pub held: Amount,
    /// Whether a chargeback froze the account for good.
    pub locked: bool,
    /// The transaction ids currently under dispute.
    pub disputes: HashSet<u32>,
    ledger: HashMap<u32, Transaction>,
}

impl View for Account {
    type V = AccountView;

    closed spec fn view(&self) -> AccountView {
        AccountView {
            client: self.client,
            available: self.available@,
            held: self.held@,
            locked: self.locked,
            disputes: self.disputes@,
            ledger: self.ledger@,
        }
    }
}

impl Account {
    /// Well-formedness of the concrete account, stated on its view.
    pub open spec fn wf(&self) -> bool {
        self@.wf()
    }

    /// Creates the account a client starts with: zero balances, unlocked,
    /// nothing referenceable and nothing disputed.
    pub fn new(client: u16) -> (r: Account)
        ensures
            r@ == fresh_account_view(client),
            r.wf(),
    {
        let r = Account {
            client,
            available: Amount::zero(),
            held: Amount::zero(),
            locked: false,
            disputes: HashSet::new(),
            ledger: HashMap::new(),
        };
        proof {
            assert(r@ =~= fresh_account_view(client));
        }
        r
    }

    /// Looks a referenceable transaction up by id.
    pub fn find_tx(&self, tx: u32) -> (r: Option<&Transaction>)
        ensures
            match r {
                Some(t) => self@.ledger.contains_key(tx) && *t == self@.ledger[tx],
                None => !self@.ledger.contains_key(tx),
            },
    {
        self.ledger.get(&tx)
    }

    /// Records an amount-bearing transaction of this client so that later
    /// disputes can reference it.
    pub fn add_tx(&mut self, tx: Transaction) -> (r: Result<(), TxError>)
        requires
            old(self).wf(),
            tx.well_formed(),
            tx.tx_type.carries_amount(),
            tx.client == old(self)@.client,
        ensures
            final(self).wf(),
            r == Ok::<(), TxError>(()),
            final(self)@ == (AccountView {
                ledger: old(self)@.ledger.insert(tx.tx, tx),
                ..old(self)@
            }),
    {
        let ghost pre = self@;
        self.ledger.insert(tx.tx, tx);
        proof {
            assert(self@ =~= (AccountView { ledger: pre.ledger.insert(tx.tx, tx), ..pre }));
        }
        Ok(())
    }

    /// Adds the deposited amount to the available funds and records the
    /// transaction for later disputes.  Rejected with `AccountLocked` on a
    /// frozen account and with `BalanceOutOfRange` when a balance would
    /// leave the representable range; a rejection changes nothing.
    pub fn deposit(&mut self, tx: &Transaction) -> (r: Result<(), TxError>)
        requires
            old(self).wf(),
            tx.well_formed(),
            tx.tx_type == TxType::DEPOSIT,
            tx.client == old(self)@.client,
        ensures
            final(self).wf(),
            (final(self)@, r) == deposit_spec(old(self)@, *tx),
    {
        let ghost pre = self@;
        if self.locked {
            return Err(TxError::AccountLocked);
        }
        let amt = tx.amount.unwrap();
        let new_available = match self.available.raw.checked_add(amt.raw) {
            Some(v) => v,
            None => {
                return Err(TxError::BalanceOutOfRange);
            },
        };
        if new_available.checked_add(self.held.raw).is_none() {
            return Err(TxError::BalanceOutOfRange);
        }
        self.available = Amount::from_raw(new_available);
        self.ledger.insert(tx.tx, *tx);
        proof {
            assert(self@ =~= deposit_applied(pre, *tx));
        }
        Ok(())
    }

    /// Takes the withdrawn amount out of the available funds and records
    /// the transaction for later disputes.  Rejected with `AccountLocked`
    /// on a frozen account and with `InsufficientFunds` when the available
    /// funds do not cover it; a rejection changes nothing.
    pub fn withdraw(&mut self, tx: &Transaction) -> (r: Result<(), TxError>)
        requires
            old(self).wf(),
            tx.well_formed(),
            tx.tx_type == TxType::WITHDRAWAL,
            tx.client == old(self)@.client,
        ensures
            final(self).wf(),
            (final(self)@, r) == withdraw_spec(old(self)@, *tx),
    {
        let ghost pre = self@;
        if self.locked {
            return Err(TxError::AccountLocked);
        }
        let amt = tx.amount.unwrap();
        if self.available.raw < amt.raw {
            return Err(TxError::InsufficientFunds);
        }
        self.available = Amount::from_raw(self.available.raw - amt.raw);
        self.ledger.insert(tx.tx, *tx);
        proof {
            assert(self@ =~= withdraw_applied(pre, *tx));
        }
        Ok(())
    }

    /// Opens a dispute against the referenceable transaction `tx`, moving
    /// its amount from available to held while the total stays put.  A
    /// silent no-op returning `Ok(false)` when the account is frozen, the
    /// id is unknown or already disputed, or a balance would leave the
    /// representable range; the claim is taken to be a partner-side error.
    pub fn dispute(&mut self, tx: u32) -> (r: Result<bool, TxError>)
        requires
            old(self).wf(),
        ensures
            final(self).wf(),
            r is Ok,
            (final(self)@, r->Ok_0) == dispute_spec(old(self)@, tx),
    {
        let ghost pre = self@;
        if self.locked {
            return Ok(false);
        }
        let t = match self.ledger.get(&tx) {
            Some(t) => *t,
            None => {
                return Ok(false);
            },
        };
        if self.disputes.contains(&tx) {
            return Ok(false);
        }
        proof {
            assert(pre.ledger.contains_key(tx));
        }
        let amt = t.amount.unwrap();
        let new_available = match self.available.raw.checked_sub(amt.raw) {
            Some(v) => v,
            None => {
                return Ok(false);
            },
        };
        let new_held = match self.held.raw.checked_add(amt.raw) {
            Some(v) => v,
            None => {
                return Ok(false);
            },
        };
        self.available = Amount::from_raw(new_available);
        self.held = Amount::from_raw(new_held);
        self.disputes.insert(tx);
        proof {
            assert(self@ =~= dispute_applied(pre, tx));
        }
        Ok(true)
    }

    /// Closes the dispute on `tx` in the account holder's favour, moving
    /// the disputed amount back to available while the total stays put.  A
    /// silent no-op returning `Ok(false)` when the account is frozen, `tx`
    /// is not under dispute, or a balance would leave the representable
    /// range.
    pub fn resolve(&mut self, tx: u32) -> (r: Result<bool, TxError>)
        requires
            old(self).wf(),
        ensures
            final(self).wf(),
            r is Ok,
            (final(self)@, r->Ok_0) == resolve_spec(old(self)@, tx),
    {
        let ghost pre = self@;
        if self.locked {
            return Ok(false);
        }
        if !self.disputes.contains(&tx) {
            return Ok(false);
        }
        proof {
            assert(pre.disputes.contains(tx));
            assert(pre.ledger.contains_key(tx));
        }
        let t = match self.ledger.get(&tx) {
            Some(t) => *t,
            None => {
                proof {
                    assert(false);
                }
                vstd::pervasive::unreached()
            },
        };
        let amt = t.amount.unwrap();
        let new_available = match self.available.raw.checked_add(amt.raw) {
            Some(v) => v,
            None => {
                return Ok(false);
            },
        };
        let new_held = match self.held.raw.checked_sub(amt.raw) {
            Some(v) => v,
            None => {
                return Ok(false);
            },
        };
        self.available = Amount::from_raw(new_available);
        self.held = Amount::from_raw(new_held);
        self.disputes.remove(&tx);
        proof {
            assert(self@ =~= resolve_applied(pre, tx));
        }
        Ok(true)
    }

    /// Closes the dispute on `tx` against the account holder: the disputed
    /// amount leaves the account entirely — the one operation that lowers
    /// the total — and the account is frozen for good.  A silent no-op
    /// returning `Ok(false)` when the account is already frozen, `tx` is
    /// not under dispute, or a balance would leave the representable range.
    pub fn chargeback(&mut self, tx: u32) -> (r: Result<bool, TxError>)
        requires
            old(self).wf(),
        ensures
            final(self).wf(),
            r is Ok,
            (final(self)@, r->Ok_0) == chargeback_spec(old(self)@, tx),
    {
        let ghost pre = self@;
        if self.locked {
            return Ok(false);
        }
        if !self.disputes.contains(&tx) {
            return Ok(false);
        }
        proof {
            assert(pre.disputes.contains(tx));
            assert(pre.ledger.contains_key(tx));
        }
        let t = match self.ledger.get(&tx) {
            Some(t) => *t,
            None => {
                proof {
                    assert(false);
                }
                vstd::pervasive::unreached()
            },
        };
        let amt = t.amount.unwrap();
        let new_held = match self.held.raw.checked_sub(amt.raw) {
            Some(v) => v,
            None => {
                return Ok(false);
            },
        };
        if self.available.raw.checked_add(new_held).is_none() {
            return Ok(false);
        }
        self.held = Amount::from_raw(new_held);
        self.disputes.remove(&tx);
        self.locked = true;
        proof {
            assert(self@ =~= chargeback_applied(pre, tx));
        }
        Ok(true)
    }

    /// The derived total, `available + held`, clipped to the raw
    /// fixed-point range; on a well-formed account the sum always fits and
    /// no clipping happens.
    pub fn total(&self) -> (r: Amount)
        ensures
            i64::MIN <= self@.total() <= i64::MAX ==> r@ == self@.total(),
            self@.total() > i64::MAX ==> r@ == i64::MAX as int,
            self@.total() < i64::MIN ==> r@ == i64::MIN as int,
    {
        match self.available.raw.checked_add(self.held.raw) {
            Some(v) => Amount::from_raw(v),
            None => {
                if self.available.raw > 0 {
                    Amount::from_raw(i64::MAX)
                } else {
                    Amount::from_raw(i64::MIN)
                }
            },
        }
    }
}

/// One row of the end-of-stream snapshot: a client's balances, the
/// derived total, and the lock flag.
#[derive(Clone, Copy, Debug, PartialEq, Eq, Structural, Hash)]
pub struct Output {
    /// The client the row describes.
    pub client: u16,
    /// Funds immediately withdrawable.
    pub available: Amount,
    /// Funds earmarked by open disputes.
    pub held: Amount,
    /// The derived total, `available + held`.
    pub total: Amount,
    /// Whether a chargeback froze the account.
    pub locked: bool,
}

/// The snapshot row a well-formed account state yields.
pub open spec fn output_of(a: AccountView) -> Output {
    Output {
        client: a.client,
        available: Amount { raw: a.available as i64 },
        held: Amount { raw: a.held as i64 },
        total: Amount { raw: a.total() as i64 },
        locked: a.locked,
    }
}

impl Account {
    /// The snapshot row of this account: the balances and lock flag as
    /// they stand, with the total derived as [`Account::total`] derives it.
    pub fn to_output(&self) -> (r: Output)
        ensures
            r.client == self@.client,
            r.available@ == self@.available,
            r.held@ == self@.held,
            r.locked == self@.locked,
            i64::MIN <= self@.total() <= i64::MAX ==> r.total@ == self@.total(),
            self@.wf() ==> r == output_of(self@),
    {
        Output {
            client: self.client,
            available: self.available,
            held: self.held,
            total: self.total(),
            locked: self.locked,
        }
    }
}

impl Default for Account {
    /// The account a never-referenced client would have, under client id 0.
    fn default() -> (r: Account)
        ensures
            r@ == fresh_account_view(0),
            r.wf(),
    {
        Account::new(0)
    }
}

} // verus!
