//! The account registry and the processor that drives a transaction stream.

use crate::model::account_step;
use crate::model::apply_result;
use crate::model::Account;
use crate::model::AccountView;
use crate::model::output_of;
use crate::model::Output;
use crate::model::Transaction;
use crate::model::TxError;
use crate::model::TxType;
use std::collections::HashMap;
use vstd::prelude::*;

verus! {

broadcast use vstd::std_specs::hash::group_hash_axioms;

/// Applies one transaction to the account it is scoped to, dispatching on
/// its kind, with the processor's error policy: a rejected deposit is
/// surfaced to the caller, a rejected withdrawal and the silent no-ops of
/// the reference-only kinds are swallowed.  The stream is never aborted on
/// behalf of a single transaction.
pub fn apply(account: &mut Account, trx: &Transaction) -> (r: Result<(), TxError>)
    requires
        old(account).wf(),
        trx.well_formed(),
        trx.client == old(account)@.client,
    ensures
        final(account).wf(),
        final(account)@ == account_step(old(account)@, *trx),
        r == apply_result(old(account)@, *trx),
{
    match trx.tx_type {
        TxType::DEPOSIT => account.deposit(trx),
        TxType::WITHDRAWAL => {
            // a failed withdrawal is a per-transaction soft error
            let _ = account.withdraw(trx);
            Ok(())
        },
        TxType::DISPUTE => {
            // `false` is a business no-op, not a fault
            let _ = account.dispute(trx.tx);
            Ok(())
        },
        TxType::RESOLVE => {
            let _ = account.resolve(trx.tx);
            Ok(())
        },
        TxType::CHARGEBACK => {
            let _ = account.chargeback(trx.tx);
            Ok(())
        },
    }
}

/// The registry of all accounts ever referenced: one per client, created
/// lazily with zero balances on first use, owned exclusively for the run.
#[derive(Debug)]
pub struct Ledger {
    accounts: HashMap<u16, Account>,
}

impl View for Ledger {
    type V = Map<u16, AccountView>;

    closed spec fn view(&self) -> Map<u16, AccountView> {
        Map::new(
            |c: u16| self.accounts@.contains_key(c),
            |c: u16| self.accounts@[c]@,
        )
    }
}

impl Ledger {
    /// Well-formedness: every registered account is well formed and stored
    /// under its own client id.
    pub open spec fn wf(&self) -> bool {
        forall|c: u16| #[trigger] self@.contains_key(c) ==> self@[c].wf() && self@[c].client == c
    }

    /// An empty registry.
    pub fn new() -> (r: Ledger)
        ensures
            r@ == Map::<u16, AccountView>::empty(),
            r.wf(),
    {
        let r = Ledger { accounts: HashMap::new() };
        proof {
            assert(r@ =~= Map::<u16, AccountView>::empty());
        }
        r
    }

    /// How many accounts the registry holds.
    pub fn len(&self) -> (n: usize)
        ensures
            n == self@.dom().len(),
    {
        proof {
            assert(self@.dom() =~= self.accounts@.dom());
        }
        self.accounts.len()
    }

    /// The account of `client`, creating and registering a fresh one on
    /// first reference; never fails.
    pub fn get_or_create(&mut self, client: u16) -> (r: &Account)
        requires
            old(self).wf(),
        ensures
            final(self).wf(),
            final(self)@ == if old(self)@.contains_key(client) {
                old(self)@
            } else {
                old(self)@.insert(client, crate::model::fresh_account_view(client))
            },
            final(self)@.contains_key(client),
            r@ == final(self)@[client],
    {
        let ghost pre = self@;
        if !self.accounts.contains_key(&client) {
            self.accounts.insert(client, Account::new(client));
            proof {
                assert(self@ =~= pre.insert(client, crate::model::fresh_account_view(client)));
            }
        } else {
            proof {
                assert(self@ =~= pre);
            }
        }
        match self.accounts.get(&client) {
            Some(a) => a,
            None => {
                proof {
                    assert(false);
                }
                vstd::pervasive::unreached()
            },
        }
    }

    /// Reads the account of `client`, if it was ever referenced.
    pub fn get(&self, client: u16) -> (r: Option<&Account>)
        ensures
            match r {
                Some(a) => self@.contains_key(client) && a@ == self@[client],
                None => !self@.contains_key(client),
            },
    {
        self.accounts.get(&client)
    }

    /// The end-of-stream snapshot: one row per account ever created, each
    /// row the [`crate::model::output_of`] its account, every client
    /// exactly once, in no particular order.
    pub fn snapshot(&self) -> (r: Vec<Output>)
        ensures
            r@.len() == self@.dom().len(),
            self.wf() ==> forall|i: int|
                0 <= i < r@.len() ==> self@.contains_key((#[trigger] r@[i]).client) && r@[i]
                    == output_of(self@[r@[i].client]),
            self.wf() ==> forall|i: int, j: int|
                0 <= i < j < r@.len() ==> r@[i].client != r@[j].client,
            self.wf() ==> forall|c: u16| #[trigger]
                self@.contains_key(c) ==> exists|i: int|
                    0 <= i < r@.len() && r@[i].client == c,
    {
        let mut out: Vec<Output> = Vec::new();
        proof {
            assert(self@.dom() =~= self.accounts@.dom());
        }
        for k in it: self.accounts.keys()
            invariant
                out@.len() == it.index(),
                it.seq().unref().to_set() == self.accounts@.dom(),
                it.seq().no_duplicates(),
                it.seq().len() == self.accounts@.dom().len(),
                self@.dom() == self.accounts@.dom(),
                forall|c: u16| #[trigger]
                    self.accounts@.contains_key(c) ==> self@.contains_key(c) && self@[c]
                        == self.accounts@[c]@,
                self.wf() ==> forall|i: int|
                    0 <= i < out@.len() ==> *it.seq()[i] == (#[trigger] out@[i]).client,
                self.wf() ==> forall|i: int|
                    0 <= i < out@.len() ==> self@.contains_key((#[trigger] out@[i]).client)
                        && out@[i] == output_of(self@[out@[i].client]),
        {
            let ghost pos = it.index();
            proof {
                assert(*k == *it.seq()[pos as int]);
                assert(it.seq().unref()[pos as int] == *k);
                assert(it.seq().unref().contains(*k));
                assert(self.accounts@.dom().contains(*k));
            }
            let account = match self.accounts.get(k) {
                Some(a) => a,
                None => {
                    proof {
                        assert(false);
                    }
                    vstd::pervasive::unreached()
                },
            };
            proof {
                assert(account@ == self@[*k]);
                if self.wf() {
                    assert(self@[*k].wf());
                    assert(self@[*k].client == *k);
                }
            }
            out.push(account.to_output());
        }
        proof {
            if self.wf() {
                let cs = Seq::new(out@.len() as nat, |i: int| out@[i].client);
                assert(cs.no_duplicates());
                cs.unique_seq_to_set();
                vstd::seq_lib::seq_to_set_is_finite(cs);
                assert(cs.to_set().subset_of(self@.dom())) by {
                    assert forall|c: u16| #[trigger] cs.to_set().contains(c) implies
                        self@.dom().contains(c) by {
                        let i = choose|i: int| 0 <= i < cs.len() && cs[i] == c;
                        assert(out@[i].client == c);
                    }
                }
                vstd::set_lib::lemma_subset_equality(cs.to_set(), self@.dom());
                assert forall|c: u16| #[trigger] self@.contains_key(c) implies exists|i: int|
                    0 <= i < out@.len() && out@[i].client == c by {
                    assert(cs.to_set().contains(c));
                    let i = choose|i: int| 0 <= i < cs.len() && cs[i] == c;
                    assert(out@[i].client == c);
                }
            }
        }
        out
    }

    /// Routes one transaction to the account of its client — created on
    /// first reference — and applies it under the processor's error policy.
    pub fn apply(&mut self, trx: &Transaction) -> (r: Result<(), TxError>)
        requires
            old(self).wf(),
            trx.well_formed(),
        ensures
            final(self).wf(),
            final(self)@ == bank_step(old(self)@, *trx),
            r == apply_result(bank_step_source(old(self)@, *trx), *trx),
    {
        let ghost pre = self@;
        let mut account = match self.accounts.remove(&trx.client) {
            Some(a) => a,
            None => Account::new(trx.client),
        };
        proof {
            assert(account@ == bank_step_source(pre, *trx));
        }
        let r = apply(&mut account, trx);
        self.accounts.insert(trx.client, account);
        proof {
            assert(self@ =~= bank_step(pre, *trx));
        }
        r
    }
}

/// The account a transaction lands on: the registered one, or the fresh
/// account a first reference creates.
pub open spec fn bank_step_source(m: Map<u16, AccountView>, t: Transaction) -> AccountView {
    if m.contains_key(t.client) {
        m[t.client]
    } else {
        crate::model::fresh_account_view(t.client)
    }
}

/// One step of the whole registry: the transaction's account, stepped.
pub open spec fn bank_step(m: Map<u16, AccountView>, t: Transaction) -> Map<u16, AccountView> {
    m.insert(t.client, account_step(bank_step_source(m, t), t))
}

/// The registry after a whole stream, applied strictly in arrival order.
pub open spec fn bank_run(m: Map<u16, AccountView>, ts: Seq<Transaction>) -> Map<u16, AccountView>
    decreases ts.len(),
{
    if ts.len() == 0 {
        m
    } else {
        bank_step(bank_run(m, ts.drop_last()), ts.last())
    }
}

/// Drives a finite transaction sequence from an empty registry to the final
/// snapshot state, in arrival order, discarding per-transaction errors as
/// the processing policy demands; nothing aborts the run.
pub fn process(txs: &Vec<Transaction>) -> (r: Ledger)
    requires
        forall|i: int| 0 <= i < txs@.len() ==> (#[trigger] txs@[i]).well_formed(),
    ensures
        r.wf(),
        r@ == bank_run(Map::<u16, AccountView>::empty(), txs@),
{
    let mut ledger = Ledger::new();
    proof {
        assert(txs@.take(0) =~= Seq::<Transaction>::empty());
    }
    let n = txs.len();
    let mut i: usize = 0;
    while i < n
        invariant
            n == txs@.len(),
            i <= n,
            forall|j: int| 0 <= j < txs@.len() ==> (#[trigger] txs@[j]).well_formed(),
            ledger.wf(),
            ledger@ == bank_run(Map::<u16, AccountView>::empty(), txs@.take(i as int)),
        decreases n - i,
    {
        let trx = txs[i];
        let _ = ledger.apply(&trx);
        proof {
            assert(txs@.take(i as int + 1).drop_last() =~= txs@.take(i as int));
            assert(txs@.take(i as int + 1).last() == txs@[i as int]);
        }
        i += 1;
    }
    proof {
        assert(txs@.take(n as int) =~= txs@);
    }
    ledger
}

} // verus!
