//! The agent ledger: balances credited by settlement and reduced by slashing.
//!
//! Balances are modelled as a finite map from agent identity to amount;
//! absent agents stand at zero. Credits saturate at the maximum amount and
//! slashes are floored at zero — a balance never goes negative.

use vstd::prelude::*;

use crate::assoc::{
    keys_unique, lemma_map_of_absent, lemma_map_of_index, lemma_map_of_push, lemma_map_of_update,
    map_of, spec_balance,
};

verus! {

/// Account balances keyed by agent identity.
pub struct Ledger {
    accounts: Vec<(String, u64)>,
}

impl View for Ledger {
    type V = Map<Seq<char>, u64>;

    closed spec fn view(&self) -> Map<Seq<char>, u64> {
        map_of(self.accounts@)
    }
}

impl Ledger {
    /// Validity: no agent has two accounts.
    pub closed spec fn wf(self) -> bool {
        keys_unique(self.accounts@)
    }

    /// An empty ledger: every agent stands at zero.
    pub fn new() -> (r: Ledger)
        ensures
            r.wf(),
            r@ == Map::<Seq<char>, u64>::empty(),
    {
        Ledger { accounts: Vec::new() }
    }

    /// The position of an agent's account, if it has one.
    fn find(&self, id: &String) -> (r: Option<usize>)
        ensures
            match r {
                Some(i) => i < self.accounts@.len() && self.accounts@[i as int].0@ == id@,
                None => forall|j: int|
                    0 <= j < self.accounts@.len() ==> (#[trigger] self.accounts@[j]).0@ != id@,
            },
    {
        let mut k: usize = 0;
        while k < self.accounts.len()
            invariant
                k <= self.accounts@.len(),
                forall|j: int| 0 <= j < k ==> (#[trigger] self.accounts@[j]).0@ != id@,
            decreases self.accounts@.len() - k,
        {
            if self.accounts[k].0 == *id {
                return Some(k);
            }
            k += 1;
        }
        None
    }

    /// The agent's balance; zero when it has no account.
    pub fn balance(&self, id: &String) -> (r: u64)
        requires
            self.wf(),
        ensures
            r == spec_balance(self@, id@),
    {
        match self.find(id) {
            Some(i) => {
                proof {
                    lemma_map_of_index(self.accounts@, i as int);
                }
                self.accounts[i].1
            },
            None => {
                proof {
                    lemma_map_of_absent(self.accounts@, id@);
                }
                0
            },
        }
    }

    /// Stores `v` as the agent's balance.
    fn put(&mut self, id: &String, v: u64)
        requires
            old(self).wf(),
        ensures
            final(self).wf(),
            final(self)@ == old(self)@.insert(id@, v),
    {
        let entry = (id.clone(), v);
        let ghost e0 = entry;
        match self.find(id) {
            Some(i) => {
                let ghost s0 = self.accounts@;
                self.accounts.remove(i);
                self.accounts.insert(i, entry);
                proof {
                    assert(self.accounts@ =~= s0.update(i as int, e0));
                    lemma_map_of_update(s0, i as int, e0);
                    assert(keys_unique(self.accounts@));
                }
            },
            None => {
                let ghost s0 = self.accounts@;
                self.accounts.push(entry);
                proof {
                    lemma_map_of_push(s0, e0);
                    assert(keys_unique(self.accounts@));
                }
            },
        }
    }

    /// Credits the agent with `amount`, saturating at the maximum balance.
    pub fn credit(&mut self, id: &String, amount: u64)
        requires
            old(self).wf(),
        ensures
            final(self).wf(),
            final(self)@ == old(self)@.insert(
                id@,
                spec_balance(old(self)@, id@).saturating_add(amount),
            ),
    {
        let cur = self.balance(id);
        self.put(id, cur.saturating_add(amount));
    }

    /// Reduces the agent's balance by `amount`, floored at zero: slashing
    /// never produces a negative balance.
    pub fn slash(&mut self, id: &String, amount: u64)
        requires
            old(self).wf(),
        ensures
            final(self).wf(),
            final(self)@ == old(self)@.insert(
                id@,
                spec_balance(old(self)@, id@).saturating_sub(amount),
            ),
    {
        let cur = self.balance(id);
        self.put(id, cur.saturating_sub(amount));
    }

    /// All accounts, in insertion order.
    pub fn snapshot(&self) -> (r: &Vec<(String, u64)>)
        ensures
            map_of(r@) == self@,
            keys_unique(r@) == self.wf(),
    {
        &self.accounts
    }
}

} // verus!
