//! Wallet accounting behind settlement: agents are bound to wallets, and
//! credits and slashes issued against an agent land on its bound wallet.
//!
//! The adapter is the interface a deployment implements against a real
//! ledger service; the mock adapter here is the in-memory implementation the
//! league runs with. Both directions of the money flow saturate: credits cap
//! at the maximum amount and slashes floor at zero.

use vstd::prelude::*;

use crate::assoc::{find_key, get_key, keys_unique, map_of, put_key, spec_balance};

verus! {

/// A binding list's map, with wallet names taken to their character views.
pub open spec fn bindings_of(s: Seq<(String, String)>) -> Map<Seq<char>, Seq<char>> {
    map_of(s).map_values(|w: String| w@)
}

/// Taking values to views keeps the domain.
proof fn lemma_bindings_dom(m: Map<Seq<char>, String>)
    ensures
        m.map_values(|w: String| w@).dom() == m.dom(),
{
    assert(m.map_values(|w: String| w@).dom() =~= m.dom());
}

/// Taking values to views commutes with insertion and keeps the domain.
proof fn lemma_bindings_insert(m: Map<Seq<char>, String>, k: Seq<char>, v: String)
    ensures
        m.insert(k, v).map_values(|w: String| w@) == m.map_values(|w: String| w@).insert(k, v@),
        m.map_values(|w: String| w@).dom() == m.dom(),
{
    assert(m.insert(k, v).map_values(|w: String| w@) =~= m.map_values(|w: String| w@).insert(
        k,
        v@,
    ));
    assert(m.map_values(|w: String| w@).dom() =~= m.dom());
}

/// A ledger of wallets that agents settle against. Implementations model
/// their state as two finite maps: which wallet each agent pays into, and
/// each wallet's balance.
pub trait WalletAdapter {
    /// Which wallet each agent is bound to.
    spec fn bindings(&self) -> Map<Seq<char>, Seq<char>>;

    /// The balance of each wallet.
    spec fn balances(&self) -> Map<Seq<char>, u64>;

    /// The implementor's internal validity.
    spec fn adapter_wf(&self) -> bool;

    /// Binds an agent to the wallet its rewards and slashes settle against,
    /// opening the wallet at zero when it is new.
    fn bind_agent(&mut self, agent_id: &String, wallet: &String)
        requires
            old(self).adapter_wf(),
        ensures
            final(self).adapter_wf(),
            final(self).bindings() == old(self).bindings().insert(agent_id@, wallet@),
            final(self).balances() == if old(self).balances().contains_key(wallet@) {
                old(self).balances()
            } else {
                old(self).balances().insert(wallet@, 0u64)
            },
    ;

    /// Credits the agent's bound wallet, saturating at the maximum balance;
    /// an unbound agent's credit has nowhere to land and changes nothing.
    fn credit(&mut self, agent_id: &String, amount: u64)
        requires
            old(self).adapter_wf(),
        ensures
            final(self).adapter_wf(),
            final(self).bindings() == old(self).bindings(),
            final(self).balances() == if old(self).bindings().contains_key(agent_id@) {
                old(self).balances().insert(
                    old(self).bindings()[agent_id@],
                    spec_balance(
                        old(self).balances(),
                        old(self).bindings()[agent_id@],
                    ).saturating_add(amount),
                )
            } else {
                old(self).balances()
            },
    ;

    /// Reduces the agent's bound wallet by `amount`, floored at zero; an
    /// unbound agent changes nothing.
    fn slash(&mut self, agent_id: &String, amount: u64)
        requires
            old(self).adapter_wf(),
        ensures
            final(self).adapter_wf(),
            final(self).bindings() == old(self).bindings(),
            final(self).balances() == if old(self).bindings().contains_key(agent_id@) {
                old(self).balances().insert(
                    old(self).bindings()[agent_id@],
                    spec_balance(
                        old(self).balances(),
                        old(self).bindings()[agent_id@],
                    ).saturating_sub(amount),
                )
            } else {
                old(self).balances()
            },
    ;

    /// The wallet's balance; zero when the wallet is unknown.
    fn balance(&self, wallet: &String) -> (r: u64)
        requires
            self.adapter_wf(),
        ensures
            r == spec_balance(self.balances(), wallet@),
    ;
}

/// The in-memory wallet adapter the league runs with.
pub struct MockWalletAdapter {
    agent_to_wallet: Vec<(String, String)>,
    wallet_balances: Vec<(String, u64)>,
}

impl MockWalletAdapter {
    /// An adapter with no bindings and no wallets.
    pub fn new() -> (r: MockWalletAdapter)
        ensures
            r.adapter_wf(),
            r.bindings() == Map::<Seq<char>, Seq<char>>::empty(),
            r.balances() == Map::<Seq<char>, u64>::empty(),
    {
        MockWalletAdapter { agent_to_wallet: Vec::new(), wallet_balances: Vec::new() }
    }

    /// All wallets and their balances, in insertion order.
    pub fn all_wallets(&self) -> (r: &Vec<(String, u64)>)
        ensures
            map_of(r@) == self.balances(),
            self.adapter_wf() ==> keys_unique(r@),
    {
        &self.wallet_balances
    }
}

impl WalletAdapter for MockWalletAdapter {
    closed spec fn bindings(&self) -> Map<Seq<char>, Seq<char>> {
        bindings_of(self.agent_to_wallet@)
    }

    closed spec fn balances(&self) -> Map<Seq<char>, u64> {
        map_of(self.wallet_balances@)
    }

    closed spec fn adapter_wf(&self) -> bool {
        keys_unique(self.agent_to_wallet@) && keys_unique(self.wallet_balances@)
    }

    fn bind_agent(&mut self, agent_id: &String, wallet: &String) {
        proof {
            lemma_bindings_insert(map_of(self.agent_to_wallet@), agent_id@, *wallet);
        }
        put_key(&mut self.agent_to_wallet, agent_id, wallet.clone());
        match find_key(&self.wallet_balances, wallet) {
            Some(_) => {
                proof {
                    crate::assoc::lemma_map_of_contains(self.wallet_balances@, wallet@);
                }
            },
            None => {
                proof {
                    crate::assoc::lemma_map_of_absent(self.wallet_balances@, wallet@);
                }
                put_key(&mut self.wallet_balances, wallet, 0);
            },
        }
    }

    fn credit(&mut self, agent_id: &String, amount: u64) {
        proof {
            lemma_bindings_dom(map_of(self.agent_to_wallet@));
        }
        let wallet = match get_key(&self.agent_to_wallet, agent_id) {
            Some(w) => w.clone(),
            None => {
                return ;
            },
        };
        let cur = match get_key(&self.wallet_balances, &wallet) {
            Some(b) => *b,
            None => 0,
        };
        put_key(&mut self.wallet_balances, &wallet, cur.saturating_add(amount));
    }

    fn slash(&mut self, agent_id: &String, amount: u64) {
        proof {
            lemma_bindings_dom(map_of(self.agent_to_wallet@));
        }
        let wallet = match get_key(&self.agent_to_wallet, agent_id) {
            Some(w) => w.clone(),
            None => {
                return ;
            },
        };
        let cur = match get_key(&self.wallet_balances, &wallet) {
            Some(b) => *b,
            None => 0,
        };
        put_key(&mut self.wallet_balances, &wallet, cur.saturating_sub(amount));
    }

    fn balance(&self, wallet: &String) -> (r: u64) {
        match get_key(&self.wallet_balances, wallet) {
            Some(b) => *b,
            None => 0,
        }
    }
}

} // verus!
