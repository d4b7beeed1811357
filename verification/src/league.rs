//! The league and settlement layer: runs each registered agent's matches,
//! ranks agents by descending score with ties broken by registration order,
//! and issues the reward credits against the ledger.
//!
//! Ranking is positional: an agent's rank is the number of agents with a
//! strictly higher score plus the number of earlier-registered agents with
//! the same score, so reward allocation is reproducible run over run.

use vstd::prelude::*;

use crate::assoc::spec_balance;
use crate::executor::{run_match, spec_score, ScriptSystem, TableAgent};
use crate::ledger::Ledger;

verus! {

/// How many matches each registered agent plays.
#[derive(Clone, Copy, PartialEq, Eq, Structural, Debug)]
pub struct LeagueConfig {
    pub matches_per_agent: usize,
}

/// One agent's league outcome: its identity, each match's score, and the
/// saturating total.
#[derive(Clone, PartialEq, Eq, Debug)]
pub struct LeagueResult {
    pub agent_id: String,
    pub total_score: u64,
    pub matches: Vec<u64>,
}

/// The reward schedule, by rank: rank `r` earns `amounts[r]`; ranks beyond
/// the table earn nothing. A schedule, not a hardcoded policy.
#[derive(Clone, PartialEq, Eq, Debug)]
pub struct RewardTable {
    pub amounts: Vec<u64>,
}

/// The saturating sum of `n` copies of `v`.
pub open spec fn spec_repeat_sum(v: u64, n: int) -> u64
    decreases n,
{
    if n <= 0 {
        0u64
    } else {
        spec_repeat_sum(v, n - 1).saturating_add(v)
    }
}

/// Runs the league: every agent plays the configured number of matches of
/// the system. The substrate is deterministic, so every repetition of an
/// agent's match scores the same, and the whole result table is a function
/// of the system, the agents and the configuration.
pub fn run_league(system: &ScriptSystem, agents: &Vec<TableAgent>, cfg: &LeagueConfig) -> (r: Vec<
    LeagueResult,
>)
    ensures
        r@.len() == agents@.len(),
        forall|i: int|
            0 <= i < r@.len() ==> {
                let res = #[trigger] r@[i];
                &&& res.agent_id@ == agents@[i].id@
                &&& res.matches@.len() == cfg.matches_per_agent
                &&& (forall|j: int|
                    0 <= j < res.matches@.len() ==> res.matches@[j] == spec_score(
                        *system,
                        agents@[i],
                    ))
                &&& res.total_score == spec_repeat_sum(
                    spec_score(*system, agents@[i]),
                    cfg.matches_per_agent as int,
                )
            },
{
    let mut out: Vec<LeagueResult> = Vec::new();
    let mut i: usize = 0;
    while i < agents.len()
        invariant
            i <= agents@.len(),
            out@.len() == i,
            forall|k: int|
                0 <= k < i ==> {
                    let res = #[trigger] out@[k];
                    &&& res.agent_id@ == agents@[k].id@
                    &&& res.matches@.len() == cfg.matches_per_agent
                    &&& (forall|j: int|
                        0 <= j < res.matches@.len() ==> res.matches@[j] == spec_score(
                            *system,
                            agents@[k],
                        ))
                    &&& res.total_score == spec_repeat_sum(
                        spec_score(*system, agents@[k]),
                        cfg.matches_per_agent as int,
                    )
                },
        decreases agents@.len() - i,
    {
        let agent = &agents[i];
        let mut matches: Vec<u64> = Vec::new();
        let mut total: u64 = 0;
        let mut j: usize = 0;
        while j < cfg.matches_per_agent
            invariant
                j <= cfg.matches_per_agent,
                matches@.len() == j,
                forall|k: int| 0 <= k < j ==> matches@[k] == spec_score(*system, agents@[i as int]),
                total == spec_repeat_sum(spec_score(*system, agents@[i as int]), j as int),
                agent == &agents@[i as int],
                i < agents@.len(),
            decreases cfg.matches_per_agent - j,
        {
            let score = run_match(system, agent);
            matches.push(score);
            total = total.saturating_add(score);
            j += 1;
        }
        out.push(LeagueResult { agent_id: agent.id(), total_score: total, matches });
        i += 1;
    }
    out
}

/// How many of the first `n` scores strictly exceed `v`.
pub open spec fn count_gt(scores: Seq<u64>, v: u64, n: int) -> int
    decreases n,
{
    if n <= 0 {
        0
    } else {
        count_gt(scores, v, n - 1) + if scores[n - 1] > v {
            1int
        } else {
            0int
        }
    }
}

/// How many of the first `n` scores equal `v`.
pub open spec fn count_eq(scores: Seq<u64>, v: u64, n: int) -> int
    decreases n,
{
    if n <= 0 {
        0
    } else {
        count_eq(scores, v, n - 1) + if scores[n - 1] == v {
            1int
        } else {
            0int
        }
    }
}

/// The rank of entry `i`: agents with strictly higher scores come first,
/// and among equal scores the earlier-registered agent wins.
pub open spec fn spec_rank(scores: Seq<u64>, i: int) -> int {
    count_gt(scores, scores[i], scores.len() as int) + count_eq(scores, scores[i], i)
}

/// The reward a rank earns under a schedule.
pub open spec fn spec_reward(table: Seq<u64>, rank: int) -> u64 {
    if 0 <= rank < table.len() {
        table[rank]
    } else {
        0u64
    }
}

/// Both counts are non-negative and together never exceed the prefix length:
/// no score is at once strictly greater than and equal to `v`.
proof fn lemma_count_bounds(scores: Seq<u64>, v: u64, n: int)
    requires
        n <= scores.len(),
    ensures
        0 <= count_gt(scores, v, n),
        0 <= count_eq(scores, v, n),
        count_gt(scores, v, n) + count_eq(scores, v, n) <= if n <= 0 {
            0int
        } else {
            n
        },
    decreases n,
{
    if n > 0 {
        lemma_count_bounds(scores, v, n - 1);
    }
}

/// A longer prefix never has fewer equal scores.
proof fn lemma_count_eq_mono(scores: Seq<u64>, v: u64, m: int, n: int)
    requires
        m <= n,
    ensures
        count_eq(scores, v, m) <= count_eq(scores, v, n),
    decreases n - m,
{
    if m < n {
        lemma_count_eq_mono(scores, v, m, n - 1);
    }
}

/// Computes the rank of entry `i` among the scores.
pub fn rank_of(scores: &Vec<u64>, i: usize) -> (r: usize)
    requires
        i < scores@.len(),
    ensures
        r == spec_rank(scores@, i as int),
{
    let v = scores[i];
    let n = scores.len();
    let mut cnt: usize = 0;
    let mut j: usize = 0;
    while j < n
        invariant
            n == scores@.len(),
            j <= n,
            cnt == count_gt(scores@, v, j as int),
            cnt <= j,
        decreases n - j,
    {
        proof {
            lemma_count_bounds(scores@, v, j as int);
        }
        if scores[j] > v {
            cnt += 1;
        }
        j += 1;
    }
    let mut k: usize = 0;
    while k < i
        invariant
            i < scores@.len(),
            n == scores@.len(),
            k <= i,
            cnt == count_gt(scores@, v, n as int) + count_eq(scores@, v, k as int),
            cnt <= n,
        decreases i - k,
    {
        proof {
            lemma_count_bounds(scores@, v, n as int);
            lemma_count_bounds(scores@, v, k as int);
            lemma_count_eq_mono(scores@, v, k as int + 1, i as int);
            lemma_count_bounds(scores@, v, i as int);
            lemma_count_eq_mono(scores@, v, i as int, n as int);
        }
        if scores[k] == v {
            cnt += 1;
        }
        k += 1;
    }
    cnt
}

/// The total score of each league result, in registration order.
pub open spec fn scores_of(results: Seq<LeagueResult>) -> Seq<u64> {
    results.map(|i: int, r: LeagueResult| r.total_score)
}

/// Assigns each entry the reward of its rank: rank 0 earns the schedule's
/// first amount, rank 1 its second, and ranks beyond the schedule earn
/// nothing; ties are broken by input order.
pub fn assign_rewards(scores: &Vec<u64>, table: &RewardTable) -> (r: Vec<u64>)
    ensures
        r@.len() == scores@.len(),
        forall|i: int|
            0 <= i < r@.len() ==> r@[i] == spec_reward(table.amounts@, spec_rank(scores@, i)),
{
    let mut out: Vec<u64> = Vec::new();
    let mut i: usize = 0;
    while i < scores.len()
        invariant
            i <= scores@.len(),
            out@.len() == i,
            forall|k: int|
                0 <= k < i ==> out@[k] == spec_reward(table.amounts@, spec_rank(scores@, k)),
        decreases scores@.len() - i,
    {
        let rk = rank_of(scores, i);
        let amount = if rk < table.amounts.len() {
            table.amounts[rk]
        } else {
            0
        };
        out.push(amount);
        i += 1;
    }
    out
}

/// Crediting one agent on a balance map.
pub open spec fn spec_credit_map(m: Map<Seq<char>, u64>, id: Seq<char>, amount: u64) -> Map<
    Seq<char>,
    u64,
> {
    m.insert(id, spec_balance(m, id).saturating_add(amount))
}

/// The balance map after settling the first `n` league results under a
/// reward schedule, in registration order.
pub open spec fn spec_settle_upto(
    m: Map<Seq<char>, u64>,
    results: Seq<LeagueResult>,
    table: Seq<u64>,
    n: int,
) -> Map<Seq<char>, u64>
    decreases n,
{
    if n <= 0 {
        m
    } else {
        spec_credit_map(
            spec_settle_upto(m, results, table, n - 1),
            results[n - 1].agent_id@,
            spec_reward(table, spec_rank(scores_of(results), n - 1)),
        )
    }
}

/// Settles the league: credits every agent with the reward of its rank, in
/// registration order, and returns the rewards assigned. The ledger ends in
/// exactly the settled state; nothing else about it changes.
pub fn settle(results: &Vec<LeagueResult>, table: &RewardTable, ledger: &mut Ledger) -> (rewards:
    Vec<u64>)
    requires
        old(ledger).wf(),
    ensures
        final(ledger).wf(),
        final(ledger)@ == spec_settle_upto(
            old(ledger)@,
            results@,
            table.amounts@,
            results@.len() as int,
        ),
        rewards@.len() == results@.len(),
        forall|i: int|
            0 <= i < rewards@.len() ==> rewards@[i] == spec_reward(
                table.amounts@,
                spec_rank(scores_of(results@), i),
            ),
{
    let mut scores: Vec<u64> = Vec::new();
    let mut i: usize = 0;
    while i < results.len()
        invariant
            i <= results@.len(),
            scores@ =~= scores_of(results@).take(i as int),
        decreases results@.len() - i,
    {
        scores.push(results[i].total_score);
        assert(scores@ =~= scores_of(results@).take(i as int + 1));
        i += 1;
    }
    assert(scores@ =~= scores_of(results@));
    let mut rewards: Vec<u64> = Vec::new();
    let mut k: usize = 0;
    while k < results.len()
        invariant
            k <= results@.len(),
            scores@ == scores_of(results@),
            ledger.wf(),
            ledger@ == spec_settle_upto(old(ledger)@, results@, table.amounts@, k as int),
            rewards@.len() == k,
            forall|i: int|
                0 <= i < k ==> rewards@[i] == spec_reward(
                    table.amounts@,
                    spec_rank(scores_of(results@), i),
                ),
        decreases results@.len() - k,
    {
        let rk = rank_of(&scores, k);
        let amount = if rk < table.amounts.len() {
            table.amounts[rk]
        } else {
            0
        };
        ledger.credit(&results[k].agent_id, amount);
        rewards.push(amount);
        k += 1;
    }
    rewards
}

} // verus!
