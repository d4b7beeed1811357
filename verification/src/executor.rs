//! The match executor: drives one deterministic environment against one
//! deterministic agent to completion, either returning a bare score or
//! recording a full trace of per-step digests.
//!
//! The environment here is the scripted state machine the protocol is
//! specified against: a fixed observation script plus a step budget. Game
//! rules live behind the same interface outside this crate; the protocol
//! only requires that the substrate be a pure function of its explicit
//! inputs. An agent whose decisions come from a sandboxed guest program is
//! driven step by step through [`MatchRun`]; the caller feeds each action in
//! and the recorded trace is built here, under the same invariants.

use vstd::prelude::*;

use crate::digest::{hash_u64, spec_hash_u64};
use crate::trace::{steps_wf, MatchTrace, StepRecord};

verus! {

/// Parameters an environment instance is constructed from.
#[derive(Clone, Copy, PartialEq, Eq, Structural, Debug)]
pub struct SystemParams {
    pub width: i32,
    pub height: i32,
    pub steps: u64,
}

/// A deterministic scripted environment: at step `i` it presents the
/// observation `script[i]`; the match ends when the script or the step
/// budget in `params.steps` is exhausted. The score is the saturating sum of
/// the actions taken. No hidden clock, randomness or external state: the
/// whole behaviour is a function of this value.
#[derive(Clone, PartialEq, Eq, Debug)]
pub struct ScriptSystem {
    pub params: SystemParams,
    pub script: Vec<u64>,
}

impl ScriptSystem {
    /// How many steps one match of this system executes.
    pub open spec fn spec_budget(self) -> int {
        if self.script@.len() <= self.params.steps {
            self.script@.len() as int
        } else {
            self.params.steps as int
        }
    }

    /// Computes the step budget of this system.
    pub fn budget(&self) -> (n: usize)
        ensures
            n == self.spec_budget(),
    {
        if (self.script.len() as u64) <= self.params.steps {
            self.script.len()
        } else {
            self.params.steps as usize
        }
    }
}

/// First matching rule wins; the default action when no rule matches.
pub open spec fn spec_decide_rules(rules: Seq<(u64, u64)>, dflt: u64, obs: u64) -> u64
    decreases rules.len(),
{
    if rules.len() == 0 {
        dflt
    } else if rules[0].0 == obs {
        rules[0].1
    } else {
        spec_decide_rules(rules.drop_first(), dflt, obs)
    }
}

/// A deterministic agent given by a finite decision table: the action for an
/// observation is the second component of the first rule whose first
/// component equals it, or the default action. Same observation, same
/// action, on every host — the determinism contract the protocol rests on.
#[derive(Clone, PartialEq, Eq, Debug)]
pub struct TableAgent {
    pub id: String,
    pub rules: Vec<(u64, u64)>,
    pub default_action: u64,
}

impl TableAgent {
    /// The action this agent returns for an observation.
    pub open spec fn spec_decide(self, obs: u64) -> u64 {
        spec_decide_rules(self.rules@, self.default_action, obs)
    }

    /// Maps an observation to this agent's action.
    pub fn decide(&self, obs: u64) -> (a: u64)
        ensures
            a == self.spec_decide(obs),
    {
        let mut k: usize = 0;
        assert(self.rules@.skip(0) =~= self.rules@);
        while k < self.rules.len()
            invariant
                k <= self.rules@.len(),
                spec_decide_rules(self.rules@, self.default_action, obs) == spec_decide_rules(
                    self.rules@.skip(k as int),
                    self.default_action,
                    obs,
                ),
            decreases self.rules@.len() - k,
        {
            let (key, action) = self.rules[k];
            assert(self.rules@.skip(k as int)[0] == self.rules@[k as int]);
            assert(self.rules@.skip(k as int).drop_first() =~= self.rules@.skip(k as int + 1));
            if key == obs {
                return action;
            }
            k += 1;
        }
        assert(self.rules@.skip(k as int) =~= Seq::<(u64, u64)>::empty());
        self.default_action
    }

    /// This agent's stable identity.
    pub fn id(&self) -> (r: String)
        ensures
            r@ == self.id@,
    {
        self.id.clone()
    }
}

/// The step records of one full match of `sys` against `agent`.
pub open spec fn spec_trace_steps(sys: ScriptSystem, agent: TableAgent) -> Seq<StepRecord> {
    Seq::new(
        sys.spec_budget() as nat,
        |i: int|
            StepRecord {
                step: i as u64,
                obs_hash: spec_hash_u64(sys.script@[i]),
                action_hash: spec_hash_u64(agent.spec_decide(sys.script@[i])),
            },
    )
}

/// The saturating sum of the actions of the first `n` steps.
pub open spec fn spec_score_upto(sys: ScriptSystem, agent: TableAgent, n: int) -> u64
    decreases n,
{
    if n <= 0 {
        0u64
    } else {
        spec_score_upto(sys, agent, n - 1).saturating_add(agent.spec_decide(sys.script@[n - 1]))
    }
}

/// The final score of one full match of `sys` against `agent`.
pub open spec fn spec_score(sys: ScriptSystem, agent: TableAgent) -> u64 {
    spec_score_upto(sys, agent, sys.spec_budget())
}

/// One match execution in progress, driven step by step: the caller reads
/// the observation presented at the current step, obtains an action — from
/// any agent, including a sandboxed guest outside this crate — and feeds it
/// back in. Every appended record hashes the presented observation, so a
/// finished run always yields a well-formed trace.
pub struct MatchRun {
    pub system: ScriptSystem,
    pub pos: usize,
    pub score: u64,
    pub steps: Vec<StepRecord>,
}

impl MatchRun {
    /// Validity: one record per executed step, dense indices, each record
    /// holding the digest of the observation its step presented.
    pub open spec fn wf(self) -> bool {
        &&& self.pos <= self.system.spec_budget()
        &&& self.steps@.len() == self.pos
        &&& steps_wf(self.steps@)
        &&& forall|i: int|
            0 <= i < self.pos ==> (#[trigger] self.steps@[i]).obs_hash == spec_hash_u64(
                self.system.script@[i],
            )
    }

    /// Starts a match of the given system with no steps executed yet.
    pub fn start(system: ScriptSystem) -> (r: MatchRun)
        ensures
            r.wf(),
            r.system == system,
            r.pos == 0,
            r.score == 0,
            r.steps@ =~= Seq::<StepRecord>::empty(),
    {
        MatchRun { system, pos: 0, score: 0, steps: Vec::new() }
    }

    /// Whether the match has run to its termination condition.
    pub fn is_done(&self) -> (r: bool)
        requires
            self.wf(),
        ensures
            r == (self.pos == self.system.spec_budget()),
    {
        self.pos >= self.system.budget()
    }

    /// The observation presented to the agent at the current step; `None`
    /// once the match is done.
    pub fn current_obs(&self) -> (r: Option<u64>)
        requires
            self.wf(),
        ensures
            match r {
                Some(o) => self.pos < self.system.spec_budget() && o == self.system.script@[self.pos as int],
                None => self.pos == self.system.spec_budget(),
            },
    {
        if self.is_done() {
            None
        } else {
            Some(self.system.script[self.pos])
        }
    }

    /// Executes one step: records the digests of the presented observation
    /// and of the given action, accumulates the score, and advances.
    pub fn step(&mut self, action: u64)
        requires
            old(self).wf(),
            old(self).pos < old(self).system.spec_budget(),
        ensures
            final(self).wf(),
            final(self).system == old(self).system,
            final(self).pos == old(self).pos + 1,
            final(self).score == old(self).score.saturating_add(action),
            final(self).steps@ == old(self).steps@.push(
                StepRecord {
                    step: old(self).pos as u64,
                    obs_hash: spec_hash_u64(old(self).system.script@[old(self).pos as int]),
                    action_hash: spec_hash_u64(action),
                },
            ),
    {
        let obs = self.system.script[self.pos];
        let record = StepRecord {
            step: self.pos as u64,
            obs_hash: hash_u64(obs),
            action_hash: hash_u64(action),
        };
        self.steps.push(record);
        self.score = self.score.saturating_add(action);
        let b = self.system.budget();
        assert(self.pos < b);
        self.pos += 1;
    }

    /// Finishes the run, handing over the immutable trace.
    pub fn into_trace(self) -> (t: MatchTrace)
        requires
            self.wf(),
        ensures
            t.wf(),
            t.steps@ == self.steps@,
            t.score == self.score,
    {
        MatchTrace { steps: self.steps, score: self.score }
    }
}

/// Runs one match to completion, recording at every step a record built
/// from hashing the step's observation and the agent's returned action.
/// The resulting trace is a function of the system and agent values alone:
/// two runs on identical parameters and the same agent yield identical
/// traces, hence identical commitments.
pub fn run_match_with_trace(system: &ScriptSystem, agent: &TableAgent) -> (t: MatchTrace)
    ensures
        t.wf(),
        t.steps@ == spec_trace_steps(*system, *agent),
        t.score == spec_score(*system, *agent),
{
    let budget = system.budget();
    let mut pos: usize = 0;
    let mut score: u64 = 0;
    let mut steps: Vec<StepRecord> = Vec::new();
    while pos < budget
        invariant
            budget == system.spec_budget(),
            pos <= budget,
            steps@ =~= spec_trace_steps(*system, *agent).take(pos as int),
            score == spec_score_upto(*system, *agent, pos as int),
        decreases budget - pos,
    {
        let obs = system.script[pos];
        let action = agent.decide(obs);
        steps.push(
            StepRecord { step: pos as u64, obs_hash: hash_u64(obs), action_hash: hash_u64(action) },
        );
        score = score.saturating_add(action);
        pos += 1;
        assert(steps@ =~= spec_trace_steps(*system, *agent).take(pos as int));
    }
    assert(steps@ =~= spec_trace_steps(*system, *agent));
    let t = MatchTrace { steps, score };
    assert forall|i: int| 0 <= i < t.steps@.len() implies (#[trigger] t.steps@[i]).step == i by {}
    t
}

/// Runs one match to completion and returns the final score only: the cheap
/// path used when no commitment is required. Returns exactly the score of
/// the traced run.
pub fn run_match(system: &ScriptSystem, agent: &TableAgent) -> (score: u64)
    ensures
        score == spec_score(*system, *agent),
{
    let budget = system.budget();
    let mut pos: usize = 0;
    let mut score: u64 = 0;
    while pos < budget
        invariant
            budget == system.spec_budget(),
            pos <= budget,
            score == spec_score_upto(*system, *agent, pos as int),
        decreases budget - pos,
    {
        let obs = system.script[pos];
        let action = agent.decide(obs);
        score = score.saturating_add(action);
        pos += 1;
    }
    score
}

} // verus!
