use nets_core::digest::{hash_pair, hash_u64, Digest};
use nets_core::executor::{run_match, run_match_with_trace, MatchRun, ScriptSystem, SystemParams, TableAgent};
use nets_core::fraud::{
    build_first_divergent_proof, check_replay, first_divergent_step, prove_step_fraud,
    verify_step_proof, TraceStepProof,
};
use nets_core::merkle::{commit, open, verify_inclusion};
use nets_core::trace::{MatchTrace, StepRecord};
use nets_core::ProtocolError;

fn record(i: u64, obs: u64, action: u64) -> StepRecord {
    StepRecord { step: i, obs_hash: hash_u64(obs), action_hash: hash_u64(action) }
}

fn sample_trace(n: u64) -> MatchTrace {
    let mut steps = Vec::new();
    for i in 0..n {
        steps.push(record(i, 100 + i, 200 + i));
    }
    MatchTrace { steps, score: n }
}

fn scripted_system(script: Vec<u64>, budget: u64) -> ScriptSystem {
    ScriptSystem { params: SystemParams { width: 10, height: 10, steps: budget }, script }
}

fn scripted_agent(id: &str, rules: Vec<(u64, u64)>, default_action: u64) -> TableAgent {
    TableAgent { id: id.to_string(), rules, default_action }
}

#[test]
fn commit_is_deterministic() {
    let t = sample_trace(7);
    assert_eq!(commit(&t), commit(&t));
    let u = sample_trace(7);
    assert_eq!(commit(&t), commit(&u));
}

#[test]
fn different_traces_have_different_roots() {
    let a = sample_trace(7);
    let mut b = sample_trace(7);
    b.steps[3].action_hash = hash_u64(9999);
    assert_ne!(commit(&a), commit(&b));
    let c = sample_trace(6);
    assert_ne!(commit(&a), commit(&c));
}

#[test]
fn open_verifies_at_every_index() {
    for n in [1u64, 2, 3, 5, 8] {
        let t = sample_trace(n);
        let root = commit(&t);
        for i in 0..n as usize {
            let path = open(&t, i).unwrap();
            let leaf = t.steps[i].hash();
            assert!(verify_inclusion(&root, i as u64, &leaf, &path));
        }
    }
}

#[test]
fn open_out_of_range() {
    let t = sample_trace(4);
    assert_eq!(open(&t, 4), Err(ProtocolError::IndexOutOfRange));
    assert_eq!(t.step_proof(9), Err(ProtocolError::IndexOutOfRange));
}

#[test]
fn corrupted_leaf_or_path_fails() {
    let t = sample_trace(5);
    let root = commit(&t);
    let path = open(&t, 2).unwrap();
    let leaf = t.steps[2].hash();
    assert!(verify_inclusion(&root, 2, &leaf, &path));

    // one flipped bit in the leaf digest
    let mut bad_leaf = leaf;
    bad_leaf.w0 ^= 1;
    assert!(!verify_inclusion(&root, 2, &bad_leaf, &path));

    // one flipped bit in a path element
    let mut bad_path = path.clone();
    bad_path[0].sibling.w3 ^= 1 << 17;
    assert!(!verify_inclusion(&root, 2, &leaf, &bad_path));

    // a flipped side bit
    let mut bad_side = path.clone();
    bad_side[0].right = !bad_side[0].right;
    assert!(!verify_inclusion(&root, 2, &leaf, &bad_side));

    // the wrong position
    assert!(!verify_inclusion(&root, 3, &leaf, &path));
}

#[test]
fn divergence_search_finds_first_difference() {
    let a = sample_trace(6);
    let b = sample_trace(6);
    assert_eq!(first_divergent_step(&a, &b), None);

    for k in [0usize, 2, 5] {
        let mut c = sample_trace(6);
        c.steps[k].obs_hash = hash_u64(7777);
        assert_eq!(first_divergent_step(&a, &c), Some(k));
    }

    let short = sample_trace(4);
    assert_eq!(first_divergent_step(&a, &short), Some(4));
    assert_eq!(first_divergent_step(&short, &a), Some(4));
}

#[test]
fn divergent_proof_comes_from_the_reference_trace() {
    let committed = sample_trace(6);
    let mut recomputed = sample_trace(6);
    recomputed.steps[3].action_hash = hash_u64(4242);
    let proof = build_first_divergent_proof(&committed, &recomputed).unwrap();
    assert_eq!(proof.step_index, 3);
    assert_eq!(proof.obs_hash, committed.steps[3].obs_hash);
    assert_eq!(proof.action_hash, committed.steps[3].action_hash);
    let root = commit(&committed);
    assert!(verify_step_proof(&root, &proof));

    assert!(build_first_divergent_proof(&committed, &committed).is_none());
    assert_eq!(
        prove_step_fraud(&committed, &committed),
        Err(ProtocolError::NoDivergence)
    );
}

#[test]
fn tampered_step_proof_fails() {
    let t = sample_trace(5);
    let root = commit(&t);
    let path = open(&t, 2).unwrap();
    let good = TraceStepProof {
        step_index: 2,
        obs_hash: t.steps[2].obs_hash,
        action_hash: t.steps[2].action_hash,
        merkle_path: path.clone(),
    };
    assert!(verify_step_proof(&root, &good));
    let tampered = TraceStepProof {
        step_index: 2,
        obs_hash: t.steps[2].obs_hash,
        action_hash: hash_u64(31337),
        merkle_path: path,
    };
    assert!(!verify_step_proof(&root, &tampered));
}

#[test]
fn replay_check_reports_mismatch() {
    let t = sample_trace(5);
    let root = commit(&t);
    assert_eq!(check_replay(&root, &t), Ok(()));
    let other = sample_trace(4);
    assert_eq!(check_replay(&root, &other), Err(ProtocolError::TraceMismatch));
}

#[test]
fn traced_run_is_reproducible() {
    let sys = scripted_system(vec![5, 6, 7, 8], 10);
    let agent = scripted_agent("alpha", vec![(6, 60)], 9);
    let t1 = run_match_with_trace(&sys, &agent);
    let t2 = run_match_with_trace(&sys, &agent);
    assert_eq!(t1, t2);
    assert_eq!(commit(&t1), commit(&t2));
    assert_eq!(run_match(&sys, &agent), t1.score);
}

#[test]
fn three_step_scripted_match_commits_and_opens() {
    let sys = scripted_system(vec![1, 2, 3], 3);
    let agent = scripted_agent("alpha", vec![(1, 10), (2, 20), (3, 30)], 0);
    let t = run_match_with_trace(&sys, &agent);
    assert_eq!(t.steps.len(), 3);
    assert_eq!(t.score, 60);
    assert_eq!(t.steps[1].obs_hash, hash_u64(2));
    assert_eq!(t.steps[1].action_hash, hash_u64(20));
    let root = commit(&t);
    let leaf_1 = t.steps[1].hash();
    let path_1 = open(&t, 1).unwrap();
    assert!(verify_inclusion(&root, 1, &leaf_1, &path_1));
}

#[test]
fn budget_caps_the_script() {
    let sys = scripted_system(vec![1, 2, 3, 4, 5], 2);
    let agent = scripted_agent("alpha", vec![], 1);
    let t = run_match_with_trace(&sys, &agent);
    assert_eq!(t.steps.len(), 2);
    assert_eq!(t.score, 2);
}

#[test]
fn caller_driven_run_matches_the_loop() {
    let sys = scripted_system(vec![4, 5, 6], 3);
    let agent = scripted_agent("alpha", vec![(5, 50)], 7);
    let mut run = MatchRun::start(sys.clone());
    while !run.is_done() {
        let obs = run.current_obs().unwrap();
        let action = agent.decide(obs);
        run.step(action);
    }
    let manual = run.into_trace();
    let looped = run_match_with_trace(&sys, &agent);
    assert_eq!(manual, looped);
}

#[test]
fn pair_hash_depends_on_order() {
    let a = hash_u64(1);
    let b = hash_u64(2);
    assert_ne!(hash_pair(&a, &b), hash_pair(&b, &a));
    assert_ne!(hash_u64(1), hash_u64(2));
    assert_ne!(Digest::zero(), hash_u64(0));
}
