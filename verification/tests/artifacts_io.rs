use nets_core::artifacts::{parse_commitment, render_commitment, root_to_hex, Commitment};
use nets_core::cli::{dispatch, Cli, Command, Request, SystemKind};
use nets_core::digest::hash_u64;
use nets_core::envelope_codec::{decode_root, parse_envelope, render_envelope, verify_fraud_envelope};
use nets_core::executor::{run_match_with_trace, ScriptSystem, SystemParams, TableAgent};
use nets_core::fraud::{FraudProofEnvelope, TraceStepProof};
use nets_core::league::{assign_rewards, run_league, settle, LeagueConfig, LeagueResult, RewardTable};
use nets_core::ledger::Ledger;
use nets_core::merkle::{commit, open};
use nets_core::trace::{MatchTrace, StepRecord};
use nets_core::wallet::{MockWalletAdapter, WalletAdapter};
use nets_core::ProtocolError;

fn sample_trace(n: u64) -> MatchTrace {
    let mut steps = Vec::new();
    for i in 0..n {
        steps.push(StepRecord {
            step: i,
            obs_hash: hash_u64(100 + i),
            action_hash: hash_u64(200 + i),
        });
    }
    MatchTrace { steps, score: n }
}

fn sample_commitment(root: String) -> Commitment {
    Commitment {
        system: "snake".to_string(),
        agent: "alpha".to_string(),
        merkle_root: root,
        system_params: SystemParams { width: 10, height: 10, steps: 300 },
    }
}

#[test]
fn root_hex_matches_the_reference_encoder() {
    let d = hash_u64(12345);
    let mut bytes = Vec::new();
    bytes.extend_from_slice(&d.w0.to_be_bytes());
    bytes.extend_from_slice(&d.w1.to_be_bytes());
    bytes.extend_from_slice(&d.w2.to_be_bytes());
    bytes.extend_from_slice(&d.w3.to_be_bytes());
    assert_eq!(root_to_hex(&d), hex::encode(&bytes));
}

#[test]
fn root_hex_round_trip() {
    let d = hash_u64(5);
    let encoded = root_to_hex(&d);
    assert_eq!(encoded.len(), 64);
    assert_eq!(decode_root(&encoded), Ok(d));
    assert_eq!(
        decode_root(&"zz".to_string()),
        Err(ProtocolError::InvalidCommitment)
    );
    assert_eq!(
        decode_root(&"abcd".to_string()),
        Err(ProtocolError::InvalidCommitment)
    );
}

#[test]
fn commitment_round_trip_is_identity() {
    let t = sample_trace(4);
    let c = sample_commitment(root_to_hex(&commit(&t)));
    let text = render_commitment(&c);
    let parsed = parse_commitment(&text).unwrap();
    assert_eq!(parsed, c);
    assert_eq!(render_commitment(&parsed), text);
}

#[test]
fn commitment_text_is_canonical_json() {
    let c = Commitment {
        system: "snake".to_string(),
        agent: "a1".to_string(),
        merkle_root: "00ff".to_string(),
        system_params: SystemParams { width: -3, height: 7, steps: 12 },
    };
    let text = render_commitment(&c);
    assert_eq!(
        String::from_utf8(text.clone()).unwrap(),
        r#"{"system":"snake","agent":"a1","merkle_root":"00ff","system_params":{"width":-3,"height":7,"steps":12}}"#
    );
    let value: serde_json::Value = serde_json::from_slice(&text).unwrap();
    assert_eq!(value["agent"], "a1");
    assert_eq!(value["system_params"]["width"], -3);
}

#[test]
fn malformed_commitment_is_rejected() {
    assert_eq!(
        parse_commitment(&b"{}".to_vec()),
        Err(ProtocolError::InvalidCommitment)
    );
    let c = sample_commitment("00".to_string());
    let mut text = render_commitment(&c);
    text.pop();
    assert_eq!(parse_commitment(&text), Err(ProtocolError::InvalidCommitment));
}

fn sample_envelope(path_len: u64) -> FraudProofEnvelope {
    let t = sample_trace(path_len.max(2));
    let root = commit(&t);
    let path = open(&t, 1).unwrap();
    FraudProofEnvelope {
        agent: "alpha".to_string(),
        system: "snake".to_string(),
        committed_root: root_to_hex(&root),
        proof: TraceStepProof {
            step_index: 1,
            obs_hash: t.steps[1].obs_hash,
            action_hash: t.steps[1].action_hash,
            merkle_path: path,
        },
    }
}

#[test]
fn envelope_round_trip_is_identity() {
    for n in [2u64, 3, 6] {
        let e = sample_envelope(n);
        let text = render_envelope(&e);
        let parsed = parse_envelope(&text).unwrap();
        assert_eq!(parsed, e);
        assert_eq!(render_envelope(&parsed), text);
    }
}

#[test]
fn envelope_text_is_json() {
    let e = sample_envelope(3);
    let text = render_envelope(&e);
    let value: serde_json::Value = serde_json::from_slice(&text).unwrap();
    assert_eq!(value["agent"], "alpha");
    assert_eq!(value["proof"]["step_index"], 1);
    assert!(value["proof"]["merkle_path"].is_array());
}

#[test]
fn malformed_envelope_is_rejected() {
    assert_eq!(parse_envelope(&b"{}".to_vec()), Err(ProtocolError::InvalidProof));
    let e = sample_envelope(4);
    let mut text = render_envelope(&e);
    let last = text.len() - 1;
    text[last] = b'!';
    assert_eq!(parse_envelope(&text), Err(ProtocolError::InvalidProof));
}

#[test]
fn reverifying_after_a_round_trip_gives_the_same_answer() {
    let t = sample_trace(5);
    let root = commit(&t);
    let commitment = sample_commitment(root_to_hex(&root));
    let envelope = sample_envelope(5);

    let before = verify_fraud_envelope(&commitment, &envelope);
    let commitment2 = parse_commitment(&render_commitment(&commitment)).unwrap();
    let envelope2 = parse_envelope(&render_envelope(&envelope)).unwrap();
    let after = verify_fraud_envelope(&commitment2, &envelope2);
    assert_eq!(before, after);
    assert_eq!(before, Ok(true));

    // a tampered allegation still fails after the round trip
    let mut bad = envelope.clone();
    bad.proof.action_hash = hash_u64(31337);
    let bad2 = parse_envelope(&render_envelope(&bad)).unwrap();
    assert_eq!(verify_fraud_envelope(&commitment, &bad), Ok(false));
    assert_eq!(verify_fraud_envelope(&commitment2, &bad2), Ok(false));
}

#[test]
fn rewards_follow_rank_with_ties_by_registration() {
    let table = RewardTable { amounts: vec![100, 50] };
    let rewards = assign_rewards(&vec![50, 30, 10], &table);
    assert_eq!(rewards, vec![100, 50, 0]);
    let tied = assign_rewards(&vec![30, 50, 50, 10], &table);
    assert_eq!(tied, vec![0, 100, 50, 0]);
}

#[test]
fn settlement_credits_the_ledger() {
    let results = vec![
        LeagueResult { agent_id: "a".to_string(), total_score: 50, matches: vec![50] },
        LeagueResult { agent_id: "b".to_string(), total_score: 30, matches: vec![30] },
        LeagueResult { agent_id: "c".to_string(), total_score: 10, matches: vec![10] },
    ];
    let table = RewardTable { amounts: vec![100, 50] };
    let mut ledger = Ledger::new();
    let rewards = settle(&results, &table, &mut ledger);
    assert_eq!(rewards, vec![100, 50, 0]);
    assert_eq!(ledger.balance(&"a".to_string()), 100);
    assert_eq!(ledger.balance(&"b".to_string()), 50);
    assert_eq!(ledger.balance(&"c".to_string()), 0);
}

#[test]
fn slash_floors_at_zero() {
    let mut ledger = Ledger::new();
    let id = "agent".to_string();
    ledger.credit(&id, 6);
    ledger.slash(&id, 10);
    assert_eq!(ledger.balance(&id), 0);
    ledger.credit(&id, 25);
    ledger.slash(&id, 5);
    assert_eq!(ledger.balance(&id), 20);
}

#[test]
fn wallets_follow_their_bound_agents() {
    let mut wallet = MockWalletAdapter::new();
    let a = "alpha".to_string();
    let b = "beta".to_string();
    let w = "shared".to_string();
    wallet.bind_agent(&a, &w);
    wallet.bind_agent(&b, &w);
    wallet.credit(&a, 40);
    wallet.credit(&b, 10);
    assert_eq!(wallet.balance(&w), 50);
    wallet.slash(&a, 60);
    assert_eq!(wallet.balance(&w), 0);
    wallet.credit(&"unbound".to_string(), 99);
    assert_eq!(wallet.balance(&w), 0);
    assert_eq!(wallet.all_wallets().len(), 1);
}

#[test]
fn league_runs_every_agent_deterministically() {
    let sys = ScriptSystem {
        params: SystemParams { width: 10, height: 10, steps: 3 },
        script: vec![1, 2, 3],
    };
    let agents = vec![
        TableAgent { id: "hi".to_string(), rules: vec![(1, 30), (2, 15)], default_action: 5 },
        TableAgent { id: "lo".to_string(), rules: vec![], default_action: 1 },
    ];
    let cfg = LeagueConfig { matches_per_agent: 2 };
    let results = run_league(&sys, &agents, &cfg);
    assert_eq!(results.len(), 2);
    assert_eq!(results[0].agent_id, "hi");
    assert_eq!(results[0].matches, vec![50, 50]);
    assert_eq!(results[0].total_score, 100);
    assert_eq!(results[1].total_score, 6);
    let trace = run_match_with_trace(&sys, &agents[0]);
    assert_eq!(trace.score, 50);
}

#[test]
fn dispatch_validates_and_normalizes() {
    let run = dispatch(Cli {
        command: Command::Run {
            system: "snake".to_string(),
            matches: 3,
            commit: true,
            wallet: None,
        },
    });
    match run {
        Ok(Request::RunLeague { system, matches, commit, wallet }) => {
            assert_eq!(system, SystemKind::Snake);
            assert_eq!(matches, 3);
            assert!(commit);
            assert_eq!(wallet, "default");
        }
        other => panic!("unexpected request: {:?}", other),
    }

    let bad = dispatch(Cli {
        command: Command::Run {
            system: "checkers".to_string(),
            matches: 1,
            commit: false,
            wallet: None,
        },
    });
    assert!(matches!(bad, Err(ProtocolError::ConfigError)));

    let slash = dispatch(Cli {
        command: Command::Slash { agent: "alpha".to_string(), amount: 50 },
    });
    match slash {
        Ok(Request::SlashAgent { agent, amount }) => {
            assert_eq!(agent, "alpha");
            assert_eq!(amount, 50);
        }
        other => panic!("unexpected request: {:?}", other),
    }
}
