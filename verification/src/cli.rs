//! The command-line surface as plain data, and its validation.
//!
//! Parsing argv into these types and performing the I/O around each command
//! happen outside this crate; `dispatch` is the checked boundary between the
//! two: it validates the parameters — an unknown environment name is a
//! `ConfigError`, caught before any execution — and normalizes them into a
//! typed request for exactly one core operation.

use vstd::prelude::*;

use crate::errors::ProtocolError;

verus! {

/// One parsed invocation of the tool.
#[derive(Debug)]
pub struct Cli {
    pub command: Command,
}

/// The commands the tool accepts.
#[derive(Debug)]
pub enum Command {
    Run { system: String, matches: usize, commit: bool, wallet: Option<String> },
    Verify { agent: String },
    Export { agent: String, out: String },
    VerifyRemote { commitment: String, agent_wasm: String },
    ProveFraud { commitment: String, agent_wasm: String, out: Option<String>, slash: bool },
    VerifyFraud { commitment: String, proof: String },
    Slash { agent: String, amount: u64 },
    Agent { action: AgentCommand },
    Balance { agent: Option<String>, wallet: Option<String> },
}

/// Agent-tooling subcommands.
#[derive(Debug)]
pub enum AgentCommand {
    Build { path: String },
}

/// The environment families a league can run.
#[derive(Clone, Copy, PartialEq, Eq, Structural, Debug)]
pub enum SystemKind {
    Snake,
    Chess,
    Rps,
}

/// One validated core operation, ready to perform.
#[derive(Debug)]
pub enum Request {
    RunLeague { system: SystemKind, matches: usize, commit: bool, wallet: String },
    VerifyLocal { agent: String },
    ExportCommitment { agent: String, out: String },
    VerifyRemote { commitment: String, agent_wasm: String },
    ProveFraud { commitment: String, agent_wasm: String, out: Option<String>, slash: bool },
    VerifyFraud { commitment: String, proof: String },
    SlashAgent { agent: String, amount: u64 },
    BuildAgent { path: String },
    ShowBalance { agent: Option<String>, wallet: Option<String> },
}

/// Validates and normalizes one invocation into the core operation it asks
/// for: an unknown environment name is rejected as a `ConfigError`, and a
/// league run without a wallet settles against the wallet named `default`.
pub fn dispatch(cli: Cli) -> (r: Result<Request, ProtocolError>)
    ensures
        match cli.command {
            Command::Run { system, matches, commit, wallet } => {
                if system@ == "snake"@ || system@ == "chess"@ || system@ == "rps"@ {
                    match r {
                        Ok(Request::RunLeague { system: k, matches: m, commit: c, wallet: w }) => {
                            &&& (system@ == "snake"@ ==> k == SystemKind::Snake)
                            &&& (system@ == "chess"@ ==> k == SystemKind::Chess)
                            &&& (system@ == "rps"@ ==> k == SystemKind::Rps)
                            &&& m == matches
                            &&& c == commit
                            &&& w@ == (match wallet {
                                Some(x) => x@,
                                None => "default"@,
                            })
                        },
                        _ => false,
                    }
                } else {
                    r == Err::<Request, ProtocolError>(ProtocolError::ConfigError)
                }
            },
            Command::Verify { agent } => match r {
                Ok(Request::VerifyLocal { agent: a }) => a@ == agent@,
                _ => false,
            },
            Command::Export { agent, out } => match r {
                Ok(Request::ExportCommitment { agent: a, out: o }) => a@ == agent@ && o@ == out@,
                _ => false,
            },
            Command::VerifyRemote { commitment, agent_wasm } => match r {
                Ok(Request::VerifyRemote { commitment: c, agent_wasm: w }) => c@ == commitment@
                    && w@ == agent_wasm@,
                _ => false,
            },
            Command::ProveFraud { commitment, agent_wasm, out, slash } => match r {
                Ok(
                    Request::ProveFraud { commitment: c, agent_wasm: w, out: o, slash: sl },
                ) => c@ == commitment@ && w@ == agent_wasm@ && o == out && sl == slash,
                _ => false,
            },
            Command::VerifyFraud { commitment, proof } => match r {
                Ok(Request::VerifyFraud { commitment: c, proof: p }) => c@ == commitment@ && p@
                    == proof@,
                _ => false,
            },
            Command::Slash { agent, amount } => match r {
                Ok(Request::SlashAgent { agent: a, amount: m }) => a@ == agent@ && m == amount,
                _ => false,
            },
            Command::Agent { action } => match action {
                AgentCommand::Build { path } => match r {
                    Ok(Request::BuildAgent { path: p }) => p@ == path@,
                    _ => false,
                },
            },
            Command::Balance { agent, wallet } => match r {
                Ok(Request::ShowBalance { agent: a, wallet: w }) => a == agent && w == wallet,
                _ => false,
            },
        },
{
    proof {
        reveal_strlit("snake");
        reveal_strlit("chess");
        reveal_strlit("rps");
        assert("snake"@ != "chess"@) by {
            assert("snake"@[0] != "chess"@[0]);
        }
        assert("snake"@ != "rps"@) by {
            assert("snake"@.len() != "rps"@.len());
        }
        assert("chess"@ != "rps"@) by {
            assert("chess"@.len() != "rps"@.len());
        }
    }
    match cli.command {
        Command::Run { system, matches, commit, wallet } => {
            let kind = if system == String::from_str("snake") {
                SystemKind::Snake
            } else if system == String::from_str("chess") {
                SystemKind::Chess
            } else if system == String::from_str("rps") {
                SystemKind::Rps
            } else {
                return Err(ProtocolError::ConfigError);
            };
            let w = match wallet {
                Some(x) => x,
                None => String::from_str("default"),
            };
            Ok(Request::RunLeague { system: kind, matches, commit, wallet: w })
        },
        Command::Verify { agent } => Ok(Request::VerifyLocal { agent }),
        Command::Export { agent, out } => Ok(Request::ExportCommitment { agent, out }),
        Command::VerifyRemote { commitment, agent_wasm } => Ok(
            Request::VerifyRemote { commitment, agent_wasm },
        ),
        Command::ProveFraud { commitment, agent_wasm, out, slash } => Ok(
            Request::ProveFraud { commitment, agent_wasm, out, slash },
        ),
        Command::VerifyFraud { commitment, proof } => Ok(
            Request::VerifyFraud { commitment, proof },
        ),
        Command::Slash { agent, amount } => Ok(Request::SlashAgent { agent, amount }),
        Command::Agent { action } => match action {
            AgentCommand::Build { path } => Ok(Request::BuildAgent { path }),
        },
        Command::Balance { agent, wallet } => Ok(Request::ShowBalance { agent, wallet }),
    }
}

} // verus!
