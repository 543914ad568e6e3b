//! What the agent remembers between runs.
//!
//! The state file holds the agent's WireGuard private key and the API key it
//! was issued at enrollment, so it is written owner-only and nothing ever logs
//! its contents. Losing it means re-enrolling, which is why it is a plain JSON
//! file in a predictable place rather than something clever.

use crate::api::TunnelConfig;
use crate::config;
use crate::ids::Uuid;
use vstd::prelude::*;

verus! {

#[derive(Debug, Clone)]
pub struct AgentState {
    /// Base URL of the gateway, e.g. `https://portal.example.com`.
    pub gateway_url: String,
    pub agent_id: Uuid,
    /// Bearer credential for the gateway API.
    pub agent_key: String,
    /// The agent's WireGuard private key. Generated locally at enrollment and
    /// never sent anywhere — the gateway only ever sees the public half.
    pub private_key: String,
    pub tunnel: TunnelConfig,
}

#[derive(Debug, Clone)]
pub enum StateError {
    NotEnrolled(String),
    Io { path: String, source: String },
    Parse { path: String, source: String },
}

/// What a [`StateError`] says.
pub enum StateErrorModel {
    NotEnrolled(Seq<char>),
    Io { path: Seq<char>, source: Seq<char> },
    Parse { path: Seq<char>, source: Seq<char> },
}

impl View for StateError {
    type V = StateErrorModel;

    open spec fn view(&self) -> StateErrorModel {
        match *self {
            StateError::NotEnrolled(path) => StateErrorModel::NotEnrolled(path@),
            StateError::Io { path, source } => StateErrorModel::Io {
                path: path@,
                source: source@,
            },
            StateError::Parse { path, source } => StateErrorModel::Parse {
                path: path@,
                source: source@,
            },
        }
    }
}

/// How the error reads.
pub open spec fn state_error_text(e: StateErrorModel) -> Seq<char> {
    match e {
        StateErrorModel::NotEnrolled(path) => "no agent state at `"@ + path
            + "`; run `portal-agent enroll` first"@,
        StateErrorModel::Io { path, source } => "failed to read `"@ + path + "`: "@ + source,
        StateErrorModel::Parse { path, source } => "state file `"@ + path + "` is not valid: "@
            + source,
    }
}

impl StateError {
    /// How the error reads.
    pub fn to_string(&self) -> (r: String)
        ensures
            r@ == state_error_text(self@),
    {
        match self {
            StateError::NotEnrolled(path) => {
                let mut out = "no agent state at `".to_owned();
                out.append(path.as_str());
                out.append("`; run `portal-agent enroll` first");
                out
            },
            StateError::Io { path, source } => {
                let mut out = "failed to read `".to_owned();
                out.append(path.as_str());
                out.append("`: ");
                out.append(source.as_str());
                out
            },
            StateError::Parse { path, source } => {
                let mut out = "state file `".to_owned();
                out.append(path.as_str());
                out.append("` is not valid: ");
                out.append(source.as_str());
                out
            },
        }
    }
}

/// What became of reading the state file.
#[derive(Debug)]
pub enum FileRead {
    Missing,
    Failed(String),
    Contents(String),
}

/// The contents of the state file, or what to say of it.
pub fn contents_of(path: &str, read: FileRead) -> (r: Result<String, StateError>)
    ensures
        match read {
            FileRead::Missing => r is Err && r->Err_0@ == StateErrorModel::NotEnrolled(path@),
            FileRead::Failed(source) => r is Err && r->Err_0@ == (StateErrorModel::Io {
                path: path@,
                source: source@,
            }),
            FileRead::Contents(raw) => r is Ok && r->Ok_0@ == raw@,
        },
{
    match read {
        FileRead::Missing => Err(StateError::NotEnrolled(path.to_owned())),
        FileRead::Failed(source) => Err(StateError::Io { path: path.to_owned(), source }),
        FileRead::Contents(raw) => Ok(raw),
    }
}

/// Where state lives when the operator does not say, given
/// `PORTAL_AGENT_DIR`.
///
/// `/var/lib/portal-agent` on Linux, which is where a service's data belongs
/// and which a Docker volume can be mounted over.
pub fn default_state_path(agent_dir: Option<&str>) -> (r: String)
    ensures
        r@ == match agent_dir {
            Some(dir) => config::joined(dir@, "agent.json"@),
            None => "/var/lib/portal-agent/agent.json"@,
        },
{
    match agent_dir {
        Some(dir) => config::join_path(dir, "agent.json"),
        None => "/var/lib/portal-agent/agent.json".to_owned(),
    }
}

} // verus!
