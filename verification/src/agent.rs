//! The agent's decisions, from one answer of the gateway to the next.
//!
//! The agent dials out and is never dialled: no port forward on the router,
//! and nothing at home is reachable from the internet except through the
//! tunnel the agent itself opened.
//!
//! It keeps **no state**. On every start it generates a fresh WireGuard
//! keypair, tells the gateway the public half, and gets back everything it
//! needs. That is why running it is setting two environment variables and
//! starting the container — there is no enrollment step, no state file to
//! preserve, and no volume that must survive.

use crate::api::{AgentAssignment, RegisterResponse};
use crate::client::{ClientError, ClientErrorModel};
use vstd::prelude::*;

verus! {

/// How often the agent asks for its assignment, in seconds.
///
/// Polling rather than a websocket: it is a handful of bytes every few
/// seconds, it recovers from a gateway restart without reconnect logic, and
/// the agent is behind home NAT where long-lived connections die quietly.
pub const POLL_INTERVAL_SECONDS: u64 = 15;

/// First wait between attempts to reach a gateway that is not answering, in
/// seconds.
pub const FIRST_BACKOFF_SECONDS: u64 = 2;

/// Longest such wait, in seconds.
pub const MAX_BACKOFF_SECONDS: u64 = 60;

// ---- registering --------------------------------------------------------

/// The wait after a wait: twice as long, up to the longest.
pub open spec fn next_wait_of(wait: u64) -> u64 {
    if 2 * wait <= MAX_BACKOFF_SECONDS {
        (2 * wait) as u64
    } else {
        MAX_BACKOFF_SECONDS
    }
}

/// The wait after a wait.
pub fn next_wait(wait: u64) -> (r: u64)
    ensures
        r == next_wait_of(wait),
{
    if wait <= MAX_BACKOFF_SECONDS / 2 {
        2 * wait
    } else {
        MAX_BACKOFF_SECONDS
    }
}

/// The wait before attempt `n` is repeated.
pub open spec fn wait_before(n: nat) -> u64
    decreases n,
{
    if n == 0 {
        FIRST_BACKOFF_SECONDS
    } else {
        next_wait_of(wait_before((n - 1) as nat))
    }
}

/// Waits grow, and never past the longest.
pub proof fn law_waits_are_bounded(n: nat)
    ensures
        FIRST_BACKOFF_SECONDS <= wait_before(n) <= MAX_BACKOFF_SECONDS,
        wait_before(n) <= wait_before(n + 1),
    decreases n,
{
    if n > 0 {
        law_waits_are_bounded((n - 1) as nat);
    }
    assert(wait_before(n + 1) == next_wait_of(wait_before(n)));
}

/// What to do after an attempt to register.
#[derive(Debug)]
pub enum RegisterStep {
    /// The gateway knows this agent now.
    Registered(RegisterResponse),
    /// There is no point in trying again.
    GiveUp(String),
    /// Try again after `wait` seconds, and after `next` seconds if that fails
    /// too.
    Retry { wait: u64, next: u64, error: ClientError },
}

/// Keep trying to register, backing off.
///
/// The gateway and the agent are usually started by different people at
/// different times, and a container that exits because the other end was not
/// up yet is a support question nobody should have to ask. A wrong key is the
/// one thing worth giving up on immediately.
pub fn after_registering(wait: u64, outcome: Result<RegisterResponse, ClientError>) -> (r:
    RegisterStep)
    ensures
        match outcome {
            Ok(response) => r == RegisterStep::Registered(response),
            Err(e) => if e@ == ClientErrorModel::Unauthorized {
                r matches RegisterStep::GiveUp(message) && message@
                    == "the gateway does not recognise this node's key; copy PORTAL_KEY again from the control panel"@
            } else {
                r == (RegisterStep::Retry { wait, next: next_wait_of(wait), error: e })
            },
        },
{
    match outcome {
        Ok(response) => RegisterStep::Registered(response),
        Err(e) => match e {
            ClientError::Unauthorized => RegisterStep::GiveUp(
                "the gateway does not recognise this node's key; copy PORTAL_KEY again from the control panel".to_owned(),
            ),
            other => RegisterStep::Retry { wait, next: next_wait(wait), error: other },
        },
    }
}

// ---- polling ------------------------------------------------------------

/// What to do after asking for the assignment.
#[derive(Debug)]
pub enum PollStep {
    /// The assignment is in place already.
    Unchanged,
    /// Put this assignment in place.
    Apply(AgentAssignment),
    /// Stop every listener and end.
    Stop(String),
    /// Ask again on the next tick.
    Wait(ClientError),
}

/// Whether an assignment has still to be put in place, given the revision that
/// is.
pub open spec fn to_be_applied(in_place: Option<u64>, revision: u64) -> bool {
    in_place != Some(revision)
}

/// The revision in place after an attempt to apply one. After a failure there
/// is none: the attempt may have stopped listeners of the one before.
pub open spec fn in_place_after(revision: u64, applied: bool) -> Option<u64> {
    if applied {
        Some(revision)
    } else {
        None
    }
}

/// What to do with an answer, given the revision that is in place.
///
/// A key that is not recognised is nothing to retry: it is wrong or the node
/// was deleted, and spinning forever would hide that from whoever is watching
/// the logs.
pub fn after_polling(
    in_place: Option<u64>,
    outcome: Result<AgentAssignment, ClientError>,
) -> (r: PollStep)
    ensures
        match outcome {
            Ok(assignment) => if to_be_applied(in_place, assignment.revision) {
                r == PollStep::Apply(assignment)
            } else {
                r == PollStep::Unchanged
            },
            Err(e) => if e@ == ClientErrorModel::Unauthorized {
                r matches PollStep::Stop(message) && message@
                    == "the gateway does not recognise this node's key; check PORTAL_KEY"@
            } else {
                r == PollStep::Wait(e)
            },
        },
{
    match outcome {
        Ok(assignment) => {
            if let Some(revision) = in_place {
                if revision == assignment.revision {
                    return PollStep::Unchanged;
                }
            }
            PollStep::Apply(assignment)
        },
        Err(e) => match e {
            ClientError::Unauthorized => PollStep::Stop(
                "the gateway does not recognise this node's key; check PORTAL_KEY".to_owned(),
            ),
            other => PollStep::Wait(other),
        },
    }
}

/// The revision in place after an attempt to apply one. Where that failed it
/// is left unset, so the next tick retries rather than assuming that any
/// assignment is in place.
pub fn after_applying(revision: u64, applied: bool) -> (r: Option<u64>)
    ensures
        r == in_place_after(revision, applied),
{
    if applied {
        Some(revision)
    } else {
        None
    }
}

/// After a failure every answer is applied, whatever its revision: that of the
/// failed attempt, that of the assignment before it, or another.
pub proof fn law_failure_is_retried(failed: u64, next: u64)
    ensures
        to_be_applied(in_place_after(failed, false), next),
{
}

/// What was applied is not applied again until the revision changes.
pub proof fn law_success_is_not_repeated(applied: u64, next: u64)
    ensures
        to_be_applied(in_place_after(applied, true), next) <==> next != applied,
{
}

} // verus!
