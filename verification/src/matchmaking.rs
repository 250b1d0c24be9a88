//! Consuming the rendezvous service's answers.
//!
//! The service itself — resolving a room identifier, speaking the signaling
//! protocol, waiting on the network — lives outside the library.  What
//! belongs to the core is the decision rule the waiting loop applies to each
//! report of discovered peers, and how the terminal outcome is surfaced: the
//! peer set once the required count is reached, or `PeerTimeout`, never an
//! internal retry.

use vstd::prelude::*;
use crate::identity::PeerIdentity;

verus! {

/// What the matchmaking loop does with one progress report.
#[derive(Clone, Copy, PartialEq, Eq, Structural, Debug)]
pub enum RendezvousPoll {
    /// Not enough peers yet and time remains: keep waiting.
    Waiting,
    /// The required peer count is reached: negotiate the session.
    Ready,
    /// Time ran out before enough peers joined: surface the failure.
    TimedOut,
}

/// Why matchmaking failed.
#[derive(Clone, Copy, PartialEq, Eq, Structural, Debug)]
pub enum ConnectError {
    /// The required peer count was not reached before the timeout.
    PeerTimeout,
}

/// The matchmaking loop's decision rule: ready exactly when the required
/// count is reached, timed out exactly when it is not and the clock has run
/// down, waiting otherwise.
pub fn poll_rendezvous(joined: usize, required: usize, elapsed_ms: u64, timeout_ms: u64) -> (r:
    RendezvousPoll)
    ensures
        r == RendezvousPoll::Ready <==> joined >= required,
        r == RendezvousPoll::TimedOut <==> joined < required && elapsed_ms >= timeout_ms,
        r == RendezvousPoll::Waiting <==> joined < required && elapsed_ms < timeout_ms,
{
    if joined >= required {
        RendezvousPoll::Ready
    } else if elapsed_ms >= timeout_ms {
        RendezvousPoll::TimedOut
    } else {
        RendezvousPoll::Waiting
    }
}

/// The terminal outcome of matchmaking, once the loop has stopped waiting:
/// the discovered peers if the required count was reached, `PeerTimeout`
/// otherwise.
pub fn rendezvous_outcome(
    peers: Vec<PeerIdentity>,
    required: usize,
    elapsed_ms: u64,
    timeout_ms: u64,
) -> (r: Result<Vec<PeerIdentity>, ConnectError>)
    requires
        peers@.len() >= required || elapsed_ms >= timeout_ms,
    ensures
        match r {
            Ok(found) => found@ == peers@ && peers@.len() >= required,
            Err(ConnectError::PeerTimeout) => peers@.len() < required && elapsed_ms >= timeout_ms,
        },
{
    if peers.len() >= required {
        Ok(peers)
    } else {
        Err(ConnectError::PeerTimeout)
    }
}

} // verus!
