//! The matchmaking loop's decision rule and its terminal outcome.

use rollback_core::identity::PeerIdentity;
use rollback_core::matchmaking::{poll_rendezvous, rendezvous_outcome, ConnectError, RendezvousPoll};

fn id(v: u128) -> PeerIdentity {
    PeerIdentity { id: v }
}

#[test]
fn poll_waits_then_readies() {
    assert_eq!(poll_rendezvous(0, 2, 0, 5000), RendezvousPoll::Waiting);
    assert_eq!(poll_rendezvous(1, 2, 4999, 5000), RendezvousPoll::Waiting);
    assert_eq!(poll_rendezvous(2, 2, 100, 5000), RendezvousPoll::Ready);
    assert_eq!(poll_rendezvous(3, 2, 6000, 5000), RendezvousPoll::Ready);
    assert_eq!(poll_rendezvous(1, 2, 5000, 5000), RendezvousPoll::TimedOut);
}

#[test]
fn outcome_surfaces_the_peers_or_the_timeout() {
    let peers = vec![id(1), id(2)];
    assert_eq!(rendezvous_outcome(peers.clone(), 2, 100, 5000), Ok(peers));
    assert_eq!(
        rendezvous_outcome(vec![id(1)], 2, 5000, 5000),
        Err(ConnectError::PeerTimeout)
    );
}
