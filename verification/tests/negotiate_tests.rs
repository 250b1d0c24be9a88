//! Handle negotiation: agreement, ordering, and its refusals.

use rollback_core::identity::{sort_identities, PeerIdentity};
use rollback_core::negotiate::{assign_handles, NegotiateError};

fn id(v: u128) -> PeerIdentity {
    PeerIdentity { id: v }
}

#[test]
fn sort_orders_by_identifier() {
    let ids = vec![id(30), id(10), id(20)];
    let sorted = sort_identities(&ids);
    assert_eq!(sorted, vec![id(10), id(20), id(30)]);
}

#[test]
fn handles_agree_across_participants() {
    // the same unordered identity set, discovered in different orders by
    // participants with different local identities, seats everyone
    // identically
    let seen_by_a = vec![id(7), id(99), id(3)];
    let seen_by_b = vec![id(99), id(3), id(7)];
    let seen_by_c = vec![id(3), id(7), id(99)];
    let a = assign_handles(&seen_by_a, id(3)).unwrap();
    let b = assign_handles(&seen_by_b, id(7)).unwrap();
    let c = assign_handles(&seen_by_c, id(99)).unwrap();
    let seating = vec![id(3), id(7), id(99)];
    assert_eq!(a.by_handle, seating);
    assert_eq!(b.by_handle, seating);
    assert_eq!(c.by_handle, seating);
    assert_eq!(a.local_handle, 0);
    assert_eq!(b.local_handle, 1);
    assert_eq!(c.local_handle, 2);
}

#[test]
fn duplicate_identity_is_refused() {
    let ids = vec![id(5), id(6), id(5)];
    assert_eq!(assign_handles(&ids, id(6)).unwrap_err(), NegotiateError::DuplicateIdentity);
}

#[test]
fn local_must_be_seated() {
    let ids = vec![id(5), id(6)];
    assert_eq!(assign_handles(&ids, id(7)).unwrap_err(), NegotiateError::LocalMissing);
}

#[test]
fn oversized_session_is_refused() {
    let mut ids = Vec::new();
    for v in 0..257u128 {
        ids.push(id(v));
    }
    assert_eq!(assign_handles(&ids, id(0)).unwrap_err(), NegotiateError::TooManyPlayers);
}
