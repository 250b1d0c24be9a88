//! Session negotiation: from a discovered peer set to stable player handles.
//!
//! Every participant runs this independently on the identity set the
//! rendezvous service reported.  Handles must therefore be a pure function of
//! the unordered identity set alone — any dependence on arrival or iteration
//! order would hand different participants different mappings.  The rule here
//! is the simplest such function: sort all identities (the local one
//! included) by their total order and let the handle be the sorted position.

use vstd::prelude::*;
use vstd::seq_lib::group_to_multiset_ensures;
use crate::identity::{
    PeerIdentity, has_duplicate, sort_identities, sorted_by_id, strictly_sorted_by_id,
};

verus! {

/// The largest session size: handles must fit the one-byte wire field.
pub const MAX_PLAYERS: usize = 256;

/// Why a peer set admits no handle assignment.
#[derive(Clone, Copy, PartialEq, Eq, Structural, Debug)]
pub enum NegotiateError {
    /// Two discovered identities are equal; positions would be ambiguous.
    DuplicateIdentity,
    /// The local identity is not part of the discovered set.
    LocalMissing,
    /// More identities than handles can address on the wire.
    TooManyPlayers,
    /// The session parameters are unusable: the rollback depth must exceed
    /// the input delay.
    InvalidConfig,
}

/// The outcome of negotiation: who sits at which handle, and where the local
/// participant sits.
#[derive(PartialEq, Eq, Debug)]
pub struct HandleAssignment {
    /// Identity seated at each handle, ascending by identifier.
    pub by_handle: Vec<PeerIdentity>,
    /// The handle of the local identity.
    pub local_handle: usize,
}

/// Assign handles from the discovered identity set (which includes the local
/// identity).  Succeeds exactly on duplicate-free sets that contain `local`
/// and fit the wire's handle range; the seating is then the identities in
/// ascending order, so it depends on the set alone.
#[verifier::loop_isolation(false)]
pub fn assign_handles(ids: &Vec<PeerIdentity>, local: PeerIdentity) -> (r: Result<
    HandleAssignment,
    NegotiateError,
>)
    ensures
        match r {
            Ok(a) => {
                &&& !has_duplicate(ids@)
                &&& ids@.contains(local)
                &&& ids@.len() <= MAX_PLAYERS
                &&& a.by_handle@.len() == ids@.len()
                &&& strictly_sorted_by_id(a.by_handle@)
                &&& a.by_handle@.to_multiset() == ids@.to_multiset()
                &&& a.local_handle < ids@.len()
                &&& a.by_handle@[a.local_handle as int] == local
            },
            Err(NegotiateError::DuplicateIdentity) => has_duplicate(ids@),
            Err(NegotiateError::LocalMissing) => !has_duplicate(ids@) && !ids@.contains(local),
            Err(NegotiateError::TooManyPlayers) => {
                &&& !has_duplicate(ids@)
                &&& ids@.contains(local)
                &&& ids@.len() > MAX_PLAYERS
            },
            Err(NegotiateError::InvalidConfig) => false,
        },
{
    broadcast use group_to_multiset_ensures;

    let n = ids.len();
    // reject ambiguous seating
    let mut i: usize = 0;
    while i < n
        invariant
            i <= n,
            n == ids@.len(),
            forall|p: int, q: int| 0 <= p < q < ids@.len() && p < i ==> ids@[p].id != ids@[q].id,
        decreases n - i,
    {
        let mut j: usize = i + 1;
        while j < n
            invariant
                i < j <= n,
                n == ids@.len(),
                forall|q: int| i < q < j ==> ids@[i as int].id != ids@[q].id,
            decreases n - j,
        {
            if ids[i].id == ids[j].id {
                proof {
                    assert(0 <= i < j < ids@.len() && ids@[i as int].id == ids@[j as int].id);
                }
                return Err(NegotiateError::DuplicateIdentity);
            }
            j = j + 1;
        }
        i = i + 1;
    }
    // the local participant must be seated too
    let mut found: bool = false;
    let mut k: usize = 0;
    while k < n
        invariant
            k <= n,
            n == ids@.len(),
            found == exists|p: int| 0 <= p < k && ids@[p] == local,
        decreases n - k,
    {
        if ids[k].id == local.id {
            proof {
                assert(ids@[k as int] == local);
            }
            found = true;
        }
        k = k + 1;
    }
    if !found {
        return Err(NegotiateError::LocalMissing);
    }
    if n > MAX_PLAYERS {
        return Err(NegotiateError::TooManyPlayers);
    }
    let by_handle = sort_identities(ids);
    proof {
        // a duplicate-free multiset sorts into a strictly ascending sequence
        ids@.lemma_multiset_has_no_duplicates();
        by_handle@.lemma_multiset_has_no_duplicates_conv();
        assert(strictly_sorted_by_id(by_handle@)) by {
            assert forall|p: int, q: int| 0 <= p < q < by_handle@.len() implies by_handle@[p].id
                < by_handle@[q].id by {
                assert(by_handle@[p].id <= by_handle@[q].id);
                assert(by_handle@[p] != by_handle@[q]);
            }
        }
        assert(by_handle@.to_multiset().count(local) > 0);
        assert(by_handle@.contains(local));
    }
    // the local handle is the local identity's sorted position
    let mut local_handle: usize = 0;
    let m = by_handle.len();
    while local_handle < m
        invariant
            local_handle <= m,
            m == by_handle@.len(),
            forall|p: int| 0 <= p < local_handle ==> by_handle@[p] != local,
        decreases m - local_handle,
    {
        if by_handle[local_handle].id == local.id {
            proof {
                assert(by_handle@[local_handle as int] == local);
            }
            return Ok(HandleAssignment { by_handle, local_handle });
        }
        local_handle = local_handle + 1;
    }
    proof {
        // unreachable: the scan cannot miss a seated identity
        let w = choose|p: int| 0 <= p < by_handle@.len() && by_handle@[p] == local;
        assert(false);
    }
    Err(NegotiateError::LocalMissing)
}

} // verus!
