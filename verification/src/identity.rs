//! Peer identities and their total order.
//!
//! A peer identity is an opaque 128-bit value handed over by the rendezvous
//! and transport layer (large enough for a UUID-shaped address).  The core
//! never interprets it; it only compares identities, because the one thing
//! the session needs from them is a total order that every participant can
//! compute on its own.

use vstd::prelude::*;
use vstd::seq_lib::group_to_multiset_ensures;

verus! {

/// An opaque, globally unique peer identifier.  Only its total order is ever
/// used; the value itself is never interpreted.
#[derive(Clone, Copy, PartialEq, Eq, Structural, Hash, Debug)]
pub struct PeerIdentity {
    /// The raw identifier bits, e.g. a UUID.
    pub id: u128,
}

/// Non-strictly sorted by identifier.
pub open spec fn sorted_by_id(s: Seq<PeerIdentity>) -> bool {
    forall|i: int, j: int| 0 <= i < j < s.len() ==> s[i].id <= s[j].id
}

/// Strictly sorted by identifier: sorted and free of duplicates.
pub open spec fn strictly_sorted_by_id(s: Seq<PeerIdentity>) -> bool {
    forall|i: int, j: int| 0 <= i < j < s.len() ==> s[i].id < s[j].id
}

/// Whether two positions hold the same identifier.
pub open spec fn has_duplicate(s: Seq<PeerIdentity>) -> bool {
    exists|i: int, j: int| 0 <= i < j < s.len() && s[i].id == s[j].id
}

/// Sort identities ascending by identifier.  The result holds exactly the
/// given identities, order aside.
pub fn sort_identities(ids: &Vec<PeerIdentity>) -> (out: Vec<PeerIdentity>)
    ensures
        sorted_by_id(out@),
        out@.to_multiset() == ids@.to_multiset(),
        out@.len() == ids@.len(),
{
    broadcast use group_to_multiset_ensures, vstd::seq_lib::to_multiset_insert;

    let mut out: Vec<PeerIdentity> = Vec::new();
    let n = ids.len();
    let mut i: usize = 0;
    while i < n
        invariant
            i <= n,
            n == ids@.len(),
            out@.len() == i,
            sorted_by_id(out@),
            out@.to_multiset() == ids@.take(i as int).to_multiset(),
        decreases n - i,
    {
        let x = ids[i];
        let mut pos: usize = 0;
        while pos < out.len() && out[pos].id <= x.id
            invariant
                pos <= out@.len(),
                forall|k: int| 0 <= k < pos ==> out@[k].id <= x.id,
            decreases out@.len() - pos,
        {
            pos = pos + 1;
        }
        let ghost prev = out@;
        out.insert(pos, x);
        proof {
            assert(out@ == prev.insert(pos as int, x));
            assert(sorted_by_id(out@)) by {
                assert forall|a: int, b: int| 0 <= a < b < out@.len() implies out@[a].id
                    <= out@[b].id by {
                    if a < pos && b == pos {
                        assert(out@[a] == prev[a]);
                    } else if a == pos && b > pos {
                        assert(out@[b] == prev[b - 1]);
                        // prev[pos] exceeds x, and prev stays sorted past pos
                        assert(prev[pos as int].id > x.id || pos as int == b - 1
                            || prev[pos as int].id <= prev[b - 1].id);
                    }
                }
            }
            vstd::seq_lib::to_multiset_insert(prev, pos as int, x);
            assert(out@.to_multiset() == prev.to_multiset().insert(x));
            assert(ids@.take(i + 1) =~= ids@.take(i as int).push(x));
            vstd::seq_lib::to_multiset_build(ids@.take(i as int), x);
            assert(out@.to_multiset() == ids@.take(i + 1).to_multiset());
        }
        i = i + 1;
    }
    proof {
        assert(ids@.take(n as int) =~= ids@);
    }
    out
}

/// Handle agreement: a strict order leaves no freedom, so two participants
/// that each sort the same unordered identity set arrive at the same
/// sequence, and with it at the same handle-to-identity mapping, without any
/// central authority.
pub proof fn lemma_sorted_agreement(a: Seq<PeerIdentity>, b: Seq<PeerIdentity>)
    requires
        strictly_sorted_by_id(a),
        strictly_sorted_by_id(b),
        a.to_multiset() == b.to_multiset(),
    ensures
        a == b,
    decreases a.len(),
{
    broadcast use group_to_multiset_ensures;

    if a.len() == 0 {
        assert(b.to_multiset().len() == 0);
        assert(a =~= b);
    } else {
        let x = a.last();
        let y = b.last();
        assert(a[a.len() - 1] == x);
        assert(a.contains(x));
        assert(b.to_multiset().count(x) > 0);
        assert(b.contains(x));
        assert(b[b.len() - 1] == y);
        assert(b.contains(y));
        assert(a.to_multiset().count(y) > 0);
        assert(a.contains(y));
        // each last element is the maximum, so the two maxima agree
        let jx = choose|j: int| 0 <= j < b.len() && b[j] == x;
        assert(x.id <= y.id);
        let jy = choose|j: int| 0 <= j < a.len() && a[j] == y;
        assert(y.id <= x.id);
        assert(x == y);
        let a1 = a.drop_last();
        let b1 = b.drop_last();
        assert(a.remove(a.len() - 1) =~= a1);
        assert(b.remove(b.len() - 1) =~= b1);
        assert(a1.to_multiset() == a.to_multiset().remove(x));
        assert(b1.to_multiset() == b.to_multiset().remove(x));
        lemma_sorted_agreement(a1, b1);
        assert(a =~= a1.push(x));
        assert(b =~= b1.push(x));
    }
}

} // verus!
