//! The rollback engine end to end: prediction, rollback, convergence,
//! frontier monotonicity, and the failure paths.

use rollback_core::engine::{ArrivalOutcome, Phase, Session, TickError};
use rollback_core::identity::PeerIdentity;
use rollback_core::input::{INPUT_FIRE, INPUT_LEFT, INPUT_RIGHT, INPUT_UP};
use rollback_core::negotiate::NegotiateError;
use rollback_core::step::replay;
use rollback_core::wire::reconstruct_tick;
use rollback_core::world::{ArenaStep, ArenaWorld};

fn id(v: u128) -> PeerIdentity {
    PeerIdentity { id: v }
}

fn pair(delay: u64, depth: usize) -> (Session<ArenaWorld, ArenaStep>, Session<ArenaWorld, ArenaStep>) {
    let ids = vec![id(1), id(2)];
    let a = Session::negotiate(&ids, id(1), delay, depth, ArenaStep, ArenaWorld::new()).unwrap();
    let b = Session::negotiate(&ids, id(2), delay, depth, ArenaStep, ArenaWorld::new()).unwrap();
    assert_eq!(a.local_handle(), 0);
    assert_eq!(b.local_handle(), 1);
    (a, b)
}

#[test]
fn negotiate_checks_its_parameters() {
    let ids = vec![id(1), id(2)];
    // the rollback depth must exceed the input delay
    let r = Session::negotiate(&ids, id(1), 2, 2, ArenaStep, ArenaWorld::new());
    assert_eq!(r.err().unwrap(), NegotiateError::InvalidConfig);
    let r = Session::negotiate(&ids, id(1), 0, 0, ArenaStep, ArenaWorld::new());
    assert_eq!(r.err().unwrap(), NegotiateError::InvalidConfig);
    // the identity set must match the simulation's player count
    let three = vec![id(1), id(2), id(3)];
    let r = Session::negotiate(&three, id(1), 1, 8, ArenaStep, ArenaWorld::new());
    assert_eq!(r.err().unwrap(), NegotiateError::InvalidConfig);
    // identity errors pass through
    let dup = vec![id(1), id(1)];
    let r = Session::negotiate(&dup, id(1), 1, 8, ArenaStep, ArenaWorld::new());
    assert_eq!(r.err().unwrap(), NegotiateError::DuplicateIdentity);
}

#[test]
fn fresh_session_state() {
    let (a, _) = pair(2, 8);
    assert_eq!(a.phase(), Phase::Synchronizing);
    assert_eq!(a.current_tick(), 0);
    assert_eq!(a.confirmed_ticks(), 0);
    assert_eq!(a.num_players(), 2);
    assert_eq!(a.input_delay(), 2);
    assert_eq!(a.rollback_depth(), 8);
    assert_eq!(a.seat(0), id(1));
    assert_eq!(a.seat(1), id(2));
    assert_eq!(*a.world(), ArenaWorld::new());
    assert_eq!(a.pending_rollback(), None);
    // with no delay the session starts running at once
    let (c, _) = pair(0, 4);
    assert_eq!(c.phase(), Phase::Running);
}

/// Sampled input consumed `delay` ticks later, the first `delay` ticks fixed
/// to the default frame.
fn consumed(bits_at: impl Fn(u64) -> u8, delay: u64, t: u64) -> u8 {
    if t < delay {
        0
    } else {
        bits_at(t - delay)
    }
}

#[test]
fn lagged_peer_converges_on_the_zero_latency_run() {
    // A's frames reach B three ticks late; B predicts, mispredicts once
    // (A turns at tick 5), rolls back, and still ends bit-identical to the
    // zero-latency replay of the corrected schedule.
    let delay = 1u64;
    let depth = 8usize;
    let rounds = 12u64;
    let a_bits = |t: u64| if t == 5 { INPUT_UP } else { INPUT_RIGHT };
    let b_bits = |t: u64| if t == 7 { INPUT_FIRE } else { INPUT_LEFT };
    let (mut a, mut b) = pair(delay, depth);
    let mut lagged: Vec<rollback_core::wire::WireFrame> = Vec::new();
    let mut saw_mismatch = false;
    let mut last_conf_a = 0u64;
    let mut last_conf_b = 0u64;
    for t in 0..rounds {
        let fa = a.tick(a_bits(t)).unwrap();
        let fb = b.tick(b_bits(t)).unwrap();
        // B's frame reaches A immediately
        let tb = reconstruct_tick(a.current_tick(), fb.tick);
        a.apply_remote_frame(fb.handle as usize, tb, fb.bits);
        // A's frames queue up for three ticks
        lagged.push(fa);
        if lagged.len() > 3 {
            let f = lagged.remove(0);
            let ta = reconstruct_tick(b.current_tick(), f.tick);
            let outcome = b.apply_remote_frame(f.handle as usize, ta, f.bits);
            if let ArrivalOutcome::Applied { mismatch: true } = outcome {
                saw_mismatch = true;
            }
        }
        // the confirmed frontier never decreases
        assert!(a.confirmed_ticks() >= last_conf_a);
        assert!(b.confirmed_ticks() >= last_conf_b);
        last_conf_a = a.confirmed_ticks();
        last_conf_b = b.confirmed_ticks();
        // the snapshot ring never holds more than its capacity
        assert!(a.live_snapshots() <= depth);
        assert!(b.live_snapshots() <= depth);
    }
    // the turn at tick 5 contradicted B's prediction
    assert!(saw_mismatch);
    // deliver the stragglers and let B reconcile in its next tick
    for f in lagged.drain(..) {
        let ta = reconstruct_tick(b.current_tick(), f.tick);
        b.apply_remote_frame(f.handle as usize, ta, f.bits);
    }
    let _ = b.tick(b_bits(rounds)).unwrap();
    assert_eq!(b.current_tick(), rounds + 1);
    // the zero-latency reference runs
    let mut rows_b: Vec<Vec<u8>> = Vec::new();
    for t in 0..=rounds {
        rows_b.push(vec![consumed(a_bits, delay, t), consumed(b_bits, delay, t)]);
    }
    let reference_b = replay(&ArenaStep, ArenaWorld::new(), &rows_b);
    assert_eq!(*b.world(), reference_b);
    let rows_a: Vec<Vec<u8>> = rows_b[..rounds as usize].to_vec();
    let reference_a = replay(&ArenaStep, ArenaWorld::new(), &rows_a);
    assert_eq!(*a.world(), reference_a);
    // both sides long since left synchronization
    assert_eq!(a.phase(), Phase::Running);
    assert_eq!(b.phase(), Phase::Running);
    assert!(b.confirmed_ticks() >= rounds - 3);
    assert!(b.pending_rollback().is_none());
}

#[test]
fn late_duplicate_and_horizon_arrivals() {
    let (_, mut b) = pair(1, 4);
    // simulate a few ticks without hearing from the peer
    for _ in 0..3 {
        b.tick(INPUT_LEFT).unwrap();
    }
    // the prefilled opening tick is already confirmed for everyone
    assert_eq!(b.confirmed_ticks(), 1);
    assert_eq!(b.apply_remote_frame(0, 0, INPUT_RIGHT), ArrivalOutcome::Late);
    // a frame at or past current + depth cannot be buffered
    let horizon = b.current_tick() + b.rollback_depth() as u64;
    assert_eq!(b.apply_remote_frame(0, horizon, INPUT_RIGHT), ArrivalOutcome::TooFarAhead);
    // first arrival is applied, the repeat is dropped after an equality check
    assert_eq!(
        b.apply_remote_frame(0, b.current_tick(), INPUT_RIGHT),
        ArrivalOutcome::Applied { mismatch: false }
    );
    assert_eq!(
        b.apply_remote_frame(0, b.current_tick(), INPUT_RIGHT),
        ArrivalOutcome::Duplicate { agrees: true }
    );
    assert_eq!(
        b.apply_remote_frame(0, b.current_tick(), INPUT_UP),
        ArrivalOutcome::Duplicate { agrees: false }
    );
}

#[test]
fn a_correction_beyond_the_ring_is_fatal() {
    let (_, mut b) = pair(1, 2);
    // run well ahead of the peer: predictions all the way
    for _ in 0..6 {
        b.tick(INPUT_LEFT).unwrap();
    }
    assert_eq!(b.current_tick(), 6);
    // the peer's real input for tick 1 contradicts the prediction, but the
    // snapshot from before tick 1 is long evicted
    let outcome = b.apply_remote_frame(0, 1, INPUT_RIGHT);
    assert_eq!(outcome, ArrivalOutcome::Applied { mismatch: true });
    assert_eq!(b.pending_rollback(), Some(1));
    let err = b.tick(INPUT_LEFT).unwrap_err();
    assert_eq!(err, TickError::SnapshotEvicted);
    assert_eq!(b.phase(), Phase::Terminated);
}

#[test]
fn termination_is_idempotent() {
    let (mut a, _) = pair(1, 4);
    a.tick(0).unwrap();
    a.terminate();
    assert_eq!(a.phase(), Phase::Terminated);
    let cur = a.current_tick();
    a.terminate();
    assert_eq!(a.phase(), Phase::Terminated);
    assert_eq!(a.current_tick(), cur);
}

#[test]
fn synchronizing_until_the_delay_window_confirms() {
    let (mut a, mut b) = pair(2, 8);
    assert_eq!(a.phase(), Phase::Synchronizing);
    let mut phases = Vec::new();
    for t in 0..4 {
        let fa = a.tick(INPUT_RIGHT).unwrap();
        let fb = b.tick(INPUT_LEFT).unwrap();
        let tb = reconstruct_tick(a.current_tick(), fb.tick);
        a.apply_remote_frame(fb.handle as usize, tb, fb.bits);
        let ta = reconstruct_tick(b.current_tick(), fa.tick);
        b.apply_remote_frame(fa.handle as usize, ta, fa.bits);
        phases.push((t, a.phase()));
    }
    // the opening delay window confirms within the first ticks, after which
    // the session runs
    assert_eq!(a.phase(), Phase::Running);
    assert_eq!(b.phase(), Phase::Running);
    assert!(phases.iter().any(|(_, p)| *p == Phase::Synchronizing));
}
