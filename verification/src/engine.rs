//! The rollback engine.
//!
//! A `Session` owns the world state, a fixed ring of snapshots, and one
//! input lane per player handle.  Each tick it records the local input,
//! synthesizes predictions for remote inputs that have not arrived, advances
//! the deterministic step, and hands back the wire frame to broadcast.  When
//! a remote frame arrives and contradicts a prediction that was already
//! simulated, the engine marks the earliest contradicted tick; the next tick
//! restores the snapshot from just before it and resimulates forward with
//! the corrected inputs.
//!
//! The governing ghost state is a pair of per-tick input schedules: `hist`,
//! the best currently known input vector for every simulated tick, and
//! `used`, the vector actually fed to the step when the tick was last
//! simulated.  The central invariant keeps the world equal to the
//! deterministic run of `used`, keeps `used` equal to `hist` strictly below
//! the pending rollback point, and keeps every live snapshot equal to the
//! run of the `used` prefix before its tick.  Resolving a rollback rewrites
//! `used` to `hist`, which is exactly the state a zero-latency run over the
//! corrected inputs would have reached.

use vstd::prelude::*;
use vstd::arithmetic::div_mod::lemma_mod_multiples_vanish;
use crate::identity::{PeerIdentity, strictly_sorted_by_id, has_duplicate};
use crate::input::InputRecord;
use crate::negotiate::{assign_handles, NegotiateError, MAX_PLAYERS};
use crate::step::{SimulationStep, run_steps, lemma_run_steps_push};
use crate::wire::{WireFrame, TICK_SPAN, lemma_congruent_close_equal};

verus! {

/// The input bits every lane predicts before its player has confirmed
/// anything: no buttons held.
pub const DEFAULT_FRAME: u8 = 0;

/// Where the session stands in its lifecycle.
#[derive(Clone, Copy, PartialEq, Eq, Structural, Debug)]
pub enum Phase {
    /// Handles are assigned; the opening `InputDelay` ticks are not yet
    /// mutually confirmed, so consumers should not present state yet.
    Synchronizing,
    /// Steady-state tick loop.
    Running,
    /// Stopped for good, by request or by an unrecoverable fault.
    Terminated,
}

/// What became of one remote frame handed to the session.
#[derive(Clone, Copy, PartialEq, Eq, Structural, Debug)]
pub enum ArrivalOutcome {
    /// Recorded as confirmed input; `mismatch` says whether it contradicted
    /// a prediction that was already simulated, scheduling a rollback.
    Applied { mismatch: bool },
    /// The tick is already fully confirmed for every player; dropped.
    Late,
    /// The tick already has a confirmed frame; dropped after an equality
    /// check, whose verdict `agrees` reports.
    Duplicate { agrees: bool },
    /// The tick lies at or beyond the prediction horizon
    /// (`current + rollback_depth`), outside the bounded record window;
    /// dropped.  Peers that drift this far apart cannot reconcile within the
    /// snapshot ring anyway.
    TooFarAhead,
}

/// The one per-tick failure: a rollback target fell out of the snapshot
/// ring, so the session cannot resimulate and is terminated as desynced.
#[derive(Clone, Copy, PartialEq, Eq, Structural, Debug)]
pub enum TickError {
    /// The snapshot needed to rewind was already overwritten.
    SnapshotEvicted,
}

/// How a contradicted tick combines with an already pending rollback: the
/// engine always rewinds to the earliest contradicted tick.
pub open spec fn schedule_rollback(pending: Option<u64>, t: u64) -> Option<u64> {
    match pending {
        None => Some(t),
        Some(t0) => Some(if t < t0 { t } else { t0 }),
    }
}

/// The input vector a session's next tick will consume: every handle's
/// recorded or predicted frame, except that with no input delay the local
/// entry is the frame sampled in the tick call itself.
pub open spec fn tick_input_vector<W, S: SimulationStep<W>>(s: Session<W, S>, sampled: u8) -> Seq<
    u8,
> {
    Seq::new(
        s.players_spec() as nat,
        |h: int|
            if h == s.local_handle_spec() && s.input_delay_spec() == 0 {
                sampled
            } else {
                s.planned_frame_spec(h, s.current_tick_spec() as int)
            },
    )
}

/// A world state tagged with the tick it is the pre-state of: the slot for
/// tick `t` holds the world with which tick `t` began.
struct Snapshot<W> {
    tick: u64,
    world: W,
}

/// One player's input ledger: a window of records for the ticks that are not
/// yet fully confirmed, plus the most recent confirmed frame, which is what
/// predictions repeat.
struct Lane {
    /// `window[i]` is the record for tick `confirmed + i`; `None` until the
    /// tick is either simulated (a prediction is synthesized) or its real
    /// frame arrives.
    window: Vec<Option<InputRecord>>,
    /// Frame of the most recent confirmed tick, `DEFAULT_FRAME` before any.
    pred_frame: u8,
    /// Tick of that frame.
    pred_tick: u64,
    /// Whether any frame has been confirmed for this lane.
    has_confirmed: bool,
}

/// A rollback-synchronized session: the handle seating, the session
/// parameters fixed at negotiation, and the engine state.
pub struct Session<W, S: SimulationStep<W>> {
    step: S,
    seats: Vec<PeerIdentity>,
    local_handle: usize,
    input_delay: u64,
    depth: usize,
    current: u64,
    confirmed: u64,
    rollback_from: Option<u64>,
    phase: Phase,
    world: W,
    snaps: Vec<Option<Snapshot<W>>>,
    lanes: Vec<Lane>,
    init_world: Ghost<W>,
    hist: Ghost<Seq<Seq<u8>>>,
    used: Ghost<Seq<Seq<u8>>>,
    ledger: Ghost<Map<(int, int), InputRecord>>,
}

/// The record table and the lane windows agree.  Every tick below the
/// confirmed frontier has a confirmed record for every handle; inside a
/// lane's window the table holds exactly the filled slots; beyond it nothing
/// is recorded yet.
spec fn ledger_agrees(lanes: Seq<Lane>, confirmed: u64, ledger: Map<(int, int), InputRecord>) -> bool {
    &&& forall|h: int, t: int|
        0 <= h < lanes.len() && 0 <= t < confirmed ==> #[trigger] ledger.dom().contains((h, t))
            && (ledger[(h, t)] is Confirmed)
    &&& forall|h: int, t: int|
        0 <= h < lanes.len() && confirmed <= t ==> {
            let win = lanes[h].window@;
            if t < confirmed + win.len() {
                &&& ((win[t - confirmed] is Some) <==> #[trigger] ledger.dom().contains((h, t)))
                &&& ((win[t - confirmed] is Some) ==> ledger[(h, t)] == win[t - confirmed]->0)
            } else {
                !ledger.dom().contains((h, t))
            }
        }
}

impl<W, S: SimulationStep<W>> Session<W, S> {
    /// Number of players in the session.
    pub closed spec fn players_spec(self) -> int {
        self.lanes@.len() as int
    }

    /// The identity seated at each handle, ascending by identifier.
    pub closed spec fn seats_spec(self) -> Seq<PeerIdentity> {
        self.seats@
    }

    /// The local player's handle.
    pub closed spec fn local_handle_spec(self) -> int {
        self.local_handle as int
    }

    /// Ticks a sampled frame is held before the simulation consumes it.
    pub closed spec fn input_delay_spec(self) -> u64 {
        self.input_delay
    }

    /// Capacity of the snapshot ring: how many ticks back a rollback can
    /// reach.
    pub closed spec fn depth_spec(self) -> u64 {
        self.depth as u64
    }

    /// The next tick to simulate; ticks `0 .. current` have been simulated.
    pub closed spec fn current_tick_spec(self) -> u64 {
        self.current
    }

    /// The confirmed frontier: ticks `0 .. confirmed` have confirmed input
    /// from every player.  Spec-wise, `confirmed - 1` is the classic
    /// "confirmed tick", the highest tick known with certainty.
    pub closed spec fn confirmed_spec(self) -> u64 {
        self.confirmed
    }

    /// Lifecycle phase.
    pub closed spec fn phase_spec(self) -> Phase {
        self.phase
    }

    /// The earliest simulated tick whose input was contradicted by an
    /// arrival and not yet resimulated.
    pub closed spec fn rollback_from_spec(self) -> Option<u64> {
        self.rollback_from
    }

    /// The step supplied at negotiation.
    pub closed spec fn step_spec(self) -> S {
        self.step
    }

    /// The world the session was created with.
    pub closed spec fn init_world_spec(self) -> W {
        self.init_world@
    }

    /// The current world: the pre-state of tick `current`.
    pub closed spec fn world_spec(self) -> W {
        self.world
    }

    /// Best currently known input vector for every simulated tick: confirmed
    /// frames where they have arrived, the recorded predictions elsewhere.
    pub closed spec fn history(self) -> Seq<Seq<u8>> {
        self.hist@
    }

    /// Input vector actually used when each simulated tick was last
    /// advanced.
    pub closed spec fn used_inputs(self) -> Seq<Seq<u8>> {
        self.used@
    }

    /// The input record the session holds for handle `h` at tick `t`, over
    /// the whole session history: exactly one exists per (handle, tick) from
    /// the moment the tick is simulated or its frame arrives, and a
    /// confirmed one is never revised.
    pub closed spec fn recorded(self, h: int, t: int) -> Option<InputRecord> {
        if self.ledger@.dom().contains((h, t)) {
            Some(self.ledger@[(h, t)])
        } else {
            None
        }
    }

    /// The record held for handle `h` at tick `t`, if any.
    pub closed spec fn slot_spec(self, h: int, t: int) -> Option<InputRecord> {
        if self.confirmed <= t < self.confirmed + self.lanes@[h].window@.len() {
            self.lanes@[h].window@[t - self.confirmed]
        } else {
            None
        }
    }

    /// Whether lane `h` has ever confirmed a frame.
    pub closed spec fn has_prediction_source(self, h: int) -> bool {
        self.lanes@[h].has_confirmed
    }

    /// The tick of lane `h`'s most recent confirmed frame.
    pub closed spec fn prediction_source_tick(self, h: int) -> u64 {
        self.lanes@[h].pred_tick
    }

    /// The frame a prediction for lane `h` would repeat now.
    pub closed spec fn prediction_spec(self, h: int) -> u8 {
        self.lanes@[h].pred_frame
    }

    /// The frame the engine would use for handle `h` at tick `t` if it
    /// simulated it now: the recorded frame, or the lane's prediction.
    pub closed spec fn planned_frame_spec(self, h: int, t: int) -> u8 {
        match self.slot_spec(h, t) {
            Some(r) => r.spec_frame(),
            None => self.lanes@[h].pred_frame,
        }
    }

    /// Ticks strictly below this bound were last simulated with their
    /// best-known inputs; a pending rollback lowers the bound to its target.
    pub closed spec fn clean_until(self) -> int {
        match self.rollback_from {
            None => self.current as int,
            Some(t) => t as int,
        }
    }

    /// Structural well-formedness: field sizes and counters agree.
    pub closed spec fn struct_wf(self) -> bool {
        &&& self.lanes@.len() == self.seats@.len()
        &&& 1 <= self.lanes@.len() <= MAX_PLAYERS
        &&& self.lanes@.len() == self.step.player_count()
        &&& self.local_handle < self.lanes@.len()
        &&& 1 <= self.depth
        &&& self.input_delay < self.depth as u64
        &&& self.confirmed <= self.current
        &&& self.snaps@.len() == self.depth
        &&& self.hist@.len() == self.current
        &&& self.used@.len() == self.current
        &&& forall|t: int|
            0 <= t < self.current ==> (#[trigger] self.hist@[t]).len() == self.lanes@.len()
        &&& forall|t: int|
            0 <= t < self.current ==> (#[trigger] self.used@[t]).len() == self.lanes@.len()
        &&& (self.phase == Phase::Running ==> self.confirmed >= self.input_delay)
    }

    /// Snapshot ring invariant: each slot holds the latest simulated tick of
    /// its residue class, tagged with its tick, equal to the run of the used
    /// inputs before that tick.
    pub closed spec fn snaps_wf(self) -> bool {
        &&& forall|s: int|
            0 <= s < self.snaps@.len() ==> ((#[trigger] self.snaps@[s]) is Some <==> s
                < self.current)
        &&& forall|s: int|
            0 <= s < self.snaps@.len() ==> match #[trigger] self.snaps@[s] {
                Some(sn) => {
                    &&& sn.tick < self.current
                    &&& sn.tick % (self.depth as u64) == s
                    &&& self.current <= sn.tick + self.depth
                    &&& sn.world == run_steps(
                        self.step,
                        self.init_world@,
                        self.used@.take(sn.tick as int),
                    )
                },
                None => true,
            }
    }

    /// Lane invariant: every simulated, not-yet-confirmed tick has a record
    /// whose frame is the tick's best-known input; predictions exist only
    /// for simulated ticks; empty slots lie at or beyond `current`.
    pub closed spec fn lanes_wf(self) -> bool {
        forall|h: int|
            0 <= h < self.lanes@.len() ==> {
                let win = (#[trigger] self.lanes@[h]).window@;
                &&& self.confirmed + win.len() >= self.current
                &&& forall|i: int|
                    0 <= i < win.len() ==> match #[trigger] win[i] {
                        Some(r) => {
                            &&& (self.confirmed + i < self.current ==> r.spec_frame()
                                == self.hist@[self.confirmed + i][h])
                            &&& (r is Predicted ==> self.confirmed + i < self.current)
                        },
                        None => self.confirmed + i >= self.current,
                    }
            }
    }

    /// Local lane invariant: the local player's input is authored, never
    /// predicted — one confirmed record for every tick from the frontier
    /// through `current + input_delay - 1`.
    pub closed spec fn local_lane_wf(self) -> bool {
        let win = self.lanes@[self.local_handle as int].window@;
        &&& self.confirmed + win.len() == self.current + self.input_delay
        &&& forall|i: int|
            0 <= i < win.len() ==> (#[trigger] win[i]) matches Some(InputRecord::Confirmed(_))
    }

    /// Ledger invariant: the record table and the lane windows agree.  Every
    /// tick below the confirmed frontier has a confirmed record for every
    /// handle; inside a lane's window the table holds exactly the filled
    /// slots; beyond it nothing is recorded yet.
    pub closed spec fn ledger_wf(self) -> bool {
        ledger_agrees(self.lanes@, self.confirmed, self.ledger@)
    }

    /// Run invariant: the world is the deterministic run of the inputs last
    /// used, those agree with the best-known inputs strictly below the
    /// rollback point, and any rollback point lies between the confirmed
    /// frontier and `current`.
    pub closed spec fn run_wf(self) -> bool {
        &&& (self.rollback_from matches Some(t) ==> self.confirmed <= t < self.current)
        &&& forall|t: int|
            0 <= t < self.clean_until() ==> #[trigger] self.used@[t] == self.hist@[t]
        &&& self.world == run_steps(self.step, self.init_world@, self.used@)
    }

    /// Whether the pending rollback target has fallen out of the snapshot
    /// ring: the fatal desync condition.
    pub open spec fn rollback_target_evicted(self) -> bool {
        match self.rollback_from_spec() {
            Some(t) => self.current_tick_spec() - t > self.depth_spec(),
            None => false,
        }
    }

    /// Snapshot ring invariant weakened during resimulation: slots whose
    /// tick lies at or beyond `upto` may still hold the world of the run
    /// they are about to be overwritten by.
    spec fn snaps_wf_upto(self, upto: int) -> bool {
        &&& forall|s: int|
            0 <= s < self.snaps@.len() ==> ((#[trigger] self.snaps@[s]) is Some <==> s
                < self.current)
        &&& forall|s: int|
            0 <= s < self.snaps@.len() ==> match #[trigger] self.snaps@[s] {
                Some(sn) => {
                    &&& sn.tick < self.current
                    &&& sn.tick % (self.depth as u64) == s
                    &&& self.current <= sn.tick + self.depth
                    &&& (sn.tick < upto ==> sn.world == run_steps(
                        self.step,
                        self.init_world@,
                        self.used@.take(sn.tick as int),
                    ))
                },
                None => true,
            }
    }

    /// The session invariant.  A terminated session keeps only its counters;
    /// its buffers are released.
    pub closed spec fn wf(self) -> bool {
        &&& self.struct_wf()
        &&& self.phase != Phase::Terminated ==> {
            &&& self.snaps_wf()
            &&& self.lanes_wf()
            &&& self.local_lane_wf()
            &&& self.run_wf()
            &&& self.ledger_wf()
        }
    }

    /// Negotiate a session from the discovered identity set (which includes
    /// the local identity) and the fixed session parameters.  Succeeds
    /// exactly on duplicate-free identity sets containing `local` that fit
    /// the wire and match the step's player count, with a rollback depth
    /// above the input delay; the handle seating is then the identities in
    /// ascending order, the same at every participant.
    pub fn negotiate(
        ids: &Vec<PeerIdentity>,
        local: PeerIdentity,
        input_delay: u64,
        rollback_depth: usize,
        step: S,
        initial_world: W,
    ) -> (r: Result<Session<W, S>, NegotiateError>)
        ensures
            match r {
                Ok(s) => {
                    &&& rollback_depth as u64 > input_delay
                    &&& step.player_count() == ids@.len()
                    &&& !has_duplicate(ids@)
                    &&& ids@.contains(local)
                    &&& ids@.len() <= MAX_PLAYERS
                    &&& s.wf()
                    &&& s.phase_spec() == (if input_delay == 0 {
                        Phase::Running
                    } else {
                        Phase::Synchronizing
                    })
                    &&& s.current_tick_spec() == 0
                    &&& s.confirmed_spec() == 0
                    &&& s.rollback_from_spec() is None
                    &&& s.players_spec() == ids@.len()
                    &&& s.seats_spec().len() == ids@.len()
                    &&& strictly_sorted_by_id(s.seats_spec())
                    &&& s.seats_spec().to_multiset() == ids@.to_multiset()
                    &&& s.local_handle_spec() < ids@.len()
                    &&& s.seats_spec()[s.local_handle_spec()] == local
                    &&& s.input_delay_spec() == input_delay
                    &&& s.depth_spec() == rollback_depth
                    &&& s.step_spec() == step
                    &&& s.init_world_spec() == initial_world
                    &&& s.world_spec() == initial_world
                    &&& s.history() == Seq::<Seq<u8>>::empty()
                    &&& s.used_inputs() == Seq::<Seq<u8>>::empty()
                    &&& forall|h2: int, t2: int|
                        #![trigger s.recorded(h2, t2)]
                        s.recorded(h2, t2) == (if 0 <= h2 < ids@.len() && 0 <= t2 < input_delay {
                            Some(InputRecord::Confirmed(DEFAULT_FRAME))
                        } else {
                            None
                        })
                },
                Err(NegotiateError::InvalidConfig) => rollback_depth as u64 <= input_delay
                    || step.player_count() != ids@.len(),
                Err(e) => {
                    &&& rollback_depth as u64 > input_delay
                    &&& step.player_count() == ids@.len()
                    &&& match e {
                        NegotiateError::DuplicateIdentity => has_duplicate(ids@),
                        NegotiateError::LocalMissing => !has_duplicate(ids@) && !ids@.contains(
                            local,
                        ),
                        NegotiateError::TooManyPlayers => {
                            &&& !has_duplicate(ids@)
                            &&& ids@.contains(local)
                            &&& ids@.len() > MAX_PLAYERS
                        },
                        NegotiateError::InvalidConfig => false,
                    }
                },
            },
    {
        if rollback_depth as u64 <= input_delay {
            return Err(NegotiateError::InvalidConfig);
        }
        if step.player_count_exec() != ids.len() {
            return Err(NegotiateError::InvalidConfig);
        }
        let assignment = match assign_handles(ids, local) {
            Ok(a) => a,
            Err(e) => {
                return Err(e);
            },
        };
        let n = assignment.by_handle.len();
        // every player's first `input_delay` ticks are consumed before any
        // sampled input can reach them; the protocol fixes them to the
        // default frame, so every lane starts with them confirmed,
        // identically on every peer
        let delay_len: usize = input_delay as usize;
        let mut lanes: Vec<Lane> = Vec::new();
        let mut h: usize = 0;
        while h < n
            invariant
                h <= n,
                lanes@.len() == h,
                forall|k: int|
                    0 <= k < h ==> {
                        &&& (#[trigger] lanes@[k]).window@.len() == delay_len
                        &&& (forall|i: int|
                            0 <= i < delay_len ==> (#[trigger] lanes@[k].window@[i]) == Some(
                                InputRecord::Confirmed(DEFAULT_FRAME),
                            ))
                        &&& lanes@[k].pred_frame == DEFAULT_FRAME
                        &&& !lanes@[k].has_confirmed
                    },
            decreases n - h,
        {
            let mut prefill: Vec<Option<InputRecord>> = Vec::new();
            let mut i: usize = 0;
            while i < delay_len
                invariant
                    i <= delay_len,
                    prefill@.len() == i,
                    forall|k: int|
                        0 <= k < i ==> (#[trigger] prefill@[k]) == Some(
                            InputRecord::Confirmed(DEFAULT_FRAME),
                        ),
                decreases delay_len - i,
            {
                prefill.push(Some(InputRecord::Confirmed(DEFAULT_FRAME)));
                i = i + 1;
            }
            lanes.push(
                Lane {
                    window: prefill,
                    pred_frame: DEFAULT_FRAME,
                    pred_tick: 0,
                    has_confirmed: false,
                },
            );
            h = h + 1;
        }
        let local_handle = assignment.local_handle;
        let mut snaps: Vec<Option<Snapshot<W>>> = Vec::new();
        let mut sidx: usize = 0;
        while sidx < rollback_depth
            invariant
                sidx <= rollback_depth,
                snaps@.len() == sidx,
                forall|k: int| 0 <= k < sidx ==> (#[trigger] snaps@[k]) is None,
            decreases rollback_depth - sidx,
        {
            snaps.push(None);
            sidx = sidx + 1;
        }
        let ghost init = initial_world;
        let ghost np = n as int;
        let ghost dl = input_delay as int;
        let s = Session {
            step,
            seats: assignment.by_handle,
            local_handle,
            input_delay,
            depth: rollback_depth,
            current: 0,
            confirmed: 0,
            rollback_from: None,
            phase: if input_delay == 0 {
                Phase::Running
            } else {
                Phase::Synchronizing
            },
            world: initial_world,
            snaps,
            lanes,
            init_world: Ghost(init),
            hist: Ghost(Seq::empty()),
            used: Ghost(Seq::empty()),
            ledger: Ghost(
                Map::new(
                    |k: (int, int)| 0 <= k.0 < np && 0 <= k.1 < dl,
                    |k: (int, int)| InputRecord::Confirmed(DEFAULT_FRAME),
                ),
            ),
        };
        proof {
            assert(s.used@.take(0) =~= Seq::<Seq<u8>>::empty());
        }
        Ok(s)
    }

    /// Feed one remote input frame into the ledger, as decoded from the
    /// wire: `handle`'s input for tick `t`.  Late frames (the tick is
    /// already fully confirmed) and duplicates are dropped; anything else is
    /// recorded as confirmed, and if it contradicts a prediction that was
    /// already simulated, a rollback is scheduled from the earliest
    /// contradicted tick.  The network thread never calls this: the tick
    /// loop drains its inbound queue through here at tick boundaries.
    #[verifier::rlimit(50)]
    pub fn apply_remote_frame(&mut self, handle: usize, t: u64, bits: u8) -> (r: ArrivalOutcome)
        requires
            old(self).wf(),
            old(self).phase_spec() != Phase::Terminated,
            (handle as int) < old(self).players_spec(),
            handle as int != old(self).local_handle_spec(),
            // machine limits: the tick arithmetic and the record window must
            // stay addressable
            old(self).current_tick_spec() + old(self).depth_spec() <= u64::MAX,
            old(self).current_tick_spec() + old(self).depth_spec() - old(self).confirmed_spec()
                <= usize::MAX,
        ensures
            final(self).wf(),
            final(self).phase_spec() == old(self).phase_spec(),
            final(self).current_tick_spec() == old(self).current_tick_spec(),
            final(self).confirmed_spec() == old(self).confirmed_spec(),
            final(self).players_spec() == old(self).players_spec(),
            final(self).seats_spec() == old(self).seats_spec(),
            final(self).local_handle_spec() == old(self).local_handle_spec(),
            final(self).input_delay_spec() == old(self).input_delay_spec(),
            final(self).depth_spec() == old(self).depth_spec(),
            final(self).step_spec() == old(self).step_spec(),
            final(self).init_world_spec() == old(self).init_world_spec(),
            final(self).world_spec() == old(self).world_spec(),
            final(self).used_inputs() == old(self).used_inputs(),
            match r {
                ArrivalOutcome::Late => {
                    &&& t < old(self).confirmed_spec()
                    &&& *final(self) == *old(self)
                },
                ArrivalOutcome::TooFarAhead => {
                    &&& t >= old(self).confirmed_spec()
                    &&& t >= old(self).current_tick_spec() + old(self).depth_spec()
                    &&& *final(self) == *old(self)
                },
                ArrivalOutcome::Duplicate { agrees } => {
                    &&& old(self).confirmed_spec() <= t
                    &&& t < old(self).current_tick_spec() + old(self).depth_spec()
                    &&& old(self).slot_spec(handle as int, t as int) matches Some(
                        InputRecord::Confirmed(c),
                    ) && agrees == (c == bits)
                    &&& *final(self) == *old(self)
                },
                ArrivalOutcome::Applied { mismatch } => {
                    &&& old(self).confirmed_spec() <= t
                    &&& t < old(self).current_tick_spec() + old(self).depth_spec()
                    &&& mismatch == match old(self).slot_spec(handle as int, t as int) {
                        Some(rec) => rec is Predicted && rec.spec_frame() != bits,
                        None => false,
                    }
                    &&& final(self).slot_spec(handle as int, t as int) == Some(
                        InputRecord::Confirmed(bits),
                    )
                    &&& final(self).recorded(handle as int, t as int) == Some(
                        InputRecord::Confirmed(bits),
                    )
                    &&& forall|h2: int, t2: int|
                        #![trigger final(self).recorded(h2, t2)]
                        (h2, t2) != (handle as int, t as int) ==> final(self).recorded(h2, t2)
                            == old(self).recorded(h2, t2)
                    &&& forall|h2: int, t2: int|
                        0 <= h2 < old(self).players_spec() && (h2 != handle || t2 != t)
                            ==> final(self).slot_spec(h2, t2) == old(self).slot_spec(h2, t2)
                    &&& final(self).history() == (if t < old(self).current_tick_spec() {
                        old(self).history().update(
                            t as int,
                            old(self).history()[t as int].update(handle as int, bits),
                        )
                    } else {
                        old(self).history()
                    })
                    &&& final(self).rollback_from_spec() == (if mismatch {
                        schedule_rollback(old(self).rollback_from_spec(), t)
                    } else {
                        old(self).rollback_from_spec()
                    })
                    &&& (if !old(self).has_prediction_source(handle as int) || t >= old(
                        self,
                    ).prediction_source_tick(handle as int) {
                        &&& final(self).prediction_spec(handle as int) == bits
                        &&& final(self).prediction_source_tick(handle as int) == t
                        &&& final(self).has_prediction_source(handle as int)
                    } else {
                        &&& final(self).prediction_spec(handle as int) == old(
                            self,
                        ).prediction_spec(handle as int)
                        &&& final(self).prediction_source_tick(handle as int) == old(
                            self,
                        ).prediction_source_tick(handle as int)
                        &&& final(self).has_prediction_source(handle as int) == old(
                            self,
                        ).has_prediction_source(handle as int)
                    })
                    &&& forall|h2: int|
                        0 <= h2 < old(self).players_spec() && h2 != handle ==> {
                            &&& final(self).prediction_spec(h2) == old(self).prediction_spec(h2)
                            &&& final(self).prediction_source_tick(h2) == old(
                                self,
                            ).prediction_source_tick(h2)
                            &&& final(self).has_prediction_source(h2) == old(
                                self,
                            ).has_prediction_source(h2)
                        }
                },
            },
    {
        let cur = self.current;
        let conf = self.confirmed;
        if t < conf {
            return ArrivalOutcome::Late;
        }
        if t >= cur + self.depth as u64 {
            return ArrivalOutcome::TooFarAhead;
        }
        let idx: usize = (t - conf) as usize;
        // a record already confirmed for this tick: drop after the equality
        // check
        if idx < self.lanes[handle].window.len() {
            match self.lanes[handle].window[idx] {
                Some(InputRecord::Confirmed(c)) => {
                    return ArrivalOutcome::Duplicate { agrees: c == bits };
                },
                _ => {},
            }
        }
        let ghost old_lanes = self.lanes@;
        let mut lane = self.lanes.remove(handle);
        let mut mismatch: bool = false;
        while lane.window.len() <= idx
            invariant
                lane.window@.len() >= old_lanes[handle as int].window@.len(),
                forall|i: int|
                    0 <= i < lane.window@.len() ==> #[trigger] lane.window@[i]
                        == (if i < old_lanes[handle as int].window@.len() {
                        old_lanes[handle as int].window@[i]
                    } else {
                        None
                    }),
                lane.pred_frame == old_lanes[handle as int].pred_frame,
                lane.pred_tick == old_lanes[handle as int].pred_tick,
                lane.has_confirmed == old_lanes[handle as int].has_confirmed,
            decreases idx + 1 - lane.window@.len(),
        {
            lane.window.push(None);
        }
        match lane.window[idx] {
            Some(rec) => {
                if !rec.is_confirmed() && rec.frame() != bits {
                    mismatch = true;
                }
            },
            None => {},
        }
        lane.window.set(idx, Some(InputRecord::Confirmed(bits)));
        if !lane.has_confirmed || t >= lane.pred_tick {
            lane.pred_frame = bits;
            lane.pred_tick = t;
            lane.has_confirmed = true;
        }
        self.lanes.insert(handle, lane);
        proof {
            assert(self.lanes@.len() == old_lanes.len());
            assert forall|h2: int| 0 <= h2 < old_lanes.len() && h2 != handle implies self.lanes@[h2]
                == old_lanes[h2] by {
                assert(self.lanes@[h2] == old_lanes.remove(handle as int).insert(
                    handle as int,
                    self.lanes@[handle as int],
                )[h2]);
            }
        }
        self.ledger = Ghost(
            self.ledger@.insert((handle as int, t as int), InputRecord::Confirmed(bits)),
        );
        if t < cur {
            let ghost th = t as int;
            let ghost hh = handle as int;
            self.hist = Ghost(self.hist@.update(th, self.hist@[th].update(hh, bits)));
        }
        if mismatch {
            self.rollback_from = match self.rollback_from {
                None => Some(t),
                Some(t0) => Some(if t < t0 {
                    t
                } else {
                    t0
                }),
            };
        }
        proof {
            let o = *old(self);
            let hh = handle as int;
            let tt = t as int;
            let oldwin = old_lanes[hh].window@;
            let newwin = self.lanes@[hh].window@;
            assert(self.lanes@ =~= old_lanes.update(hh, self.lanes@[hh]));
            // the new window only extends the old with empty slots and
            // confirms position `idx`
            assert(forall|i: int|
                0 <= i < newwin.len() && i != idx ==> #[trigger] newwin[i] == (if i
                    < oldwin.len() {
                    oldwin[i]
                } else {
                    None
                }));
            assert(newwin[idx as int] == Some(InputRecord::Confirmed(bits)));
            // slots elsewhere read the same
            assert forall|h2: int, t2: int|
                0 <= h2 < o.players_spec() && (h2 != hh || t2 != tt) implies self.slot_spec(
                h2,
                t2,
            ) == o.slot_spec(h2, t2) by {
                if h2 == hh {
                    if o.confirmed <= t2 < o.confirmed + newwin.len() {
                        assert(self.slot_spec(h2, t2) == newwin[t2 - o.confirmed]);
                    }
                }
            }
            // the best-known history changes exactly at the confirmed entry
            if tt < o.current {
                assert(self.hist@[tt][hh] == bits);
                assert(forall|t2: int|
                    0 <= t2 < o.current && t2 != tt ==> #[trigger] self.hist@[t2] == o.hist@[t2]);
                assert(forall|h2: int|
                    0 <= h2 < o.players_spec() && h2 != hh ==> #[trigger] self.hist@[tt][h2]
                        == o.hist@[tt][h2]);
                if !mismatch {
                    // the arrival agreed with the prediction it replaces, so
                    // the history row keeps its value
                    assert(oldwin[idx as int] matches Some(rec) && rec.spec_frame() == bits);
                    assert(o.hist@[tt][hh] == bits);
                    assert(self.hist@[tt] =~= o.hist@[tt]);
                }
            }
            // the session invariant survives
            assert(self.struct_wf()) by {
                assert(forall|t2: int|
                    0 <= t2 < self.current ==> (#[trigger] self.hist@[t2]).len()
                        == self.lanes@.len());
            }
            assert(self.lanes_wf()) by {
                assert forall|h2: int| 0 <= h2 < self.lanes@.len() implies {
                    let win = (#[trigger] self.lanes@[h2]).window@;
                    &&& self.confirmed + win.len() >= self.current
                    &&& forall|i: int|
                        0 <= i < win.len() ==> match #[trigger] win[i] {
                            Some(r) => {
                                &&& (self.confirmed + i < self.current ==> r.spec_frame()
                                    == self.hist@[self.confirmed + i][h2])
                                &&& (r is Predicted ==> self.confirmed + i < self.current)
                            },
                            None => self.confirmed + i >= self.current,
                        }
                } by {
                    let win = self.lanes@[h2].window@;
                    assert forall|i: int| 0 <= i < win.len() implies match #[trigger] win[i] {
                        Some(r) => {
                            &&& (self.confirmed + i < self.current ==> r.spec_frame()
                                == self.hist@[self.confirmed + i][h2])
                            &&& (r is Predicted ==> self.confirmed + i < self.current)
                        },
                        None => self.confirmed + i >= self.current,
                    } by {
                        if h2 == hh {
                            if i != idx && i < oldwin.len() {
                                assert(win[i] == oldwin[i]);
                            }
                        } else {
                            assert(self.lanes@[h2] == old_lanes[h2]);
                        }
                    }
                }
            }
            assert(self.local_lane_wf()) by {
                assert(self.lanes@[self.local_handle as int]
                    == old_lanes[self.local_handle as int]);
            }
            assert(self.run_wf()) by {
                assert(forall|t2: int|
                    0 <= t2 < self.clean_until() ==> #[trigger] self.used@[t2] == self.hist@[t2]);
            }
            assert(self.snaps_wf());
            assert(self.ledger_wf()) by {
                assert forall|h2: int, t2: int|
                    #![trigger self.ledger@.dom().contains((h2, t2))]
                    0 <= h2 < self.lanes@.len() && 0 <= t2 < self.confirmed implies self.ledger@.dom().contains(
                    (h2, t2),
                ) && (self.ledger@[(h2, t2)] is Confirmed) by {
                    assert(o.ledger_wf());
                    let old_has = o.ledger@.dom().contains((h2, t2));
                }
                assert forall|h2: int, t2: int|
                    #![trigger self.ledger@.dom().contains((h2, t2))]
                    0 <= h2 < self.lanes@.len() && self.confirmed <= t2 implies {
                    let win = self.lanes@[h2].window@;
                    if t2 < self.confirmed + win.len() {
                        &&& ((win[t2 - self.confirmed] is Some)
                            <==> self.ledger@.dom().contains((h2, t2)))
                        &&& ((win[t2 - self.confirmed] is Some) ==> self.ledger@[(h2, t2)]
                            == win[t2 - self.confirmed]->0)
                    } else {
                        !self.ledger@.dom().contains((h2, t2))
                    }
                } by {
                    let win = self.lanes@[h2].window@;
                    assert(o.ledger_wf());
                    let old_has = o.ledger@.dom().contains((h2, t2));
                    if h2 == hh {
                        if t2 != tt && self.confirmed <= t2 < self.confirmed + win.len() {
                            assert(win[t2 - self.confirmed] == (if t2 - self.confirmed
                                < oldwin.len() {
                                oldwin[t2 - self.confirmed]
                            } else {
                                None
                            }));
                        }
                    } else {
                        assert(self.lanes@[h2] == old_lanes[h2]);
                    }
                }
            }
        }
        ArrivalOutcome::Applied { mismatch }
    }

    /// Collect the recorded frame of every handle at tick `t`; every slot
    /// must already hold a record.
    fn gather_known_inputs(&self, t: u64) -> (v: Vec<u8>)
        requires
            self.struct_wf(),
            self.confirmed_spec() <= t,
            forall|h: int| 0 <= h < self.players_spec() ==> self.slot_spec(h, t as int) is Some,
        ensures
            v@.len() == self.players_spec(),
            forall|h: int|
                0 <= h < self.players_spec() ==> v@[h] == (#[trigger] self.slot_spec(
                    h,
                    t as int,
                ))->0.spec_frame(),
    {
        let n = self.lanes.len();
        let mut v: Vec<u8> = Vec::new();
        let mut h: usize = 0;
        while h < n
            invariant
                h <= n,
                n == self.lanes@.len(),
                self.struct_wf(),
                self.confirmed <= t,
                forall|h2: int| 0 <= h2 < n ==> self.slot_spec(h2, t as int) is Some,
                v@.len() == h,
                forall|h2: int|
                    0 <= h2 < h ==> v@[h2] == (#[trigger] self.slot_spec(
                        h2,
                        t as int,
                    ))->0.spec_frame(),
            decreases n - h,
        {
            let wlen = self.lanes[h].window.len();
            proof {
                assert(self.slot_spec(h as int, t as int) is Some);
                assert(t - self.confirmed < wlen);
            }
            let idx: usize = (t - self.confirmed) as usize;
            proof {
                assert(idx == t - self.confirmed);
            }
            match self.lanes[h].window[idx] {
                Some(rec) => {
                    v.push(rec.frame());
                },
                None => {
                    proof {
                        assert(false);
                    }
                    v.push(DEFAULT_FRAME);
                },
            }
            h = h + 1;
        }
        v
    }

    /// Ensure every handle has a record at tick `t`, the tick about to be
    /// simulated: a lane that lacks one gets a prediction repeating its most
    /// recent confirmed frame.
    fn materialize_predictions(&mut self, t: u64)
        requires
            old(self).confirmed_spec() <= t,
            t - old(self).confirmed_spec() < usize::MAX,
        ensures
            final(self).seats == old(self).seats,
            final(self).local_handle == old(self).local_handle,
            final(self).input_delay == old(self).input_delay,
            final(self).depth == old(self).depth,
            final(self).current == old(self).current,
            final(self).confirmed == old(self).confirmed,
            final(self).rollback_from == old(self).rollback_from,
            final(self).phase == old(self).phase,
            final(self).world == old(self).world,
            final(self).snaps == old(self).snaps,
            final(self).step == old(self).step,
            final(self).init_world == old(self).init_world,
            final(self).hist == old(self).hist,
            final(self).used == old(self).used,
            final(self).lanes@.len() == old(self).lanes@.len(),
            forall|h2: int, t2: int|
                #![trigger final(self).ledger@.dom().contains((h2, t2))]
                !(t2 == t && 0 <= h2 < old(self).lanes@.len()) ==> (final(self).ledger@.dom().contains((h2, t2)) == old(self).ledger@.dom().contains((h2, t2))
                    && (old(self).ledger@.dom().contains((h2, t2)) ==> final(self).ledger@[(
                    h2,
                    t2,
                )] == old(self).ledger@[(h2, t2)])),
            forall|h2: int|
                0 <= h2 < old(self).lanes@.len() ==> {
                    let ow = (#[trigger] old(self).lanes@[h2]).window@;
                    let idx = t - old(self).confirmed_spec();
                    if idx >= ow.len() || ow[idx] is None {
                        &&& final(self).ledger@.dom().contains((h2, t as int))
                        &&& final(self).ledger@[(h2, t as int)] == InputRecord::Predicted(
                            old(self).lanes@[h2].pred_frame,
                        )
                    } else {
                        &&& final(self).ledger@.dom().contains((h2, t as int)) == old(
                            self,
                        ).ledger@.dom().contains((h2, t as int))
                        &&& (old(self).ledger@.dom().contains((h2, t as int)) ==> final(self).ledger@[(h2, t as int)] == old(self).ledger@[(h2, t as int)])
                    }
                },
            forall|h: int|
                0 <= h < old(self).lanes@.len() ==> {
                    let ow = (#[trigger] old(self).lanes@[h]).window@;
                    let nw = final(self).lanes@[h].window@;
                    let idx = t - old(self).confirmed_spec();
                    &&& final(self).lanes@[h].pred_frame == old(self).lanes@[h].pred_frame
                    &&& final(self).lanes@[h].pred_tick == old(self).lanes@[h].pred_tick
                    &&& final(self).lanes@[h].has_confirmed == old(self).lanes@[h].has_confirmed
                    &&& nw.len() == (if ow.len() < idx + 1 {
                        idx + 1
                    } else {
                        ow.len() as int
                    })
                    &&& forall|i: int|
                        0 <= i < nw.len() ==> #[trigger] nw[i] == (if i == idx && (i >= ow.len()
                            || ow[i] is None) {
                            Some(InputRecord::Predicted(old(self).lanes@[h].pred_frame))
                        } else if i < ow.len() {
                            ow[i]
                        } else {
                            None
                        })
                },
    {
        let idx: usize = (t - self.confirmed) as usize;
        let n = self.lanes.len();
        let mut h: usize = 0;
        while h < n
            invariant
                h <= n,
                n == self.lanes@.len(),
                idx == t - old(self).confirmed_spec(),
                self.seats == old(self).seats,
                self.local_handle == old(self).local_handle,
                self.input_delay == old(self).input_delay,
                self.depth == old(self).depth,
                self.current == old(self).current,
                self.confirmed == old(self).confirmed,
                self.rollback_from == old(self).rollback_from,
                self.phase == old(self).phase,
                self.world == old(self).world,
                self.snaps == old(self).snaps,
                self.step == old(self).step,
                self.init_world == old(self).init_world,
                self.hist == old(self).hist,
                self.used == old(self).used,
                self.lanes@.len() == old(self).lanes@.len(),
                forall|k: int| h <= k < n ==> #[trigger] self.lanes@[k] == old(self).lanes@[k],
                forall|h2: int, t2: int|
                    #![trigger self.ledger@.dom().contains((h2, t2))]
                    !(t2 == t && 0 <= h2 < h) ==> (self.ledger@.dom().contains((h2, t2)) == old(
                        self,
                    ).ledger@.dom().contains((h2, t2)) && (old(self).ledger@.dom().contains((
                        h2,
                        t2,
                    )) ==> self.ledger@[(h2, t2)] == old(self).ledger@[(h2, t2)])),
                forall|h2: int|
                    0 <= h2 < h ==> {
                        let ow = (#[trigger] old(self).lanes@[h2]).window@;
                        if idx >= ow.len() || ow[idx as int] is None {
                            &&& self.ledger@.dom().contains((h2, t as int))
                            &&& self.ledger@[(h2, t as int)] == InputRecord::Predicted(
                                old(self).lanes@[h2].pred_frame,
                            )
                        } else {
                            &&& self.ledger@.dom().contains((h2, t as int)) == old(
                                self,
                            ).ledger@.dom().contains((h2, t as int))
                            &&& (old(self).ledger@.dom().contains((h2, t as int)) ==> self.ledger@[(
                                h2,
                                t as int,
                            )] == old(self).ledger@[(h2, t as int)])
                        }
                    },
                forall|k: int|
                    0 <= k < h ==> {
                        let ow = (#[trigger] old(self).lanes@[k]).window@;
                        let nw = self.lanes@[k].window@;
                        &&& self.lanes@[k].pred_frame == old(self).lanes@[k].pred_frame
                        &&& self.lanes@[k].pred_tick == old(self).lanes@[k].pred_tick
                        &&& self.lanes@[k].has_confirmed == old(self).lanes@[k].has_confirmed
                        &&& nw.len() == (if ow.len() < idx + 1 {
                            idx + 1
                        } else {
                            ow.len() as int
                        })
                        &&& forall|i: int|
                            0 <= i < nw.len() ==> #[trigger] nw[i] == (if i == idx && (i
                                >= ow.len() || ow[i] is None) {
                                Some(InputRecord::Predicted(old(self).lanes@[k].pred_frame))
                            } else if i < ow.len() {
                                ow[i]
                            } else {
                                None
                            })
                    },
            decreases n - h,
        {
            let ghost pre_lanes = self.lanes@;
            let ghost ow = self.lanes@[h as int].window@;
            let mut lane = self.lanes.remove(h);
            while lane.window.len() <= idx
                invariant
                    lane.window@.len() >= ow.len(),
                    lane.window@.len() <= idx + 1 || lane.window@.len() == ow.len(),
                    forall|i: int|
                        0 <= i < lane.window@.len() ==> #[trigger] lane.window@[i] == (if i
                            < ow.len() {
                            ow[i]
                        } else {
                            None
                        }),
                    lane.pred_frame == pre_lanes[h as int].pred_frame,
                    lane.pred_tick == pre_lanes[h as int].pred_tick,
                    lane.has_confirmed == pre_lanes[h as int].has_confirmed,
                decreases idx + 1 - lane.window@.len(),
            {
                lane.window.push(None);
            }
            let needs_prediction = match lane.window[idx] {
                None => true,
                Some(_) => false,
            };
            let guess = lane.pred_frame;
            if needs_prediction {
                lane.window.set(idx, Some(InputRecord::Predicted(guess)));
            }
            self.lanes.insert(h, lane);
            let ghost pre_ledger = self.ledger@;
            if needs_prediction {
                self.ledger = Ghost(
                    self.ledger@.insert((h as int, t as int), InputRecord::Predicted(guess)),
                );
            }
            proof {
                assert(self.lanes@ =~= pre_lanes.update(h as int, self.lanes@[h as int]));
                assert forall|h2: int, t2: int|
                    #![trigger self.ledger@.dom().contains((h2, t2))]
                    !(t2 == t && 0 <= h2 < h + 1) implies (self.ledger@.dom().contains((h2, t2))
                    == old(self).ledger@.dom().contains((h2, t2)) && (old(
                    self,
                ).ledger@.dom().contains((h2, t2)) ==> self.ledger@[(h2, t2)] == old(
                    self,
                ).ledger@[(h2, t2)])) by {
                    let was = pre_ledger.dom().contains((h2, t2));
                }
            }
            h = h + 1;
        }
    }

    /// Whether every lane's record at the confirmed frontier is confirmed.
    fn front_all_confirmed(&self) -> (b: bool)
        requires
            self.struct_wf(),
            forall|h: int|
                0 <= h < self.players_spec() ==> (#[trigger] self.lanes@[h]).window@.len() >= 1,
        ensures
            b == forall|h: int|
                0 <= h < self.players_spec() ==> (#[trigger] self.lanes@[h]).window@[0] matches Some(
                    InputRecord::Confirmed(_),
                ),
    {
        let n = self.lanes.len();
        let mut h: usize = 0;
        while h < n
            invariant
                h <= n,
                n == self.lanes@.len(),
                forall|h2: int|
                    0 <= h2 < n ==> (#[trigger] self.lanes@[h2]).window@.len() >= 1,
                forall|h2: int|
                    0 <= h2 < h ==> (#[trigger] self.lanes@[h2]).window@[0] matches Some(
                        InputRecord::Confirmed(_),
                    ),
            decreases n - h,
        {
            let confirmed_front = match self.lanes[h].window[0] {
                Some(InputRecord::Confirmed(_)) => true,
                _ => false,
            };
            if !confirmed_front {
                return false;
            }
            h = h + 1;
        }
        true
    }

    /// Restore the snapshot from just before `from` and re-run every tick
    /// from `from` through `current - 1` with the best-known inputs,
    /// overwriting each intermediate snapshot in place.
    fn resimulate(&mut self, from: u64)
        requires
            old(self).struct_wf(),
            old(self).lanes_wf(),
            old(self).snaps_wf(),
            old(self).confirmed_spec() <= from < old(self).current_tick_spec(),
            old(self).current_tick_spec() - from <= old(self).depth_spec(),
            old(self).current_tick_spec() - old(self).confirmed_spec() <= usize::MAX,
            forall|t2: int| 0 <= t2 < from ==> old(self).used@[t2] == old(self).hist@[t2],
        ensures
            final(self).struct_wf(),
            final(self).lanes_wf(),
            final(self).snaps_wf(),
            final(self).lanes == old(self).lanes,
            final(self).hist == old(self).hist,
            final(self).seats == old(self).seats,
            final(self).local_handle == old(self).local_handle,
            final(self).input_delay == old(self).input_delay,
            final(self).depth == old(self).depth,
            final(self).current == old(self).current,
            final(self).confirmed == old(self).confirmed,
            final(self).rollback_from == old(self).rollback_from,
            final(self).phase == old(self).phase,
            final(self).step == old(self).step,
            final(self).init_world == old(self).init_world,
            final(self).ledger == old(self).ledger,
            final(self).used@ == old(self).hist@,
            forall|t2: int| 0 <= t2 < from ==> final(self).used@[t2] == old(self).used@[t2],
            final(self).world == run_steps(
                old(self).step,
                old(self).init_world@,
                old(self).hist@,
            ),
    {
        let from_slot: usize = (from % (self.depth as u64)) as usize;
        proof {
            vstd::arithmetic::div_mod::lemma_mod_decreases(from as nat, self.depth as nat);
            assert(self.snaps@[from_slot as int] is Some);
            let sn = self.snaps@[from_slot as int]->0;
            lemma_congruent_close_equal(sn.tick as int, from as int, self.depth as int);
            assert(sn.tick == from);
        }
        let sn = self.snaps[from_slot].as_ref().unwrap();
        let mut w: W = self.step.clone_world(&sn.world);
        proof {
            assert(w == run_steps(self.step, self.init_world@, self.used@.take(from as int)));
        }
        let mut t = from;
        while t < self.current
            invariant
                self.confirmed <= from,
                from <= t <= self.current,
                self.struct_wf(),
                self.lanes_wf(),
                self.snaps_wf_upto(t as int),
                self.lanes == old(self).lanes,
                self.hist == old(self).hist,
                self.seats == old(self).seats,
                self.local_handle == old(self).local_handle,
                self.input_delay == old(self).input_delay,
                self.depth == old(self).depth,
                self.current == old(self).current,
                self.confirmed == old(self).confirmed,
                self.rollback_from == old(self).rollback_from,
                self.phase == old(self).phase,
                self.step == old(self).step,
                self.init_world == old(self).init_world,
                self.ledger == old(self).ledger,
                self.world == old(self).world,
                self.current - from <= self.depth as u64,
                self.current - self.confirmed <= usize::MAX,
                self.used@.len() == old(self).used@.len(),
                forall|t2: int| 0 <= t2 < t ==> #[trigger] self.used@[t2] == old(self).hist@[t2],
                forall|t2: int|
                    t <= t2 < self.current ==> #[trigger] self.used@[t2] == old(self).used@[t2],
                w == run_steps(self.step, self.init_world@, self.used@.take(t as int)),
            decreases self.current - t,
        {
            let ghost pre_used = self.used@;
            // write the corrected pre-state of `t` back into its slot
            let slot: usize = (t % (self.depth as u64)) as usize;
            proof {
                vstd::arithmetic::div_mod::lemma_mod_decreases(t as nat, self.depth as nat);
                assert(self.snaps@[slot as int] is Some);
                let sn0 = self.snaps@[slot as int]->0;
                lemma_congruent_close_equal(sn0.tick as int, t as int, self.depth as int);
                assert(sn0.tick == t);
            }
            let snap_world = self.step.clone_world(&w);
            self.snaps.set(slot, Some(Snapshot { tick: t, world: snap_world }));
            // gather the now best-known inputs of `t`
            proof {
                assert forall|h: int| 0 <= h < self.players_spec() implies self.slot_spec(
                    h,
                    t as int,
                ) is Some by {
                    let win = self.lanes@[h].window@;
                    assert(self.confirmed + win.len() >= self.current);
                    assert(0 <= t - self.confirmed < win.len());
                }
            }
            let v = self.gather_known_inputs(t);
            proof {
                assert forall|h: int| 0 <= h < self.players_spec() implies v@[h]
                    == self.hist@[t as int][h] by {
                    let win = self.lanes@[h].window@;
                    assert(self.confirmed + win.len() >= self.current);
                    assert(self.slot_spec(h, t as int) == win[t - self.confirmed]);
                    assert(win[t - self.confirmed] is Some);
                    assert(self.confirmed + (t - self.confirmed) < self.current);
                }
                assert(v@ =~= self.hist@[t as int]);
            }
            self.used = Ghost(self.used@.update(t as int, v@));
            proof {
                assert(self.used@.take(t as int) =~= pre_used.take(t as int));
                assert(self.used@.take(t + 1) =~= self.used@.take(t as int).push(v@));
                lemma_run_steps_push(self.step, self.init_world@, self.used@.take(t as int), v@);
            }
            w = self.step.advance(&w, &v);
            proof {
                // snapshots already rewritten keep their equation: their
                // prefixes end at or before `t`
                assert forall|s: int|
                    0 <= s < self.snaps@.len() implies match #[trigger] self.snaps@[s] {
                    Some(sn) => sn.tick < t + 1 ==> sn.world == run_steps(
                        self.step,
                        self.init_world@,
                        self.used@.take(sn.tick as int),
                    ),
                    None => true,
                } by {
                    match self.snaps@[s] {
                        Some(sn) => {
                            if sn.tick < t + 1 {
                                assert(self.used@.take(sn.tick as int) =~= pre_used.take(
                                    sn.tick as int,
                                ));
                            }
                        },
                        None => {},
                    }
                }
            }
            t = t + 1;
        }
        self.world = w;
        proof {
            assert(self.used@ =~= old(self).hist@);
            assert(self.used@.take(self.current as int) =~= self.used@);
            assert(self.snaps_wf());
        }
    }


    /// After every lane has been given a record at tick `t` by the
    /// prediction fill, the ledger and the windows agree again.
    #[verifier::spinoff_prover]
    proof fn lemma_ledger_after_fill(pre: Self, post: Self, t: u64)
        requires
            pre.struct_wf(),
            pre.ledger_wf(),
            pre.confirmed <= t,
            post.confirmed == pre.confirmed,
            post.lanes@.len() == pre.lanes@.len(),
            forall|h2: int, t2: int|
                #![trigger post.ledger@.dom().contains((h2, t2))]
                !(t2 == t && 0 <= h2 < pre.lanes@.len()) ==> (post.ledger@.dom().contains((
                    h2,
                    t2,
                )) == pre.ledger@.dom().contains((h2, t2)) && (pre.ledger@.dom().contains((
                    h2,
                    t2,
                )) ==> post.ledger@[(h2, t2)] == pre.ledger@[(h2, t2)])),
            forall|h2: int|
                0 <= h2 < pre.lanes@.len() ==> {
                    let ow = (#[trigger] pre.lanes@[h2]).window@;
                    let idx = t - pre.confirmed;
                    if idx >= ow.len() || ow[idx] is None {
                        &&& post.ledger@.dom().contains((h2, t as int))
                        &&& post.ledger@[(h2, t as int)] == InputRecord::Predicted(
                            pre.lanes@[h2].pred_frame,
                        )
                    } else {
                        &&& post.ledger@.dom().contains((h2, t as int)) == pre.ledger@.dom().contains(
                            (h2, t as int),
                        )
                        &&& (pre.ledger@.dom().contains((h2, t as int)) ==> post.ledger@[(
                            h2,
                            t as int,
                        )] == pre.ledger@[(h2, t as int)])
                    }
                },
            forall|h2: int|
                0 <= h2 < pre.lanes@.len() ==> {
                    let ow = (#[trigger] pre.lanes@[h2]).window@;
                    let nw = post.lanes@[h2].window@;
                    let idx = t - pre.confirmed;
                    &&& nw.len() == (if ow.len() < idx + 1 {
                        idx + 1
                    } else {
                        ow.len() as int
                    })
                    &&& forall|i: int|
                        0 <= i < nw.len() ==> #[trigger] nw[i] == (if i == idx && (i >= ow.len()
                            || ow[i] is None) {
                            Some(InputRecord::Predicted(pre.lanes@[h2].pred_frame))
                        } else if i < ow.len() {
                            ow[i]
                        } else {
                            None
                        })
                },
        ensures
            post.ledger_wf(),
    {
        assert(ledger_agrees(pre.lanes@, pre.confirmed, pre.ledger@));
        assert forall|h2: int, t2: int|
            #![trigger post.ledger@.dom().contains((h2, t2))]
            0 <= h2 < post.lanes@.len() && 0 <= t2 < post.confirmed implies post.ledger@.dom().contains(
            (h2, t2),
        ) && (post.ledger@[(h2, t2)] is Confirmed) by {
            let new_has = post.ledger@.dom().contains((h2, t2));
            assert(pre.ledger@.dom().contains((h2, t2)));
            assert(pre.ledger@[(h2, t2)] is Confirmed);
            assert(t2 != t);
            assert(new_has == pre.ledger@.dom().contains((h2, t2)));
        }
        assert forall|h2: int, t2: int|
            #![trigger post.ledger@.dom().contains((h2, t2))]
            0 <= h2 < post.lanes@.len() && post.confirmed <= t2 implies {
            let win = post.lanes@[h2].window@;
            if t2 < post.confirmed + win.len() {
                &&& ((win[t2 - post.confirmed] is Some) <==> post.ledger@.dom().contains((
                    h2,
                    t2,
                )))
                &&& ((win[t2 - post.confirmed] is Some) ==> post.ledger@[(h2, t2)] == win[t2
                    - post.confirmed]->0)
            } else {
                !post.ledger@.dom().contains((h2, t2))
            }
        } by {
            let win = post.lanes@[h2].window@;
            let ow = pre.lanes@[h2].window@;
            let idx = t - pre.confirmed;
            let old_has = pre.ledger@.dom().contains((h2, t2));
            if t2 == t {
                if idx >= ow.len() || ow[idx] is None {
                    assert(win[idx] == Some(InputRecord::Predicted(pre.lanes@[h2].pred_frame)));
                    assert(post.ledger@[(h2, t2)] == InputRecord::Predicted(
                        pre.lanes@[h2].pred_frame,
                    ));
                } else {
                    assert(win[idx] == ow[idx]);
                }
            } else {
                if post.confirmed <= t2 < post.confirmed + win.len() {
                    assert(win[t2 - post.confirmed] == (if t2 - post.confirmed < ow.len() {
                        ow[t2 - post.confirmed]
                    } else {
                        None
                    }));
                }
            }
        }
        assert(ledger_agrees(post.lanes@, post.confirmed, post.ledger@));
    }

    /// Run one tick: resolve any pending rollback, record the locally
    /// sampled frame for its delayed consumption tick, fill the gaps in the
    /// remote lanes with predictions, advance the simulation once, and move
    /// the confirmed frontier as far as the arrived inputs allow.  Returns
    /// the wire frame to broadcast — the sampled input, tagged with the tick
    /// that will consume it.  Fails only when a pending rollback reaches
    /// further back than the snapshot ring: that is a fatal desync, and the
    /// session terminates.
    #[verifier::rlimit(90)]
    pub fn tick(&mut self, sampled: u8) -> (r: Result<WireFrame, TickError>)
        requires
            old(self).wf(),
            old(self).phase_spec() != Phase::Terminated,
            // machine limits: the counters and the record window must stay
            // representable
            old(self).current_tick_spec() + old(self).input_delay_spec() + 1 <= u64::MAX,
            old(self).current_tick_spec() + old(self).input_delay_spec() + 1 - old(
                self,
            ).confirmed_spec() <= usize::MAX,
        ensures
            final(self).wf(),
            final(self).confirmed_spec() >= old(self).confirmed_spec(),
            final(self).players_spec() == old(self).players_spec(),
            final(self).seats_spec() == old(self).seats_spec(),
            final(self).local_handle_spec() == old(self).local_handle_spec(),
            final(self).input_delay_spec() == old(self).input_delay_spec(),
            final(self).depth_spec() == old(self).depth_spec(),
            final(self).step_spec() == old(self).step_spec(),
            final(self).init_world_spec() == old(self).init_world_spec(),
            // ticks at or below the confirmed frontier are never resimulated
            forall|t2: int|
                0 <= t2 < old(self).confirmed_spec() ==> final(self).used_inputs()[t2] == old(
                    self,
                ).used_inputs()[t2],
            // confirmed input, the local player's included, is never revised
            forall|h2: int, t2: int|
                #![trigger final(self).recorded(h2, t2)]
                old(self).recorded(h2, t2) is Some && (old(self).recorded(h2, t2)->0 is Confirmed)
                    ==> final(self).recorded(h2, t2) == old(self).recorded(h2, t2),
            match r {
                Ok(frame) => {
                    &&& !old(self).rollback_target_evicted()
                    &&& final(self).phase_spec() != Phase::Terminated
                    &&& final(self).phase_spec() == (if final(self).confirmed_spec() >= old(
                        self,
                    ).input_delay_spec() {
                        Phase::Running
                    } else {
                        Phase::Synchronizing
                    })
                    &&& final(self).current_tick_spec() == old(self).current_tick_spec() + 1
                    &&& final(self).rollback_from_spec() is None
                    &&& final(self).history() == old(self).history().push(
                        tick_input_vector(*old(self), sampled),
                    )
                    &&& final(self).used_inputs() == final(self).history()
                    &&& final(self).world_spec() == run_steps(
                        old(self).step_spec(),
                        old(self).init_world_spec(),
                        final(self).history(),
                    )
                    &&& frame.tick as int == (old(self).current_tick_spec() + old(
                        self,
                    ).input_delay_spec()) % (TICK_SPAN as int)
                    &&& frame.handle == old(self).local_handle_spec() as u8
                    &&& frame.bits == sampled
                    &&& final(self).recorded(
                        old(self).local_handle_spec(),
                        old(self).current_tick_spec() + old(self).input_delay_spec(),
                    ) == Some(InputRecord::Confirmed(sampled))
                    // the frontier advanced as far as the arrived inputs
                    // allow: at its stopping point some player's input is
                    // still uncertain
                    &&& (final(self).confirmed_spec() < final(self).current_tick_spec()
                        ==> exists|h2: int|
                        0 <= h2 < final(self).players_spec() && !(#[trigger] final(self).recorded(
                            h2,
                            final(self).confirmed_spec() as int,
                        ) matches Some(InputRecord::Confirmed(_))))
                },
                Err(TickError::SnapshotEvicted) => {
                    &&& old(self).rollback_target_evicted()
                    &&& final(self).phase_spec() == Phase::Terminated
                    &&& final(self).current_tick_spec() == old(self).current_tick_spec()
                    &&& final(self).confirmed_spec() == old(self).confirmed_spec()
                    &&& final(self).history() == old(self).history()
                    &&& final(self).used_inputs() == old(self).used_inputs()
                },
            },
    {
        let cur = self.current;
        let conf = self.confirmed;
        let delay = self.input_delay;
        // resolve a pending rollback before simulating further
        match self.rollback_from {
            Some(from) => {
                if cur - from > self.depth as u64 {
                    self.terminate();
                    return Err(TickError::SnapshotEvicted);
                }
                self.resimulate(from);
                self.rollback_from = None;
            },
            None => {},
        }
        proof {
            assert(self.struct_wf() && self.lanes_wf() && self.local_lane_wf()
                && self.snaps_wf());
            assert(self.ledger_wf()) by {
                assert(self.lanes@ == old(self).lanes@ && self.confirmed == old(self).confirmed
                    && self.ledger@ == old(self).ledger@);
                assert(old(self).ledger_wf());
            }
            assert(self.rollback_from is None);
            assert(forall|t2: int|
                0 <= t2 < self.current ==> #[trigger] self.used@[t2] == self.hist@[t2]);
            assert(self.world == run_steps(self.step, self.init_world@, self.used@));
            assert(self.used@ =~= self.hist@);
            assert(self.world == run_steps(self.step, self.init_world@, self.hist@));
        }
        // record the locally sampled frame for its consumption tick
        let consume = cur + delay;
        let ghost s1 = *self;
        {
            let mut lane = self.lanes.remove(self.local_handle);
            lane.window.push(Some(InputRecord::Confirmed(sampled)));
            self.lanes.insert(self.local_handle, lane);
        }
        self.ledger = Ghost(
            self.ledger@.insert(
                (self.local_handle as int, consume as int),
                InputRecord::Confirmed(sampled),
            ),
        );
        proof {
            assert(self.lanes@ =~= s1.lanes@.update(
                self.local_handle as int,
                self.lanes@[self.local_handle as int],
            ));
            assert(self.lanes@[self.local_handle as int].window@ == s1.lanes@[self.local_handle
                as int].window@.push(Some(InputRecord::Confirmed(sampled))));
            assert(self.struct_wf());
            assert(self.lanes_wf()) by {
                let lw = self.lanes@[self.local_handle as int].window@;
                assert(forall|i: int|
                    0 <= i < lw.len() - 1 ==> lw[i] == s1.lanes@[self.local_handle
                        as int].window@[i]);
                assert(lw[lw.len() - 1] == Some(InputRecord::Confirmed(sampled)));
                assert(self.confirmed + (lw.len() - 1) == self.current + self.input_delay);
            }
            assert(self.ledger_wf()) by {
                let lh = self.local_handle as int;
                let cs = consume as int;
                assert forall|h2: int, t2: int|
                    #![trigger self.ledger@.dom().contains((h2, t2))]
                    0 <= h2 < self.lanes@.len() && self.confirmed <= t2 implies {
                    let win = self.lanes@[h2].window@;
                    if t2 < self.confirmed + win.len() {
                        &&& ((win[t2 - self.confirmed] is Some)
                            <==> self.ledger@.dom().contains((h2, t2)))
                        &&& ((win[t2 - self.confirmed] is Some) ==> self.ledger@[(h2, t2)]
                            == win[t2 - self.confirmed]->0)
                    } else {
                        !self.ledger@.dom().contains((h2, t2))
                    }
                } by {
                    let win = self.lanes@[h2].window@;
                    let ow = s1.lanes@[h2].window@;
                    assert(s1.ledger_wf());
                    let old_has = s1.ledger@.dom().contains((h2, t2));
                    if h2 == lh {
                        assert(self.confirmed + (win.len() - 1) == cs);
                        if t2 == cs {
                            assert(win[t2 - self.confirmed] == Some(
                                InputRecord::Confirmed(sampled),
                            ));
                        } else if t2 < cs {
                            assert(win[t2 - self.confirmed] == ow[t2 - self.confirmed]);
                        }
                    } else {
                        assert(self.lanes@[h2] == s1.lanes@[h2]);
                    }
                }
            }
        }
        // synthesize predictions for the remote lanes that lack a record at
        // `cur`, then read off the full input vector
        let ghost s2 = *self;
        self.materialize_predictions(cur);
        let ghost s3 = *self;
        proof {
            assert forall|h: int| 0 <= h < self.players_spec() implies self.slot_spec(
                h,
                cur as int,
            ) is Some by {
                let ow = s2.lanes@[h].window@;
                let nw = self.lanes@[h].window@;
                let idx = cur - conf;
                assert(nw[idx] == (if idx == idx && (idx >= ow.len() || ow[idx] is None) {
                    Some(InputRecord::Predicted(s2.lanes@[h].pred_frame))
                } else if idx < ow.len() {
                    ow[idx]
                } else {
                    None
                }));
            }
            // the vector about to be consumed is the planned one, with the
            // fresh sample standing in for the local lane when there is no
            // delay
            assert forall|h: int| 0 <= h < self.players_spec() implies self.slot_spec(
                h,
                cur as int,
            )->0.spec_frame() == tick_input_vector(*old(self), sampled)[h] by {
                let ow = s2.lanes@[h].window@;
                let idx = cur - conf;
                if h == self.local_handle as int {
                    assert(ow == s1.lanes@[h].window@.push(Some(InputRecord::Confirmed(sampled))));
                    if delay == 0 {
                        assert(idx == ow.len() - 1);
                        assert(ow[idx] == Some(InputRecord::Confirmed(sampled)));
                    } else {
                        assert(idx < ow.len() - 1);
                        assert(ow[idx] == s1.lanes@[h].window@[idx]);
                        assert(ow[idx] is Some);
                        assert(old(self).slot_spec(h, cur as int) == ow[idx]);
                    }
                } else {
                    assert(self.lanes@[h].pred_frame == old(self).lanes@[h].pred_frame);
                    if conf <= cur < conf + ow.len() {
                        assert(old(self).slot_spec(h, cur as int) == ow[idx]);
                    } else {
                        assert(old(self).slot_spec(h, cur as int) is None);
                    }
                }
            }
Self::lemma_ledger_after_fill(s2, *self, cur);
            assert(self.ledger_wf());
        }
        let v = self.gather_known_inputs(cur);
        proof {
            assert(v@ =~= tick_input_vector(*old(self), sampled));
        }
        // snapshot the pre-state of `cur`, then advance
        let slot: usize = (cur % (self.depth as u64)) as usize;
        let snap_world = self.step.clone_world(&self.world);
        self.snaps.set(slot, Some(Snapshot { tick: cur, world: snap_world }));
        let ghost pre_used = self.used@;
        self.hist = Ghost(self.hist@.push(v@));
        self.used = Ghost(self.used@.push(v@));
        let new_world = self.step.advance(&self.world, &v);
        self.world = new_world;
        self.current = cur + 1;
        proof {
            vstd::arithmetic::div_mod::lemma_mod_decreases(cur as nat, self.depth as nat);
            assert(self.struct_wf());
            assert(self.snaps_wf()) by {
                assert forall|s: int|
                    0 <= s < self.snaps@.len() implies ((#[trigger] self.snaps@[s]) is Some <==> s
                    < self.current) && match self.snaps@[s] {
                    Some(sn) => {
                        &&& sn.tick < self.current
                        &&& sn.tick % (self.depth as u64) == s
                        &&& self.current <= sn.tick + self.depth
                        &&& sn.world == run_steps(
                            self.step,
                            self.init_world@,
                            self.used@.take(sn.tick as int),
                        )
                    },
                    None => true,
                } by {
                    if s == slot {
                        assert(self.snaps@[s] is Some);
                        assert(self.used@.take(cur as int) =~= pre_used);
                    } else {
                        if s < self.current && s >= cur {
                            // the one new tick's residue is `slot` itself
                            assert(s == cur);
                            vstd::arithmetic::div_mod::lemma_small_mod(
                                cur as nat,
                                self.depth as nat,
                            );
                        }
                        match s3.snaps@[s] {
                            Some(sn) => {
                                assert(self.used@.take(sn.tick as int) =~= pre_used.take(
                                    sn.tick as int,
                                ));
                                if cur + 1 > sn.tick + self.depth {
                                    // only the overwritten slot's occupant can
                                    // be that old
                                    assert(sn.tick == cur - self.depth);
                                    lemma_mod_multiples_vanish(
                                        -1,
                                        cur as int,
                                        self.depth as int,
                                    );
                                    assert(sn.tick % (self.depth as u64) == cur % (
                                    self.depth as u64));
                                    assert(false);
                                }
                            },
                            None => {},
                        }
                    }
                }
            }
            assert(self.lanes_wf()) by {
                assert forall|h: int| 0 <= h < self.lanes@.len() implies {
                    let win = (#[trigger] self.lanes@[h]).window@;
                    &&& self.confirmed + win.len() >= self.current
                    &&& forall|i: int|
                        0 <= i < win.len() ==> match #[trigger] win[i] {
                            Some(r) => {
                                &&& (self.confirmed + i < self.current ==> r.spec_frame()
                                    == self.hist@[self.confirmed + i][h])
                                &&& (r is Predicted ==> self.confirmed + i < self.current)
                            },
                            None => self.confirmed + i >= self.current,
                        }
                } by {
                    let win = self.lanes@[h].window@;
                    let ow = s2.lanes@[h].window@;
                    let idx = cur - conf;
                    assert(win.len() >= idx + 1);
                    assert forall|i: int| 0 <= i < win.len() implies match #[trigger] win[i] {
                        Some(r) => {
                            &&& (self.confirmed + i < self.current ==> r.spec_frame()
                                == self.hist@[self.confirmed + i][h])
                            &&& (r is Predicted ==> self.confirmed + i < self.current)
                        },
                        None => self.confirmed + i >= self.current,
                    } by {
                        if i == idx {
                            assert(self.slot_spec(h, cur as int) == win[idx]);
                            assert(win[idx]->0.spec_frame() == self.hist@[cur as int][h]);
                        } else if i < ow.len() {
                            assert(win[i] == ow[i]);
                        } else {
                            assert(win[i] is None);
                        }
                    }
                }
            }
            assert(self.local_lane_wf()) by {
                let lw = self.lanes@[self.local_handle as int].window@;
                let ow = s2.lanes@[self.local_handle as int].window@;
                assert(ow.len() >= cur - conf + 1);
                assert(lw.len() == ow.len());
                assert(forall|i: int| 0 <= i < lw.len() ==> lw[i] == ow[i]);
            }
            assert(self.run_wf()) by {
                lemma_run_steps_push(self.step, self.init_world@, pre_used, v@);
            }
            assert(self.ledger_wf()) by {
                assert(self.lanes@ == s3.lanes@ && self.confirmed == s3.confirmed && self.ledger@
                    == s3.ledger@);
                assert(s3.ledger_wf());
            }
        }
        // advance the confirmed frontier over the ticks every player has
        // confirmed
        let ghost s4 = *self;
        let mut scanning = true;
        while scanning && self.confirmed < self.current
            invariant
                self.struct_wf(),
                self.lanes_wf(),
                self.local_lane_wf(),
                self.snaps_wf(),
                self.run_wf(),
                self.ledger_wf(),
                self.confirmed >= s4.confirmed,
                self.current == s4.current,
                self.hist == s4.hist,
                self.used == s4.used,
                self.world == s4.world,
                self.snaps == s4.snaps,
                self.seats == s4.seats,
                self.local_handle == s4.local_handle,
                self.input_delay == s4.input_delay,
                self.depth == s4.depth,
                self.phase == s4.phase,
                self.rollback_from is None,
                self.step == s4.step,
                self.init_world == s4.init_world,
                self.ledger == s4.ledger,
                self.lanes@.len() == s4.lanes@.len(),
                !scanning ==> (self.confirmed < self.current ==> exists|h2: int|
                    0 <= h2 < self.lanes@.len() && !((#[trigger] self.lanes@[h2]).window@[0] matches Some(
                        InputRecord::Confirmed(_),
                    ))),
            decreases self.current - self.confirmed + (if scanning {
                1int
            } else {
                0int
            }),
        {
            proof {
                assert forall|h: int|
                    0 <= h < self.players_spec() implies (#[trigger] self.lanes@[h]).window@.len()
                    >= 1 by {
                    assert(self.confirmed + self.lanes@[h].window@.len() >= self.current);
                }
            }
            if self.front_all_confirmed() {
                let ghost pls = self.lanes@;
                let ghost pconf = self.confirmed;
                let n = self.lanes.len();
                let mut h: usize = 0;
                while h < n
                    invariant
                        h <= n,
                        n == self.lanes@.len(),
                        n == pls.len(),
                        self.confirmed == pconf,
                        forall|k: int|
                            0 <= k < n ==> (#[trigger] pls[k]).window@.len() >= 1,
                        forall|k: int|
                            0 <= k < n ==> (#[trigger] pls[k]).window@[0] matches Some(
                                InputRecord::Confirmed(_),
                            ),
                        forall|k: int|
                            h <= k < n ==> #[trigger] self.lanes@[k] == pls[k],
                        forall|k: int|
                            0 <= k < h ==> {
                                &&& (#[trigger] self.lanes@[k]).window@ == pls[k].window@.remove(
                                    0,
                                )
                                &&& self.lanes@[k].pred_frame == pls[k].pred_frame
                                &&& self.lanes@[k].pred_tick == pls[k].pred_tick
                                &&& self.lanes@[k].has_confirmed == pls[k].has_confirmed
                            },
                        self.current == s4.current,
                        self.hist == s4.hist,
                        self.used == s4.used,
                        self.world == s4.world,
                        self.snaps == s4.snaps,
                        self.seats == s4.seats,
                        self.local_handle == s4.local_handle,
                        self.input_delay == s4.input_delay,
                        self.depth == s4.depth,
                        self.phase == s4.phase,
                        self.rollback_from is None,
                        self.step == s4.step,
                        self.init_world == s4.init_world,
                        self.ledger == s4.ledger,
                    decreases n - h,
                {
                    let ghost pre = self.lanes@;
                    let mut lane = self.lanes.remove(h);
                    lane.window.remove(0);
                    self.lanes.insert(h, lane);
                    proof {
                        assert(self.lanes@ =~= pre.update(h as int, self.lanes@[h as int]));
                    }
                    h = h + 1;
                }
                self.confirmed = self.confirmed + 1;
                proof {
                    assert(self.struct_wf());
                    assert(self.lanes_wf()) by {
                        assert forall|k: int| 0 <= k < self.lanes@.len() implies {
                            let win = (#[trigger] self.lanes@[k]).window@;
                            &&& self.confirmed + win.len() >= self.current
                            &&& forall|i: int|
                                0 <= i < win.len() ==> match #[trigger] win[i] {
                                    Some(r) => {
                                        &&& (self.confirmed + i < self.current ==> r.spec_frame()
                                            == self.hist@[self.confirmed + i][k])
                                        &&& (r is Predicted ==> self.confirmed + i < self.current)
                                    },
                                    None => self.confirmed + i >= self.current,
                                }
                        } by {
                            let win = self.lanes@[k].window@;
                            let ow = pls[k].window@;
                            assert(win == ow.remove(0));
                            assert(pconf + ow.len() >= self.current);
                            assert forall|i: int|
                                0 <= i < win.len() implies match #[trigger] win[i] {
                                Some(r) => {
                                    &&& (self.confirmed + i < self.current ==> r.spec_frame()
                                        == self.hist@[self.confirmed + i][k])
                                    &&& (r is Predicted ==> self.confirmed + i < self.current)
                                },
                                None => self.confirmed + i >= self.current,
                            } by {
                                assert(win[i] == ow[i + 1]);
                            }
                        }
                    }
                    assert(self.local_lane_wf()) by {
                        let win = self.lanes@[self.local_handle as int].window@;
                        let ow = pls[self.local_handle as int].window@;
                        assert(win == ow.remove(0));
                    }
                    assert(self.ledger_wf()) by {
                        assert(ledger_agrees(pls, pconf, self.ledger@));
                        assert forall|h2: int, t2: int|
                            #![trigger self.ledger@.dom().contains((h2, t2))]
                            0 <= h2 < self.lanes@.len() && 0 <= t2
                            < self.confirmed implies self.ledger@.dom().contains((h2, t2)) && (
                        self.ledger@[(h2, t2)] is Confirmed) by {
                            if t2 == self.confirmed - 1 {
                                assert(pls[h2].window@[0] is Some);
                                assert(pconf <= t2 < pconf + pls[h2].window@.len());
                            }
                        }
                        assert forall|h2: int, t2: int|
                            #![trigger self.ledger@.dom().contains((h2, t2))]
                            0 <= h2 < self.lanes@.len() && self.confirmed <= t2 implies {
                            let win = self.lanes@[h2].window@;
                            if t2 < self.confirmed + win.len() {
                                &&& ((win[t2 - self.confirmed] is Some)
                                    <==> self.ledger@.dom().contains((h2, t2)))
                                &&& ((win[t2 - self.confirmed] is Some) ==> self.ledger@[(
                                    h2,
                                    t2,
                                )] == win[t2 - self.confirmed]->0)
                            } else {
                                !self.ledger@.dom().contains((h2, t2))
                            }
                        } by {
                            let win = self.lanes@[h2].window@;
                            let ow = pls[h2].window@;
                            assert(win == ow.remove(0));
                            let old_has = self.ledger@.dom().contains((h2, t2));
                            if self.confirmed <= t2 < self.confirmed + win.len() {
                                assert(win[t2 - self.confirmed] == ow[t2 - pconf]);
                            }
                        }
                    }
                }
            } else {
                scanning = false;
            }
        }
        // leave synchronization once the opening delay window is mutually
        // confirmed
        if self.confirmed >= self.input_delay {
            match self.phase {
                Phase::Synchronizing => {
                    self.phase = Phase::Running;
                },
                _ => {},
            }
        }
        let wire_tick: u32 = (consume % TICK_SPAN) as u32;
        proof {
            assert(consume % TICK_SPAN < TICK_SPAN);
            assert(self.used@ =~= self.hist@);
            let lh = self.local_handle as int;
            let cs = consume as int;
            // the local sample went to a slot nothing had recorded before,
            // and no later stage rewrites a confirmed entry
            assert(s1.ledger_wf());
            assert(!s1.ledger@.dom().contains((lh, cs)));
            assert(s2.ledger@ == s1.ledger@.insert((lh, cs), InputRecord::Confirmed(sampled)));
            assert(self.ledger@ == s3.ledger@);
            assert(self.recorded(lh, cs) == Some(InputRecord::Confirmed(sampled))) by {
                if delay == 0 {
                    assert(s2.lanes@[lh].window@[cur - conf] is Some);
                    assert(s3.ledger@.dom().contains((lh, cs)) == s2.ledger@.dom().contains((
                        lh,
                        cs,
                    )));
                    assert(s3.ledger@[(lh, cs)] == s2.ledger@[(lh, cs)]);
                } else {
                    assert(s3.ledger@.dom().contains((lh, cs)) == s2.ledger@.dom().contains((
                        lh,
                        cs,
                    )));
                    assert(s3.ledger@[(lh, cs)] == s2.ledger@[(lh, cs)]);
                }
            }
            assert forall|h2: int, t2: int|
                #![trigger self.recorded(h2, t2)]
                old(self).recorded(h2, t2) is Some && (old(self).recorded(h2, t2)->0
                    is Confirmed) implies self.recorded(h2, t2) == old(self).recorded(h2, t2) by {
                assert(s1.ledger@ == old(self).ledger@);
                if h2 == lh && t2 == cs {
                    assert(!old(self).ledger@.dom().contains((h2, t2)));
                } else {
                    assert(s2.ledger@.dom().contains((h2, t2)) == s1.ledger@.dom().contains((
                        h2,
                        t2,
                    )));
                    if t2 == cur as int && 0 <= h2 < s2.lanes@.len() {
                        // a prediction was only materialized where nothing
                        // was recorded
                        assert(s2.ledger_wf());
                        let had = s2.ledger@.dom().contains((h2, t2));
                        let ow = s2.lanes@[h2].window@;
                        if cur - conf >= ow.len() || ow[cur - conf] is None {
                            assert(!had);
                        } else {
                            assert(s3.ledger@.dom().contains((h2, t2)) == had);
                            assert(had ==> s3.ledger@[(h2, t2)] == s2.ledger@[(h2, t2)]);
                        }
                    } else {
                        assert(s3.ledger@.dom().contains((h2, t2)) == s2.ledger@.dom().contains(
                            (h2, t2),
                        ));
                        assert(s2.ledger@.dom().contains((h2, t2)) ==> s3.ledger@[(h2, t2)]
                            == s2.ledger@[(h2, t2)]);
                    }
                }
            }
            // where the frontier stopped short of the present, some input is
            // still uncertain
            if self.confirmed < self.current {
                let h2 = choose|h2: int|
                    0 <= h2 < self.lanes@.len() && !((#[trigger] self.lanes@[h2]).window@[0] matches Some(
                        InputRecord::Confirmed(_),
                    ));
                assert(ledger_agrees(self.lanes@, self.confirmed, self.ledger@));
                let has = self.ledger@.dom().contains((h2, self.confirmed as int));
                assert(self.confirmed + self.lanes@[h2].window@.len() >= self.current);
                assert(!(self.recorded(h2, self.confirmed as int) matches Some(
                    InputRecord::Confirmed(_),
                )));
            }
        }
        Ok(WireFrame { tick: wire_tick, handle: self.local_handle as u8, bits: sampled })
    }

    /// Stop the session for good and release its buffers.  Idempotent; the
    /// counters survive for inspection.
    pub fn terminate(&mut self)
        requires
            old(self).struct_wf(),
        ensures
            final(self).struct_wf(),
            final(self).phase_spec() == Phase::Terminated,
            final(self).current_tick_spec() == old(self).current_tick_spec(),
            final(self).confirmed_spec() == old(self).confirmed_spec(),
            final(self).players_spec() == old(self).players_spec(),
            final(self).seats_spec() == old(self).seats_spec(),
            final(self).local_handle_spec() == old(self).local_handle_spec(),
            final(self).input_delay_spec() == old(self).input_delay_spec(),
            final(self).depth_spec() == old(self).depth_spec(),
            final(self).step_spec() == old(self).step_spec(),
            final(self).init_world_spec() == old(self).init_world_spec(),
            final(self).history() == old(self).history(),
            final(self).used_inputs() == old(self).used_inputs(),
            forall|h2: int, t2: int|
                #![trigger final(self).recorded(h2, t2)]
                final(self).recorded(h2, t2) == old(self).recorded(h2, t2),
    {
        self.phase = Phase::Terminated;
        let n = self.lanes.len();
        let mut h: usize = 0;
        while h < n
            invariant
                h <= n,
                n == self.lanes@.len(),
                self.lanes@.len() == old(self).lanes@.len(),
                self.phase == Phase::Terminated,
                self.seats == old(self).seats,
                self.local_handle == old(self).local_handle,
                self.input_delay == old(self).input_delay,
                self.depth == old(self).depth,
                self.current == old(self).current,
                self.confirmed == old(self).confirmed,
                self.snaps@.len() == old(self).snaps@.len(),
                self.hist == old(self).hist,
                self.used == old(self).used,
                self.step == old(self).step,
                self.init_world == old(self).init_world,
                self.ledger == old(self).ledger,
            decreases n - h,
        {
            let mut lane = self.lanes.remove(h);
            lane.window = Vec::new();
            self.lanes.insert(h, lane);
            h = h + 1;
        }
        let d = self.snaps.len();
        let mut sidx: usize = 0;
        while sidx < d
            invariant
                sidx <= d,
                d == self.snaps@.len(),
                self.snaps@.len() == old(self).snaps@.len(),
                self.lanes@.len() == old(self).lanes@.len(),
                self.phase == Phase::Terminated,
                self.seats == old(self).seats,
                self.local_handle == old(self).local_handle,
                self.input_delay == old(self).input_delay,
                self.depth == old(self).depth,
                self.current == old(self).current,
                self.confirmed == old(self).confirmed,
                self.hist == old(self).hist,
                self.used == old(self).used,
                self.step == old(self).step,
                self.init_world == old(self).init_world,
                self.ledger == old(self).ledger,
            decreases d - sidx,
        {
            self.snaps.set(sidx, None);
            sidx = sidx + 1;
        }
        self.rollback_from = None;
    }

    /// Lifecycle phase, readable at run time.
    pub fn phase(&self) -> (p: Phase)
        ensures
            p == self.phase_spec(),
    {
        self.phase
    }

    /// The next tick to simulate.
    pub fn current_tick(&self) -> (t: u64)
        ensures
            t == self.current_tick_spec(),
    {
        self.current
    }

    /// The confirmed frontier: how many leading ticks have confirmed input
    /// from every player.
    pub fn confirmed_ticks(&self) -> (t: u64)
        ensures
            t == self.confirmed_spec(),
    {
        self.confirmed
    }

    /// Number of players in the session.
    pub fn num_players(&self) -> (n: usize)
        ensures
            n as int == self.players_spec(),
    {
        self.lanes.len()
    }

    /// The local player's handle.
    pub fn local_handle(&self) -> (h: usize)
        ensures
            h as int == self.local_handle_spec(),
    {
        self.local_handle
    }

    /// Ticks a sampled frame is held before consumption.
    pub fn input_delay(&self) -> (d: u64)
        ensures
            d == self.input_delay_spec(),
    {
        self.input_delay
    }

    /// Capacity of the snapshot ring.
    pub fn rollback_depth(&self) -> (d: usize)
        ensures
            d as u64 == self.depth_spec(),
    {
        self.depth
    }

    /// The identity seated at a handle.
    pub fn seat(&self, handle: usize) -> (p: PeerIdentity)
        requires
            self.struct_wf(),
            handle < self.players_spec(),
        ensures
            p == self.seats_spec()[handle as int],
    {
        self.seats[handle]
    }

    /// The current world state: the pre-state of tick `current`.
    pub fn world(&self) -> (w: &W)
        ensures
            w == self.world_spec(),
    {
        &self.world
    }

    /// Whether a rollback is pending, and from which tick.
    pub fn pending_rollback(&self) -> (r: Option<u64>)
        ensures
            r == self.rollback_from_spec(),
    {
        self.rollback_from
    }

    /// How many snapshots are live in the ring: one per simulated tick, the
    /// ring capacity at most — the fixed bound that makes rollback memory
    /// constant.
    pub fn live_snapshots(&self) -> (n: usize)
        requires
            self.wf(),
            self.phase_spec() != Phase::Terminated,
        ensures
            n as u64 <= self.depth_spec(),
            n as int == if self.current_tick_spec() < self.depth_spec() {
                self.current_tick_spec() as int
            } else {
                self.depth_spec() as int
            },
    {
        let mut n: usize = 0;
        let d = self.snaps.len();
        let mut s: usize = 0;
        while s < d
            invariant
                s <= d,
                d == self.snaps@.len(),
                self.wf(),
                self.phase_spec() != Phase::Terminated,
                n as int == if (s as int) < self.current_tick_spec() as int {
                    s as int
                } else {
                    self.current_tick_spec() as int
                },
            decreases d - s,
        {
            if self.snaps[s].is_some() {
                n = n + 1;
            }
            s = s + 1;
        }
        n
    }
}

/// The snapshot ring bound: a well-formed live session holds at most
/// `RollbackDepth` snapshots — one per ring slot, each slot holding at most
/// one.
pub proof fn lemma_ring_buffer_bound<W, S: SimulationStep<W>>(s: Session<W, S>)
    requires
        s.wf(),
    ensures
        s.live_snapshot_count() <= s.depth_spec(),
{
    s.snapshot_slots().lemma_filter_len(|o: Option<u64>| o is Some);
}

impl<W, S: SimulationStep<W>> Session<W, S> {
    /// The tick tags of the ring's slots, live slots only.
    pub closed spec fn snapshot_slots(self) -> Seq<Option<u64>> {
        self.snaps@.map_values(
            |o: Option<Snapshot<W>>|
                match o {
                    Some(sn) => Some(sn.tick),
                    None => None,
                },
        )
    }

    /// Number of live snapshots in the ring.
    pub closed spec fn live_snapshot_count(self) -> int {
        self.snapshot_slots().filter(|o: Option<u64>| o is Some).len() as int
    }

    /// Rollback convergence: whenever no rollback is pending — in
    /// particular right after `tick` has resolved one — the world equals the
    /// deterministic run of the best-known input schedule from the initial
    /// world.  That run is exactly what a zero-latency session, handed every
    /// corrected input from the start, would have computed.
    pub proof fn lemma_rollback_convergence(self)
        requires
            self.wf(),
            self.phase_spec() != Phase::Terminated,
            self.rollback_from_spec() is None,
        ensures
            self.world_spec() == run_steps(
                self.step_spec(),
                self.init_world_spec(),
                self.history(),
            ),
    {
        assert(self.used@ =~= self.hist@);
    }

    /// The confirmed frontier never exceeds the current tick: only
    /// simulated ticks are ever counted as confirmed.
    pub proof fn lemma_confirmed_at_most_current(self)
        requires
            self.wf(),
        ensures
            self.confirmed_spec() <= self.current_tick_spec(),
    {
    }

    /// The confirmed frontier never outruns the arrived inputs: every tick
    /// below it is backed by a confirmed record from every player.
    pub proof fn lemma_frontier_sound(self)
        requires
            self.wf(),
            self.phase_spec() != Phase::Terminated,
        ensures
            forall|h: int, t: int|
                0 <= h < self.players_spec() && 0 <= t < self.confirmed_spec() ==> (
                #[trigger] self.recorded(h, t)) is Some && (self.recorded(h, t)->0 is Confirmed),
    {
        assert forall|h: int, t: int|
            0 <= h < self.players_spec() && 0 <= t < self.confirmed_spec() implies (
        #[trigger] self.recorded(h, t)) is Some && (self.recorded(h, t)->0 is Confirmed) by {
            let has = self.ledger@.dom().contains((h, t));
        }
    }

    /// Every simulated tick has an input record — confirmed or predicted —
    /// for every handle: the simulation never ran on a missing input.
    pub proof fn lemma_simulated_ticks_recorded(self)
        requires
            self.wf(),
            self.phase_spec() != Phase::Terminated,
        ensures
            forall|h: int, t: int|
                0 <= h < self.players_spec() && 0 <= t < self.current_tick_spec() ==> (
                #[trigger] self.recorded(h, t)) is Some,
    {
        assert forall|h: int, t: int|
            0 <= h < self.players_spec() && 0 <= t < self.current_tick_spec() implies (
        #[trigger] self.recorded(h, t)) is Some by {
            let has = self.ledger@.dom().contains((h, t));
            if self.confirmed <= t {
                let win = self.lanes@[h].window@;
                assert(self.confirmed + win.len() >= self.current);
                assert(win[t - self.confirmed] is Some);
            }
        }
    }

    /// No rollback ever reaches at or below the confirmed frontier: a
    /// pending rollback point always lies between the frontier and the
    /// current tick, so only ticks whose inputs are still uncertain are ever
    /// resimulated.
    pub proof fn lemma_no_rollback_before_confirmed(self)
        requires
            self.wf(),
            self.phase_spec() != Phase::Terminated,
            self.rollback_from_spec() is Some,
        ensures
            self.confirmed_spec() <= self.rollback_from_spec()->0 < self.current_tick_spec(),
    {
    }
}

} // verus!
