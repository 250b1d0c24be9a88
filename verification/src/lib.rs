//! Deterministic lockstep networking with rollback.
//!
//! Two or more peers run the same deterministic simulation and exchange one
//! small input frame per participant per tick.  Each peer simulates ahead by
//! predicting the inputs it has not yet received, and rolls the world back and
//! resimulates when a late arrival contradicts a prediction.  This crate holds
//! the synchronization core: handle negotiation from a discovered peer set,
//! the wire encoding of input frames, the per-tick input ledger, and the
//! rollback engine with its fixed-capacity snapshot ring.
//!
//! The simulation step itself is a parameter: any bit-reproducible function
//! from a world state and one input frame per handle to the next world state
//! (the `SimulationStep` trait).  Transports and matchmaking services stay
//! outside; the library consumes their outcomes as plain values.

use vstd::prelude::*;

pub mod engine;
pub mod identity;
pub mod input;
pub mod matchmaking;
pub mod negotiate;
pub mod step;
pub mod wire;
pub mod world;

verus! {

} // verus!
