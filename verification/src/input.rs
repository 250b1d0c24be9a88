//! The input frame: one byte per player per tick.
//!
//! Four direction buttons and a fire button are packed into the low five bits
//! of a `u8`.  A frame is immutable once produced; everything the simulation
//! reads from it goes through the decoders here, so the bit layout is stated
//! in one place.

use vstd::prelude::*;

verus! {

/// Bit set while the up button is held.
pub const INPUT_UP: u8 = 1;
/// Bit set while the down button is held.
pub const INPUT_DOWN: u8 = 2;
/// Bit set while the left button is held.
pub const INPUT_LEFT: u8 = 4;
/// Bit set while the right button is held.
pub const INPUT_RIGHT: u8 = 8;
/// Bit set while the fire button is held.
pub const INPUT_FIRE: u8 = 16;

/// Whether the up bit is set in a frame.
pub open spec fn spec_up(bits: u8) -> bool {
    bits & INPUT_UP != 0
}

/// Whether the down bit is set in a frame.
pub open spec fn spec_down(bits: u8) -> bool {
    bits & INPUT_DOWN != 0
}

/// Whether the left bit is set in a frame.
pub open spec fn spec_left(bits: u8) -> bool {
    bits & INPUT_LEFT != 0
}

/// Whether the right bit is set in a frame.
pub open spec fn spec_right(bits: u8) -> bool {
    bits & INPUT_RIGHT != 0
}

/// Whether the fire bit is set in a frame.
pub open spec fn spec_fire(bits: u8) -> bool {
    bits & INPUT_FIRE != 0
}

/// Horizontal direction encoded in a frame: right minus left, in {-1, 0, 1}.
pub open spec fn spec_dx(bits: u8) -> int {
    (if spec_right(bits) { 1int } else { 0int }) - (if spec_left(bits) { 1int } else { 0int })
}

/// Vertical direction encoded in a frame: up minus down, in {-1, 0, 1}.
pub open spec fn spec_dy(bits: u8) -> int {
    (if spec_up(bits) { 1int } else { 0int }) - (if spec_down(bits) { 1int } else { 0int })
}

/// Pack the button state into a frame.
pub fn encode_input(up: bool, down: bool, left: bool, right: bool, fire: bool) -> (bits: u8)
    ensures
        bits == (if up {
            INPUT_UP
        } else {
            0
        }) | (if down {
            INPUT_DOWN
        } else {
            0
        }) | (if left {
            INPUT_LEFT
        } else {
            0
        }) | (if right {
            INPUT_RIGHT
        } else {
            0
        }) | (if fire {
            INPUT_FIRE
        } else {
            0
        }),
        spec_up(bits) == up,
        spec_down(bits) == down,
        spec_left(bits) == left,
        spec_right(bits) == right,
        spec_fire(bits) == fire,
{
    let u: u8 = if up { INPUT_UP } else { 0 };
    let d: u8 = if down { INPUT_DOWN } else { 0 };
    let l: u8 = if left { INPUT_LEFT } else { 0 };
    let r: u8 = if right { INPUT_RIGHT } else { 0 };
    let f: u8 = if fire { INPUT_FIRE } else { 0 };
    let bits: u8 = u | d | l | r | f;
    proof {
        assert((bits & 1u8 != 0) == (u == 1u8) && (bits & 2u8 != 0) == (d == 2u8) && (bits & 4u8
            != 0) == (l == 4u8) && (bits & 8u8 != 0) == (r == 8u8) && (bits & 16u8 != 0) == (f
            == 16u8)) by (bit_vector)
            requires
                bits == (u | d | l | r | f),
                u == 1u8 || u == 0u8,
                d == 2u8 || d == 0u8,
                l == 4u8 || l == 0u8,
                r == 8u8 || r == 0u8,
                f == 16u8 || f == 0u8,
        ;
    }
    bits
}

/// Whether a frame asks to fire.
pub fn fire(bits: u8) -> (b: bool)
    ensures
        b == spec_fire(bits),
{
    bits & INPUT_FIRE != 0
}

/// The direction a frame asks to move in, as a unit step on each axis.
pub fn direction(bits: u8) -> (d: (i8, i8))
    ensures
        d.0 as int == spec_dx(bits),
        d.1 as int == spec_dy(bits),
{
    let right: i8 = if bits & INPUT_RIGHT != 0 { 1 } else { 0 };
    let left: i8 = if bits & INPUT_LEFT != 0 { 1 } else { 0 };
    let up: i8 = if bits & INPUT_UP != 0 { 1 } else { 0 };
    let down: i8 = if bits & INPUT_DOWN != 0 { 1 } else { 0 };
    (right - left, up - down)
}

/// One player's input for one tick, as the engine's ledger keeps it: either
/// known with certainty or a local guess.
#[derive(Clone, Copy, PartialEq, Eq, Structural, Debug)]
pub enum InputRecord {
    /// Received from its owner, or authored locally: never revised.
    Confirmed(u8),
    /// A locally synthesized guess, standing in until the real frame arrives.
    Predicted(u8),
}

impl InputRecord {
    /// The frame carried, whichever certainty it has.
    pub open spec fn spec_frame(self) -> u8 {
        match self {
            InputRecord::Confirmed(bits) => bits,
            InputRecord::Predicted(bits) => bits,
        }
    }

    /// The frame carried, whichever certainty it has.
    pub fn frame(&self) -> (bits: u8)
        ensures
            bits == self.spec_frame(),
    {
        match self {
            InputRecord::Confirmed(bits) => *bits,
            InputRecord::Predicted(bits) => *bits,
        }
    }

    /// Whether the record is certain rather than guessed.
    pub fn is_confirmed(&self) -> (b: bool)
        ensures
            b == (self is Confirmed),
    {
        match self {
            InputRecord::Confirmed(_) => true,
            InputRecord::Predicted(_) => false,
        }
    }
}

} // verus!
