//! The wire format of one input frame.
//!
//! Each frame travels as 6 bytes: the tick number's low 32 bits in
//! little-endian order, the sender's player handle, and the input bits.  The
//! channel underneath may reorder, duplicate or delay frames; it never
//! corrupts them silently, so no checksum is added here.
//!
//! Wrap policy: the engine counts ticks in a `u64`, which never wraps in any
//! session this side of geological time, while the wire carries only the low
//! 32 bits.  A receiver widens a wire tick back to 64 bits by picking the
//! value congruent to it modulo 2^32 that lies in a half-span window around
//! its own current tick (`reconstruct_tick`).  That choice is unambiguous as
//! long as sender and receiver stay within 2^31 ticks of each other, a bound
//! astronomically beyond any tolerable peer drift.

use vstd::prelude::*;
use vstd::arithmetic::div_mod::{lemma_fundamental_div_mod, lemma_mod_multiples_vanish};

verus! {

/// One tick's input from one player, as it travels between peers.
#[derive(Clone, Copy, PartialEq, Eq, Structural, Debug)]
pub struct WireFrame {
    /// Low 32 bits of the tick at which the frame is to be consumed.
    pub tick: u32,
    /// Handle of the player that authored the frame.
    pub handle: u8,
    /// The packed input bits.
    pub bits: u8,
}

/// Number of bytes a frame occupies on the wire.
pub const WIRE_FRAME_LEN: usize = 6;

/// The tick numbers representable on the wire: 2^32.
pub const TICK_SPAN: u64 = 0x1_0000_0000;

/// Half of `TICK_SPAN`: the reach of the wrap window on either side.
pub const TICK_HALF_SPAN: u64 = 0x8000_0000;

/// The 6 bytes that encode a frame.
pub open spec fn spec_encode_frame(f: WireFrame) -> Seq<u8> {
    seq![
        (f.tick & 0xff) as u8,
        ((f.tick >> 8) & 0xff) as u8,
        ((f.tick >> 16) & 0xff) as u8,
        ((f.tick >> 24) & 0xff) as u8,
        f.handle,
        f.bits,
    ]
}

/// The tick number recomposed from the first four bytes of a frame.
pub open spec fn spec_decode_tick(b: Seq<u8>) -> u32 {
    (b[0] as u32) | ((b[1] as u32) << 8) | ((b[2] as u32) << 16) | ((b[3] as u32) << 24)
}

/// Encode a frame into its 6 wire bytes.
pub fn encode_frame(f: &WireFrame) -> (b: Vec<u8>)
    ensures
        b@ == spec_encode_frame(*f),
{
    let mut b: Vec<u8> = Vec::new();
    b.push((f.tick & 0xff) as u8);
    b.push(((f.tick >> 8) & 0xff) as u8);
    b.push(((f.tick >> 16) & 0xff) as u8);
    b.push(((f.tick >> 24) & 0xff) as u8);
    b.push(f.handle);
    b.push(f.bits);
    proof {
        assert(b@ =~= spec_encode_frame(*f));
    }
    b
}

/// Decode 6 wire bytes back into a frame; anything of another length is
/// rejected.
pub fn decode_frame(b: &Vec<u8>) -> (r: Option<WireFrame>)
    ensures
        (r is Some) <==> b@.len() == WIRE_FRAME_LEN,
        r matches Some(f) ==> f == (WireFrame {
            tick: spec_decode_tick(b@),
            handle: b@[4],
            bits: b@[5],
        }),
{
    if b.len() != WIRE_FRAME_LEN {
        return None;
    }
    let tick: u32 = (b[0] as u32) | ((b[1] as u32) << 8) | ((b[2] as u32) << 16) | ((b[3]
        as u32) << 24);
    Some(WireFrame { tick, handle: b[4], bits: b[5] })
}

/// Decoding undoes encoding: the 6 bytes of a frame carry it exactly.
pub proof fn lemma_wire_round_trip(f: WireFrame)
    ensures
        spec_encode_frame(f).len() == WIRE_FRAME_LEN,
        spec_decode_tick(spec_encode_frame(f)) == f.tick,
        spec_encode_frame(f)[4] == f.handle,
        spec_encode_frame(f)[5] == f.bits,
{
    let t = f.tick;
    assert(((t & 0xff) as u8 as u32) | ((((t >> 8) & 0xff) as u8 as u32) << 8) | ((((t >> 16)
        & 0xff) as u8 as u32) << 16) | ((((t >> 24) & 0xff) as u8 as u32) << 24) == t)
        by (bit_vector);
}

/// The wrap window around `current`: the half-open span of 64-bit ticks that
/// wire ticks are widened into.  It reaches `TICK_HALF_SPAN` below `current`
/// (clipped at zero) and spans `TICK_SPAN` values (clipped at `u64::MAX`).
pub open spec fn wrap_window_lo(current: u64) -> int {
    if current >= TICK_HALF_SPAN {
        current - TICK_HALF_SPAN
    } else {
        0
    }
}

/// Upper bound (exclusive) of the wrap window around `current`.
pub open spec fn wrap_window_hi(current: u64) -> int {
    if wrap_window_lo(current) + TICK_SPAN <= u64::MAX + 1 {
        wrap_window_lo(current) + TICK_SPAN
    } else {
        u64::MAX + 1
    }
}

/// Whether `t` lies in the wrap window around `current`.
pub open spec fn in_wrap_window(t: int, current: u64) -> bool {
    wrap_window_lo(current) <= t < wrap_window_hi(current)
}

/// Two integers congruent modulo `m` and less than `m` apart are equal: the
/// soundness core of the wrap policy, and of ring-slot addressing by residue.
pub proof fn lemma_congruent_close_equal(a: int, b: int, m: int)
    requires
        m > 0,
        a % m == b % m,
        -m < a - b < m,
    ensures
        a == b,
{
    lemma_fundamental_div_mod(a, m);
    lemma_fundamental_div_mod(b, m);
    let k = a / m - b / m;
    assert(a - b == m * k) by (nonlinear_arith)
        requires
            a == m * (a / m) + a % m,
            b == m * (b / m) + b % m,
            a % m == b % m,
            k == a / m - b / m,
    ;
    assert(k == 0) by (nonlinear_arith)
        requires
            -m < m * k < m,
            m > 0,
    ;
}

/// Widen a wire tick to 64 bits: the value congruent to `low` modulo
/// `TICK_SPAN` inside the wrap window around `current`.  When the window is
/// clipped so hard that no congruent value lies inside it (only near tick 0
/// or near `u64::MAX`), the congruent value nearest `current`'s own span is
/// returned instead.
pub fn reconstruct_tick(current: u64, low: u32) -> (t: u64)
    ensures
        t % TICK_SPAN == low as u64,
        forall|u: int|
            0 <= u <= u64::MAX && u % (TICK_SPAN as int) == low && in_wrap_window(u, current)
                ==> u == t,
{
    let span_start: u64 = current - (current % TICK_SPAN);
    let base: u64 = span_start + (low as u64);
    let lo: u64 = if current >= TICK_HALF_SPAN {
        current - TICK_HALF_SPAN
    } else {
        0
    };
    proof {
        lemma_fundamental_div_mod(current as int, TICK_SPAN as int);
        assert(span_start == TICK_SPAN * (current / TICK_SPAN));
        lemma_mod_multiples_vanish((current / TICK_SPAN) as int, low as int, TICK_SPAN as int);
        assert(base % TICK_SPAN == low as u64 % TICK_SPAN);
        assert(low as u64 % TICK_SPAN == low as u64) by (bit_vector);
        assert(base % TICK_SPAN == low as u64);
    }
    let t: u64 = if base < lo {
        if base <= u64::MAX - TICK_SPAN {
            proof {
                lemma_mod_multiples_vanish(1, base as int, TICK_SPAN as int);
            }
            base + TICK_SPAN
        } else {
            base
        }
    } else {
        if base - lo >= TICK_SPAN {
            proof {
                lemma_mod_multiples_vanish(-1, (base - TICK_SPAN) as int, TICK_SPAN as int);
            }
            base - TICK_SPAN
        } else {
            base
        }
    };
    proof {
        assert forall|u: int|
            0 <= u <= u64::MAX && u % (TICK_SPAN as int) == low && in_wrap_window(u, current)
                implies u == t by {
            if in_wrap_window(t as int, current) {
                lemma_congruent_close_equal(u, t as int, TICK_SPAN as int);
            } else {
                // t is outside the window only where no congruent value fits in
                // it at all; a congruent u inside would contradict that.
                lemma_congruent_close_equal(u, base as int, TICK_SPAN as int);
            }
        }
    }
    t
}

} // verus!
