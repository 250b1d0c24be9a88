//! Input-frame bit layout and the wire codec.

use rollback_core::input::{
    direction, encode_input, fire, InputRecord, INPUT_DOWN, INPUT_FIRE, INPUT_LEFT, INPUT_RIGHT,
    INPUT_UP,
};
use rollback_core::wire::{decode_frame, encode_frame, reconstruct_tick, WireFrame};

#[test]
fn encode_input_exact_bits() {
    assert_eq!(encode_input(false, false, false, false, false), 0);
    assert_eq!(encode_input(true, false, false, false, false), INPUT_UP);
    assert_eq!(encode_input(false, true, false, false, false), INPUT_DOWN);
    assert_eq!(encode_input(false, false, true, false, false), INPUT_LEFT);
    assert_eq!(encode_input(false, false, false, true, false), INPUT_RIGHT);
    assert_eq!(encode_input(false, false, false, false, true), INPUT_FIRE);
    assert_eq!(encode_input(true, true, true, true, true), 31);
}

#[test]
fn direction_decodes_axes() {
    assert_eq!(direction(0), (0, 0));
    assert_eq!(direction(INPUT_RIGHT), (1, 0));
    assert_eq!(direction(INPUT_LEFT), (-1, 0));
    assert_eq!(direction(INPUT_UP), (0, 1));
    assert_eq!(direction(INPUT_DOWN), (0, -1));
    // opposite buttons cancel
    assert_eq!(direction(INPUT_LEFT | INPUT_RIGHT), (0, 0));
    assert_eq!(direction(INPUT_UP | INPUT_RIGHT), (1, 1));
}

#[test]
fn fire_reads_its_bit() {
    assert!(!fire(0));
    assert!(fire(INPUT_FIRE));
    assert!(fire(INPUT_FIRE | INPUT_UP));
    assert!(!fire(INPUT_UP | INPUT_DOWN | INPUT_LEFT | INPUT_RIGHT));
}

#[test]
fn input_record_accessors() {
    let c = InputRecord::Confirmed(7);
    let p = InputRecord::Predicted(9);
    assert_eq!(c.frame(), 7);
    assert_eq!(p.frame(), 9);
    assert!(c.is_confirmed());
    assert!(!p.is_confirmed());
}

#[test]
fn wire_frame_exact_bytes() {
    let f = WireFrame { tick: 0x0102_0304, handle: 7, bits: 31 };
    let b = encode_frame(&f);
    assert_eq!(b, vec![0x04, 0x03, 0x02, 0x01, 7, 31]);
}

#[test]
fn wire_frame_round_trip() {
    let f = WireFrame { tick: 0xDEAD_BEEF, handle: 255, bits: 0 };
    let b = encode_frame(&f);
    assert_eq!(decode_frame(&b), Some(f));
}

#[test]
fn decode_rejects_wrong_length() {
    assert_eq!(decode_frame(&vec![]), None);
    assert_eq!(decode_frame(&vec![1, 2, 3, 4, 5]), None);
    assert_eq!(decode_frame(&vec![1, 2, 3, 4, 5, 6, 7]), None);
}

#[test]
fn reconstruct_tick_plain() {
    assert_eq!(reconstruct_tick(0, 5), 5);
    assert_eq!(reconstruct_tick(100, 100), 100);
    assert_eq!(reconstruct_tick(1000, 998), 998);
}

#[test]
fn reconstruct_tick_across_wrap() {
    // the session has just crossed a 32-bit boundary; a straggler from
    // before the wrap resolves below it
    let current: u64 = 0x1_0000_0005;
    assert_eq!(reconstruct_tick(current, 0xFFFF_FFFE), 0xFFFF_FFFE);
    // and a frame from after the wrap resolves above it
    assert_eq!(reconstruct_tick(current, 0x0000_0008), 0x1_0000_0008);
    // far into a session, the congruent value nearest the receiver wins
    let current: u64 = (5 << 32) + 10;
    assert_eq!(reconstruct_tick(current, 0xFFFF_FFF0), (4 << 32) + 0xFFFF_FFF0);
    assert_eq!(reconstruct_tick(current, 12), (5 << 32) + 12);
}
