//! The arena world's deterministic step, and replay determinism.

use rollback_core::input::{INPUT_FIRE, INPUT_RIGHT, INPUT_UP};
use rollback_core::step::{replay, SimulationStep};
use rollback_core::world::{ArenaStep, ArenaWorld, MoveDir, Pos, PrevPos, ARENA_HALF_EXTENT};

#[test]
fn opening_world() {
    let w = ArenaWorld::new();
    assert_eq!(w.p0.pos, Pos { x: -2, y: 0 });
    assert_eq!(w.p1.pos, Pos { x: 2, y: 0 });
    assert_eq!(w.p0.dir, MoveDir { dx: -1, dy: 0 });
    assert_eq!(w.p1.dir, MoveDir { dx: 1, dy: 0 });
    assert!(w.p0.bullet_ready && w.p1.bullet_ready);
    assert_eq!(w.p0.shots, 0);
}

#[test]
fn step_moves_and_remembers_prev() {
    let step = ArenaStep;
    let w = ArenaWorld::new();
    let w1 = step.advance(&w, &vec![INPUT_RIGHT, INPUT_UP]);
    assert_eq!(w1.p0.pos, Pos { x: -1, y: 0 });
    assert_eq!(w1.p0.prev, PrevPos { x: -2, y: 0 });
    assert_eq!(w1.p0.dir, MoveDir { dx: 1, dy: 0 });
    assert_eq!(w1.p1.pos, Pos { x: 2, y: 1 });
    assert_eq!(w1.p1.prev, PrevPos { x: 2, y: 0 });
    // no buttons: stay put, keep facing, remember where we stood
    let w2 = step.advance(&w1, &vec![0, 0]);
    assert_eq!(w2.p0.pos, Pos { x: -1, y: 0 });
    assert_eq!(w2.p0.prev, PrevPos { x: -1, y: 0 });
    assert_eq!(w2.p0.dir, MoveDir { dx: 1, dy: 0 });
}

#[test]
fn step_clamps_at_the_wall() {
    let step = ArenaStep;
    let mut w = ArenaWorld::new();
    w.p0.pos = Pos { x: ARENA_HALF_EXTENT, y: ARENA_HALF_EXTENT };
    let w1 = step.advance(&w, &vec![INPUT_RIGHT | INPUT_UP, 0]);
    assert_eq!(w1.p0.pos, Pos { x: ARENA_HALF_EXTENT, y: ARENA_HALF_EXTENT });
}

#[test]
fn fire_needs_a_release_between_shots() {
    let step = ArenaStep;
    let w = ArenaWorld::new();
    let w1 = step.advance(&w, &vec![INPUT_FIRE, 0]);
    assert_eq!(w1.p0.shots, 1);
    assert!(!w1.p0.bullet_ready);
    // holding fire does not shoot again
    let w2 = step.advance(&w1, &vec![INPUT_FIRE, 0]);
    assert_eq!(w2.p0.shots, 1);
    // releasing rearms, firing again shoots
    let w3 = step.advance(&w2, &vec![0, 0]);
    assert!(w3.p0.bullet_ready);
    let w4 = step.advance(&w3, &vec![INPUT_FIRE, 0]);
    assert_eq!(w4.p0.shots, 2);
}

#[test]
fn replay_is_deterministic() {
    // a fixed initial world and a fixed per-tick input schedule give
    // bit-identical states on every run
    let step = ArenaStep;
    let mut schedule: Vec<Vec<u8>> = Vec::new();
    for t in 0..32u8 {
        schedule.push(vec![t % 32, (31 - t) % 32]);
    }
    let a = replay(&step, ArenaWorld::new(), &schedule);
    let b = replay(&step, ArenaWorld::new(), &schedule);
    assert_eq!(a, b);
}
