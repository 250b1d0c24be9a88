//! A small deterministic arena world, used to exercise the engine.
//!
//! Rollback demands a bit-reproducible step, so this world keeps every
//! quantity in integers: two players on a square grid, each with a position,
//! the position it held before the last step (for a renderer to interpolate
//! from), a facing direction, and a fire cooldown.  A step applies each
//! player's direction bits, clamps the result to the arena, and counts shots
//! while the fire bit is held with the cooldown clear.

use vstd::prelude::*;
use crate::input;
use crate::step::SimulationStep;

verus! {

/// Half the arena's side length: positions stay in `[-ARENA_HALF_EXTENT,
/// ARENA_HALF_EXTENT]` on both axes.
pub const ARENA_HALF_EXTENT: i64 = 20;

/// Grid cells a player advances per tick.
pub const MOVE_SPEED: i64 = 1;

/// A position on the arena grid.
#[derive(Clone, Copy, PartialEq, Eq, Structural, Debug)]
pub struct Pos {
    /// Horizontal cell coordinate.
    pub x: i64,
    /// Vertical cell coordinate.
    pub y: i64,
}

/// The position a player held before the last step; a renderer interpolates
/// between this and `Pos`.
#[derive(Clone, Copy, PartialEq, Eq, Structural, Debug)]
pub struct PrevPos {
    /// Horizontal cell coordinate.
    pub x: i64,
    /// Vertical cell coordinate.
    pub y: i64,
}

/// The direction a player faces, one unit step per axis.
#[derive(Clone, Copy, PartialEq, Eq, Structural, Debug)]
pub struct MoveDir {
    /// Horizontal component, in {-1, 0, 1}.
    pub dx: i64,
    /// Vertical component, in {-1, 0, 1}.
    pub dy: i64,
}

/// One player's share of the world.
#[derive(Clone, Copy, PartialEq, Eq, Structural, Debug)]
pub struct PlayerState {
    /// Where the player stands.
    pub pos: Pos,
    /// Where the player stood before the last step.
    pub prev: PrevPos,
    /// Which way the player faces.
    pub dir: MoveDir,
    /// Whether the fire button has been released since the last shot.
    pub bullet_ready: bool,
    /// Shots fired so far.
    pub shots: u32,
}

/// The whole world: a two-player arena.
#[derive(Clone, Copy, PartialEq, Eq, Structural, Debug)]
pub struct ArenaWorld {
    /// The player at handle 0.
    pub p0: PlayerState,
    /// The player at handle 1.
    pub p1: PlayerState,
}

/// Clamp a coordinate into the arena.
pub open spec fn spec_clamp(v: int) -> int {
    if v < -ARENA_HALF_EXTENT {
        -ARENA_HALF_EXTENT as int
    } else if v > ARENA_HALF_EXTENT {
        ARENA_HALF_EXTENT as int
    } else {
        v
    }
}

/// One player advanced by one frame of input.
pub open spec fn spec_step_player(p: PlayerState, bits: u8) -> PlayerState {
    let dx = input::spec_dx(bits);
    let dy = input::spec_dy(bits);
    let moved = if dx == 0 && dy == 0 {
        PlayerState { prev: PrevPos { x: p.pos.x, y: p.pos.y }, ..p }
    } else {
        PlayerState {
            pos: Pos {
                x: spec_clamp(p.pos.x + dx * MOVE_SPEED) as i64,
                y: spec_clamp(p.pos.y + dy * MOVE_SPEED) as i64,
            },
            prev: PrevPos { x: p.pos.x, y: p.pos.y },
            dir: MoveDir { dx: dx as i64, dy: dy as i64 },
            ..p
        }
    };
    if input::spec_fire(bits) {
        if moved.bullet_ready {
            PlayerState {
                bullet_ready: false,
                shots: if moved.shots < u32::MAX { (moved.shots + 1) as u32 } else { moved.shots },
                ..moved
            }
        } else {
            moved
        }
    } else {
        PlayerState { bullet_ready: true, ..moved }
    }
}

/// Advance one player by one frame of input.
fn step_player(p: &PlayerState, bits: u8) -> (next: PlayerState)
    ensures
        next == spec_step_player(*p, bits),
{
    let (dx8, dy8) = input::direction(bits);
    let dx = dx8 as i64;
    let dy = dy8 as i64;
    let mut next = *p;
    next.prev = PrevPos { x: p.pos.x, y: p.pos.y };
    if !(dx == 0 && dy == 0) {
        next.pos = Pos { x: clamp_coord(p.pos.x, dx), y: clamp_coord(p.pos.y, dy) };
        next.dir = MoveDir { dx, dy };
    }
    if input::fire(bits) {
        if next.bullet_ready {
            next.bullet_ready = false;
            if next.shots < u32::MAX {
                next.shots = next.shots + 1;
            }
        }
    } else {
        next.bullet_ready = true;
    }
    next
}

/// Clamp `v + d * MOVE_SPEED` into the arena without overflowing.
fn clamp_coord(v: i64, d: i64) -> (r: i64)
    requires
        -1 <= d <= 1,
    ensures
        r as int == spec_clamp(v + d * MOVE_SPEED),
{
    let moved: i128 = v as i128 + (d * MOVE_SPEED) as i128;
    if moved < -ARENA_HALF_EXTENT as i128 {
        -ARENA_HALF_EXTENT
    } else if moved > ARENA_HALF_EXTENT as i128 {
        ARENA_HALF_EXTENT
    } else {
        moved as i64
    }
}

impl ArenaWorld {
    /// The opening world: the players face each other across the middle of
    /// the arena, cooldowns clear.
    pub fn new() -> (w: ArenaWorld)
        ensures
            w == ArenaWorld::spec_new(),
    {
        let p0 = PlayerState {
            pos: Pos { x: -2, y: 0 },
            prev: PrevPos { x: -2, y: 0 },
            dir: MoveDir { dx: -1, dy: 0 },
            bullet_ready: true,
            shots: 0,
        };
        let p1 = PlayerState {
            pos: Pos { x: 2, y: 0 },
            prev: PrevPos { x: 2, y: 0 },
            dir: MoveDir { dx: 1, dy: 0 },
            bullet_ready: true,
            shots: 0,
        };
        ArenaWorld { p0, p1 }
    }

    /// The opening world.
    pub open spec fn spec_new() -> ArenaWorld {
        ArenaWorld {
            p0: PlayerState {
                pos: Pos { x: -2i64, y: 0i64 },
                prev: PrevPos { x: -2i64, y: 0i64 },
                dir: MoveDir { dx: -1i64, dy: 0i64 },
                bullet_ready: true,
                shots: 0u32,
            },
            p1: PlayerState {
                pos: Pos { x: 2i64, y: 0i64 },
                prev: PrevPos { x: 2i64, y: 0i64 },
                dir: MoveDir { dx: 1i64, dy: 0i64 },
                bullet_ready: true,
                shots: 0u32,
            },
        }
    }
}

/// The arena world's deterministic step: handle 0 drives `p0`, handle 1
/// drives `p1`.
#[derive(Clone, Copy, PartialEq, Eq, Structural, Debug)]
pub struct ArenaStep;

impl SimulationStep<ArenaWorld> for ArenaStep {
    open spec fn player_count(&self) -> int {
        2
    }

    open spec fn advance_spec(&self, world: ArenaWorld, inputs: Seq<u8>) -> ArenaWorld {
        ArenaWorld {
            p0: spec_step_player(world.p0, inputs[0]),
            p1: spec_step_player(world.p1, inputs[1]),
        }
    }

    fn player_count_exec(&self) -> (n: usize) {
        2
    }

    fn advance(&self, world: &ArenaWorld, inputs: &Vec<u8>) -> (next: ArenaWorld) {
        ArenaWorld {
            p0: step_player(&world.p0, inputs[0]),
            p1: step_player(&world.p1, inputs[1]),
        }
    }

    fn clone_world(&self, world: &ArenaWorld) -> (copy: ArenaWorld) {
        *world
    }
}

} // verus!
