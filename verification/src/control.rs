//! Cross control: a peer's input moves the rival's shadow, or the rival's body
//! while inverse control is active.

use vstd::prelude::*;
use crate::config::{
    DIAGONAL,
    MICROS_PER_SECOND,
    PLAYER_SIZE,
    PLAYER_SPEED,
    SCREEN_HEIGHT,
    SCREEN_WIDTH,
    UNIT,
};
use crate::vec2::Vec2;

verus! {

/// The number of a pressed key: 1 when pressed, 0 when not.
pub open spec fn pressed(key: bool) -> int {
    if key {
        1
    } else {
        0
    }
}

/// The direction that the four direction keys ask for, in thousandths of a unit
/// vector. Opposite keys cancel. Along one axis the direction has length `UNIT`; along
/// both, each component is `DIAGONAL`, so that a diagonal is no faster than a straight
/// line. The y axis points down the screen.
pub open spec fn direction(right: bool, left: bool, up: bool, down: bool) -> Vec2 {
    let x = pressed(right) - pressed(left);
    let y = pressed(down) - pressed(up);
    let len = if x != 0 && y != 0 {
        DIAGONAL
    } else {
        UNIT
    };
    Vec2 { x: signed(x, len), y: signed(y, len) }
}

/// `len` with the sign of `sign`.
pub open spec fn signed(sign: int, len: i32) -> i32 {
    if sign > 0 {
        len
    } else if sign < 0 {
        (-len) as i32
    } else {
        0
    }
}

/// No direction is longer than a unit vector.
pub proof fn lemma_direction_is_unit_or_zero(right: bool, left: bool, up: bool, down: bool)
    ensures
        ({
            let d = direction(right, left, up, down);
            d.x * d.x + d.y * d.y <= UNIT * UNIT && (d.x * d.x + d.y * d.y == 0 <==> d == Vec2 {
                x: 0,
                y: 0,
            })
        }),
{
    let d = direction(right, left, up, down);
    assert(d.x * d.x == if d.x == 0 {
        0int
    } else if d.x == 707 || d.x == -707 {
        499_849int
    } else {
        1_000_000int
    }) by (nonlinear_arith)
        requires
            d.x == 0 || d.x == 707 || d.x == -707 || d.x == 1000 || d.x == -1000,
    ;
    assert(d.y * d.y == if d.y == 0 {
        0int
    } else if d.y == 707 || d.y == -707 {
        499_849int
    } else {
        1_000_000int
    }) by (nonlinear_arith)
        requires
            d.y == 0 || d.y == 707 || d.y == -707 || d.y == 1000 || d.y == -1000,
    ;
    assert(UNIT * UNIT == 1_000_000) by (nonlinear_arith)
        requires
            UNIT == 1000,
    ;
}

/// Computes the direction that the four direction keys ask for.
pub fn direction_from_keys(right: bool, left: bool, up: bool, down: bool) -> (d: Vec2)
    ensures
        d == direction(right, left, up, down),
{
    let mut x: i32 = 0;
    let mut y: i32 = 0;
    if right {
        x = x + 1;
    }
    if left {
        x = x - 1;
    }
    if up {
        y = y - 1;
    }
    if down {
        y = y + 1;
    }
    let len: i32 = if x != 0 && y != 0 {
        DIAGONAL
    } else {
        UNIT
    };
    Vec2 { x: with_sign(x, len), y: with_sign(y, len) }
}

fn with_sign(sign: i32, len: i32) -> (v: i32)
    requires
        0 <= len <= UNIT,
    ensures
        v == signed(sign as int, len),
{
    if sign > 0 {
        len
    } else if sign < 0 {
        -len
    } else {
        0
    }
}

/// The value nearest to `v` that lies between `lo` and `hi`.
pub open spec fn clamped(v: int, lo: int, hi: int) -> int {
    if v < lo {
        lo
    } else if v > hi {
        hi
    } else {
        v
    }
}

/// `d * num / den`, rounded toward zero.
pub open spec fn toward_zero(d: int, num: int, den: int) -> int {
    if d >= 0 {
        (d * num) / den
    } else {
        -((-d * num) / den)
    }
}

/// How far an input component of `c` thousandths moves a coordinate in `dt`
/// microseconds, rounded toward zero.
pub open spec fn displacement(c: int, dt: int) -> int {
    toward_zero(c, PLAYER_SPEED * dt, UNIT * MICROS_PER_SECOND)
}

/// A point after a frame of input: moved at the player speed along the input, then
/// brought back into the playfield inset by the avatar's radius.
pub open spec fn moved(p: Vec2, input: Vec2, dt: int) -> Vec2 {
    Vec2 {
        x: clamped(p.x + displacement(input.x as int, dt), PLAYER_SIZE as int, SCREEN_WIDTH - PLAYER_SIZE) as i32,
        y: clamped(p.y + displacement(input.y as int, dt), PLAYER_SIZE as int, SCREEN_HEIGHT - PLAYER_SIZE) as i32,
    }
}

/// Whatever the input, the moved point lies in the playfield inset by the avatar's radius.
pub proof fn lemma_moved_in_bounds(p: Vec2, input: Vec2, dt: int)
    ensures
        PLAYER_SIZE <= moved(p, input, dt).x <= SCREEN_WIDTH - PLAYER_SIZE,
        PLAYER_SIZE <= moved(p, input, dt).y <= SCREEN_HEIGHT - PLAYER_SIZE,
{
}

fn move_axis(v: i32, c: i32, dt: u32, hi: i32) -> (next: i32)
    requires
        PLAYER_SIZE <= hi,
    ensures
        next == clamped(v + displacement(c as int, dt as int), PLAYER_SIZE as int, hi as int),
{
    assert(PLAYER_SPEED * dt <= 200_000 * 0xffff_ffff && UNIT * MICROS_PER_SECOND
        == 1_000_000_000) by (nonlinear_arith)
        requires
            PLAYER_SPEED == 200_000,
            UNIT == 1_000,
            MICROS_PER_SECOND == 1_000_000,
            0 <= dt <= 0xffff_ffff,
    ;
    let rate: i128 = PLAYER_SPEED as i128 * dt as i128;
    let den: i128 = UNIT as i128 * MICROS_PER_SECOND as i128;
    let magnitude: i128 = if c >= 0 {
        c as i128
    } else {
        -(c as i128)
    };
    assert(0 <= magnitude * rate <= 0x8000_0000 * (200_000 * 0xffff_ffff)) by (nonlinear_arith)
        requires
            0 <= magnitude <= 0x8000_0000,
            0 <= rate <= 200_000 * 0xffff_ffff,
    ;
    let share: i128 = magnitude * rate / den;
    let sum: i128 = if c >= 0 {
        v as i128 + share
    } else {
        v as i128 - share
    };
    if sum < PLAYER_SIZE as i128 {
        PLAYER_SIZE
    } else if sum > hi as i128 {
        hi
    } else {
        sum as i32
    }
}

/// Moves a point by a frame of input.
pub fn move_point(p: Vec2, input: Vec2, dt: u32) -> (next: Vec2)
    ensures
        next == moved(p, input, dt as int),
{
    let x: i32 = move_axis(p.x, input.x, dt, SCREEN_WIDTH - PLAYER_SIZE);
    let y: i32 = move_axis(p.y, input.y, dt, SCREEN_HEIGHT - PLAYER_SIZE);
    Vec2 { x, y }
}

} // verus!
