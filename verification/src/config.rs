//! The game's fixed parameters, in the crate's integer units.

use vstd::prelude::*;

verus! {

/// Playfield width, in thousandths of a pixel.
pub const SCREEN_WIDTH: i32 = 1_200_000;

/// Playfield height, in thousandths of a pixel.
pub const SCREEN_HEIGHT: i32 = 800_000;

/// Radius of an avatar; positions driven by input stay this far inside the playfield.
pub const PLAYER_SIZE: i32 = 20_000;

/// Speed of a point driven by input, in thousandths of a pixel per second.
pub const PLAYER_SPEED: i32 = 200_000;

/// Speed at which a displayed point follows its network truth, in thousandths of a pixel per second.
pub const INTERPOLATION_SPEED: u32 = 10_000;

/// A slot whose last wire update is older than this, in microseconds, is snapped rather than interpolated.
pub const STALE_AFTER: u64 = 100_000;

/// Length of an inverse-control window, in microseconds.
pub const INVERSE_DURATION: u32 = 5_000_000;

/// Length of the pause between two inverse-control windows, in microseconds.
pub const INVERSE_COOLDOWN: u32 = 10_000_000;

/// A body closer than this to the rival's shadow is trapped, in thousandths of a pixel.
pub const TRAP_RADIUS: i32 = 50_000;

/// The game is over once a player has been trapped this many times.
pub const WIN_SCORE: u32 = 3;

/// How long the flash that follows a trap lasts, in microseconds.
pub const FLASH_DURATION: u32 = 1_000_000;

/// Least time between two periodic broadcasts, in microseconds.
pub const SEND_INTERVAL: u64 = 8_000;

/// Length of a unit direction component: an input of this size moves at full speed.
pub const UNIT: i32 = 1_000;

/// Component of a unit-length diagonal direction, `UNIT / sqrt(2)` rounded down.
pub const DIAGONAL: i32 = 707;

/// Microseconds in a second.
pub const MICROS_PER_SECOND: u32 = 1_000_000;

} // verus!
