//! State-synchronisation core of a two-peer duel played over datagrams.
//!
//! Every quantity is an integer: lengths are counted in thousandths of a
//! pixel, durations and timestamps in microseconds, and a direction in
//! thousandths of a unit vector. The frame loop that owns the socket, the
//! clock and the window converts at its edge and hands this crate plain
//! values; nothing here reads a clock or touches a socket.

pub mod codec;
pub mod config;
pub mod control;
pub mod frame;
pub mod game;
pub mod interp;
pub mod message;
pub mod player;
pub mod timer;
pub mod trap;
pub mod vec2;
