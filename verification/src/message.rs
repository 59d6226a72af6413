//! What the two peers tell each other.

use vstd::prelude::*;
use crate::player::Player;

verus! {

/// One datagram's worth of news. A message carries no sequence number and asks for no
/// acknowledgment: it is a full snapshot, or an event applied when it arrives.
#[derive(Clone, Copy, Debug, PartialEq, Eq, Structural)]
pub enum Message {
    /// The sender's view of one slot.
    PlayerUpdate(Player),
    /// The host's inverse-control state; `time_left` is in microseconds.
    InverseControl { active: bool, time_left: u32 },
    /// The host saw the player of this slot walk into a trap.
    TrapEvent { player_id: u8 },
    /// The sender started the game afresh.
    GameReset,
}

impl Message {
    /// A message is well formed when the slot it names, if it names one, is 0 or 1.
    pub open spec fn wf(self) -> bool {
        match self {
            Message::PlayerUpdate(p) => p.id < 2,
            Message::TrapEvent { player_id } => player_id < 2,
            _ => true,
        }
    }

    /// Tells whether the message is well formed.
    pub fn is_wf(&self) -> (ok: bool)
        ensures
            ok == self.wf(),
    {
        match self {
            Message::PlayerUpdate(p) => p.id < 2,
            Message::TrapEvent { player_id } => *player_id < 2,
            _ => true,
        }
    }
}

/// Why a datagram was not taken for a message.
#[derive(Clone, Copy, Debug, PartialEq, Eq, Structural)]
pub enum DecodeError {
    /// The buffer ends before the frame does.
    Truncated,
    /// The frame starts with a kind that no message has.
    UnknownKind,
    /// The frame names a slot other than 0 and 1.
    InvalidSlot,
    /// A byte that stands for a flag is neither 0 nor 1.
    InvalidFlag,
}

} // verus!
