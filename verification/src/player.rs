//! One player's record: the body, the shadow, and the count of traps it fell into.

use vstd::prelude::*;
use crate::vec2::Vec2;

verus! {

/// The record of one slot.
#[derive(Clone, Copy, Debug, PartialEq, Eq, Structural)]
pub struct Player {
    /// The slot this record belongs to, 0 or 1.
    pub id: u8,
    /// Where the body is.
    pub pos: Vec2,
    /// Where the shadow is.
    pub shadow_pos: Vec2,
    /// How often this player has been trapped.
    pub score: u32,
    /// Whether the body is inside the rival's trap right now.
    pub is_trapped: bool,
}

/// Where a slot's body stands when a session starts: left of centre for slot 0, right of it for slot 1.
pub open spec fn initial_pos(slot: int) -> Vec2 {
    if slot == 0 {
        Vec2 { x: 360_000, y: 400_000 }
    } else {
        Vec2 { x: 840_000, y: 400_000 }
    }
}

/// Where a slot's shadow stands when a session starts: a hundred pixels below the body
/// for slot 0, a hundred above for slot 1.
pub open spec fn initial_shadow_pos(slot: int) -> Vec2 {
    if slot == 0 {
        Vec2 { x: 360_000, y: 500_000 }
    } else {
        Vec2 { x: 840_000, y: 300_000 }
    }
}

/// The record a slot starts a session with.
pub open spec fn initial_player(slot: int) -> Player {
    Player {
        id: slot as u8,
        pos: initial_pos(slot),
        shadow_pos: initial_shadow_pos(slot),
        score: 0,
        is_trapped: false,
    }
}

/// A score after one more trap; it stops at the largest value the field can hold.
pub open spec fn score_after_trap(score: u32) -> u32 {
    if score < u32::MAX {
        (score + 1) as u32
    } else {
        score
    }
}

impl Player {
    /// The record a slot starts a session with.
    pub fn initial(slot: u8) -> (p: Player)
        requires
            slot < 2,
        ensures
            p == initial_player(slot as int),
    {
        if slot == 0 {
            Player {
                id: 0,
                pos: Vec2 { x: 360_000, y: 400_000 },
                shadow_pos: Vec2 { x: 360_000, y: 500_000 },
                score: 0,
                is_trapped: false,
            }
        } else {
            Player {
                id: 1,
                pos: Vec2 { x: 840_000, y: 400_000 },
                shadow_pos: Vec2 { x: 840_000, y: 300_000 },
                score: 0,
                is_trapped: false,
            }
        }
    }

    /// This record after a trap: flagged, and the score one higher.
    pub open spec fn trapped(self) -> Player {
        Player { is_trapped: true, score: score_after_trap(self.score), ..self }
    }

    /// This record with the score and the trapped flag of `shown`.
    pub open spec fn with_standing_of(self, shown: Player) -> Player {
        Player { score: shown.score, is_trapped: shown.is_trapped, ..self }
    }

    /// Whether two records carry the same score and the same trapped flag.
    pub open spec fn same_standing(self, other: Player) -> bool {
        self.score == other.score && self.is_trapped == other.is_trapped
    }

    /// This record with body and shadow exchanged.
    pub open spec fn swapped(self) -> Player {
        Player { pos: self.shadow_pos, shadow_pos: self.pos, ..self }
    }

    /// Marks the player trapped and counts the trap.
    pub fn mark_trapped(&mut self)
        ensures
            *final(self) == old(self).trapped(),
    {
        self.is_trapped = true;
        if self.score < u32::MAX {
            self.score = self.score + 1;
        }
    }

    /// Exchanges body and shadow.
    pub fn swap_with_shadow(&mut self)
        ensures
            *final(self) == old(self).swapped(),
    {
        let body: Vec2 = self.pos;
        self.pos = self.shadow_pos;
        self.shadow_pos = body;
    }
}

} // verus!
