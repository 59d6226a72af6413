//! The trap rule: a body that comes near the rival's shadow is trapped and scored
//! once, and is let go only when it has moved clearly away.

use vstd::prelude::*;
use crate::config::TRAP_RADIUS;
use crate::player::Player;

verus! {

/// A squared distance below the trap radius: the body is in the trap.
pub open spec fn within_trap(d2: int) -> bool {
    d2 < TRAP_RADIUS * TRAP_RADIUS
}

/// A squared distance above twice the trap radius: the body is clear of the trap.
pub open spec fn beyond_release(d2: int) -> bool {
    d2 > (2 * TRAP_RADIUS) * (2 * TRAP_RADIUS)
}

/// Whether a trap springs in this frame: the body is in the trap and was not yet
/// marked trapped.
pub open spec fn springs(trapped: bool, d2: int) -> bool {
    !trapped && within_trap(d2)
}

/// The trapped flag after a frame at squared distance `d2`. It comes up inside the trap
/// radius, goes down beyond twice that radius, and stays as it was in between.
pub open spec fn trapped_after(trapped: bool, d2: int) -> bool {
    if beyond_release(d2) {
        false
    } else {
        trapped || within_trap(d2)
    }
}

/// The trapped flag after a run of frames at the squared distances `d2s`, in order.
pub open spec fn trapped_after_all(trapped: bool, d2s: Seq<int>) -> bool
    decreases d2s.len(),
{
    if d2s.len() == 0 {
        trapped
    } else {
        trapped_after(trapped_after_all(trapped, d2s.drop_last()), d2s.last())
    }
}

/// How often traps spring over a run of frames at the squared distances `d2s`.
pub open spec fn traps_sprung(trapped: bool, d2s: Seq<int>) -> nat
    decreases d2s.len(),
{
    if d2s.len() == 0 {
        0
    } else {
        let before = trapped_after_all(trapped, d2s.drop_last());
        traps_sprung(trapped, d2s.drop_last()) + if springs(before, d2s.last()) {
            1nat
        } else {
            0nat
        }
    }
}

/// A player's record after the trap check of one frame.
pub open spec fn checked(p: Player, d2: int) -> Player {
    let q = if springs(p.is_trapped, d2) {
        p.trapped()
    } else {
        p
    };
    Player { is_trapped: trapped_after(p.is_trapped, d2), ..q }
}

/// Hysteresis. Whatever the distances are, a flag that is up after `i` frames is still
/// up after `k` frames unless one of the frames between took the body beyond twice the
/// trap radius; coming back above the trap radius alone does not clear it, and no trap
/// springs while it is up.
pub proof fn lemma_hysteresis(trapped: bool, d2s: Seq<int>, i: int, k: int)
    requires
        0 <= i <= k <= d2s.len(),
        trapped_after_all(trapped, d2s.take(i)),
        forall|j: int| i <= j < k ==> !beyond_release(#[trigger] d2s[j]),
    ensures
        trapped_after_all(trapped, d2s.take(k)),
        traps_sprung(trapped, d2s.take(k)) == traps_sprung(trapped, d2s.take(i)),
    decreases k - i,
{
    if i < k {
        lemma_hysteresis(trapped, d2s, i, k - 1);
        assert(d2s.take(k).drop_last() =~= d2s.take(k - 1));
        assert(d2s.take(k).last() == d2s[k - 1]);
    }
}

/// The two squared radii as numbers.
pub proof fn lemma_radii()
    ensures
        TRAP_RADIUS * TRAP_RADIUS == 2_500_000_000,
        (2 * TRAP_RADIUS) * (2 * TRAP_RADIUS) == 10_000_000_000,
{
    assert(TRAP_RADIUS * TRAP_RADIUS == 2_500_000_000) by (nonlinear_arith)
        requires
            TRAP_RADIUS == 50_000,
    ;
    assert((2 * TRAP_RADIUS) * (2 * TRAP_RADIUS) == 10_000_000_000) by (nonlinear_arith)
        requires
            TRAP_RADIUS == 50_000,
    ;
}

/// The flag goes down in the frame that takes the body beyond twice the trap radius,
/// and only in such a frame.
pub proof fn lemma_release(trapped: bool, d2: int)
    ensures
        beyond_release(d2) ==> !trapped_after(trapped, d2),
        trapped && !beyond_release(d2) ==> trapped_after(trapped, d2),
        beyond_release(d2) ==> !within_trap(d2),
{
    lemma_radii();
}

/// Applies the trap check of one frame to a player whose body is at squared
/// distance `d2` from the rival's shadow, and tells whether a trap sprang.
pub fn check_player(p: &mut Player, d2: u128) -> (sprung: bool)
    ensures
        *final(p) == checked(*old(p), d2 as int),
        sprung == springs(old(p).is_trapped, d2 as int),
{
    proof {
        lemma_radii();
    }
    let radius: u128 = TRAP_RADIUS as u128;
    let sprung: bool = d2 < radius * radius && !p.is_trapped;
    if sprung {
        p.mark_trapped();
    }
    if p.is_trapped && d2 > (2 * radius) * (2 * radius) {
        p.is_trapped = false;
    }
    sprung
}

} // verus!
