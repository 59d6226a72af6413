//! The inverse-control timer: a window in which input drives the rival's body,
//! then a pause, in turn. Only the host runs it; the client follows what it is told.

use vstd::prelude::*;
use vstd::arithmetic::div_mod::{lemma_fundamental_div_mod, lemma_truncate_middle};
use crate::config::{INVERSE_COOLDOWN, INVERSE_DURATION};
use crate::message::Message;

verus! {

/// What is left of a countdown of `left` microseconds after `dt` more; it stops at zero.
pub open spec fn remaining(left: u32, dt: u32) -> u32 {
    if left > dt {
        (left - dt) as u32
    } else {
        0
    }
}

/// Counts a countdown down by `dt`, stopping at zero.
pub fn count_down(left: u32, dt: u32) -> (rest: u32)
    ensures
        rest == remaining(left, dt),
{
    if left > dt {
        left - dt
    } else {
        0
    }
}

/// The inverse-control state. While `active`, `timer` counts the window down; while
/// not, `cooldown` counts the pause down.
#[derive(Clone, Copy, Debug, PartialEq, Eq, Structural)]
pub struct InverseState {
    pub active: bool,
    pub timer: u32,
    pub cooldown: u32,
}

/// The state a session starts in, and returns to on reset: a pause with nothing left
/// of it, so that the first tick opens a window.
pub open spec fn initial_inverse() -> InverseState {
    InverseState { active: false, timer: 0, cooldown: 0 }
}

/// The time that a run of ticks takes in all.
pub open spec fn total(dts: Seq<u32>) -> int
    decreases dts.len(),
{
    if dts.len() == 0 {
        0
    } else {
        total(dts.drop_last()) + dts.last()
    }
}

/// No tick after the first is longer than the countdown that is running when it
/// comes, so that every change of sides falls exactly on a tick.
pub open spec fn ticks_fit(dts: Seq<u32>) -> bool {
    forall|k: int|
        1 <= k < dts.len() ==> dts[k] <= (#[trigger] initial_inverse().ticked_all(
            dts.take(k),
        )).time_left()
}

/// How many ticks of `dt` it takes to count `duration` down to zero.
pub open spec fn ticks_to_expire(duration: int, dt: int) -> int {
    (duration + dt - 1) / dt
}

impl InverseState {
    /// The state a session starts in.
    pub fn initial() -> (s: InverseState)
        ensures
            s == initial_inverse(),
    {
        InverseState { active: false, timer: 0, cooldown: 0 }
    }

    /// The countdown that is running: the window's while active, the pause's while not.
    pub open spec fn time_left(self) -> u32 {
        if self.active {
            self.timer
        } else {
            self.cooldown
        }
    }

    /// Whether the running countdown reaches zero within `dt`.
    pub open spec fn expires(self, dt: u32) -> bool {
        remaining(self.time_left(), dt) == 0
    }

    /// The state after a tick of `dt` microseconds. A window that runs out gives way to
    /// a full pause, a pause that runs out to a full window.
    pub open spec fn ticked(self, dt: u32) -> InverseState {
        if self.active {
            if self.expires(dt) {
                InverseState { active: false, timer: 0, cooldown: INVERSE_COOLDOWN }
            } else {
                InverseState { timer: remaining(self.timer, dt), ..self }
            }
        } else {
            if self.expires(dt) {
                InverseState { active: true, timer: INVERSE_DURATION, cooldown: INVERSE_COOLDOWN }
            } else {
                InverseState { cooldown: remaining(self.cooldown, dt), ..self }
            }
        }
    }

    /// What the host broadcasts at a tick: the new state where the tick changed
    /// sides, nothing otherwise.
    pub open spec fn announced(self, dt: u32) -> Option<Message> {
        if !self.expires(dt) {
            None
        } else if self.active {
            Some(Message::InverseControl { active: false, time_left: 0 })
        } else {
            Some(Message::InverseControl { active: true, time_left: INVERSE_DURATION })
        }
    }

    /// The state after `n` ticks of `dt` microseconds each.
    pub open spec fn ticked_n(self, dt: u32, n: nat) -> InverseState
        decreases n,
    {
        if n == 0 {
            self
        } else {
            self.ticked_n(dt, (n - 1) as nat).ticked(dt)
        }
    }

    /// The state after a run of ticks of the lengths `dts`, in order.
    pub open spec fn ticked_all(self, dts: Seq<u32>) -> InverseState
        decreases dts.len(),
    {
        if dts.len() == 0 {
            self
        } else {
            self.ticked_all(dts.drop_last()).ticked(dts.last())
        }
    }

    /// Advances the state by one tick and says what to broadcast.
    pub fn tick(&mut self, dt: u32) -> (msg: Option<Message>)
        ensures
            *final(self) == old(self).ticked(dt),
            msg == old(self).announced(dt),
    {
        if self.active {
            self.timer = count_down(self.timer, dt);
            if self.timer == 0 {
                self.active = false;
                self.cooldown = INVERSE_COOLDOWN;
                Some(Message::InverseControl { active: false, time_left: 0 })
            } else {
                None
            }
        } else {
            self.cooldown = count_down(self.cooldown, dt);
            if self.cooldown == 0 {
                self.active = true;
                self.timer = INVERSE_DURATION;
                self.cooldown = INVERSE_COOLDOWN;
                Some(Message::InverseControl { active: true, time_left: INVERSE_DURATION })
            } else {
                None
            }
        }
    }
}

proof fn lemma_ticks_to_expire(duration: int, dt: int)
    requires
        0 < duration,
        0 < dt,
    ensures
        1 <= ticks_to_expire(duration, dt),
        duration <= ticks_to_expire(duration, dt) * dt,
        (ticks_to_expire(duration, dt) - 1) * dt < duration,
{
    let k = ticks_to_expire(duration, dt);
    lemma_fundamental_div_mod(duration + dt - 1, dt);
    assert(0 <= (duration + dt - 1) % dt < dt);
    assert((k - 1) * dt == k * dt - dt) by (nonlinear_arith);
    assert(dt * k == k * dt) by (nonlinear_arith);
    if k < 1 {
        assert(k * dt <= 0) by (nonlinear_arith)
            requires
                k <= 0,
                0 < dt,
        ;
    }
}

proof fn lemma_next_residue(x: int, p: int)
    by (nonlinear_arith)
    requires
        0 <= x,
        0 < p,
    ensures
        0 <= x % p < p,
        (x + 1) % p == if x % p + 1 < p {
            x % p + 1
        } else {
            0
        },
{
}

proof fn lemma_scaled_order(a: int, b: int, dt: int)
    by (nonlinear_arith)
    requires
        a <= b,
        0 < dt,
    ensures
        a * dt <= b * dt,
        (a + 1) * dt == a * dt + dt,
{
}

/// The state after `n` ticks, told by where the `n`-th tick stands in the cycle.
spec fn in_phase(s: InverseState, r: int, ka: int, dt: int) -> bool {
    if r < ka {
        s.active && s.timer == INVERSE_DURATION - r * dt
    } else {
        !s.active && s.cooldown == INVERSE_COOLDOWN - (r - ka) * dt
    }
}

proof fn lemma_phase(dt: u32, n: nat)
    requires
        0 < dt,
        1 <= n,
    ensures
        in_phase(
            initial_inverse().ticked_n(dt, n),
            (n - 1) % (ticks_to_expire(INVERSE_DURATION as int, dt as int) + ticks_to_expire(
                INVERSE_COOLDOWN as int,
                dt as int,
            )),
            ticks_to_expire(INVERSE_DURATION as int, dt as int),
            dt as int,
        ),
    decreases n,
{
    let ka = ticks_to_expire(INVERSE_DURATION as int, dt as int);
    let kc = ticks_to_expire(INVERSE_COOLDOWN as int, dt as int);
    let p = ka + kc;
    lemma_ticks_to_expire(INVERSE_DURATION as int, dt as int);
    lemma_ticks_to_expire(INVERSE_COOLDOWN as int, dt as int);
    if n == 1 {
        assert(initial_inverse().ticked_n(dt, 0) == initial_inverse());
        assert(initial_inverse().ticked_n(dt, 1) == initial_inverse().ticked(dt));
        assert(0int % p == 0) by (nonlinear_arith)
            requires
                0 < p,
        ;
        assert(0 * (dt as int) == 0) by (nonlinear_arith);
    } else {
        lemma_phase(dt, (n - 1) as nat);
        let before = initial_inverse().ticked_n(dt, (n - 1) as nat);
        let r = (n - 2) % p;
        lemma_next_residue(n - 2, p);
        if r < ka {
            lemma_scaled_order(r, r, dt as int);
            if r + 1 < ka {
                lemma_scaled_order(r + 1, ka - 1, dt as int);
            } else {
                assert((ka - ka) * (dt as int) == 0) by (nonlinear_arith);
            }
        } else {
            lemma_scaled_order(r - ka, r - ka, dt as int);
            if r + 1 < p {
                lemma_scaled_order(r - ka + 1, kc - 1, dt as int);
            } else {
                assert(0 * (dt as int) == 0) by (nonlinear_arith);
            }
        }
    }
}

/// The timer is periodic. Started from the initial state and ticked `n` times by the
/// same `dt`, it is in a window exactly if the `n`-th tick, the first being the one that
/// opens the first window, falls into the window's part of the cycle. A cycle is as
/// many ticks as it takes to count down a window and then a pause.
pub proof fn lemma_inverse_periodic(dt: u32, n: nat)
    requires
        0 < dt,
        1 <= n,
    ensures
        initial_inverse().ticked_n(dt, n).active <==> (n - 1) % (ticks_to_expire(
            INVERSE_DURATION as int,
            dt as int,
        ) + ticks_to_expire(INVERSE_COOLDOWN as int, dt as int)) < ticks_to_expire(
            INVERSE_DURATION as int,
            dt as int,
        ),
{
    lemma_phase(dt, n);
}

/// The timer is periodic in elapsed time. Where `dt` divides both durations, the state
/// after a total of `n * dt` microseconds is a window exactly if that time, less the one
/// tick that opened the first window, falls into the first `INVERSE_DURATION`
/// microseconds of a cycle of `INVERSE_DURATION + INVERSE_COOLDOWN`.
pub proof fn lemma_inverse_periodic_in_time(dt: u32, n: nat)
    requires
        0 < dt,
        1 <= n,
        INVERSE_DURATION % dt == 0,
        INVERSE_COOLDOWN % dt == 0,
    ensures
        initial_inverse().ticked_n(dt, n).active <==> (n * dt - dt) % (INVERSE_DURATION
            + INVERSE_COOLDOWN) < INVERSE_DURATION,
{
    let d = dt as int;
    let ka = ticks_to_expire(INVERSE_DURATION as int, d);
    let kc = ticks_to_expire(INVERSE_COOLDOWN as int, d);
    lemma_inverse_periodic(dt, n);
    lemma_ticks_to_expire(INVERSE_DURATION as int, d);
    lemma_ticks_to_expire(INVERSE_COOLDOWN as int, d);
    lemma_fundamental_div_mod(INVERSE_DURATION as int, d);
    lemma_fundamental_div_mod(INVERSE_COOLDOWN as int, d);
    assert(ka * d == INVERSE_DURATION) by (nonlinear_arith)
        requires
            0 < d,
            INVERSE_DURATION <= ka * d,
            (ka - 1) * d < INVERSE_DURATION,
            INVERSE_DURATION == d * (INVERSE_DURATION as int / d),
    ;
    assert(kc * d == INVERSE_COOLDOWN) by (nonlinear_arith)
        requires
            0 < d,
            INVERSE_COOLDOWN <= kc * d,
            (kc - 1) * d < INVERSE_COOLDOWN,
            INVERSE_COOLDOWN == d * (INVERSE_COOLDOWN as int / d),
    ;
    let r = (n - 1) % (ka + kc);
    lemma_truncate_middle(n - 1, d, ka + kc);
    assert(d * (n - 1) == n * dt - dt) by (nonlinear_arith)
        requires
            d == dt,
    ;
    assert(d * (ka + kc) == INVERSE_DURATION + INVERSE_COOLDOWN) by (nonlinear_arith)
        requires
            ka * d == INVERSE_DURATION,
            kc * d == INVERSE_COOLDOWN,
    ;
    assert(d * r < d * ka <==> r < ka) by (nonlinear_arith)
        requires
            0 < d,
    ;
    assert(d * ka == ka * d) by (nonlinear_arith);
}

/// The state after a run of ticks that fit, told by the time since the first tick.
spec fn in_phase_at(s: InverseState, since_first: int) -> bool {
    let r = since_first % 15_000_000;
    if r < 5_000_000 {
        s.active && s.timer == 5_000_000 - r
    } else {
        !s.active && s.cooldown == 15_000_000 - r
    }
}

proof fn lemma_phase_over(dts: Seq<u32>)
    requires
        dts.len() >= 1,
        ticks_fit(dts),
    ensures
        total(dts) - dts[0] >= 0,
        in_phase_at(initial_inverse().ticked_all(dts), total(dts) - dts[0]),
    decreases dts.len(),
{
    let head = dts.drop_last();
    if dts.len() == 1 {
        assert(head.len() == 0);
        assert(total(head) == 0);
        assert(initial_inverse().ticked_all(head) == initial_inverse());
    } else {
        assert forall|k: int| 1 <= k < head.len() implies head[k] <= (
        #[trigger] initial_inverse().ticked_all(head.take(k))).time_left() by {
            assert(head.take(k) =~= dts.take(k));
            assert(head[k] == dts[k]);
        }
        lemma_phase_over(head);
        assert(dts.take(dts.len() - 1) =~= head);
        assert(head[0] == dts[0]);
        let before = initial_inverse().ticked_all(head);
        assert(dts.last() <= before.time_left());
    }
}

/// The timer is periodic whatever the lengths of the ticks, as long as every change of
/// sides falls exactly on a tick. Started from the initial state, it is in a window
/// exactly if the time since the first tick, which opened the first window, falls into
/// the first `INVERSE_DURATION` microseconds of a cycle of
/// `INVERSE_DURATION + INVERSE_COOLDOWN`.
pub proof fn lemma_inverse_periodic_over(dts: Seq<u32>)
    requires
        dts.len() >= 1,
        ticks_fit(dts),
    ensures
        initial_inverse().ticked_all(dts).active <==> (total(dts) - dts[0]) % (INVERSE_DURATION
            + INVERSE_COOLDOWN) < INVERSE_DURATION,
        initial_inverse().ticked_all(dts).time_left() == (if initial_inverse().ticked_all(
            dts,
        ).active {
            INVERSE_DURATION as int
        } else {
            INVERSE_DURATION + INVERSE_COOLDOWN
        }) - (total(dts) - dts[0]) % (INVERSE_DURATION + INVERSE_COOLDOWN),
{
    lemma_phase_over(dts);
    assert(INVERSE_DURATION + INVERSE_COOLDOWN == 15_000_000);
}

} // verus!
