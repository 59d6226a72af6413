//! One frame of the session, from what came in to what goes out.
//!
//! The loop that owns the socket and the window gathers a frame's inputs, calls
//! `GameState::frame`, sends what it returns in order, and draws the state.

use vstd::prelude::*;
use crate::codec::{decode_spec, lemma_decoded_is_framed};
use crate::game::{frames_of, lemma_game_over_persists, GameState};
use crate::message::Message;
use crate::player::score_after_trap;
use crate::trap::{springs, trapped_after};
use crate::vec2::Vec2;

verus! {

/// What the outside world contributes to one frame.
#[derive(Clone, Copy, Debug, PartialEq, Eq)]
pub struct FrameInput {
    /// Time since the previous frame, in microseconds.
    pub dt: u32,
    /// The time of this frame, in microseconds.
    pub now: u64,
    /// The direction asked for, in thousandths of a unit vector; zero for none.
    pub direction: Vec2,
    /// Whether the swap was triggered in this frame.
    pub swap: bool,
    /// Whether a reset was asked for in this frame.
    pub reset: bool,
}

/// The direction that asks for no movement.
pub open spec fn no_direction() -> Vec2 {
    Vec2 { x: 0, y: 0 }
}

/// Zero or one message as a sequence.
pub open spec fn maybe(msg: Option<Message>) -> Seq<Message> {
    match msg {
        Some(m) => seq![m],
        None => Seq::<Message>::empty(),
    }
}

impl GameState {
    /// The state once the frame's datagrams are taken in and the effects clock has
    /// moved on: the state the inverse-control timer ticks from.
    pub open spec fn frame_received(self, frames: Seq<Seq<u8>>, input: FrameInput) -> GameState {
        self.received(frames, input.now).clock_advanced(input.dt)
    }

    /// The state once the inverse-control timer has ticked, the rival's record was
    /// interpolated, the input and the swap were applied, and the local slot's network
    /// truth was made equal to its displayed record.
    pub open spec fn moved_by(self, input: FrameInput) -> GameState {
        let eased = self.inverse_ticked(input.dt).interpolated(input.dt, input.now);
        let driven = if input.direction != no_direction() {
            eased.input_applied(input.direction, input.dt)
        } else {
            eased
        };
        let swapped = if input.swap {
            driven.swapped()
        } else {
            driven
        };
        swapped.synced()
    }

    /// The state once, after the datagrams and the clock, the frame's moves are done:
    /// the state a reset request is judged in.
    pub open spec fn frame_moved(self, frames: Seq<Seq<u8>>, input: FrameInput) -> GameState {
        self.frame_received(frames, input).moved_by(input)
    }

    /// The state once, after that, a reset request was honoured or ignored: the state
    /// the traps are checked in.
    pub open spec fn frame_settled(self, frames: Seq<Seq<u8>>, input: FrameInput) -> GameState {
        let moved = self.frame_moved(frames, input);
        if input.reset {
            moved.reset_requested()
        } else {
            moved
        }
    }

    /// The state at the end of the frame: after the trap check and the periodic
    /// broadcast.
    pub open spec fn frame_end(self, frames: Seq<Seq<u8>>, input: FrameInput) -> GameState {
        self.frame_settled(frames, input).traps_checked(input.dt).sent(input.now)
    }

    /// What the frame sends, in order: the inverse-control announcement, the reset,
    /// the trap events, the periodic broadcast; each only where it arises.
    pub open spec fn frame_out(self, frames: Seq<Seq<u8>>, input: FrameInput) -> Seq<Message> {
        let settled = self.frame_settled(frames, input);
        maybe(self.frame_received(frames, input).inverse_announced(input.dt)) + maybe(
            if input.reset && self.frame_moved(frames, input).game_over() {
                Some(Message::GameReset)
            } else {
                None
            },
        ) + settled.trap_events() + settled.traps_checked(input.dt).periodic(input.now)
    }

    /// Runs one frame: takes in the datagrams, advances the clock and the timers,
    /// interpolates, applies the local input, checks the traps, and returns the messages
    /// to send, in the order in which they are to go out.
    pub fn frame(&mut self, datagrams: &Vec<Vec<u8>>, input: &FrameInput) -> (out: Vec<Message>)
        requires
            old(self).wf(),
        ensures
            *final(self) == old(self).frame_end(frames_of(datagrams@), *input),
            out@ == old(self).frame_out(frames_of(datagrams@), *input),
            final(self).wf(),
            forall|i: int| 0 <= i < out@.len() ==> (#[trigger] out@[i]).wf(),
    {
        let mut out: Vec<Message> = Vec::new();
        self.receive_messages(datagrams, input.now);
        self.advance_clock(input.dt);
        match self.make_moves(input) {
            Some(msg) => {
                out.push(msg);
            },
            None => {},
        }
        if input.reset {
            match self.request_reset() {
                Some(msg) => {
                    out.push(msg);
                },
                None => {},
            }
        }
        let events: Vec<Message> = self.check_traps(input.dt);
        push_all(&mut out, &events);
        let snapshot: Vec<Message> = self.periodic_messages(input.now);
        push_all(&mut out, &snapshot);
        assert(out@ =~= old(self).frame_out(frames_of(datagrams@), *input));
        out
    }
}

impl GameState {
    fn make_moves(&mut self, input: &FrameInput) -> (msg: Option<Message>)
        requires
            old(self).wf(),
        ensures
            *final(self) == old(self).moved_by(*input),
            msg == old(self).inverse_announced(input.dt),
            final(self).wf(),
    {
        let msg: Option<Message> = self.update_inverse_timer(input.dt);
        self.interpolate_players(input.dt, input.now);
        if input.direction.x != 0 || input.direction.y != 0 {
            self.update_player(input.direction, input.dt);
        }
        if input.swap {
            self.swap_with_shadow();
        }
        self.sync_local();
        msg
    }
}

fn push_all(out: &mut Vec<Message>, more: &Vec<Message>)
    ensures
        final(out)@ == old(out)@ + more@,
{
    let mut i: usize = 0;
    while i < more.len()
        invariant
            0 <= i <= more.len(),
            out@ == old(out)@ + more@.take(i as int),
        decreases more.len() - i,
    {
        out.push(more[i]);
        assert(more@.take(i + 1) =~= more@.take(i as int).push(more@[i as int]));
        i = i + 1;
    }
    assert(more@.take(i as int) =~= more@);
}

/// The datagrams bring nothing that lowers a displayed score of `s`: no reset, and no
/// snapshot of the rival's slot with a score below the one displayed.
pub open spec fn keeps_scores(s: GameState, frames: Seq<Seq<u8>>) -> bool {
    forall|i: int|
        0 <= i < frames.len() ==> match #[trigger] decode_spec(frames[i]) {
            Ok(Message::GameReset) => false,
            Ok(Message::PlayerUpdate(p)) => p.id == s.player_id || p.score
                >= s.players[p.id as int].score,
            _ => true,
        }
}

/// The datagrams bring nothing that changes a displayed score or trapped flag of `s`:
/// no reset, no trap event, and no snapshot of the rival's slot with another score or
/// flag than displayed.
pub open spec fn keeps_standing(s: GameState, frames: Seq<Seq<u8>>) -> bool {
    forall|i: int|
        0 <= i < frames.len() ==> match #[trigger] decode_spec(frames[i]) {
            Ok(Message::GameReset) => false,
            Ok(Message::TrapEvent { .. }) => false,
            Ok(Message::PlayerUpdate(p)) => p.id == s.player_id || p.same_standing(
                s.players[p.id as int],
            ),
            _ => true,
        }
}

proof fn lemma_received_keeps_scores(s: GameState, frames: Seq<Seq<u8>>, now: u64)
    requires
        s.wf(),
        keeps_scores(s, frames),
    ensures
        s.received(frames, now).wf(),
        s.received(frames, now).player_id == s.player_id,
        s.received(frames, now).is_host == s.is_host,
        s.no_score_lost(s.received(frames, now)),
    decreases frames.len(),
{
    if frames.len() > 0 {
        let head = frames.drop_last();
        assert forall|i: int| 0 <= i < head.len() implies match #[trigger] decode_spec(head[i]) {
            Ok(Message::GameReset) => false,
            Ok(Message::PlayerUpdate(p)) => p.id == s.player_id || p.score
                >= s.players[p.id as int].score,
            _ => true,
        } by {
            assert(head[i] == frames[i]);
        }
        lemma_received_keeps_scores(s, head, now);
        let r = s.received(head, now);
        let last = decode_spec(frames[frames.len() - 1]);
        lemma_decoded_is_framed(frames.last());
        if let Ok(msg) = last {
            lemma_game_over_persists(r, msg, no_direction(), 0, now);
        }
    }
}

proof fn lemma_received_keeps_standing(s: GameState, frames: Seq<Seq<u8>>, now: u64)
    requires
        s.wf(),
        keeps_standing(s, frames),
    ensures
        s.received(frames, now).wf(),
        s.same_standings(s.received(frames, now)),
    decreases frames.len(),
{
    if frames.len() > 0 {
        let head = frames.drop_last();
        assert forall|i: int| 0 <= i < head.len() implies match #[trigger] decode_spec(head[i]) {
            Ok(Message::GameReset) => false,
            Ok(Message::TrapEvent { .. }) => false,
            Ok(Message::PlayerUpdate(p)) => p.id == s.player_id || p.same_standing(
                s.players[p.id as int],
            ),
            _ => true,
        } by {
            assert(head[i] == frames[i]);
        }
        lemma_received_keeps_standing(s, head, now);
        let r = s.received(head, now);
        let last = decode_spec(frames[frames.len() - 1]);
        lemma_decoded_is_framed(frames.last());
        if let Ok(msg) = last {
            lemma_game_over_persists(r, msg, no_direction(), 0, now);
        }
    }
}

proof fn lemma_moves_keep_standing(s: GameState, input: FrameInput)
    requires
        s.wf(),
    ensures
        s.moved_by(input).wf(),
        s.same_standings(s.moved_by(input)),
{
    let msg = Message::InverseControl { active: false, time_left: 0 };
    let ticked = s.inverse_ticked(input.dt);
    lemma_game_over_persists(s, msg, input.direction, input.dt, input.now);
    let eased = ticked.interpolated(input.dt, input.now);
    lemma_game_over_persists(ticked, msg, input.direction, input.dt, input.now);
    let driven = if input.direction != no_direction() {
        eased.input_applied(input.direction, input.dt)
    } else {
        eased
    };
    lemma_game_over_persists(eased, msg, input.direction, input.dt, input.now);
    let swapped = if input.swap {
        driven.swapped()
    } else {
        driven
    };
    lemma_game_over_persists(driven, msg, input.direction, input.dt, input.now);
    lemma_game_over_persists(swapped, msg, input.direction, input.dt, input.now);
}

/// Game over persists over a frame. In a frame without a reset, asked for here or
/// brought by a datagram, and without a snapshot that brings a lower score for the
/// rival's slot, no displayed score goes down; so a game that is over at the start of
/// the frame is over at its end.
pub proof fn lemma_frame_keeps_scores(s: GameState, frames: Seq<Seq<u8>>, input: FrameInput)
    requires
        s.wf(),
        !input.reset,
        keeps_scores(s, frames),
    ensures
        s.frame_end(frames, input).wf(),
        s.no_score_lost(s.frame_end(frames, input)),
        s.game_over() ==> s.frame_end(frames, input).game_over(),
{
    let msg = Message::InverseControl { active: false, time_left: 0 };
    let got = s.received(frames, input.now);
    lemma_received_keeps_scores(s, frames, input.now);
    lemma_game_over_persists(got, msg, input.direction, input.dt, input.now);
    let clocked = got.clock_advanced(input.dt);
    lemma_moves_keep_standing(clocked, input);
    let settled = clocked.moved_by(input);
    assert(settled == s.frame_settled(frames, input));
    lemma_game_over_persists(settled, msg, input.direction, input.dt, input.now);
    let checked = settled.traps_checked(input.dt);
    lemma_game_over_persists(checked, msg, input.direction, input.dt, input.now);
}

/// Hysteresis holds from frame to frame. On the host, in a frame without a reset and
/// without a datagram that changes a displayed score or flag, each slot's trapped flag
/// at the end of the frame is the trap rule's answer to the flag at the start of the
/// frame and the distance at the trap check; the score goes up by one, and a trap event
/// goes out, exactly where the rule says that a trap springs. So a flag that is up stays
/// up, and no further trap is counted, until a frame finds the body beyond twice the
/// trap radius.
pub proof fn lemma_frame_hysteresis(s: GameState, frames: Seq<Seq<u8>>, input: FrameInput, i: int)
    requires
        s.wf(),
        s.is_host,
        !input.reset,
        keeps_standing(s, frames),
        0 <= i < 2,
    ensures
        ({
            let settled = s.frame_settled(frames, input);
            let end = s.frame_end(frames, input);
            let d2 = settled.trap_distance(i);
            &&& settled.players[i].same_standing(s.players[i])
            &&& settled.trap_springs(i) == springs(s.players[i].is_trapped, d2)
            &&& end.players[i].is_trapped == trapped_after(s.players[i].is_trapped, d2)
            &&& end.players[i].score == if springs(s.players[i].is_trapped, d2) {
                score_after_trap(s.players[i].score)
            } else {
                s.players[i].score
            }
            &&& end.network_players[i].same_standing(end.players[i])
            &&& end.wf()
        }),
{
    let msg = Message::InverseControl { active: false, time_left: 0 };
    let got = s.received(frames, input.now);
    lemma_received_keeps_standing(s, frames, input.now);
    lemma_game_over_persists(got, msg, input.direction, input.dt, input.now);
    let clocked = got.clock_advanced(input.dt);
    lemma_moves_keep_standing(clocked, input);
    let settled = clocked.moved_by(input);
    assert(settled == s.frame_settled(frames, input));
    lemma_game_over_persists(settled, msg, input.direction, input.dt, input.now);
    let checked = settled.traps_checked(input.dt);
    lemma_game_over_persists(checked, msg, input.direction, input.dt, input.now);
}

} // verus!
