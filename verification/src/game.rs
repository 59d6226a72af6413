//! The peer state store and the rules that change it, frame by frame.
//!
//! Each slot has a displayed record, which is what gets drawn, and a network
//! truth, which is the last value known for it: received from the wire, or
//! computed here for the fields this peer drives. A peer never moves its own
//! slot but by the swap; its input moves the rival's.

use vstd::prelude::*;
use crate::codec::{decode, decode_spec};
use crate::config::{FLASH_DURATION, SEND_INTERVAL, STALE_AFTER, WIN_SCORE};
use crate::control::{move_point, moved};
use crate::interp::{
    approach,
    approach_n,
    approach_point,
    between,
    interpolation_travel,
    lemma_approach_between,
    lemma_approach_closes,
    lemma_step_length,
    lemma_interpolation_converges,
    lemma_on_target,
    travel_for,
};
use crate::message::{DecodeError, Message};
use crate::player::{initial_player, Player};
use crate::timer::{count_down, initial_inverse, remaining, InverseState};
use crate::trap::{check_player, checked, springs, trapped_after};
use crate::vec2::{dist_sq, distance_squared, Vec2};

verus! {

/// Everything one peer knows about the session.
#[derive(Clone, Copy, Debug, PartialEq, Eq)]
pub struct GameState {
    /// The displayed record of each slot.
    pub players: [Player; 2],
    /// The network truth of each slot.
    pub network_players: [Player; 2],
    /// Whether this peer is the session's authority.
    pub is_host: bool,
    /// The slot this peer plays: 0 on the host, 1 on the client.
    pub player_id: u8,
    /// When the last periodic broadcast went out, in microseconds.
    pub last_send: u64,
    /// The inverse-control state.
    pub inverse: InverseState,
    /// What is left of each slot's trap flash, in microseconds.
    pub trap_flash_timer: [u32; 2],
    /// A clock for visual effects that runs on through resets, in microseconds.
    pub game_time: u64,
    /// When the last wire update for each slot arrived, in microseconds.
    pub last_network_update: [u64; 2],
}

/// The pair `a` with `v` in place `i`.
pub open spec fn with_at<T>(a: [T; 2], i: int, v: T) -> [T; 2] {
    if i == 0 {
        [v, a[1]]
    } else {
        [a[0], v]
    }
}

/// The slot that a peer plays.
pub open spec fn slot_of(is_host: bool) -> u8 {
    if is_host {
        0
    } else {
        1
    }
}

/// The state that a session starts in at time `now`.
pub open spec fn initial_state(is_host: bool, now: u64) -> GameState {
    GameState {
        players: [initial_player(0), initial_player(1)],
        network_players: [initial_player(0), initial_player(1)],
        is_host,
        player_id: slot_of(is_host),
        last_send: now,
        inverse: initial_inverse(),
        trap_flash_timer: [0, 0],
        game_time: 0,
        last_network_update: [now, now],
    }
}

/// The time from `since` to `now`; none where the clock did not advance.
pub open spec fn elapsed(now: u64, since: u64) -> u64 {
    if now >= since {
        (now - since) as u64
    } else {
        0
    }
}

/// The byte strings that a batch of datagrams holds.
pub open spec fn frames_of(datagrams: Seq<Vec<u8>>) -> Seq<Seq<u8>> {
    datagrams.map_values(|d: Vec<u8>| d@)
}

impl GameState {
    /// Every record sits in the slot it names, the peer plays the slot of its role, and
    /// the rival's displayed record carries the score and the trapped flag of its network
    /// truth, so that interpolation changes neither.
    pub open spec fn wf(&self) -> bool {
        &&& self.players[0].id == 0
        &&& self.players[1].id == 1
        &&& self.network_players[0].id == 0
        &&& self.network_players[1].id == 1
        &&& self.player_id == slot_of(self.is_host)
        &&& self.players[self.other()].same_standing(self.network_players[self.other()])
    }

    /// The slot this peer plays.
    pub open spec fn local(&self) -> int {
        self.player_id as int
    }

    /// The slot the rival plays, which this peer's input drives.
    pub open spec fn other(&self) -> int {
        1 - self.player_id
    }

    /// The game is over once either player has been trapped `WIN_SCORE` times.
    pub open spec fn game_over(&self) -> bool {
        self.players[0].score >= WIN_SCORE || self.players[1].score >= WIN_SCORE
    }

    /// The state after a reset: every record, displayed and network truth alike, back
    /// at its first layout with no score and no trap, no flash, the inverse-control
    /// timer back at its start. The role, the timestamps and the effects clock are left
    /// as they are.
    pub open spec fn reset(self) -> GameState {
        GameState {
            players: [initial_player(0), initial_player(1)],
            network_players: [initial_player(0), initial_player(1)],
            inverse: initial_inverse(),
            trap_flash_timer: [0, 0],
            ..self
        }
    }

    /// The state after the swap: body and shadow of the local slot exchanged, in the
    /// displayed record and in the network truth alike.
    pub open spec fn swapped(self) -> GameState {
        GameState {
            players: with_at(self.players, self.local(), self.players[self.local()].swapped()),
            network_players: with_at(
                self.network_players,
                self.local(),
                self.network_players[self.local()].swapped(),
            ),
            ..self
        }
    }

    /// The state after the inverse-control tick of a frame: the host's timer advances,
    /// a client's stays as the host last announced it.
    pub open spec fn inverse_ticked(self, dt: u32) -> GameState {
        if self.is_host {
            GameState { inverse: self.inverse.ticked(dt), ..self }
        } else {
            self
        }
    }

    /// What the inverse-control tick of a frame broadcasts.
    pub open spec fn inverse_announced(self, dt: u32) -> Option<Message> {
        if self.is_host {
            self.inverse.announced(dt)
        } else {
            None
        }
    }

    /// The rival's record after a frame of input: the shadow moved while inverse
    /// control is off, the body while it is on.
    pub open spec fn driven(self, p: Player, input: Vec2, dt: u32) -> Player {
        if self.inverse.active {
            Player { pos: moved(p.pos, input, dt as int), ..p }
        } else {
            Player { shadow_pos: moved(p.shadow_pos, input, dt as int), ..p }
        }
    }

    /// The state after a frame of input. The point that the input drives moves in the
    /// rival's displayed record, and the network truth of that point follows it.
    pub open spec fn input_applied(self, input: Vec2, dt: u32) -> GameState {
        let o = self.other();
        let shown = self.driven(self.players[o], input, dt);
        let truth = if self.inverse.active {
            Player { pos: shown.pos, ..self.network_players[o] }
        } else {
            Player { shadow_pos: shown.shadow_pos, ..self.network_players[o] }
        };
        GameState {
            players: with_at(self.players, o, shown),
            network_players: with_at(self.network_players, o, truth),
            ..self
        }
    }

    /// The rival's displayed record after a frame of interpolation toward the truth
    /// `truth`: body and shadow each a frame's travel closer, score and trapped flag
    /// taken over at once.
    pub open spec fn eased(shown: Player, truth: Player, dt: u32) -> Player {
        Player {
            pos: approach(shown.pos, truth.pos, interpolation_travel(dt as int)),
            shadow_pos: approach(shown.shadow_pos, truth.shadow_pos, interpolation_travel(dt as int)),
            score: truth.score,
            is_trapped: truth.is_trapped,
            ..shown
        }
    }

    /// Whether the rival's slot has gone without a wire update for longer than
    /// `STALE_AFTER` at time `now`.
    pub open spec fn stale(self, now: u64) -> bool {
        elapsed(now, self.last_network_update[self.other()]) > STALE_AFTER
    }

    /// The state after a frame of interpolation. Only the rival's displayed record
    /// changes: it becomes the network truth where that is stale, and moves toward it
    /// otherwise.
    pub open spec fn interpolated(self, dt: u32, now: u64) -> GameState {
        let o = self.other();
        let shown = if self.stale(now) {
            self.network_players[o]
        } else {
            Self::eased(self.players[o], self.network_players[o], dt)
        };
        GameState { players: with_at(self.players, o, shown), ..self }
    }

    /// Squared distance from the body of slot `i` to the shadow of the other slot.
    pub open spec fn trap_distance(self, i: int) -> int {
        dist_sq(self.players[i].pos, self.players[1 - i].shadow_pos)
    }

    /// Whether the host sees a trap spring on slot `i` in this frame.
    pub open spec fn trap_springs(self, i: int) -> bool {
        self.is_host && springs(self.players[i].is_trapped, self.trap_distance(i))
    }

    /// The flash of slot `i` after the frame's trap check: armed where a trap sprang,
    /// decayed by `dt` otherwise.
    pub open spec fn flash_after(self, i: int, dt: u32) -> u32 {
        if self.trap_springs(i) {
            FLASH_DURATION
        } else {
            remaining(self.trap_flash_timer[i], dt)
        }
    }

    /// The displayed record of slot `i` after the frame's trap check: the trap rule's
    /// answer on the host, unchanged on a client.
    pub open spec fn trap_checked(self, i: int) -> Player {
        if self.is_host {
            checked(self.players[i], self.trap_distance(i))
        } else {
            self.players[i]
        }
    }

    /// The network truth of slot `i` after the frame's trap check. The host records the
    /// outcome in it, score and trapped flag, so that neither interpolation nor the next
    /// broadcast undoes what the check decided.
    pub open spec fn trap_recorded(self, i: int) -> Player {
        if self.is_host {
            self.network_players[i].with_standing_of(self.trap_checked(i))
        } else {
            self.network_players[i]
        }
    }

    /// The state after the trap check of a frame. On every peer the flashes decay. On
    /// the host, each slot is held against the trap rule and the outcome is recorded in
    /// the displayed record and in the network truth.
    pub open spec fn traps_checked(self, dt: u32) -> GameState {
        GameState {
            players: [self.trap_checked(0), self.trap_checked(1)],
            network_players: [self.trap_recorded(0), self.trap_recorded(1)],
            trap_flash_timer: [self.flash_after(0, dt), self.flash_after(1, dt)],
            ..self
        }
    }

    /// The trap events that the trap check of a frame broadcasts, slot 0 first.
    pub open spec fn trap_events(self) -> Seq<Message> {
        (if self.trap_springs(0) {
            seq![Message::TrapEvent { player_id: 0 }]
        } else {
            Seq::<Message>::empty()
        }) + (if self.trap_springs(1) {
            seq![Message::TrapEvent { player_id: 1 }]
        } else {
            Seq::<Message>::empty()
        })
    }

    /// The state after one message has been applied at time `now`.
    /// A snapshot replaces the network truth of its slot and stamps it, and replaces the
    /// displayed record too unless the slot is the local one. An inverse-control
    /// message replaces the flag and the window's countdown. A trap event marks its
    /// slot trapped, counts the trap, records both in the slot's network truth and arms
    /// the flash. A reset starts the game afresh.
    pub open spec fn applied(self, msg: Message, now: u64) -> GameState {
        match msg {
            Message::PlayerUpdate(p) => GameState {
                network_players: with_at(self.network_players, p.id as int, p),
                last_network_update: with_at(self.last_network_update, p.id as int, now),
                players: if p.id != self.player_id {
                    with_at(self.players, p.id as int, p)
                } else {
                    self.players
                },
                ..self
            },
            Message::InverseControl { active, time_left } => GameState {
                inverse: InverseState { active, timer: time_left, ..self.inverse },
                ..self
            },
            Message::TrapEvent { player_id } => GameState {
                players: with_at(
                    self.players,
                    player_id as int,
                    self.players[player_id as int].trapped(),
                ),
                network_players: with_at(
                    self.network_players,
                    player_id as int,
                    self.network_players[player_id as int].with_standing_of(
                        self.players[player_id as int].trapped(),
                    ),
                ),
                trap_flash_timer: with_at(self.trap_flash_timer, player_id as int, FLASH_DURATION),
                ..self
            },
            Message::GameReset => self.reset(),
        }
    }

    /// The state after one datagram: what decodes is applied, what does not is dropped
    /// and changes nothing.
    pub open spec fn absorbed(self, frame: Seq<u8>, now: u64) -> GameState {
        match decode_spec(frame) {
            Ok(msg) => self.applied(msg, now),
            Err(_) => self,
        }
    }

    /// The state after the datagrams of one frame have been received: each is decoded
    /// and applied in the order of arrival.
    pub open spec fn received(self, frames: Seq<Seq<u8>>, now: u64) -> GameState
        decreases frames.len(),
    {
        if frames.len() == 0 {
            self
        } else {
            self.received(frames.drop_last(), now).absorbed(frames.last(), now)
        }
    }

    /// The state with the local slot's network truth made equal to its displayed record.
    pub open spec fn synced(self) -> GameState {
        GameState {
            network_players: with_at(
                self.network_players,
                self.local(),
                self.players[self.local()],
            ),
            ..self
        }
    }

    /// The state with the effects clock `dt` microseconds on; the clock stops at the
    /// largest value it can hold.
    pub open spec fn clock_advanced(self, dt: u32) -> GameState {
        GameState {
            game_time: if self.game_time + dt <= u64::MAX {
                (self.game_time + dt) as u64
            } else {
                u64::MAX
            },
            ..self
        }
    }

    /// The state after a reset was asked for locally: afresh if the game is over,
    /// unchanged if it is not.
    pub open spec fn reset_requested(self) -> GameState {
        if self.game_over() {
            self.reset()
        } else {
            self
        }
    }

    /// Whether a periodic broadcast is due at time `now`.
    pub open spec fn send_due(self, now: u64) -> bool {
        elapsed(now, self.last_send) >= SEND_INTERVAL
    }

    /// The periodic broadcast: the network truth of the local slot, then that of the
    /// rival's, then, from the host, the inverse-control state.
    pub open spec fn snapshot(self) -> Seq<Message> {
        let both = seq![
            Message::PlayerUpdate(self.network_players[self.local()]),
            Message::PlayerUpdate(self.network_players[self.other()]),
        ];
        if self.is_host {
            both.push(
                Message::InverseControl {
                    active: self.inverse.active,
                    time_left: self.inverse.timer,
                },
            )
        } else {
            both
        }
    }

    /// What goes out at time `now`: the periodic broadcast where it is due, nothing
    /// where it is not.
    pub open spec fn periodic(self, now: u64) -> Seq<Message> {
        if self.send_due(now) {
            self.snapshot()
        } else {
            Seq::<Message>::empty()
        }
    }

    /// The state after the periodic broadcast was considered at time `now`.
    pub open spec fn sent(self, now: u64) -> GameState {
        if self.send_due(now) {
            GameState { last_send: now, ..self }
        } else {
            self
        }
    }

    /// The state after a run of interpolation frames of `dt` microseconds each, at the
    /// times `nows`, with nothing else happening in between.
    pub open spec fn interpolated_over(self, dt: u32, nows: Seq<u64>) -> GameState
        decreases nows.len(),
    {
        if nows.len() == 0 {
            self
        } else {
            self.interpolated_over(dt, nows.drop_last()).interpolated(dt, nows.last())
        }
    }

    /// The peer's role and both displayed scores and trapped flags are in `later` what
    /// they are in `self`.
    pub open spec fn same_standings(self, later: GameState) -> bool {
        &&& later.is_host == self.is_host
        &&& later.player_id == self.player_id
        &&& later.players[0].same_standing(self.players[0])
        &&& later.players[1].same_standing(self.players[1])
    }

    /// Neither player's score is lower in `later` than in `self`.
    pub open spec fn no_score_lost(self, later: GameState) -> bool {
        later.players[0].score >= self.players[0].score && later.players[1].score
            >= self.players[1].score
    }

    /// Starts a session at time `now`, as host or as client.
    pub fn new(is_host: bool, now: u64) -> (s: GameState)
        ensures
            s == initial_state(is_host, now),
            s.wf(),
    {
        let s = GameState {
            players: [Player::initial(0), Player::initial(1)],
            network_players: [Player::initial(0), Player::initial(1)],
            is_host,
            player_id: if is_host {
                0
            } else {
                1
            },
            last_send: now,
            inverse: InverseState::initial(),
            trap_flash_timer: [0, 0],
            game_time: 0,
            last_network_update: [now, now],
        };
        assert(s.players =~= initial_state(is_host, now).players);
        assert(s.network_players =~= initial_state(is_host, now).network_players);
        assert(s.trap_flash_timer =~= initial_state(is_host, now).trap_flash_timer);
        assert(s.last_network_update =~= initial_state(is_host, now).last_network_update);
        s
    }

    /// Tells whether the state is well formed.
    pub fn is_wf(&self) -> (ok: bool)
        ensures
            ok == self.wf(),
    {
        let slots: bool = self.players[0].id == 0 && self.players[1].id == 1
            && self.network_players[0].id == 0 && self.network_players[1].id == 1;
        let role: bool = self.player_id == (if self.is_host {
            0
        } else {
            1
        });
        if slots && role {
            let o: usize = 1 - self.player_id as usize;
            self.players[o].score == self.network_players[o].score && self.players[o].is_trapped
                == self.network_players[o].is_trapped
        } else {
            false
        }
    }

    /// Tells whether the game is over.
    pub fn is_game_over(&self) -> (over: bool)
        ensures
            over == self.game_over(),
    {
        self.players[0].score >= WIN_SCORE || self.players[1].score >= WIN_SCORE
    }

    /// Starts the game afresh.
    pub fn reset_game(&mut self)
        ensures
            *final(self) == old(self).reset(),
            old(self).wf() ==> final(self).wf(),
            !final(self).game_over(),
    {
        self.players = [Player::initial(0), Player::initial(1)];
        self.network_players = [Player::initial(0), Player::initial(1)];
        self.inverse = InverseState::initial();
        self.trap_flash_timer = [0, 0];
        assert(self.players =~= old(self).reset().players);
        assert(self.network_players =~= old(self).reset().network_players);
        assert(self.trap_flash_timer =~= old(self).reset().trap_flash_timer);
    }

    /// Exchanges the local player's body and shadow.
    pub fn swap_with_shadow(&mut self)
        requires
            old(self).wf(),
        ensures
            *final(self) == old(self).swapped(),
            final(self).wf(),
    {
        let me: usize = self.player_id as usize;
        self.players[me].swap_with_shadow();
        self.network_players[me].swap_with_shadow();
        assert(self.players =~= old(self).swapped().players);
        assert(self.network_players =~= old(self).swapped().network_players);
    }

    /// Advances the inverse-control timer by a frame of `dt` microseconds and says what
    /// to broadcast. Only the host's timer runs.
    pub fn update_inverse_timer(&mut self, dt: u32) -> (msg: Option<Message>)
        ensures
            *final(self) == old(self).inverse_ticked(dt),
            msg == old(self).inverse_announced(dt),
            old(self).wf() ==> final(self).wf(),
    {
        if !self.is_host {
            return None;
        }
        self.inverse.tick(dt)
    }

    /// Applies a frame of input to the rival's slot.
    pub fn update_player(&mut self, input: Vec2, dt: u32)
        requires
            old(self).wf(),
        ensures
            *final(self) == old(self).input_applied(input, dt),
            final(self).wf(),
    {
        let o: usize = 1 - self.player_id as usize;
        if self.inverse.active {
            let target: Vec2 = move_point(self.players[o].pos, input, dt);
            self.players[o].pos = target;
            self.network_players[o].pos = target;
        } else {
            let target: Vec2 = move_point(self.players[o].shadow_pos, input, dt);
            self.players[o].shadow_pos = target;
            self.network_players[o].shadow_pos = target;
        }
        assert(self.players =~= old(self).input_applied(input, dt).players);
        assert(self.network_players =~= old(self).input_applied(input, dt).network_players);
    }
    /// Advances the rival's displayed record by a frame of `dt` microseconds toward the
    /// network truth. A slot whose last wire update is older than `STALE_AFTER` is set
    /// to the truth at once.
    pub fn interpolate_players(&mut self, dt: u32, now: u64)
        requires
            old(self).wf(),
        ensures
            *final(self) == old(self).interpolated(dt, now),
            final(self).wf(),
            old(self).stale(now) ==> final(self).players[old(self).other()] == old(
                self,
            ).network_players[old(self).other()],
    {
        let o: usize = 1 - self.player_id as usize;
        let since: u64 = self.last_network_update[o];
        let age: u64 = if now >= since {
            now - since
        } else {
            0
        };
        let truth: Player = self.network_players[o];
        if age > STALE_AFTER {
            self.players[o] = truth;
        } else {
            let travel: u32 = travel_for(dt);
            let shown: Player = self.players[o];
            self.players[o].pos = approach_point(shown.pos, truth.pos, travel);
            self.players[o].shadow_pos = approach_point(shown.shadow_pos, truth.shadow_pos, travel);
            self.players[o].score = truth.score;
            self.players[o].is_trapped = truth.is_trapped;
        }
        assert(self.players =~= old(self).interpolated(dt, now).players);
    }

    /// Runs the trap check for a frame of `dt` microseconds and returns the trap events
    /// to broadcast. The flashes decay on every peer; only the host holds the slots
    /// against the trap rule, so a client returns no event.
    pub fn check_traps(&mut self, dt: u32) -> (events: Vec<Message>)
        requires
            old(self).wf(),
        ensures
            *final(self) == old(self).traps_checked(dt),
            events@ == old(self).trap_events(),
            final(self).wf(),
    {
        let mut events: Vec<Message> = Vec::new();
        self.trap_flash_timer[0] = count_down(self.trap_flash_timer[0], dt);
        self.trap_flash_timer[1] = count_down(self.trap_flash_timer[1], dt);
        if self.is_host {
            let d0: u128 = distance_squared(self.players[0].pos, self.players[1].shadow_pos);
            let d1: u128 = distance_squared(self.players[1].pos, self.players[0].shadow_pos);
            if check_player(&mut self.players[0], d0) {
                self.trap_flash_timer[0] = FLASH_DURATION;
                events.push(Message::TrapEvent { player_id: 0 });
            }
            if check_player(&mut self.players[1], d1) {
                self.trap_flash_timer[1] = FLASH_DURATION;
                events.push(Message::TrapEvent { player_id: 1 });
            }
            self.record_standing(0);
            self.record_standing(1);
        }
        assert(self.players =~= old(self).traps_checked(dt).players);
        assert(self.network_players =~= old(self).traps_checked(dt).network_players);
        assert(self.trap_flash_timer =~= old(self).traps_checked(dt).trap_flash_timer);
        assert(events@ =~= old(self).trap_events());
        events
    }

    fn record_standing(&mut self, slot: usize)
        requires
            slot < 2,
        ensures
            *final(self) == (GameState {
                network_players: with_at(
                    old(self).network_players,
                    slot as int,
                    old(self).network_players[slot as int].with_standing_of(
                        old(self).players[slot as int],
                    ),
                ),
                ..*old(self)
            }),
    {
        self.network_players[slot].score = self.players[slot].score;
        self.network_players[slot].is_trapped = self.players[slot].is_trapped;
        assert(self.network_players =~= with_at(
            old(self).network_players,
            slot as int,
            old(self).network_players[slot as int].with_standing_of(old(self).players[slot as int]),
        ));
    }

    /// Applies one message that arrived at time `now`.
    pub fn apply_message(&mut self, msg: Message, now: u64)
        requires
            old(self).wf(),
            msg.wf(),
        ensures
            *final(self) == old(self).applied(msg, now),
            final(self).wf(),
    {
        match msg {
            Message::PlayerUpdate(p) => {
                let slot: usize = p.id as usize;
                self.network_players[slot] = p;
                self.last_network_update[slot] = now;
                if p.id != self.player_id {
                    self.players[slot] = p;
                }
            },
            Message::InverseControl { active, time_left } => {
                self.inverse.active = active;
                self.inverse.timer = time_left;
            },
            Message::TrapEvent { player_id } => {
                let slot: usize = player_id as usize;
                self.players[slot].mark_trapped();
                self.record_standing(slot);
                self.trap_flash_timer[slot] = FLASH_DURATION;
            },
            Message::GameReset => {
                self.reset_game();
            },
        }
        assert(self.players =~= old(self).applied(msg, now).players);
        assert(self.network_players =~= old(self).applied(msg, now).network_players);
        assert(self.trap_flash_timer =~= old(self).applied(msg, now).trap_flash_timer);
        assert(self.last_network_update =~= old(self).applied(msg, now).last_network_update);
    }

    /// Takes in the datagrams that arrived for this frame: each is decoded and applied
    /// in the order of arrival. A datagram that does not decode is dropped and changes
    /// nothing.
    pub fn receive_messages(&mut self, datagrams: &Vec<Vec<u8>>, now: u64)
        requires
            old(self).wf(),
        ensures
            *final(self) == old(self).received(frames_of(datagrams@), now),
            final(self).wf(),
    {
        let ghost frames = frames_of(datagrams@);
        let mut i: usize = 0;
        while i < datagrams.len()
            invariant
                0 <= i <= datagrams.len(),
                frames == frames_of(datagrams@),
                self.wf(),
                *self == old(self).received(frames.take(i as int), now),
            decreases datagrams.len() - i,
        {
            assert(frames.take(i + 1).drop_last() =~= frames.take(i as int));
            assert(frames.take(i + 1).last() == datagrams@[i as int]@);
            let decoded: Result<Message, DecodeError> = decode(datagrams[i].as_slice());
            match decoded {
                Ok(msg) => {
                    self.apply_message(msg, now);
                },
                Err(_) => {},
            }
            i = i + 1;
        }
        assert(frames.take(i as int) =~= frames);
    }

    /// Makes the local slot's network truth equal to its displayed record, as it must
    /// be before the slot is broadcast.
    pub fn sync_local(&mut self)
        requires
            old(self).wf(),
        ensures
            *final(self) == old(self).synced(),
            final(self).wf(),
            final(self).network_players[old(self).local()] == final(self).players[old(
                self,
            ).local()],
    {
        let me: usize = self.player_id as usize;
        self.network_players[me] = self.players[me];
        assert(self.network_players =~= old(self).synced().network_players);
    }

    /// Advances the effects clock by `dt` microseconds.
    pub fn advance_clock(&mut self, dt: u32)
        ensures
            *final(self) == old(self).clock_advanced(dt),
            old(self).wf() ==> final(self).wf(),
    {
        self.game_time = if self.game_time <= u64::MAX - dt as u64 {
            self.game_time + dt as u64
        } else {
            u64::MAX
        };
    }

    /// Handles a local request to start afresh. It is honoured only when the game is
    /// over, and then the reset is also to be broadcast.
    pub fn request_reset(&mut self) -> (msg: Option<Message>)
        ensures
            *final(self) == old(self).reset_requested(),
            msg == if old(self).game_over() {
                Some(Message::GameReset)
            } else {
                None
            },
            old(self).wf() ==> final(self).wf(),
    {
        if self.is_game_over() {
            self.reset_game();
            Some(Message::GameReset)
        } else {
            None
        }
    }

    /// Returns the periodic broadcast if it is due at time `now`, and notes that it
    /// went out.
    pub fn periodic_messages(&mut self, now: u64) -> (out: Vec<Message>)
        requires
            old(self).wf(),
        ensures
            *final(self) == old(self).sent(now),
            out@ == old(self).periodic(now),
            final(self).wf(),
            forall|i: int| 0 <= i < out@.len() ==> (#[trigger] out@[i]).wf(),
    {
        let mut out: Vec<Message> = Vec::new();
        let age: u64 = if now >= self.last_send {
            now - self.last_send
        } else {
            0
        };
        if age >= SEND_INTERVAL {
            let me: usize = self.player_id as usize;
            out.push(Message::PlayerUpdate(self.network_players[me]));
            out.push(Message::PlayerUpdate(self.network_players[1 - me]));
            if self.is_host {
                out.push(
                    Message::InverseControl {
                        active: self.inverse.active,
                        time_left: self.inverse.timer,
                    },
                );
            }
            self.last_send = now;
        }
        assert(out@ =~= old(self).periodic(now));
        out
    }
}

/// What every step of a frame but a reset keeps: well-formedness, the peer's role, and
/// each displayed score and trapped flag, unless the step is there to change them. A
/// trap check or a trap event raises a score or leaves it; so does a snapshot unless it
/// brings a lower score for the rival's slot. Interpolation changes neither score nor
/// flag. So the end of the game does not undo itself: only a reset, or such a
/// snapshot, takes a game that is over back to one that is not.
pub proof fn lemma_game_over_persists(s: GameState, msg: Message, input: Vec2, dt: u32, now: u64)
    requires
        s.wf(),
        msg.wf(),
    ensures
        s.clock_advanced(dt).wf() && s.same_standings(s.clock_advanced(dt)),
        s.inverse_ticked(dt).wf() && s.same_standings(s.inverse_ticked(dt)),
        s.interpolated(dt, now).wf() && s.same_standings(s.interpolated(dt, now)),
        s.input_applied(input, dt).wf() && s.same_standings(s.input_applied(input, dt)),
        s.swapped().wf() && s.same_standings(s.swapped()),
        s.synced().wf() && s.same_standings(s.synced()),
        s.sent(now).wf() && s.same_standings(s.sent(now)),
        s.traps_checked(dt).wf() && s.no_score_lost(s.traps_checked(dt)),
        s.applied(msg, now).wf(),
        msg is InverseControl ==> s.same_standings(s.applied(msg, now)),
        msg is TrapEvent ==> s.no_score_lost(s.applied(msg, now)),
        msg matches Message::PlayerUpdate(p) && (p.id == s.player_id || p.score
            >= s.players[p.id as int].score) ==> s.no_score_lost(s.applied(msg, now)),
        msg matches Message::PlayerUpdate(p) && (p.id == s.player_id || p.same_standing(
            s.players[p.id as int],
        )) ==> s.same_standings(s.applied(msg, now)),
        forall|later: GameState| #[trigger] s.same_standings(later) ==> s.no_score_lost(later),
        forall|later: GameState|
            s.game_over() && #[trigger] s.no_score_lost(later) ==> later.game_over(),
        !s.reset().game_over(),
{
}

/// The trap check follows the trap rule: on the host, each slot's flag after the check
/// is the rule's answer to the flag before and the distance from its body to the
/// rival's shadow, the score goes up by one exactly where a trap springs, and the
/// network truth carries the same flag and score.
pub proof fn lemma_trap_check_follows_rule(s: GameState, dt: u32, i: int)
    requires
        s.is_host,
        0 <= i < 2,
    ensures
        s.traps_checked(dt).players[i].is_trapped == trapped_after(
            s.players[i].is_trapped,
            s.trap_distance(i),
        ),
        s.traps_checked(dt).players[i].score == if s.trap_springs(i) {
            crate::player::score_after_trap(s.players[i].score)
        } else {
            s.players[i].score
        },
        s.traps_checked(dt).players[i].pos == s.players[i].pos,
        s.traps_checked(dt).players[i].shadow_pos == s.players[i].shadow_pos,
        s.traps_checked(dt).network_players[i].same_standing(s.traps_checked(dt).players[i]),
{
}

/// What the trap check decided survives interpolation: after a trap check, a frame of
/// interpolation leaves every displayed score and trapped flag as the check set it.
/// The same holds after a trap event was applied.
pub proof fn lemma_trap_survives_interpolation(
    s: GameState,
    slot: u8,
    dt: u32,
    next_dt: u32,
    now: u64,
)
    requires
        s.wf(),
        slot < 2,
    ensures
        s.traps_checked(dt).same_standings(s.traps_checked(dt).interpolated(next_dt, now)),
        s.applied(Message::TrapEvent { player_id: slot }, now).same_standings(
            s.applied(Message::TrapEvent { player_id: slot }, now).interpolated(next_dt, now),
        ),
{
}

/// A reset sets every record, displayed and network truth alike, back to its first
/// layout and leaves the effects clock alone, whether it was asked for here or came in
/// a datagram. The state after it is at rest: interpolation brings nothing back.
pub proof fn lemma_reset_is_at_rest(s: GameState, dt: u32, now: u64)
    requires
        s.wf(),
    ensures
        s.reset().game_time == s.game_time,
        s.applied(Message::GameReset, now) == s.reset(),
        s.reset().players[0] == initial_player(0),
        s.reset().players[1] == initial_player(1),
        s.reset().network_players == s.reset().players,
        s.reset().inverse == initial_inverse(),
        s.reset().trap_flash_timer[0] == 0 && s.reset().trap_flash_timer[1] == 0,
        s.reset().wf(),
        s.reset().interpolated(dt, now).players == s.reset().players,
        s.reset().interpolated(dt, now) == s.reset(),
{
    let r = s.reset();
    let travel = interpolation_travel(dt as int);
    lemma_on_target(initial_player(0).pos, travel);
    lemma_on_target(initial_player(0).shadow_pos, travel);
    lemma_on_target(initial_player(1).pos, travel);
    lemma_on_target(initial_player(1).shadow_pos, travel);
    assert(r.network_players =~= r.players);
    assert(r.interpolated(dt, now).players =~= r.players);
}

/// One frame of interpolation of a slot that is not stale. The rival's displayed body
/// stays on the segment between where it was and its truth, coordinate by coordinate,
/// and gets no farther from the truth. If the truth is within `reach` before the frame,
/// the body is on it after the frame or the truth is within `reach` less the frame's
/// travel. Where the truth is out of the travel's reach, the body moves by no less than
/// the travel and by less than the travel and three units. The same holds of the
/// shadow, with its own truth.
pub proof fn lemma_interpolation_step(s: GameState, dt: u32, now: u64, reach: int)
    requires
        s.wf(),
        !s.stale(now),
        0 <= reach,
        dist_sq(s.players[s.other()].pos, s.network_players[s.other()].pos) <= reach * reach,
        dist_sq(s.players[s.other()].shadow_pos, s.network_players[s.other()].shadow_pos)
            <= reach * reach,
    ensures
        ({
            let o = s.other();
            let was = s.players[o];
            let truth = s.network_players[o];
            let is = s.interpolated(dt, now).players[o];
            let travel = interpolation_travel(dt as int);
            &&& between(was.pos.x as int, is.pos.x as int, truth.pos.x as int)
            &&& between(was.pos.y as int, is.pos.y as int, truth.pos.y as int)
            &&& between(was.shadow_pos.x as int, is.shadow_pos.x as int, truth.shadow_pos.x as int)
            &&& between(was.shadow_pos.y as int, is.shadow_pos.y as int, truth.shadow_pos.y as int)
            &&& dist_sq(is.pos, truth.pos) <= dist_sq(was.pos, truth.pos)
            &&& dist_sq(is.shadow_pos, truth.shadow_pos) <= dist_sq(was.shadow_pos, truth.shadow_pos)
            &&& is.pos == truth.pos || (travel <= reach && dist_sq(is.pos, truth.pos) <= (reach
                - travel) * (reach - travel))
            &&& is.shadow_pos == truth.shadow_pos || (travel <= reach && dist_sq(
                is.shadow_pos,
                truth.shadow_pos,
            ) <= (reach - travel) * (reach - travel))
            &&& dist_sq(was.pos, truth.pos) > travel * travel ==> travel * travel <= dist_sq(
                is.pos,
                was.pos,
            ) < (travel + 3) * (travel + 3)
            &&& dist_sq(was.shadow_pos, truth.shadow_pos) > travel * travel ==> travel * travel
                <= dist_sq(is.shadow_pos, was.shadow_pos) < (travel + 3) * (travel + 3)
            &&& dist_sq(was.pos, truth.pos) <= travel * travel ==> is.pos == truth.pos
            &&& dist_sq(was.shadow_pos, truth.shadow_pos) <= travel * travel ==> is.shadow_pos
                == truth.shadow_pos
            &&& is.same_standing(was)
        }),
{
    let o = s.other();
    let was = s.players[o];
    let truth = s.network_players[o];
    let travel = interpolation_travel(dt as int);
    assert(0 <= travel);
    lemma_approach_between(was.pos, truth.pos, travel);
    lemma_approach_between(was.shadow_pos, truth.shadow_pos, travel);
    lemma_approach_closes(was.pos, truth.pos, travel, reach);
    lemma_approach_closes(was.shadow_pos, truth.shadow_pos, travel, reach);
    lemma_step_length(was.pos, truth.pos, travel);
    lemma_step_length(was.shadow_pos, truth.shadow_pos, travel);
}

proof fn lemma_interpolated_over_closes(s: GameState, dt: u32, nows: Seq<u64>)
    requires
        s.wf(),
    ensures
        ({
            let o = s.other();
            let end = s.interpolated_over(dt, nows);
            let truth = s.network_players[o];
            let travel = interpolation_travel(dt as int);
            &&& end.wf()
            &&& end.player_id == s.player_id
            &&& end.network_players == s.network_players
            &&& end.players[s.local()] == s.players[s.local()]
            &&& end.players[o].pos == truth.pos || end.players[o].pos == approach_n(
                s.players[o].pos,
                truth.pos,
                travel,
                nows.len(),
            )
            &&& end.players[o].shadow_pos == truth.shadow_pos || end.players[o].shadow_pos
                == approach_n(s.players[o].shadow_pos, truth.shadow_pos, travel, nows.len())
            &&& nows.len() > 0 ==> end.players[o].score == truth.score && end.players[o].is_trapped
                == truth.is_trapped
        }),
    decreases nows.len(),
{
    if nows.len() > 0 {
        lemma_interpolated_over_closes(s, dt, nows.drop_last());
        let truth = s.network_players[s.other()];
        let travel = interpolation_travel(dt as int);
        lemma_on_target(truth.pos, travel);
        lemma_on_target(truth.shadow_pos, travel);
    }
}

/// Displayed state converges on network truth. While the truth of the rival's slot does
/// not change and frames of the same `dt` follow each other, with body and shadow both
/// within `reach` of their truth at first, the rival's displayed record is exactly the
/// truth as soon as the frames' travel adds up to `reach`, whatever the times of the
/// frames.
pub proof fn lemma_displayed_converges(s: GameState, dt: u32, reach: int, nows: Seq<u64>)
    requires
        s.wf(),
        0 <= reach,
        dist_sq(s.players[s.other()].pos, s.network_players[s.other()].pos) <= reach * reach,
        dist_sq(s.players[s.other()].shadow_pos, s.network_players[s.other()].shadow_pos)
            <= reach * reach,
        nows.len() >= 1,
        nows.len() * interpolation_travel(dt as int) >= reach,
    ensures
        s.interpolated_over(dt, nows).players[s.other()] == s.network_players[s.other()],
        s.interpolated_over(dt, nows).network_players == s.network_players,
{
    let o = s.other();
    let truth = s.network_players[o];
    let travel = interpolation_travel(dt as int);
    assert(0 <= travel);
    lemma_interpolated_over_closes(s, dt, nows);
    lemma_interpolation_converges(s.players[o].pos, truth.pos, travel, reach, nows.len());
    lemma_interpolation_converges(
        s.players[o].shadow_pos,
        truth.shadow_pos,
        travel,
        reach,
        nows.len(),
    );
}

/// What is broadcast of the local slot is what is displayed of it: the
/// synchronisation step makes network truth and displayed record equal, and the reset
/// and the trap check that may follow it in the frame change both alike.
pub proof fn lemma_broadcast_is_synced(s: GameState, dt: u32, now: u64)
    requires
        s.wf(),
    ensures
        s.synced().network_players[s.local()] == s.players[s.local()],
        ({
            let end = s.synced().reset_requested().traps_checked(dt);
            end.snapshot()[0] == Message::PlayerUpdate(end.players[s.local()])
        }),
{
}

} // verus!
