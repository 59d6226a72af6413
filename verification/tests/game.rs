use shadow_swap::codec::encode;
use shadow_swap::game::GameState;
use shadow_swap::message::Message;
use shadow_swap::player::Player;
use shadow_swap::timer::InverseState;
use shadow_swap::vec2::Vec2;

fn first_layout(slot: u8) -> Player {
    if slot == 0 {
        Player {
            id: 0,
            pos: Vec2 { x: 360_000, y: 400_000 },
            shadow_pos: Vec2 { x: 360_000, y: 500_000 },
            score: 0,
            is_trapped: false,
        }
    } else {
        Player {
            id: 1,
            pos: Vec2 { x: 840_000, y: 400_000 },
            shadow_pos: Vec2 { x: 840_000, y: 300_000 },
            score: 0,
            is_trapped: false,
        }
    }
}

/// A host whose rival has the given score, in the displayed record and the truth.
fn host_with_rival_score(score: u32) -> GameState {
    let mut g: GameState = GameState::new(true, 0);
    g.players[1].score = score;
    g.network_players[1].score = score;
    assert!(g.is_wf());
    g
}

fn moved_rival(slot: u8) -> Player {
    Player {
        id: slot,
        pos: Vec2 { x: 111_000, y: 222_000 },
        shadow_pos: Vec2 { x: 333_000, y: 444_000 },
        score: 1,
        is_trapped: true,
    }
}

#[test]
fn a_session_starts_with_the_first_layout() {
    let host: GameState = GameState::new(true, 42);
    assert_eq!(host.players, [first_layout(0), first_layout(1)]);
    assert_eq!(host.network_players, [first_layout(0), first_layout(1)]);
    assert!(host.is_host);
    assert_eq!(host.player_id, 0);
    assert_eq!(host.last_send, 42);
    assert_eq!(host.last_network_update, [42, 42]);
    assert_eq!(host.inverse, InverseState { active: false, timer: 0, cooldown: 0 });
    assert_eq!(host.trap_flash_timer, [0, 0]);
    assert_eq!(host.game_time, 0);
    assert!(host.is_wf());
    assert!(!host.is_game_over());

    let client: GameState = GameState::new(false, 42);
    assert!(!client.is_host);
    assert_eq!(client.player_id, 1);
    assert_eq!(client.players, host.players);
    assert!(client.is_wf());
}

#[test]
fn the_first_layout_puts_slot_zero_left_and_slot_one_right() {
    assert_eq!(Player::initial(0), first_layout(0));
    assert_eq!(Player::initial(1), first_layout(1));
    assert!(Player::initial(0).pos.x < 600_000 && Player::initial(1).pos.x > 600_000);
}

#[test]
fn a_state_with_a_record_in_the_wrong_slot_is_not_well_formed() {
    let mut g: GameState = GameState::new(true, 0);
    g.players[1].id = 0;
    assert!(!g.is_wf());
    let mut h: GameState = GameState::new(true, 0);
    h.player_id = 1;
    assert!(!h.is_wf());
    let mut k: GameState = GameState::new(false, 0);
    k.network_players[0].id = 5;
    assert!(!k.is_wf());
}

#[test]
fn the_rivals_displayed_record_carries_the_standing_of_its_truth() {
    let mut g: GameState = GameState::new(true, 0);
    g.players[1].score = 1;
    assert!(!g.is_wf());
    g.network_players[1].score = 1;
    assert!(g.is_wf());
    g.network_players[1].is_trapped = true;
    assert!(!g.is_wf());
    // the local slot is free to differ until it is synchronised
    let mut h: GameState = GameState::new(true, 0);
    h.players[0].score = 2;
    h.players[0].is_trapped = true;
    assert!(h.is_wf());
}

#[test]
fn a_snapshot_of_the_rival_replaces_truth_and_display() {
    let mut g: GameState = GameState::new(true, 0);
    g.apply_message(Message::PlayerUpdate(moved_rival(1)), 777);
    assert_eq!(g.network_players[1], moved_rival(1));
    assert_eq!(g.players[1], moved_rival(1));
    assert_eq!(g.last_network_update, [0, 777]);
    assert_eq!(g.players[0], first_layout(0));
    assert_eq!(g.network_players[0], first_layout(0));
}

#[test]
fn a_snapshot_of_the_local_slot_replaces_only_the_truth() {
    let mut g: GameState = GameState::new(false, 0);
    g.apply_message(Message::PlayerUpdate(moved_rival(1)), 777);
    assert_eq!(g.network_players[1], moved_rival(1));
    assert_eq!(g.players[1], first_layout(1));
    assert_eq!(g.last_network_update, [0, 777]);
}

#[test]
fn the_last_snapshot_wins() {
    let mut g: GameState = GameState::new(true, 0);
    let mut later: Player = moved_rival(1);
    later.score = 0;
    g.apply_message(Message::PlayerUpdate(moved_rival(1)), 10);
    g.apply_message(Message::PlayerUpdate(later), 5);
    assert_eq!(g.players[1], later);
    assert_eq!(g.last_network_update[1], 5);
}

#[test]
fn an_inverse_control_message_replaces_flag_and_countdown() {
    let mut g: GameState = GameState::new(true, 0);
    g.inverse = InverseState { active: false, timer: 0, cooldown: 3_000_000 };
    g.apply_message(Message::InverseControl { active: true, time_left: 123 }, 9);
    assert_eq!(g.inverse, InverseState { active: true, timer: 123, cooldown: 3_000_000 });
}

#[test]
fn reset_preserves_presentation_clock() {
    let mut g: GameState = GameState::new(true, 0);
    g.players[0].score = 2;
    g.players[0].pos = Vec2 { x: 5, y: 5 };
    g.players[1].shadow_pos = Vec2 { x: 6, y: 6 };
    g.trap_flash_timer = [300_000, 0];
    g.inverse = InverseState { active: true, timer: 2_000_000, cooldown: 10_000_000 };
    g.game_time = 37_500_000;
    g.apply_message(Message::GameReset, 99);
    assert_eq!(g.players[0].score, 0);
    assert_eq!(g.players, [first_layout(0), first_layout(1)]);
    assert_eq!(g.trap_flash_timer, [0, 0]);
    assert_eq!(g.inverse, InverseState { active: false, timer: 0, cooldown: 0 });
    assert_eq!(g.game_time, 37_500_000);
}

#[test]
fn reset_covers_the_network_truth() {
    let mut g: GameState = GameState::new(true, 3);
    let rival = Player {
        id: 1,
        pos: Vec2 { x: 100_000, y: 100_000 },
        shadow_pos: Vec2 { x: 100_000, y: 200_000 },
        score: 3,
        is_trapped: true,
    };
    g.apply_message(Message::PlayerUpdate(rival), 50);
    g.network_players[0].pos = Vec2 { x: 1, y: 1 };
    g.last_send = 40;
    assert!(g.is_game_over());
    g.reset_game();
    assert_eq!(g.players, [first_layout(0), first_layout(1)]);
    assert_eq!(g.network_players, [first_layout(0), first_layout(1)]);
    assert!(g.is_wf());

    // nothing of before the reset comes back, fresh or stale
    let after: GameState = g;
    g.interpolate_players(16_667, 60);
    assert_eq!(g, after);
    g.interpolate_players(16_667, 9_000_000);
    assert_eq!(g, after);
    assert!(!g.is_game_over());
}

#[test]
fn reset_keeps_role_and_timestamps() {
    let mut g: GameState = GameState::new(true, 3);
    g.apply_message(Message::PlayerUpdate(moved_rival(1)), 50);
    g.last_send = 40;
    g.reset_game();
    assert_eq!(g.last_network_update, [3, 50]);
    assert_eq!(g.last_send, 40);
    assert!(g.is_host);
    assert_eq!(g.player_id, 0);
}

#[test]
fn a_second_reset_changes_nothing() {
    let mut g: GameState = host_with_rival_score(3);
    g.reset_game();
    let once: GameState = g;
    g.apply_message(Message::GameReset, 4);
    assert_eq!(g, once);
}

#[test]
fn game_is_over_exactly_from_three_traps_on() {
    let mut g: GameState = GameState::new(true, 0);
    for (a, b, over) in [
        (0u32, 0u32, false),
        (2, 2, false),
        (3, 0, true),
        (0, 3, true),
        (2, 4, true),
        (u32::MAX, 0, true),
    ] {
        g.players[0].score = a;
        g.players[1].score = b;
        assert_eq!(g.is_game_over(), over);
    }
}

#[test]
fn game_over_is_judged_on_the_displayed_scores() {
    let mut g: GameState = GameState::new(true, 0);
    g.network_players[0].score = 5;
    g.network_players[1].score = 5;
    assert!(!g.is_game_over());
}

#[test]
fn the_third_trap_ends_the_game_and_only_a_reset_restarts_it() {
    for rival in [false, true] {
        let mut g: GameState = GameState::new(false, 0);
        let slot: u8 = if rival { 0 } else { 1 };
        for _ in 0..2 {
            g.apply_message(Message::TrapEvent { player_id: slot }, 1);
            assert!(!g.is_game_over());
        }
        g.apply_message(Message::TrapEvent { player_id: slot }, 1);
        assert!(g.is_game_over());

        g.update_inverse_timer(1_000_000);
        g.interpolate_players(16_667, 2);
        g.interpolate_players(16_667, 3_000_000);
        g.update_player(Vec2 { x: 1_000, y: 0 }, 16_667);
        g.swap_with_shadow();
        g.sync_local();
        g.check_traps(16_667);
        g.advance_clock(16_667);
        g.periodic_messages(1_000_000);
        g.apply_message(Message::InverseControl { active: true, time_left: 5 }, 2);
        g.apply_message(Message::TrapEvent { player_id: 1 - slot }, 3);
        g.interpolate_players(16_667, 4);
        assert!(g.is_game_over());
        assert!(g.is_wf());

        g.apply_message(Message::GameReset, 4);
        assert!(!g.is_game_over());
        g.interpolate_players(16_667, 5);
        assert!(!g.is_game_over());
    }
}

#[test]
fn a_snapshot_with_a_lower_score_lowers_the_displayed_score() {
    let mut g: GameState = host_with_rival_score(3);
    assert!(g.is_game_over());
    g.apply_message(Message::PlayerUpdate(first_layout(1)), 1);
    assert!(!g.is_game_over());
}

#[test]
fn a_local_reset_is_honoured_only_when_the_game_is_over() {
    let mut g: GameState = GameState::new(true, 0);
    g.players[0].score = 2;
    g.players[0].pos = Vec2 { x: 1, y: 1 };
    let before: GameState = g;
    assert_eq!(g.request_reset(), None);
    assert_eq!(g, before);

    g.players[0].score = 3;
    assert_eq!(g.request_reset(), Some(Message::GameReset));
    assert_eq!(g.players, [first_layout(0), first_layout(1)]);
}

#[test]
fn datagrams_are_taken_in_in_order() {
    let mut g: GameState = GameState::new(true, 0);
    let mut second: Player = moved_rival(1);
    second.pos = Vec2 { x: 9, y: 9 };
    let datagrams: Vec<Vec<u8>> = vec![
        encode(&Message::PlayerUpdate(moved_rival(1))),
        encode(&Message::TrapEvent { player_id: 0 }),
        encode(&Message::PlayerUpdate(second)),
        encode(&Message::InverseControl { active: true, time_left: 99 }),
    ];
    g.receive_messages(&datagrams, 500);
    assert_eq!(g.players[1], second);
    assert_eq!(g.network_players[1], second);
    assert_eq!(g.last_network_update, [0, 500]);
    assert_eq!(g.players[0].score, 1);
    assert!(g.players[0].is_trapped);
    assert_eq!(g.trap_flash_timer, [1_000_000, 0]);
    assert!(g.inverse.active);
    assert_eq!(g.inverse.timer, 99);
}

#[test]
fn a_datagram_that_does_not_decode_is_dropped() {
    let mut g: GameState = GameState::new(true, 0);
    let mut broken: Vec<u8> = encode(&Message::PlayerUpdate(moved_rival(1)));
    broken.truncate(20);
    let datagrams: Vec<Vec<u8>> = vec![
        vec![],
        vec![0xFF, 0xFF, 0xFF, 0xFF, 0xFF],
        broken,
        vec![2, 0, 0, 0, 7],
        encode(&Message::TrapEvent { player_id: 1 }),
        vec![1, 0, 0, 0, 3, 0, 0, 0, 0],
    ];
    g.receive_messages(&datagrams, 500);
    let mut expected: GameState = GameState::new(true, 0);
    expected.players[1].score = 1;
    expected.players[1].is_trapped = true;
    expected.network_players[1].score = 1;
    expected.network_players[1].is_trapped = true;
    expected.trap_flash_timer = [0, 1_000_000];
    assert_eq!(g, expected);
}

#[test]
fn no_datagrams_change_nothing() {
    let mut g: GameState = GameState::new(false, 8);
    let before: GameState = g;
    g.receive_messages(&Vec::new(), 500);
    assert_eq!(g, before);
}

#[test]
fn a_reset_among_the_datagrams_takes_effect_where_it_stands() {
    let mut g: GameState = GameState::new(true, 0);
    g.players[0].score = 2;
    g.game_time = 5;
    let datagrams: Vec<Vec<u8>> =
        vec![encode(&Message::GameReset), encode(&Message::TrapEvent { player_id: 0 })];
    g.receive_messages(&datagrams, 500);
    assert_eq!(g.players[0].score, 1);
    assert!(g.players[0].is_trapped);
    assert_eq!(g.trap_flash_timer, [1_000_000, 0]);
    assert_eq!(g.game_time, 5);
}

#[test]
fn what_came_before_a_reset_is_wiped_and_what_came_after_stands() {
    let mut g: GameState = GameState::new(false, 0);
    let datagrams: Vec<Vec<u8>> = vec![
        encode(&Message::TrapEvent { player_id: 1 }),
        encode(&Message::InverseControl { active: true, time_left: 7 }),
        encode(&Message::GameReset),
        encode(&Message::TrapEvent { player_id: 0 }),
        encode(&Message::PlayerUpdate(moved_rival(0))),
        encode(&Message::InverseControl { active: true, time_left: 99 }),
    ];
    g.receive_messages(&datagrams, 500);
    assert_eq!(g.players, [moved_rival(0), first_layout(1)]);
    assert_eq!(g.network_players, [moved_rival(0), first_layout(1)]);
    assert_eq!(g.trap_flash_timer, [1_000_000, 0]);
    assert_eq!(g.inverse, InverseState { active: true, timer: 99, cooldown: 0 });
    assert_eq!(g.last_network_update, [500, 0]);
}

#[test]
fn a_reset_as_the_last_datagram_wipes_the_batch() {
    let mut g: GameState = GameState::new(false, 0);
    let datagrams: Vec<Vec<u8>> = vec![
        encode(&Message::TrapEvent { player_id: 1 }),
        encode(&Message::PlayerUpdate(moved_rival(0))),
        encode(&Message::GameReset),
    ];
    g.receive_messages(&datagrams, 500);
    assert_eq!(g.players, [first_layout(0), first_layout(1)]);
    assert_eq!(g.network_players, [first_layout(0), first_layout(1)]);
    assert_eq!(g.trap_flash_timer, [0, 0]);
}

#[test]
fn sync_makes_the_local_truth_equal_to_the_display() {
    let mut g: GameState = GameState::new(false, 0);
    g.players[1].pos = Vec2 { x: 1, y: 2 };
    g.players[1].score = 2;
    g.players[0].pos = Vec2 { x: 3, y: 4 };
    g.sync_local();
    assert_eq!(g.network_players[1], g.players[1]);
    assert_eq!(g.network_players[0], first_layout(0));
}

#[test]
fn the_effects_clock_adds_up_and_stops_at_the_top() {
    let mut g: GameState = GameState::new(true, 0);
    g.advance_clock(16_667);
    g.advance_clock(16_667);
    assert_eq!(g.game_time, 33_334);
    g.game_time = u64::MAX - 5;
    g.advance_clock(5);
    assert_eq!(g.game_time, u64::MAX);
    g.advance_clock(1);
    assert_eq!(g.game_time, u64::MAX);
    g.game_time = u64::MAX - 5;
    g.advance_clock(6);
    assert_eq!(g.game_time, u64::MAX);
}

#[test]
fn the_periodic_broadcast_waits_for_its_interval() {
    let mut g: GameState = GameState::new(true, 1_000);
    assert!(g.periodic_messages(1_000).is_empty());
    assert!(g.periodic_messages(8_999).is_empty());
    assert!(g.periodic_messages(500).is_empty());
    assert_eq!(g.last_send, 1_000);
    assert_eq!(g.periodic_messages(9_000).len(), 3);
    assert_eq!(g.last_send, 9_000);
    assert!(g.periodic_messages(16_999).is_empty());
    assert_eq!(g.periodic_messages(17_000).len(), 3);
}

#[test]
fn the_host_broadcasts_both_slots_and_the_inverse_state() {
    let mut g: GameState = GameState::new(true, 0);
    g.apply_message(Message::PlayerUpdate(moved_rival(1)), 1);
    g.players[0].score = 9;
    g.inverse = InverseState { active: true, timer: 1_234, cooldown: 10_000_000 };
    let out: Vec<Message> = g.periodic_messages(8_000);
    assert_eq!(
        out,
        vec![
            Message::PlayerUpdate(first_layout(0)),
            Message::PlayerUpdate(moved_rival(1)),
            Message::InverseControl { active: true, time_left: 1_234 },
        ]
    );
}

#[test]
fn the_client_broadcasts_both_slots_own_first() {
    let mut g: GameState = GameState::new(false, 0);
    g.apply_message(Message::PlayerUpdate(moved_rival(0)), 1);
    let out: Vec<Message> = g.periodic_messages(8_000);
    assert_eq!(
        out,
        vec![Message::PlayerUpdate(first_layout(1)), Message::PlayerUpdate(moved_rival(0))]
    );
}
