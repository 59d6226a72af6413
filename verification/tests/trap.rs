use shadow_swap::config::{FLASH_DURATION, TRAP_RADIUS};
use shadow_swap::game::GameState;
use shadow_swap::message::Message;
use shadow_swap::player::Player;
use shadow_swap::trap::check_player;
use shadow_swap::vec2::{distance_squared, isqrt, Vec2};

/// A host state with slot 0's body `px` pixels right of slot 1's shadow, and the other
/// pair far apart.
fn host_with_distance(px: i32) -> GameState {
    let mut g: GameState = GameState::new(true, 0);
    g.players[1].shadow_pos = Vec2 { x: 100_000, y: 100_000 };
    g.players[0].pos = Vec2 { x: 100_000 + px * 1_000, y: 100_000 };
    g.players[0].shadow_pos = Vec2 { x: 1_000_000, y: 700_000 };
    g.players[1].pos = Vec2 { x: 600_000, y: 100_000 };
    g
}

fn set_distance(g: &mut GameState, px: i32) {
    g.players[0].pos = Vec2 { x: 100_000 + px * 1_000, y: 100_000 };
}

#[test]
fn trap_then_clear() {
    let mut g: GameState = host_with_distance(40);
    let events: Vec<Message> = g.check_traps(16_667);
    assert_eq!(events, vec![Message::TrapEvent { player_id: 0 }]);
    assert!(g.players[0].is_trapped);
    assert_eq!(g.players[0].score, 1);

    set_distance(&mut g, 110);
    let events: Vec<Message> = g.check_traps(16_667);
    assert!(events.is_empty());
    assert!(!g.players[0].is_trapped);
    assert_eq!(g.players[0].score, 1);
}

#[test]
fn trapped_flag_survives_a_dip_above_the_radius() {
    let mut g: GameState = host_with_distance(40);
    g.check_traps(16_667);
    for px in [51, 60, 99, 100, 75, 49, 10, 100] {
        set_distance(&mut g, px);
        let events: Vec<Message> = g.check_traps(16_667);
        assert!(events.is_empty(), "no new trap at {} px", px);
        assert!(g.players[0].is_trapped, "still trapped at {} px", px);
        assert_eq!(g.players[0].score, 1);
    }
    set_distance(&mut g, 101);
    g.check_traps(16_667);
    assert!(!g.players[0].is_trapped);
    assert_eq!(g.players[0].score, 1);
}

#[test]
fn trap_springs_again_after_release() {
    let mut g: GameState = host_with_distance(40);
    g.check_traps(16_667);
    set_distance(&mut g, 150);
    g.check_traps(16_667);
    assert!(!g.players[0].is_trapped);
    set_distance(&mut g, 49);
    let events: Vec<Message> = g.check_traps(16_667);
    assert_eq!(events, vec![Message::TrapEvent { player_id: 0 }]);
    assert!(g.players[0].is_trapped);
    assert_eq!(g.players[0].score, 2);
}

#[test]
fn the_radius_itself_is_outside_the_trap() {
    let mut g: GameState = host_with_distance(50);
    assert!(g.check_traps(16_667).is_empty());
    assert!(!g.players[0].is_trapped);
    assert_eq!(g.players[0].score, 0);
    g.players[0].pos.x -= 1;
    assert_eq!(g.check_traps(16_667), vec![Message::TrapEvent { player_id: 0 }]);
}

#[test]
fn distance_is_euclidean() {
    // 30 px across and 40 px down is 50 px away: not trapped; one unit closer is.
    let mut g: GameState = host_with_distance(0);
    g.players[0].pos = Vec2 { x: 130_000, y: 140_000 };
    assert!(g.check_traps(0).is_empty());
    g.players[0].pos = Vec2 { x: 130_000, y: 139_999 };
    assert_eq!(g.check_traps(0).len(), 1);
}

#[test]
fn both_slots_can_be_trapped_in_one_frame() {
    let mut g: GameState = GameState::new(true, 0);
    g.players[0].pos = Vec2 { x: 300_000, y: 300_000 };
    g.players[1].shadow_pos = Vec2 { x: 310_000, y: 300_000 };
    g.players[1].pos = Vec2 { x: 700_000, y: 300_000 };
    g.players[0].shadow_pos = Vec2 { x: 700_000, y: 320_000 };
    let events: Vec<Message> = g.check_traps(1_000);
    assert_eq!(
        events,
        vec![Message::TrapEvent { player_id: 0 }, Message::TrapEvent { player_id: 1 }]
    );
    assert_eq!(g.players[0].score, 1);
    assert_eq!(g.players[1].score, 1);
    assert_eq!(g.trap_flash_timer, [FLASH_DURATION, FLASH_DURATION]);
}

#[test]
fn flash_is_armed_by_a_trap_and_decays_to_zero() {
    let mut g: GameState = host_with_distance(40);
    g.check_traps(16_667);
    assert_eq!(g.trap_flash_timer[0], 1_000_000);
    assert_eq!(g.trap_flash_timer[1], 0);
    g.check_traps(400_000);
    assert_eq!(g.trap_flash_timer[0], 600_000);
    set_distance(&mut g, 300);
    g.check_traps(400_000);
    assert_eq!(g.trap_flash_timer[0], 200_000);
    g.check_traps(400_000);
    assert_eq!(g.trap_flash_timer[0], 0);
    g.check_traps(400_000);
    assert_eq!(g.trap_flash_timer[0], 0);
}

#[test]
fn a_client_checks_no_trap_but_its_flash_decays() {
    let mut g: GameState = host_with_distance(10);
    g.is_host = false;
    g.player_id = 1;
    g.trap_flash_timer = [500, 50];
    let before: GameState = g;
    assert!(g.check_traps(100).is_empty());
    assert_eq!(g.players, before.players);
    assert_eq!(g.network_players, before.network_players);
    assert_eq!(g.trap_flash_timer, [400, 0]);
}

#[test]
fn a_flash_armed_by_a_trap_event_decays_on_the_client() {
    let mut g: GameState = GameState::new(false, 0);
    g.apply_message(Message::TrapEvent { player_id: 0 }, 5);
    assert_eq!(g.trap_flash_timer, [1_000_000, 0]);
    g.check_traps(300_000);
    assert_eq!(g.trap_flash_timer, [700_000, 0]);
    g.check_traps(2_000_000);
    assert_eq!(g.trap_flash_timer, [0, 0]);
}

#[test]
fn the_host_records_a_trap_in_the_network_truth() {
    let mut g: GameState = GameState::new(true, 0);
    g.players[1].pos = Vec2 { x: 360_000, y: 460_000 };
    g.network_players[1].pos = Vec2 { x: 360_000, y: 460_000 };
    g.players[1].score = 2;
    g.network_players[1].score = 2;
    assert!(g.is_wf());
    assert_eq!(g.check_traps(16_000), vec![Message::TrapEvent { player_id: 1 }]);
    assert_eq!(g.players[1].score, 3);
    assert!(g.players[1].is_trapped);
    assert_eq!(g.network_players[1].score, 3);
    assert!(g.network_players[1].is_trapped);
    assert!(g.is_game_over());
    assert!(g.is_wf());

    // interpolation keeps what the check decided, fresh or stale
    g.interpolate_players(16_000, 50_000);
    assert_eq!(g.players[1].score, 3);
    assert!(g.players[1].is_trapped);
    g.interpolate_players(16_000, 5_000_000);
    assert_eq!(g.players[1].score, 3);
    assert!(g.is_game_over());

    // and the trap does not spring again while the body stays inside
    assert!(g.check_traps(16_000).is_empty());
    assert_eq!(g.players[1].score, 3);
}

#[test]
fn the_host_records_a_release_in_the_network_truth() {
    let mut g: GameState = host_with_distance(40);
    g.check_traps(16_667);
    assert!(g.network_players[0].is_trapped);
    set_distance(&mut g, 150);
    g.check_traps(16_667);
    assert!(!g.players[0].is_trapped);
    assert!(!g.network_players[0].is_trapped);
    assert_eq!(g.network_players[0].score, 1);
}

#[test]
fn client_reacts_to_a_trap_event() {
    let mut g: GameState = GameState::new(false, 0);
    g.apply_message(Message::TrapEvent { player_id: 1 }, 5);
    assert!(g.players[1].is_trapped);
    assert_eq!(g.players[1].score, 1);
    assert_eq!(g.trap_flash_timer, [0, FLASH_DURATION]);
    assert_eq!(g.players[0].score, 0);

    // an event for the rival's slot is kept by interpolation
    g.apply_message(Message::TrapEvent { player_id: 0 }, 6);
    assert_eq!(g.network_players[0].score, 1);
    assert!(g.network_players[0].is_trapped);
    g.interpolate_players(16_667, 7);
    assert_eq!(g.players[0].score, 1);
    assert!(g.players[0].is_trapped);
}

#[test]
fn a_trap_event_for_a_trapped_slot_counts_again() {
    let mut g: GameState = GameState::new(false, 0);
    g.apply_message(Message::TrapEvent { player_id: 0 }, 5);
    g.apply_message(Message::TrapEvent { player_id: 0 }, 6);
    assert!(g.players[0].is_trapped);
    assert_eq!(g.players[0].score, 2);
}

#[test]
fn score_stops_at_the_largest_value() {
    let mut p: Player = Player::initial(0);
    p.score = u32::MAX;
    p.mark_trapped();
    assert_eq!(p.score, u32::MAX);
    assert!(p.is_trapped);
}

#[test]
fn check_player_reports_whether_a_trap_sprang() {
    let radius: u128 = TRAP_RADIUS as u128;
    let mut p: Player = Player::initial(0);
    assert!(!check_player(&mut p, radius * radius));
    assert!(check_player(&mut p, radius * radius - 1));
    assert!(!check_player(&mut p, 0));
    assert_eq!(p.score, 1);
    assert!(!check_player(&mut p, 4 * radius * radius));
    assert!(p.is_trapped);
    assert!(!check_player(&mut p, 4 * radius * radius + 1));
    assert!(!p.is_trapped);
}

#[test]
fn squared_distance_of_far_corners_does_not_overflow() {
    let a = Vec2 { x: i32::MIN, y: i32::MIN };
    let b = Vec2 { x: i32::MAX, y: i32::MAX };
    let side: u128 = u32::MAX as u128;
    assert_eq!(distance_squared(a, b), 2 * side * side);
    assert_eq!(distance_squared(b, a), 2 * side * side);
    assert_eq!(distance_squared(a, a), 0);
    assert_eq!(distance_squared(Vec2 { x: 3, y: 0 }, Vec2 { x: 0, y: -4 }), 25);
}

#[test]
fn integer_square_root_rounds_down() {
    assert_eq!(isqrt(0), 0);
    assert_eq!(isqrt(1), 1);
    assert_eq!(isqrt(3), 1);
    assert_eq!(isqrt(4), 2);
    assert_eq!(isqrt(24), 4);
    assert_eq!(isqrt(25), 5);
    assert_eq!(isqrt(2_000_000), 1_414);
    assert_eq!(isqrt(u64::MAX as u128), u32::MAX as u64);
    assert_eq!(isqrt(u128::MAX), u64::MAX);
}
