use shadow_swap::codec::encode;
use shadow_swap::frame::FrameInput;
use shadow_swap::game::GameState;
use shadow_swap::message::Message;
use shadow_swap::player::Player;
use shadow_swap::vec2::Vec2;

fn idle(dt: u32, now: u64) -> FrameInput {
    FrameInput { dt, now, direction: Vec2 { x: 0, y: 0 }, swap: false, reset: false }
}

#[test]
fn the_hosts_first_frame_opens_a_window_and_broadcasts() {
    let mut g: GameState = GameState::new(true, 0);
    let start: GameState = g;
    let out: Vec<Message> = g.frame(&Vec::new(), &idle(16_667, 16_667));
    assert_eq!(
        out,
        vec![
            Message::InverseControl { active: true, time_left: 5_000_000 },
            Message::PlayerUpdate(start.players[0]),
            Message::PlayerUpdate(start.players[1]),
            Message::InverseControl { active: true, time_left: 5_000_000 },
        ]
    );
    assert_eq!(g.players, start.players);
    assert_eq!(g.game_time, 16_667);
    assert_eq!(g.last_send, 16_667);
    assert!(g.inverse.active);
}

#[test]
fn a_frame_before_the_broadcast_is_due_sends_nothing() {
    let mut g: GameState = GameState::new(false, 0);
    let out: Vec<Message> = g.frame(&Vec::new(), &idle(4_000, 4_000));
    assert!(out.is_empty());
    assert_eq!(g.last_send, 0);
    assert_eq!(g.game_time, 4_000);
}

#[test]
fn a_frame_applies_input_to_the_rival_and_swap_to_the_local_slot() {
    let mut g: GameState = GameState::new(false, 0);
    let input = FrameInput {
        dt: 16_667,
        now: 16_667,
        direction: Vec2 { x: -1_000, y: 0 },
        swap: true,
        reset: false,
    };
    let out: Vec<Message> = g.frame(&Vec::new(), &input);
    let own = Player {
        id: 1,
        pos: Vec2 { x: 840_000, y: 300_000 },
        shadow_pos: Vec2 { x: 840_000, y: 400_000 },
        score: 0,
        is_trapped: false,
    };
    let rival = Player {
        id: 0,
        pos: Vec2 { x: 360_000, y: 400_000 },
        shadow_pos: Vec2 { x: 356_667, y: 500_000 },
        score: 0,
        is_trapped: false,
    };
    assert_eq!(g.players, [rival, own]);
    assert_eq!(out, vec![Message::PlayerUpdate(own), Message::PlayerUpdate(rival)]);
}

#[test]
fn a_frame_broadcasts_a_trap_before_the_snapshot() {
    let mut g: GameState = GameState::new(true, 0);
    g.inverse.cooldown = 10_000_000;
    g.players[0].pos = Vec2 { x: 830_000, y: 310_000 };
    let out: Vec<Message> = g.frame(&Vec::new(), &idle(16_667, 16_667));
    assert_eq!(out.len(), 4);
    assert_eq!(out[0], Message::TrapEvent { player_id: 0 });
    // the snapshot carries the trap that the frame found
    assert_eq!(out[1], Message::PlayerUpdate(g.players[0]));
    assert_eq!(out[3], Message::InverseControl { active: false, time_left: 0 });
    assert!(g.players[0].is_trapped);
    assert_eq!(g.players[0].score, 1);
    assert_eq!(g.trap_flash_timer[0], 1_000_000);
}

#[test]
fn a_trap_is_counted_once_while_the_body_stays_inside() {
    let mut g: GameState = GameState::new(true, 0);
    g.players[1].pos = Vec2 { x: 360_000, y: 460_000 };
    g.network_players[1].pos = Vec2 { x: 360_000, y: 460_000 };
    g.players[1].score = 2;
    g.network_players[1].score = 2;
    let mut events: u32 = 0;
    for n in 1..=20u64 {
        let out: Vec<Message> = g.frame(&Vec::new(), &idle(16_667, n * 16_667));
        for m in out {
            if m == (Message::TrapEvent { player_id: 1 }) {
                events += 1;
            }
        }
        assert!(g.players[1].is_trapped);
        assert_eq!(g.players[1].score, 3);
        assert!(g.is_game_over());
    }
    assert_eq!(events, 1);
}

#[test]
fn a_frame_counts_the_flash_down_on_a_client() {
    let mut g: GameState = GameState::new(false, 0);
    let datagrams: Vec<Vec<u8>> = vec![encode(&Message::TrapEvent { player_id: 0 })];
    g.frame(&datagrams, &idle(400_000, 400_000));
    assert_eq!(g.trap_flash_timer, [600_000, 0]);
    g.frame(&Vec::new(), &idle(2_000_000, 2_400_000));
    assert_eq!(g.trap_flash_timer, [0, 0]);
    assert_eq!(g.players[0].score, 1);
    assert!(g.players[0].is_trapped);
}

#[test]
fn a_reset_request_is_ignored_while_the_game_runs() {
    let mut g: GameState = GameState::new(false, 0);
    g.players[1].score = 2;
    let mut input: FrameInput = idle(1_000, 1_000);
    input.reset = true;
    let out: Vec<Message> = g.frame(&Vec::new(), &input);
    assert!(out.is_empty());
    assert_eq!(g.players[1].score, 2);
}

#[test]
fn a_reset_request_after_the_end_resets_and_is_broadcast() {
    let mut g: GameState = GameState::new(false, 0);
    g.players[1].score = 3;
    g.game_time = 37_500_000;
    let mut input: FrameInput = idle(1_000, 1_000);
    input.reset = true;
    let out: Vec<Message> = g.frame(&Vec::new(), &input);
    assert_eq!(out, vec![Message::GameReset]);
    assert_eq!(g.players[1].score, 0);
    assert!(!g.is_game_over());
    assert_eq!(g.game_time, 37_501_000);
}

#[test]
fn a_frame_takes_in_its_datagrams_first() {
    let mut host: GameState = GameState::new(true, 0);
    let mut client: GameState = GameState::new(false, 0);
    let from_host: Vec<Message> = host.frame(&Vec::new(), &idle(16_667, 16_667));
    let datagrams: Vec<Vec<u8>> = from_host.iter().map(encode).collect();
    let out: Vec<Message> = client.frame(&datagrams, &idle(16_667, 16_667));
    assert!(client.inverse.active);
    assert_eq!(client.inverse.timer, 5_000_000);
    assert_eq!(client.last_network_update, [16_667, 16_667]);
    assert_eq!(out.len(), 2);
    // with inverse control on, the client's input now drives the host's body
    let mut input: FrameInput = idle(16_667, 33_334);
    input.direction = Vec2 { x: 0, y: 1_000 };
    client.frame(&Vec::new(), &input);
    assert_eq!(client.players[0].pos, Vec2 { x: 360_000, y: 403_333 });
    assert_eq!(client.network_players[0].pos, Vec2 { x: 360_000, y: 403_333 });
}

#[test]
fn everything_a_frame_sends_decodes_at_the_peer() {
    let mut g: GameState = GameState::new(true, 0);
    g.players[1].pos = Vec2 { x: 365_000, y: 495_000 };
    let mut input: FrameInput = idle(16_667, 16_667);
    input.direction = Vec2 { x: 707, y: 707 };
    input.swap = true;
    let out: Vec<Message> = g.frame(&Vec::new(), &input);
    assert!(!out.is_empty());
    for m in out {
        assert!(m.is_wf());
        assert_eq!(shadow_swap::codec::decode(&encode(&m)), Ok(m));
    }
}
