use std::collections::BTreeMap;

use chrono::{TimeDelta, Utc};
use mahjong_core::planner::{
    compute_pending_timeout_value, plan_claim_window_continuation_without_winner,
    plan_claim_window_response, plan_discard_action, plan_flower_action, plan_round_start_payload,
    PlannedClaimWindowOutcome, PENDING_TIMEOUT_SECONDS,
};
use mahjong_core::state::{
    ClaimWindowAction, LastActionContext, MatchState, PendingAction, PlayerRoundState, RoomState,
    RoundState, WallState,
};
use mahjong_core::tile::Tile;

fn suit_tile(tile_id: &str, tile_key: &str) -> Tile {
    Tile {
        tile_id: tile_id.to_string(),
        tile_key: tile_key.to_string(),
        kind: "suit".to_string(),
        suit: Some("characters".to_string()),
        rank: tile_key[1..].parse().ok(),
        name: None,
    }
}

fn flower_tile(tile_id: &str) -> Tile {
    Tile {
        tile_id: tile_id.to_string(),
        tile_key: "f1".to_string(),
        kind: "flower".to_string(),
        suit: None,
        rank: None,
        name: Some("Spring Flower".to_string()),
    }
}

fn player(seat: usize, concealed_tiles: Vec<Tile>) -> PlayerRoundState {
    PlayerRoundState { seat, concealed_tiles, ..PlayerRoundState::default() }
}

fn context(kind: &str, tile_id: &str) -> LastActionContext {
    LastActionContext {
        kind: kind.to_string(),
        seat: 0,
        tile_id: Some(tile_id.to_string()),
        from_kong_replacement: false,
        was_last_live_tile: false,
        was_last_discard: false,
    }
}

fn playing_room(round: RoundState) -> RoomState {
    RoomState {
        table_code: "ROOM42".to_string(),
        phase: "playing".to_string(),
        mode: "normal".to_string(),
        round_state: Some(round),
        ..RoomState::default()
    }
}

fn round(round_id: &str, wall: Vec<Tile>, tail_index: usize, players: Vec<PlayerRoundState>) -> RoundState {
    RoundState {
        round_id: round_id.to_string(),
        dealer_seat: 0,
        round_wind: "east".to_string(),
        current_actor: 0,
        phase: "playing".to_string(),
        wall: WallState { tiles: wall, head_index: 0, tail_index },
        players,
        version: 1,
        ..RoundState::default()
    }
}

fn claim_window_round(round_id: &str, wall: Vec<Tile>, tail_index: usize, window: Vec<Vec<&str>>, responded: Vec<usize>) -> RoundState {
    let mut r = round(round_id, wall, tail_index, Vec::new());
    r.last_discard = Some(suit_tile("w3#discard", "w3"));
    r.pending_action = Some(PendingAction::ClaimWindow(ClaimWindowAction {
        discarder_seat: 0,
        claim_window: window
            .into_iter()
            .map(|names| names.into_iter().map(|name| name.to_string()).collect())
            .collect(),
        responded_seats: responded,
        claim_responses: Vec::new(),
    }));
    r.last_action_context = context("discard", "w3#discard");
    r
}

#[test]
fn round_start_payload_starts_directly_in_active_turn() {
    for seed in 0..64 {
        let (round, timeout) = plan_round_start_payload(2, "east", format!("round-{seed}"), seed);

        assert_eq!(round.dealer_seat, 2);
        assert_eq!(round.current_actor, 2);
        assert_eq!(round.players.len(), 4);
        assert_eq!(round.wall.head_index, 53);
        assert_eq!(round.players[2].concealed_tiles.len(), 14, "seed {seed}");
        assert_eq!(round.players[0].concealed_tiles.len(), 13, "seed {seed}");
        assert!(timeout.deadline_at.is_some());
        assert!(round.pending_action.is_none(), "seed {seed}");
        assert_eq!(timeout.kind, "active_turn", "seed {seed}");
        assert_eq!(round.last_action_context.tile_id, timeout.drawn_tile_id, "seed {seed}");
    }
}

#[test]
fn round_start_payload_sets_future_timeout_deadline() {
    let (_round, timeout) = plan_round_start_payload(2, "east", "round-future".to_string(), 13);

    let deadline = timeout
        .deadline_at
        .as_deref()
        .and_then(|value| chrono::DateTime::parse_from_rfc3339(value).ok())
        .map(|value| value.with_timezone(&Utc))
        .expect("round start should set an RFC3339 timeout");

    assert!(deadline > Utc::now());
    assert!(deadline <= Utc::now() + TimeDelta::seconds(PENDING_TIMEOUT_SECONDS + 1));
}

#[test]
fn compute_pending_timeout_uses_typed_room_state() {
    let (mut round, _timeout) = plan_round_start_payload(0, "east", "round-2".to_string(), 11);
    round.pending_action = None;
    let state = RoomState {
        table_code: "ROOM42".to_string(),
        phase: "playing".to_string(),
        mode: "normal".to_string(),
        owner_user_id: None,
        multiplier: 1,
        minimum_hu_fan: mahjong_core::state::default_minimum_hu_fan(),
        seats: Vec::new(),
        match_state: Some(MatchState {
            prevailing_wind: "east".to_string(),
            hand_number: 1,
            dealer_seat: 0,
            cumulative_scores: BTreeMap::new(),
            match_finished: false,
            last_completed_round_id: None,
            statistics: Default::default(),
            skill_trackers: Default::default(),
        }),
        round_state: Some(round.clone()),
        pending_timeout: None,
        continue_action: None,
        ..RoomState::default()
    };

    let timeout = compute_pending_timeout_value(&state, "2026-04-07T00:00:00Z".to_string())
        .expect("playing room should produce a timeout");

    assert_eq!(timeout.kind, "active_turn");
    assert_eq!(timeout.seat_index, round.current_actor);
    assert_eq!(timeout.drawn_tile_id, round.last_action_context.tile_id);
    assert_eq!(timeout.deadline_at.as_deref(), Some("2026-04-07T00:00:00Z"));
}

#[test]
fn flower_action_plan_uses_typed_room_state() {
    let mut r = round(
        "round-3",
        vec![suit_tile("w1#0", "w1"), flower_tile("f1#0")],
        1,
        vec![player(0, vec![flower_tile("f1#hand")])],
    );
    r.last_action_context = context("draw", "f1#hand");
    let room = playing_room(r);

    let plan = plan_flower_action(&room, 0, "f1#hand").expect("flower action should plan");

    assert_eq!(plan.flower_tile.tile_id, "f1#hand");
    assert_eq!(plan.replacement_tile.tile_id, "f1#0");
    assert_eq!(plan.last_action_context.kind, "replacement_draw");
}

#[test]
fn claim_window_response_plan_uses_typed_pending_action() {
    let room = playing_room(claim_window_round(
        "round-4",
        Vec::new(),
        0,
        vec![vec![], vec!["pung"], vec!["chow"], vec![]],
        Vec::new(),
    ));

    let plan = plan_claim_window_response(&room, 1, "pung", &vec!["w3#a".to_string(), "w3#b".to_string()])
        .expect("claim window response should plan");

    assert!(plan.unresolved_seats.is_empty());
    let PendingAction::ClaimWindow(pending_action) = &plan.pending_action else {
        panic!("expected claim window pending action");
    };
    assert_eq!(pending_action.responded_seats, vec![1, 2]);
    assert_eq!(pending_action.claim_responses[0].action_type, "pung");
}

#[test]
fn claim_window_continuation_without_winner_draws_next_actor() {
    let room = playing_room(claim_window_round(
        "round-5",
        vec![suit_tile("w1#0", "w1")],
        0,
        vec![vec![], vec![], vec![], vec![]],
        vec![1, 2, 3],
    ));

    let plan = plan_claim_window_continuation_without_winner(&room, 0).expect("continuation should plan");

    assert!(!plan.needs_exhaustive_draw());
    let PlannedClaimWindowOutcome::AdvanceTurn { current_actor, drawn_tile, last_action_context } = &plan.outcome
    else {
        panic!("expected advance turn outcome");
    };
    assert_eq!(*current_actor, 1);
    assert_eq!(drawn_tile.tile_id, "w1#0");
    assert_eq!(last_action_context.kind, "draw");
}

#[test]
fn claim_window_continuation_marks_last_live_tile_only_for_final_draw() {
    let room = playing_room(claim_window_round(
        "round-5b",
        vec![suit_tile("w1#0", "w1"), suit_tile("w2#0", "w2")],
        1,
        vec![vec![], vec![], vec![], vec![]],
        vec![1, 2, 3],
    ));

    let plan = plan_claim_window_continuation_without_winner(&room, 0).expect("continuation should plan");

    let PlannedClaimWindowOutcome::AdvanceTurn { last_action_context, .. } = &plan.outcome else {
        panic!("expected advance turn outcome");
    };
    assert!(!last_action_context.was_last_live_tile);
}

fn discard_room(round_id: &str, wall: Vec<Tile>, tail_index: usize) -> RoomState {
    let mut r = round(
        round_id,
        wall,
        tail_index,
        vec![
            player(0, vec![suit_tile("w3#discard", "w3")]),
            player(1, Vec::new()),
            player(2, Vec::new()),
            player(3, Vec::new()),
        ],
    );
    r.last_action_context = context("draw", "w3#discard");
    playing_room(r)
}

#[test]
fn discard_plan_exposes_typed_continuation_before_mutation_adaptation() {
    let room = discard_room("round-discard", vec![suit_tile("w4#draw", "w4")], 0);

    let plan = plan_discard_action(&room, 0, "w3#discard", vec![vec![], vec![], vec![], vec![]], false)
        .expect("discard action should plan");

    assert_eq!(plan.discarded_tile.tile_id, "w3#discard");
    assert_eq!(plan.continuation.current_actor, 1);
    assert!(plan.continuation.pending_action.is_none());
    assert_eq!(
        plan.continuation.drawn_tile.as_ref().map(|tile| tile.tile_id.as_str()),
        Some("w4#draw")
    );
    assert_eq!(plan.continuation.last_action_context.kind, "draw");
    assert!(!plan.continuation.needs_exhaustive_draw);
}

#[test]
fn discard_plan_does_not_mark_second_to_last_draw_as_last_live_tile() {
    let room = discard_room(
        "round-discard-boundary",
        vec![suit_tile("w4#draw", "w4"), suit_tile("w5#later", "w5")],
        1,
    );

    let plan = plan_discard_action(&room, 0, "w3#discard", vec![vec![], vec![], vec![], vec![]], false)
        .expect("discard action should plan");

    assert!(!plan.continuation.last_action_context.was_last_live_tile);
}
