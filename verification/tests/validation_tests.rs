use mahjong_core::action::PlayerAction;
use mahjong_core::command::EngineContext;
use mahjong_core::state::{
    ClaimWindowAction, LastActionContext, PendingAction, PendingTimeout, PlayerRoundState,
    RobKongWindowAction, RoomState, RoundState, WallState,
};
use mahjong_core::tile::Tile;
use mahjong_core::validation::{classify_local_player_action, discard_supported_locally, LocalPlayerActionKind};

fn tile(tile_id: &str, tile_key: &str, kind: &str) -> Tile {
    Tile {
        tile_id: tile_id.to_string(),
        tile_key: tile_key.to_string(),
        kind: kind.to_string(),
        suit: None,
        rank: None,
        name: None,
    }
}

fn base_room() -> RoomState {
    RoomState {
        table_code: "ROOM42".to_string(),
        phase: "playing".to_string(),
        mode: "normal".to_string(),
        round_state: Some(RoundState {
            round_id: "east-1".to_string(),
            dealer_seat: 0,
            round_wind: "east".to_string(),
            current_actor: 0,
            phase: "playing".to_string(),
            wall: WallState {
                tiles: vec![tile("draw#0", "w1", "suit"), tile("tail#0", "w9", "suit")],
                head_index: 0,
                tail_index: 1,
            },
            players: vec![
                PlayerRoundState {
                    seat: 0,
                    concealed_tiles: vec![tile("east#discard", "east", "wind"), tile("w3#0", "w3", "suit")],
                    ..PlayerRoundState::default()
                },
                PlayerRoundState { seat: 1, ..PlayerRoundState::default() },
            ],
            version: 1,
            last_action_context: LastActionContext {
                kind: "draw".to_string(),
                seat: 0,
                tile_id: Some("east#discard".to_string()),
                from_kong_replacement: false,
                was_last_live_tile: false,
                was_last_discard: false,
            },
            ..RoundState::default()
        }),
        pending_timeout: Some(PendingTimeout {
            kind: "active_turn".to_string(),
            seat_index: 0,
            extra_time_seat: None,
            deadline_at: None,
            drawn_tile_id: Some("east#discard".to_string()),
            extended_with_extra: false,
        }),
        ..RoomState::default()
    }
}

fn round_mut(room: &mut RoomState) -> &mut RoundState {
    room.round_state.as_mut().expect("round")
}

fn context(room: RoomState) -> EngineContext {
    EngineContext::from_room_state(room)
}

fn claim_window(window: Vec<Vec<&str>>, responded: Vec<usize>) -> PendingAction {
    PendingAction::ClaimWindow(ClaimWindowAction {
        discarder_seat: 0,
        claim_window: window
            .into_iter()
            .map(|names| names.into_iter().map(|name| name.to_string()).collect())
            .collect(),
        responded_seats: responded,
        claim_responses: Vec::new(),
    })
}

#[test]
fn classifies_local_discard_from_typed_state() {
    let context = context(base_room());
    let action = PlayerAction::Discard { tile_id: "east#discard".to_string() };

    assert!(discard_supported_locally(&context, 0, "east#discard"));
    assert_eq!(classify_local_player_action(&context, 0, &action, false), Some(LocalPlayerActionKind::Discard));
}

#[test]
fn rejects_restricted_discard_in_validation() {
    let mut room = base_room();
    round_mut(&mut room).restricted_discard_tile_key = Some("east".to_string());
    let context = context(room);

    assert!(!discard_supported_locally(&context, 0, "east#discard"));
}

#[test]
fn allows_discard_after_last_live_tile_is_drawn() {
    let mut room = base_room();
    round_mut(&mut room).wall.head_index = 1;
    round_mut(&mut room).wall.tail_index = 0;
    let context = context(room);

    assert!(discard_supported_locally(&context, 0, "east#discard"));
}

#[test]
fn rejects_manual_discard_after_ready_hand_declaration() {
    let mut room = base_room();
    round_mut(&mut room).players[0].is_ready_hand = true;
    let context = context(room);

    assert!(!discard_supported_locally(&context, 0, "east#discard"));
    assert_eq!(
        classify_local_player_action(&context, 0, &PlayerAction::Discard { tile_id: "east#discard".to_string() }, false),
        None
    );
}

#[test]
fn classifies_rob_kong_pass_only_for_offered_seat() {
    let mut room = base_room();
    round_mut(&mut room).pending_action = Some(PendingAction::RobKongWindow(RobKongWindowAction {
        actor_seat: 0,
        tile_id: Some("w3#0".to_string()),
        tile_key: Some("w3".to_string()),
        meld_index: Some(0),
        offered_hu_seats: vec![1],
        responded_seats: Vec::new(),
        claim_responses: Vec::new(),
    }));
    let context = context(room);

    assert_eq!(
        classify_local_player_action(&context, 1, &PlayerAction::Pass, false),
        Some(LocalPlayerActionKind::RobKongPass)
    );
    assert_eq!(classify_local_player_action(&context, 0, &PlayerAction::Pass, false), None);
}

#[test]
fn claim_window_validation_requires_unresponded_offered_action() {
    let mut room = base_room();
    round_mut(&mut room).pending_action = Some(claim_window(vec![vec![], vec!["pung", "hu"], vec![], vec![]], vec![1]));
    let context = context(room);

    assert_eq!(
        classify_local_player_action(
            &context,
            1,
            &PlayerAction::Pung { tile_ids: vec!["w3#a".to_string(), "w3#b".to_string()] }, false),
        None
    );
}

#[test]
fn allows_claim_window_kong_after_ready_hand_declaration() {
    let mut room = base_room();
    round_mut(&mut room).players[1].is_ready_hand = true;
    round_mut(&mut room).players[1].concealed_tiles =
        vec![tile("w3#a", "w3", "suit"), tile("w3#b", "w3", "suit"), tile("w3#c", "w3", "suit")];
    round_mut(&mut room).pending_action = Some(claim_window(vec![vec![], vec!["kong", "hu"], vec![], vec![]], Vec::new()));
    let context = context(room);

    assert_eq!(
        classify_local_player_action(
            &context,
            1,
            &PlayerAction::Kong { tile_ids: vec!["w3#a".to_string(), "w3#b".to_string(), "w3#c".to_string()] }, false),
        Some(LocalPlayerActionKind::ClaimWindow)
    );
}

#[test]
fn allows_self_kong_after_ready_hand_declaration() {
    let mut room = base_room();
    round_mut(&mut room).players[0].is_ready_hand = true;
    round_mut(&mut room).players[0].concealed_tiles = vec![
        tile("w3#0", "w3", "suit"),
        tile("w3#1", "w3", "suit"),
        tile("w3#2", "w3", "suit"),
        tile("w3#3", "w3", "suit"),
    ];
    let context = context(room);

    assert_eq!(
        classify_local_player_action(
            &context,
            0,
            &PlayerAction::Kong {
                tile_ids: vec!["w3#0".to_string(), "w3#1".to_string(), "w3#2".to_string(), "w3#3".to_string()],
            }, false),
        Some(LocalPlayerActionKind::SelfKong)
    );
}
