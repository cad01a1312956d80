use mahjong_core::reducer::{ensure_continue_action, refresh_continue_action_state};
use mahjong_core::state::{ContinueActionState, RoomState, SeatState};

fn human_seat(seat_index: usize, nickname: &str, connected: bool) -> SeatState {
    SeatState {
        seat_index,
        nickname: Some(nickname.to_string()),
        connected,
        is_bot: false,
        seat_type: "human".to_string(),
        ..SeatState::default()
    }
}

fn room_in_phase(phase: &str) -> RoomState {
    RoomState {
        table_code: "ROOM42".to_string(),
        phase: phase.to_string(),
        mode: "normal".to_string(),
        seats: vec![human_seat(0, "Alice", true)],
        ..RoomState::default()
    }
}

#[test]
fn refreshes_continue_action_shape_from_typed_state() {
    let mut room = room_in_phase("settlement");
    room.continue_action = Some(ContinueActionState {
        action_id: "start_next_round".to_string(),
        confirmed_seats: vec![0],
        required_seats: Vec::new(),
        online_seats: Vec::new(),
        auto_advance_deadline_at: Some("2026-04-08T00:00:00Z".to_string()),
    });

    refresh_continue_action_state(&mut room);

    let action = room.continue_action.expect("continue action");
    assert_eq!(action.confirmed_seats, vec![0]);
    assert_eq!(action.auto_advance_deadline_at.as_deref(), Some("2026-04-08T00:00:00Z"));
    assert_eq!(action.required_seats, vec![0]);
    assert_eq!(action.online_seats, vec![0]);
}

#[test]
fn finished_room_waits_on_restart_and_drops_other_confirmations() {
    let mut room = room_in_phase("finished");
    room.seats.push(human_seat(1, "Bob", false));
    room.seats.push(SeatState { seat_index: 2, is_bot: true, connected: true, ..SeatState::default() });
    room.continue_action = Some(ContinueActionState {
        action_id: "start_next_round".to_string(),
        confirmed_seats: vec![0, 1],
        required_seats: Vec::new(),
        online_seats: Vec::new(),
        auto_advance_deadline_at: Some("2026-04-08T00:00:00Z".to_string()),
    });

    refresh_continue_action_state(&mut room);

    let action = room.continue_action.expect("continue action");
    assert_eq!(action.action_id, "restart_match");
    assert!(action.confirmed_seats.is_empty());
    assert_eq!(action.auto_advance_deadline_at, None);
    assert_eq!(action.required_seats, vec![0, 1]);
    assert_eq!(action.online_seats, vec![0]);
}

#[test]
fn playing_room_has_no_continue_action() {
    let mut room = room_in_phase("playing");
    room.continue_action = Some(ContinueActionState::default());
    refresh_continue_action_state(&mut room);
    assert!(room.continue_action.is_none());
    assert_eq!(room.table_code, "ROOM42");
}

#[test]
fn ensure_continue_action_keeps_existing_confirmations() {
    let mut room = room_in_phase("settlement");
    ensure_continue_action(&mut room, "start_next_round");
    let action = room.continue_action.clone().expect("inserted");
    assert!(action.confirmed_seats.is_empty());
    assert_eq!(action.required_seats, vec![0]);

    room.continue_action.as_mut().unwrap().confirmed_seats = vec![0];
    ensure_continue_action(&mut room, "restart_match");
    let action = room.continue_action.expect("kept");
    assert_eq!(action.action_id, "restart_match");
    assert_eq!(action.confirmed_seats, vec![0]);
}

#[test]
fn refreshing_twice_changes_nothing_more() {
    let mut room = room_in_phase("settlement");
    room.seats.push(human_seat(1, "Bob", false));
    room.continue_action = Some(ContinueActionState {
        action_id: "start_next_round".to_string(),
        confirmed_seats: vec![1],
        required_seats: vec![7],
        online_seats: Vec::new(),
        auto_advance_deadline_at: None,
    });
    refresh_continue_action_state(&mut room);
    let once = room.clone();
    refresh_continue_action_state(&mut room);
    assert_eq!(room, once);
}
