use mahjong_core::arena::{
    action_semantic, arena_identity_index_for_seat, arena_room, record_evaluation_decision,
    record_evaluation_tenpai_metrics, ArenaBotPolicyConfig, ArenaMatchAccumulator, BotPolicyDecisionTelemetry,
};
use mahjong_core::state::{PlayerRoundState, RoundState};

fn test_policy(id: &str) -> ArenaBotPolicyConfig {
    ArenaBotPolicyConfig {
        id: id.to_string(),
        model_path: Some("backend/assets/sft/sft.onnx".to_string()),
        sample_actions: false,
        temperature_milli: 1000,
        discard_base_risk_weight_milli: 900,
        discard_value_risk_range_milli: 550,
        discard_min_risk_weight_milli: 250,
        discard_max_risk_weight_milli: 1450,
    }
}

#[test]
fn arena_room_creates_four_bot_seats() {
    let room = arena_room("AR01");

    assert_eq!(room.table_code, "AR01");
    assert_eq!(room.phase, "waiting");
    assert_eq!(room.seats.len(), 4);
    assert!(room.seats.iter().all(|seat| seat.is_bot));
}

#[test]
fn accumulator_records_decision_counts() {
    let mut accumulator = ArenaMatchAccumulator::new_with_policies(&[test_policy("neural")]);

    accumulator.record_decision(0, "discard", 3, None);
    accumulator.record_decision(0, "pung", 2, None);

    assert_eq!(accumulator.seats[0].decision_count, 2);
    assert_eq!(accumulator.seats[0].discard_count, 1);
    assert_eq!(accumulator.seats[0].claim_count, 1);
    assert_eq!(accumulator.seats[0].decision_latency_ms_sum, 5);
}

#[test]
fn accumulator_records_policy_telemetry() {
    let mut accumulator = ArenaMatchAccumulator::new_with_policies(&[test_policy("neural")]);

    let neural = BotPolicyDecisionTelemetry {
        model_loaded: true,
        used_neural_action: true,
    };
    accumulator.record_decision(0, "discard", 3, Some(&neural));

    assert!(accumulator.seats[0].model_loaded);
    assert_eq!(accumulator.seats[0].neural_action_count, 1);
}

#[test]
fn accumulator_names_unconfigured_seats_by_index() {
    let accumulator = ArenaMatchAccumulator::new_with_policies(&[test_policy("neural")]);

    assert_eq!(accumulator.seats.len(), 4);
    assert_eq!(accumulator.seats[0].policy_id, "neural");
    assert_eq!(accumulator.seats[1].policy_id, "seat-1");
    assert_eq!(accumulator.seats[3].policy_id, "seat-3");
    assert_eq!(accumulator.seats[2].seat_index, 2);
}

#[test]
fn accumulator_ignores_seats_past_the_last() {
    let mut accumulator = ArenaMatchAccumulator::new_with_policies(&[]);
    accumulator.record_decision(7, "discard", 3, None);
    assert!(accumulator.seats.iter().all(|seat| seat.decision_count == 0));
}

#[test]
fn arena_room_names_each_bot_by_seat() {
    let room = arena_room("AR02");
    for (index, seat) in room.seats.iter().enumerate() {
        assert_eq!(seat.seat_index, index);
        assert_eq!(seat.nickname.as_deref(), Some(format!("Arena Bot {index}").as_str()));
        assert_eq!(seat.seat_type, "bot");
        assert!(seat.connected);
        assert_eq!(arena_identity_index_for_seat(&room, index), index);
    }
    assert_eq!(room.mode, "normal");
    assert_eq!(room.minimum_hu_fan, 8);
    assert!(room.ready_hand_enabled);
}

#[test]
fn identity_follows_the_bot_after_seats_rotate() {
    let mut room = arena_room("AR03");
    room.seats[0].nickname = Some("Arena Bot 2".to_string());
    room.seats[1].nickname = Some("Arena Bot 9".to_string());
    room.seats[2].nickname = None;
    assert_eq!(arena_identity_index_for_seat(&room, 0), 2);
    assert_eq!(arena_identity_index_for_seat(&room, 1), 1);
    assert_eq!(arena_identity_index_for_seat(&room, 2), 2);
    assert_eq!(arena_identity_index_for_seat(&room, 5), 5);

    let mut accumulator = ArenaMatchAccumulator::new_with_policies(&[]);
    record_evaluation_decision(&mut accumulator, &room, 0, "chow", 4, None);
    assert_eq!(accumulator.seats[2].claim_count, 1);
    assert_eq!(accumulator.seats[0].claim_count, 0);
}

#[test]
fn action_semantic_names_discards_and_claims() {
    assert_eq!(action_semantic("discard", Some("w1")), "discard:w1");
    assert_eq!(action_semantic("chow", Some("t4")), "claim:chow:t4");
    assert_eq!(action_semantic("pung", Some("red")), "claim:pung:red");
    assert_eq!(action_semantic("kong", Some("b9")), "claim:kong:b9");
    assert_eq!(action_semantic("hu", Some("b9")), "hu");
    assert_eq!(action_semantic("discard", None), "discard");
}

#[test]
fn first_tenpai_turn_is_one_past_the_discards_and_kept() {
    let mut accumulator = ArenaMatchAccumulator::new_with_policies(&[test_policy("neural")]);
    accumulator.record_decision(2, "discard", 1, None);
    accumulator.record_decision(2, "discard", 1, None);
    let mut room = arena_room("TENP");
    room.round_state = Some(RoundState {
        players: (0..4).map(|seat| PlayerRoundState { seat, ..PlayerRoundState::default() }).collect(),
        ..RoundState::default()
    });
    accumulator.record_tenpai_metrics(&room, &vec![false, false, true, false]);
    assert_eq!(accumulator.seats[2].first_tenpai_turn, Some(3));
    assert!(accumulator.seats[2].final_tenpai);
    assert_eq!(accumulator.seats[0].first_tenpai_turn, None);

    accumulator.record_decision(2, "discard", 1, None);
    accumulator.record_tenpai_metrics(&room, &vec![false, false, false, false]);
    assert_eq!(accumulator.seats[2].first_tenpai_turn, Some(3));
    assert!(!accumulator.seats[2].final_tenpai);
}

#[test]
fn evaluation_tenpai_goes_to_the_arena_identity() {
    let mut accumulator = ArenaMatchAccumulator::new_with_policies(&[test_policy("neural")]);
    let mut room = arena_room("EVAL");
    room.seats[1].nickname = Some("Arena Bot 3".to_string());
    room.round_state = Some(RoundState {
        players: vec![PlayerRoundState { seat: 1, ..PlayerRoundState::default() }],
        ..RoundState::default()
    });
    record_evaluation_tenpai_metrics(&mut accumulator, &room, &vec![true]);
    assert_eq!(accumulator.seats[3].first_tenpai_turn, Some(1));
    assert_eq!(accumulator.seats[1].first_tenpai_turn, None);

    room.round_state = None;
    record_evaluation_tenpai_metrics(&mut accumulator, &room, &vec![]);
    assert!(accumulator.seats[3].final_tenpai);
}
