use mahjong_core::evaluation::{
    apply_evaluation_rules, default_sft_opponents, evaluation_match_seeds, evaluation_replica_specs,
    BotPolicyConfig, EvaluationArenaConfig, EvaluationReplicaSpec, EvaluationSubjectPolicyConfig,
    EVALUATION_ROOM_MODE, SFT_MODEL_PATH,
};
use mahjong_core::planner::plan_round_start_payload;
use mahjong_core::state::{RoomState, SeatState};
use mahjong_core::table::{is_independent_bot_seat, seat_blocks_public_records};

fn test_policy(id: &str) -> BotPolicyConfig {
    BotPolicyConfig {
        id: id.to_string(),
        model_path: Some(SFT_MODEL_PATH.to_string()),
        sample_actions: false,
        temperature_milli: 1000,
        temperature_range_milli: None,
        discard_base_risk_weight_milli: 900,
        discard_value_risk_range_milli: 550,
        discard_min_risk_weight_milli: 250,
        discard_max_risk_weight_milli: 1450,
    }
}

#[test]
fn evaluation_room_rules_are_fixed() {
    let mut room = RoomState::default();
    room.minimum_hu_fan = 0;
    room.dealer_repeat_enabled = true;
    room.dealer_double_enabled = true;

    apply_evaluation_rules(&mut room);

    assert_eq!(room.mode, EVALUATION_ROOM_MODE);
    assert_eq!(room.minimum_hu_fan, 8);
    assert!(!room.dealer_repeat_enabled);
    assert!(!room.dealer_double_enabled);
}

#[test]
fn evaluation_requires_exactly_three_opponents() {
    let subject = test_policy("candidate");
    let opponents = vec![test_policy("a"), test_policy("b")];

    let result = EvaluationArenaConfig::new_for_test(1, 7, vec![subject], opponents);

    assert!(result.is_err());
}

#[test]
fn replicated_match_seeds_are_stable_per_subject() {
    let seeds = evaluation_match_seeds(100, 3);

    assert_eq!(seeds, vec![100, 101, 102]);
}

#[test]
fn match_seeds_wrap_past_the_largest_seed() {
    assert_eq!(evaluation_match_seeds(u64::MAX - 1, 3), vec![u64::MAX - 1, u64::MAX, 0]);
    assert!(evaluation_match_seeds(5, 0).is_empty());
}

#[test]
fn evaluation_requires_a_subject() {
    let opponents = vec![test_policy("a"), test_policy("b"), test_policy("c")];
    let result = EvaluationArenaConfig::new_for_test(1, 7, vec![], opponents);
    assert_eq!(result, Err("evaluation requires at least one subject".to_string()));
}

#[test]
fn valid_evaluation_config_names_subjects_by_policy_id() {
    let opponents = default_sft_opponents();
    let config = EvaluationArenaConfig::new_for_test(4, 9, vec![test_policy("candidate")], opponents)
        .expect("three opponents and a subject");
    assert_eq!(config.matches, 4);
    assert_eq!(config.seed, 9);
    assert_eq!(config.max_actions_per_match, 2400);
    assert_eq!(config.subjects.len(), 1);
    assert_eq!(config.subjects[0].display_name, "candidate");
    assert_eq!(config.subjects[0].policy, test_policy("candidate"));
    assert_eq!(config.validate(), Ok(()));
}

#[test]
fn default_opponents_are_three_supervised_policies() {
    let opponents = default_sft_opponents();
    let ids: Vec<&str> = opponents.iter().map(|p| p.id.as_str()).collect();
    assert_eq!(ids, vec!["sft-opponent-1", "sft-opponent-2", "sft-opponent-3"]);
    assert_eq!(opponents[1], BotPolicyConfig { id: "sft-opponent-2".to_string(), ..test_policy("x") });
}

#[test]
fn evaluation_mode_is_detected_for_restricted_table_settings() {
    let mut room = RoomState {
        table_code: "EVALROOM".to_string(),
        phase: "waiting".to_string(),
        mode: "normal".to_string(),
        multiplier: 1,
        minimum_hu_fan: 8,
        ..RoomState::default()
    };
    mahjong_core::evaluation::apply_evaluation_rules(&mut room);

    assert!(mahjong_core::table::room_is_evaluation(&room));
}

#[test]
fn bot_seats_are_independent_and_block_public_records() {
    let bot = SeatState { seat_type: "bot".to_string(), ..SeatState::default() };
    let legacy_bot = SeatState { is_bot: true, ..SeatState::default() };
    let human = SeatState { seat_type: "human".to_string(), is_bot: true, ..SeatState::default() };
    assert!(is_independent_bot_seat(&bot));
    assert!(is_independent_bot_seat(&legacy_bot));
    assert!(!is_independent_bot_seat(&human));
    assert!(seat_blocks_public_records(&bot));
    assert!(!seat_blocks_public_records(&SeatState::default()));
}

fn two_subject_config(matches: usize) -> EvaluationArenaConfig {
    EvaluationArenaConfig {
        matches,
        seed: 100,
        max_actions_per_match: 10,
        report_trajectories: false,
        subjects: vec![
            EvaluationSubjectPolicyConfig { display_name: "Baseline".to_string(), policy: test_policy("baseline") },
            EvaluationSubjectPolicyConfig { display_name: "Candidate".to_string(), policy: test_policy("candidate") },
        ],
        opponents: vec![test_policy("opponent-1"), test_policy("opponent-2"), test_policy("opponent-3")],
        expert_source: None,
    }
}

#[test]
fn evaluation_replica_specs_keep_subject_major_order_and_shared_seeds() {
    let config = two_subject_config(2);

    let specs = evaluation_replica_specs(&config);

    assert_eq!(
        specs,
        vec![
            EvaluationReplicaSpec { replica_index: 0, subject_index: 0, match_index: 0, seed: 100 },
            EvaluationReplicaSpec { replica_index: 1, subject_index: 0, match_index: 1, seed: 101 },
            EvaluationReplicaSpec { replica_index: 2, subject_index: 1, match_index: 0, seed: 100 },
            EvaluationReplicaSpec { replica_index: 3, subject_index: 1, match_index: 1, seed: 101 },
        ]
    );
}

#[test]
fn evaluation_replicas_of_one_match_deal_the_same_wall() {
    let config = two_subject_config(1);
    let specs = evaluation_replica_specs(&config);
    let (first, _) = plan_round_start_payload(0, "east", "round-a".to_string(), specs[0].seed);
    let (second, _) = plan_round_start_payload(0, "east", "round-b".to_string(), specs[1].seed);
    let ids = |round: &mahjong_core::state::RoundState| {
        round.wall.tiles.iter().map(|tile| tile.tile_id.clone()).collect::<Vec<_>>()
    };
    assert_eq!(ids(&first), ids(&second));
    for seat in 0..4 {
        assert_eq!(first.players[seat].concealed_tiles, second.players[seat].concealed_tiles);
    }
    let (other, _) = plan_round_start_payload(0, "east", "round-c".to_string(), 101);
    assert_ne!(ids(&first), ids(&other));
}
