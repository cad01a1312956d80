use mahjong_core::botzone::parse_match;
use mahjong_core::replay::{replay_match_to_samples, DecisionKind, TrainingLabel};

    const SIMPLE_MATCH: &str = r#"
Match fixture
Wind F1
Player 0 Deal T6 W1 W2
Player 1 Deal T4 T5 B1
Player 2 Deal J1 J1 B2
Player 3 Deal W2 W3 B6
Player 0 Draw B1
Player 0 Play T6
Score -8 8 0 0
"#;

    const IGNORE_CLAIM_MATCH: &str = r#"
Match ignore
Player 0 Deal B6 B6 W1
Player 1 Deal B6 W2 W3
Player 2 Deal T1 T2 T3
Player 3 Deal W4 W5 W6
Player 1 Draw T9
Player 1 Play B6 Ignore Player 0 PENG B6
Score 0 0 0 0
"#;

    const PASS_CLAIM_MATCH: &str = r#"
Match pass
Player 0 Deal W1 W9 T9
Player 1 Deal B1 B2 B3
Player 2 Deal T1 T2 T3
Player 3 Deal W2 W3 B6
Player 2 Draw T9
Player 2 Play W1
Score 0 0 0 0
"#;

    const DISCARD_HU_MATCH: &str = r#"
Match discard hu
Player 0 Deal W1 W9 T9
Player 1 Deal B1 B2 B3
Player 2 Deal T1 T2 T3
Player 3 Deal J2 J2 B6
Player 2 Draw T9
Player 2 Play J2
Player 3 Hu J2
Score 0 0 -8 8
"#;

    const CONCEALED_KONG_MATCH: &str = r#"
Match concealed kong
Player 0 Deal W1 W1 W1 W1
Player 1 Deal T1 T2 T3
Player 2 Deal B1 B2 B3
Player 3 Deal W2 W3 W4
Player 0 AnGang W1
Score 0 0 0 0
"#;

    const ADD_KONG_MATCH: &str = r#"
Match add kong
Player 0 Deal W1 B1 B2
Player 1 Deal W1 W1 T1
Player 2 Deal T2 T3 T4
Player 3 Deal B3 B4 B5
Player 0 Draw B3
Player 0 Play W1
Player 1 Peng W1
Player 1 Draw W1
Player 1 BuGang W1
Score 0 0 0 0
"#;

    const CLAIMED_TURN_CONTEXT_MATCH: &str = r#"
Match claimed turn context
Wind 1
Player 0 Deal B1 W1 W2 W3 W4 W5 W6 W7 W8 W9 T1 T2 T3
Player 1 Deal B1 B1 B1 T1 T2 T3 T4 T5 T6 T7 T8 T9 J1
Player 2 Deal W1 W2 W3 W4 W5 W6 W7 W8 W9 B2 B3 B4 B5
Player 3 Deal T1 T2 T3 T4 T5 T6 T7 T8 T9 J2 J3 F1 F2
Player 0 Draw J3
Player 0 Play B1
Player 1 Peng B1
Player 1 Play T1
Score 0 0 0 0
"#;

    const SELF_DRAW_MATCH: &str = r#"
Match self draw outcome
Player 0 Deal W1 W9 T9
Player 1 Deal B1 B2 B3
Player 2 Deal T1 T2 T3
Player 3 Deal J2 J2 B6
Player 0 Draw W2
Player 0 Play W9
Player 1 Draw B4
Player 1 Hu B4
Score 8 -8 0 0
"#;

    const ROB_KONG_MATCH: &str = r#"
Match rob kong
Player 0 Deal W1 B1 B2
Player 1 Deal W1 W1 T1
Player 2 Deal T2 T3 T4
Player 3 Deal B3 B4 B5
Player 0 Draw B3
Player 0 Play W1
Player 1 Peng W1
Player 1 Draw W1
Player 1 BuGang W1 Ignore Player 2 Hu W1
Score 0 0 0 0
"#;

    #[test]
    fn replay_emits_active_turn_discard_sample_before_play_event() {
        let record = parse_match(SIMPLE_MATCH).expect("match");
        let samples = replay_match_to_samples(&record, 0).expect("samples");

        let first_discard = samples
            .iter()
            .find(|sample| sample.decision_kind == DecisionKind::ActiveTurn)
            .expect("active turn sample");

        assert_eq!(first_discard.seat_index, 0);
        assert_eq!(
            first_discard.label,
            TrainingLabel::Discard {
                tile_key: "t6".to_string()
            }
        );
        assert!(
            first_discard
                .legal_actions
                .iter()
                .any(|action| action == "discard:t6")
        );
    }

    #[test]
    fn replay_treats_ignore_claim_as_positive_label() {
        let record = parse_match(IGNORE_CLAIM_MATCH).expect("match");
        let samples = replay_match_to_samples(&record, 0).expect("samples");

        let ignored_claim = samples
            .iter()
            .find(|sample| {
                sample.seat_index == 0
                    && sample.label
                        == TrainingLabel::ClaimPung {
                            tile_key: "b6".to_string(),
                        }
            })
            .expect("ignored pung sample");

        assert_eq!(ignored_claim.decision_kind, DecisionKind::ClaimWindow);
        assert!(
            ignored_claim
                .legal_actions
                .iter()
                .any(|action| action == "claim:pung:b6")
        );
    }

    #[test]
    fn replay_emits_pass_for_unclaimed_legal_claim() {
        let record = parse_match(PASS_CLAIM_MATCH).expect("match");
        let samples = replay_match_to_samples(&record, 0).expect("samples");

        let pass = samples
            .iter()
            .find(|sample| {
                sample.seat_index == 3
                    && sample
                        .legal_actions
                        .iter()
                        .any(|action| action.starts_with("claim:chow"))
                    && sample.label == TrainingLabel::Pass
            })
            .expect("legal chow pass sample");

        assert_eq!(pass.decision_kind, DecisionKind::ClaimWindow);
    }

    #[test]
    fn replay_declared_discard_hu_is_a_legal_claim_action() {
        let record = parse_match(DISCARD_HU_MATCH).expect("match");
        let samples = replay_match_to_samples(&record, 0).expect("samples");

        let hu = samples
            .iter()
            .find(|sample| {
                sample.seat_index == 3
                    && sample.decision_kind == DecisionKind::ClaimWindow
                    && sample.label == TrainingLabel::Hu
            })
            .expect("discard hu sample");

        assert!(hu.legal_actions.iter().any(|action| action == "claim:hu"));
    }

    #[test]
    fn replay_emits_concealed_kong_sample_before_an_gang() {
        let record = parse_match(CONCEALED_KONG_MATCH).expect("match");
        let samples = replay_match_to_samples(&record, 0).expect("samples");

        let kong = samples
            .iter()
            .find(|sample| {
                sample.seat_index == 0
                    && sample.label
                        == TrainingLabel::SelfKong {
                            kind: "concealed_kong".to_string(),
                            tile_key: "w1".to_string(),
                        }
            })
            .expect("concealed kong sample");

        assert_eq!(kong.decision_kind, DecisionKind::ActiveTurn);
        assert!(
            kong.legal_actions
                .iter()
                .any(|action| action == "self_kong:concealed_kong:w1")
        );
        assert_eq!(kong.context.self_kong_candidates.len(), 1);
    }

    #[test]
    fn replay_emits_add_kong_sample_before_bu_gang() {
        let record = parse_match(ADD_KONG_MATCH).expect("match");
        let samples = replay_match_to_samples(&record, 0).expect("samples");

        let kong = samples
            .iter()
            .find(|sample| {
                sample.seat_index == 1
                    && sample.label
                        == TrainingLabel::SelfKong {
                            kind: "add_kong".to_string(),
                            tile_key: "w1".to_string(),
                        }
            })
            .expect("add kong sample");

        assert_eq!(kong.decision_kind, DecisionKind::ActiveTurn);
        assert!(
            kong.legal_actions
                .iter()
                .any(|action| action == "self_kong:add_kong:w1")
        );
        assert_eq!(kong.context.self_kong_candidates[0].meld_index, Some(0));
    }

    #[test]
    fn claimed_turn_context_matches_runtime_active_turn_state() {
        let record = parse_match(CLAIMED_TURN_CONTEXT_MATCH).expect("match");
        let samples = replay_match_to_samples(&record, 0).expect("samples");

        let claimed_turn = samples
            .iter()
            .find(|sample| {
                sample.seat_index == 1
                    && sample.decision_kind == DecisionKind::ActiveTurn
                    && sample.label
                        == TrainingLabel::Discard {
                            tile_key: "t1".to_string(),
                        }
            })
            .expect("active turn after pung claim");

        assert_eq!(claimed_turn.context.round_wind, "north");
        assert_eq!(claimed_turn.context.wall_tiles_remaining, 83);
        assert_eq!(claimed_turn.context.drawn_tile_id, None);
        assert_eq!(
            claimed_turn.context.restricted_discard_tile_key.as_deref(),
            Some("b1")
        );
        assert!(
            !claimed_turn
                .legal_actions
                .iter()
                .any(|action| action == "discard:b1")
        );
        assert!(!claimed_turn.context.opponent_discards_by_seat[0].contains(&"b1".to_string()));
        assert!(
            claimed_turn.context.opponent_melds_by_seat[1]
                .iter()
                .any(|meld| meld == &vec!["b1".to_string(), "b1".to_string(), "b1".to_string()])
        );
        assert_eq!(
            claimed_turn
                .context
                .visible_tile_keys
                .iter()
                .filter(|tile_key| tile_key.as_str() == "b1")
                .count(),
            3
        );
        assert_eq!(claimed_turn.context.last_discard_tile_key, None);
        assert_eq!(claimed_turn.context.discard_history.len(), 1);
        assert_eq!(claimed_turn.context.discard_history[0].seat_index, 0);
        assert_eq!(claimed_turn.context.discard_history[0].tile_key, "b1");
    }

    #[test]
    fn same_tile_key_after_chow_matches_runtime_restricted_discard_rule() {
        let record = parse_match(
            r#"
Match same key after chow
Player 0 Deal B9 W1 W2
Player 1 Deal B7 B8 B9 T3 T4 J3
Player 2 Deal W3 W4 W5
Player 3 Deal T1 T2 T3
Player 0 Draw J1
Player 0 Play B9
Player 1 Chi B8
Player 1 Play B9
Score 0 0 0 0
"#,
        )
        .expect("match");
        let samples = replay_match_to_samples(&record, 0).expect("samples");

        let claimed_turn = samples
            .iter()
            .find(|sample| {
                sample.seat_index == 1
                    && sample.decision_kind == DecisionKind::ActiveTurn
                    && sample.context.restricted_discard_tile_key.as_deref() == Some("b9")
            })
            .expect("active turn after chow");

        assert!(
            !claimed_turn
                .legal_actions
                .iter()
                .any(|action| action == "discard:b9")
        );
    }

    #[test]
    fn self_draw_outcome_does_not_mark_previous_discarder_as_dealt_in() {
        let record = parse_match(SELF_DRAW_MATCH).expect("match");
        let samples = replay_match_to_samples(&record, 0).expect("samples");

        assert!(samples.iter().all(|sample| !sample.outcome.dealt_in));
    }

    #[test]
    fn replay_emits_rob_kong_hu_and_pass_samples_after_bu_gang() {
        let record = parse_match(ROB_KONG_MATCH).expect("match");
        let samples = replay_match_to_samples(&record, 0).expect("samples");

        let hu = samples
            .iter()
            .find(|sample| {
                sample.decision_kind == DecisionKind::RobKong
                    && sample.seat_index == 2
                    && sample.label == TrainingLabel::Hu
            })
            .expect("rob kong hu sample");
        assert!(hu.legal_actions.iter().any(|action| action == "claim:hu"));
        assert!(hu.context.add_kong_risk_tiles.contains(&"w1".to_string()));

        let pass = samples
            .iter()
            .find(|sample| {
                sample.decision_kind == DecisionKind::RobKong
                    && sample.seat_index == 3
                    && sample.label == TrainingLabel::Pass
            })
            .expect("rob kong pass sample");
        assert!(pass.legal_actions.iter().any(|action| action == "pass"));
    }

#[test]
fn replay_numbers_samples_in_order() {
    let record = parse_match(CLAIMED_TURN_CONTEXT_MATCH).expect("match");
    let samples = replay_match_to_samples(&record, 0).expect("samples");
    assert!(!samples.is_empty());
    for (index, sample) in samples.iter().enumerate() {
        assert_eq!(sample.decision_index, index as u64);
        assert_eq!(sample.schema_version, 2);
        assert_eq!(sample.match_id, "claimed turn context");
    }
}

#[test]
fn replay_outcome_marks_winner_fan_and_discarder() {
    let record = parse_match(DISCARD_HU_MATCH).expect("match");
    let samples = replay_match_to_samples(&record, 12).expect("samples");
    let winner = samples.iter().find(|sample| sample.seat_index == 3).expect("winner sample");
    assert!(winner.outcome.won);
    assert_eq!(winner.outcome.fan_count, 12);
    assert_eq!(winner.outcome.score_delta, 8);
    let discarder = samples.iter().find(|sample| sample.seat_index == 2).expect("discarder sample");
    assert!(discarder.outcome.dealt_in);
    assert!(!discarder.outcome.won);
    assert_eq!(discarder.outcome.fan_count, 0);
    assert_eq!(discarder.outcome.score_delta, -8);
}

#[test]
fn replay_tile_ids_carry_match_seat_key_and_sequence() {
    let record = parse_match(SIMPLE_MATCH).expect("match");
    let samples = replay_match_to_samples(&record, 0).expect("samples");
    let turn = samples
        .iter()
        .find(|sample| sample.decision_kind == DecisionKind::ActiveTurn)
        .expect("turn");
    let ids = turn
        .context
        .player
        .concealed_tiles
        .iter()
        .map(|tile| tile.tile_id.clone())
        .collect::<Vec<_>>();
    assert_eq!(
        ids,
        vec![
            "fixture:s0:t6:0".to_string(),
            "fixture:s0:w1:1".to_string(),
            "fixture:s0:w2:2".to_string(),
            "fixture:s0:b1:12".to_string(),
        ]
    );
    assert_eq!(turn.context.drawn_tile_id.as_deref(), Some("fixture:s0:b1:12"));
    assert_eq!(turn.context.wall_tiles_remaining, 136 - 12 - 1);
    assert_eq!(
        turn.legal_actions,
        vec!["discard:t6".to_string(), "discard:w1".to_string(), "discard:w2".to_string(), "discard:b1".to_string()]
    );
}

#[test]
fn replay_claim_legal_actions_are_sorted_and_unique() {
    let record = parse_match(IGNORE_CLAIM_MATCH).expect("match");
    let samples = replay_match_to_samples(&record, 0).expect("samples");
    let claim = samples
        .iter()
        .find(|sample| sample.seat_index == 0 && sample.decision_kind == DecisionKind::ClaimWindow)
        .expect("claim window");
    assert_eq!(claim.legal_actions, vec!["claim:pung:b6".to_string(), "pass".to_string()]);
}

#[test]
fn replay_windows_offer_pass_and_skip_the_acting_seat() {
    for raw in [SIMPLE_MATCH, IGNORE_CLAIM_MATCH, PASS_CLAIM_MATCH, DISCARD_HU_MATCH, ROB_KONG_MATCH, ADD_KONG_MATCH] {
        let record = parse_match(raw).expect("match");
        let samples = replay_match_to_samples(&record, 0).expect("samples");
        for sample in &samples {
            if sample.decision_kind != DecisionKind::ActiveTurn {
                assert!(sample.legal_actions.iter().any(|action| action == "pass"));
            }
        }
    }
    let record = parse_match(ROB_KONG_MATCH).expect("match");
    let samples = replay_match_to_samples(&record, 0).expect("samples");
    assert!(samples
        .iter()
        .filter(|sample| sample.decision_kind == DecisionKind::RobKong)
        .all(|sample| sample.seat_index != 1));
}

#[test]
fn replay_outcomes_have_one_winner() {
    let record = parse_match(SELF_DRAW_MATCH).expect("match");
    let samples = replay_match_to_samples(&record, 9).expect("samples");
    let winners = samples
        .iter()
        .filter(|sample| sample.outcome.won)
        .map(|sample| sample.seat_index)
        .collect::<std::collections::BTreeSet<_>>();
    assert!(winners.len() <= 1);
    assert!(samples.iter().all(|sample| !(sample.outcome.won && sample.outcome.dealt_in)));
    assert!(samples.iter().all(|sample| sample.outcome.fan_count == 0 || sample.outcome.won));
}
