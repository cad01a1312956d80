use mahjong_core::export::{
    accept_samples, export_limit_reached, export_metadata, label_to_action_id, progress_due, split_for_match_id,
    validate_sample, Datasets2ExportReport, DatasetSplit, ExportDirectoryOptions, ExportError, ExportReport,
};
use mahjong_core::replay::{
    DecisionKind, SampleOutcome, SerializableBotContext, SerializableBotPlayer,
    TrainingDecisionSampleV2, TrainingLabel,
};

const TILE_KIND_COUNT: usize = 34;

fn fixture_sample(label: TrainingLabel) -> TrainingDecisionSampleV2 {
    TrainingDecisionSampleV2 {
        schema_version: 2,
        match_id: "fixture".to_string(),
        decision_index: 0,
        seat_index: 0,
        decision_kind: DecisionKind::ActiveTurn,
        context: SerializableBotContext {
            seat_index: 0,
            seat_count: 4,
            dealer_seat: 0,
            seat_wind: Some("east".to_string()),
            round_wind: "east".to_string(),
            cumulative_scores: vec![0, 0, 0, 0],
            wall_tiles_remaining: 70,
            visible_tile_keys: vec![],
            opponent_discards_by_seat: vec![vec![], vec![], vec![], vec![]],
            opponent_melds_by_seat: vec![vec![], vec![], vec![], vec![]],
            discard_history: vec![],
            player: SerializableBotPlayer {
                concealed_tiles: vec![],
                concealed_tile_counts: vec![0; 34],
                meld_tile_key_groups: vec![],
                flower_count: 0,
            },
            restricted_discard_tile_key: Some("w1".to_string()),
            drawn_tile_id: None,
            self_kong_candidates: vec![],
            claim_options: vec![],
            last_discard_tile_key: None,
            add_kong_risk_tiles: Default::default(),
        },
        legal_actions: vec!["discard:w2".to_string()],
        label,
        outcome: SampleOutcome {
            score_delta: 0,
            fan_count: 0,
            won: false,
            dealt_in: false,
            round_drawn: false,
        },
        opponent_tenpai_target: vec![0; 3],
        opponent_risk_target: vec![vec![0; TILE_KIND_COUNT]; 3],
        opponent_risk_mask: vec![vec![0; TILE_KIND_COUNT]; 3],
    }
}

#[test]
fn split_assignment_is_stable_by_match_id() {
    let first = split_for_match_id("61602cb45ddc087351c04358");
    let second = split_for_match_id("61602cb45ddc087351c04358");
    assert_eq!(first, second);
}

#[test]
fn metadata_contains_v6_model_outputs() {
    let metadata = export_metadata();
    assert_eq!(metadata.schema_version, 6);
    assert!(metadata.model_outputs.contains(&"discard_logits".to_string()));
    assert!(metadata.model_outputs.contains(&"claim_logits".to_string()));
    assert!(metadata.model_outputs.contains(&"opponent_tenpai_logits".to_string()));
    assert!(metadata.model_outputs.contains(&"opponent_risk_logits".to_string()));
    assert!(metadata.model_outputs.contains(&"fan_value".to_string()));
    assert!(metadata.model_outputs.contains(&"value_for_risk".to_string()));
    assert!(metadata.model_outputs.contains(&"qualifying_fan_value".to_string()));
}

#[test]
fn label_ids_match_replay_legal_action_format() {
    assert_eq!(label_to_action_id(&TrainingLabel::Discard { tile_key: "w1".to_string() }), "discard:w1");
    assert_eq!(
        label_to_action_id(&TrainingLabel::ClaimPung { tile_key: "red".to_string() }),
        "claim:pung:red"
    );
    assert_eq!(label_to_action_id(&TrainingLabel::Hu), "claim:hu");
    assert_eq!(label_to_action_id(&TrainingLabel::Pass), "pass");
}

#[test]
fn validate_sample_rejects_restricted_discard_label() {
    let mut sample = fixture_sample(TrainingLabel::Discard { tile_key: "w1".to_string() });

    assert!(validate_sample(&sample).is_err());
    sample.label = TrainingLabel::Discard { tile_key: "w2".to_string() };
    assert!(validate_sample(&sample).is_ok());
}

#[test]
fn split_uses_fnv_hash_buckets() {
    // FNV-1a of the empty id is 14695981039346656037, bucket 37.
    assert_eq!(split_for_match_id(""), DatasetSplit::Train);
    // FNV-1a of "a" is 0xaf63dc4c8601ec8c = 12638187200555641996, bucket 96.
    assert_eq!(split_for_match_id("a"), DatasetSplit::Test);
}

#[test]
fn label_ids_for_every_label() {
    assert_eq!(
        label_to_action_id(&TrainingLabel::ClaimChow { middle_tile_key: "t5".to_string() }),
        "claim:chow:t5"
    );
    assert_eq!(
        label_to_action_id(&TrainingLabel::ClaimKong { tile_key: "b9".to_string() }),
        "claim:kong:b9"
    );
    assert_eq!(
        label_to_action_id(&TrainingLabel::SelfKong {
            kind: "add_kong".to_string(),
            tile_key: "east".to_string()
        }),
        "self_kong:add_kong:east"
    );
}

#[test]
fn illegal_label_error_names_the_decision() {
    let sample = fixture_sample(TrainingLabel::Pass);
    match validate_sample(&sample) {
        Err(ExportError::IllegalLabel { match_id, decision_index, label, legal_actions }) => {
            assert_eq!(match_id, "fixture");
            assert_eq!(decision_index, 0);
            assert_eq!(label, "pass");
            assert_eq!(legal_actions, vec!["discard:w2".to_string()]);
        }
        other => panic!("unexpected {other:?}"),
    }
}

#[test]
fn accepted_samples_are_counted_by_split_and_kind() {
    let mut report = ExportReport::default();
    let legal = fixture_sample(TrainingLabel::Discard { tile_key: "w2".to_string() });
    let illegal = fixture_sample(TrainingLabel::Pass);
    let kept = accept_samples(&mut report, DatasetSplit::Val, vec![legal.clone(), illegal, legal.clone()]);
    assert_eq!(kept, vec![legal.clone(), legal]);
    assert_eq!(report.sample_count, 2);
    assert_eq!(report.runtime_illegal_label_count, 1);
    assert_eq!(report.samples_by_split, [0, 2, 0]);
    assert_eq!(report.samples_by_decision_kind, [2, 0, 0]);
}

#[test]
fn metadata_lists_tiles_and_actions_in_head_order() {
    let metadata = export_metadata();
    assert_eq!(metadata.tile_keys.len(), 34);
    assert_eq!(metadata.tile_keys[27], "east");
    assert_eq!(metadata.claim_actions[6], "chow_right");
    assert_eq!(metadata.self_kong_actions, vec!["pass", "concealed_kong", "add_kong"]);
    assert_eq!(metadata.decision_kinds, vec!["active_turn", "claim_window", "rob_kong"]);
    assert_eq!(metadata.split_strategy, "match_id_hash");
}

#[test]
fn directory_export_stops_at_its_limit() {
    let mut report = Datasets2ExportReport::default();
    let limited = ExportDirectoryOptions { max_matches: Some(2), progress_every: None };
    let open = ExportDirectoryOptions { max_matches: None, progress_every: None };
    assert!(!export_limit_reached(&limited, &report));
    report.record_parsed_match();
    report.record_parsed_match();
    assert!(export_limit_reached(&limited, &report));
    assert!(!export_limit_reached(&open, &report));
}

#[test]
fn progress_lines_come_every_so_many_files() {
    assert!(progress_due(Some(3), 6));
    assert!(!progress_due(Some(3), 5));
    assert!(!progress_due(Some(3), 0));
    assert!(!progress_due(Some(0), 6));
    assert!(!progress_due(None, 6));
}

#[test]
fn skipped_files_keep_their_notes() {
    let mut report = Datasets2ExportReport::default();
    report.record_parse_error("a.txt", "expected source, header, four deal lines");
    report.record_replay_error("b.txt", "bad event");
    assert_eq!(report.parse_error_count, 1);
    assert_eq!(report.replay_error_count, 1);
    assert_eq!(report.match_count, 0);
    assert_eq!(
        report.skipped_files,
        vec!["a.txt: expected source, header, four deal lines".to_string(), "b.txt: bad event".to_string()]
    );
}

#[test]
fn round_samples_keep_only_legal_labels() {
    let mut report = Datasets2ExportReport::default();
    let legal = fixture_sample(TrainingLabel::Discard { tile_key: "w2".to_string() });
    let illegal = fixture_sample(TrainingLabel::Pass);
    let kept = report.accept_round_samples(vec![illegal, legal.clone()]);
    assert_eq!(kept, vec![legal]);
    assert_eq!(report.sample_count, 1);
    assert_eq!(report.runtime_illegal_label_count, 1);
}
