use mahjong_core::action_space::{claim_action_index, self_kong_action_index, tile_index};
use mahjong_core::bot::{
    BotClaimOption, BotContext, BotPlayerContext, BotSelfKongCandidate, BotSelfKongKind, BotTileView,
};
use mahjong_core::context::tile_counts34;
use mahjong_core::features::{
    legal_claim_mask, legal_discard_mask, legal_hu_mask, legal_self_kong_mask, standard_wind_index,
};

fn sample_context_with_tiles(tile_keys: &[&str]) -> BotContext {
    let concealed_tiles = tile_keys
        .iter()
        .enumerate()
        .map(|(index, tile_key)| BotTileView {
            tile_id: format!("{tile_key}#{index}"),
            tile_key: (*tile_key).to_string(),
            is_flower: false,
        })
        .collect::<Vec<_>>();
    let counts = tile_counts34(&tile_keys.iter().map(|key| key.to_string()).collect());
    BotContext {
        seat_index: 0,
        seat_count: 4,
        dealer_seat: 0,
        round_wind: Some("east".to_string()),
        visible_tile_keys: Vec::new(),
        opponent_discards_by_seat: vec![vec![], vec![], vec![], vec![]],
        player: BotPlayerContext {
            concealed_tiles,
            concealed_tile_counts: counts,
            meld_tile_key_groups: Vec::new(),
            flower_count: 0,
        },
        restricted_discard_tile_key: None,
        drawn_tile_id: None,
        enforce_minimum_eight_fan: true,
        self_kong_candidates: Vec::new(),
        claim_options: Vec::new(),
        last_discard_tile_key: None,
        add_kong_risk_tiles: Vec::new(),
    }
}

#[test]
fn active_turn_mask_allows_only_unrestricted_concealed_tiles() {
    let mut context = sample_context_with_tiles(&["w1", "w1", "t5", "red"]);
    context.restricted_discard_tile_key = Some("w1".to_string());

    let discard_mask = legal_discard_mask(&context);

    assert!(!discard_mask[tile_index("w1").unwrap()]);
    assert!(discard_mask[tile_index("t5").unwrap()]);
    assert!(discard_mask[tile_index("red").unwrap()]);
    assert!(!discard_mask[tile_index("b9").unwrap()]);
}

#[test]
fn chow_claim_mask_preserves_left_middle_right_direction() {
    let mut context = sample_context_with_tiles(&["w4", "w5", "t1"]);
    context.last_discard_tile_key = Some("w3".to_string());
    context.claim_options = vec![BotClaimOption {
        action_type: "chow".to_string(),
        tile_ids: vec!["w4#0".to_string(), "w5#1".to_string()],
    }];

    let claim_mask = legal_claim_mask(&context);

    assert!(claim_mask[claim_action_index("pass").unwrap()]);
    assert!(claim_mask[claim_action_index("chow_left").unwrap()]);
    assert!(!claim_mask[claim_action_index("chow_mid").unwrap()]);
    assert!(!claim_mask[claim_action_index("chow_right").unwrap()]);
}

#[test]
fn flowers_are_never_discard_choices() {
    let mut context = sample_context_with_tiles(&["w2"]);
    context.player.concealed_tiles.push(BotTileView {
        tile_id: "f1".to_string(),
        tile_key: "w9".to_string(),
        is_flower: true,
    });
    let discard_mask = legal_discard_mask(&context);
    assert!(discard_mask[1]);
    assert!(!discard_mask[8]);
    assert_eq!(discard_mask.iter().filter(|allowed| **allowed).count(), 1);
}

#[test]
fn claim_mask_names_pung_and_hu_options() {
    let mut context = sample_context_with_tiles(&["t3", "t3"]);
    context.last_discard_tile_key = Some("t3".to_string());
    context.claim_options = vec![
        BotClaimOption { action_type: "pung".to_string(), tile_ids: vec!["t3#0".to_string(), "t3#1".to_string()] },
        BotClaimOption { action_type: "hu".to_string(), tile_ids: Vec::new() },
    ];
    assert_eq!(legal_claim_mask(&context), [true, true, true, false, false, false, false]);
    assert_eq!(legal_hu_mask(&context), [true, true]);
    context.claim_options.pop();
    assert_eq!(legal_hu_mask(&context), [true, false]);
}

#[test]
fn self_kong_mask_follows_candidate_kinds() {
    let mut context = sample_context_with_tiles(&["w1", "w1", "w1", "w1"]);
    assert_eq!(legal_self_kong_mask(&context), [true, false, false]);
    context.self_kong_candidates = vec![BotSelfKongCandidate {
        kind: BotSelfKongKind::Add,
        tile_ids: vec!["w1#0".to_string()],
        tile_key: "w1".to_string(),
        meld_index: Some(0),
    }];
    let mask = legal_self_kong_mask(&context);
    assert!(mask[self_kong_action_index("pass").unwrap()]);
    assert!(mask[self_kong_action_index("add_kong").unwrap()]);
    assert!(!mask[self_kong_action_index("concealed_kong").unwrap()]);
}

#[test]
fn wind_indexes_follow_the_table_order() {
    assert_eq!(standard_wind_index("east"), 0);
    assert_eq!(standard_wind_index("south"), 1);
    assert_eq!(standard_wind_index("west"), 2);
    assert_eq!(standard_wind_index("north"), 3);
    assert_eq!(standard_wind_index("red"), 0);
}
