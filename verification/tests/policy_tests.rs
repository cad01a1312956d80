use mahjong_core::bot::{BotClaimOption, BotContext, BotPlayerContext, BotTileView};
use mahjong_core::context::tile_counts34;
use mahjong_core::policy::{claim_chow_action_name, claim_option_for_ranked_action};

fn tiles(keys: &[&str]) -> Vec<BotTileView> {
    keys.iter()
        .enumerate()
        .map(|(index, key)| BotTileView { tile_id: format!("{key}-{index}"), tile_key: (*key).to_string(), is_flower: false })
        .collect()
}

fn base_context() -> BotContext {
    BotContext {
        seat_index: 0,
        seat_count: 4,
        dealer_seat: 0,
        round_wind: Some("east".to_string()),
        visible_tile_keys: Vec::new(),
        opponent_discards_by_seat: vec![vec![], vec![], vec![], vec![]],
        player: BotPlayerContext {
            concealed_tiles: Vec::new(),
            concealed_tile_counts: [0; 34],
            meld_tile_key_groups: Vec::new(),
            flower_count: 0,
        },
        restricted_discard_tile_key: None,
        drawn_tile_id: None,
        enforce_minimum_eight_fan: true,
        self_kong_candidates: Vec::new(),
        claim_options: Vec::new(),
        last_discard_tile_key: None,
        add_kong_risk_tiles: Vec::new(),
    }
}

#[test]
fn ranked_chow_action_matches_the_same_chow_shape() {
    let mut context = base_context();
    let concealed_tiles = tiles(&["w2", "w4", "w4", "w5"]);
    context.player.concealed_tile_counts =
        tile_counts34(&concealed_tiles.iter().map(|tile| tile.tile_key.clone()).collect());
    context.player.concealed_tiles = concealed_tiles.clone();
    context.last_discard_tile_key = Some("w3".to_string());
    context.claim_options = vec![
        BotClaimOption {
            action_type: "chow".to_string(),
            tile_ids: vec![concealed_tiles[0].tile_id.clone(), concealed_tiles[1].tile_id.clone()],
        },
        BotClaimOption {
            action_type: "chow".to_string(),
            tile_ids: vec![concealed_tiles[2].tile_id.clone(), concealed_tiles[3].tile_id.clone()],
        },
    ];

    let selected = claim_option_for_ranked_action(&context, "chow_left").expect("chow option");

    assert_eq!(
        selected.tile_ids,
        vec![concealed_tiles[2].tile_id.clone(), concealed_tiles[3].tile_id.clone()]
    );
}

#[test]
fn chow_names_follow_the_discard_within_the_run() {
    let mut context = base_context();
    context.player.concealed_tiles = tiles(&["t4", "t5", "t7", "east", "east"]);
    context.last_discard_tile_key = Some("t6".to_string());
    let option = |a: &str, b: &str| BotClaimOption { action_type: "chow".to_string(), tile_ids: vec![a.to_string(), b.to_string()] };
    assert_eq!(claim_chow_action_name(&context, &option("t4-0", "t5-1")), "chow_right");
    assert_eq!(claim_chow_action_name(&context, &option("t5-1", "t7-2")), "chow_mid");
    context.last_discard_tile_key = Some("t3".to_string());
    assert_eq!(claim_chow_action_name(&context, &option("t4-0", "t5-1")), "chow_left");
    assert_eq!(claim_chow_action_name(&context, &option("t4-0", "missing")), "chow_mid");
    context.last_discard_tile_key = Some("east".to_string());
    assert_eq!(claim_chow_action_name(&context, &option("east-3", "east-4")), "chow_mid");
    context.last_discard_tile_key = None;
    assert_eq!(claim_chow_action_name(&context, &option("t4-0", "t5-1")), "chow_mid");
}

#[test]
fn ranked_non_chow_claims_match_by_type() {
    let mut context = base_context();
    context.claim_options = vec![
        BotClaimOption { action_type: "pung".to_string(), tile_ids: vec!["a".to_string(), "b".to_string()] },
        BotClaimOption { action_type: "kong".to_string(), tile_ids: vec!["a".to_string()] },
    ];
    assert_eq!(claim_option_for_ranked_action(&context, "kong").map(|o| o.tile_ids.len()), Some(1));
    assert!(claim_option_for_ranked_action(&context, "chow_left").is_none());
}
