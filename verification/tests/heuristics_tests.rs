use mahjong_core::bot::{BotContext, BotPlayerContext, BotTileView};
use mahjong_core::context::tile_counts34;
use mahjong_core::heuristics::{
    apply_visible_meld_delta, best_shanten_after_draw, bot_shape_score, claim_meld_tile_keys,
    discard_danger_penalty, discard_tile_preference_score, estimated_remaining_tile_count,
    honor_value_score, player_tile_keys_from_parts, preferred_discard_tile_id_for_key,
    prioritized_draw_candidates, simulated_tiles_after_removal, suit_focus_score, tile_is_isolated,
    tile_keys_from_counts, visible_tile_counts_for_state,
};

fn keys(items: &[&str]) -> Vec<String> {
    items.iter().map(|key| key.to_string()).collect()
}

fn counts(items: &[&str]) -> [u8; 34] {
    tile_counts34(&keys(items))
}

fn tile(id: &str, key: &str) -> BotTileView {
    BotTileView { tile_id: id.to_string(), tile_key: key.to_string(), is_flower: false }
}

fn base_context() -> BotContext {
    BotContext {
        seat_index: 0,
        seat_count: 4,
        dealer_seat: 0,
        round_wind: Some("east".to_string()),
        visible_tile_keys: Vec::new(),
        opponent_discards_by_seat: vec![vec![], vec![], vec![], vec![]],
        player: BotPlayerContext {
            concealed_tiles: Vec::new(),
            concealed_tile_counts: [0; 34],
            meld_tile_key_groups: Vec::new(),
            flower_count: 0,
        },
        restricted_discard_tile_key: None,
        drawn_tile_id: None,
        enforce_minimum_eight_fan: true,
        self_kong_candidates: Vec::new(),
        claim_options: Vec::new(),
        last_discard_tile_key: None,
        add_kong_risk_tiles: Vec::new(),
    }
}

#[test]
fn isolation_looks_two_ranks_each_way() {
    assert!(tile_is_isolated(&counts(&["w5"]), 4));
    assert!(!tile_is_isolated(&counts(&["w5", "w7"]), 4));
    assert!(tile_is_isolated(&counts(&["w5", "w8"]), 4));
    assert!(tile_is_isolated(&counts(&["east"]), 27));
    assert!(!tile_is_isolated(&counts(&["east", "east"]), 27));
}

#[test]
fn shape_score_of_a_small_hand() {
    assert_eq!(bot_shape_score(&counts(&["w1", "w2", "w3", "east"])), 6);
    assert_eq!(bot_shape_score(&[0; 34]), 0);
}

#[test]
fn suit_focus_counts_meld_tiles() {
    let melds = vec![keys(&["b1", "b1", "b1"])];
    assert_eq!(suit_focus_score(&counts(&["w1", "w2", "w3", "t5", "east"]), &melds), -22);
    assert_eq!(suit_focus_score(&counts(&["w1", "w2"]), &Vec::new()), 6);
}

#[test]
fn honors_are_valued_by_wind_and_dragon() {
    let mut context = base_context();
    context.seat_index = 1;
    let hand = counts(&["east", "east", "north", "north", "north", "red"]);
    assert_eq!(honor_value_score(&context, &hand), 150);
}

#[test]
fn best_shanten_after_a_completing_draw_is_ready() {
    let hand = counts(&["w1", "w2", "w3", "w4", "w5", "w6", "w7", "w8", "w9", "t1", "t1", "t1", "b5"]);
    assert_eq!(best_shanten_after_draw(&hand, 22, 0, None), 0);
}

#[test]
fn visible_counts_show_three_of_a_kong() {
    let mut target = [0i32; 34];
    apply_visible_meld_delta(&mut target, &keys(&["w1", "w1", "w1", "w1"]), 1);
    assert_eq!(target[0], 3);
    apply_visible_meld_delta(&mut target, &keys(&["w1", "w2", "w3"]), -1);
    assert_eq!(target[0], 2);
    assert_eq!(target[1], -1);

    let mut context = base_context();
    context.visible_tile_keys = keys(&["w1", "w1", "w1", "t2"]);
    context.player.meld_tile_key_groups = vec![keys(&["w1", "w1", "w1"])];
    let visible = visible_tile_counts_for_state(&context, &vec![keys(&["w1", "w1", "w1", "w1"])]);
    assert_eq!(visible[0], 3);
    assert_eq!(visible[10], 1);
}

#[test]
fn remaining_copies_never_go_below_zero() {
    let mut visible = [0i32; 34];
    visible[0] = 1;
    assert_eq!(estimated_remaining_tile_count(&visible, &counts(&["w1", "w1"]), 0), 1);
    visible[0] = 3;
    assert_eq!(estimated_remaining_tile_count(&visible, &counts(&["w1", "w1"]), 0), 0);
}

#[test]
fn preference_favours_seen_and_lonely_tiles() {
    let mut context = base_context();
    context.visible_tile_keys = keys(&["w5", "w5", "t3"]);
    let hand = counts(&["w5"]);
    assert_eq!(discard_tile_preference_score(&context, &hand, "w5", false), 100);
    assert_eq!(discard_tile_preference_score(&context, &hand, "east", true), 84);
    assert_eq!(discard_tile_preference_score(&context, &hand, "joker", true), 0);
}

#[test]
fn danger_weighs_each_other_seat() {
    let mut context = base_context();
    context.visible_tile_keys = keys(&["w5", "w5", "t3"]);
    context.opponent_discards_by_seat = vec![vec![], keys(&["w5"]), keys(&["t1", "t9"]), keys(&["east"])];
    let hand = counts(&["w5"]);
    assert_eq!(discard_danger_penalty(&context, &hand, "w5"), 26);
    assert_eq!(discard_danger_penalty(&context, &hand, "east"), 22);
    assert_eq!(discard_danger_penalty(&context, &hand, "joker"), 0);
}

#[test]
fn danger_is_never_negative() {
    let mut context = base_context();
    context.visible_tile_keys = keys(&["w5", "w5", "w5"]);
    context.opponent_discards_by_seat = vec![vec![], keys(&["w5"]), keys(&["w5"]), keys(&["w5"])];
    assert_eq!(discard_danger_penalty(&context, &counts(&["w5"]), "w5"), 0);
}

#[test]
fn draw_candidates_come_by_priority_then_copies() {
    let mut visible = [4i32; 34];
    visible[0] = 0;
    visible[1] = 0;
    visible[2] = 0;
    let hand = counts(&["w1", "w1", "w3"]);
    assert_eq!(prioritized_draw_candidates(&visible, &hand, 10), vec![(2, 3), (1, 4), (0, 2)]);
    assert_eq!(prioritized_draw_candidates(&visible, &hand, 2), vec![(2, 3), (1, 4)]);
    assert_eq!(prioritized_draw_candidates(&visible, &hand, 0), vec![]);
}

#[test]
fn preferred_discard_id_takes_the_drawn_copy_first() {
    let hand = vec![tile("a", "w1"), tile("b", "w2"), tile("c", "w1")];
    assert_eq!(preferred_discard_tile_id_for_key(&hand, "w1", Some("a")), Some("a".to_string()));
    assert_eq!(preferred_discard_tile_id_for_key(&hand, "w1", None), Some("c".to_string()));
    assert_eq!(preferred_discard_tile_id_for_key(&hand, "w1", Some("b")), Some("c".to_string()));
    assert_eq!(preferred_discard_tile_id_for_key(&hand, "east", Some("a")), None);
}

#[test]
fn keys_from_counts_follow_kind_order() {
    assert_eq!(tile_keys_from_counts(&counts(&["east", "w1", "w1"])), keys(&["w1", "w1", "east"]));
}

#[test]
fn player_keys_show_three_of_a_kong() {
    let melds = vec![keys(&["t1", "t1", "t1", "t1"]), keys(&["b1", "b2", "b3"])];
    assert_eq!(
        player_tile_keys_from_parts(&keys(&["w1", "w2"]), &melds, Some("red")),
        keys(&["w1", "w2", "t1", "t1", "t1", "b1", "b2", "b3", "red"])
    );
    assert_eq!(player_tile_keys_from_parts(&keys(&["w1"]), &Vec::new(), None), keys(&["w1"]));
}

#[test]
fn removal_keeps_the_other_tiles_in_order() {
    let hand = vec![tile("a", "w1"), tile("b", "w2"), tile("c", "w3")];
    assert_eq!(simulated_tiles_after_removal(&hand, &keys(&["b", "z"])), vec![tile("a", "w1"), tile("c", "w3")]);
}

#[test]
fn claim_melds_are_sorted_or_repeated() {
    let hand = vec![tile("x6", "w6"), tile("x4", "w4"), tile("y", "t3")];
    assert_eq!(claim_meld_tile_keys("chow", "w5", &keys(&["x6", "x4"]), &hand), keys(&["w4", "w5", "w6"]));
    assert_eq!(claim_meld_tile_keys("pung", "t3", &keys(&["y"]), &hand), keys(&["t3", "t3", "t3"]));
    assert_eq!(claim_meld_tile_keys("kong", "red", &Vec::new(), &hand), keys(&["red", "red", "red", "red"]));
}

#[test]
fn counts_survive_a_round_trip_through_keys() {
    let original = counts(&["w1", "w1", "t9", "east", "east", "east", "white"]);
    let rebuilt = tile_counts34(&tile_keys_from_counts(&original));
    assert_eq!(rebuilt, original);
}
