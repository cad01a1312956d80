use mahjong_core::context::tile_index;
use mahjong_core::shanten::{
    knitted_singletons_missing, min_shanten_for_counts, seven_pairs_shanten,
    special_knitted_shanten, standard_shanten_with_open_melds, KNITTED_PATTERNS, TILE_KIND_COUNT,
};

fn counts_for_keys(keys: &[&str]) -> [u8; TILE_KIND_COUNT] {
    let mut counts = [0_u8; TILE_KIND_COUNT];
    for key in keys {
        counts[tile_index(key).expect("valid tile key")] += 1;
    }
    counts
}

#[test]
fn min_shanten_counts_complete_lesser_honours_knitted_hand() {
    let counts = counts_for_keys(&[
        "w1", "w4", "w7", "t2", "t5", "t8", "b3", "b6", "b9", "east", "south", "west", "north",
        "red",
    ]);

    assert_eq!(min_shanten_for_counts(&counts, 0), -1);
}

#[test]
fn min_shanten_counts_lesser_honours_knitted_tenpai() {
    let counts = counts_for_keys(&[
        "w1", "w4", "w7", "t2", "t5", "t8", "b3", "b6", "east", "south", "west", "north", "red",
    ]);

    assert_eq!(min_shanten_for_counts(&counts, 0), 0);
}

#[test]
fn min_shanten_counts_complete_greater_honours_knitted_hand() {
    let counts = counts_for_keys(&[
        "w1", "w4", "w7", "t2", "t5", "t8", "b3", "east", "south", "west", "north", "red",
        "green", "white",
    ]);

    assert_eq!(min_shanten_for_counts(&counts, 0), -1);
}

#[test]
fn min_shanten_counts_complete_knitted_straight_with_honours() {
    let counts = counts_for_keys(&[
        "w1", "w4", "w7", "t2", "t5", "t8", "b3", "b6", "b9", "east", "south", "west", "north",
        "red",
    ]);

    assert_eq!(min_shanten_for_counts(&counts, 0), -1);
}

#[test]
fn min_shanten_counts_complete_knitted_straight_with_pung_and_pair() {
    let counts = counts_for_keys(&[
        "w1", "w4", "w7", "t2", "t5", "t8", "b3", "b6", "b9", "east", "east", "red", "red",
        "red",
    ]);

    assert_eq!(min_shanten_for_counts(&counts, 0), -1);
}

#[test]
fn honours_knitted_shanten_requires_closed_hand() {
    let counts = counts_for_keys(&[
        "w1", "w4", "w7", "t2", "t5", "t8", "b3", "b6", "b9", "east", "south",
    ]);

    assert!(knitted_singletons_missing(&counts, &KNITTED_PATTERNS[0]) <= 3);
    assert!(special_knitted_shanten(&counts, 2) > 8);
}

#[test]
fn min_shanten_counts_open_knitted_straight_with_pair_wait() {
    let counts = counts_for_keys(&[
        "w1", "w4", "w7", "t2", "t5", "t8", "b3", "b6", "b9", "red", "red",
    ]);

    assert_eq!(min_shanten_for_counts(&counts, 1), -1);
}

#[test]
fn open_knitted_straight_shanten_allows_only_one_open_meld() {
    let counts = counts_for_keys(&["w1", "w4", "w7", "t2", "t5", "t8", "b3", "b6"]);

    assert!(special_knitted_shanten(&counts, 2) > 8);
}

#[test]
fn seven_pairs_shanten_counts_quad_as_two_pairs_for_complete_hand() {
    let counts = counts_for_keys(&[
        "w1", "w1", "w1", "w1", "w2", "w2", "w3", "w3", "t4", "t4", "t5", "t5", "red", "red",
    ]);

    assert_eq!(seven_pairs_shanten(&counts, 0), -1);
    assert_eq!(min_shanten_for_counts(&counts, 0), -1);
}

#[test]
fn seven_pairs_shanten_counts_triplet_as_pair_plus_wait_for_tenpai() {
    let counts = counts_for_keys(&[
        "w1", "w1", "w1", "w2", "w2", "w3", "w3", "t4", "t4", "t5", "t5", "b6", "b6",
    ]);

    assert_eq!(seven_pairs_shanten(&counts, 0), 0);
    assert_eq!(min_shanten_for_counts(&counts, 0), 0);
}

#[test]
fn standard_shanten_of_a_complete_hand_is_minus_one() {
    let counts = counts_for_keys(&[
        "w1", "w2", "w3", "w4", "w5", "w6", "w7", "w8", "w9", "t1", "t1", "t1", "b2", "b2",
    ]);

    assert_eq!(standard_shanten_with_open_melds(&counts, 0), -1);
}

#[test]
fn standard_shanten_of_four_melds_and_a_single_is_ready() {
    let counts = counts_for_keys(&[
        "w1", "w2", "w3", "t4", "t5", "t6", "b7", "b8", "b9", "east", "east", "east", "west",
    ]);

    assert_eq!(standard_shanten_with_open_melds(&counts, 0), 0);
}

#[test]
fn standard_shanten_takes_runs_where_pairs_would_do_worse() {
    let counts = counts_for_keys(&["w1", "w1", "w2", "w2", "w3", "w3", "t5", "t5"]);

    assert_eq!(standard_shanten_with_open_melds(&counts, 2), -1);
}

#[test]
fn standard_shanten_counts_at_most_four_partial_sets() {
    let counts = counts_for_keys(&[
        "w1", "w2", "w4", "w5", "w7", "w8", "t1", "t2", "t4", "t5", "t7", "t8", "b1",
    ]);

    assert_eq!(standard_shanten_with_open_melds(&counts, 0), 4);
}

#[test]
fn standard_shanten_with_more_than_four_exposed_melds_is_eight() {
    let counts = counts_for_keys(&["w1", "w1"]);

    assert_eq!(standard_shanten_with_open_melds(&counts, 5), 8);
}
