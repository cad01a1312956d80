use mahjong_core::action_space::tile_index;
use mahjong_core::reward::{shanten_for_tile_keys, tile_counts_for_tile_keys};
use mahjong_core::search::acceptance_width;

fn string_keys(keys: &[&str]) -> Vec<String> {
    keys.iter().map(|key| key.to_string()).collect()
}

#[test]
fn shanten_helper_identifies_known_tenpai_shape() {
    let tile_keys = string_keys(&[
        "w1", "w2", "w3", "w4", "w5", "w6", "t1", "t2", "t3", "b1", "b2", "b3", "east",
    ]);

    assert_eq!(shanten_for_tile_keys(&tile_keys, 0), Some(0));
}

#[test]
fn shanten_helper_rejects_unknown_keys() {
    let tile_keys = string_keys(&["w1", "w2", "flower"]);
    assert_eq!(shanten_for_tile_keys(&tile_keys, 0), None);
    assert_eq!(tile_counts_for_tile_keys(&tile_keys), None);
}

#[test]
fn tile_counts_count_each_kind() {
    let counts = tile_counts_for_tile_keys(&string_keys(&["w1", "w1", "red"])).expect("counts");
    assert_eq!(counts[0], 2);
    assert_eq!(counts[31], 1);
    assert_eq!(counts.iter().map(|c| *c as usize).sum::<usize>(), 3);
}

#[test]
fn acceptance_width_counts_winning_tiles() {
    let mut counts = [0_u8; 34];
    for key in &["w1", "w2", "w3", "w4", "w5", "w6", "t1", "t2", "t3", "t4", "t5", "t6", "b1"] {
        counts[tile_index(key).unwrap()] += 1;
    }
    let width = acceptance_width(&counts, 0);
    assert!(width >= 1, "should have at least 1 winning tile, got {}", width);
}

#[test]
fn acceptance_width_of_single_wait_is_one() {
    let mut counts = [0_u8; 34];
    for key in &["w1", "w2", "w3", "w4", "w5", "w6", "t1", "t2", "t3", "t4", "t5", "t6", "b1"] {
        counts[tile_index(key).unwrap()] += 1;
    }
    assert_eq!(acceptance_width(&counts, 0), 1);
}

#[test]
fn acceptance_width_is_zero_far_from_tenpai() {
    let mut counts = [0_u8; 34];
    for key in &["w1", "w4", "w7", "t2", "t9", "b1", "b5", "east", "south", "west", "red", "green", "t5"] {
        counts[tile_index(key).unwrap()] += 1;
    }
    assert_eq!(acceptance_width(&counts, 0), 0);
}
