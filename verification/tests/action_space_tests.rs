use mahjong_core::action_space::{claim_action_index, self_kong_action_index, TILE_KEYS};

#[test]
fn bot_v2_tile_keys_match_backend_order() {
    assert_eq!(TILE_KEYS[0], "w1");
    assert_eq!(TILE_KEYS[8], "w9");
    assert_eq!(TILE_KEYS[9], "t1");
    assert_eq!(TILE_KEYS[18], "b1");
    assert_eq!(TILE_KEYS[27], "east");
    assert_eq!(TILE_KEYS[33], "white");
}

#[test]
fn action_indexes_are_stable() {
    assert_eq!(claim_action_index("pass"), Some(0));
    assert_eq!(claim_action_index("hu"), Some(1));
    assert_eq!(claim_action_index("chow_right"), Some(6));
    assert_eq!(self_kong_action_index("pass"), Some(0));
    assert_eq!(self_kong_action_index("add_kong"), Some(2));
}

#[test]
fn each_head_name_has_one_place() {
    let claim_names = ["pass", "hu", "pung", "kong", "chow_left", "chow_mid", "chow_right"];
    for (place, name) in claim_names.iter().enumerate() {
        assert_eq!(mahjong_core::action_space::claim_action_index(name), Some(place));
    }
    let kong_names = ["pass", "concealed_kong", "add_kong"];
    for (place, name) in kong_names.iter().enumerate() {
        assert_eq!(mahjong_core::action_space::self_kong_action_index(name), Some(place));
    }
    assert_eq!(mahjong_core::action_space::claim_action_index("chow"), None);
}
