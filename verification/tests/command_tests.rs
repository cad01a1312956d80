use mahjong_core::action::{GameCommand, PlayerAction};
use mahjong_core::command::parse_player_command;

#[test]
fn parses_discard_command() {
    let command = parse_player_command(2, "discard", &vec![String::from("w1#0")])
        .expect("discard should be recognized")
        .expect("discard should parse");
    assert_eq!(
        command,
        GameCommand::PlayerAction {
            actor: 2,
            action: PlayerAction::Discard {
                tile_id: "w1#0".to_string()
            }
        }
    );
}

#[test]
fn rejects_discard_without_selection() {
    let command = parse_player_command(0, "discard", &vec![]).expect("discard should be recognized");
    assert_eq!(command, Err("select_tile_first".to_string()));
}

#[test]
fn parses_ready_hand_command() {
    let command = parse_player_command(2, "ready_hand", &vec![String::from("b9#discard")])
        .expect("ready_hand should be recognized")
        .expect("ready_hand should parse");

    assert!(matches!(command, GameCommand::PlayerAction { actor: 2, .. }));
}

#[test]
fn unknown_action_is_not_a_player_command() {
    assert!(parse_player_command(1, "dance", &vec![]).is_none());
}

#[test]
fn pass_and_claims_keep_their_tiles() {
    let tiles = vec!["w2#0".to_string(), "w3#0".to_string()];
    assert_eq!(
        parse_player_command(3, "chow", &tiles),
        Some(Ok(GameCommand::PlayerAction {
            actor: 3,
            action: PlayerAction::Chow { tile_ids: tiles.clone() }
        }))
    );
    assert_eq!(
        parse_player_command(3, "pass", &tiles),
        Some(Ok(GameCommand::PlayerAction { actor: 3, action: PlayerAction::Pass }))
    );
    assert_eq!(
        parse_player_command(1, "ready_hand", &tiles),
        Some(Err("select_tile_first".to_string()))
    );
}
