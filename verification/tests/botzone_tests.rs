use mahjong_core::botzone::{
    map_botzone_tile, parse_event_line, parse_match, parse_matches, BotZoneAction, BotZoneResult,
};

#[test]
fn maps_botzone_tile_codes_to_backend_tile_keys() {
    assert_eq!(map_botzone_tile("W1"), Some("w1".to_string()));
    assert_eq!(map_botzone_tile("T9"), Some("t9".to_string()));
    assert_eq!(map_botzone_tile("B5"), Some("b5".to_string()));
    assert_eq!(map_botzone_tile("F1"), Some("east".to_string()));
    assert_eq!(map_botzone_tile("F2"), Some("north".to_string()));
    assert_eq!(map_botzone_tile("F3"), Some("west".to_string()));
    assert_eq!(map_botzone_tile("F4"), Some("south".to_string()));
    assert_eq!(map_botzone_tile("J1"), Some("red".to_string()));
    assert_eq!(map_botzone_tile("J2"), Some("green".to_string()));
    assert_eq!(map_botzone_tile("J3"), Some("white".to_string()));
}

#[test]
fn parses_ignore_claims_on_action_line() {
    let event = parse_event_line("Player 1 Hu B3 Ignore Player 0 PENG B3 Ignore Player 3 CHI B4")
        .expect("event");

    assert_eq!(event.actor, 1);
    assert_eq!(event.action, BotZoneAction::Hu { tile_key: "b3".to_string() });
    assert_eq!(event.ignored_claims.len(), 2);
    assert_eq!(event.ignored_claims[0].actor, 0);
    assert_eq!(event.ignored_claims[0].action, BotZoneAction::Peng { tile_key: "b3".to_string() });
    assert_eq!(event.ignored_claims[1].actor, 3);
}

#[test]
fn parses_complete_single_match() {
    let record = parse_match(
        r#"
Match fixture
Wind F2
Player 0 Deal W1 W2 W3
Player 1 Deal B1 B1 B2
Player 0 Draw T1
Player 0 Play W1
Score 8 -8 0 0
"#,
    )
    .expect("match");

    assert_eq!(record.match_id, "fixture");
    assert_eq!(record.round_wind, "north");
    assert_eq!(record.deals[0][0], "w1");
    assert_eq!(record.events.len(), 2);
}

#[test]
fn tile_codes_outside_the_table_are_refused() {
    assert_eq!(map_botzone_tile(" W7 "), Some("w7".to_string()));
    assert_eq!(map_botzone_tile("W0"), None);
    assert_eq!(map_botzone_tile("W10"), None);
    assert_eq!(map_botzone_tile("X1"), None);
    assert_eq!(map_botzone_tile("H1"), None);
    assert_eq!(map_botzone_tile(""), None);
}

#[test]
fn event_line_errors_name_their_cause() {
    let message = |line: &str| parse_event_line(line).expect_err("should fail").message();
    assert_eq!(message("Seat 1 Draw W1"), "expected Player token");
    assert_eq!(message("Player x Draw W1"), "expected player seat");
    assert_eq!(message("Player 4 Draw W1"), "player seat out of range");
    assert_eq!(message("Player 1"), "missing action");
    assert_eq!(message("Player 1 Draw"), "missing or invalid tile");
    assert_eq!(message("Player 1 Dance W1"), "unknown action Dance");
    assert_eq!(message("Player 1 Draw W1 Extra"), "unexpected token 'Extra' in event line");
}

#[test]
fn event_line_reads_every_action_word() {
    let action = |line: &str| parse_event_line(line).expect("event").action;
    assert_eq!(action("Player 0 Mo J2"), BotZoneAction::Draw { tile_key: "green".to_string() });
    assert_eq!(action("Player 0 打出 W5"), BotZoneAction::Play { tile_key: "w5".to_string() });
    assert_eq!(action("Player 0 Chi T4"), BotZoneAction::Chi { middle_tile_key: "t4".to_string() });
    assert_eq!(action("Player 0 ANGANG F3"), BotZoneAction::AnGang { tile_key: "west".to_string() });
    assert_eq!(action("Player 0 BuGang B9"), BotZoneAction::BuGang { tile_key: "b9".to_string() });
    assert_eq!(action("Player 0 GANG W1"), BotZoneAction::Gang { tile_key: "w1".to_string() });
}

#[test]
fn match_result_reads_fan_description_and_draws() {
    let won = parse_match("Match a\nFan 12  Seven Pairs \nScore 1 2 3 4\n").expect("match");
    assert_eq!(
        won.result,
        BotZoneResult::Hu { fan: 12, description: "Seven Pairs".to_string(), score_delta: [1, 2, 3, 4] }
    );
    assert_eq!(won.round_wind, "east");
    let drawn = parse_match("Huang\nScore 5 x -6\n").expect("match");
    assert_eq!(drawn.match_id, "unknown");
    assert_eq!(drawn.result, BotZoneResult::Huang { score_delta: [5, -6, 0, 0] });
}

#[test]
fn several_records_split_at_match_lines() {
    let records = parse_matches("Wind F3\nMatch one\nPlayer 2 Draw W1\n\nMatch two\nWind South\n")
        .expect("matches");
    assert_eq!(records.len(), 3);
    assert_eq!(records[0].match_id, "unknown");
    assert_eq!(records[0].round_wind, "west");
    assert_eq!(records[1].match_id, "one");
    assert_eq!(records[1].round_wind, "east");
    assert_eq!(records[1].events.len(), 1);
    assert_eq!(records[2].match_id, "two");
    assert_eq!(records[2].round_wind, "south");
    let failed = parse_matches("Match one\nPlayer 9 Draw W1\n").expect_err("bad seat");
    assert_eq!(failed.message(), "player seat out of range");
}

#[test]
fn wind_lines_read_codes_names_and_one_for_north() {
    let wind = |line: &str| parse_match(&format!("Match w\nWind {line}\nScore 0 0 0 0\n")).expect("match").round_wind;
    assert_eq!(wind("F3"), "west");
    assert_eq!(wind("South"), "south");
    assert_eq!(wind("1"), "north");
    assert_eq!(wind("2"), "east");
    assert_eq!(wind("3"), "east");
    assert_eq!(wind("?"), "east");
}
