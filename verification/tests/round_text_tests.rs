use mahjong_core::botzone::{BotZoneAction, BotZoneResult};
use mahjong_core::round_text::{choose_match_id, parse_match_text};

const FIXTURE: &str = "./2017/2017-01-01/344397.xml
东\t0\t['荒庄-0']\t\t荒庄
0\t['W8','B7','W8','F2','W9','T2','T4','T7','T8','T1','W5','T2','T8','J3']\t1
1\t['W7','W7','B7','B6','B7','T3','F2','B8','W3','B2','W8','B3','W1']\t0
2\t['J3','W2','W8','T1','W9','B5','T3','F2','B6','T6','T4','J3','T9']\t0
3\t['W2','W4','T5','T8','T9','B1','W1','B7','J1','B5','T7','B2','W6']\t0
0\t打牌\t['J3']\t
2\t碰\t['J3','J3','J3']\tJ3\t0
2\t打牌\t['T9']\t
3\t摸牌\t['T6']\t
3\t打牌\t['J1']\t
0\t摸牌\t['H3']\t
0\t补花\t['H3']\t
0\t补花后摸牌\t['B4']\t
0\t打牌\t['B7']\t
1\t吃\t['B2','B3','B4']\tB4\t0
1\t打牌\t['T3']\t
";

#[test]
fn parses_datasets2_round_text_into_botzone_match() {
    let record = parse_match_text(FIXTURE, "fixture.txt").expect("match parses");

    assert_eq!(record.match_id, "344397");
    assert_eq!(record.round_wind, "east");
    assert_eq!(record.dealer_seat, 0);
    assert_eq!(record.deals[0][0], "w8");
    assert_eq!(record.deals[0][3], "north");
    assert_eq!(record.deals[0].len(), 14);
    assert_eq!(record.cumulative_scores, [0, 0, 0, 0]);
    assert_eq!(record.result, BotZoneResult::Huang { score_delta: [0; 4] });
    assert_eq!(record.events[0].action, BotZoneAction::Play { tile_key: "white".to_string() });
    assert_eq!(record.events[1].action, BotZoneAction::Peng { tile_key: "white".to_string() });
    assert_eq!(record.events[5].action, BotZoneAction::Draw { tile_key: "b4".to_string() });
    assert_eq!(record.events[7].action, BotZoneAction::Chi { middle_tile_key: "b3".to_string() });
}

#[test]
fn round_text_needs_a_header_and_four_deals() {
    let result = parse_match_text("a.xml\n东\t0\n0\t[]\n", "x.txt");
    assert_eq!(result, Err("expected source, header, four deal lines".to_string()));
}

#[test]
fn round_text_refuses_a_bad_deal_seat() {
    let text = "a.xml\n南\t1\n0\t[]\n1\t[]\n7\t[]\n3\t[]\n";
    assert_eq!(parse_match_text(text, "x.txt"), Err("invalid deal line: 7\t[]".to_string()));
}

#[test]
fn round_text_reads_a_won_round() {
    let text = "src/998.xml\n北\t2\t['平和-2','自摸-8']\t[12,'-4',-4,-4]\t自摸\n\
0\t['W1']\n1\t['B1']\n2\t['T1']\n3\t['J1','H1']\n2\t自摸\t['T2']\n1\t胡\t[]\n";
    let record = parse_match_text(text, "x.txt").expect("match parses");
    assert_eq!(record.match_id, "998");
    assert_eq!(record.round_wind, "north");
    assert_eq!(record.dealer_seat, 2);
    assert_eq!(record.deals[3], vec!["red".to_string()]);
    assert_eq!(
        record.result,
        BotZoneResult::Hu { fan: 8, description: "自摸".to_string(), score_delta: [12, -4, -4, -4] }
    );
    assert_eq!(record.events.len(), 2);
    assert_eq!(record.events[0].action, BotZoneAction::Hu { tile_key: "t2".to_string() });
    assert_eq!(record.events[1].action, BotZoneAction::Hu { tile_key: String::new() });
}

#[test]
fn round_text_reports_missing_event_tiles() {
    let text = "a.xml\n东\t0\n0\t[]\n1\t[]\n2\t[]\n3\t[]\n1\t碰\t[]\t\n";
    assert_eq!(parse_match_text(text, "x.txt"), Err("missing peng tile: 1\t碰\t[]".to_string()));
}

#[test]
fn match_id_falls_back_to_the_source_name() {
    assert_eq!(choose_match_id(Some("abc".to_string()), Some("def".to_string())), "abc");
    assert_eq!(choose_match_id(Some(String::new()), Some("def".to_string())), "def");
    assert_eq!(choose_match_id(None, None), "unknown");
}

#[test]
fn round_text_wind_tiles_follow_the_botzone_codes() {
    let text = "a.xml\n东\t0\n0\t['F1','F2','F3','F4']\n1\t[]\n2\t[]\n3\t[]\n";
    let record = parse_match_text(text, "x.txt").expect("match parses");
    assert_eq!(record.deals[0], vec!["east", "north", "west", "south"]);
}
