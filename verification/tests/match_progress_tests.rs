use std::collections::BTreeMap;

use mahjong_core::state::{MatchSeatStatistics, MatchState, RoundSettlement};

#[test]
fn synced_histories_end_with_cumulative_scores() {
    let mut stats = BTreeMap::new();
    stats.insert(0, MatchSeatStatistics { score_history: vec![5, 12], win_count: 1 });
    let mut match_state = MatchState {
        prevailing_wind: "east".to_string(),
        hand_number: 2,
        cumulative_scores: BTreeMap::from([(0, 20), (1, -20)]),
        ..MatchState::default()
    };
    match_state.statistics.seat_stats_by_seat = stats;
    match_state.statistics.completed_round_count = 2;

    match_state.sync_statistics_to_cumulative_scores();

    let seats = &match_state.statistics.seat_stats_by_seat;
    assert_eq!(seats[&0].score_history, vec![5, 20]);
    assert_eq!(seats[&0].win_count, 1);
    assert_eq!(seats[&1].score_history, vec![-20]);
    assert_eq!(seats[&1].win_count, 0);
    assert_eq!(match_state.statistics.completed_round_count, 2);
}

#[test]
fn syncing_twice_changes_nothing() {
    let mut stats = BTreeMap::new();
    stats.insert(0, MatchSeatStatistics { score_history: vec![0, 5, 12, 7], win_count: 2 });
    let mut match_state = MatchState { cumulative_scores: BTreeMap::from([(0, 9), (2, 4)]), ..MatchState::default() };
    match_state.statistics.seat_stats_by_seat = stats;
    match_state.statistics.completed_round_count = 1;

    match_state.sync_statistics_to_cumulative_scores();
    let once = match_state.clone();
    match_state.sync_statistics_to_cumulative_scores();

    assert_eq!(match_state, once);
    assert_eq!(once.statistics.completed_round_count, 3);
    assert_eq!(once.statistics.seat_stats_by_seat[&0].score_history, vec![0, 5, 12, 9]);
    assert_eq!(once.statistics.seat_stats_by_seat[&2].score_history, vec![4]);
}

#[test]
fn recording_a_round_twice_counts_once() {
    let mut match_state = MatchState { cumulative_scores: BTreeMap::from([(0, 0), (1, 0)]), ..MatchState::default() };
    let settlement = RoundSettlement { winner_seat: Some(1), ..RoundSettlement::default() };
    let scores = BTreeMap::from([(0, -8), (1, 8)]);

    match_state.apply_completed_round("round-1".to_string(), scores.clone(), &settlement);
    let once = match_state.clone();
    match_state.apply_completed_round("round-1".to_string(), scores, &settlement);

    assert_eq!(match_state, once);
    assert_eq!(once.statistics.completed_round_count, 1);
    assert_eq!(once.statistics.seat_stats_by_seat[&1].win_count, 1);
    assert_eq!(once.statistics.seat_stats_by_seat[&1].score_history, vec![0, 8]);
}
