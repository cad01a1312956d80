use std::collections::BTreeMap;

use vstd::prelude::*;
use vstd::std_specs::iter::IteratorSpec;

use crate::state::{MatchSeatStatistics, MatchState, RoundSettlement};
use crate::text::str_equal;

verus! {

/// The rounds that a seat's score history records: one less than its length, as a `u32`.
pub open spec fn recorded_rounds(stats: MatchSeatStatistics) -> u32 {
    if stats.score_history@.len() > 0 {
        (stats.score_history@.len() - 1) as u32
    } else {
        0
    }
}

/// The history that syncing gives `seat` with cumulative score `score`: the one score where
/// the seat had no history, else its history with the last entry replaced by the score.
pub open spec fn synced_history(old: Map<usize, MatchSeatStatistics>, seat: usize, score: i64) -> Seq<i64> {
    if old.contains_key(seat) && old[seat].score_history@.len() > 0 {
        let h = old[seat].score_history@;
        h.update(h.len() - 1, score)
    } else {
        seq![score]
    }
}

/// The win count of `seat`, zero where it has no record.
pub open spec fn wins_of(stats: Map<usize, MatchSeatStatistics>, seat: usize) -> u32 {
    if stats.contains_key(seat) {
        stats[seat].win_count
    } else {
        0
    }
}

/// The score history of `seat`, empty where it has no record.
pub open spec fn history_of(stats: Map<usize, MatchSeatStatistics>, seat: usize) -> Seq<i64> {
    if stats.contains_key(seat) {
        stats[seat].score_history@
    } else {
        Seq::empty()
    }
}

/// `new` is `old` with its statistics synced to its cumulative scores: the completed round
/// count raised to the rounds that any seat's history records, and each seat with a cumulative
/// score given that score as the last entry of its history.
pub open spec fn synced(old: MatchState, new: MatchState) -> bool {
    let before = old.statistics.seat_stats_by_seat@;
    let after = new.statistics.seat_stats_by_seat@;
    let scores = old.cumulative_scores@;
    &&& new == MatchState { statistics: new.statistics, ..old }
    &&& new.statistics.completed_round_count >= old.statistics.completed_round_count
    &&& forall|seat: usize| #[trigger]
        before.contains_key(seat) ==> new.statistics.completed_round_count >= recorded_rounds(
            before[seat],
        )
    &&& (new.statistics.completed_round_count == old.statistics.completed_round_count || exists|
        seat: usize,
    | #[trigger] before.contains_key(seat) && new.statistics.completed_round_count == recorded_rounds(
        before[seat],
    ))
    &&& after.dom() == before.dom().union(scores.dom())
    &&& forall|seat: usize| #[trigger]
        scores.contains_key(seat) ==> after[seat].score_history@ == synced_history(
            before,
            seat,
            scores[seat],
        ) && after[seat].win_count == wins_of(before, seat)
    &&& forall|seat: usize| #[trigger]
        before.contains_key(seat) && !scores.contains_key(seat) ==> after[seat] == before[seat]
}

/// `new` is `mid` after it records the completed round `round_id` with the new cumulative
/// scores: each seat's new score appended to its history, a win counted for the winner, one
/// more completed round, and the round remembered as the last completed one.
pub open spec fn recorded(
    mid: MatchState,
    round_id: String,
    scores: Map<usize, i64>,
    winner: Option<usize>,
    new: MatchState,
) -> bool {
    let before = mid.statistics.seat_stats_by_seat@;
    let after = new.statistics.seat_stats_by_seat@;
    let touched = touched_seats(scores, winner);
    &&& new == MatchState {
        statistics: new.statistics,
        cumulative_scores: new.cumulative_scores,
        last_completed_round_id: Some(round_id),
        ..mid
    }
    &&& new.cumulative_scores@ == scores
    &&& new.statistics.completed_round_count == mid.statistics.completed_round_count + 1
    &&& after.dom() == before.dom().union(touched)
    &&& forall|seat: usize| #[trigger]
        touched.contains(seat) ==> {
            &&& after[seat].score_history@ == (if scores.contains_key(seat) {
                history_of(before, seat).push(scores[seat])
            } else {
                history_of(before, seat)
            })
            &&& after[seat].win_count == wins_of(before, seat) + (if winner == Some(seat) {
                1int
            } else {
                0
            })
        }
    &&& forall|seat: usize| #[trigger]
        before.contains_key(seat) && !touched.contains(seat) ==> after[seat] == before[seat]
}

/// The seats that recording a round touches: those with a new score, and the winner.
pub open spec fn touched_seats(scores: Map<usize, i64>, winner: Option<usize>) -> Set<usize> {
    match winner {
        Some(w) => scores.dom().insert(w),
        None => scores.dom(),
    }
}

/// Whether the key `k` occurs among the first `n` entries of `pairs`.
pub open spec fn key_among<V>(pairs: Seq<(&usize, &V)>, n: int, k: usize) -> bool {
    exists|i: int| 0 <= i < n && *pairs[i].0 == k
}

fn take_stats(map: &mut BTreeMap<usize, MatchSeatStatistics>, seat: usize) -> (r:
    MatchSeatStatistics)
    ensures
        final(map)@ == old(map)@.remove(seat),
        r.score_history@ == history_of(old(map)@, seat),
        r.win_count == wins_of(old(map)@, seat),
{
    broadcast use vstd::std_specs::btree::group_btree_axioms;

    match map.remove(&seat) {
        Some(stats) => stats,
        None => MatchSeatStatistics { score_history: Vec::new(), win_count: 0 },
    }
}

impl MatchState {
    /// Raises the completed round count to what the seats' histories record, and makes each
    /// seat's cumulative score the last entry of its score history.
    pub fn sync_statistics_to_cumulative_scores(&mut self)
        ensures
            synced(*old(self), *final(self)),
    {
        broadcast use vstd::std_specs::btree::group_btree_axioms;

        let ghost before = self.statistics.seat_stats_by_seat@;
        let mut inferred: u32 = 0;
        let ghost stat_pairs = vstd::std_specs::btree::spec_btree_map_iter(
            &self.statistics.seat_stats_by_seat,
        ).remaining();
        for entry in iter: self.statistics.seat_stats_by_seat.iter()
            invariant
                iter.seq() == stat_pairs,
                stat_pairs.len() == before.dom().len(),
                before == self.statistics.seat_stats_by_seat@,
                forall|i: int|
                    0 <= i < stat_pairs.len() ==> before.contains_key(*stat_pairs[i].0) && before[*stat_pairs[i].0]
                        == *stat_pairs[i].1,
                forall|k: usize| #[trigger] before.contains_key(k) ==> stat_pairs.contains((&k, &before[k])),
                forall|i: int| 0 <= i < iter.index() ==> inferred >= recorded_rounds(*stat_pairs[i].1),
                inferred == 0 || exists|i: int|
                    0 <= i < iter.index() && inferred == recorded_rounds(*stat_pairs[i].1),
        {
            let n = entry.1.score_history.len();
            let rounds: u32 = if n > 0 {
                (n - 1) as u32
            } else {
                0
            };
            if rounds > inferred {
                inferred = rounds;
            }
        }
        proof {
            assert forall|seat: usize| #[trigger] before.contains_key(seat) implies inferred
                >= recorded_rounds(before[seat]) by {
                let i = choose|i: int| 0 <= i < stat_pairs.len() && stat_pairs[i] == (&seat, &before[seat]);
                assert(*stat_pairs[i].1 == before[seat]);
            }
            if inferred != 0 {
                let i = choose|i: int| 0 <= i < stat_pairs.len() && inferred == recorded_rounds(*stat_pairs[i].1);
                assert(before.contains_key(*stat_pairs[i].0));
            }
        }
        if inferred > self.statistics.completed_round_count {
            self.statistics.completed_round_count = inferred;
        }
        let scores = self.cumulative_scores.clone();
        let ghost score_map = scores@;
        let ghost pre = *self;
        let ghost pairs = vstd::std_specs::btree::spec_btree_map_iter(&scores).remaining();
        for entry in iter: scores.iter()
            invariant
                *self == (MatchState { statistics: self.statistics, ..pre }),
                self.statistics.completed_round_count == pre.statistics.completed_round_count,
                iter.seq() == pairs,
                pairs.len() == score_map.dom().len(),
                score_map == scores@,
                pairs.no_duplicates(),
                forall|i: int|
                    0 <= i < pairs.len() ==> score_map.contains_key(*pairs[i].0) && score_map[*pairs[i].0]
                        == *pairs[i].1,
                forall|k: usize| #[trigger] score_map.contains_key(k) ==> pairs.contains((&k, &score_map[k])),
                forall|k: usize|
                    #[trigger] self.statistics.seat_stats_by_seat@.contains_key(k) <==> (before.contains_key(k)
                        || key_among(pairs, iter.index() as int, k)),
                forall|k: usize| #[trigger]
                    key_among(pairs, iter.index() as int, k) ==> self.statistics.seat_stats_by_seat@[k].score_history@
                        == synced_history(before, k, score_map[k])
                        && self.statistics.seat_stats_by_seat@[k].win_count == wins_of(before, k),
                forall|k: usize| #[trigger]
                    before.contains_key(k) && !key_among(pairs, iter.index() as int, k)
                        ==> self.statistics.seat_stats_by_seat@[k] == before[k],
        {
            let seat = *entry.0;
            let score = *entry.1;
            let ghost idx = iter.index();
            proof {
                assert(*pairs[idx].0 == seat);
                assert(!key_among(pairs, idx, seat)) by {
                    if key_among(pairs, idx, seat) {
                        let j = choose|j: int| 0 <= j < idx && *pairs[j].0 == seat;
                        assert(score_map[*pairs[j].0] == *pairs[j].1);
                        assert(pairs[j] == pairs[idx]);
                    }
                }
            }
            let mut stats = take_stats(&mut self.statistics.seat_stats_by_seat, seat);
            let len = stats.score_history.len();
            if len == 0 {
                stats.score_history.push(score);
            } else {
                stats.score_history.set(len - 1, score);
            }
            self.statistics.seat_stats_by_seat.insert(seat, stats);
            proof {
                assert forall|k: usize| #[trigger]
                    key_among(pairs, idx + 1, k) implies k == seat || key_among(pairs, idx, k) by {
                    let j = choose|j: int| 0 <= j < idx + 1 && *pairs[j].0 == k;
                    if j < idx {
                        assert(key_among(pairs, idx, k));
                    }
                }
                assert(key_among(pairs, idx + 1, seat));
                assert forall|k: usize| #[trigger] key_among(pairs, idx, k) implies key_among(
                    pairs,
                    idx + 1,
                    k,
                ) by {
                    let j = choose|j: int| 0 <= j < idx && *pairs[j].0 == k;
                    assert(0 <= j < idx + 1 && *pairs[j].0 == k);
                }
                assert(stats.score_history@ =~= synced_history(before, seat, score));
            }
        }
        proof {
            let after = self.statistics.seat_stats_by_seat@;
            assert forall|k: usize| #[trigger] score_map.contains_key(k) implies key_among(
                pairs,
                pairs.len() as int,
                k,
            ) by {
                let i = choose|i: int| 0 <= i < pairs.len() && pairs[i] == (&k, &score_map[k]);
                assert(*pairs[i].0 == k);
            }
            assert forall|k: usize| key_among(pairs, pairs.len() as int, k) implies #[trigger] score_map.contains_key(k) by {
                let i = choose|i: int| 0 <= i < pairs.len() && *pairs[i].0 == k;
            }
            assert(after.dom() =~= before.dom().union(score_map.dom()));
        }
    }

    /// Records a completed round: the new cumulative scores, appended to each seat's history,
    /// a win for the winner, and one more completed round. A round already recorded as the
    /// last completed one only takes the new scores and syncs the statistics to them.
    pub fn apply_completed_round(
        &mut self,
        round_id: String,
        cumulative_scores: BTreeMap<usize, i64>,
        settlement: &RoundSettlement,
    )
        requires
            old(self).statistics.completed_round_count < u32::MAX,
            forall|seat: usize| #[trigger]
                old(self).statistics.seat_stats_by_seat@.contains_key(seat) ==> recorded_rounds(
                    old(self).statistics.seat_stats_by_seat@[seat],
                ) < u32::MAX && old(self).statistics.seat_stats_by_seat@[seat].win_count < u32::MAX,
        ensures
            (old(self).last_completed_round_id matches Some(id) && id@ == round_id@) ==> synced(
                (MatchState { cumulative_scores, ..*old(self) }),
                *final(self),
            ),
            !(old(self).last_completed_round_id matches Some(id) && id@ == round_id@) ==> exists|
                mid: MatchState,
            |
                synced(*old(self), mid) && recorded(
                    mid,
                    round_id,
                    cumulative_scores@,
                    settlement.winner_seat,
                    *final(self),
                ),
    {
        broadcast use vstd::std_specs::btree::group_btree_axioms;

        let same_round = match &self.last_completed_round_id {
            Some(id) => str_equal(id.as_str(), round_id.as_str()),
            None => false,
        };
        if same_round {
            self.cumulative_scores = cumulative_scores;
            self.sync_statistics_to_cumulative_scores();
            return;
        }
        self.sync_statistics_to_cumulative_scores();
        let ghost mid = *self;
        let ghost before = self.statistics.seat_stats_by_seat@;
        let ghost pairs = vstd::std_specs::btree::spec_btree_map_iter(&cumulative_scores).remaining();
        let ghost score_map = cumulative_scores@;
        for entry in iter: cumulative_scores.iter()
            invariant
                iter.seq() == pairs,
                pairs.len() == score_map.dom().len(),
                score_map == cumulative_scores@,
                pairs.no_duplicates(),
                forall|i: int|
                    0 <= i < pairs.len() ==> score_map.contains_key(*pairs[i].0) && score_map[*pairs[i].0]
                        == *pairs[i].1,
                forall|k: usize| #[trigger] score_map.contains_key(k) ==> pairs.contains((&k, &score_map[k])),
                *self == (MatchState { statistics: self.statistics, ..mid }),
                self.statistics.completed_round_count == mid.statistics.completed_round_count,
                forall|k: usize|
                    #[trigger] self.statistics.seat_stats_by_seat@.contains_key(k) <==> (before.contains_key(k)
                        || key_among(pairs, iter.index() as int, k)),
                forall|k: usize| #[trigger]
                    key_among(pairs, iter.index() as int, k) ==> self.statistics.seat_stats_by_seat@[k].score_history@
                        == history_of(before, k).push(score_map[k])
                        && self.statistics.seat_stats_by_seat@[k].win_count == wins_of(before, k),
                forall|k: usize| #[trigger]
                    before.contains_key(k) && !key_among(pairs, iter.index() as int, k)
                        ==> self.statistics.seat_stats_by_seat@[k] == before[k],
        {
            let seat = *entry.0;
            let score = *entry.1;
            let ghost idx = iter.index();
            proof {
                assert(*pairs[idx].0 == seat);
                assert(!key_among(pairs, idx, seat)) by {
                    if key_among(pairs, idx, seat) {
                        let j = choose|j: int| 0 <= j < idx && *pairs[j].0 == seat;
                        assert(score_map[*pairs[j].0] == *pairs[j].1);
                        assert(pairs[j] == pairs[idx]);
                    }
                }
            }
            let mut stats = take_stats(&mut self.statistics.seat_stats_by_seat, seat);
            stats.score_history.push(score);
            self.statistics.seat_stats_by_seat.insert(seat, stats);
            proof {
                assert forall|k: usize| #[trigger]
                    key_among(pairs, idx + 1, k) implies k == seat || key_among(pairs, idx, k) by {
                    let j = choose|j: int| 0 <= j < idx + 1 && *pairs[j].0 == k;
                    if j < idx {
                        assert(key_among(pairs, idx, k));
                    }
                }
                assert(key_among(pairs, idx + 1, seat));
                assert forall|k: usize| #[trigger] key_among(pairs, idx, k) implies key_among(
                    pairs,
                    idx + 1,
                    k,
                ) by {
                    let j = choose|j: int| 0 <= j < idx && *pairs[j].0 == k;
                    assert(0 <= j < idx + 1 && *pairs[j].0 == k);
                }
            }
        }
        let ghost filled = self.statistics.seat_stats_by_seat@;
        proof {
            assert forall|k: usize| #[trigger] score_map.contains_key(k) implies key_among(
                pairs,
                pairs.len() as int,
                k,
            ) by {
                let i = choose|i: int| 0 <= i < pairs.len() && pairs[i] == (&k, &score_map[k]);
                assert(*pairs[i].0 == k);
            }
            assert forall|k: usize| key_among(pairs, pairs.len() as int, k) implies #[trigger] score_map.contains_key(k) by {
                let i = choose|i: int| 0 <= i < pairs.len() && *pairs[i].0 == k;
            }
        }
        match settlement.winner_seat {
            Some(winner) => {
                let mut stats = take_stats(&mut self.statistics.seat_stats_by_seat, winner);
                proof {
                    if score_map.contains_key(winner) {
                        assert(key_among(pairs, pairs.len() as int, winner));
                    }
                    if before.contains_key(winner) {
                        assert(filled.contains_key(winner));
                    }
                }
                stats.win_count = stats.win_count + 1;
                self.statistics.seat_stats_by_seat.insert(winner, stats);
            },
            None => {},
        }
        self.statistics.completed_round_count = self.statistics.completed_round_count + 1;
        self.cumulative_scores = cumulative_scores;
        self.last_completed_round_id = Some(round_id);
        proof {
            let after = self.statistics.seat_stats_by_seat@;
            let touched = match settlement.winner_seat {
                Some(w) => score_map.dom().insert(w),
                None => score_map.dom(),
            };
            assert(after.dom() =~= before.dom().union(touched));
            assert(recorded(mid, round_id, score_map, settlement.winner_seat, *self));
        }
    }
}

/// Once the statistics are synced to the cumulative scores, each scored seat's score history
/// ends with its cumulative score.
pub proof fn synced_histories_end_with_scores(old: MatchState, new: MatchState)
    requires
        synced(old, new),
    ensures
        forall|seat: usize| #[trigger]
            old.cumulative_scores@.contains_key(seat) ==> new.statistics.seat_stats_by_seat@.contains_key(seat)
                && new.statistics.seat_stats_by_seat@[seat].score_history@.len() > 0
                && new.statistics.seat_stats_by_seat@[seat].score_history@.last() == old.cumulative_scores@[seat],
{
}

/// Two matches keep the same statistics: the same completed round count and, seat by seat,
/// the same score history and win count.
pub open spec fn same_statistics(a: MatchState, b: MatchState) -> bool {
    let sa = a.statistics.seat_stats_by_seat@;
    let sb = b.statistics.seat_stats_by_seat@;
    &&& a.statistics.completed_round_count == b.statistics.completed_round_count
    &&& sa.dom() == sb.dom()
    &&& forall|seat: usize| #[trigger]
        sa.contains_key(seat) ==> sa[seat].score_history@ == sb[seat].score_history@ && sa[seat].win_count
            == sb[seat].win_count
}

/// After a sync no seat's history records more rounds than the completed round count.
proof fn lemma_synced_count_covers_histories(old: MatchState, new: MatchState)
    requires
        synced(old, new),
    ensures
        forall|seat: usize| #[trigger]
            new.statistics.seat_stats_by_seat@.contains_key(seat) ==> recorded_rounds(
                new.statistics.seat_stats_by_seat@[seat],
            ) <= new.statistics.completed_round_count,
{
    let before = old.statistics.seat_stats_by_seat@;
    let after = new.statistics.seat_stats_by_seat@;
    let scores = old.cumulative_scores@;
    assert forall|seat: usize| #[trigger] after.contains_key(seat) implies recorded_rounds(after[seat])
        <= new.statistics.completed_round_count by {
        if scores.contains_key(seat) {
            if before.contains_key(seat) && before[seat].score_history@.len() > 0 {
                assert(after[seat].score_history@.len() == before[seat].score_history@.len());
            } else {
                assert(after[seat].score_history@.len() == 1);
            }
        }
    }
}

/// Syncing the statistics a second time changes nothing: the count, the histories and the win
/// counts stay as the first sync left them, and so does the rest of the match.
pub proof fn sync_twice_changes_nothing(old: MatchState, mid: MatchState, new: MatchState)
    requires
        synced(old, mid),
        synced(mid, new),
    ensures
        new == (MatchState { statistics: new.statistics, ..mid }),
        same_statistics(mid, new),
{
    lemma_synced_count_covers_histories(old, mid);
    let m = mid.statistics.seat_stats_by_seat@;
    let n = new.statistics.seat_stats_by_seat@;
    let scores = mid.cumulative_scores@;
    assert(mid.cumulative_scores@ == old.cumulative_scores@);
    if new.statistics.completed_round_count != mid.statistics.completed_round_count {
        let seat = choose|seat: usize| #[trigger] m.contains_key(seat) && new.statistics.completed_round_count
            == recorded_rounds(m[seat]);
    }
    assert(n.dom() =~= m.dom());
    assert forall|seat: usize| #[trigger] m.contains_key(seat) implies m[seat].score_history@
        == n[seat].score_history@ && m[seat].win_count == n[seat].win_count by {
        if scores.contains_key(seat) {
            let h = m[seat].score_history@;
            assert(h.len() > 0 && h.last() == scores[seat]);
            assert(h.update(h.len() - 1, scores[seat]) =~= h);
        }
    }
}

/// A round recorded twice counts once: once `apply_completed_round` has recorded a round, a
/// second call with the same round id and the same scores only syncs, which changes no
/// history, win count or completed round count.
pub proof fn recording_a_round_twice_counts_once(
    start: MatchState,
    mid: MatchState,
    round_id: String,
    scores: Map<usize, i64>,
    winner: Option<usize>,
    once: MatchState,
    again: MatchState,
)
    requires
        synced(start, mid),
        recorded(mid, round_id, scores, winner, once),
        synced(once, again),
        forall|seat: usize| #[trigger]
            once.statistics.seat_stats_by_seat@.contains_key(seat)
                ==> once.statistics.seat_stats_by_seat@[seat].score_history@.len() <= u32::MAX,
    ensures
        again == (MatchState { statistics: again.statistics, ..once }),
        same_statistics(once, again),
{
    lemma_synced_count_covers_histories(start, mid);
    let b = mid.statistics.seat_stats_by_seat@;
    let o = once.statistics.seat_stats_by_seat@;
    let a = again.statistics.seat_stats_by_seat@;
    let touched = touched_seats(scores, winner);
    assert forall|seat: usize| #[trigger] o.contains_key(seat) implies recorded_rounds(o[seat])
        <= once.statistics.completed_round_count by {
        if touched.contains(seat) {
            assert(touched.contains(seat));
        }
        if touched.contains(seat) && scores.contains_key(seat) {
            let h = history_of(b, seat);
            assert(o[seat].score_history@.len() == h.len() + 1);
            if b.contains_key(seat) {
                assert(recorded_rounds(b[seat]) <= mid.statistics.completed_round_count);
            }
            assert(recorded_rounds(o[seat]) <= mid.statistics.completed_round_count + 1);
        } else if touched.contains(seat) {
            if b.contains_key(seat) {
                assert(recorded_rounds(b[seat]) <= mid.statistics.completed_round_count);
                assert(o[seat].score_history@.len() == b[seat].score_history@.len());
            }
        }
    }
    if again.statistics.completed_round_count != once.statistics.completed_round_count {
        let seat = choose|seat: usize| #[trigger] o.contains_key(seat) && again.statistics.completed_round_count
            == recorded_rounds(o[seat]);
    }
    assert(a.dom() =~= o.dom());
    assert forall|seat: usize| #[trigger] o.contains_key(seat) implies o[seat].score_history@
        == a[seat].score_history@ && o[seat].win_count == a[seat].win_count by {
        if scores.contains_key(seat) {
            assert(touched.contains(seat));
            let h = o[seat].score_history@;
            assert(h.len() > 0 && h.last() == scores[seat]);
            assert(h.update(h.len() - 1, scores[seat]) =~= h);
        }
    }
}

} // verus!
