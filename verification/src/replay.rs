use vstd::prelude::*;

use crate::botzone::{action_view, event_view, BotZoneAction, BotZoneActionKind, BotZoneMatch, BotZoneResult, EventView};
use crate::replay_claims::{kong_candidates, self_kong_candidates};
use crate::replay_samples::{
    active_turn_sample_v, claim_action_ids, claim_sample_v, claim_samples_v, clone_label, declared_label,
    legal_claims, rob_kong_sample_v, rob_kong_samples_v, self_kong_sample_v,
};
use crate::replay_state::{
    after_add_kong, after_chow, after_concealed_kong, after_draw, after_play, after_same_tile_meld, dealt_before,
    deals_v, initial_model, ReplayModel, ReplayState,
};
use crate::replay_view::{insert_sorted, label_v, sample_v, samples_v, sorted_unique, LabelV, SampleV};
use crate::text::owned;

verus! {

/// When a training decision is taken: on the seat's own turn, in a claim window after a
/// discard, or in the window to rob an added kong.
#[derive(Debug, Clone, Copy, PartialEq, Eq, PartialOrd, Ord)]
pub enum DecisionKind {
    ActiveTurn,
    ClaimWindow,
    RobKong,
}

/// What the recorded player chose at a decision.
#[derive(Debug, Clone, PartialEq, Eq)]
pub enum TrainingLabel {
    Discard { tile_key: String },
    ClaimChow { middle_tile_key: String },
    ClaimPung { tile_key: String },
    ClaimKong { tile_key: String },
    SelfKong { kind: String, tile_key: String },
    Hu,
    Pass,
}

/// How the round ended for the deciding seat.
#[derive(Debug, Clone, Copy, PartialEq, Eq)]
pub struct SampleOutcome {
    pub score_delta: i64,
    pub fan_count: i64,
    pub won: bool,
    pub dealt_in: bool,
    pub round_drawn: bool,
}

/// One discard of the round so far.
#[derive(Debug, Clone, PartialEq, Eq)]
pub struct SerializableDiscardEvent {
    pub seat_index: usize,
    pub tile_key: String,
}

/// A tile in the deciding seat's hand.
#[derive(Debug, Clone, PartialEq, Eq)]
pub struct SerializableBotTile {
    pub tile_id: String,
    pub tile_key: String,
    pub is_flower: bool,
}

/// The deciding seat's hand and melds.
#[derive(Debug, Clone, PartialEq, Eq)]
pub struct SerializableBotPlayer {
    pub concealed_tiles: Vec<SerializableBotTile>,
    pub concealed_tile_counts: Vec<u8>,
    pub meld_tile_key_groups: Vec<Vec<String>>,
    pub flower_count: usize,
}

/// A claim that the deciding seat could make, with the tiles it would use.
#[derive(Debug, Clone, PartialEq, Eq)]
pub struct SerializableClaimOption {
    pub action_type: String,
    pub tile_ids: Vec<String>,
}

/// A kong that the deciding seat could declare on its turn.
#[derive(Debug, Clone, PartialEq, Eq)]
pub struct SerializableSelfKongCandidate {
    pub kind: String,
    pub tile_ids: Vec<String>,
    pub tile_key: String,
    pub meld_index: Option<usize>,
}

/// What the deciding seat knows at a decision.
#[derive(Debug, Clone, PartialEq, Eq)]
pub struct SerializableBotContext {
    pub seat_index: usize,
    pub seat_count: usize,
    pub dealer_seat: usize,
    pub seat_wind: Option<String>,
    pub round_wind: String,
    pub cumulative_scores: Vec<i64>,
    pub wall_tiles_remaining: i64,
    pub visible_tile_keys: Vec<String>,
    pub opponent_discards_by_seat: Vec<Vec<String>>,
    pub opponent_melds_by_seat: Vec<Vec<Vec<String>>>,
    pub discard_history: Vec<SerializableDiscardEvent>,
    pub player: SerializableBotPlayer,
    pub restricted_discard_tile_key: Option<String>,
    pub drawn_tile_id: Option<String>,
    pub self_kong_candidates: Vec<SerializableSelfKongCandidate>,
    pub claim_options: Vec<SerializableClaimOption>,
    pub last_discard_tile_key: Option<String>,
    pub add_kong_risk_tiles: Vec<String>,
}

/// One training decision: where it was taken, what the seat knew, the legal actions, the
/// recorded choice, and how the round ended. The opponent targets are in thousandths.
#[derive(Debug, Clone, PartialEq, Eq)]
pub struct TrainingDecisionSampleV2 {
    pub schema_version: u32,
    pub match_id: String,
    pub decision_index: u64,
    pub seat_index: usize,
    pub decision_kind: DecisionKind,
    pub context: SerializableBotContext,
    pub legal_actions: Vec<String>,
    pub label: TrainingLabel,
    pub outcome: SampleOutcome,
    pub opponent_tenpai_target: Vec<u32>,
    pub opponent_risk_target: Vec<Vec<u32>>,
    pub opponent_risk_mask: Vec<Vec<u32>>,
}


/// Why a record could not be replayed.
#[derive(Debug, Clone, PartialEq, Eq)]
pub struct ReplayError {
    message: String,
}

impl ReplayError {
    pub closed spec fn view(&self) -> Seq<char> {
        self.message@
    }

    /// The message of the error.
    pub fn message(&self) -> (r: String)
        ensures
            r@ == self.view(),
    {
        self.message.clone()
    }
}

/// The events of a record, by value.
pub open spec fn events_v(record: BotZoneMatch) -> Seq<EventView> {
    record.events@.map_values(|e: crate::botzone::BotZoneEvent| event_view(e))
}

/// Index of the first win at or after `from`.
pub open spec fn first_hu_from(events: Seq<EventView>, from: int) -> Option<int>
    decreases events.len() - from,
{
    if from < 0 || from >= events.len() {
        None
    } else if events[from].1.0 == BotZoneActionKind::Hu {
        Some(from)
    } else {
        first_hu_from(events, from + 1)
    }
}

/// The seat that won, where a win was recorded.
pub open spec fn record_winner(record: BotZoneMatch) -> Option<usize> {
    match first_hu_from(events_v(record), 0) {
        Some(i) => Some(events_v(record)[i].0),
        None => None,
    }
}

/// The seat whose discard the winner took, where the win came right after a discard.
pub open spec fn record_discarder(record: BotZoneMatch) -> Option<usize> {
    let evs = events_v(record);
    match first_hu_from(evs, 0) {
        Some(i) => if i >= 1 && evs[i - 1].1.0 == BotZoneActionKind::Play {
            Some(evs[i - 1].0)
        } else {
            None
        },
        None => None,
    }
}

/// How the round ended for a seat: its score change, the winner's fan where it won, whether
/// it won, whether it dealt in to another's win, and whether the round was drawn.
pub open spec fn spec_outcome(record: BotZoneMatch, winner_fan: i64, seat: int) -> SampleOutcome {
    let (delta, drawn) = match record.result {
        BotZoneResult::Hu { score_delta, .. } => (score_delta, false),
        BotZoneResult::Huang { score_delta } => (score_delta, true),
    };
    let winner = record_winner(record);
    SampleOutcome {
        score_delta: delta@[seat],
        fan_count: if winner == Some(seat as usize) {
            winner_fan
        } else {
            0
        },
        won: winner == Some(seat as usize),
        dealt_in: winner is Some && record_discarder(record) == Some(seat as usize) && winner != Some(seat as usize),
        round_drawn: drawn,
    }
}

pub open spec fn spec_outcomes(record: BotZoneMatch, winner_fan: i64) -> Seq<SampleOutcome> {
    Seq::new(4, |s: int| spec_outcome(record, winner_fan, s))
}

/// The label of a claim action: a chow, pung, kong or win.
pub open spec fn claim_label(a: (BotZoneActionKind, Seq<char>)) -> Option<LabelV> {
    match a.0 {
        BotZoneActionKind::Chi => Some(LabelV::ClaimChow(a.1)),
        BotZoneActionKind::Peng => Some(LabelV::ClaimPung(a.1)),
        BotZoneActionKind::Gang => Some(LabelV::ClaimKong(a.1)),
        BotZoneActionKind::Hu => Some(LabelV::Hu),
        _ => None,
    }
}

/// The claims among the let-pass claims, with their seats.
pub open spec fn ignored_labels(claims: Seq<(usize, (BotZoneActionKind, Seq<char>))>) -> Seq<(usize, LabelV)>
    decreases claims.len(),
{
    if claims.len() == 0 {
        Seq::empty()
    } else {
        let rest = ignored_labels(claims.drop_last());
        match claim_label(claims.last().1) {
            Some(l) => rest.push((claims.last().0, l)),
            None => rest,
        }
    }
}

/// The claims declared on the discard of event `i`: its let-pass claims, then the claim that
/// the next event makes.
pub open spec fn declared_after_play(events: Seq<EventView>, i: int) -> Seq<(usize, LabelV)> {
    let base = ignored_labels(events[i].2);
    if i + 1 < events.len() {
        match claim_label(events[i + 1].1) {
            Some(l) => base.push((events[i + 1].0, l)),
            None => base,
        }
    } else {
        base
    }
}

/// The seats among the let-pass claims that declared a win.
pub open spec fn ignored_robbers(claims: Seq<(usize, (BotZoneActionKind, Seq<char>))>) -> Seq<usize>
    decreases claims.len(),
{
    if claims.len() == 0 {
        Seq::empty()
    } else {
        let rest = ignored_robbers(claims.drop_last());
        if claims.last().1.0 == BotZoneActionKind::Hu {
            rest.push(claims.last().0)
        } else {
            rest
        }
    }
}

/// The seats that would rob the added kong of event `i`: its let-pass wins, then the winner
/// of the next event.
pub open spec fn robbers_after_add_kong(events: Seq<EventView>, i: int) -> Seq<usize> {
    let base = ignored_robbers(events[i].2);
    if i + 1 < events.len() && events[i + 1].1.0 == BotZoneActionKind::Hu {
        base.push(events[i + 1].0)
    } else {
        base
    }
}

/// The tables after event `i` and the samples that it gives.
pub open spec fn replay_event(m: ReplayModel, record: BotZoneMatch, winner_fan: i64, i: int) -> (ReplayModel, Seq<SampleV>) {
    let mid = record.match_id@;
    let rw = record.round_wind@;
    let evs = events_v(record);
    let actor = evs[i].0;
    let key = evs[i].1.1;
    let outcomes = spec_outcomes(record, winner_fan);
    match evs[i].1.0 {
        BotZoneActionKind::Draw => (after_draw(m, mid, actor, key), Seq::empty()),
        BotZoneActionKind::Play => {
            let kong_sample: Seq<SampleV> = if kong_candidates(m.hands[actor as int], m.melds[actor as int]).len() > 0 {
                seq![self_kong_sample_v(m, mid, rw, actor, LabelV::Pass, outcomes[actor as int])]
            } else {
                Seq::empty()
            };
            let turn = kong_sample.push(active_turn_sample_v(m, mid, rw, actor, LabelV::Discard(key), outcomes[actor as int]));
            let m2 = after_play(m, actor, key);
            (m2, turn + claim_samples_v(m2, mid, rw, actor, key, declared_after_play(evs, i), outcomes, 4))
        },
        BotZoneActionKind::Chi => (after_chow(m, actor, key), Seq::empty()),
        BotZoneActionKind::Peng => (after_same_tile_meld(m, actor, key, 2), Seq::empty()),
        BotZoneActionKind::Gang => (after_same_tile_meld(m, actor, key, 3), Seq::empty()),
        BotZoneActionKind::AnGang => (
            after_concealed_kong(m, actor, key),
            seq![self_kong_sample_v(m, mid, rw, actor, LabelV::SelfKong("concealed_kong"@, key), outcomes[actor as int])],
        ),
        BotZoneActionKind::BuGang => (
            after_add_kong(m, actor, key),
            seq![self_kong_sample_v(m, mid, rw, actor, LabelV::SelfKong("add_kong"@, key), outcomes[actor as int])]
                + rob_kong_samples_v(m, mid, rw, actor, key, robbers_after_add_kong(evs, i), outcomes, 4),
        ),
        BotZoneActionKind::Hu => (m, Seq::empty()),
    }
}

/// The tables after the first `n` events and the samples that they give, in order.
pub open spec fn replay_upto(record: BotZoneMatch, winner_fan: i64, n: int) -> (ReplayModel, Seq<SampleV>)
    decreases n,
{
    if n <= 0 {
        (initial_model(record.match_id@, deals_v(record)), Seq::empty())
    } else {
        let before = replay_upto(record, winner_fan, n - 1);
        let step = replay_event(before.0, record, winner_fan, n - 1);
        (step.0, before.1 + step.1)
    }
}

/// Whether a record can be replayed: every seat that draws, discards or melds is one of the
/// four, and the record is small enough to number its tiles and samples.
pub open spec fn replayable(record: BotZoneMatch) -> bool {
    &&& forall|i: int|
        0 <= i < events_v(record).len() ==> (#[trigger] events_v(record)[i]).1.0 != BotZoneActionKind::Hu
            ==> events_v(record)[i].0 < 4
    &&& dealt_before(deals_v(record), 4) + record.events@.len() < usize::MAX
    &&& record.events@.len() < usize::MAX / 8
}


pub open spec fn declared_v(v: Seq<(usize, TrainingLabel)>) -> Seq<(usize, LabelV)> {
    v.map_values(|p: (usize, TrainingLabel)| (p.0, label_v(p.1)))
}

fn kind_and_key(a: &BotZoneAction) -> (r: (BotZoneActionKind, &String))
    ensures
        (r.0, r.1@) == action_view(*a),
{
    match a {
        BotZoneAction::Draw { tile_key } => (BotZoneActionKind::Draw, tile_key),
        BotZoneAction::Play { tile_key } => (BotZoneActionKind::Play, tile_key),
        BotZoneAction::Chi { middle_tile_key } => (BotZoneActionKind::Chi, middle_tile_key),
        BotZoneAction::Peng { tile_key } => (BotZoneActionKind::Peng, tile_key),
        BotZoneAction::Gang { tile_key } => (BotZoneActionKind::Gang, tile_key),
        BotZoneAction::AnGang { tile_key } => (BotZoneActionKind::AnGang, tile_key),
        BotZoneAction::BuGang { tile_key } => (BotZoneActionKind::BuGang, tile_key),
        BotZoneAction::Hu { tile_key } => (BotZoneActionKind::Hu, tile_key),
    }
}

/// The label of a claim action, where it is a chow, pung, kong or win.
fn label_for_claim_action(a: &BotZoneAction) -> (r: Option<TrainingLabel>)
    ensures
        match claim_label(action_view(*a)) {
            Some(l) => r matches Some(x) && label_v(x) == l,
            None => r is None,
        },
{
    match a {
        BotZoneAction::Chi { middle_tile_key } => Some(TrainingLabel::ClaimChow { middle_tile_key: middle_tile_key.clone() }),
        BotZoneAction::Peng { tile_key } => Some(TrainingLabel::ClaimPung { tile_key: tile_key.clone() }),
        BotZoneAction::Gang { tile_key } => Some(TrainingLabel::ClaimKong { tile_key: tile_key.clone() }),
        BotZoneAction::Hu { .. } => Some(TrainingLabel::Hu),
        _ => None,
    }
}

/// How the round ended for each of the four seats.
pub fn outcome_by_seat(record: &BotZoneMatch, winner_fan: i64) -> (r: Vec<SampleOutcome>)
    ensures
        r@ == spec_outcomes(*record, winner_fan),
{
    let ghost evs = events_v(*record);
    let (score_delta, round_drawn) = match &record.result {
        BotZoneResult::Hu { score_delta, .. } => (score_delta, false),
        BotZoneResult::Huang { score_delta } => (score_delta, true),
    };
    let first = first_hu_index(record);
    proof {
        lemma_first_hu_range(evs, 0);
    }
    let mut winner: Option<usize> = None;
    let mut discarder: Option<usize> = None;
    match first {
        Some(i) => {
            winner = Some(record.events[i].actor);
            assert(evs[i as int] == event_view(record.events@[i as int]));
            assert(first_hu_from(evs, 0) == Some(i as int));
            assert(record_winner(*record) == Some(evs[i as int].0));
            assert(winner == record_winner(*record));
            if i >= 1 {
                let (previous, _k) = kind_and_key(&record.events[i - 1].action);
                assert(evs[i - 1] == event_view(record.events@[i - 1]));
                if previous == BotZoneActionKind::Play {
                    discarder = Some(record.events[i - 1].actor);
                }
            }
        },
        None => {},
    }
    assert(winner == record_winner(*record));
    assert(discarder == record_discarder(*record));
    let mut outcomes: Vec<SampleOutcome> = Vec::new();
    let mut seat: usize = 0;
    while seat < 4
        invariant
            seat <= 4,
            outcomes@.len() == seat,
            winner == record_winner(*record),
            discarder == record_discarder(*record),
            score_delta@ == match record.result {
                BotZoneResult::Hu { score_delta, .. } => score_delta@,
                BotZoneResult::Huang { score_delta } => score_delta@,
            },
            round_drawn == (record.result is Huang),
            forall|s: int| 0 <= s < seat ==> #[trigger] outcomes@[s] == spec_outcome(*record, winner_fan, s),
        decreases 4 - seat,
    {
        let won = match winner {
            Some(w) => w == seat,
            None => false,
        };
        let dealt_in = match (winner, discarder) {
            (Some(w), Some(d)) => d == seat && w != seat,
            _ => false,
        };
        outcomes.push(
            SampleOutcome {
                score_delta: score_delta[seat],
                fan_count: if won {
                    winner_fan
                } else {
                    0
                },
                won,
                dealt_in,
                round_drawn,
            },
        );
        seat += 1;
    }
    assert(outcomes@ =~= spec_outcomes(*record, winner_fan));
    outcomes
}

fn first_hu_index(record: &BotZoneMatch) -> (r: Option<usize>)
    ensures
        r matches Some(i) ==> i < record.events@.len() && first_hu_from(events_v(*record), 0) == Some(i as int),
        r is None ==> first_hu_from(events_v(*record), 0) is None,
{
    let ghost evs = events_v(*record);
    let mut i: usize = 0;
    while i < record.events.len()
        invariant
            evs == events_v(*record),
            i <= evs.len(),
            forall|j: int| 0 <= j < i ==> (#[trigger] evs[j]).1.0 != BotZoneActionKind::Hu,
        decreases evs.len() - i,
    {
        let (kind, _key) = kind_and_key(&record.events[i].action);
        assert(evs[i as int] == event_view(record.events@[i as int]));
        if kind == BotZoneActionKind::Hu {
            proof {
                lemma_first_hu_from(evs, 0, i as int);
            }
            return Some(i);
        }
        i += 1;
    }
    proof {
        lemma_first_hu_from(evs, 0, i as int);
    }
    None
}

proof fn lemma_first_hu_range(events: Seq<EventView>, from: int)
    requires
        0 <= from,
    ensures
        first_hu_from(events, from) matches Some(k) ==> from <= k < events.len(),
    decreases events.len() - from,
{
    if from < events.len() && events[from].1.0 != BotZoneActionKind::Hu {
        lemma_first_hu_range(events, from + 1);
    }
}

proof fn lemma_first_hu_from(events: Seq<EventView>, from: int, k: int)
    requires
        0 <= from <= k <= events.len(),
        forall|j: int| from <= j < k ==> (#[trigger] events[j]).1.0 != BotZoneActionKind::Hu,
    ensures
        k == events.len() ==> first_hu_from(events, from) is None,
        k < events.len() && events[k].1.0 == BotZoneActionKind::Hu ==> first_hu_from(events, from) == Some(k),
    decreases k - from,
{
    if from < k {
        lemma_first_hu_from(events, from + 1, k);
    }
}

/// The claims declared on the discard of event `event_index`.
fn declared_claims_after_play(record: &BotZoneMatch, event_index: usize) -> (r: Vec<(usize, TrainingLabel)>)
    requires
        event_index < record.events@.len(),
    ensures
        declared_v(r@) == declared_after_play(events_v(*record), event_index as int),
{
    let ghost evs = events_v(*record);
    let claims = &record.events[event_index].ignored_claims;
    let ghost cs = evs[event_index as int].2;
    assert(cs == claims@.map_values(|c: crate::botzone::BotZoneIgnoredClaim| (c.actor, action_view(c.action))));
    let mut declared: Vec<(usize, TrainingLabel)> = Vec::new();
    let mut k: usize = 0;
    while k < claims.len()
        invariant
            cs == claims@.map_values(|c: crate::botzone::BotZoneIgnoredClaim| (c.actor, action_view(c.action))),
            k <= claims@.len(),
            declared_v(declared@) == ignored_labels(cs.take(k as int)),
        decreases claims@.len() - k,
    {
        proof {
            assert(cs.take(k + 1).drop_last() =~= cs.take(k as int));
            assert(cs.take(k + 1).last() == cs[k as int]);
        }
        match label_for_claim_action(&claims[k].action) {
            Some(label) => {
                let ghost before = declared_v(declared@);
                let ghost lv = label_v(label);
                declared.push((claims[k].actor, label));
                assert(declared_v(declared@) =~= before.push((claims@[k as int].actor, lv)));
            },
            None => {},
        }
        k += 1;
    }
    assert(cs.take(k as int) =~= cs);
    if event_index < record.events.len() - 1 {
        let next = &record.events[event_index + 1];
        match label_for_claim_action(&next.action) {
            Some(label) => {
                let ghost before = declared_v(declared@);
                let ghost lv = label_v(label);
                declared.push((next.actor, label));
                assert(declared_v(declared@) =~= before.push((next.actor, lv)));
            },
            None => {},
        }
    }
    declared
}

/// The seats that would rob the added kong of event `event_index`.
fn declared_rob_kongs_after_add_kong(record: &BotZoneMatch, event_index: usize) -> (r: Vec<usize>)
    requires
        event_index < record.events@.len(),
    ensures
        r@ == robbers_after_add_kong(events_v(*record), event_index as int),
{
    let ghost evs = events_v(*record);
    let claims = &record.events[event_index].ignored_claims;
    let ghost cs = evs[event_index as int].2;
    let mut robbers: Vec<usize> = Vec::new();
    let mut k: usize = 0;
    while k < claims.len()
        invariant
            cs == claims@.map_values(|c: crate::botzone::BotZoneIgnoredClaim| (c.actor, action_view(c.action))),
            k <= claims@.len(),
            robbers@ == ignored_robbers(cs.take(k as int)),
        decreases claims@.len() - k,
    {
        proof {
            assert(cs.take(k + 1).drop_last() =~= cs.take(k as int));
            assert(cs.take(k + 1).last() == cs[k as int]);
        }
        let (kind, _key) = kind_and_key(&claims[k].action);
        if kind == BotZoneActionKind::Hu {
            robbers.push(claims[k].actor);
        }
        k += 1;
    }
    assert(cs.take(k as int) =~= cs);
    if event_index < record.events.len() - 1 {
        let (kind, _key) = kind_and_key(&record.events[event_index + 1].action);
        if kind == BotZoneActionKind::Hu {
            robbers.push(record.events[event_index + 1].actor);
        }
    }
    robbers
}

fn declared_label_exec(declared: &Vec<(usize, TrainingLabel)>, seat: usize) -> (r: TrainingLabel)
    ensures
        label_v(r) == declared_label(declared_v(declared@), seat, 0),
{
    let ghost d = declared_v(declared@);
    let mut k: usize = 0;
    while k < declared.len()
        invariant
            d == declared_v(declared@),
            k <= declared@.len(),
            declared_label(d, seat, 0) == declared_label(d, seat, k as int),
        decreases declared@.len() - k,
    {
        if declared[k].0 == seat {
            return clone_label(&declared[k].1);
        }
        k += 1;
    }
    TrainingLabel::Pass
}

fn contains_seat(v: &Vec<usize>, seat: usize) -> (r: bool)
    ensures
        r == v@.contains(seat),
{
    let mut k: usize = 0;
    while k < v.len()
        invariant
            k <= v@.len(),
            forall|j: int| 0 <= j < k ==> v@[j] != seat,
        decreases v@.len() - k,
    {
        if v[k] == seat {
            return true;
        }
        k += 1;
    }
    false
}

pub open spec fn indices_in_order(samples: Seq<TrainingDecisionSampleV2>) -> bool {
    forall|j: int| 0 <= j < samples.len() ==> (#[trigger] samples[j]).decision_index == j
}

fn push_sample(samples: &mut Vec<TrainingDecisionSampleV2>, sample: TrainingDecisionSampleV2)
    requires
        indices_in_order(old(samples)@),
        sample.decision_index == old(samples)@.len(),
    ensures
        indices_in_order(final(samples)@),
        samples_v(final(samples)@) == samples_v(old(samples)@).push(sample_v(sample)),
        final(samples)@.len() == old(samples)@.len() + 1,
{
    let ghost sv = samples_v(samples@);
    samples.push(sample);
    assert(samples_v(samples@) =~= sv.push(sample_v(sample)));
}

fn claim_samples(
    state: &ReplayState,
    round_wind: &String,
    discarder: usize,
    key: &String,
    declared: &Vec<(usize, TrainingLabel)>,
    outcomes: &Vec<SampleOutcome>,
    samples: &mut Vec<TrainingDecisionSampleV2>,
)
    requires
        state.inv(),
        discarder < 4,
        outcomes@.len() == 4,
        old(samples)@.len() < usize::MAX - 8,
        indices_in_order(old(samples)@),
    ensures
        indices_in_order(final(samples)@),
        final(samples)@.len() <= old(samples)@.len() + 4,
        samples_v(final(samples)@) == samples_v(old(samples)@) + claim_samples_v(
            state.model(),
            state.match_id@,
            round_wind@,
            discarder,
            key@,
            declared_v(declared@),
            outcomes@,
            4,
        ),
{
    let ghost start = samples_v(samples@);
    let ghost start_len = samples@.len();
    let mut seat: usize = 0;
    while seat < 4
        invariant
            state.inv(),
            discarder < 4,
            seat <= 4,
            outcomes@.len() == 4,
            start_len < usize::MAX - 8,
            samples@.len() <= start_len + seat,
            indices_in_order(samples@),
            samples_v(samples@) == start + claim_samples_v(
                state.model(),
                state.match_id@,
                round_wind@,
                discarder,
                key@,
                declared_v(declared@),
                outcomes@,
                seat as int,
            ),
        decreases 4 - seat,
    {
        if seat != discarder {
            let label = declared_label_exec(declared, seat);
            match state.claim_sample(round_wind, samples.len() as u64, seat, discarder, key, label, outcomes[seat]) {
                Some(sample) => {
                    push_sample(samples, sample);
                },
                None => {},
            }
        }
        seat += 1;
    }
}

fn rob_kong_samples(
    state: &ReplayState,
    round_wind: &String,
    kong_seat: usize,
    key: &String,
    robbers: &Vec<usize>,
    outcomes: &Vec<SampleOutcome>,
    samples: &mut Vec<TrainingDecisionSampleV2>,
)
    requires
        state.inv(),
        kong_seat < 4,
        outcomes@.len() == 4,
        old(samples)@.len() < usize::MAX - 8,
        indices_in_order(old(samples)@),
    ensures
        indices_in_order(final(samples)@),
        final(samples)@.len() <= old(samples)@.len() + 4,
        samples_v(final(samples)@) == samples_v(old(samples)@) + rob_kong_samples_v(
            state.model(),
            state.match_id@,
            round_wind@,
            kong_seat,
            key@,
            robbers@,
            outcomes@,
            4,
        ),
{
    let ghost start = samples_v(samples@);
    let ghost start_len = samples@.len();
    let mut seat: usize = 0;
    while seat < 4
        invariant
            state.inv(),
            kong_seat < 4,
            seat <= 4,
            outcomes@.len() == 4,
            start_len < usize::MAX - 8,
            samples@.len() <= start_len + seat,
            indices_in_order(samples@),
            samples_v(samples@) == start + rob_kong_samples_v(
                state.model(),
                state.match_id@,
                round_wind@,
                kong_seat,
                key@,
                robbers@,
                outcomes@,
                seat as int,
            ),
        decreases 4 - seat,
    {
        if seat != kong_seat {
            let label = if contains_seat(robbers, seat) {
                TrainingLabel::Hu
            } else {
                TrainingLabel::Pass
            };
            let sample = state.rob_kong_sample(round_wind, samples.len() as u64, seat, key, label, outcomes[seat]);
            push_sample(samples, sample);
        }
        seat += 1;
    }
}

/// Replays event `i`: the tables change and its samples are added.
fn replay_event_exec(
    state: &mut ReplayState,
    record: &BotZoneMatch,
    winner_fan: i64,
    i: usize,
    outcomes: &Vec<SampleOutcome>,
    samples: &mut Vec<TrainingDecisionSampleV2>,
)
    requires
        old(state).inv(),
        old(state).match_id@ == record.match_id@,
        old(state).next_sequence < usize::MAX,
        i < record.events@.len(),
        events_v(*record)[i as int].1.0 != BotZoneActionKind::Hu ==> events_v(*record)[i as int].0 < 4,
        outcomes@ == spec_outcomes(*record, winner_fan),
        old(samples)@.len() < usize::MAX - 16,
        indices_in_order(old(samples)@),
    ensures
        final(state).inv(),
        final(state).match_id@ == record.match_id@,
        final(state).next_sequence <= old(state).next_sequence + 1,
        final(state).model() == replay_event(old(state).model(), *record, winner_fan, i as int).0,
        samples_v(final(samples)@) == samples_v(old(samples)@) + replay_event(old(state).model(), *record, winner_fan, i as int).1,
        final(samples)@.len() <= old(samples)@.len() + 6,
        indices_in_order(final(samples)@),
{
    let ghost evs = events_v(*record);
    let ghost m = state.model();
    let ghost before = samples_v(samples@);
    let event = &record.events[i];
    let (kind, key) = kind_and_key(&event.action);
    let actor = event.actor;
    assert(evs[i as int] == event_view(*event));
    match kind {
        BotZoneActionKind::Draw => {
            state.add_tile(actor, key);
            assert(samples@.len() == old(samples)@.len());
            assert(samples_v(samples@) =~= before + Seq::<SampleV>::empty());
        },
        BotZoneActionKind::Play => {
            let outcome = outcomes[actor];
            let kongs = self_kong_candidates(&state.hands[actor], &state.melds[actor]);
            if kongs.len() > 0 {
                let sample = state.self_kong_sample(&record.round_wind, samples.len() as u64, actor, TrainingLabel::Pass, outcome);
                push_sample(samples, sample);
            }
            let sample = state.active_turn_sample(
                &record.round_wind,
                samples.len() as u64,
                actor,
                TrainingLabel::Discard { tile_key: key.clone() },
                outcome,
            );
            push_sample(samples, sample);
            let ghost turn = samples_v(samples@);
            state.play_tile(actor, key);
            let declared = declared_claims_after_play(record, i);
            claim_samples(state, &record.round_wind, actor, key, &declared, outcomes, samples);
            proof {
                let step = replay_event(m, *record, winner_fan, i as int);
                assert(turn =~= before + (step.1.take(turn.len() - before.len())));
                assert(samples_v(samples@) =~= before + step.1);
            }
        },
        BotZoneActionKind::Chi => {
            state.apply_chow(actor, key);
            assert(samples_v(samples@) =~= before + Seq::<SampleV>::empty());
        },
        BotZoneActionKind::Peng => {
            state.apply_same_tile_meld(actor, key, 2);
            assert(samples_v(samples@) =~= before + Seq::<SampleV>::empty());
        },
        BotZoneActionKind::Gang => {
            state.apply_same_tile_meld(actor, key, 3);
            assert(samples_v(samples@) =~= before + Seq::<SampleV>::empty());
        },
        BotZoneActionKind::AnGang => {
            let sample = state.self_kong_sample(
                &record.round_wind,
                samples.len() as u64,
                actor,
                TrainingLabel::SelfKong { kind: owned("concealed_kong"), tile_key: key.clone() },
                outcomes[actor],
            );
            push_sample(samples, sample);
            state.apply_concealed_kong(actor, key);
            proof {
                let step = replay_event(m, *record, winner_fan, i as int);
                assert(samples_v(samples@) =~= before + step.1);
            }
        },
        BotZoneActionKind::BuGang => {
            let sample = state.self_kong_sample(
                &record.round_wind,
                samples.len() as u64,
                actor,
                TrainingLabel::SelfKong { kind: owned("add_kong"), tile_key: key.clone() },
                outcomes[actor],
            );
            push_sample(samples, sample);
            let robbers = declared_rob_kongs_after_add_kong(record, i);
            rob_kong_samples(state, &record.round_wind, actor, key, &robbers, outcomes, samples);
            state.apply_add_kong(actor, key);
            proof {
                let step = replay_event(m, *record, winner_fan, i as int);
                assert(samples_v(samples@) =~= before + step.1);
            }
        },
        BotZoneActionKind::Hu => {
            assert(samples_v(samples@) =~= before + Seq::<SampleV>::empty());
        },
    }
}

/// Turns a recorded round into training samples: for each discard, the discarding seat's
/// turn (with a kong decision first where it could have declared one) and every other seat's
/// claim window; for each concealed or added kong, the kong decision; for each added kong,
/// every other seat's window to rob it. Samples are numbered in order from zero; each carries
/// how the round ended for its seat, `winner_fan` being the fan of the winning hand.
pub fn replay_match_to_samples(record: &BotZoneMatch, winner_fan: i64) -> (r: Result<
    Vec<TrainingDecisionSampleV2>,
    ReplayError,
>)
    requires
        replayable(*record),
    ensures
        r matches Ok(samples) && samples_v(samples@) == replay_upto(*record, winner_fan, record.events@.len() as int).1
            && indices_in_order(samples@),
{
    let ghost evs = events_v(*record);
    let mut state = ReplayState::new(record);
    let outcomes = outcome_by_seat(record, winner_fan);
    let mut samples: Vec<TrainingDecisionSampleV2> = Vec::new();
    let mut i: usize = 0;
    while i < record.events.len()
        invariant
            evs == events_v(*record),
            replayable(*record),
            i <= evs.len(),
            state.inv(),
            state.match_id@ == record.match_id@,
            state.next_sequence <= dealt_before(deals_v(*record), 4) + i,
            state.model() == replay_upto(*record, winner_fan, i as int).0,
            samples_v(samples@) == replay_upto(*record, winner_fan, i as int).1,
            samples@.len() <= 6 * i,
            indices_in_order(samples@),
            outcomes@ == spec_outcomes(*record, winner_fan),
        decreases evs.len() - i,
    {
        proof {
            assert(evs[i as int].1.0 != BotZoneActionKind::Hu ==> evs[i as int].0 < 4);
        }
        replay_event_exec(&mut state, record, winner_fan, i, &outcomes, &mut samples);
        i += 1;
    }
    Ok(samples)
}


proof fn lemma_insert_sorted_contains(s: Seq<Seq<char>>, x: Seq<char>)
    ensures
        insert_sorted(s, x).contains(x),
        forall|y: Seq<char>| s.contains(y) ==> #[trigger] insert_sorted(s, x).contains(y),
    decreases s.len(),
{
    if s.len() == 0 {
        assert(insert_sorted(s, x)[0] == x);
    } else if s[0] == x {
        assert(s[0] == x);
    } else if crate::replay_view::str_lt(x, s[0]) {
        let r = insert_sorted(s, x);
        assert(r[0] == x);
        assert forall|y: Seq<char>| s.contains(y) implies #[trigger] insert_sorted(s, x).contains(y) by {
            let j = choose|j: int| 0 <= j < s.len() && s[j] == y;
            assert(r[j + 1] == y);
        }
    } else {
        let t = s.drop_first();
        lemma_insert_sorted_contains(t, x);
        let r = insert_sorted(s, x);
        assert(r == seq![s[0]] + insert_sorted(t, x));
        let k = choose|k: int| 0 <= k < insert_sorted(t, x).len() && insert_sorted(t, x)[k] == x;
        assert(r[k + 1] == x);
        assert forall|y: Seq<char>| s.contains(y) implies #[trigger] insert_sorted(s, x).contains(y) by {
            let j = choose|j: int| 0 <= j < s.len() && s[j] == y;
            if j == 0 {
                assert(r[0] == y);
            } else {
                assert(t[j - 1] == y);
                assert(t.contains(y));
                assert(insert_sorted(t, x).contains(y));
                let m = choose|m: int| 0 <= m < insert_sorted(t, x).len() && insert_sorted(t, x)[m] == y;
                assert(r[m + 1] == y);
            }
        }
    }
}

proof fn lemma_sorted_unique_contains(v: Seq<Seq<char>>, y: Seq<char>)
    requires
        v.contains(y),
    ensures
        sorted_unique(v).contains(y),
    decreases v.len(),
{
    let rest = sorted_unique(v.drop_last());
    lemma_insert_sorted_contains(rest, v.last());
    if v.last() != y {
        let j = choose|j: int| 0 <= j < v.len() && v[j] == y;
        assert(v.drop_last()[j] == y);
        lemma_sorted_unique_contains(v.drop_last(), y);
    }
}

proof fn lemma_claim_ids_have_pass(
    hand: Seq<crate::replay_view::TileV>,
    last: Seq<char>,
    claims: Seq<crate::replay_view::ClaimV>,
    n: int,
)
    ensures
        claim_action_ids(hand, last, claims, n).contains("pass"@),
    decreases n,
{
    if n <= 0 {
        assert(claim_action_ids(hand, last, claims, n)[0] == "pass"@);
    } else {
        lemma_claim_ids_have_pass(hand, last, claims, n - 1);
        let rest = claim_action_ids(hand, last, claims, n - 1);
        let k = choose|k: int| 0 <= k < rest.len() && rest[k] == "pass"@;
        assert(claim_action_ids(hand, last, claims, n)[k] == "pass"@);
    }
}

/// A claim window always offers to pass.
pub proof fn claim_windows_offer_pass(c: crate::replay_view::ContextV)
    ensures
        legal_claims(c).contains("pass"@),
{
    match c.last_discard {
        None => {
            assert(legal_claims(c)[0] == "pass"@);
        },
        Some(last) => {
            lemma_claim_ids_have_pass(c.hand, last, c.claims, c.claims.len() as int);
            lemma_sorted_unique_contains(claim_action_ids(c.hand, last, c.claims, c.claims.len() as int), "pass"@);
        },
    }
}

/// The claim-window samples after a discard are claim windows of the other seats, each of
/// which may pass: no seat is asked about claiming its own discard.
pub proof fn claim_samples_skip_the_discarder(
    m: ReplayModel,
    match_id: Seq<char>,
    round_wind: Seq<char>,
    discarder: usize,
    discard: Seq<char>,
    declared: Seq<(usize, LabelV)>,
    outcomes: Seq<SampleOutcome>,
    n: int,
)
    ensures
        forall|j: int|
            0 <= j < claim_samples_v(m, match_id, round_wind, discarder, discard, declared, outcomes, n).len() ==> {
                let s = #[trigger] claim_samples_v(m, match_id, round_wind, discarder, discard, declared, outcomes, n)[j];
                &&& s.kind == DecisionKind::ClaimWindow
                &&& s.seat_index != discarder
                &&& s.legal.contains("pass"@)
            },
    decreases n,
{
    if n > 0 {
        claim_samples_skip_the_discarder(m, match_id, round_wind, discarder, discard, declared, outcomes, n - 1);
        let seat = (n - 1) as usize;
        if seat != discarder {
            match claim_sample_v(m, match_id, round_wind, seat, discarder, discard, declared_label(declared, seat, 0), outcomes[n - 1]) {
                Some(smp) => {
                    claim_windows_offer_pass(smp.context);
                },
                None => {},
            }
        }
    }
}

/// The samples of a window to rob an added kong belong to the other seats, each of which may
/// pass or win.
pub proof fn rob_kong_samples_skip_the_kong_seat(
    m: ReplayModel,
    match_id: Seq<char>,
    round_wind: Seq<char>,
    kong_seat: usize,
    key: Seq<char>,
    robbers: Seq<usize>,
    outcomes: Seq<SampleOutcome>,
    n: int,
)
    ensures
        forall|j: int|
            0 <= j < rob_kong_samples_v(m, match_id, round_wind, kong_seat, key, robbers, outcomes, n).len() ==> {
                let s = #[trigger] rob_kong_samples_v(m, match_id, round_wind, kong_seat, key, robbers, outcomes, n)[j];
                &&& s.kind == DecisionKind::RobKong
                &&& s.seat_index != kong_seat
                &&& s.legal.contains("pass"@)
                &&& s.legal.contains("claim:hu"@)
            },
    decreases n,
{
    if n > 0 {
        rob_kong_samples_skip_the_kong_seat(m, match_id, round_wind, kong_seat, key, robbers, outcomes, n - 1);
        let seq2: Seq<Seq<char>> = seq!["claim:hu"@, "pass"@];
        assert(seq2[0] == "claim:hu"@);
        assert(seq2[1] == "pass"@);
    }
}

/// Every claim window and every window to rob a kong in a replay offers to pass.
pub proof fn replayed_windows_offer_pass(record: BotZoneMatch, winner_fan: i64, n: int)
    requires
        0 <= n <= events_v(record).len(),
    ensures
        forall|j: int|
            0 <= j < replay_upto(record, winner_fan, n).1.len() ==> {
                let s = #[trigger] replay_upto(record, winner_fan, n).1[j];
                (s.kind == DecisionKind::ClaimWindow || s.kind == DecisionKind::RobKong) ==> s.legal.contains("pass"@)
            },
    decreases n,
{
    if n > 0 {
        replayed_windows_offer_pass(record, winner_fan, n - 1);
        let before = replay_upto(record, winner_fan, n - 1);
        let step = replay_event(before.0, record, winner_fan, n - 1);
        let evs = events_v(record);
        let actor = evs[n - 1].0;
        let key = evs[n - 1].1.1;
        let mid = record.match_id@;
        let rw = record.round_wind@;
        let outcomes = spec_outcomes(record, winner_fan);
        match evs[n - 1].1.0 {
            BotZoneActionKind::Play => {
                let m2 = after_play(before.0, actor, key);
                claim_samples_skip_the_discarder(m2, mid, rw, actor, key, declared_after_play(evs, n - 1), outcomes, 4);
            },
            BotZoneActionKind::BuGang => {
                rob_kong_samples_skip_the_kong_seat(before.0, mid, rw, actor, key, robbers_after_add_kong(evs, n - 1), outcomes, 4);
            },
            _ => {},
        }
        let all = replay_upto(record, winner_fan, n).1;
        assert(all == before.1 + step.1);
        assert forall|j: int| 0 <= j < all.len() implies {
            let s = #[trigger] all[j];
            (s.kind == DecisionKind::ClaimWindow || s.kind == DecisionKind::RobKong) ==> s.legal.contains("pass"@)
        } by {
            if j < before.1.len() {
                assert(all[j] == before.1[j]);
            } else {
                assert(all[j] == step.1[j - before.1.len()]);
            }
        }
    }
}

/// A round has at most one winner, and the seat that dealt in is not the winner.
pub proof fn outcomes_have_one_winner(record: BotZoneMatch, winner_fan: i64, a: int, b: int)
    requires
        0 <= a < 4,
        0 <= b < 4,
    ensures
        spec_outcome(record, winner_fan, a).won && spec_outcome(record, winner_fan, b).won ==> a == b,
        spec_outcome(record, winner_fan, a).dealt_in ==> !spec_outcome(record, winner_fan, a).won,
        spec_outcome(record, winner_fan, a).dealt_in && spec_outcome(record, winner_fan, b).dealt_in ==> a == b,
        spec_outcome(record, winner_fan, a).fan_count != 0 ==> spec_outcome(record, winner_fan, a).won,
{
}


/// Whether a record can be replayed: what `replay_match_to_samples` needs of it.
pub fn is_replayable(record: &BotZoneMatch) -> (r: bool)
    ensures
        r == replayable(*record),
{
    let ghost evs = events_v(*record);
    let ghost deals = deals_v(*record);
    let mut i: usize = 0;
    while i < record.events.len()
        invariant
            evs == events_v(*record),
            i <= evs.len(),
            forall|j: int| 0 <= j < i ==> (#[trigger] evs[j]).1.0 != BotZoneActionKind::Hu ==> evs[j].0 < 4,
        decreases evs.len() - i,
    {
        let (kind, _key) = kind_and_key(&record.events[i].action);
        assert(evs[i as int] == event_view(record.events@[i as int]));
        if kind != BotZoneActionKind::Hu && record.events[i].actor >= 4 {
            return false;
        }
        i += 1;
    }
    if record.events.len() >= usize::MAX / 8 {
        return false;
    }
    let mut total: usize = 0;
    let mut seat: usize = 0;
    while seat < 4
        invariant
            deals == deals_v(*record),
            deals.len() == 4,
            seat <= 4,
            total == dealt_before(deals, seat as int),
        decreases 4 - seat,
    {
        let n = record.deals[seat].len();
        assert(deals[seat as int].len() == n);
        if n >= usize::MAX - total {
            proof {
                lemma_dealt_before_grows(deals, seat as int + 1, 4);
            }
            return false;
        }
        total = total + n;
        seat += 1;
    }
    total < usize::MAX - record.events.len()
}

proof fn lemma_dealt_before_grows(deals: Seq<Seq<Seq<char>>>, a: int, b: int)
    requires
        0 <= a <= b,
    ensures
        dealt_before(deals, a) <= dealt_before(deals, b),
    decreases b,
{
    if a < b {
        lemma_dealt_before_grows(deals, a, b - 1);
    }
}

/// Whether every sample of `samples` names the match `match_id`, belongs to one of the four
/// seats, and carries that seat's outcome among `outcomes`, and whether every sample of a
/// window to rob a kong offers exactly to win or to pass.
pub open spec fn samples_carry_outcomes(samples: Seq<SampleV>, match_id: Seq<char>, outcomes: Seq<SampleOutcome>) -> bool {
    forall|j: int|
        0 <= j < samples.len() ==> {
            let s = #[trigger] samples[j];
            &&& s.match_id == match_id
            &&& s.seat_index < 4
            &&& s.outcome == outcomes[s.seat_index as int]
            &&& s.kind == DecisionKind::RobKong ==> s.legal == seq!["claim:hu"@, "pass"@]
        }
}

proof fn lemma_claim_samples_carry_outcomes(
    m: ReplayModel,
    match_id: Seq<char>,
    round_wind: Seq<char>,
    discarder: usize,
    discard: Seq<char>,
    declared: Seq<(usize, LabelV)>,
    outcomes: Seq<SampleOutcome>,
    n: int,
)
    requires
        n <= 4,
    ensures
        samples_carry_outcomes(
            claim_samples_v(m, match_id, round_wind, discarder, discard, declared, outcomes, n),
            match_id,
            outcomes,
        ),
    decreases n,
{
    if n > 0 {
        lemma_claim_samples_carry_outcomes(m, match_id, round_wind, discarder, discard, declared, outcomes, n - 1);
    }
}

proof fn lemma_rob_kong_samples_carry_outcomes(
    m: ReplayModel,
    match_id: Seq<char>,
    round_wind: Seq<char>,
    kong_seat: usize,
    key: Seq<char>,
    robbers: Seq<usize>,
    outcomes: Seq<SampleOutcome>,
    n: int,
)
    requires
        n <= 4,
    ensures
        samples_carry_outcomes(
            rob_kong_samples_v(m, match_id, round_wind, kong_seat, key, robbers, outcomes, n),
            match_id,
            outcomes,
        ),
    decreases n,
{
    if n > 0 {
        lemma_rob_kong_samples_carry_outcomes(m, match_id, round_wind, kong_seat, key, robbers, outcomes, n - 1);
    }
}

/// Every sample of a replay names the record's match and carries its seat's outcome: the
/// seat won where the first win of the record is its own, and dealt in where that win came
/// on its discard; every window to rob a kong offers exactly to win or to pass.
pub proof fn replayed_samples_carry_their_seat_outcome(record: BotZoneMatch, winner_fan: i64, n: int)
    requires
        replayable(record),
        0 <= n <= events_v(record).len(),
    ensures
        samples_carry_outcomes(replay_upto(record, winner_fan, n).1, record.match_id@, spec_outcomes(record, winner_fan)),
        forall|j: int|
            0 <= j < replay_upto(record, winner_fan, n).1.len() ==> {
                let s = #[trigger] replay_upto(record, winner_fan, n).1[j];
                s.outcome == spec_outcome(record, winner_fan, s.seat_index as int)
            },
    decreases n,
{
    let outcomes = spec_outcomes(record, winner_fan);
    let mid = record.match_id@;
    if n > 0 {
        replayed_samples_carry_their_seat_outcome(record, winner_fan, n - 1);
        let before = replay_upto(record, winner_fan, n - 1);
        let step = replay_event(before.0, record, winner_fan, n - 1);
        let evs = events_v(record);
        let actor = evs[n - 1].0;
        let key = evs[n - 1].1.1;
        let rw = record.round_wind@;
        assert(evs[n - 1].1.0 != BotZoneActionKind::Hu ==> actor < 4);
        match evs[n - 1].1.0 {
            BotZoneActionKind::Play => {
                let m2 = after_play(before.0, actor, key);
                lemma_claim_samples_carry_outcomes(m2, mid, rw, actor, key, declared_after_play(evs, n - 1), outcomes, 4);
            },
            BotZoneActionKind::BuGang => {
                lemma_rob_kong_samples_carry_outcomes(before.0, mid, rw, actor, key, robbers_after_add_kong(evs, n - 1), outcomes, 4);
            },
            _ => {},
        }
        assert(samples_carry_outcomes(step.1, mid, outcomes)) by {
            match evs[n - 1].1.0 {
                BotZoneActionKind::Play => {
                    let m2 = after_play(before.0, actor, key);
                    let claims = claim_samples_v(m2, mid, rw, actor, key, declared_after_play(evs, n - 1), outcomes, 4);
                    let kong_sample: Seq<SampleV> = if kong_candidates(before.0.hands[actor as int], before.0.melds[actor as int]).len() > 0 {
                        seq![self_kong_sample_v(before.0, mid, rw, actor, LabelV::Pass, outcomes[actor as int])]
                    } else {
                        Seq::empty()
                    };
                    let turn = kong_sample.push(active_turn_sample_v(before.0, mid, rw, actor, LabelV::Discard(key), outcomes[actor as int]));
                    assert(step.1 == turn + claims);
                    assert forall|j: int| 0 <= j < step.1.len() implies {
                        let s = #[trigger] step.1[j];
                        &&& s.match_id == mid
                        &&& s.seat_index < 4
                        &&& s.outcome == outcomes[s.seat_index as int]
                        &&& s.kind == DecisionKind::RobKong ==> s.legal == seq!["claim:hu"@, "pass"@]
                    } by {
                        if j < turn.len() {
                            assert(step.1[j] == turn[j]);
                        } else {
                            assert(step.1[j] == claims[j - turn.len()]);
                        }
                    }
                },
                BotZoneActionKind::BuGang => {
                    let robs = rob_kong_samples_v(before.0, mid, rw, actor, key, robbers_after_add_kong(evs, n - 1), outcomes, 4);
                    let first = seq![self_kong_sample_v(before.0, mid, rw, actor, LabelV::SelfKong("add_kong"@, key), outcomes[actor as int])];
                    assert(step.1 == first + robs);
                    assert forall|j: int| 0 <= j < step.1.len() implies {
                        let s = #[trigger] step.1[j];
                        &&& s.match_id == mid
                        &&& s.seat_index < 4
                        &&& s.outcome == outcomes[s.seat_index as int]
                        &&& s.kind == DecisionKind::RobKong ==> s.legal == seq!["claim:hu"@, "pass"@]
                    } by {
                        if j < 1 {
                            assert(step.1[j] == first[j]);
                        } else {
                            assert(step.1[j] == robs[j - 1]);
                        }
                    }
                },
                _ => {},
            }
        }
        let all = replay_upto(record, winner_fan, n).1;
        assert(all == before.1 + step.1);
        assert forall|j: int| 0 <= j < all.len() implies {
            let s = #[trigger] all[j];
            &&& s.match_id == mid
            &&& s.seat_index < 4
            &&& s.outcome == outcomes[s.seat_index as int]
            &&& s.kind == DecisionKind::RobKong ==> s.legal == seq!["claim:hu"@, "pass"@]
        } by {
            if j < before.1.len() {
                assert(all[j] == before.1[j]);
            } else {
                assert(all[j] == step.1[j - before.1.len()]);
            }
        }
    }
    let all = replay_upto(record, winner_fan, n).1;
    assert forall|j: int| 0 <= j < all.len() implies {
        let s = #[trigger] all[j];
        s.outcome == spec_outcome(record, winner_fan, s.seat_index as int)
    } by {
        assert(all[j].seat_index < 4);
    }
}

} // verus!
