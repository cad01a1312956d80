use vstd::prelude::*;

use crate::replay::{
    DecisionKind, SampleOutcome, SerializableBotContext, SerializableBotTile, SerializableClaimOption,
    SerializableDiscardEvent, SerializableSelfKongCandidate, TrainingDecisionSampleV2, TrainingLabel,
};
use crate::tiles::spec_tile_index;

verus! {

/// A tile as the replay sees it: its id, its key, and whether it is a flower.
pub type TileV = (Seq<char>, Seq<char>, bool);

/// A claim option: its action type and the ids of the tiles it uses.
pub type ClaimV = (Seq<char>, Seq<Seq<char>>);

/// A kong candidate: its kind, the ids of its tiles, its tile key, and the meld it extends.
pub type KongV = (Seq<char>, Seq<Seq<char>>, Seq<char>, Option<usize>);

pub open spec fn tile_v(t: SerializableBotTile) -> TileV {
    (t.tile_id@, t.tile_key@, t.is_flower)
}

pub open spec fn tiles_v(ts: Seq<SerializableBotTile>) -> Seq<TileV> {
    ts.map_values(|t: SerializableBotTile| tile_v(t))
}

pub open spec fn strs_v(v: Seq<String>) -> Seq<Seq<char>> {
    v.map_values(|s: String| s@)
}

pub open spec fn groups_v(v: Seq<Vec<String>>) -> Seq<Seq<Seq<char>>> {
    v.map_values(|g: Vec<String>| strs_v(g@))
}

pub open spec fn seat_groups_v(v: Seq<Vec<Vec<String>>>) -> Seq<Seq<Seq<Seq<char>>>> {
    v.map_values(|g: Vec<Vec<String>>| groups_v(g@))
}

pub open spec fn opt_v(o: Option<String>) -> Option<Seq<char>> {
    match o {
        Some(s) => Some(s@),
        None => None,
    }
}

pub open spec fn history_v(v: Seq<SerializableDiscardEvent>) -> Seq<(usize, Seq<char>)> {
    v.map_values(|e: SerializableDiscardEvent| (e.seat_index, e.tile_key@))
}

pub open spec fn claim_v(c: SerializableClaimOption) -> ClaimV {
    (c.action_type@, strs_v(c.tile_ids@))
}

pub open spec fn claims_v(v: Seq<SerializableClaimOption>) -> Seq<ClaimV> {
    v.map_values(|c: SerializableClaimOption| claim_v(c))
}

pub open spec fn kong_v(k: SerializableSelfKongCandidate) -> KongV {
    (k.kind@, strs_v(k.tile_ids@), k.tile_key@, k.meld_index)
}

pub open spec fn kongs_v(v: Seq<SerializableSelfKongCandidate>) -> Seq<KongV> {
    v.map_values(|k: SerializableSelfKongCandidate| kong_v(k))
}

/// What a decision context holds, by value.
#[verifier::ext_equal]
pub struct ContextV {
    pub seat_index: usize,
    pub seat_count: usize,
    pub dealer_seat: usize,
    pub seat_wind: Option<Seq<char>>,
    pub round_wind: Seq<char>,
    pub cumulative_scores: Seq<i64>,
    pub wall_tiles_remaining: i64,
    pub visible_tile_keys: Seq<Seq<char>>,
    pub discards: Seq<Seq<Seq<char>>>,
    pub melds: Seq<Seq<Seq<Seq<char>>>>,
    pub history: Seq<(usize, Seq<char>)>,
    pub hand: Seq<TileV>,
    pub counts: Seq<u8>,
    pub own_melds: Seq<Seq<Seq<char>>>,
    pub flower_count: usize,
    pub restricted: Option<Seq<char>>,
    pub drawn: Option<Seq<char>>,
    pub kongs: Seq<KongV>,
    pub claims: Seq<ClaimV>,
    pub last_discard: Option<Seq<char>>,
    pub risk_tiles: Seq<Seq<char>>,
}

pub open spec fn context_v(c: SerializableBotContext) -> ContextV {
    ContextV {
        seat_index: c.seat_index,
        seat_count: c.seat_count,
        dealer_seat: c.dealer_seat,
        seat_wind: opt_v(c.seat_wind),
        round_wind: c.round_wind@,
        cumulative_scores: c.cumulative_scores@,
        wall_tiles_remaining: c.wall_tiles_remaining,
        visible_tile_keys: strs_v(c.visible_tile_keys@),
        discards: groups_v(c.opponent_discards_by_seat@),
        melds: seat_groups_v(c.opponent_melds_by_seat@),
        history: history_v(c.discard_history@),
        hand: tiles_v(c.player.concealed_tiles@),
        counts: c.player.concealed_tile_counts@,
        own_melds: groups_v(c.player.meld_tile_key_groups@),
        flower_count: c.player.flower_count,
        restricted: opt_v(c.restricted_discard_tile_key),
        drawn: opt_v(c.drawn_tile_id),
        kongs: kongs_v(c.self_kong_candidates@),
        claims: claims_v(c.claim_options@),
        last_discard: opt_v(c.last_discard_tile_key),
        risk_tiles: strs_v(c.add_kong_risk_tiles@),
    }
}

/// A recorded choice, by value.
pub enum LabelV {
    Discard(Seq<char>),
    ClaimChow(Seq<char>),
    ClaimPung(Seq<char>),
    ClaimKong(Seq<char>),
    SelfKong(Seq<char>, Seq<char>),
    Hu,
    Pass,
}

pub open spec fn label_v(l: TrainingLabel) -> LabelV {
    match l {
        TrainingLabel::Discard { tile_key } => LabelV::Discard(tile_key@),
        TrainingLabel::ClaimChow { middle_tile_key } => LabelV::ClaimChow(middle_tile_key@),
        TrainingLabel::ClaimPung { tile_key } => LabelV::ClaimPung(tile_key@),
        TrainingLabel::ClaimKong { tile_key } => LabelV::ClaimKong(tile_key@),
        TrainingLabel::SelfKong { kind, tile_key } => LabelV::SelfKong(kind@, tile_key@),
        TrainingLabel::Hu => LabelV::Hu,
        TrainingLabel::Pass => LabelV::Pass,
    }
}

/// A training sample, by value, apart from its decision index.
#[verifier::ext_equal]
pub struct SampleV {
    pub schema_version: u32,
    pub match_id: Seq<char>,
    pub seat_index: usize,
    pub kind: DecisionKind,
    pub context: ContextV,
    pub legal: Seq<Seq<char>>,
    pub label: LabelV,
    pub outcome: SampleOutcome,
    pub no_opponent_targets: bool,
}

pub open spec fn sample_v(s: TrainingDecisionSampleV2) -> SampleV {
    SampleV {
        schema_version: s.schema_version,
        match_id: s.match_id@,
        seat_index: s.seat_index,
        kind: s.decision_kind,
        context: context_v(s.context),
        legal: strs_v(s.legal_actions@),
        label: label_v(s.label),
        outcome: s.outcome,
        no_opponent_targets: s.opponent_tenpai_target@.len() == 0 && s.opponent_risk_target@.len() == 0
            && s.opponent_risk_mask@.len() == 0,
    }
}

pub open spec fn samples_v(v: Seq<TrainingDecisionSampleV2>) -> Seq<SampleV> {
    v.map_values(|s: TrainingDecisionSampleV2| sample_v(s))
}

/// Byte order of strings, which for UTF-8 is the order of their characters' code points.
pub open spec fn str_lt(a: Seq<char>, b: Seq<char>) -> bool
    decreases a.len(),
{
    if b.len() == 0 {
        false
    } else if a.len() == 0 {
        true
    } else if a[0] != b[0] {
        (a[0] as u32) < (b[0] as u32)
    } else {
        str_lt(a.drop_first(), b.drop_first())
    }
}

/// `x` put into the ordered list `s` before the first entry above it, unless it is there.
pub open spec fn insert_sorted(s: Seq<Seq<char>>, x: Seq<char>) -> Seq<Seq<char>>
    decreases s.len(),
{
    if s.len() == 0 {
        seq![x]
    } else if s[0] == x {
        s
    } else if str_lt(x, s[0]) {
        seq![x] + s
    } else {
        seq![s[0]] + insert_sorted(s.drop_first(), x)
    }
}

/// The distinct entries of `v` in ascending order: what sorting and removing repeats gives.
pub open spec fn sorted_unique(v: Seq<Seq<char>>) -> Seq<Seq<char>>
    decreases v.len(),
{
    if v.len() == 0 {
        Seq::empty()
    } else {
        insert_sorted(sorted_unique(v.drop_last()), v.last())
    }
}

/// The order of a tile key among the kinds; keys of no kind come last.
pub open spec fn key_rank(k: Seq<char>) -> int {
    match spec_tile_index(k) {
        Some(i) => i,
        None => usize::MAX as int,
    }
}

/// `x` put into `s` before the first entry of higher rank.
pub open spec fn insert_by_rank(s: Seq<Seq<char>>, x: Seq<char>) -> Seq<Seq<char>>
    decreases s.len(),
{
    if s.len() == 0 {
        seq![x]
    } else if key_rank(x) < key_rank(s[0]) {
        seq![x] + s
    } else {
        seq![s[0]] + insert_by_rank(s.drop_first(), x)
    }
}

/// The keys in order of rank, keys of equal rank in their first order: a stable sort by rank.
pub open spec fn sort_by_rank(v: Seq<Seq<char>>) -> Seq<Seq<char>>
    decreases v.len(),
{
    if v.len() == 0 {
        Seq::empty()
    } else {
        insert_by_rank(sort_by_rank(v.drop_last()), v.last())
    }
}

} // verus!
