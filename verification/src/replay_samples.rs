use vstd::prelude::*;

use crate::ordering::{insert_sorted_exec, sorted_unique_exec};
use crate::replay::{
    DecisionKind, SampleOutcome, SerializableBotContext, SerializableBotPlayer, SerializableBotTile,
    SerializableClaimOption, SerializableDiscardEvent, SerializableSelfKongCandidate, TrainingDecisionSampleV2,
    TrainingLabel,
};
use crate::replay_claims::{
    all_same, chow_middle_key, chow_middle_key_exec, claim_options, claim_options_of, hand_counts, kong_candidates,
    self_kong_candidates, tile_counts,
};
use crate::replay_state::{ReplayModel, ReplayState};
use crate::replay_view::{
    claim_v, claims_v, context_v, groups_v, history_v, insert_sorted, kongs_v, label_v, opt_v, sample_v, seat_groups_v,
    sorted_unique, strs_v, tile_v, tiles_v, ClaimV, ContextV, KongV, LabelV, SampleV, TileV,
};
use crate::text::{owned, push_str, str_equal};
use crate::tile::clone_strings;

verus! {

/// The keys of the groups, one after another.
pub open spec fn concat_keys(groups: Seq<Seq<Seq<char>>>) -> Seq<Seq<char>>
    decreases groups.len(),
{
    if groups.len() == 0 {
        Seq::empty()
    } else {
        concat_keys(groups.drop_last()) + groups.last()
    }
}

/// What others see of a meld: three of the four tiles of a kong, every tile of another meld.
pub open spec fn visible_meld_keys(meld: Seq<Seq<char>>) -> Seq<Seq<char>> {
    if meld.len() == 4 && all_same(meld) {
        meld.take(3)
    } else {
        meld
    }
}

pub open spec fn visible_melds(melds: Seq<Seq<Seq<char>>>) -> Seq<Seq<char>>
    decreases melds.len(),
{
    if melds.len() == 0 {
        Seq::empty()
    } else {
        visible_melds(melds.drop_last()) + visible_meld_keys(melds.last())
    }
}

pub open spec fn visible_seat_melds(all: Seq<Seq<Seq<Seq<char>>>>) -> Seq<Seq<char>>
    decreases all.len(),
{
    if all.len() == 0 {
        Seq::empty()
    } else {
        visible_seat_melds(all.drop_last()) + visible_melds(all.last())
    }
}

/// The tiles that every seat sees: all discards, seat by seat, then the seats' melds.
pub open spec fn visible_tile_keys(m: ReplayModel) -> Seq<Seq<char>> {
    concat_keys(m.discards) + visible_seat_melds(m.melds)
}

/// What a seat knows at a decision.
pub open spec fn spec_context(
    m: ReplayModel,
    round_wind: Seq<char>,
    seat: usize,
    kongs: Seq<KongV>,
    claims: Seq<ClaimV>,
) -> ContextV {
    ContextV {
        seat_index: seat,
        seat_count: 4,
        dealer_seat: 0,
        seat_wind: None,
        round_wind,
        cumulative_scores: seq![0i64, 0i64, 0i64, 0i64],
        wall_tiles_remaining: m.wall,
        visible_tile_keys: visible_tile_keys(m),
        discards: m.discards,
        melds: m.melds,
        history: m.history,
        hand: m.hands[seat as int],
        counts: hand_counts(m.hands[seat as int]),
        own_melds: m.melds[seat as int],
        flower_count: 0,
        restricted: m.restricted,
        drawn: m.drawn[seat as int],
        kongs,
        claims,
        last_discard: m.last_discard,
        risk_tiles: Seq::empty(),
    }
}

/// The discards that the hand allows: each key once, in hand order, flowers and the
/// restricted key left out.
pub open spec fn discard_actions(hand: Seq<TileV>, restricted: Option<Seq<char>>, n: int) -> Seq<Seq<char>>
    decreases n,
{
    if n <= 0 {
        Seq::empty()
    } else {
        let rest = discard_actions(hand, restricted, n - 1);
        let t = hand[n - 1];
        let action = "discard:"@ + t.1;
        if !t.2 && restricted != Some(t.1) && !rest.contains(action) {
            rest.push(action)
        } else {
            rest
        }
    }
}

pub open spec fn legal_discards(c: ContextV) -> Seq<Seq<char>> {
    discard_actions(c.hand, c.restricted, c.hand.len() as int)
}

/// `pass`, then the action of each claim option on the last discard.
pub open spec fn claim_action_ids(hand: Seq<TileV>, last: Seq<char>, claims: Seq<ClaimV>, n: int) -> Seq<Seq<char>>
    decreases n,
{
    if n <= 0 {
        seq!["pass"@]
    } else {
        let rest = claim_action_ids(hand, last, claims, n - 1);
        let c = claims[n - 1];
        if c.0 == "chow"@ {
            rest.push("claim:chow:"@ + chow_middle_key(hand, last, c.1))
        } else if c.0 == "pung"@ {
            rest.push("claim:pung:"@ + last)
        } else if c.0 == "kong"@ {
            rest.push("claim:kong:"@ + last)
        } else if c.0 == "hu"@ {
            rest.push("claim:hu"@)
        } else {
            rest
        }
    }
}

/// The legal actions of a claim window, sorted and without repeats: `pass` and the claims.
pub open spec fn legal_claims(c: ContextV) -> Seq<Seq<char>> {
    match c.last_discard {
        None => seq!["pass"@],
        Some(last) => sorted_unique(claim_action_ids(c.hand, last, c.claims, c.claims.len() as int)),
    }
}

pub open spec fn self_kong_id(kind: Seq<char>, key: Seq<char>) -> Seq<char> {
    "self_kong:"@ + kind + ":"@ + key
}

/// `pass`, then the action of each kong candidate.
pub open spec fn kong_action_ids(kongs: Seq<KongV>, n: int) -> Seq<Seq<char>>
    decreases n,
{
    if n <= 0 {
        seq!["pass"@]
    } else {
        kong_action_ids(kongs, n - 1).push(self_kong_id(kongs[n - 1].0, kongs[n - 1].2))
    }
}

pub open spec fn legal_self_kongs(c: ContextV) -> Seq<Seq<char>> {
    sorted_unique(kong_action_ids(c.kongs, c.kongs.len() as int))
}

/// The sample of a discard on the seat's own turn.
pub open spec fn active_turn_sample_v(
    m: ReplayModel,
    match_id: Seq<char>,
    round_wind: Seq<char>,
    seat: usize,
    label: LabelV,
    outcome: SampleOutcome,
) -> SampleV {
    let c = spec_context(m, round_wind, seat, kong_candidates(m.hands[seat as int], m.melds[seat as int]), Seq::empty());
    SampleV {
        schema_version: 2,
        match_id,
        seat_index: seat,
        kind: DecisionKind::ActiveTurn,
        context: c,
        legal: legal_discards(c),
        label,
        outcome,
        no_opponent_targets: true,
    }
}

/// The sample of a kong decision on the seat's own turn; a declared kong is legal even where
/// the candidates miss it.
pub open spec fn self_kong_sample_v(
    m: ReplayModel,
    match_id: Seq<char>,
    round_wind: Seq<char>,
    seat: usize,
    label: LabelV,
    outcome: SampleOutcome,
) -> SampleV {
    let c = spec_context(m, round_wind, seat, kong_candidates(m.hands[seat as int], m.melds[seat as int]), Seq::empty());
    let base = legal_self_kongs(c);
    let legal = match label {
        LabelV::SelfKong(kind, key) => if base.contains(self_kong_id(kind, key)) {
            base
        } else {
            insert_sorted(base, self_kong_id(kind, key))
        },
        _ => base,
    };
    SampleV {
        schema_version: 2,
        match_id,
        seat_index: seat,
        kind: DecisionKind::ActiveTurn,
        context: c,
        legal,
        label,
        outcome,
        no_opponent_targets: true,
    }
}

pub open spec fn has_hu_option(claims: Seq<ClaimV>) -> bool {
    exists|j: int| 0 <= j < claims.len() && (#[trigger] claims[j]).0 == "hu"@
}

/// The claim-window sample of a seat after a discard, where it has a claim to make: the
/// seat's claim options, with a win added where the seat declared one.
pub open spec fn claim_sample_v(
    m: ReplayModel,
    match_id: Seq<char>,
    round_wind: Seq<char>,
    seat: usize,
    discarder: usize,
    discard: Seq<char>,
    label: LabelV,
    outcome: SampleOutcome,
) -> Option<SampleV> {
    let base = claim_options_of(m.hands[seat as int], seat, discarder, discard);
    let claims = if label == LabelV::Hu && !has_hu_option(base) {
        base.push(("hu"@, Seq::<Seq<char>>::empty()))
    } else {
        base
    };
    if claims.len() == 0 {
        None
    } else {
        let c = spec_context(m, round_wind, seat, Seq::empty(), claims);
        Some(
            SampleV {
                schema_version: 2,
                match_id,
                seat_index: seat,
                kind: DecisionKind::ClaimWindow,
                context: c,
                legal: legal_claims(c),
                label,
                outcome,
                no_opponent_targets: true,
            },
        )
    }
}

/// The label that the first declared claim of the seat gives, or `Pass`.
pub open spec fn declared_label(declared: Seq<(usize, LabelV)>, seat: usize, from: int) -> LabelV
    decreases declared.len() - from,
{
    if from < 0 || from >= declared.len() {
        LabelV::Pass
    } else if declared[from].0 == seat {
        declared[from].1
    } else {
        declared_label(declared, seat, from + 1)
    }
}

/// The claim-window samples of the seats below `n` other than the discarder.
pub open spec fn claim_samples_v(
    m: ReplayModel,
    match_id: Seq<char>,
    round_wind: Seq<char>,
    discarder: usize,
    discard: Seq<char>,
    declared: Seq<(usize, LabelV)>,
    outcomes: Seq<SampleOutcome>,
    n: int,
) -> Seq<SampleV>
    decreases n,
{
    if n <= 0 {
        Seq::empty()
    } else {
        let rest = claim_samples_v(m, match_id, round_wind, discarder, discard, declared, outcomes, n - 1);
        let seat = (n - 1) as usize;
        if seat == discarder {
            rest
        } else {
            match claim_sample_v(
                m,
                match_id,
                round_wind,
                seat,
                discarder,
                discard,
                declared_label(declared, seat, 0),
                outcomes[n - 1],
            ) {
                Some(s) => rest.push(s),
                None => rest,
            }
        }
    }
}

/// The sample of a seat in the window to rob an added kong of `key`.
pub open spec fn rob_kong_sample_v(
    m: ReplayModel,
    match_id: Seq<char>,
    round_wind: Seq<char>,
    seat: usize,
    key: Seq<char>,
    label: LabelV,
    outcome: SampleOutcome,
) -> SampleV {
    let base = spec_context(m, round_wind, seat, Seq::empty(), Seq::empty());
    SampleV {
        schema_version: 2,
        match_id,
        seat_index: seat,
        kind: DecisionKind::RobKong,
        context: ContextV { last_discard: Some(key), risk_tiles: seq![key], ..base },
        legal: seq!["claim:hu"@, "pass"@],
        label,
        outcome,
        no_opponent_targets: true,
    }
}

/// The samples of the seats below `n`, other than the kong's, in the window to rob an added
/// kong of `key`: `Hu` for each declared robber, else `Pass`.
pub open spec fn rob_kong_samples_v(
    m: ReplayModel,
    match_id: Seq<char>,
    round_wind: Seq<char>,
    kong_seat: usize,
    key: Seq<char>,
    robbers: Seq<usize>,
    outcomes: Seq<SampleOutcome>,
    n: int,
) -> Seq<SampleV>
    decreases n,
{
    if n <= 0 {
        Seq::empty()
    } else {
        let rest = rob_kong_samples_v(m, match_id, round_wind, kong_seat, key, robbers, outcomes, n - 1);
        let seat = (n - 1) as usize;
        if seat == kong_seat {
            rest
        } else {
            rest.push(
                rob_kong_sample_v(
                    m,
                    match_id,
                    round_wind,
                    seat,
                    key,
                    if robbers.contains(seat) {
                        LabelV::Hu
                    } else {
                        LabelV::Pass
                    },
                    outcomes[n - 1],
                ),
            )
        }
    }
}

fn clone_opt(o: &Option<String>) -> (r: Option<String>)
    ensures
        opt_v(r) == opt_v(*o),
{
    match o {
        Some(s) => Some(s.clone()),
        None => None,
    }
}

fn clone_hand(v: &Vec<SerializableBotTile>) -> (r: Vec<SerializableBotTile>)
    ensures
        tiles_v(r@) == tiles_v(v@),
{
    let mut r: Vec<SerializableBotTile> = Vec::new();
    let mut i: usize = 0;
    while i < v.len()
        invariant
            i <= v@.len(),
            tiles_v(r@) == tiles_v(v@).take(i as int),
        decreases v@.len() - i,
    {
        let t = SerializableBotTile {
            tile_id: v[i].tile_id.clone(),
            tile_key: v[i].tile_key.clone(),
            is_flower: v[i].is_flower,
        };
        let ghost before = tiles_v(r@);
        let ghost tv = tile_v(t);
        r.push(t);
        assert(tiles_v(r@) =~= before.push(tv));
        assert(tv == tiles_v(v@)[i as int]);
        assert(before.push(tv) =~= tiles_v(v@).take(i + 1));
        i += 1;
    }
    assert(tiles_v(v@).take(i as int) =~= tiles_v(v@));
    r
}

fn clone_groups(v: &Vec<Vec<String>>) -> (r: Vec<Vec<String>>)
    ensures
        groups_v(r@) == groups_v(v@),
{
    let mut r: Vec<Vec<String>> = Vec::new();
    let mut i: usize = 0;
    while i < v.len()
        invariant
            i <= v@.len(),
            groups_v(r@) == groups_v(v@).take(i as int),
        decreases v@.len() - i,
    {
        let g = clone_strings(&v[i]);
        let ghost before = groups_v(r@);
        let ghost gv = strs_v(g@);
        r.push(g);
        assert(groups_v(r@) =~= before.push(gv));
        assert(gv == groups_v(v@)[i as int]);
        assert(before.push(gv) =~= groups_v(v@).take(i + 1));
        i += 1;
    }
    assert(groups_v(v@).take(i as int) =~= groups_v(v@));
    r
}

fn clone_seat_groups(v: &Vec<Vec<Vec<String>>>) -> (r: Vec<Vec<Vec<String>>>)
    ensures
        seat_groups_v(r@) == seat_groups_v(v@),
{
    let mut r: Vec<Vec<Vec<String>>> = Vec::new();
    let mut i: usize = 0;
    while i < v.len()
        invariant
            i <= v@.len(),
            seat_groups_v(r@) == seat_groups_v(v@).take(i as int),
        decreases v@.len() - i,
    {
        let g = clone_groups(&v[i]);
        let ghost before = seat_groups_v(r@);
        let ghost gv = groups_v(g@);
        r.push(g);
        assert(seat_groups_v(r@) =~= before.push(gv));
        assert(gv == seat_groups_v(v@)[i as int]);
        assert(before.push(gv) =~= seat_groups_v(v@).take(i + 1));
        i += 1;
    }
    assert(seat_groups_v(v@).take(i as int) =~= seat_groups_v(v@));
    r
}

fn clone_history(v: &Vec<SerializableDiscardEvent>) -> (r: Vec<SerializableDiscardEvent>)
    ensures
        history_v(r@) == history_v(v@),
{
    let mut r: Vec<SerializableDiscardEvent> = Vec::new();
    let mut i: usize = 0;
    while i < v.len()
        invariant
            i <= v@.len(),
            history_v(r@) == history_v(v@).take(i as int),
        decreases v@.len() - i,
    {
        let e = SerializableDiscardEvent { seat_index: v[i].seat_index, tile_key: v[i].tile_key.clone() };
        let ghost before = history_v(r@);
        let ghost ev = (e.seat_index, e.tile_key@);
        r.push(e);
        assert(history_v(r@) =~= before.push(ev));
        assert(ev == history_v(v@)[i as int]);
        assert(before.push(ev) =~= history_v(v@).take(i + 1));
        i += 1;
    }
    assert(history_v(v@).take(i as int) =~= history_v(v@));
    r
}

/// Appends the keys of `from` to `into`.
pub(crate) fn extend_keys(into: &mut Vec<String>, from: &Vec<String>, count: usize)
    requires
        count <= from@.len(),
    ensures
        strs_v(final(into)@) == strs_v(old(into)@) + strs_v(from@).take(count as int),
{
    let mut i: usize = 0;
    while i < count
        invariant
            count <= from@.len(),
            i <= count,
            strs_v(into@) == strs_v(old(into)@) + strs_v(from@).take(i as int),
        decreases count - i,
    {
        let ghost before = strs_v(into@);
        let x = from[i].clone();
        let ghost xv = x@;
        into.push(x);
        assert(strs_v(into@) =~= before.push(xv));
        assert(xv == strs_v(from@)[i as int]);
        assert(before.push(xv) =~= strs_v(old(into)@) + strs_v(from@).take(i + 1));
        i += 1;
    }
}

pub(crate) fn meld_is_kong(meld: &Vec<String>) -> (r: bool)
    ensures
        r == (meld@.len() == 4 && all_same(strs_v(meld@))),
{
    if meld.len() != 4 {
        return false;
    }
    let ghost m = strs_v(meld@);
    let mut j: usize = 0;
    while j < 4
        invariant
            m == strs_v(meld@),
            meld@.len() == 4,
            j <= 4,
            forall|t: int| 0 <= t < j ==> #[trigger] m[t] == m[0],
        decreases 4 - j,
    {
        if !str_equal(meld[j].as_str(), meld[0].as_str()) {
            assert(m[j as int] != m[0]);
            return false;
        }
        j += 1;
    }
    true
}

impl ReplayState {
    /// The tiles that every seat sees.
    pub fn visible_tile_keys(&self) -> (r: Vec<String>)
        requires
            self.inv(),
        ensures
            strs_v(r@) == visible_tile_keys(self.model()),
    {
        let mut keys: Vec<String> = Vec::new();
        let ghost ds = groups_v(self.discards@);
        let mut s: usize = 0;
        while s < self.discards.len()
            invariant
                ds == groups_v(self.discards@),
                s <= self.discards@.len(),
                strs_v(keys@) == concat_keys(ds.take(s as int)),
            decreases self.discards@.len() - s,
        {
            proof {
                assert(ds.take(s + 1).drop_last() =~= ds.take(s as int));
                assert(strs_v(self.discards@[s as int]@).take(self.discards@[s as int]@.len() as int) =~= strs_v(
                    self.discards@[s as int]@,
                ));
            }
            extend_keys(&mut keys, &self.discards[s], self.discards[s].len());
            s += 1;
        }
        assert(ds.take(s as int) =~= ds);
        let ghost discard_keys = strs_v(keys@);
        let ghost all = seat_groups_v(self.melds@);
        let mut t: usize = 0;
        while t < self.melds.len()
            invariant
                all == seat_groups_v(self.melds@),
                t <= self.melds@.len(),
                strs_v(keys@) == discard_keys + visible_seat_melds(all.take(t as int)),
            decreases self.melds@.len() - t,
        {
            let melds = &self.melds[t];
            let ghost ms = groups_v(melds@);
            let ghost start = strs_v(keys@);
            let mut k: usize = 0;
            while k < melds.len()
                invariant
                    ms == groups_v(melds@),
                    k <= melds@.len(),
                    strs_v(keys@) == start + visible_melds(ms.take(k as int)),
                decreases melds@.len() - k,
            {
                proof {
                    assert(ms.take(k + 1).drop_last() =~= ms.take(k as int));
                    assert(ms[k as int] == strs_v(melds@[k as int]@));
                }
                let meld = &melds[k];
                if meld_is_kong(meld) {
                    extend_keys(&mut keys, meld, 3);
                } else {
                    extend_keys(&mut keys, meld, meld.len());
                    assert(strs_v(meld@).take(meld@.len() as int) =~= strs_v(meld@));
                }
                proof {
                    assert(start + visible_melds(ms.take(k + 1)) =~= start + visible_melds(ms.take(k as int))
                        + visible_meld_keys(ms[k as int]));
                }
                k += 1;
            }
            proof {
                assert(ms.take(k as int) =~= ms);
                assert(all.take(t + 1).drop_last() =~= all.take(t as int));
                assert(all[t as int] == ms);
                assert(discard_keys + visible_seat_melds(all.take(t + 1)) =~= discard_keys + visible_seat_melds(
                    all.take(t as int),
                ) + visible_melds(ms));
            }
            t += 1;
        }
        assert(all.take(t as int) =~= all);
        keys
    }

    /// What the seat knows at a decision, with the given kong candidates and claim options.
    pub fn context(
        &self,
        round_wind: &String,
        seat_index: usize,
        self_kong_candidates: Vec<SerializableSelfKongCandidate>,
        claim_options: Vec<SerializableClaimOption>,
    ) -> (c: SerializableBotContext)
        requires
            self.inv(),
            seat_index < 4,
        ensures
            context_v(c) == spec_context(
                self.model(),
                round_wind@,
                seat_index,
                kongs_v(self_kong_candidates@),
                claims_v(claim_options@),
            ),
    {
        let hand = clone_hand(&self.hands[seat_index]);
        let counts = tile_counts(&self.hands[seat_index]);
        let mut scores: Vec<i64> = Vec::new();
        scores.push(0);
        scores.push(0);
        scores.push(0);
        scores.push(0);
        let c = SerializableBotContext {
            seat_index,
            seat_count: 4,
            dealer_seat: 0,
            seat_wind: None,
            round_wind: round_wind.clone(),
            cumulative_scores: scores,
            wall_tiles_remaining: self.wall_tiles_remaining,
            visible_tile_keys: self.visible_tile_keys(),
            opponent_discards_by_seat: clone_groups(&self.discards),
            opponent_melds_by_seat: clone_seat_groups(&self.melds),
            discard_history: clone_history(&self.discard_history),
            player: SerializableBotPlayer {
                concealed_tiles: hand,
                concealed_tile_counts: counts,
                meld_tile_key_groups: clone_groups(&self.melds[seat_index]),
                flower_count: 0,
            },
            restricted_discard_tile_key: clone_opt(&self.restricted_discard_tile_key),
            drawn_tile_id: clone_opt(&self.current_drawn_tile_ids[seat_index]),
            self_kong_candidates,
            claim_options,
            last_discard_tile_key: clone_opt(&self.last_discard_tile_key),
            add_kong_risk_tiles: Vec::new(),
        };
        proof {
            let want = spec_context(
                self.model(),
                round_wind@,
                seat_index,
                kongs_v(self_kong_candidates@),
                claims_v(claim_options@),
            );
            assert(context_v(c).cumulative_scores =~= want.cumulative_scores);
            assert(context_v(c).risk_tiles =~= want.risk_tiles);
            assert(context_v(c) =~= want);
        }
        c
    }
}

/// Whether the list holds the string.
fn contains_str(v: &Vec<String>, s: &String) -> (r: bool)
    ensures
        r == strs_v(v@).contains(s@),
{
    let ghost sv = strs_v(v@);
    let mut i: usize = 0;
    while i < v.len()
        invariant
            sv == strs_v(v@),
            i <= v@.len(),
            forall|j: int| 0 <= j < i ==> sv[j] != s@,
        decreases v@.len() - i,
    {
        if str_equal(v[i].as_str(), s.as_str()) {
            assert(sv[i as int] == s@);
            return true;
        }
        i += 1;
    }
    false
}

fn prefixed(prefix: &str, key: &str) -> (r: String)
    ensures
        r@ == prefix@ + key@,
{
    let mut r = owned(prefix);
    push_str(&mut r, key);
    r
}

fn opt_equal(a: &Option<String>, key: &String) -> (r: bool)
    ensures
        r == (opt_v(*a) == Some(key@)),
{
    match a {
        Some(s) => str_equal(s.as_str(), key.as_str()),
        None => false,
    }
}

/// The discards that the hand allows.
pub fn legal_discard_actions(context: &SerializableBotContext) -> (r: Vec<String>)
    ensures
        strs_v(r@) == legal_discards(context_v(*context)),
{
    let tiles = &context.player.concealed_tiles;
    let ghost h = tiles_v(tiles@);
    let ghost restricted = opt_v(context.restricted_discard_tile_key);
    let mut actions: Vec<String> = Vec::new();
    let mut i: usize = 0;
    while i < tiles.len()
        invariant
            h == tiles_v(tiles@),
            restricted == opt_v(context.restricted_discard_tile_key),
            i <= tiles@.len(),
            strs_v(actions@) == discard_actions(h, restricted, i as int),
        decreases tiles@.len() - i,
    {
        let tile = &tiles[i];
        assert(h[i as int] == tile_v(*tile));
        if !tile.is_flower && !opt_equal(&context.restricted_discard_tile_key, &tile.tile_key) {
            let action = prefixed("discard:", tile.tile_key.as_str());
            if !contains_str(&actions, &action) {
                let ghost before = strs_v(actions@);
                actions.push(action);
                assert(strs_v(actions@) =~= before.push("discard:"@ + h[i as int].1));
            }
        }
        i += 1;
    }
    actions
}

/// The legal actions of a claim window, sorted and without repeats.
pub fn claim_legal_actions(context: &SerializableBotContext) -> (r: Vec<String>)
    ensures
        strs_v(r@) == legal_claims(context_v(*context)),
{
    let mut actions: Vec<String> = Vec::new();
    actions.push(owned("pass"));
    let last = match &context.last_discard_tile_key {
        Some(k) => k,
        None => {
            assert(strs_v(actions@) =~= seq!["pass"@]);
            return actions;
        },
    };
    let c = Ghost(context_v(*context));
    let options = &context.claim_options;
    assert(strs_v(actions@) =~= claim_action_ids(c@.hand, last@, c@.claims, 0));
    let mut k: usize = 0;
    while k < options.len()
        invariant
            c@ == context_v(*context),
            c@.claims == claims_v(options@),
            k <= options@.len(),
            strs_v(actions@) == claim_action_ids(c@.hand, last@, c@.claims, k as int),
        decreases options@.len() - k,
    {
        let option = &options[k];
        assert(c@.claims[k as int] == (option.action_type@, strs_v(option.tile_ids@)));
        let ghost before = strs_v(actions@);
        let t = option.action_type.as_str();
        if str_equal(t, "chow") {
            let middle = chow_middle_key_exec(&context.player.concealed_tiles, last.as_str(), &option.tile_ids);
            actions.push(prefixed("claim:chow:", middle.as_str()));
        } else if str_equal(t, "pung") {
            actions.push(prefixed("claim:pung:", last.as_str()));
        } else if str_equal(t, "kong") {
            actions.push(prefixed("claim:kong:", last.as_str()));
        } else if str_equal(t, "hu") {
            actions.push(owned("claim:hu"));
        }
        proof {
            assert(strs_v(actions@) =~= claim_action_ids(c@.hand, last@, c@.claims, k + 1));
        }
        k += 1;
    }
    sorted_unique_exec(&actions)
}

/// The legal actions of a kong decision, sorted and without repeats.
pub fn self_kong_legal_actions(context: &SerializableBotContext) -> (r: Vec<String>)
    ensures
        strs_v(r@) == legal_self_kongs(context_v(*context)),
{
    let c = Ghost(context_v(*context));
    let kongs = &context.self_kong_candidates;
    let mut actions: Vec<String> = Vec::new();
    actions.push(owned("pass"));
    assert(strs_v(actions@) =~= kong_action_ids(c@.kongs, 0));
    let mut k: usize = 0;
    while k < kongs.len()
        invariant
            c@ == context_v(*context),
            c@.kongs == kongs_v(kongs@),
            k <= kongs@.len(),
            strs_v(actions@) == kong_action_ids(c@.kongs, k as int),
        decreases kongs@.len() - k,
    {
        let candidate = &kongs[k];
        let mut id = owned("self_kong:");
        push_str(&mut id, candidate.kind.as_str());
        push_str(&mut id, ":");
        push_str(&mut id, candidate.tile_key.as_str());
        let ghost before = strs_v(actions@);
        actions.push(id);
        assert(strs_v(actions@) =~= kong_action_ids(c@.kongs, k + 1));
        k += 1;
    }
    sorted_unique_exec(&actions)
}

/// A copy of a label.
pub fn clone_label(l: &TrainingLabel) -> (r: TrainingLabel)
    ensures
        label_v(r) == label_v(*l),
{
    match l {
        TrainingLabel::Discard { tile_key } => TrainingLabel::Discard { tile_key: tile_key.clone() },
        TrainingLabel::ClaimChow { middle_tile_key } => TrainingLabel::ClaimChow {
            middle_tile_key: middle_tile_key.clone(),
        },
        TrainingLabel::ClaimPung { tile_key } => TrainingLabel::ClaimPung { tile_key: tile_key.clone() },
        TrainingLabel::ClaimKong { tile_key } => TrainingLabel::ClaimKong { tile_key: tile_key.clone() },
        TrainingLabel::SelfKong { kind, tile_key } => TrainingLabel::SelfKong {
            kind: kind.clone(),
            tile_key: tile_key.clone(),
        },
        TrainingLabel::Hu => TrainingLabel::Hu,
        TrainingLabel::Pass => TrainingLabel::Pass,
    }
}

fn empty_claims() -> (r: Vec<SerializableClaimOption>)
    ensures
        claims_v(r@) == Seq::<ClaimV>::empty(),
{
    let r: Vec<SerializableClaimOption> = Vec::new();
    assert(claims_v(r@) =~= Seq::<ClaimV>::empty());
    r
}

fn empty_kongs() -> (r: Vec<SerializableSelfKongCandidate>)
    ensures
        kongs_v(r@) == Seq::<KongV>::empty(),
{
    let r: Vec<SerializableSelfKongCandidate> = Vec::new();
    assert(kongs_v(r@) =~= Seq::<KongV>::empty());
    r
}

fn make_sample(
    match_id: &String,
    decision_index: u64,
    seat_index: usize,
    decision_kind: DecisionKind,
    context: SerializableBotContext,
    legal_actions: Vec<String>,
    label: TrainingLabel,
    outcome: SampleOutcome,
) -> (r: TrainingDecisionSampleV2)
    ensures
        r.decision_index == decision_index,
        sample_v(r) == (SampleV {
            schema_version: 2,
            match_id: match_id@,
            seat_index,
            kind: decision_kind,
            context: context_v(context),
            legal: strs_v(legal_actions@),
            label: label_v(label),
            outcome,
            no_opponent_targets: true,
        }),
{
    TrainingDecisionSampleV2 {
        schema_version: 2,
        match_id: match_id.clone(),
        decision_index,
        seat_index,
        decision_kind,
        context,
        legal_actions,
        label,
        outcome,
        opponent_tenpai_target: Vec::new(),
        opponent_risk_target: Vec::new(),
        opponent_risk_mask: Vec::new(),
    }
}

impl ReplayState {
    /// The sample of the seat's discard on its own turn.
    pub fn active_turn_sample(
        &self,
        round_wind: &String,
        decision_index: u64,
        seat_index: usize,
        label: TrainingLabel,
        outcome: SampleOutcome,
    ) -> (r: TrainingDecisionSampleV2)
        requires
            self.inv(),
            seat_index < 4,
        ensures
            r.decision_index == decision_index,
            sample_v(r) == active_turn_sample_v(self.model(), self.match_id@, round_wind@, seat_index, label_v(label), outcome),
    {
        let kongs = self_kong_candidates(&self.hands[seat_index], &self.melds[seat_index]);
        let context = self.context(round_wind, seat_index, kongs, empty_claims());
        let legal_actions = legal_discard_actions(&context);
        make_sample(&self.match_id, decision_index, seat_index, DecisionKind::ActiveTurn, context, legal_actions, label, outcome)
    }

    /// The sample of the seat's kong decision on its own turn.
    pub fn self_kong_sample(
        &self,
        round_wind: &String,
        decision_index: u64,
        seat_index: usize,
        label: TrainingLabel,
        outcome: SampleOutcome,
    ) -> (r: TrainingDecisionSampleV2)
        requires
            self.inv(),
            seat_index < 4,
        ensures
            r.decision_index == decision_index,
            sample_v(r) == self_kong_sample_v(self.model(), self.match_id@, round_wind@, seat_index, label_v(label), outcome),
    {
        let kongs = self_kong_candidates(&self.hands[seat_index], &self.melds[seat_index]);
        let context = self.context(round_wind, seat_index, kongs, empty_claims());
        let mut legal_actions = self_kong_legal_actions(&context);
        match &label {
            TrainingLabel::SelfKong { kind, tile_key } => {
                let mut id = owned("self_kong:");
                push_str(&mut id, kind.as_str());
                push_str(&mut id, ":");
                push_str(&mut id, tile_key.as_str());
                if !contains_str(&legal_actions, &id) {
                    insert_sorted_exec(&mut legal_actions, id);
                }
            },
            _ => {},
        }
        make_sample(&self.match_id, decision_index, seat_index, DecisionKind::ActiveTurn, context, legal_actions, label, outcome)
    }

    /// The claim-window sample of the seat after a discard, where it has a claim to make.
    pub fn claim_sample(
        &self,
        round_wind: &String,
        decision_index: u64,
        seat_index: usize,
        discarder_seat: usize,
        discarded_tile_key: &String,
        label: TrainingLabel,
        outcome: SampleOutcome,
    ) -> (r: Option<TrainingDecisionSampleV2>)
        requires
            self.inv(),
            seat_index < 4,
            discarder_seat < 4,
        ensures
            match claim_sample_v(
                self.model(),
                self.match_id@,
                round_wind@,
                seat_index,
                discarder_seat,
                discarded_tile_key@,
                label_v(label),
                outcome,
            ) {
                Some(s) => r matches Some(x) && sample_v(x) == s && x.decision_index == decision_index,
                None => r is None,
            },
    {
        let mut options = claim_options(&self.hands[seat_index], seat_index, discarder_seat, discarded_tile_key.as_str());
        let ghost base = claims_v(options@);
        let is_hu = match &label {
            TrainingLabel::Hu => true,
            _ => false,
        };
        if is_hu {
            let mut has_hu = false;
            let mut k: usize = 0;
            while k < options.len()
                invariant
                    base == claims_v(options@),
                    k <= options@.len(),
                    has_hu == exists|j: int| 0 <= j < k && (#[trigger] base[j]).0 == "hu"@,
                decreases options@.len() - k,
            {
                assert(base[k as int].0 == options@[k as int].action_type@);
                if str_equal(options[k].action_type.as_str(), "hu") {
                    has_hu = true;
                }
                k += 1;
            }
            if !has_hu {
                let hu = SerializableClaimOption { action_type: owned("hu"), tile_ids: Vec::new() };
                assert(strs_v(hu.tile_ids@) =~= Seq::<Seq<char>>::empty());
                assert(claim_v(hu) == ("hu"@, Seq::<Seq<char>>::empty()));
                options.push(hu);
                assert(claims_v(options@) =~= base.push(("hu"@, Seq::<Seq<char>>::empty())));
            }
        }
        if options.len() == 0 {
            return None;
        }
        let context = self.context(round_wind, seat_index, empty_kongs(), options);
        let legal_actions = claim_legal_actions(&context);
        Some(make_sample(&self.match_id, decision_index, seat_index, DecisionKind::ClaimWindow, context, legal_actions, label, outcome))
    }

    /// The sample of the seat in the window to rob an added kong of `tile_key`.
    pub fn rob_kong_sample(
        &self,
        round_wind: &String,
        decision_index: u64,
        seat_index: usize,
        tile_key: &String,
        label: TrainingLabel,
        outcome: SampleOutcome,
    ) -> (r: TrainingDecisionSampleV2)
        requires
            self.inv(),
            seat_index < 4,
        ensures
            r.decision_index == decision_index,
            sample_v(r) == rob_kong_sample_v(
                self.model(),
                self.match_id@,
                round_wind@,
                seat_index,
                tile_key@,
                label_v(label),
                outcome,
            ),
    {
        let mut context = self.context(round_wind, seat_index, empty_kongs(), empty_claims());
        context.last_discard_tile_key = Some(tile_key.clone());
        context.add_kong_risk_tiles.push(tile_key.clone());
        let mut legal_actions: Vec<String> = Vec::new();
        legal_actions.push(owned("claim:hu"));
        legal_actions.push(owned("pass"));
        proof {
            assert(strs_v(legal_actions@) =~= seq!["claim:hu"@, "pass"@]);
            assert(strs_v(context.add_kong_risk_tiles@) =~= seq![tile_key@]);
        }
        let r = make_sample(&self.match_id, decision_index, seat_index, DecisionKind::RobKong, context, legal_actions, label, outcome);
        proof {
            let want = rob_kong_sample_v(self.model(), self.match_id@, round_wind@, seat_index, tile_key@, label_v(label), outcome);
            assert(sample_v(r).context =~= want.context);
        }
        r
    }
}

} // verus!
