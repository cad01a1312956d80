use std::collections::BTreeMap;

use rand::seq::SliceRandom;
use rand::SeedableRng;
use vstd::prelude::*;

use crate::deal::{
    dealt, dealt_hand, deal_round, expose_flowers, first_flower, first_flower_from, flower_count, full_tile_set,
    is_full_set_tile, is_full_tile_set, resolve_flowers,
    lemma_flower_count_permutation, lemma_full_set_flowers,
};
use crate::state::{
    contains_seat, ClaimResponse, ClaimWindowAction, LastActionContext, PendingAction,
    PendingTimeout, RoomState, RoundSettlement, RoundState,
};
use crate::text::{owned, str_equal};
use crate::tile::{clone_opt_string, clone_seats, clone_strings, clone_tile, Tile};
use crate::validation::{find_tile, find_tile_from, names_contain, position_of_tile};

verus! {

/// Seats at a table.
pub const MAX_SEATS: usize = 4;

/// Seconds that a pending decision may take.
pub const PENDING_TIMEOUT_SECONDS: i64 = 15;

/// A flower exposed on the seat's turn, with its replacement drawn from the tail.
#[derive(Debug, Clone)]
pub struct PlannedFlowerAction {
    pub flower_tile: Tile,
    pub replacement_tile: Tile,
    pub last_action_context: LastActionContext,
}

/// The claim window after one seat's answer, and the offered seats that still owe one.
#[derive(Debug, Clone)]
pub struct PlannedClaimWindowResponse {
    pub pending_action: PendingAction,
    pub unresolved_seats: Vec<usize>,
}

/// A discard and what follows it.
#[derive(Debug, Clone)]
pub struct PlannedDiscardAction {
    pub discarded_tile: Tile,
    pub continuation: PlannedDiscardContinuation,
}

/// What follows a discard: a claim window, the next seat's draw, or an exhausted wall.
#[derive(Debug, Clone)]
pub struct PlannedDiscardContinuation {
    pub current_actor: usize,
    pub pending_action: Option<PendingAction>,
    pub drawn_tile: Option<Tile>,
    pub last_action_context: LastActionContext,
    pub needs_exhaustive_draw: bool,
}

/// What follows a claim window that nobody won.
#[derive(Debug, Clone)]
pub struct PlannedClaimWindowContinuation {
    pub outcome: PlannedClaimWindowOutcome,
}

/// Cumulative scores after a settlement, for the round that it settles.
#[derive(Debug, Clone)]
pub struct PlannedSettlementToMatch {
    pub cumulative_scores: BTreeMap<usize, i64>,
    pub round_id: String,
}

/// The wall is exhausted, or the next seat draws.
#[derive(Debug, Clone)]
pub enum PlannedClaimWindowOutcome {
    ExhaustiveDraw,
    AdvanceTurn { current_actor: usize, drawn_tile: Tile, last_action_context: LastActionContext },
}

impl PlannedClaimWindowContinuation {
    pub fn needs_exhaustive_draw(&self) -> (r: bool)
        ensures
            r == (self.outcome is ExhaustiveDraw),
    {
        match self.outcome {
            PlannedClaimWindowOutcome::ExhaustiveDraw => true,
            _ => false,
        }
    }
}

/// What a claim response says: seat, claim type, tile ids.
pub type ClaimKey = (usize, Seq<char>, Seq<String>);

pub open spec fn claim_key(c: ClaimResponse) -> ClaimKey {
    (c.seat, c.action_type@, c.tiles@)
}

pub open spec fn claim_keys(s: Seq<ClaimResponse>) -> Seq<ClaimKey> {
    s.map_values(|c: ClaimResponse| claim_key(c))
}

/// A field-for-field copy of a claim response.
pub fn clone_claim_response(c: &ClaimResponse) -> (r: ClaimResponse)
    ensures
        claim_key(r) == claim_key(*c),
{
    ClaimResponse { seat: c.seat, action_type: c.action_type.clone(), tiles: clone_strings(&c.tiles) }
}

/// An element-for-element copy of a list of claim responses.
pub fn clone_claim_responses(v: &Vec<ClaimResponse>) -> (r: Vec<ClaimResponse>)
    ensures
        claim_keys(r@) == claim_keys(v@),
{
    let mut r: Vec<ClaimResponse> = Vec::new();
    let mut i: usize = 0;
    while i < v.len()
        invariant
            i <= v@.len(),
            claim_keys(r@) == claim_keys(v@.take(i as int)),
        decreases v@.len() - i,
    {
        let c = clone_claim_response(&v[i]);
        let ghost before = r@;
        r.push(c);
        proof {
            assert(claim_keys(r@) =~= claim_keys(before).push(claim_key(c)));
            assert(claim_keys(v@.take(i + 1)) =~= claim_keys(v@.take(i as int)).push(claim_key(v@[i as int])));
        }
        i += 1;
    }
    assert(v@.take(v@.len() as int) =~= v@);
    r
}

/// An element-for-element copy of a claim window.
pub fn clone_claim_window(v: &Vec<Vec<String>>) -> (r: Vec<Vec<String>>)
    ensures
        r@.len() == v@.len(),
        forall|i: int| 0 <= i < v@.len() ==> #[trigger] r@[i]@ == v@[i]@,
{
    let mut r: Vec<Vec<String>> = Vec::new();
    let mut i: usize = 0;
    while i < v.len()
        invariant
            i <= v@.len(),
            r@.len() == i,
            forall|j: int| 0 <= j < i ==> #[trigger] r@[j]@ == v@[j]@,
        decreases v@.len() - i,
    {
        r.push(clone_strings(&v[i]));
        i += 1;
    }
    r
}

/// Priority of a claim type: hu 3, kong and pung 2, chow 1; anything else 0.
pub open spec fn claim_priority(action_type: Seq<char>) -> int {
    if action_type == "hu"@ {
        3
    } else if action_type == "kong"@ || action_type == "pung"@ {
        2
    } else if action_type == "chow"@ {
        1
    } else {
        0
    }
}

/// Turn distance from the discarder to `seat` (1..4; the discarder itself counts as 4).
pub open spec fn claim_distance(seat: int, discarder_seat: int) -> int {
    let d = (seat + 4 - discarder_seat) % 4;
    if d == 0 {
        4
    } else {
        d
    }
}

/// Whether a claim request can compete: a chow, pung, kong or hu, and a chow only from
/// the seat after the discarder.
pub open spec fn claim_is_candidate(request: ClaimKey, discarder_seat: int) -> bool {
    &&& claim_priority(request.1) > 0
    &&& (request.1 == "chow"@ ==> request.0 == (discarder_seat + 1) % 4)
}

/// Ranking of a candidate claim: higher priority first, then nearer in turn order.
pub open spec fn claim_rank(request: ClaimKey, discarder_seat: int) -> int {
    (4 - claim_priority(request.1)) * 8 + claim_distance(request.0 as int, discarder_seat)
}

/// Index of the winning claim among the first `n` requests: the first candidate of best rank.
pub open spec fn best_claim_index(requests: Seq<ClaimKey>, discarder_seat: int, n: int) -> Option<int>
    decreases n,
{
    if n <= 0 {
        None
    } else {
        let previous = best_claim_index(requests, discarder_seat, n - 1);
        let request = requests[n - 1];
        if claim_is_candidate(request, discarder_seat) && (previous is None || claim_rank(request, discarder_seat)
            < claim_rank(requests[previous->0], discarder_seat)) {
            Some(n - 1)
        } else {
            previous
        }
    }
}

pub proof fn lemma_best_claim_index_range(requests: Seq<ClaimKey>, discarder_seat: int, n: int)
    ensures
        best_claim_index(requests, discarder_seat, n) matches Some(i) ==> 0 <= i < n,
    decreases n,
{
    if n > 0 {
        lemma_best_claim_index_range(requests, discarder_seat, n - 1);
    }
}

pub proof fn lemma_best_claim_index_prefix(requests: Seq<ClaimKey>, more: Seq<ClaimKey>, discarder_seat: int, n: int)
    requires
        0 <= n <= requests.len(),
    ensures
        best_claim_index(requests + more, discarder_seat, n) == best_claim_index(requests, discarder_seat, n),
    decreases n,
{
    if n > 0 {
        lemma_best_claim_index_prefix(requests, more, discarder_seat, n - 1);
        lemma_best_claim_index_range(requests, discarder_seat, n - 1);
    }
}

/// The winning claim among the requests.
pub open spec fn spec_resolve_claims(requests: Seq<ClaimKey>, discarder_seat: int) -> Option<ClaimKey> {
    match best_claim_index(requests, discarder_seat, requests.len() as int) {
        Some(i) => Some(requests[i]),
        None => None,
    }
}

/// Seat arithmetic stays in range for every request.
pub open spec fn seats_in_range(requests: Seq<ClaimKey>, discarder_seat: usize) -> bool {
    &&& discarder_seat < usize::MAX
    &&& forall|i: int| 0 <= i < requests.len() ==> #[trigger] requests[i].0 + 4 <= usize::MAX
        && discarder_seat <= requests[i].0 + 4
}

fn claim_priority_of(action_type: &String) -> (r: i32)
    ensures
        r == claim_priority(action_type@),
{
    proof {
        reveal_strlit("hu");
        reveal_strlit("kong");
        reveal_strlit("pung");
        reveal_strlit("chow");
        assert("hu"@.len() == 2);
        assert("kong"@.len() == 4);
        assert("pung"@.len() == 4);
        assert("chow"@.len() == 4);
    }
    if str_equal(action_type.as_str(), "hu") {
        3
    } else if str_equal(action_type.as_str(), "kong") || str_equal(action_type.as_str(), "pung") {
        2
    } else if str_equal(action_type.as_str(), "chow") {
        1
    } else {
        0
    }
}

fn claim_rank_of(request: &ClaimResponse, discarder_seat: usize) -> (r: i32)
    requires
        request.seat + 4 <= usize::MAX,
        discarder_seat <= request.seat + 4,
    ensures
        r == claim_rank(claim_key(*request), discarder_seat as int),
{
    let priority = claim_priority_of(&request.action_type);
    let mut distance = (request.seat + MAX_SEATS - discarder_seat) % MAX_SEATS;
    if distance == 0 {
        distance = MAX_SEATS;
    }
    (4 - priority) * 8 + distance as i32
}

fn claim_is_candidate_exec(request: &ClaimResponse, discarder_seat: usize) -> (r: bool)
    requires
        discarder_seat < usize::MAX,
    ensures
        r == claim_is_candidate(claim_key(*request), discarder_seat as int),
{
    let priority = claim_priority_of(&request.action_type);
    if priority == 0 {
        return false;
    }
    if str_equal(request.action_type.as_str(), "chow") && request.seat != (discarder_seat + 1) % MAX_SEATS {
        return false;
    }
    true
}

/// The claim that wins a claim window: among the chow, pung, kong and hu requests (a chow
/// only from the next seat), the highest priority, then the nearest seat after the
/// discarder, then the earliest request.
pub fn resolve_claims(claim_requests: &Vec<ClaimResponse>, discarder_seat: usize) -> (r: Option<ClaimResponse>)
    requires
        seats_in_range(claim_keys(claim_requests@), discarder_seat),
    ensures
        match spec_resolve_claims(claim_keys(claim_requests@), discarder_seat as int) {
            Some(k) => r matches Some(c) && claim_key(c) == k,
            None => r is None,
        },
{
    let ghost keys = claim_keys(claim_requests@);
    let mut best: Option<usize> = None;
    let mut best_rank: i32 = 0;
    let mut i: usize = 0;
    while i < claim_requests.len()
        invariant
            i <= claim_requests@.len(),
            keys == claim_keys(claim_requests@),
            seats_in_range(keys, discarder_seat),
            best == (match best_claim_index(keys, discarder_seat as int, i as int) {
                Some(k) => Some(k as usize),
                None => None::<usize>,
            }),
            best matches Some(k) ==> k < i && best_rank == claim_rank(keys[k as int], discarder_seat as int),
        decreases claim_requests@.len() - i,
    {
        proof {
            lemma_best_claim_index_range(keys, discarder_seat as int, i as int);
        }
        let request = &claim_requests[i];
        assert(keys[i as int] == claim_key(*request));
        assert(keys[i as int].0 + 4 <= usize::MAX && discarder_seat <= keys[i as int].0 + 4);
        if claim_is_candidate_exec(request, discarder_seat) {
            let rank = claim_rank_of(request, discarder_seat);
            match best {
                None => {
                    best = Some(i);
                    best_rank = rank;
                },
                Some(_) => {
                    if rank < best_rank {
                        best = Some(i);
                        best_rank = rank;
                    }
                },
            }
        }
        i += 1;
    }
    proof {
        lemma_best_claim_index_range(keys, discarder_seat as int, i as int);
    }
    match best {
        Some(k) => Some(clone_claim_response(&claim_requests[k])),
        None => None,
    }
}

/// The hu requests among the first `n` at turn distance `d` from the discarder, in request order.
pub open spec fn hu_claims_at_distance(requests: Seq<ClaimKey>, discarder_seat: int, d: int, n: int) -> Seq<ClaimKey>
    decreases n,
{
    if n <= 0 {
        Seq::empty()
    } else {
        let previous = hu_claims_at_distance(requests, discarder_seat, d, n - 1);
        let request = requests[n - 1];
        if request.1 == "hu"@ && claim_distance(request.0 as int, discarder_seat) == d {
            previous.push(request)
        } else {
            previous
        }
    }
}

/// The hu requests ordered by turn distance from the discarder (request order among equals).
pub open spec fn spec_resolve_hu_claims(requests: Seq<ClaimKey>, discarder_seat: int) -> Seq<ClaimKey> {
    let n = requests.len() as int;
    hu_claims_at_distance(requests, discarder_seat, 1, n) + hu_claims_at_distance(requests, discarder_seat, 2, n)
        + hu_claims_at_distance(requests, discarder_seat, 3, n) + hu_claims_at_distance(requests, discarder_seat, 4, n)
}

/// The requests at distance `d` up to `k`, appended after `base`.
pub open spec fn hu_prefix_through(requests: Seq<ClaimKey>, discarder_seat: int, d: int) -> Seq<ClaimKey>
    decreases d,
{
    if d <= 1 {
        Seq::empty()
    } else {
        hu_prefix_through(requests, discarder_seat, d - 1) + hu_claims_at_distance(
            requests,
            discarder_seat,
            d - 1,
            requests.len() as int,
        )
    }
}

pub fn resolve_hu_claims(claim_requests: &Vec<ClaimResponse>, discarder_seat: usize) -> (r: Vec<ClaimResponse>)
    requires
        seats_in_range(claim_keys(claim_requests@), discarder_seat),
    ensures
        claim_keys(r@) == spec_resolve_hu_claims(claim_keys(claim_requests@), discarder_seat as int),
{
    let ghost keys = claim_keys(claim_requests@);
    let mut result: Vec<ClaimResponse> = Vec::new();
    let mut d: usize = 1;
    while d <= 4
        invariant
            1 <= d <= 5,
            keys == claim_keys(claim_requests@),
            seats_in_range(keys, discarder_seat),
            claim_keys(result@) == hu_prefix_through(keys, discarder_seat as int, d as int),
        decreases 5 - d,
    {
        let ghost before = claim_keys(result@);
        let mut i: usize = 0;
        while i < claim_requests.len()
            invariant
                i <= claim_requests@.len(),
                1 <= d <= 4,
                keys == claim_keys(claim_requests@),
                seats_in_range(keys, discarder_seat),
                claim_keys(result@) == before + hu_claims_at_distance(keys, discarder_seat as int, d as int, i as int),
            decreases claim_requests@.len() - i,
        {
            let request = &claim_requests[i];
            assert(keys[i as int] == claim_key(*request));
            assert(keys[i as int].0 + 4 <= usize::MAX && discarder_seat <= keys[i as int].0 + 4);
            proof {
                reveal_strlit("hu");
            }
            let ghost prev_result = result@;
            if str_equal(request.action_type.as_str(), "hu") {
                let mut distance = (request.seat + MAX_SEATS - discarder_seat) % MAX_SEATS;
                if distance == 0 {
                    distance = MAX_SEATS;
                }
                if distance == d {
                    let c = clone_claim_response(request);
                    result.push(c);
                    proof {
                        assert(claim_keys(result@) =~= claim_keys(prev_result).push(claim_key(c)));
                    }
                }
            }
            proof {
                let t_next = before + hu_claims_at_distance(keys, discarder_seat as int, d as int, i + 1);
                let t_prev = before + hu_claims_at_distance(keys, discarder_seat as int, d as int, i as int);
                if keys[i as int].1 == "hu"@ && claim_distance(keys[i as int].0 as int, discarder_seat as int) == d {
                    assert(t_next =~= t_prev.push(keys[i as int]));
                } else {
                    assert(t_next =~= t_prev);
                }
            }
            i += 1;
        }
        d += 1;
    }
    proof {
        reveal_with_fuel(hu_prefix_through, 5);
        assert(hu_prefix_through(keys, discarder_seat as int, 5) =~= spec_resolve_hu_claims(keys, discarder_seat as int));
    }
    result
}

/// Whether `seat` can take the claim window from the recorded winning claim with one of
/// its offered claims (a claim with no tiles that the resolution would pick).
pub open spec fn spec_can_beat(seat: usize, claims: Seq<String>, winning: ClaimKey, discarder_seat: int) -> bool {
    exists|k: int|
        0 <= k < claims.len() && {
            let candidate: ClaimKey = (seat, #[trigger] claims[k]@, Seq::<String>::empty());
            spec_resolve_claims(seq![winning, candidate], discarder_seat) == Some(candidate)
        }
}

fn seat_can_beat_recorded_claim(
    seat_index: usize,
    claims: &Vec<String>,
    winning_claim: &ClaimResponse,
    discarder_seat: usize,
) -> (r: bool)
    requires
        seats_in_range(seq![claim_key(*winning_claim)], discarder_seat),
        seat_index + 4 <= usize::MAX,
        discarder_seat <= seat_index + 4,
    ensures
        r == spec_can_beat(seat_index, claims@, claim_key(*winning_claim), discarder_seat as int),
{
    let mut k: usize = 0;
    while k < claims.len()
        invariant
            k <= claims@.len(),
            seats_in_range(seq![claim_key(*winning_claim)], discarder_seat),
            seat_index + 4 <= usize::MAX,
            discarder_seat <= seat_index + 4,
            forall|j: int| 0 <= j < k ==> {
                let candidate: ClaimKey = (seat_index, #[trigger] claims@[j]@, Seq::<String>::empty());
                spec_resolve_claims(seq![claim_key(*winning_claim), candidate], discarder_seat as int)
                    != Some(candidate)
            },
        decreases claims@.len() - k,
    {
        let candidate = ClaimResponse { seat: seat_index, action_type: claims[k].clone(), tiles: Vec::new() };
        let pair = vec![clone_claim_response(winning_claim), candidate];
        let ghost cand_key: ClaimKey = (seat_index, claims@[k as int]@, Seq::<String>::empty());
        assert(claim_key(candidate) == cand_key);
        assert(claim_keys(pair@) =~= seq![claim_key(*winning_claim), cand_key]);
        proof {
            let ks = seq![claim_key(*winning_claim), cand_key];
            assert(seq![claim_key(*winning_claim)][0] == ks[0]);
            assert forall|i: int| 0 <= i < ks.len() implies #[trigger] ks[i].0 + 4 <= usize::MAX
                && discarder_seat <= ks[i].0 + 4 by {
                if i == 0 {
                    assert(seq![claim_key(*winning_claim)][0] == ks[i]);
                }
            }
        }
        let resolved = resolve_claims(&pair, discarder_seat);
        let same = match &resolved {
            Some(c) => c.seat == seat_index && str_equal(c.action_type.as_str(), claims[k].as_str()) && c.tiles.len() == 0,
            None => false,
        };
        if same {
            proof {
                let c = resolved->0;
                assert(c.tiles@ =~= Seq::<String>::empty());
                assert(claim_key(c) == cand_key);
            }
            return true;
        }
        k += 1;
    }
    false
}

/// Whether seat `s` was offered at least one claim.
pub open spec fn offered_seat(window: Seq<Vec<String>>, s: int) -> bool {
    0 <= s < window.len() && window[s]@.len() > 0
}

/// The seats below `n`, in seat order, that were offered a claim, are not in `responded`,
/// and satisfy `keep`.
pub open spec fn offered_seats_where(
    window: Seq<Vec<String>>,
    responded: Seq<usize>,
    keep: spec_fn(int) -> bool,
    n: int,
) -> Seq<usize>
    decreases n,
{
    if n <= 0 {
        Seq::empty()
    } else {
        let previous = offered_seats_where(window, responded, keep, n - 1);
        if offered_seat(window, n - 1) && !responded.contains((n - 1) as usize) && keep(n - 1) {
            previous.push((n - 1) as usize)
        } else {
            previous
        }
    }
}

pub proof fn lemma_offered_seats_below(
    window: Seq<Vec<String>>,
    responded: Seq<usize>,
    keep: spec_fn(int) -> bool,
    n: int,
)
    requires
        0 <= n,
    ensures
        forall|j: int| 0 <= j < offered_seats_where(window, responded, keep, n).len() ==> #[trigger] offered_seats_where(
            window,
            responded,
            keep,
            n,
        )[j] < n,
    decreases n,
{
    if n > 0 {
        lemma_offered_seats_below(window, responded, keep, n - 1);
        let prev = offered_seats_where(window, responded, keep, n - 1);
        let cur = offered_seats_where(window, responded, keep, n);
        assert forall|j: int| 0 <= j < cur.len() implies #[trigger] cur[j] < n by {
            if j < prev.len() {
                assert(cur[j] == prev[j]);
            }
        }
    }
}

/// Seat arithmetic stays in range while a claim window answers `seat_index`.
pub open spec fn claim_window_in_range(claim: ClaimWindowAction, seat_index: usize) -> bool {
    &&& seats_in_range(claim_keys(claim.claim_responses@), claim.discarder_seat)
    &&& seat_index + 4 <= usize::MAX
    &&& claim.discarder_seat <= 4
    &&& claim.claim_window@.len() + 4 <= usize::MAX
}

/// The claim responses after `seat_index` answers `action_type` with `tile_ids`.
pub open spec fn responses_after(claim: ClaimWindowAction, seat_index: usize, action_type: Seq<char>, tile_ids: Seq<String>) -> Seq<ClaimKey> {
    if action_type == "pass"@ {
        claim_keys(claim.claim_responses@)
    } else {
        claim_keys(claim.claim_responses@).push((seat_index, action_type, tile_ids))
    }
}

/// The seats that answer automatically: when a hu is claimed, every offered seat that
/// cannot claim hu; otherwise every offered seat that cannot beat the winning claim.
pub open spec fn auto_responded(claim: ClaimWindowAction, seat_index: usize, action_type: Seq<char>, tile_ids: Seq<String>) -> Seq<usize> {
    let window = claim.claim_window@;
    let responded = claim.responded_seats@.push(seat_index);
    let responses = responses_after(claim, seat_index, action_type, tile_ids);
    let n = window.len() as int;
    if action_type == "pass"@ {
        Seq::empty()
    } else if spec_resolve_hu_claims(responses, claim.discarder_seat as int).len() > 0 {
        offered_seats_where(window, responded, |s: int| !names_contain(window[s]@, "hu"@), n)
    } else {
        match spec_resolve_claims(responses, claim.discarder_seat as int) {
            Some(w) => offered_seats_where(
                window,
                responded,
                |s: int| !spec_can_beat(s as usize, window[s]@, w, claim.discarder_seat as int),
                n,
            ),
            None => Seq::empty(),
        }
    }
}

/// Whether the answer is refused: no claim window, the seat was not offered a claim or has
/// already answered, or the claim is neither a pass nor one that the seat was offered.
pub open spec fn claim_response_refused(state: RoomState, seat_index: usize, action_type: Seq<char>) -> bool {
    match state.round_state {
        None => true,
        Some(round) => match round.pending_action {
            Some(PendingAction::ClaimWindow(claim)) => {
                ||| !offered_seat(claim.claim_window@, seat_index as int)
                ||| claim.responded_seats@.contains(seat_index)
                ||| (action_type != "pass"@ && !names_contain(claim.claim_window@[seat_index as int]@, action_type))
            },
            _ => true,
        },
    }
}

/// The plan after `seat_index` answers a claim window with `action_type` and `tile_ids`: the
/// same window, the seat and the seats that answer automatically marked as answered, the
/// answer recorded, and the offered seats still to answer left unresolved.
pub open spec fn planned_response(
    claim: ClaimWindowAction,
    seat_index: usize,
    action_type: Seq<char>,
    tile_ids: Seq<String>,
    plan: PlannedClaimWindowResponse,
) -> bool {
    let responded = claim.responded_seats@.push(seat_index) + auto_responded(claim, seat_index, action_type, tile_ids);
    &&& plan.pending_action matches PendingAction::ClaimWindow(next)
    &&& next.discarder_seat == claim.discarder_seat
    &&& next.claim_window@.len() == claim.claim_window@.len()
    &&& (forall|i: int| 0 <= i < claim.claim_window@.len() ==> #[trigger] next.claim_window@[i]@ == claim.claim_window@[i]@)
    &&& next.responded_seats@ == responded
    &&& claim_keys(next.claim_responses@) == responses_after(claim, seat_index, action_type, tile_ids)
    &&& plan.unresolved_seats@ == offered_seats_where(claim.claim_window@, responded, |s: int| true, claim.claim_window@.len() as int)
}

pub fn plan_claim_window_response(
    state: &RoomState,
    seat_index: usize,
    action_type: &str,
    tile_ids: &Vec<String>,
) -> (r: Result<PlannedClaimWindowResponse, String>)
    requires
        state.round_state matches Some(round) ==> (round.pending_action matches Some(
            PendingAction::ClaimWindow(claim),
        ) ==> claim_window_in_range(claim, seat_index)),
    ensures
        claim_response_refused(*state, seat_index, action_type@) ==> (r matches Err(e) && e@
            == "invalid_action"@),
        !claim_response_refused(*state, seat_index, action_type@) ==> (r matches Ok(plan) && planned_response(
            state.round_state->0.pending_action->0->ClaimWindow_0,
            seat_index,
            action_type@,
            tile_ids@,
            plan,
        )),
{
    proof {
        reveal_strlit("pass");
        reveal_strlit("hu");
        reveal_strlit("invalid_action");
    }
    let round = match &state.round_state {
        Some(round) => round,
        None => return Err(owned("invalid_action")),
    };
    let claim = match &round.pending_action {
        Some(PendingAction::ClaimWindow(claim)) => claim,
        _ => return Err(owned("invalid_action")),
    };
    if seat_index >= claim.claim_window.len() {
        return Err(owned("invalid_action"));
    }
    let allowed_claims = &claim.claim_window[seat_index];
    if allowed_claims.len() == 0 {
        return Err(owned("invalid_action"));
    }
    if contains_seat(&claim.responded_seats, seat_index) {
        return Err(owned("invalid_action"));
    }
    let is_pass = str_equal(action_type, "pass");
    if !is_pass && !crate::validation::contains_name(allowed_claims, action_type) {
        return Err(owned("invalid_action"));
    }
    let discarder_seat = claim.discarder_seat;
    let window = &claim.claim_window;
    let ghost window_v = window@;
    let ghost responded1 = claim.responded_seats@.push(seat_index);
    let mut responded_seats = clone_seats(&claim.responded_seats);
    responded_seats.push(seat_index);
    let mut claim_responses = clone_claim_responses(&claim.claim_responses);
    let ghost responses = responses_after(*claim, seat_index, action_type@, tile_ids@);
    if !is_pass {
        let ghost before = claim_responses@;
        let response = ClaimResponse { seat: seat_index, action_type: owned(action_type), tiles: clone_strings(tile_ids) };
        claim_responses.push(response);
        assert(claim_keys(claim_responses@) =~= claim_keys(before).push(claim_key(response)));
    }
    assert(claim_keys(claim_responses@) == responses);
    assert(seats_in_range(responses, discarder_seat));
    if !is_pass {
        let winning_hu_claims = resolve_hu_claims(&claim_responses, discarder_seat);
        if winning_hu_claims.len() > 0 {
            assert(claim_keys(winning_hu_claims@).len() > 0);
            let ghost keep = |s: int| !names_contain(window_v[s]@, "hu"@);
            let mut other_seat: usize = 0;
            while other_seat < window.len()
                invariant
                    other_seat <= window@.len(),
                    window@ == window_v,
                    responded_seats@ == responded1 + offered_seats_where(window_v, responded1, keep, other_seat as int),
                    forall|x: int| #[trigger] keep(x) == !names_contain(window_v[x]@, "hu"@),
                decreases window@.len() - other_seat,
            {
                proof {
                    lemma_offered_seats_below(window_v, responded1, keep, other_seat as int);
                }
                let claims = &window[other_seat];
                let offered = claims.len() > 0;
                let already = contains_seat(&responded_seats, other_seat);
                proof {
                    let extra = offered_seats_where(window_v, responded1, keep, other_seat as int);
                    assert(responded_seats@.contains(other_seat) == responded1.contains(other_seat)) by {
                        if responded_seats@.contains(other_seat) && !responded1.contains(other_seat) {
                            let j = choose|j: int| 0 <= j < responded_seats@.len() && responded_seats@[j] == other_seat;
                            assert(extra[j - responded1.len()] == other_seat);
                        }
                        if responded1.contains(other_seat) {
                            let j = choose|j: int| 0 <= j < responded1.len() && responded1[j] == other_seat;
                            assert(responded_seats@[j] == other_seat);
                        }
                    }
                }
                let take = offered && !already && !crate::validation::contains_name(claims, "hu");
                proof {
                    let prev = offered_seats_where(window_v, responded1, keep, other_seat as int);
                    assert(take == (offered_seat(window_v, other_seat as int) && !responded1.contains(other_seat)
                        && keep(other_seat as int)));
                    assert(offered_seats_where(window_v, responded1, keep, other_seat + 1) == if take {
                        prev.push(other_seat)
                    } else {
                        prev
                    });
                }
                if take {
                    responded_seats.push(other_seat);
                }
                proof {
                    let prev = offered_seats_where(window_v, responded1, keep, other_seat as int);
                    if take {
                        assert(responded_seats@ =~= responded1 + prev.push(other_seat));
                    } else {
                        assert(responded_seats@ =~= responded1 + prev);
                    }
                }
                other_seat += 1;
            }
        } else {
            assert(spec_resolve_hu_claims(responses, discarder_seat as int).len() == 0);
            let winning = resolve_claims(&claim_responses, discarder_seat);
            match &winning {
                Some(winning_claim) => {
                    let ghost w = claim_key(*winning_claim);
                    assert(spec_resolve_claims(responses, discarder_seat as int) == Some(w));
                    proof {
                        let i = best_claim_index(responses, discarder_seat as int, responses.len() as int)->0;
                        lemma_best_claim_index_range(responses, discarder_seat as int, responses.len() as int);
                        assert(responses[i] == w);
                        assert(seats_in_range(seq![w], discarder_seat));
                    }
                    let ghost keep = |s: int| !spec_can_beat(s as usize, window_v[s]@, w, discarder_seat as int);
                    let mut other_seat: usize = 0;
                    while other_seat < window.len()
                        invariant
                            other_seat <= window@.len(),
                            window@ == window_v,
                            seats_in_range(seq![claim_key(*winning_claim)], discarder_seat),
                            w == claim_key(*winning_claim),
                            discarder_seat <= 4,
                            window_v.len() + 4 <= usize::MAX,
                            responded_seats@ == responded1 + offered_seats_where(window_v, responded1, keep, other_seat as int),
                            forall|x: int| #[trigger] keep(x) == !spec_can_beat(x as usize, window_v[x]@, w, discarder_seat as int),
                        decreases window@.len() - other_seat,
                    {
                        proof {
                            lemma_offered_seats_below(window_v, responded1, keep, other_seat as int);
                        }
                        let claims = &window[other_seat];
                        let offered = claims.len() > 0;
                        let already = contains_seat(&responded_seats, other_seat);
                        proof {
                            let extra = offered_seats_where(window_v, responded1, keep, other_seat as int);
                            assert(responded_seats@.contains(other_seat) == responded1.contains(other_seat)) by {
                                if responded_seats@.contains(other_seat) && !responded1.contains(other_seat) {
                                    let j = choose|j: int| 0 <= j < responded_seats@.len() && responded_seats@[j] == other_seat;
                                    assert(extra[j - responded1.len()] == other_seat);
                                }
                                if responded1.contains(other_seat) {
                                    let j = choose|j: int| 0 <= j < responded1.len() && responded1[j] == other_seat;
                                    assert(responded_seats@[j] == other_seat);
                                }
                            }
                        }
                        let take = offered && !already
                            && !seat_can_beat_recorded_claim(other_seat, claims, winning_claim, discarder_seat);
                        proof {
                            let prev = offered_seats_where(window_v, responded1, keep, other_seat as int);
                            assert(take == (offered_seat(window_v, other_seat as int) && !responded1.contains(other_seat)
                                && keep(other_seat as int)));
                            assert(offered_seats_where(window_v, responded1, keep, other_seat + 1) == if take {
                                prev.push(other_seat)
                            } else {
                                prev
                            });
                        }
                        if take {
                            responded_seats.push(other_seat);
                        }
                        proof {
                            let prev = offered_seats_where(window_v, responded1, keep, other_seat as int);
                            if take {
                                assert(responded_seats@ =~= responded1 + prev.push(other_seat));
                            } else {
                                assert(responded_seats@ =~= responded1 + prev);
                            }
                        }
                        other_seat += 1;
                    }
                },
                None => {
                    assert(responded_seats@ =~= responded1 + Seq::<usize>::empty());
                },
            }
        }
    } else {
        assert(responded_seats@ =~= responded1 + Seq::<usize>::empty());
    }
    let ghost responded_final = responded_seats@;
    assert(responded_final == responded1 + auto_responded(*claim, seat_index, action_type@, tile_ids@));
    let ghost all = |s: int| true;
    let mut unresolved_seats: Vec<usize> = Vec::new();
    let mut s: usize = 0;
    while s < window.len()
        invariant
            s <= window@.len(),
            window@ == window_v,
            responded_seats@ == responded_final,
            unresolved_seats@ == offered_seats_where(window_v, responded_final, all, s as int),
            forall|x: int| #[trigger] all(x),
        decreases window@.len() - s,
    {
        let take = window[s].len() > 0 && !contains_seat(&responded_seats, s);
        proof {
            let prev = offered_seats_where(window_v, responded_final, all, s as int);
            assert(take == (offered_seat(window_v, s as int) && !responded_final.contains(s) && all(s as int)));
            assert(offered_seats_where(window_v, responded_final, all, s + 1) == if take {
                prev.push(s)
            } else {
                prev
            });
        }
        if take {
            unresolved_seats.push(s);
        }
        s += 1;
    }
    Ok(PlannedClaimWindowResponse {
        pending_action: PendingAction::ClaimWindow(ClaimWindowAction {
            discarder_seat,
            claim_window: clone_claim_window(window),
            responded_seats,
            claim_responses,
        }),
        unresolved_seats,
    })
}


/// The tile at the wall's tail, which a replacement draw takes.
pub open spec fn spec_replacement_tile(state: RoomState) -> Option<Tile> {
    match state.round_state {
        Some(round) => if round.wall.tail_index < round.wall.tiles@.len() {
            Some(round.wall.tiles@[round.wall.tail_index as int])
        } else {
            None
        },
        None => None,
    }
}

fn replacement_tile_from_tail(state: &RoomState) -> (r: Option<Tile>)
    ensures
        r == spec_replacement_tile(*state),
{
    match &state.round_state {
        Some(round) => if round.wall.tail_index < round.wall.tiles.len() {
            Some(clone_tile(&round.wall.tiles[round.wall.tail_index]))
        } else {
            None
        },
        None => None,
    }
}

/// The tile that the next turn draws from the wall's head, while live tiles remain.
pub open spec fn spec_peek_draw(state: RoomState) -> Option<Tile> {
    match state.round_state {
        Some(round) => if round.wall.head_index <= round.wall.tail_index && round.wall.head_index
            < round.wall.tiles@.len() {
            Some(round.wall.tiles@[round.wall.head_index as int])
        } else {
            None
        },
        None => None,
    }
}

fn peek_draw_for_turn(state: &RoomState) -> (r: Option<Tile>)
    ensures
        r == spec_peek_draw(*state),
{
    match &state.round_state {
        Some(round) => if round.wall.head_index <= round.wall.tail_index && round.wall.head_index
            < round.wall.tiles.len() {
            Some(clone_tile(&round.wall.tiles[round.wall.head_index]))
        } else {
            None
        },
        None => None,
    }
}

/// The live tiles left once the head tile has been drawn.
pub open spec fn spec_live_after_head_draw(state: RoomState) -> int {
    match state.round_state {
        Some(round) => if round.wall.tail_index > round.wall.head_index {
            round.wall.tail_index - round.wall.head_index
        } else {
            0
        },
        None => 0,
    }
}

fn live_tiles_remaining_after_head_draw(state: &RoomState) -> (r: usize)
    ensures
        r == spec_live_after_head_draw(*state),
{
    match &state.round_state {
        Some(round) => if round.wall.tail_index > round.wall.head_index {
            round.wall.tail_index - round.wall.head_index
        } else {
            0
        },
        None => 0,
    }
}

/// The tile with id `tile_id` in the concealed hand of `seat`, if there is one.
pub open spec fn spec_held_tile(state: RoomState, seat: int, tile_id: Seq<char>) -> Option<Tile> {
    match state.round_state {
        Some(round) => if 0 <= seat < round.players@.len() {
            let tiles = round.players@[seat].concealed_tiles@;
            match find_tile(tiles, tile_id) {
                Some(i) => Some(tiles[i]),
                None => None,
            }
        } else {
            None
        },
        None => None,
    }
}

fn held_tile(state: &RoomState, seat_index: usize, tile_id: &str) -> (r: Option<Tile>)
    ensures
        r == spec_held_tile(*state, seat_index as int, tile_id@),
{
    match &state.round_state {
        Some(round) => if seat_index < round.players.len() {
            let tiles = &round.players[seat_index].concealed_tiles;
            match position_of_tile(tiles, tile_id) {
                Some(i) => Some(clone_tile(&tiles[i])),
                None => None,
            }
        } else {
            None
        },
        None => None,
    }
}

/// A last-action context with the given fields, none of them a kong replacement.
pub open spec fn context_is(
    ctx: LastActionContext,
    kind: Seq<char>,
    seat: usize,
    tile_id: Option<String>,
    was_last_live_tile: bool,
    was_last_discard: bool,
) -> bool {
    &&& ctx.kind@ == kind
    &&& ctx.seat == seat
    &&& ctx.tile_id == tile_id
    &&& !ctx.from_kong_replacement
    &&& ctx.was_last_live_tile == was_last_live_tile
    &&& ctx.was_last_discard == was_last_discard
}

/// Exposes a flower from the seat's concealed hand and draws its replacement from the tail.
pub fn plan_flower_action(state: &RoomState, seat_index: usize, tile_id: &str) -> (r: Result<
    PlannedFlowerAction,
    String,
>)
    ensures
        state.round_state is None ==> (r matches Err(e) && e@ == "round_not_ready"@),
        state.round_state is Some ==> match spec_held_tile(*state, seat_index as int, tile_id@) {
            None => r matches Err(e) && e@ == "invalid_action"@,
            Some(flower) => if flower.kind@ != "flower"@ {
                r matches Err(e) && e@ == "invalid_action"@
            } else {
                match spec_replacement_tile(*state) {
                    None => r matches Err(e) && e@ == "round_not_ready"@,
                    Some(replacement) => r matches Ok(plan) && {
                        &&& plan.flower_tile == flower
                        &&& plan.replacement_tile == replacement
                        &&& context_is(
                            plan.last_action_context,
                            "replacement_draw"@,
                            seat_index,
                            Some(replacement.tile_id),
                            false,
                            false,
                        )
                    },
                }
            },
        },
{
    if state.round_state.is_none() {
        return Err(owned("round_not_ready"));
    }
    let flower_tile = match held_tile(state, seat_index, tile_id) {
        Some(t) => t,
        None => return Err(owned("invalid_action")),
    };
    if !str_equal(flower_tile.kind.as_str(), "flower") {
        return Err(owned("invalid_action"));
    }
    let replacement_tile = match replacement_tile_from_tail(state) {
        Some(t) => t,
        None => return Err(owned("round_not_ready")),
    };
    let last_action_context = LastActionContext {
        kind: owned("replacement_draw"),
        seat: seat_index,
        tile_id: Some(replacement_tile.tile_id.clone()),
        from_kong_replacement: false,
        was_last_live_tile: false,
        was_last_discard: false,
    };
    Ok(PlannedFlowerAction { flower_tile, replacement_tile, last_action_context })
}

/// Whether some seat was offered a claim.
pub open spec fn window_has_claim(window: Seq<Vec<String>>) -> bool {
    exists|i: int| 0 <= i < window.len() && #[trigger] window[i]@.len() > 0
}

fn any_claim_offered(window: &Vec<Vec<String>>) -> (r: bool)
    ensures
        r == window_has_claim(window@),
{
    let mut i: usize = 0;
    while i < window.len()
        invariant
            i <= window@.len(),
            forall|j: int| 0 <= j < i ==> #[trigger] window@[j]@.len() == 0,
        decreases window@.len() - i,
    {
        if window[i].len() > 0 {
            return true;
        }
        i += 1;
    }
    false
}

/// Discards a tile from the seat's concealed hand. With a claim offered, a claim window opens
/// and the discarder stays the actor; otherwise the next seat draws from the head of the wall,
/// or the wall is exhausted.
pub fn plan_discard_action(
    state: &RoomState,
    seat_index: usize,
    tile_id: &str,
    claim_window: Vec<Vec<String>>,
    previous_was_last_live_tile: bool,
) -> (r: Result<PlannedDiscardAction, String>)
    ensures
        state.round_state is None ==> (r matches Err(e) && e@ == "round_not_ready"@),
        state.round_state is Some ==> match spec_held_tile(*state, seat_index as int, tile_id@) {
            None => r matches Err(e) && e@ == "invalid_action"@,
            Some(discarded) => r matches Ok(plan) && {
                let has_claim = window_has_claim(claim_window@);
                let next_actor = ((seat_index + 1) % 4) as usize;
                let drawn = if has_claim { None } else { spec_peek_draw(*state) };
                let c = plan.continuation;
                &&& plan.discarded_tile == discarded
                &&& c.current_actor == (if has_claim { seat_index } else { next_actor })
                &&& c.drawn_tile == drawn
                &&& c.needs_exhaustive_draw == (!has_claim && drawn is None)
                &&& (if has_claim {
                    &&& c.pending_action == Some(PendingAction::ClaimWindow(ClaimWindowAction {
                        discarder_seat: seat_index,
                        claim_window,
                        responded_seats: c.pending_action->0->ClaimWindow_0.responded_seats,
                        claim_responses: c.pending_action->0->ClaimWindow_0.claim_responses,
                    }))
                    &&& c.pending_action->0->ClaimWindow_0.responded_seats@.len() == 0
                    &&& c.pending_action->0->ClaimWindow_0.claim_responses@.len() == 0
                    &&& context_is(
                        c.last_action_context,
                        "discard"@,
                        seat_index,
                        Some(discarded.tile_id),
                        false,
                        previous_was_last_live_tile,
                    )
                } else {
                    &&& c.pending_action is None
                    &&& context_is(
                        c.last_action_context,
                        "draw"@,
                        next_actor,
                        match drawn {
                            Some(t) => Some(t.tile_id),
                            None => None,
                        },
                        spec_live_after_head_draw(*state) == 0,
                        false,
                    )
                })
            },
        },
{
    if state.round_state.is_none() {
        return Err(owned("round_not_ready"));
    }
    let discarded_tile = match held_tile(state, seat_index, tile_id) {
        Some(t) => t,
        None => return Err(owned("invalid_action")),
    };
    let player_count = match &state.round_state {
        Some(round) => round.players.len(),
        None => 0,
    };
    assert(seat_index < player_count);
    let has_claim = any_claim_offered(&claim_window);
    let next_actor = (seat_index + 1) % MAX_SEATS;
    let drawn_tile = if has_claim {
        None
    } else {
        peek_draw_for_turn(state)
    };
    let needs_exhaustive_draw = !has_claim && drawn_tile.is_none();
    let was_last_live_tile = if has_claim {
        false
    } else {
        live_tiles_remaining_after_head_draw(state) == 0
    };
    let last_action_context = if has_claim {
        LastActionContext {
            kind: owned("discard"),
            seat: seat_index,
            tile_id: Some(discarded_tile.tile_id.clone()),
            from_kong_replacement: false,
            was_last_live_tile: false,
            was_last_discard: previous_was_last_live_tile,
        }
    } else {
        LastActionContext {
            kind: owned("draw"),
            seat: next_actor,
            tile_id: match &drawn_tile {
                Some(tile) => Some(tile.tile_id.clone()),
                None => None,
            },
            from_kong_replacement: false,
            was_last_live_tile,
            was_last_discard: false,
        }
    };
    let pending_action = if has_claim {
        Some(PendingAction::ClaimWindow(ClaimWindowAction {
            discarder_seat: seat_index,
            claim_window,
            responded_seats: Vec::new(),
            claim_responses: Vec::new(),
        }))
    } else {
        None
    };
    Ok(PlannedDiscardAction {
        discarded_tile,
        continuation: PlannedDiscardContinuation {
            current_actor: if has_claim {
                seat_index
            } else {
                next_actor
            },
            pending_action,
            drawn_tile,
            last_action_context,
            needs_exhaustive_draw,
        },
    })
}

/// After a claim window that nobody won: the seat after the discarder draws from the head of
/// the wall, or, with no live tile left, the round ends in an exhaustive draw.
pub fn plan_claim_window_continuation_without_winner(state: &RoomState, discarder_seat: usize) -> (r:
    Result<PlannedClaimWindowContinuation, String>)
    requires
        discarder_seat < usize::MAX,
    ensures
        r matches Ok(plan) && match spec_peek_draw(*state) {
            None => plan.outcome is ExhaustiveDraw,
            Some(tile) => plan.outcome matches PlannedClaimWindowOutcome::AdvanceTurn {
                current_actor,
                drawn_tile,
                last_action_context,
            } && {
                &&& current_actor == (discarder_seat + 1) % 4
                &&& drawn_tile == tile
                &&& context_is(
                    last_action_context,
                    "draw"@,
                    current_actor,
                    Some(tile.tile_id),
                    spec_live_after_head_draw(*state) == 0,
                    false,
                )
            },
        },
{
    let next_actor = (discarder_seat + 1) % MAX_SEATS;
    let drawn_tile = match peek_draw_for_turn(state) {
        Some(t) => t,
        None => return Ok(PlannedClaimWindowContinuation { outcome: PlannedClaimWindowOutcome::ExhaustiveDraw }),
    };
    let was_last_live_tile = live_tiles_remaining_after_head_draw(state) == 0;
    let tile_id = drawn_tile.tile_id.clone();
    Ok(PlannedClaimWindowContinuation {
        outcome: PlannedClaimWindowOutcome::AdvanceTurn {
            current_actor: next_actor,
            drawn_tile,
            last_action_context: LastActionContext {
                kind: owned("draw"),
                seat: next_actor,
                tile_id: Some(tile_id),
                from_kong_replacement: false,
                was_last_live_tile,
                was_last_discard: false,
            },
        },
    })
}


/// The tile id drawn on the active turn of `seat`: the last action was that seat's draw or
/// replacement draw, and the drawn tile is still in its concealed hand.
pub open spec fn spec_active_turn_drawn_tile_id(state: RoomState, seat: usize) -> Option<String> {
    match state.round_state {
        None => None,
        Some(round) => {
            let ctx = round.last_action_context;
            if ctx.kind@ != "draw"@ && ctx.kind@ != "replacement_draw"@ {
                None
            } else if ctx.seat != seat {
                None
            } else {
                match ctx.tile_id {
                    None => None,
                    Some(id) => if seat < round.players@.len() && find_tile(
                        round.players@[seat as int].concealed_tiles@,
                        id@,
                    ) is Some {
                        Some(id)
                    } else {
                        None
                    },
                }
            }
        },
    }
}

fn active_turn_drawn_tile_id(state: &RoomState, seat_index: usize) -> (r: Option<String>)
    ensures
        r == spec_active_turn_drawn_tile_id(*state, seat_index),
{
    let round = match &state.round_state {
        Some(round) => round,
        None => return None,
    };
    let ctx = &round.last_action_context;
    if !str_equal(ctx.kind.as_str(), "draw") && !str_equal(ctx.kind.as_str(), "replacement_draw") {
        return None;
    }
    if ctx.seat != seat_index {
        return None;
    }
    let tile_id = match &ctx.tile_id {
        Some(id) => id,
        None => return None,
    };
    if seat_index < round.players.len() {
        match position_of_tile(&round.players[seat_index].concealed_tiles, tile_id.as_str()) {
            Some(_) => Some(tile_id.clone()),
            None => None,
        }
    } else {
        None
    }
}

/// A pending timeout with the given kind, seat and drawn tile, no extra time, and deadline
/// `deadline_at`.
pub open spec fn timeout_is(
    t: PendingTimeout,
    kind: Seq<char>,
    seat: usize,
    deadline_at: String,
    drawn_tile_id: Option<String>,
) -> bool {
    &&& t.kind@ == kind
    &&& t.seat_index == seat
    &&& t.extra_time_seat is None
    &&& t.deadline_at == Some(deadline_at)
    &&& t.drawn_tile_id == drawn_tile_id
    &&& !t.extended_with_extra
}

/// The timeout that the pending decision of a playing room runs under: a claim window (or a
/// window to rob a kong) times the discarder (or the kong's actor); otherwise the active turn
/// of the current actor, with the tile it drew.
pub fn compute_pending_timeout_value(state: &RoomState, deadline_at: String) -> (r: Option<
    PendingTimeout,
>)
    ensures
        (state.phase@ != "playing"@ || state.round_state is None) ==> r is None,
        (state.phase@ == "playing"@ && state.round_state is Some) ==> (r matches Some(t) && {
            let round = state.round_state->0;
            match round.pending_action {
                Some(PendingAction::ClaimWindow(claim)) => timeout_is(
                    t,
                    "claim_window"@,
                    claim.discarder_seat,
                    deadline_at,
                    None,
                ),
                Some(PendingAction::RobKongWindow(rob)) => timeout_is(
                    t,
                    "claim_window"@,
                    rob.actor_seat,
                    deadline_at,
                    None,
                ),
                _ => timeout_is(
                    t,
                    "active_turn"@,
                    round.current_actor,
                    deadline_at,
                    spec_active_turn_drawn_tile_id(*state, round.current_actor),
                ),
            }
        }),
{
    if !str_equal(state.phase.as_str(), "playing") {
        return None;
    }
    let round = match &state.round_state {
        Some(round) => round,
        None => return None,
    };
    match &round.pending_action {
        Some(PendingAction::ClaimWindow(claim)) => Some(PendingTimeout {
            kind: owned("claim_window"),
            seat_index: claim.discarder_seat,
            extra_time_seat: None,
            deadline_at: Some(deadline_at),
            drawn_tile_id: None,
            extended_with_extra: false,
        }),
        Some(PendingAction::RobKongWindow(rob)) => Some(PendingTimeout {
            kind: owned("claim_window"),
            seat_index: rob.actor_seat,
            extra_time_seat: None,
            deadline_at: Some(deadline_at),
            drawn_tile_id: None,
            extended_with_extra: false,
        }),
        _ => Some(PendingTimeout {
            kind: owned("active_turn"),
            seat_index: round.current_actor,
            extra_time_seat: None,
            deadline_at: Some(deadline_at),
            drawn_tile_id: active_turn_drawn_tile_id(state, round.current_actor),
            extended_with_extra: false,
        }),
    }
}

/// The score that `m` holds for `seat`, or zero.
pub open spec fn score_or_zero(m: Map<usize, i64>, seat: usize) -> int {
    if m.contains_key(seat) {
        m[seat] as int
    } else {
        0
    }
}

/// Whether the match already recorded the round as its last completed one.
pub open spec fn round_already_completed(state: RoomState) -> bool {
    match (state.round_state, state.match_state) {
        (Some(round), Some(m)) => m.last_completed_round_id matches Some(id) && id@ == round.round_id@,
        _ => false,
    }
}

/// The cumulative score of each seat after the settlement: its score in the match plus the
/// settlement's total delta for it, each zero where absent.
pub open spec fn settled_score(state: RoomState, settlement: RoundSettlement, seat: usize) -> int {
    score_or_zero(state.match_state->0.cumulative_scores@, seat) + score_or_zero(
        settlement.score_delta.total_delta_by_seat@,
        seat,
    )
}

/// The cumulative scores that a settlement gives the match, unless there is no round or match,
/// or the match already recorded this round.
pub fn plan_settlement_to_match(state: &RoomState, settlement: &RoundSettlement) -> (r: Option<
    PlannedSettlementToMatch,
>)
    requires
        state.match_state is Some ==> forall|seat: usize|
            seat < 4 ==> i64::MIN <= #[trigger] settled_score(*state, *settlement, seat) <= i64::MAX,
    ensures
        (state.round_state is None || state.match_state is None || round_already_completed(*state))
            ==> r is None,
        !(state.round_state is None || state.match_state is None || round_already_completed(*state))
            ==> (r matches Some(plan) && {
            &&& plan.round_id@ == state.round_state->0.round_id@
            &&& plan.cumulative_scores@.dom() == Set::new(|seat: usize| seat < 4)
            &&& forall|seat: usize|
                seat < 4 ==> plan.cumulative_scores@[seat] == #[trigger] settled_score(
                    *state,
                    *settlement,
                    seat,
                )
        }),
{
    let round = match &state.round_state {
        Some(round) => round,
        None => return None,
    };
    let match_state = match &state.match_state {
        Some(m) => m,
        None => return None,
    };
    match &match_state.last_completed_round_id {
        Some(id) => if str_equal(id.as_str(), round.round_id.as_str()) {
            return None;
        },
        None => {},
    }
    let mut cumulative_scores: BTreeMap<usize, i64> = BTreeMap::new();
    let mut seat_index: usize = 0;
    while seat_index < MAX_SEATS
        invariant
            seat_index <= 4,
            state.match_state == Some(*match_state),
            forall|seat: usize|
                seat < 4 ==> i64::MIN <= #[trigger] settled_score(*state, *settlement, seat) <= i64::MAX,
            cumulative_scores@.dom() == Set::new(|seat: usize| seat < seat_index),
            forall|seat: usize|
                seat < seat_index ==> cumulative_scores@[seat] == #[trigger] settled_score(
                    *state,
                    *settlement,
                    seat,
                ),
        decreases 4 - seat_index,
    {
        let current: i64 = match match_state.cumulative_scores.get(&seat_index) {
            Some(v) => *v,
            None => 0,
        };
        let delta: i64 = match settlement.score_delta.total_delta_by_seat.get(&seat_index) {
            Some(v) => *v,
            None => 0,
        };
        assert(current + delta == settled_score(*state, *settlement, seat_index));
        cumulative_scores.insert(seat_index, current + delta);
        proof {
            assert(cumulative_scores@.dom() =~= Set::new(|seat: usize| seat < seat_index + 1));
        }
        seat_index += 1;
    }
    Some(PlannedSettlementToMatch { cumulative_scores, round_id: round.round_id.clone() })
}


/// The order in which `rand`'s `SliceRandom::shuffle`, driven by a `StdRng` that
/// `SeedableRng::seed_from_u64` seeds with `seed`, leaves a slice of `len` items: position `i`
/// receives the item that stood at `seeded_order(seed, len)[i]`. The swaps that the shuffle
/// makes depend on the generator and the length alone, not on the items. `rand` does not
/// promise the same order across its versions or platforms, so the name holds within one
/// build.
pub uninterp spec fn seeded_order(seed: u64, len: nat) -> Seq<int>;

/// Shuffles the tiles in place with `rand`'s `SliceRandom::shuffle`, driven by a `StdRng` that
/// `SeedableRng::seed_from_u64` seeds with `seed`. Claimed: the same tiles come out, each
/// position holding the tile from the position that `seeded_order` names for the seed and the
/// length. Which order that is, is not written out.
#[verifier::external_body]
fn shuffle_tiles(tiles: &mut Vec<Tile>, seed: u64)
    ensures
        final(tiles)@.to_multiset() == old(tiles)@.to_multiset(),
        final(tiles)@.len() == old(tiles)@.len() && forall|i: int|
            0 <= i < old(tiles)@.len() ==> {
                let j = #[trigger] seeded_order(seed, old(tiles)@.len())[i];
                0 <= j < old(tiles)@.len() && final(tiles)@[i] == old(tiles)@[j]
            },
{
    let mut rng = rand::rngs::StdRng::seed_from_u64(seed);
    tiles.shuffle(&mut rng);
}

/// The instant `seconds` after now, in UTC: `chrono::Utc::now` plus `chrono::TimeDelta::seconds`,
/// written by `DateTime::to_rfc3339_opts` with microseconds and a `Z` suffix. It rests on the
/// clock, so nothing is claimed of the text; `TimeDelta::seconds` panics beyond about
/// `i64::MAX / 1000` seconds, which the bound keeps out.
#[verifier::external_body]
fn deadline_after_seconds(seconds: i64) -> String
    requires
        0 <= seconds <= 86_400,
{
    (chrono::Utc::now() + chrono::TimeDelta::seconds(seconds)).to_rfc3339_opts(
        chrono::SecondsFormat::Micros,
        true,
    )
}

/// Starts a round: the full set shuffled into the wall by the seed, dealt by `dealer_seat`,
/// with the dealer's active turn timed from now. Within one build, equal seeds give equal
/// walls and equal hands: `rand` keeps a seeded `StdRng` fixed only for one version of the
/// crate and one platform.
pub fn plan_round_start_payload(dealer_seat: usize, round_wind: &str, round_id: String, seed: u64) -> (r: (
    RoundState,
    PendingTimeout,
))
    requires
        dealer_seat < 4,
    ensures
        exists|full: Seq<Tile>| is_full_tile_set(full) && r.0.wall.tiles@.to_multiset() == full.to_multiset(),
        seeded_wall(r.0.wall.tiles@, seed),
        r.1.deadline_at is Some,
        dealt(dealer_seat, round_wind@, round_id, r.0.wall.tiles@, r.1.deadline_at->0, r.0, r.1),
        forall|s: int| 0 <= s < 4 ==> flower_count(#[trigger] r.0.players@[s].concealed_tiles@) == 0,
        forall|s: int|
            0 <= s < 4 ==> (#[trigger] r.0.players@[s].concealed_tiles@).len() == if s == dealer_seat {
                14nat
            } else {
                13
            },
{
    let mut wall_tiles = full_tile_set();
    let ghost full = wall_tiles@;
    shuffle_tiles(&mut wall_tiles, seed);
    proof {
        broadcast use vstd::seq_lib::group_to_multiset_ensures;

        lemma_full_set_flowers(full);
        lemma_flower_count_permutation(full, wall_tiles@);
        assert(full.to_multiset().len() == full.len());
        assert(wall_tiles@.to_multiset().len() == wall_tiles@.len());
        assert forall|i: int| 0 <= i < 144 implies #[trigger] is_full_set_tile(
            wall_tiles@[i],
            seeded_order(seed, 144)[i],
        ) by {
            let j = seeded_order(seed, 144)[i];
            assert(is_full_set_tile(full[j], j));
        }
    }
    let deadline_at = deadline_after_seconds(PENDING_TIMEOUT_SECONDS);
    deal_round(dealer_seat, round_wind, round_id, wall_tiles, deadline_at)
}

/// The wall that the seed makes: position `i` holds the tile of the full set at the place that
/// the seeded shuffle sends there.
pub open spec fn seeded_wall(wall: Seq<Tile>, seed: u64) -> bool {
    &&& wall.len() == 144
    &&& forall|i: int| 0 <= i < 144 ==> #[trigger] is_full_set_tile(wall[i], seeded_order(seed, 144)[i])
}

/// What a tile shows: its id, key, kind, suit, rank and name.
pub open spec fn tile_fields(t: Tile) -> (Seq<char>, Seq<char>, Seq<char>, Option<Seq<char>>, Option<u8>, Option<Seq<char>>) {
    (
        t.tile_id@,
        t.tile_key@,
        t.kind@,
        match t.suit {
            Some(x) => Some(x@),
            None => None,
        },
        t.rank,
        match t.name {
            Some(x) => Some(x@),
            None => None,
        },
    )
}

/// Two rounds started with the same seed have the same wall, tile for tile: every arena
/// replica of a match deals the same game.
pub proof fn equal_seeds_give_equal_walls(a: Seq<Tile>, b: Seq<Tile>, seed: u64)
    requires
        seeded_wall(a, seed),
        seeded_wall(b, seed),
    ensures
        a.len() == b.len(),
        forall|i: int| 0 <= i < a.len() ==> tile_fields(#[trigger] a[i]) == tile_fields(b[i]),
{
    assert forall|i: int| 0 <= i < a.len() implies tile_fields(#[trigger] a[i]) == tile_fields(b[i]) by {
        let j = seeded_order(seed, 144)[i];
        assert(is_full_set_tile(a[i], j));
        assert(is_full_set_tile(b[i], j));
    }
}

/// Two lists of tiles show the same tiles, place by place.
pub open spec fn tiles_agree(a: Seq<Tile>, b: Seq<Tile>) -> bool {
    &&& a.len() == b.len()
    &&& forall|i: int| 0 <= i < a.len() ==> tile_fields(#[trigger] a[i]) == tile_fields(b[i])
}

/// Two lists of hands show the same tiles, hand by hand.
pub open spec fn hands_agree(a: Seq<Seq<Tile>>, b: Seq<Seq<Tile>>) -> bool {
    &&& a.len() == b.len()
    &&& forall|s: int| 0 <= s < a.len() ==> tiles_agree(#[trigger] a[s], b[s])
}

/// Two optional tiles are both absent, or both present and showing the same tile.
pub open spec fn opt_tiles_agree(a: Option<Tile>, b: Option<Tile>) -> bool {
    match (a, b) {
        (None, None) => true,
        (Some(x), Some(y)) => tile_fields(x) == tile_fields(y),
        _ => false,
    }
}

proof fn lemma_first_flower_agree(a: Seq<Tile>, b: Seq<Tile>, from: int)
    requires
        tiles_agree(a, b),
    ensures
        first_flower_from(a, from) == first_flower_from(b, from),
    decreases a.len() - from,
{
    if 0 <= from < a.len() {
        assert(tile_fields(a[from]) == tile_fields(b[from]));
        lemma_first_flower_agree(a, b, from + 1);
    }
}

proof fn lemma_expose_agree(ha: Seq<Tile>, fa: Seq<Tile>, hb: Seq<Tile>, fb: Seq<Tile>, wa: Seq<Tile>, wb: Seq<Tile>, tail: int)
    requires
        tiles_agree(ha, hb),
        tiles_agree(fa, fb),
        tiles_agree(wa, wb),
    ensures
        tiles_agree(expose_flowers(ha, fa, wa, tail).0, expose_flowers(hb, fb, wb, tail).0),
        tiles_agree(expose_flowers(ha, fa, wa, tail).1, expose_flowers(hb, fb, wb, tail).1),
        expose_flowers(ha, fa, wa, tail).2 == expose_flowers(hb, fb, wb, tail).2,
        opt_tiles_agree(expose_flowers(ha, fa, wa, tail).3, expose_flowers(hb, fb, wb, tail).3),
    decreases tail,
{
    lemma_first_flower_agree(ha, hb, 0);
    match first_flower(ha) {
        None => {},
        Some(i) => {
            if !(tail <= 0 || tail >= wa.len()) {
                lemma_first_flower_from_range(ha, 0);
                let na = ha.remove(i).push(wa[tail]);
                let nb = hb.remove(i).push(wb[tail]);
                assert(tiles_agree(na, nb)) by {
                    assert forall|k: int| 0 <= k < na.len() implies tile_fields(#[trigger] na[k]) == tile_fields(nb[k]) by {
                        if k < i {
                            assert(na[k] == ha[k] && nb[k] == hb[k]);
                        } else if k < na.len() - 1 {
                            assert(na[k] == ha[k + 1] && nb[k] == hb[k + 1]);
                        }
                    }
                }
                let ga = fa.push(ha[i]);
                let gb = fb.push(hb[i]);
                assert(tiles_agree(ga, gb)) by {
                    assert forall|k: int| 0 <= k < ga.len() implies tile_fields(#[trigger] ga[k]) == tile_fields(gb[k]) by {
                        if k < fa.len() {
                            assert(ga[k] == fa[k] && gb[k] == fb[k]);
                        }
                    }
                }
                lemma_expose_agree(na, ga, nb, gb, wa, wb, tail - 1);
            }
        },
    }
}

proof fn lemma_first_flower_from_range(hand: Seq<Tile>, from: int)
    ensures
        first_flower_from(hand, from) matches Some(i) ==> 0 <= i < hand.len(),
    decreases hand.len() - from,
{
    if 0 <= from < hand.len() {
        lemma_first_flower_from_range(hand, from + 1);
    }
}

proof fn lemma_resolve_agree(
    ha: Seq<Seq<Tile>>,
    fa: Seq<Seq<Tile>>,
    hb: Seq<Seq<Tile>>,
    fb: Seq<Seq<Tile>>,
    wa: Seq<Tile>,
    wb: Seq<Tile>,
    tail: int,
    dealer: int,
    offset: int,
)
    requires
        hands_agree(ha, hb),
        hands_agree(fa, fb),
        ha.len() == 4,
        fa.len() == 4,
        tiles_agree(wa, wb),
        0 <= dealer < 4,
    ensures
        hands_agree(resolve_flowers(ha, fa, wa, tail, dealer, offset).0, resolve_flowers(hb, fb, wb, tail, dealer, offset).0),
        hands_agree(resolve_flowers(ha, fa, wa, tail, dealer, offset).1, resolve_flowers(hb, fb, wb, tail, dealer, offset).1),
        resolve_flowers(ha, fa, wa, tail, dealer, offset).2 == resolve_flowers(hb, fb, wb, tail, dealer, offset).2,
        resolve_flowers(ha, fa, wa, tail, dealer, offset).0.len() == 4,
        resolve_flowers(ha, fa, wa, tail, dealer, offset).1.len() == 4,
    decreases 4 - offset,
{
    if 0 <= offset < 4 {
        let seat = (dealer + offset) % 4;
        assert(tiles_agree(ha[seat], hb[seat]));
        assert(tiles_agree(fa[seat], fb[seat]));
        lemma_expose_agree(ha[seat], fa[seat], hb[seat], fb[seat], wa, wb, tail);
        let ea = expose_flowers(ha[seat], fa[seat], wa, tail);
        let eb = expose_flowers(hb[seat], fb[seat], wb, tail);
        let ha2 = ha.update(seat, ea.0);
        let hb2 = hb.update(seat, eb.0);
        let fa2 = fa.update(seat, ea.1);
        let fb2 = fb.update(seat, eb.1);
        assert(hands_agree(ha2, hb2)) by {
            assert forall|s: int| 0 <= s < ha2.len() implies tiles_agree(#[trigger] ha2[s], hb2[s]) by {
                if s != seat {
                    assert(tiles_agree(ha[s], hb[s]));
                }
            }
        }
        assert(hands_agree(fa2, fb2)) by {
            assert forall|s: int| 0 <= s < fa2.len() implies tiles_agree(#[trigger] fa2[s], fb2[s]) by {
                if s != seat {
                    assert(tiles_agree(fa[s], fb[s]));
                }
            }
        }
        lemma_resolve_agree(ha2, fa2, hb2, fb2, wa, wb, ea.2, dealer, offset + 1);
    }
}

/// Two rounds dealt by the same dealer from walls made with the same seed give every seat the
/// same hand and the same exposed flowers, tile for tile, and leave the same tail: every arena
/// replica of a match starts from the same position.
pub proof fn equal_seeds_deal_equal_hands(
    dealer: usize,
    round_wind: Seq<char>,
    seed: u64,
    id_a: String,
    deadline_a: String,
    round_a: RoundState,
    timeout_a: PendingTimeout,
    id_b: String,
    deadline_b: String,
    round_b: RoundState,
    timeout_b: PendingTimeout,
)
    requires
        dealer < 4,
        seeded_wall(round_a.wall.tiles@, seed),
        seeded_wall(round_b.wall.tiles@, seed),
        dealt(dealer, round_wind, id_a, round_a.wall.tiles@, deadline_a, round_a, timeout_a),
        dealt(dealer, round_wind, id_b, round_b.wall.tiles@, deadline_b, round_b, timeout_b),
    ensures
        round_a.wall.tail_index == round_b.wall.tail_index,
        forall|s: int|
            0 <= s < 4 ==> tiles_agree(
                (#[trigger] round_a.players@[s]).concealed_tiles@,
                round_b.players@[s].concealed_tiles@,
            ) && tiles_agree(round_a.players@[s].flowers@, round_b.players@[s].flowers@),
{
    let wa = round_a.wall.tiles@;
    let wb = round_b.wall.tiles@;
    equal_seeds_give_equal_walls(wa, wb, seed);
    let ha = Seq::new(4, |s: int| dealt_hand(wa, s, dealer as int));
    let hb = Seq::new(4, |s: int| dealt_hand(wb, s, dealer as int));
    let empty = Seq::new(4, |s: int| Seq::<Tile>::empty());
    assert(hands_agree(ha, hb)) by {
        assert forall|s: int| 0 <= s < ha.len() implies tiles_agree(#[trigger] ha[s], hb[s]) by {
            let a = ha[s];
            let b = hb[s];
            assert forall|k: int| 0 <= k < a.len() implies tile_fields(#[trigger] a[k]) == tile_fields(b[k]) by {
                if k < 13 {
                    assert(a[k] == wa[13 * s + k] && b[k] == wb[13 * s + k]);
                } else {
                    assert(a[k] == wa[52] && b[k] == wb[52]);
                }
            }
        }
    }
    assert(hands_agree(empty, empty));
    lemma_resolve_agree(ha, empty, hb, empty, wa, wb, 143, dealer as int, 0);
    let ra = resolve_flowers(ha, empty, wa, 143, dealer as int, 0);
    let rb = resolve_flowers(hb, empty, wb, 143, dealer as int, 0);
    assert forall|s: int| 0 <= s < 4 implies tiles_agree(
        (#[trigger] round_a.players@[s]).concealed_tiles@,
        round_b.players@[s].concealed_tiles@,
    ) && tiles_agree(round_a.players@[s].flowers@, round_b.players@[s].flowers@) by {
        assert(round_a.players@[s].concealed_tiles@ == ra.0[s]);
        assert(round_b.players@[s].concealed_tiles@ == rb.0[s]);
        assert(tiles_agree(ra.0[s], rb.0[s]));
        assert(tiles_agree(ra.1[s], rb.1[s]));
    }
}

proof fn lemma_offered_seats_member(
    window: Seq<Vec<String>>,
    responded: Seq<usize>,
    keep: spec_fn(int) -> bool,
    n: int,
    x: usize,
)
    requires
        0 <= n <= usize::MAX,
    ensures
        offered_seats_where(window, responded, keep, n).contains(x) <==> (x < n && offered_seat(window, x as int)
            && !responded.contains(x) && keep(x as int)),
    decreases n,
{
    if n > 0 {
        lemma_offered_seats_member(window, responded, keep, n - 1, x);
        let prev = offered_seats_where(window, responded, keep, n - 1);
        let cur = offered_seats_where(window, responded, keep, n);
        let pushed = offered_seat(window, n - 1) && !responded.contains((n - 1) as usize) && keep(n - 1);
        if pushed {
            assert(cur == prev.push((n - 1) as usize));
            if cur.contains(x) {
                let j = choose|j: int| 0 <= j < cur.len() && cur[j] == x;
                if j < prev.len() {
                    assert(prev[j] == x);
                } else {
                    assert(x == n - 1);
                }
            }
            if prev.contains(x) {
                let j = choose|j: int| 0 <= j < prev.len() && prev[j] == x;
                assert(cur[j] == x);
            }
            if x == n - 1 {
                assert(cur[cur.len() - 1] == x);
            }
        } else {
            assert(cur == prev);
        }
    } else {
        assert(offered_seats_where(window, responded, keep, n) =~= Seq::<usize>::empty());
    }
}

/// When a seat claims a win on a discard, every other offered seat that has not answered
/// and may also win stays open to claim it, and every one that may not is answered for:
/// several players may win on one discard.
pub proof fn several_players_may_win_on_one_discard(
    claim: ClaimWindowAction,
    seat_index: usize,
    tile_ids: Seq<String>,
    plan: PlannedClaimWindowResponse,
    other: usize,
)
    requires
        planned_response(claim, seat_index, "hu"@, tile_ids, plan),
        claim_window_in_range(claim, seat_index),
        offered_seat(claim.claim_window@, seat_index as int),
        other != seat_index,
        offered_seat(claim.claim_window@, other as int),
        !claim.responded_seats@.contains(other),
    ensures
        !plan.unresolved_seats@.contains(seat_index),
        plan.unresolved_seats@.contains(other) <==> names_contain(claim.claim_window@[other as int]@, "hu"@),
{
    let window = claim.claim_window@;
    let n = window.len() as int;
    let responded0 = claim.responded_seats@.push(seat_index);
    let responses = responses_after(claim, seat_index, "hu"@, tile_ids);
    let d = claim.discarder_seat as int;
    assert("hu"@ != "pass"@) by {
        reveal_strlit("hu");
        reveal_strlit("pass");
        assert("hu"@.len() != "pass"@.len());
    }
    assert(responses == claim_keys(claim.claim_responses@).push((seat_index, "hu"@, tile_ids)));
    let last = responses[responses.len() - 1];
    let dist = claim_distance(last.0 as int, d);
    assert(hu_claims_at_distance(responses, d, dist, responses.len() as int).len() > 0);
    assert(spec_resolve_hu_claims(responses, d).len() > 0);
    let keep_auto = |s: int| !names_contain(window[s]@, "hu"@);
    let auto = offered_seats_where(window, responded0, keep_auto, n);
    assert(auto_responded(claim, seat_index, "hu"@, tile_ids) == auto);
    let responded = responded0 + auto;
    let keep_all = |s: int| true;
    lemma_offered_seats_member(window, responded, keep_all, n, seat_index);
    lemma_offered_seats_member(window, responded, keep_all, n, other);
    lemma_offered_seats_member(window, responded0, keep_auto, n, other);
    assert(responded0[responded0.len() - 1] == seat_index);
    assert(responded.contains(seat_index)) by {
        assert(responded[responded0.len() - 1] == seat_index);
    }
    assert(responded.contains(other) <==> (responded0.contains(other) || auto.contains(other))) by {
        if responded.contains(other) {
            let j = choose|j: int| 0 <= j < responded.len() && responded[j] == other;
            if j < responded0.len() {
                assert(responded0[j] == other);
            } else {
                assert(auto[j - responded0.len()] == other);
            }
        }
        if responded0.contains(other) {
            let j = choose|j: int| 0 <= j < responded0.len() && responded0[j] == other;
            assert(responded[j] == other);
        }
        if auto.contains(other) {
            let j = choose|j: int| 0 <= j < auto.len() && auto[j] == other;
            assert(responded[responded0.len() + j] == other);
        }
    }
    assert(!responded0.contains(other)) by {
        if responded0.contains(other) {
            let j = choose|j: int| 0 <= j < responded0.len() && responded0[j] == other;
            if j < claim.responded_seats@.len() {
                assert(claim.responded_seats@[j] == other);
            }
        }
    }
}

proof fn lemma_find_tile_first(tiles: Seq<Tile>, id: Seq<char>, from: int)
    requires
        0 <= from,
    ensures
        match find_tile_from(tiles, id, from) {
            Some(k) => from <= k < tiles.len() && tiles[k].tile_id@ == id && forall|j: int|
                from <= j < k ==> (#[trigger] tiles[j]).tile_id@ != id,
            None => forall|j: int| from <= j < tiles.len() ==> (#[trigger] tiles[j]).tile_id@ != id,
        },
    decreases tiles.len() - from,
{
    if from < tiles.len() {
        lemma_find_tile_first(tiles, id, from + 1);
    }
}

/// What a discard plan is built from, in plain terms: the tile discarded is the first of the
/// seat's concealed tiles with that id, there is none exactly when no concealed tile has the
/// id, and the tile drawn next is the one at the head of the wall while the head has not
/// passed the tail.
pub proof fn discarded_tile_and_next_draw(state: RoomState, seat: int, tile_id: Seq<char>)
    requires
        state.round_state is Some,
        0 <= seat < state.round_state->0.players@.len(),
    ensures
        ({
            let tiles = state.round_state->0.players@[seat].concealed_tiles@;
            match spec_held_tile(state, seat, tile_id) {
                Some(t) => exists|i: int|
                    0 <= i < tiles.len() && tiles[i] == t && t.tile_id@ == tile_id && forall|j: int|
                        0 <= j < i ==> (#[trigger] tiles[j]).tile_id@ != tile_id,
                None => forall|j: int| 0 <= j < tiles.len() ==> (#[trigger] tiles[j]).tile_id@ != tile_id,
            }
        }),
        ({
            let wall = state.round_state->0.wall;
            spec_peek_draw(state) == if wall.head_index <= wall.tail_index && wall.head_index < wall.tiles@.len() {
                Some(wall.tiles@[wall.head_index as int])
            } else {
                None
            }
        }),
{
    let tiles = state.round_state->0.players@[seat].concealed_tiles@;
    lemma_find_tile_first(tiles, tile_id, 0);
}

/// Whether request `a` beats request `b`: a higher priority, or the same priority and a seat
/// no further in turn from the discarder.
pub open spec fn claim_at_least_as_good(a: ClaimKey, b: ClaimKey, discarder_seat: int) -> bool {
    claim_priority(a.1) > claim_priority(b.1) || (claim_priority(a.1) == claim_priority(b.1) && claim_distance(
        a.0 as int,
        discarder_seat,
    ) <= claim_distance(b.0 as int, discarder_seat))
}

proof fn lemma_rank_order(a: ClaimKey, b: ClaimKey, discarder_seat: int)
    ensures
        claim_rank(a, discarder_seat) <= claim_rank(b, discarder_seat) <==> claim_at_least_as_good(a, b, discarder_seat),
        claim_rank(a, discarder_seat) < claim_rank(b, discarder_seat) <==> !claim_at_least_as_good(b, a, discarder_seat),
{
    let da = claim_distance(a.0 as int, discarder_seat);
    let db = claim_distance(b.0 as int, discarder_seat);
    assert(1 <= da <= 4 && 1 <= db <= 4);
    let pa = claim_priority(a.1);
    let pb = claim_priority(b.1);
    assert(0 <= pa <= 3 && 0 <= pb <= 3);
}

proof fn lemma_best_claim_index_is_first_best(requests: Seq<ClaimKey>, discarder_seat: int, n: int)
    requires
        0 <= n <= requests.len(),
    ensures
        best_claim_index(requests, discarder_seat, n) is None <==> forall|i: int|
            0 <= i < n ==> !claim_is_candidate(#[trigger] requests[i], discarder_seat),
        best_claim_index(requests, discarder_seat, n) matches Some(k) ==> {
            &&& 0 <= k < n
            &&& claim_is_candidate(requests[k], discarder_seat)
            &&& forall|i: int|
                0 <= i < n && claim_is_candidate(#[trigger] requests[i], discarder_seat) ==> claim_at_least_as_good(
                    requests[k],
                    requests[i],
                    discarder_seat,
                )
            &&& forall|i: int|
                0 <= i < k && claim_is_candidate(#[trigger] requests[i], discarder_seat) ==> !claim_at_least_as_good(
                    requests[i],
                    requests[k],
                    discarder_seat,
                )
        },
    decreases n,
{
    if n > 0 {
        lemma_best_claim_index_is_first_best(requests, discarder_seat, n - 1);
        let prev = best_claim_index(requests, discarder_seat, n - 1);
        let r = requests[n - 1];
        match prev {
            Some(p) => {
                lemma_rank_order(r, requests[p], discarder_seat);
                lemma_rank_order(requests[p], r, discarder_seat);
                assert forall|i: int| 0 <= i < n && claim_is_candidate(#[trigger] requests[i], discarder_seat) implies {
                    let k = best_claim_index(requests, discarder_seat, n)->0;
                    claim_at_least_as_good(requests[k], requests[i], discarder_seat)
                } by {
                    lemma_rank_order(requests[p], requests[i], discarder_seat);
                    lemma_rank_order(r, requests[i], discarder_seat);
                    lemma_rank_order(requests[i], requests[p], discarder_seat);
                }
                assert forall|i: int| {
                    let k = best_claim_index(requests, discarder_seat, n)->0;
                    0 <= i < k && claim_is_candidate(#[trigger] requests[i], discarder_seat)
                } implies {
                    let k = best_claim_index(requests, discarder_seat, n)->0;
                    !claim_at_least_as_good(requests[i], requests[k], discarder_seat)
                } by {
                    lemma_rank_order(requests[p], requests[i], discarder_seat);
                    lemma_rank_order(requests[i], requests[p], discarder_seat);
                    lemma_rank_order(requests[i], r, discarder_seat);
                    lemma_rank_order(r, requests[i], discarder_seat);
                }
            },
            None => {},
        }
    }
}

/// How claims resolve, in plain terms: nothing wins exactly when no request is a candidate;
/// otherwise the winner is a candidate that beats or ties every candidate, and the first in
/// request order that does, no earlier candidate being at least as good.
pub proof fn resolved_claim_is_the_first_best(requests: Seq<ClaimKey>, discarder_seat: int)
    ensures
        spec_resolve_claims(requests, discarder_seat) is None <==> forall|i: int|
            0 <= i < requests.len() ==> !claim_is_candidate(#[trigger] requests[i], discarder_seat),
        spec_resolve_claims(requests, discarder_seat) matches Some(w) ==> exists|k: int|
            {
                &&& 0 <= k < requests.len()
                &&& requests[k] == w
                &&& claim_is_candidate(w, discarder_seat)
                &&& forall|i: int|
                    0 <= i < requests.len() && claim_is_candidate(#[trigger] requests[i], discarder_seat)
                        ==> claim_at_least_as_good(w, requests[i], discarder_seat)
                &&& forall|i: int|
                    0 <= i < k && claim_is_candidate(#[trigger] requests[i], discarder_seat) ==> !claim_at_least_as_good(
                        requests[i],
                        w,
                        discarder_seat,
                    )
            },
{
    lemma_best_claim_index_is_first_best(requests, discarder_seat, requests.len() as int);
}

/// How many turns after the discarder `seat` plays: 1 to 3, and 4 for the discarder itself.
pub open spec fn turns_after_discarder(seat: int, discarder_seat: int) -> int {
    if (seat - discarder_seat) % 4 == 0 {
        4
    } else {
        (seat - discarder_seat) % 4
    }
}

/// Claim types outrank seat order: only chow, pung, kong and hu requests can win, a chow only
/// from the seat after the discarder; any hu beats every other claim and any pung or kong
/// beats every chow, whatever the seats; between claims of the same rank (pung and kong
/// rank alike) the winner is no further in turn from the discarder, and strictly nearer than
/// every earlier request of its rank. Nothing wins exactly when no request can.
pub proof fn claim_types_outrank_seat_order(requests: Seq<ClaimKey>, discarder_seat: int)
    ensures
        spec_resolve_claims(requests, discarder_seat) is None <==> forall|i: int|
            0 <= i < requests.len() ==> {
                let r = #[trigger] requests[i];
                !(r.1 == "hu"@ || r.1 == "kong"@ || r.1 == "pung"@ || r.1 == "chow"@) || (r.1 == "chow"@ && r.0
                    != (discarder_seat + 1) % 4)
            },
        spec_resolve_claims(requests, discarder_seat) matches Some(w) ==> {
            &&& w.1 == "hu"@ || w.1 == "kong"@ || w.1 == "pung"@ || w.1 == "chow"@
            &&& w.1 == "chow"@ ==> w.0 == (discarder_seat + 1) % 4
            &&& forall|i: int|
                0 <= i < requests.len() ==> {
                    let r = #[trigger] requests[i];
                    &&& r.1 == "hu"@ ==> w.1 == "hu"@
                    &&& (r.1 == "pung"@ || r.1 == "kong"@) ==> (w.1 == "hu"@ || w.1 == "pung"@ || w.1 == "kong"@)
                    &&& (r.1 == w.1 || ((w.1 == "pung"@ || w.1 == "kong"@) && (r.1 == "pung"@ || r.1 == "kong"@)))
                        && (r.1 == "chow"@ ==> r.0 == (discarder_seat + 1) % 4) ==> turns_after_discarder(
                        w.0 as int,
                        discarder_seat,
                    ) <= turns_after_discarder(r.0 as int, discarder_seat)
                }
            &&& exists|k: int|
                0 <= k < requests.len() && requests[k] == w && forall|i: int|
                    0 <= i < k ==> {
                        let r = #[trigger] requests[i];
                        (r.1 == w.1 || ((w.1 == "pung"@ || w.1 == "kong"@) && (r.1 == "pung"@ || r.1 == "kong"@)))
                            && (r.1 == "chow"@ ==> r.0 == (discarder_seat + 1) % 4) ==> turns_after_discarder(
                            w.0 as int,
                            discarder_seat,
                        ) < turns_after_discarder(r.0 as int, discarder_seat)
                    }
        },
{
    reveal_strlit("hu");
    reveal_strlit("kong");
    reveal_strlit("pung");
    reveal_strlit("chow");
    assert("hu"@.len() == 2);
    assert("kong"@[0] == 'k' && "pung"@[0] == 'p' && "chow"@[0] == 'c' && "chow"@.len() == 4);
    assert("kong"@ != "pung"@ && "kong"@ != "chow"@ && "pung"@ != "chow"@);
    assert("hu"@ != "kong"@ && "hu"@ != "pung"@ && "hu"@ != "chow"@);
    resolved_claim_is_the_first_best(requests, discarder_seat);
    assert forall|seat: int| #[trigger] claim_distance(seat, discarder_seat) == turns_after_discarder(seat, discarder_seat) by {
        assert((seat + 4 - discarder_seat) % 4 == (seat - discarder_seat) % 4);
    }
}

/// The hu requests among the first `n`, in request order.
pub open spec fn hu_requests(requests: Seq<ClaimKey>, n: int) -> Seq<ClaimKey>
    decreases n,
{
    if n <= 0 {
        Seq::empty()
    } else if requests[n - 1].1 == "hu"@ {
        hu_requests(requests, n - 1).push(requests[n - 1])
    } else {
        hu_requests(requests, n - 1)
    }
}

/// No request of `s` is further in turn from the discarder than a later one.
pub open spec fn sorted_by_distance(s: Seq<ClaimKey>, discarder_seat: int) -> bool {
    forall|i: int, j: int|
        0 <= i < j < s.len() ==> claim_distance((#[trigger] s[i]).0 as int, discarder_seat) <= claim_distance(
            (#[trigger] s[j]).0 as int,
            discarder_seat,
        )
}

proof fn lemma_bucket_shape(requests: Seq<ClaimKey>, discarder_seat: int, d: int, n: int)
    ensures
        forall|i: int|
            0 <= i < hu_claims_at_distance(requests, discarder_seat, d, n).len() ==> {
                let c = #[trigger] hu_claims_at_distance(requests, discarder_seat, d, n)[i];
                c.1 == "hu"@ && claim_distance(c.0 as int, discarder_seat) == d
            },
    decreases n,
{
    if n > 0 {
        lemma_bucket_shape(requests, discarder_seat, d, n - 1);
        let prev = hu_claims_at_distance(requests, discarder_seat, d, n - 1);
        let cur = hu_claims_at_distance(requests, discarder_seat, d, n);
        assert forall|i: int| 0 <= i < cur.len() implies {
            let c = #[trigger] cur[i];
            c.1 == "hu"@ && claim_distance(c.0 as int, discarder_seat) == d
        } by {
            if i < prev.len() {
                assert(cur[i] == prev[i]);
            }
        }
    }
}

proof fn lemma_buckets_multiset(requests: Seq<ClaimKey>, discarder_seat: int, n: int)
    ensures
        hu_claims_at_distance(requests, discarder_seat, 1, n).to_multiset().add(
            hu_claims_at_distance(requests, discarder_seat, 2, n).to_multiset(),
        ).add(hu_claims_at_distance(requests, discarder_seat, 3, n).to_multiset()).add(
            hu_claims_at_distance(requests, discarder_seat, 4, n).to_multiset(),
        ) == hu_requests(requests, n).to_multiset(),
    decreases n,
{
    broadcast use vstd::seq_lib::group_to_multiset_ensures;
    broadcast use vstd::multiset::group_multiset_axioms;

    if n <= 0 {
        assert(hu_requests(requests, n).to_multiset() =~= vstd::multiset::Multiset::empty());
        assert(hu_claims_at_distance(requests, discarder_seat, 1, n).to_multiset() =~= vstd::multiset::Multiset::empty());
        assert(hu_claims_at_distance(requests, discarder_seat, 2, n).to_multiset() =~= vstd::multiset::Multiset::empty());
        assert(hu_claims_at_distance(requests, discarder_seat, 3, n).to_multiset() =~= vstd::multiset::Multiset::empty());
        assert(hu_claims_at_distance(requests, discarder_seat, 4, n).to_multiset() =~= vstd::multiset::Multiset::empty());
    } else {
        lemma_buckets_multiset(requests, discarder_seat, n - 1);
        let r = requests[n - 1];
        let dist = claim_distance(r.0 as int, discarder_seat);
        assert(1 <= dist <= 4);
        let m1 = hu_claims_at_distance(requests, discarder_seat, 1, n - 1).to_multiset();
        let m2 = hu_claims_at_distance(requests, discarder_seat, 2, n - 1).to_multiset();
        let m3 = hu_claims_at_distance(requests, discarder_seat, 3, n - 1).to_multiset();
        let m4 = hu_claims_at_distance(requests, discarder_seat, 4, n - 1).to_multiset();
        let n1 = hu_claims_at_distance(requests, discarder_seat, 1, n).to_multiset();
        let n2 = hu_claims_at_distance(requests, discarder_seat, 2, n).to_multiset();
        let n3 = hu_claims_at_distance(requests, discarder_seat, 3, n).to_multiset();
        let n4 = hu_claims_at_distance(requests, discarder_seat, 4, n).to_multiset();
        if r.1 == "hu"@ {
            assert(n1 == if dist == 1 { m1.insert(r) } else { m1 });
            assert(n2 == if dist == 2 { m2.insert(r) } else { m2 });
            assert(n3 == if dist == 3 { m3.insert(r) } else { m3 });
            assert(n4 == if dist == 4 { m4.insert(r) } else { m4 });
            assert(n1.add(n2).add(n3).add(n4) =~= m1.add(m2).add(m3).add(m4).insert(r));
        } else {
            assert(n1 == m1 && n2 == m2 && n3 == m3 && n4 == m4);
        }
    }
}

proof fn lemma_sorted_concat(a: Seq<ClaimKey>, b: Seq<ClaimKey>, discarder_seat: int, k: int)
    requires
        sorted_by_distance(a, discarder_seat),
        sorted_by_distance(b, discarder_seat),
        forall|i: int| 0 <= i < a.len() ==> claim_distance((#[trigger] a[i]).0 as int, discarder_seat) <= k,
        forall|i: int| 0 <= i < b.len() ==> claim_distance((#[trigger] b[i]).0 as int, discarder_seat) >= k,
    ensures
        sorted_by_distance(a + b, discarder_seat),
{
    let s = a + b;
    assert forall|i: int, j: int| 0 <= i < j < s.len() implies claim_distance((#[trigger] s[i]).0 as int, discarder_seat)
        <= claim_distance((#[trigger] s[j]).0 as int, discarder_seat) by {
        if j < a.len() {
            assert(s[i] == a[i] && s[j] == a[j]);
        } else if i >= a.len() {
            assert(s[i] == b[i - a.len()] && s[j] == b[j - a.len()]);
        } else {
            assert(s[i] == a[i] && s[j] == b[j - a.len()]);
        }
    }
}

/// How hu claims resolve, in plain terms: every hu request and nothing else, as often as it was
/// made, nearest the discarder in turn first (request order among equals): several players may
/// win on one discard, and none of their claims is dropped.
pub proof fn resolved_hu_claims_are_every_hu_by_distance(requests: Seq<ClaimKey>, discarder_seat: int)
    ensures
        spec_resolve_hu_claims(requests, discarder_seat).to_multiset() == hu_requests(
            requests,
            requests.len() as int,
        ).to_multiset(),
        forall|i: int|
            0 <= i < spec_resolve_hu_claims(requests, discarder_seat).len() ==> (#[trigger] spec_resolve_hu_claims(
                requests,
                discarder_seat,
            )[i]).1 == "hu"@,
        sorted_by_distance(spec_resolve_hu_claims(requests, discarder_seat), discarder_seat),
{
    broadcast use vstd::seq_lib::lemma_multiset_commutative;

    let n = requests.len() as int;
    let b1 = hu_claims_at_distance(requests, discarder_seat, 1, n);
    let b2 = hu_claims_at_distance(requests, discarder_seat, 2, n);
    let b3 = hu_claims_at_distance(requests, discarder_seat, 3, n);
    let b4 = hu_claims_at_distance(requests, discarder_seat, 4, n);
    lemma_buckets_multiset(requests, discarder_seat, n);
    assert((b1 + b2 + b3 + b4).to_multiset() =~= b1.to_multiset().add(b2.to_multiset()).add(b3.to_multiset()).add(
        b4.to_multiset(),
    ));
    lemma_bucket_shape(requests, discarder_seat, 1, n);
    lemma_bucket_shape(requests, discarder_seat, 2, n);
    lemma_bucket_shape(requests, discarder_seat, 3, n);
    lemma_bucket_shape(requests, discarder_seat, 4, n);
    let s12 = b1 + b2;
    let s123 = s12 + b3;
    let all = s123 + b4;
    lemma_sorted_concat(b1, b2, discarder_seat, 1);
    assert forall|i: int| 0 <= i < s12.len() implies claim_distance((#[trigger] s12[i]).0 as int, discarder_seat) <= 2
        && s12[i].1 == "hu"@ by {
        if i < b1.len() {
            assert(s12[i] == b1[i]);
        } else {
            assert(s12[i] == b2[i - b1.len()]);
        }
    }
    lemma_sorted_concat(s12, b3, discarder_seat, 3);
    assert forall|i: int| 0 <= i < s123.len() implies claim_distance((#[trigger] s123[i]).0 as int, discarder_seat) <= 3
        && s123[i].1 == "hu"@ by {
        if i < s12.len() {
            assert(s123[i] == s12[i]);
        } else {
            assert(s123[i] == b3[i - s12.len()]);
        }
    }
    lemma_sorted_concat(s123, b4, discarder_seat, 4);
    assert forall|i: int| 0 <= i < all.len() implies (#[trigger] all[i]).1 == "hu"@ by {
        if i < s123.len() {
            assert(all[i] == s123[i]);
        } else {
            assert(all[i] == b4[i - s123.len()]);
        }
    }
}

} // verus!
