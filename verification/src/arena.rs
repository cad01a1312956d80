use vstd::prelude::*;

use crate::scan::{after_prefix, all_digits, digits_value, is_digit, parse_usize, parse_usize_chars, strip_prefix};
use crate::state::{default_minimum_hu_fan, PlayerRoundState, RoomState, SeatState};
use crate::text::{chars_of, digit, digit_char, owned, push_char, push_str, str_equal};

verus! {

/// A bot policy of the arena: its id, model, whether it samples its actions, and its
/// temperature and discard-risk weights, in thousandths.
#[derive(Clone, Debug, PartialEq, Eq)]
pub struct ArenaBotPolicyConfig {
    pub id: String,
    pub model_path: Option<String>,
    pub sample_actions: bool,
    pub temperature_milli: u32,
    pub discard_base_risk_weight_milli: u32,
    pub discard_value_risk_range_milli: u32,
    pub discard_min_risk_weight_milli: u32,
    pub discard_max_risk_weight_milli: u32,
}

/// What one seat did over an arena match.
#[derive(Clone, Debug, Default, PartialEq, Eq)]
pub struct ArenaSeatMetrics {
    pub seat_index: usize,
    pub policy_id: String,
    pub score_delta: i64,
    pub wins: u64,
    pub dealt_in: u64,
    pub first_tenpai_turn: Option<u64>,
    pub final_tenpai: bool,
    pub claim_count: u64,
    pub discard_count: u64,
    pub decision_count: u64,
    pub decision_latency_ms_sum: u128,
    pub model_loaded: bool,
    pub neural_action_count: u64,
}

/// The report of one arena match.
#[derive(Clone, Debug, PartialEq, Eq)]
pub struct ArenaMatchReport {
    pub match_index: usize,
    pub seed: u64,
    pub completed: bool,
    pub action_count: usize,
    pub subject_id: Option<String>,
    pub subject_display_name: Option<String>,
    pub subject_initial_seat: Option<usize>,
    pub subject_final_score: Option<i64>,
    pub subject_deal_in_count: Option<u64>,
    pub subject_win_count: Option<u64>,
    pub seats: Vec<ArenaSeatMetrics>,
}

/// What a policy reported of one decision: whether its model was loaded and whether the
/// action came from the model.
#[derive(Clone, Copy, Debug, PartialEq, Eq)]
pub struct BotPolicyDecisionTelemetry {
    pub model_loaded: bool,
    pub used_neural_action: bool,
}

/// The metrics of each of the four seats over a match in progress.
#[derive(Clone, Debug, Default)]
pub struct ArenaMatchAccumulator {
    pub seats: Vec<ArenaSeatMetrics>,
}

/// The policy id that a seat without a configured policy reports: `seat-` and its index.
pub open spec fn default_policy_id(seat_index: int) -> Seq<char> {
    "seat-"@.push(digit_char(seat_index))
}

/// Metrics of `seat_index` under `policy_id` before anything was recorded.
pub open spec fn fresh_metrics(m: ArenaSeatMetrics, seat_index: int, policy_id: Seq<char>) -> bool {
    &&& m.seat_index == seat_index
    &&& m.policy_id@ == policy_id
    &&& m.score_delta == 0
    &&& m.wins == 0
    &&& m.dealt_in == 0
    &&& m.first_tenpai_turn is None
    &&& !m.final_tenpai
    &&& m.claim_count == 0
    &&& m.discard_count == 0
    &&& m.decision_count == 0
    &&& m.decision_latency_ms_sum == 0
    &&& !m.model_loaded
    &&& m.neural_action_count == 0
}

/// Whether an action type is a claim that the metrics count: a chow, a pung or a kong.
pub open spec fn counts_as_claim(action_type: Seq<char>) -> bool {
    action_type == "chow"@ || action_type == "pung"@ || action_type == "kong"@
}

/// The metrics after one more decision of `action_type` that took `latency_ms`.
pub open spec fn recorded_decision(
    m: ArenaSeatMetrics,
    action_type: Seq<char>,
    latency_ms: u128,
    telemetry: Option<BotPolicyDecisionTelemetry>,
) -> ArenaSeatMetrics {
    ArenaSeatMetrics {
        decision_count: (m.decision_count + 1) as u64,
        decision_latency_ms_sum: (m.decision_latency_ms_sum + latency_ms) as u128,
        discard_count: if action_type == "discard"@ {
            (m.discard_count + 1) as u64
        } else {
            m.discard_count
        },
        claim_count: if action_type == "discard"@ {
            m.claim_count
        } else if counts_as_claim(action_type) {
            (m.claim_count + 1) as u64
        } else {
            m.claim_count
        },
        model_loaded: match telemetry {
            Some(t) => m.model_loaded || t.model_loaded,
            None => m.model_loaded,
        },
        neural_action_count: match telemetry {
            Some(t) => if t.used_neural_action {
                (m.neural_action_count + 1) as u64
            } else {
                m.neural_action_count
            },
            None => m.neural_action_count,
        },
        ..m
    }
}

/// Whether one more decision fits in every counter of `m`.
pub open spec fn can_record(m: ArenaSeatMetrics, latency_ms: u128) -> bool {
    &&& m.decision_count < u64::MAX
    &&& m.decision_latency_ms_sum + latency_ms <= u128::MAX
    &&& m.discard_count < u64::MAX
    &&& m.claim_count < u64::MAX
    &&& m.neural_action_count < u64::MAX
}

pub open spec fn telemetry_value(telemetry: Option<&BotPolicyDecisionTelemetry>) -> Option<
    BotPolicyDecisionTelemetry,
> {
    match telemetry {
        Some(t) => Some(*t),
        None => None,
    }
}

fn seat_digit(seat_index: usize) -> (c: char)
    requires
        seat_index < 4,
    ensures
        c == digit_char(seat_index as int),
{
    digit(seat_index as u8)
}

impl ArenaMatchAccumulator {
    /// Metrics for the four seats, each under the id of its configured policy, or
    /// `seat-N` where none is configured.
    pub fn new_with_policies(policies_by_seat: &[ArenaBotPolicyConfig]) -> (r: Self)
        ensures
            r.seats@.len() == 4,
            forall|i: int|
                0 <= i < 4 ==> fresh_metrics(
                    #[trigger] r.seats@[i],
                    i,
                    if i < policies_by_seat@.len() {
                        policies_by_seat@[i].id@
                    } else {
                        default_policy_id(i)
                    },
                ),
    {
        let mut seats: Vec<ArenaSeatMetrics> = Vec::new();
        let mut seat_index: usize = 0;
        while seat_index < 4
            invariant
                seat_index <= 4,
                seats@.len() == seat_index,
                forall|i: int|
                    0 <= i < seat_index ==> fresh_metrics(
                        #[trigger] seats@[i],
                        i,
                        if i < policies_by_seat@.len() {
                            policies_by_seat@[i].id@
                        } else {
                            default_policy_id(i)
                        },
                    ),
            decreases 4 - seat_index,
        {
            let policy_id = if seat_index < policies_by_seat.len() {
                policies_by_seat[seat_index].id.clone()
            } else {
                let mut id = owned("seat-");
                push_char(&mut id, seat_digit(seat_index));
                id
            };
            seats.push(
                ArenaSeatMetrics {
                    seat_index,
                    policy_id,
                    score_delta: 0,
                    wins: 0,
                    dealt_in: 0,
                    first_tenpai_turn: None,
                    final_tenpai: false,
                    claim_count: 0,
                    discard_count: 0,
                    decision_count: 0,
                    decision_latency_ms_sum: 0,
                    model_loaded: false,
                    neural_action_count: 0,
                },
            );
            seat_index += 1;
        }
        ArenaMatchAccumulator { seats }
    }

    /// Counts one decision of the seat: its latency, a discard or a claim, and what the
    /// policy reported; a seat past the last is ignored.
    pub fn record_decision(
        &mut self,
        seat_index: usize,
        action_type: &str,
        latency_ms: u128,
        telemetry: Option<&BotPolicyDecisionTelemetry>,
    )
        requires
            seat_index < old(self).seats@.len() ==> can_record(old(self).seats@[seat_index as int], latency_ms),
        ensures
            final(self).seats@ == (if seat_index < old(self).seats@.len() {
                old(self).seats@.update(
                    seat_index as int,
                    recorded_decision(
                        old(self).seats@[seat_index as int],
                        action_type@,
                        latency_ms,
                        telemetry_value(telemetry),
                    ),
                )
            } else {
                old(self).seats@
            }),
    {
        if seat_index < self.seats.len() {
            let is_discard = str_equal(action_type, "discard");
            let is_claim = str_equal(action_type, "chow") || str_equal(action_type, "pung")
                || str_equal(action_type, "kong");
            let metrics = &mut self.seats[seat_index];
            metrics.decision_count = metrics.decision_count + 1;
            metrics.decision_latency_ms_sum = metrics.decision_latency_ms_sum + latency_ms;
            if is_discard {
                metrics.discard_count = metrics.discard_count + 1;
            } else if is_claim {
                metrics.claim_count = metrics.claim_count + 1;
            }
            match telemetry {
                Some(t) => {
                    metrics.model_loaded = metrics.model_loaded || t.model_loaded;
                    if t.used_neural_action {
                        metrics.neural_action_count = metrics.neural_action_count + 1;
                    }
                },
                None => {},
            }
        }
    }
}

/// The name of arena bot `n`: `Arena Bot ` and its index.
pub open spec fn arena_bot_name(n: int) -> Seq<char> {
    "Arena Bot "@.push(digit_char(n))
}

/// Index of the first seat at or after `from` whose seat index is `seat_index`.
pub open spec fn seat_with_index_from(seats: Seq<SeatState>, seat_index: usize, from: int) -> Option<int>
    decreases seats.len() - from,
{
    if from < 0 || from >= seats.len() {
        None
    } else if seats[from].seat_index == seat_index {
        Some(from)
    } else {
        seat_with_index_from(seats, seat_index, from + 1)
    }
}

/// The arena bot that a nickname names, where it is `Arena Bot N` with `N` below four.
pub open spec fn bot_of_nickname(nickname: Seq<char>) -> Option<usize> {
    match strip_prefix(nickname, "Arena Bot "@) {
        Some(rest) => match parse_usize(rest) {
            Some(n) => if n < 4 {
                Some(n)
            } else {
                None
            },
            None => None,
        },
        None => None,
    }
}

/// The arena bot sitting at `seat_index`: the one its nickname names, else the seat itself.
pub open spec fn identity_index(seats: Seq<SeatState>, seat_index: usize) -> usize {
    match seat_with_index_from(seats, seat_index, 0) {
        Some(k) => match seats[k].nickname {
            Some(nickname) => match bot_of_nickname(nickname@) {
                Some(n) => n,
                None => seat_index,
            },
            None => seat_index,
        },
        None => seat_index,
    }
}

proof fn lemma_seat_with_index_from(seats: Seq<SeatState>, seat_index: usize, from: int, k: int)
    requires
        0 <= from <= k <= seats.len(),
        forall|j: int| from <= j < k ==> (#[trigger] seats[j]).seat_index != seat_index,
    ensures
        k == seats.len() ==> seat_with_index_from(seats, seat_index, from) is None,
        k < seats.len() && seats[k].seat_index == seat_index ==> seat_with_index_from(seats, seat_index, from)
            == Some(k),
    decreases k - from,
{
    if from < k {
        lemma_seat_with_index_from(seats, seat_index, from + 1, k);
    }
}

fn bot_of_nickname_exec(nickname: &String) -> (r: Option<usize>)
    ensures
        r == bot_of_nickname(nickname@),
{
    let cs = chars_of(nickname.as_str());
    match after_prefix(&cs, "Arena Bot ") {
        Some(rest) => match parse_usize_chars(&rest) {
            Some(n) => if n < 4 {
                Some(n)
            } else {
                None
            },
            None => None,
        },
        None => None,
    }
}

/// The arena bot that sits at a seat of the room: the index in its `Arena Bot N` nickname,
/// else the seat index.
pub fn arena_identity_index_for_seat(room: &RoomState, seat_index: usize) -> (r: usize)
    ensures
        r == identity_index(room.seats@, seat_index),
{
    let seats = &room.seats;
    let mut k: usize = 0;
    while k < seats.len()
        invariant
            seats@ == room.seats@,
            k <= seats@.len(),
            forall|j: int| 0 <= j < k ==> (#[trigger] seats@[j]).seat_index != seat_index,
        decreases seats@.len() - k,
    {
        if seats[k].seat_index == seat_index {
            proof {
                lemma_seat_with_index_from(seats@, seat_index, 0, k as int);
            }
            return match &seats[k].nickname {
                Some(nickname) => match bot_of_nickname_exec(nickname) {
                    Some(n) => n,
                    None => seat_index,
                },
                None => seat_index,
            };
        }
        k += 1;
    }
    proof {
        lemma_seat_with_index_from(seats@, seat_index, 0, k as int);
    }
    seat_index
}

/// Counts a decision for the arena bot sitting at `seat_index`.
pub fn record_evaluation_decision(
    accumulator: &mut ArenaMatchAccumulator,
    room: &RoomState,
    seat_index: usize,
    action_type: &str,
    latency_ms: u128,
    telemetry: Option<&BotPolicyDecisionTelemetry>,
)
    requires
        identity_index(room.seats@, seat_index) < old(accumulator).seats@.len() ==> can_record(
            old(accumulator).seats@[identity_index(room.seats@, seat_index) as int],
            latency_ms,
        ),
    ensures
        ({
            let id = identity_index(room.seats@, seat_index);
            final(accumulator).seats@ == (if id < old(accumulator).seats@.len() {
                old(accumulator).seats@.update(
                    id as int,
                    recorded_decision(
                        old(accumulator).seats@[id as int],
                        action_type@,
                        latency_ms,
                        telemetry_value(telemetry),
                    ),
                )
            } else {
                old(accumulator).seats@
            })
        }),
{
    let identity = arena_identity_index_for_seat(room, seat_index);
    accumulator.record_decision(identity, action_type, latency_ms, telemetry);
}

/// Seat `i` of an arena room: bot `Arena Bot i`, connected, with no user.
pub open spec fn is_arena_seat(seat: SeatState, i: int) -> bool {
    &&& seat.seat_index == i
    &&& seat.user_id is None
    &&& seat.nickname matches Some(n) && n@ == arena_bot_name(i)
    &&& seat.points is None
    &&& seat.title is None
    &&& seat.connected
    &&& seat.is_bot
    &&& seat.seat_type@ == "bot"@
    &&& seat.bot_persona is None
    &&& seat.bot_aggression is None
    &&& seat.disconnect_deadline_at is None
    &&& seat.consecutive_timeout_auto_response_count == 0
}

/// A waiting arena table: normal mode, no owner, multiplier one, the default minimum fan,
/// ready hands on, dealer rules off, and four connected bots `Arena Bot 0` to `Arena Bot 3`.
pub fn arena_room(table_code: &str) -> (r: RoomState)
    ensures
        r.table_code@ == table_code@,
        r.phase@ == "waiting"@,
        r.mode@ == "normal"@,
        r.owner_user_id is None,
        r.multiplier == 1,
        r.minimum_hu_fan == 8,
        !r.dealer_repeat_enabled,
        !r.dealer_double_enabled,
        !r.player_multiplier_selection_enabled,
        r.ready_hand_enabled,
        r.seats@.len() == 4,
        forall|i: int| 0 <= i < 4 ==> is_arena_seat(#[trigger] r.seats@[i], i),
        r.match_state is None,
        r.round_state is None,
        r.pending_timeout is None,
        r.continue_action is None,
{
    let mut seats: Vec<SeatState> = Vec::new();
    let mut seat_index: usize = 0;
    while seat_index < 4
        invariant
            seat_index <= 4,
            seats@.len() == seat_index,
            forall|i: int| 0 <= i < seat_index ==> is_arena_seat(#[trigger] seats@[i], i),
        decreases 4 - seat_index,
    {
        let mut nickname = owned("Arena Bot ");
        push_char(&mut nickname, seat_digit(seat_index));
        seats.push(
            SeatState {
                seat_index,
                user_id: None,
                nickname: Some(nickname),
                points: None,
                title: None,
                connected: true,
                is_bot: true,
                seat_type: owned("bot"),
                bot_persona: None,
                bot_aggression: None,
                disconnect_deadline_at: None,
                consecutive_timeout_auto_response_count: 0,
            },
        );
        seat_index += 1;
    }
    RoomState {
        table_code: owned(table_code),
        phase: owned("waiting"),
        mode: owned("normal"),
        owner_user_id: None,
        multiplier: 1,
        minimum_hu_fan: default_minimum_hu_fan(),
        dealer_repeat_enabled: false,
        dealer_double_enabled: false,
        player_multiplier_selection_enabled: false,
        ready_hand_enabled: true,
        seats,
        match_state: None,
        round_state: None,
        pending_timeout: None,
        continue_action: None,
    }
}

/// How a trajectory row names an action: `discard:K` for a discard, `claim:chow:K`,
/// `claim:pung:K` or `claim:kong:K` for a claim on tile `K`, else the action type.
pub open spec fn spec_action_semantic(action_type: Seq<char>, tile_key: Option<Seq<char>>) -> Seq<char> {
    match tile_key {
        Some(k) => if action_type == "discard"@ {
            "discard:"@ + k
        } else if action_type == "chow"@ {
            "claim:chow:"@ + k
        } else if action_type == "pung"@ {
            "claim:pung:"@ + k
        } else if action_type == "kong"@ {
            "claim:kong:"@ + k
        } else {
            action_type
        },
        None => action_type,
    }
}

pub open spec fn opt_str_view(s: Option<&str>) -> Option<Seq<char>> {
    match s {
        Some(k) => Some(k@),
        None => None,
    }
}

/// How a trajectory row names an action.
pub fn action_semantic(action_type: &str, tile_key: Option<&str>) -> (r: String)
    ensures
        r@ == spec_action_semantic(action_type@, opt_str_view(tile_key)),
{
    match tile_key {
        Some(k) => {
            let prefix = if str_equal(action_type, "discard") {
                "discard:"
            } else if str_equal(action_type, "chow") {
                "claim:chow:"
            } else if str_equal(action_type, "pung") {
                "claim:pung:"
            } else if str_equal(action_type, "kong") {
                "claim:kong:"
            } else {
                return owned(action_type);
            };
            let mut r = owned(prefix);
            push_str(&mut r, k);
            r
        },
        None => owned(action_type),
    }
}

/// A bot in an arena room is the bot that its seat names: the identity of each seat of
/// `arena_room` is its own index.
pub proof fn arena_room_identity_is_seat(room: RoomState, i: usize)
    requires
        room.seats@.len() == 4,
        forall|k: int| 0 <= k < 4 ==> is_arena_seat(#[trigger] room.seats@[k], k),
        i < 4,
    ensures
        identity_index(room.seats@, i) == i,
{
    let seats = room.seats@;
    assert forall|j: int| 0 <= j < i implies (#[trigger] seats[j]).seat_index != i by {
        assert(is_arena_seat(seats[j], j));
    }
    assert(is_arena_seat(seats[i as int], i as int));
    lemma_seat_with_index_from(seats, i, 0, i as int);
    let n = seats[i as int].nickname.unwrap()@;
    reveal_strlit("Arena Bot ");
    let p = "Arena Bot "@;
    assert(n.take(p.len() as int) =~= p);
    assert(n.skip(p.len() as int) =~= seq![digit_char(i as int)]);
    let d = seq![digit_char(i as int)];
    assert(d.drop_last() =~= Seq::<char>::empty());
    assert(is_digit(d[0]));
    assert(all_digits(d));
    assert(digits_value(d.drop_last()) == 0);
    assert(d.last() as u32 == 48 + i) by {
        if i == 0 {
        } else if i == 1 {
        } else if i == 2 {
        } else {
        }
    }
    assert(digits_value(d) == i as int);
}

/// A seat's metrics once its hand has been judged ready or not: that judgement as the final
/// readiness, and, where no ready turn was recorded and the hand is ready, the turn one past
/// its discards as the first.
pub open spec fn with_tenpai(m: ArenaSeatMetrics, tenpai: bool) -> ArenaSeatMetrics {
    ArenaSeatMetrics {
        final_tenpai: tenpai,
        first_tenpai_turn: if tenpai && m.first_tenpai_turn is None {
            Some((m.discard_count + 1) as u64)
        } else {
            m.first_tenpai_turn
        },
        ..m
    }
}

/// The metrics after the first `n` judgements, the `i`-th applied to the metrics at
/// `targets[i]` where there are such.
pub open spec fn tenpai_applied(
    seats: Seq<ArenaSeatMetrics>,
    targets: Seq<usize>,
    tenpai: Seq<bool>,
    n: int,
) -> Seq<ArenaSeatMetrics>
    decreases n,
{
    if n <= 0 {
        seats
    } else {
        let prev = tenpai_applied(seats, targets, tenpai, n - 1);
        let t = targets[n - 1];
        if t < prev.len() {
            prev.update(t as int, with_tenpai(prev[t as int], tenpai[n - 1]))
        } else {
            prev
        }
    }
}

/// The seats of a round's players, in their order.
pub open spec fn player_seats(room: RoomState) -> Seq<usize> {
    match room.round_state {
        Some(round) => round.players@.map_values(|p: PlayerRoundState| p.seat),
        None => Seq::empty(),
    }
}

/// The identities of a round's players, in their order.
pub open spec fn player_identities(room: RoomState) -> Seq<usize> {
    player_seats(room).map_values(|s: usize| identity_index(room.seats@, s))
}

proof fn lemma_tenpai_applied_shape(seats: Seq<ArenaSeatMetrics>, targets: Seq<usize>, tenpai: Seq<bool>, n: int)
    requires
        0 <= n,
    ensures
        tenpai_applied(seats, targets, tenpai, n).len() == seats.len(),
        forall|k: int|
            0 <= k < seats.len() ==> #[trigger] tenpai_applied(seats, targets, tenpai, n)[k].discard_count
                == seats[k].discard_count,
    decreases n,
{
    if n > 0 {
        lemma_tenpai_applied_shape(seats, targets, tenpai, n - 1);
    }
}

/// Applies readiness judgements to the metrics at the given places, one after another.
fn apply_tenpai(seats: &mut Vec<ArenaSeatMetrics>, targets: &Vec<usize>, tenpai: &Vec<bool>)
    requires
        targets@.len() == tenpai@.len(),
        forall|k: int| 0 <= k < old(seats)@.len() ==> #[trigger] old(seats)@[k].discard_count < u64::MAX,
    ensures
        final(seats)@ == tenpai_applied(old(seats)@, targets@, tenpai@, targets@.len() as int),
{
    let ghost start = seats@;
    let mut i: usize = 0;
    while i < targets.len()
        invariant
            targets@.len() == tenpai@.len(),
            i <= targets@.len(),
            seats@ == tenpai_applied(start, targets@, tenpai@, i as int),
            forall|k: int| 0 <= k < start.len() ==> #[trigger] start[k].discard_count < u64::MAX,
        decreases targets@.len() - i,
    {
        proof {
            lemma_tenpai_applied_shape(start, targets@, tenpai@, i as int);
        }
        let t = targets[i];
        if t < seats.len() {
            let ready = tenpai[i];
            let metrics = &mut seats[t];
            metrics.final_tenpai = ready;
            if ready && metrics.first_tenpai_turn.is_none() {
                metrics.first_tenpai_turn = Some(metrics.discard_count + 1);
            }
        }
        i += 1;
    }
}

impl ArenaMatchAccumulator {
    /// Records, for each player of the room's round, whether its hand is ready: the judgement
    /// `tenpai_by_player[i]` goes to the metrics of the seat of the `i`-th player.
    pub fn record_tenpai_metrics(&mut self, room: &RoomState, tenpai_by_player: &Vec<bool>)
        requires
            tenpai_by_player@.len() == player_seats(*room).len(),
            forall|k: int| 0 <= k < old(self).seats@.len() ==> #[trigger] old(self).seats@[k].discard_count < u64::MAX,
        ensures
            final(self).seats@ == tenpai_applied(
                old(self).seats@,
                player_seats(*room),
                tenpai_by_player@,
                player_seats(*room).len() as int,
            ),
    {
        match &room.round_state {
            Some(round) => {
                let mut targets: Vec<usize> = Vec::new();
                let mut i: usize = 0;
                while i < round.players.len()
                    invariant
                        i <= round.players@.len(),
                        targets@ == round.players@.take(i as int).map_values(|p: PlayerRoundState| p.seat),
                    decreases round.players@.len() - i,
                {
                    targets.push(round.players[i].seat);
                    assert(round.players@.take(i + 1).map_values(|p: PlayerRoundState| p.seat) =~= round.players@.take(
                        i as int,
                    ).map_values(|p: PlayerRoundState| p.seat).push(round.players@[i as int].seat));
                    i += 1;
                }
                assert(round.players@.take(i as int) =~= round.players@);
                apply_tenpai(&mut self.seats, &targets, tenpai_by_player);
            },
            None => {
                assert(tenpai_applied(self.seats@, player_seats(*room), tenpai_by_player@, 0) == self.seats@);
            },
        }
    }
}

/// Records, for each player of the room's round, whether its hand is ready, on the metrics of
/// the player's arena identity.
pub fn record_evaluation_tenpai_metrics(
    accumulator: &mut ArenaMatchAccumulator,
    room: &RoomState,
    tenpai_by_player: &Vec<bool>,
)
    requires
        tenpai_by_player@.len() == player_seats(*room).len(),
        forall|k: int|
            0 <= k < old(accumulator).seats@.len() ==> #[trigger] old(accumulator).seats@[k].discard_count < u64::MAX,
    ensures
        final(accumulator).seats@ == tenpai_applied(
            old(accumulator).seats@,
            player_identities(*room),
            tenpai_by_player@,
            player_identities(*room).len() as int,
        ),
{
    match &room.round_state {
        Some(round) => {
            let ghost seats = player_seats(*room);
            let mut targets: Vec<usize> = Vec::new();
            let mut i: usize = 0;
            while i < round.players.len()
                invariant
                    i <= round.players@.len(),
                    seats == round.players@.map_values(|p: PlayerRoundState| p.seat),
                    targets@ == seats.take(i as int).map_values(|s: usize| identity_index(room.seats@, s)),
                decreases round.players@.len() - i,
            {
                let identity = arena_identity_index_for_seat(room, round.players[i].seat);
                targets.push(identity);
                assert(seats.take(i + 1).map_values(|s: usize| identity_index(room.seats@, s)) =~= seats.take(
                    i as int,
                ).map_values(|s: usize| identity_index(room.seats@, s)).push(identity));
                i += 1;
            }
            assert(seats.take(i as int) =~= seats);
            apply_tenpai(&mut accumulator.seats, &targets, tenpai_by_player);
        },
        None => {},
    }
}

} // verus!
