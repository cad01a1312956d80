use std::collections::BTreeMap;

use vstd::prelude::*;
use vstd::std_specs::iter::IteratorSpec;

use crate::tile::Tile;

verus! {

/// The live wall: tiles are drawn from `head_index` forward and replacement
/// tiles from `tail_index` backward.
#[derive(Debug, Clone, PartialEq, Eq, Default)]
pub struct WallState {
    pub tiles: Vec<Tile>,
    pub head_index: usize,
    pub tail_index: usize,
}

impl WallState {
    /// Live tiles between head and tail, both ends included; none once the head passes the tail.
    pub fn live_tiles_remaining(&self) -> (r: usize)
        requires
            self.tail_index - self.head_index + 1 <= usize::MAX,
        ensures
            r == (if self.tail_index >= self.head_index {
                self.tail_index - self.head_index + 1
            } else {
                0
            }),
    {
        if self.tail_index >= self.head_index {
            self.tail_index - self.head_index + 1
        } else {
            0
        }
    }
}

/// A seat's connection and identity at the table.
#[derive(Debug, Clone, PartialEq, Eq, Default)]
pub struct SeatState {
    pub seat_index: usize,
    pub user_id: Option<i64>,
    pub nickname: Option<String>,
    pub points: Option<i64>,
    pub title: Option<String>,
    pub connected: bool,
    pub is_bot: bool,
    pub seat_type: String,
    pub bot_persona: Option<String>,
    pub bot_aggression: Option<i64>,
    pub disconnect_deadline_at: Option<String>,
    pub consecutive_timeout_auto_response_count: u32,
}

/// A player's tiles during a round.
#[derive(Debug, Clone, PartialEq, Eq, Default)]
pub struct PlayerRoundState {
    pub seat: usize,
    pub is_ready_hand: bool,
    pub concealed_tiles: Vec<Tile>,
    pub melds: Vec<Vec<String>>,
    pub display_melds: Vec<DisplayMeldState>,
    pub flowers: Vec<Tile>,
    pub discards: Vec<Tile>,
}

/// How a tile of an exposed meld is drawn.
#[derive(Debug, Clone, PartialEq, Eq)]
pub enum DisplayMeldOrientation {
    Normal,
    Rotated,
    UpsideDown,
    FaceDown,
}

/// One tile of an exposed meld as shown to players.
#[derive(Debug, Clone, PartialEq, Eq)]
pub struct DisplayMeldTileState {
    pub code: String,
    pub orientation: DisplayMeldOrientation,
}

/// An exposed meld as shown to players.
#[derive(Debug, Clone, PartialEq, Eq, Default)]
pub struct DisplayMeldState {
    pub tiles: Vec<DisplayMeldTileState>,
}

/// The deadline that a room waits on.
#[derive(Debug, Clone, PartialEq, Eq, Default)]
pub struct PendingTimeout {
    pub kind: String,
    pub seat_index: usize,
    pub extra_time_seat: Option<usize>,
    pub deadline_at: Option<String>,
    pub drawn_tile_id: Option<String>,
    pub extended_with_extra: bool,
}

/// Confirmations collected before the next round starts.
#[derive(Debug, Clone, PartialEq, Eq, Default)]
pub struct ContinueActionState {
    pub action_id: String,
    pub confirmed_seats: Vec<usize>,
    pub required_seats: Vec<usize>,
    pub online_seats: Vec<usize>,
    pub auto_advance_deadline_at: Option<String>,
}

/// What happened last in the round.
#[derive(Debug, Clone, PartialEq, Eq, Default)]
pub struct LastActionContext {
    pub kind: String,
    pub seat: usize,
    pub tile_id: Option<String>,
    pub from_kong_replacement: bool,
    pub was_last_live_tile: bool,
    pub was_last_discard: bool,
}

/// A window in which other seats may answer an action.
#[derive(Debug, Clone, PartialEq, Eq)]
pub enum PendingAction {
    ClaimWindow(ClaimWindowAction),
    RobKongWindow(RobKongWindowAction),
    PlayerMultiplierSelection(PlayerMultiplierSelectionAction),
}

/// The claims that each seat may make on a discard (`claim_window[seat]`), and the answers so far.
#[derive(Debug, Clone, PartialEq, Eq, Default)]
pub struct ClaimWindowAction {
    pub discarder_seat: usize,
    pub claim_window: Vec<Vec<String>>,
    pub responded_seats: Vec<usize>,
    pub claim_responses: Vec<ClaimResponse>,
}

/// The seats that may rob an added kong, and the answers so far.
#[derive(Debug, Clone, PartialEq, Eq, Default)]
pub struct RobKongWindowAction {
    pub actor_seat: usize,
    pub tile_id: Option<String>,
    pub tile_key: Option<String>,
    pub meld_index: Option<usize>,
    pub offered_hu_seats: Vec<usize>,
    pub responded_seats: Vec<usize>,
    pub claim_responses: Vec<ClaimResponse>,
}

/// Multipliers chosen by the players before a match.
#[derive(Debug, Clone, PartialEq, Eq, Default)]
pub struct PlayerMultiplierSelectionAction {
    pub responded_seats: Vec<usize>,
    pub selected_multipliers: BTreeMap<usize, i64>,
}

/// One seat's answer to a claim window.
#[derive(Debug, Clone, PartialEq, Eq, Default)]
pub struct ClaimResponse {
    pub seat: usize,
    pub action_type: String,
    pub tiles: Vec<String>,
}

/// Kongs declared in the round, for kong scoring.
#[derive(Debug, Clone, PartialEq, Eq, Default)]
pub struct RoundScoreTrackers {
    pub kong_entries: Vec<KongTrackerEntry>,
}

/// One declared kong: its kind (`exposed_kong`, `concealed_kong`, `add_kong`), who made it, and who pays.
#[derive(Debug, Clone, PartialEq, Eq, Default)]
pub struct KongTrackerEntry {
    pub kong_type: String,
    pub actor_seat: usize,
    pub payer_seats: Vec<usize>,
    pub tile_key: Option<String>,
}

/// Rule switches in force during the round.
#[derive(Debug, Clone, PartialEq, Eq, Default)]
pub struct RuleRuntimeState {
    pub enforce_minimum_eight_fan: bool,
}

/// A round in progress.
#[derive(Debug, Clone, PartialEq, Eq, Default)]
pub struct RoundState {
    pub round_id: String,
    pub dealer_seat: usize,
    pub round_wind: String,
    pub current_actor: usize,
    pub phase: String,
    pub wall: WallState,
    pub players: Vec<PlayerRoundState>,
    pub last_discard: Option<Tile>,
    pub pending_action: Option<PendingAction>,
    pub settlement: Option<RoundSettlement>,
    pub version: u64,
    pub score_trackers: RoundScoreTrackers,
    pub last_action_context: LastActionContext,
    pub rule_state: RuleRuntimeState,
    pub restricted_discard_tile_key: Option<String>,
}

/// The result of a round: who won how, the fans, and each seat's score change.
#[derive(Debug, Clone, PartialEq, Eq, Default)]
pub struct RoundSettlement {
    pub provisional: bool,
    pub win_type: String,
    pub winner_seat: Option<usize>,
    pub discarder_seat: Option<usize>,
    pub display_win_label: Option<String>,
    pub fan_total: i64,
    pub fan_keys: Vec<String>,
    pub fan_breakdown: Vec<SettlementFanBreakdownEntry>,
    pub score_delta: SettlementScoreDelta,
    pub flower_count: usize,
    pub draw_type: Option<String>,
    pub kong_score_detail: Vec<SettlementKongScoreDetailEntry>,
}

/// One fan of a settlement and its value.
#[derive(Debug, Clone, PartialEq, Eq, Default)]
pub struct SettlementFanBreakdownEntry {
    pub fan_key: String,
    pub fan_value: i64,
}

/// Score changes of a settlement, by seat.
#[derive(Debug, Clone, PartialEq, Eq, Default)]
pub struct SettlementScoreDelta {
    pub provisional: bool,
    pub basic_points: i64,
    pub base_points: i64,
    pub fan_total: i64,
    pub minimum_qualifying_fan_total: i64,
    pub fan_delta_by_seat: BTreeMap<usize, i64>,
    pub kong_delta_by_seat: BTreeMap<usize, i64>,
    pub total_delta_by_seat: BTreeMap<usize, i64>,
}

/// Kong score changes of one declared kong, by seat.
#[derive(Debug, Clone, PartialEq, Eq, Default)]
pub struct SettlementKongScoreDetailEntry {
    pub kong_type: String,
    pub actor_seat: usize,
    pub payer_seats: Vec<usize>,
    pub delta_by_seat: BTreeMap<usize, i64>,
}

/// A table: its seats, rules, and the match and round in progress.
#[derive(Debug, Clone, PartialEq, Eq, Default)]
pub struct RoomState {
    pub table_code: String,
    pub phase: String,
    pub mode: String,
    pub owner_user_id: Option<i64>,
    pub multiplier: i64,
    pub minimum_hu_fan: i64,
    pub dealer_repeat_enabled: bool,
    pub dealer_double_enabled: bool,
    pub player_multiplier_selection_enabled: bool,
    pub ready_hand_enabled: bool,
    pub seats: Vec<SeatState>,
    pub match_state: Option<MatchState>,
    pub round_state: Option<RoundState>,
    pub pending_timeout: Option<PendingTimeout>,
    pub continue_action: Option<ContinueActionState>,
}

/// The lowest fan total that a win needs unless the table says otherwise.
pub fn default_minimum_hu_fan() -> (r: i64)
    ensures
        r == 8,
{
    8
}

/// Per-seat record over a match.
#[derive(Debug, Clone, PartialEq, Eq, Default)]
pub struct MatchSeatStatistics {
    pub score_history: Vec<i64>,
    pub win_count: u32,
}

/// Records over a match.
#[derive(Debug, Clone, PartialEq, Eq, Default)]
pub struct MatchStatistics {
    pub completed_round_count: u32,
    pub seat_stats_by_seat: BTreeMap<usize, MatchSeatStatistics>,
}

/// A match: prevailing wind, hand number, dealer, and cumulative scores.
#[derive(Debug, Clone, PartialEq, Eq, Default)]
pub struct MatchState {
    pub prevailing_wind: String,
    pub hand_number: u32,
    pub dealer_seat: usize,
    pub cumulative_scores: BTreeMap<usize, i64>,
    pub match_finished: bool,
    pub last_completed_round_id: Option<String>,
    pub statistics: MatchStatistics,
    pub skill_trackers: MatchSkillTrackers,
}

/// Streaks kept by one match skill.
#[derive(Debug, Clone, PartialEq, Eq, Default)]
pub struct LianHuanJiTracker {
    pub streaks: BTreeMap<usize, i64>,
}

/// Pending win penalties kept by one match skill.
#[derive(Debug, Clone, PartialEq, Eq, Default)]
pub struct ZouWeiShangJiTracker {
    pub pending_win_penalty: BTreeMap<usize, i64>,
}

/// Skill state kept across a match.
#[derive(Debug, Clone, PartialEq, Eq, Default)]
pub struct MatchSkillTrackers {
    pub lian_huan_ji: LianHuanJiTracker,
    pub zou_wei_shang_ji: ZouWeiShangJiTracker,
}

impl MatchSkillTrackers {
    /// Whether the trackers hold nothing (their default value).
    pub open spec fn is_default(&self) -> bool {
        &&& self.lian_huan_ji.streaks@.is_empty()
        &&& self.zou_wei_shang_ji.pending_win_penalty@.is_empty()
    }

    pub fn is_empty(&self) -> (r: bool)
        ensures
            r == self.is_default(),
    {
        self.lian_huan_ji.streaks.is_empty() && self.zou_wei_shang_ji.pending_win_penalty.is_empty()
    }
}

/// Skill state kept during a round.
#[derive(Debug, Clone, PartialEq, Eq, Default)]
pub struct RoundSkillTrackers {
    pub claimed_discard_counts_by_seat: BTreeMap<usize, i64>,
    pub pending_honor_rebuy_tile_by_seat: BTreeMap<usize, String>,
    pub honor_redraw_success_by_seat: BTreeMap<usize, bool>,
    pub discard_counts: BTreeMap<String, i64>,
    pub discarded_five_by_seat: BTreeMap<usize, bool>,
    pub discard_suits_by_seat: BTreeMap<usize, Vec<String>>,
    pub players_with_kong: Vec<usize>,
    pub live_tiles_remaining: i64,
    pub tiles_drawn_since_opening: i64,
    pub multi_hu_candidates: Vec<usize>,
    pub tenpai_seats: Vec<usize>,
    pub tenpai_waits_by_seat: BTreeMap<usize, Vec<String>>,
}

impl RoundSkillTrackers {
    /// Whether the trackers hold nothing (their default value).
    pub open spec fn is_default(&self) -> bool {
        &&& self.claimed_discard_counts_by_seat@.is_empty()
        &&& self.pending_honor_rebuy_tile_by_seat@.is_empty()
        &&& self.honor_redraw_success_by_seat@.is_empty()
        &&& self.discard_counts@.is_empty()
        &&& self.discarded_five_by_seat@.is_empty()
        &&& self.discard_suits_by_seat@.is_empty()
        &&& self.players_with_kong@.len() == 0
        &&& self.live_tiles_remaining == 0
        &&& self.tiles_drawn_since_opening == 0
        &&& self.multi_hu_candidates@.len() == 0
        &&& self.tenpai_seats@.len() == 0
        &&& self.tenpai_waits_by_seat@.is_empty()
    }

    pub fn is_empty(&self) -> (r: bool)
        ensures
            r == self.is_default(),
    {
        self.claimed_discard_counts_by_seat.is_empty()
            && self.pending_honor_rebuy_tile_by_seat.is_empty()
            && self.honor_redraw_success_by_seat.is_empty()
            && self.discard_counts.is_empty()
            && self.discarded_five_by_seat.is_empty()
            && self.discard_suits_by_seat.is_empty()
            && self.players_with_kong.len() == 0
            && self.live_tiles_remaining == 0
            && self.tiles_drawn_since_opening == 0
            && self.multi_hu_candidates.len() == 0
            && self.tenpai_seats.len() == 0
            && self.tenpai_waits_by_seat.is_empty()
    }
}

impl PendingAction {
    /// The wire name of the pending action's kind.
    pub open spec fn spec_action_type(&self) -> Seq<char> {
        match self {
            PendingAction::ClaimWindow(_) => seq!['c', 'l', 'a', 'i', 'm', '_', 'w', 'i', 'n', 'd', 'o', 'w'],
            PendingAction::RobKongWindow(_) => seq![
                'r', 'o', 'b', '_', 'k', 'o', 'n', 'g', '_', 'w', 'i', 'n', 'd', 'o', 'w',
            ],
            PendingAction::PlayerMultiplierSelection(_) => seq![
                'p', 'l', 'a', 'y', 'e', 'r', '_', 'm', 'u', 'l', 't', 'i', 'p', 'l', 'i', 'e',
                'r', '_', 's', 'e', 'l', 'e', 'c', 't', 'i', 'o', 'n',
            ],
        }
    }

    pub fn action_type(&self) -> (r: &str)
        ensures
            r@ == self.spec_action_type(),
    {
        match self {
            PendingAction::ClaimWindow(_) => {
                proof {
                    reveal_strlit("claim_window");
                }
                assert("claim_window"@ =~= self.spec_action_type());
                "claim_window"
            },
            PendingAction::RobKongWindow(_) => {
                proof {
                    reveal_strlit("rob_kong_window");
                }
                assert("rob_kong_window"@ =~= self.spec_action_type());
                "rob_kong_window"
            },
            PendingAction::PlayerMultiplierSelection(_) => {
                proof {
                    reveal_strlit("player_multiplier_selection");
                }
                assert("player_multiplier_selection"@ =~= self.spec_action_type());
                "player_multiplier_selection"
            },
        }
    }
}

/// The seats in answer order after `origin`: the next three seats counter-clockwise.
pub open spec fn response_seat(origin: int, offset: int) -> int {
    (origin + offset) % 4
}

/// Whether a seat still owes an answer to the claim window.
pub open spec fn claim_seat_pending(claim: ClaimWindowAction, seat: int) -> bool {
    &&& 0 <= seat < claim.claim_window@.len()
    &&& claim.claim_window@[seat]@.len() > 0
    &&& !claim.responded_seats@.contains(seat as usize)
}

/// Whether a seat still owes an answer to the rob-kong window.
pub open spec fn rob_seat_pending(rob: RobKongWindowAction, seat: int) -> bool {
    &&& rob.offered_hu_seats@.contains(seat as usize)
    &&& !rob.responded_seats@.contains(seat as usize)
}

/// The first seat after `origin` (checking the next three in order) that satisfies `pending`.
pub open spec fn first_pending_after(origin: int, pending: spec_fn(int) -> bool) -> Option<usize> {
    if pending(response_seat(origin, 1)) {
        Some(response_seat(origin, 1) as usize)
    } else if pending(response_seat(origin, 2)) {
        Some(response_seat(origin, 2) as usize)
    } else if pending(response_seat(origin, 3)) {
        Some(response_seat(origin, 3) as usize)
    } else {
        None
    }
}

/// Whether `seats` holds `seat`.
pub fn contains_seat(seats: &Vec<usize>, seat: usize) -> (r: bool)
    ensures
        r == seats@.contains(seat),
{
    let mut i: usize = 0;
    while i < seats.len()
        invariant
            i <= seats@.len(),
            forall|j: int| 0 <= j < i ==> seats@[j] != seat,
        decreases seats@.len() - i,
    {
        if seats[i] == seat {
            return true;
        }
        i += 1;
    }
    false
}

fn next_claim_window_responder_seat(claim: &ClaimWindowAction) -> (r: Option<usize>)
    requires
        claim.discarder_seat + 3 <= usize::MAX,
    ensures
        r == first_pending_after(claim.discarder_seat as int, |seat: int| claim_seat_pending(*claim, seat)),
{
    let mut offset: usize = 1;
    while offset < 4
        invariant
            1 <= offset <= 4,
            claim.discarder_seat + 3 <= usize::MAX,
            forall|o: int| 1 <= o < offset ==> !claim_seat_pending(*claim, response_seat(claim.discarder_seat as int, o)),
        decreases 4 - offset,
    {
        let seat = (claim.discarder_seat + offset) % 4;
        if seat < claim.claim_window.len() && claim.claim_window[seat].len() > 0
            && !contains_seat(&claim.responded_seats, seat) {
            return Some(seat);
        }
        offset += 1;
    }
    None
}

fn next_rob_kong_responder_seat(rob: &RobKongWindowAction) -> (r: Option<usize>)
    requires
        rob.actor_seat + 3 <= usize::MAX,
    ensures
        r == first_pending_after(rob.actor_seat as int, |seat: int| rob_seat_pending(*rob, seat)),
{
    let mut offset: usize = 1;
    while offset < 4
        invariant
            1 <= offset <= 4,
            rob.actor_seat + 3 <= usize::MAX,
            forall|o: int| 1 <= o < offset ==> !rob_seat_pending(*rob, response_seat(rob.actor_seat as int, o)),
        decreases 4 - offset,
    {
        let seat = (rob.actor_seat + offset) % 4;
        if contains_seat(&rob.offered_hu_seats, seat) && !contains_seat(&rob.responded_seats, seat) {
            return Some(seat);
        }
        offset += 1;
    }
    None
}

/// The seat whose answer the pending action waits on next.
pub open spec fn spec_pending_action_response_seat(pending_action: PendingAction) -> Option<usize> {
    match pending_action {
        PendingAction::ClaimWindow(claim) => first_pending_after(
            claim.discarder_seat as int,
            |seat: int| claim_seat_pending(claim, seat),
        ),
        PendingAction::RobKongWindow(rob) => first_pending_after(
            rob.actor_seat as int,
            |seat: int| rob_seat_pending(rob, seat),
        ),
        PendingAction::PlayerMultiplierSelection(_) => None,
    }
}

pub fn pending_action_response_seat(pending_action: &PendingAction) -> (r: Option<usize>)
    requires
        pending_action matches PendingAction::ClaimWindow(c) ==> c.discarder_seat + 3 <= usize::MAX,
        pending_action matches PendingAction::RobKongWindow(rb) ==> rb.actor_seat + 3 <= usize::MAX,
    ensures
        r == spec_pending_action_response_seat(*pending_action),
{
    match pending_action {
        PendingAction::ClaimWindow(claim) => next_claim_window_responder_seat(claim),
        PendingAction::RobKongWindow(rob) => next_rob_kong_responder_seat(rob),
        PendingAction::PlayerMultiplierSelection(_) => None,
    }
}

/// Where a seat's skill draft stands.
#[derive(Debug, Clone, Copy, PartialEq, Eq, Default)]
pub enum SkillDraftStatus {
    #[default]
    Pending,
    Selected,
    Declined,
    Expired,
}

/// Rarity of a skill.
#[derive(Debug, Clone, Copy, PartialEq, Eq, PartialOrd, Ord, Default)]
pub enum SkillRarity {
    #[default]
    Common,
    Rare,
    Epic,
}

impl SkillRarity {
    /// Display label of the rarity.
    pub open spec fn spec_label(self) -> Seq<char> {
        match self {
            SkillRarity::Common => seq!['普', '通'],
            SkillRarity::Rare => seq!['稀', '有'],
            SkillRarity::Epic => seq!['史', '诗'],
        }
    }

    pub fn label(self) -> (r: &'static str)
        ensures
            r@ == self.spec_label(),
    {
        match self {
            SkillRarity::Common => {
                proof {
                    reveal_strlit("普通");
                }
                assert("普通"@ =~= self.spec_label());
                "普通"
            },
            SkillRarity::Rare => {
                proof {
                    reveal_strlit("稀有");
                }
                assert("稀有"@ =~= self.spec_label());
                "稀有"
            },
            SkillRarity::Epic => {
                proof {
                    reveal_strlit("史诗");
                }
                assert("史诗"@ =~= self.spec_label());
                "史诗"
            },
        }
    }

    /// Colour tone of the rarity.
    pub open spec fn spec_tone(self) -> Seq<char> {
        match self {
            SkillRarity::Common => seq!['j', 'a', 'd', 'e'],
            SkillRarity::Rare => seq!['a', 'z', 'u', 'r', 'e'],
            SkillRarity::Epic => seq!['v', 'i', 'o', 'l', 'e', 't'],
        }
    }

    pub fn tone(self) -> (r: &'static str)
        ensures
            r@ == self.spec_tone(),
    {
        match self {
            SkillRarity::Common => {
                proof {
                    reveal_strlit("jade");
                }
                assert("jade"@ =~= self.spec_tone());
                "jade"
            },
            SkillRarity::Rare => {
                proof {
                    reveal_strlit("azure");
                }
                assert("azure"@ =~= self.spec_tone());
                "azure"
            },
            SkillRarity::Epic => {
                proof {
                    reveal_strlit("violet");
                }
                assert("violet"@ =~= self.spec_tone());
                "violet"
            },
        }
    }

    /// Numeric level of the rarity: 1, 2 or 3.
    pub fn level(self) -> (r: u8)
        ensures
            r == (match self {
                SkillRarity::Common => 1u8,
                SkillRarity::Rare => 2u8,
                SkillRarity::Epic => 3u8,
            }),
    {
        match self {
            SkillRarity::Common => 1,
            SkillRarity::Rare => 2,
            SkillRarity::Epic => 3,
        }
    }
}

/// One skill that a draft offers.
#[derive(Debug, Clone, PartialEq, Eq, Default)]
pub struct SkillDraftChoice {
    pub skill_id: String,
    pub rarity: SkillRarity,
}

/// A seat's skill draft offer.
#[derive(Debug, Clone, PartialEq, Eq, Default)]
pub struct SkillDraftOffer {
    pub seat: usize,
    pub status: SkillDraftStatus,
    pub options: Vec<SkillDraftChoice>,
    pub selected_skill_id: Option<String>,
    pub selected_rarity: Option<SkillRarity>,
}

/// A skill draft in progress, offers by seat.
#[derive(Debug, Clone, PartialEq, Eq, Default)]
pub struct SkillDraftState {
    pub cycle_key: String,
    pub cycle_label: String,
    pub round_id: String,
    pub deadline_at: String,
    pub offers_by_seat: BTreeMap<usize, SkillDraftOffer>,
}

impl SkillDraftState {
    /// The draft is active while some seat's offer is still pending.
    pub fn is_active(&self) -> (r: bool)
        ensures
            r == exists|seat: usize| #[trigger] self.offers_by_seat@.contains_key(seat)
                && self.offers_by_seat@[seat].status is Pending,
    {
        broadcast use vstd::std_specs::btree::group_btree_axioms;
        let mut found = false;
        let it = self.offers_by_seat.iter();
        let ghost pairs = vstd::std_specs::btree::spec_btree_map_iter(&self.offers_by_seat).remaining();
        for entry in iter: it
            invariant
                iter.seq() == pairs,
                pairs.len() == self.offers_by_seat@.dom().len(),
                forall|i: int| 0 <= i < pairs.len() ==> self.offers_by_seat@.contains_key(*pairs[i].0)
                    && self.offers_by_seat@[*pairs[i].0] == *pairs[i].1,
                forall|k: usize| #[trigger] self.offers_by_seat@.contains_key(k) ==> pairs.contains(
                    (&k, &self.offers_by_seat@[k]),
                ),
                found == exists|i: int| 0 <= i < iter.index() && pairs[i].1.status is Pending,
        {
            match entry.1.status {
                SkillDraftStatus::Pending => {
                    found = true;
                },
                _ => {},
            }
        }
        proof {
            if found {
                let i = choose|i: int| 0 <= i < pairs.len() && pairs[i].1.status is Pending;
                assert(self.offers_by_seat@.contains_key(*pairs[i].0));
            }
            if exists|seat: usize| #[trigger] self.offers_by_seat@.contains_key(seat)
                && self.offers_by_seat@[seat].status is Pending {
                let seat = choose|seat: usize| #[trigger] self.offers_by_seat@.contains_key(seat)
                    && self.offers_by_seat@[seat].status is Pending;
                assert(pairs.contains((&seat, &self.offers_by_seat@[seat])));
            }
        }
        found
    }
}

/// Tiles that a skill lets one seat see.
#[derive(Debug, Clone, PartialEq, Eq)]
pub struct KnowledgeEffect {
    pub viewer: usize,
    pub target_seat: Option<usize>,
    pub tile_ids: Vec<String>,
    pub tile_keys: Vec<String>,
    pub source_skill: Option<String>,
    pub description: Option<String>,
}

} // verus!
