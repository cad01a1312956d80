use vstd::prelude::*;

use crate::text::digit_char;
use crate::state::RoomState;
use crate::text::{owned, push_char};

verus! {

/// Room mode of an evaluation table.
pub const EVALUATION_ROOM_MODE: &'static str = "evaluation";

/// Hands played in one evaluation match.
pub const EVALUATION_HAND_COUNT: usize = 16;

/// Seat that the evaluated subject takes first.
pub const EVALUATION_INITIAL_SUBJECT_SEAT: usize = 0;

/// Minimum fan for a win at an evaluation table.
pub const EVALUATION_MINIMUM_HU_FAN: i64 = 8;

/// Model that the supervised opponents run.
pub const SFT_MODEL_PATH: &'static str = "backend/assets/sft/sft.onnx";

/// Actions that one evaluation match may take when the configuration names no limit.
pub const DEFAULT_MAX_ACTIONS_PER_MATCH: usize = 2400;

/// A bot policy: its id, its model, whether it samples actions, its sampling temperature,
/// and the weights that scale discard risk. Temperatures and weights are in thousandths.
#[derive(Clone, Debug, PartialEq, Eq)]
pub struct BotPolicyConfig {
    pub id: String,
    pub model_path: Option<String>,
    pub sample_actions: bool,
    pub temperature_milli: u32,
    pub temperature_range_milli: Option<(u32, u32)>,
    pub discard_base_risk_weight_milli: u32,
    pub discard_value_risk_range_milli: u32,
    pub discard_min_risk_weight_milli: u32,
    pub discard_max_risk_weight_milli: u32,
}

/// A policy under evaluation, with the name that reports show for it.
#[derive(Clone, Debug, PartialEq, Eq)]
pub struct EvaluationSubjectPolicyConfig {
    pub display_name: String,
    pub policy: BotPolicyConfig,
}

/// An evaluation arena: matches and seed, the subjects, and the three opponents.
#[derive(Clone, Debug, PartialEq, Eq)]
pub struct EvaluationArenaConfig {
    pub matches: usize,
    pub seed: u64,
    pub max_actions_per_match: usize,
    pub report_trajectories: bool,
    pub subjects: Vec<EvaluationSubjectPolicyConfig>,
    pub opponents: Vec<BotPolicyConfig>,
    pub expert_source: Option<String>,
}

/// What an evaluation reports of one subject.
#[derive(Clone, Debug, Default, PartialEq, Eq)]
pub struct EvaluationSubjectReport {
    pub subject_id: String,
    pub display_name: String,
    pub kind: String,
    pub completed: bool,
    pub final_score: i64,
    pub deal_in_count: u64,
    pub win_count: u64,
}

/// Why a configuration is refused, if it is: no subject, or other than three opponents.
pub open spec fn config_refusal(subject_count: int, opponent_count: int) -> Option<Seq<char>> {
    if subject_count == 0 {
        Some("evaluation requires at least one subject"@)
    } else if opponent_count != 3 {
        Some("evaluation requires exactly three opponents"@)
    } else {
        None
    }
}

impl EvaluationArenaConfig {
    /// Refuses a configuration without subjects, or without exactly three opponents.
    pub fn validate(&self) -> (r: Result<(), String>)
        ensures
            match config_refusal(self.subjects@.len() as int, self.opponents@.len() as int) {
                Some(message) => r matches Err(e) && e@ == message,
                None => r is Ok,
            },
    {
        if self.subjects.len() == 0 {
            return Err(owned("evaluation requires at least one subject"));
        }
        if self.opponents.len() != 3 {
            return Err(owned("evaluation requires exactly three opponents"));
        }
        Ok(())
    }

    /// A configuration whose subjects are the given policies, each shown under its id, with
    /// the default action limit, no trajectories and no expert source; refused as `validate`
    /// refuses it.
    pub fn new_for_test(
        matches: usize,
        seed: u64,
        subjects: Vec<BotPolicyConfig>,
        opponents: Vec<BotPolicyConfig>,
    ) -> (r: Result<Self, String>)
        ensures
            match config_refusal(subjects@.len() as int, opponents@.len() as int) {
                Some(message) => r matches Err(e) && e@ == message,
                None => r matches Ok(config) && {
                    &&& config.matches == matches
                    &&& config.seed == seed
                    &&& config.max_actions_per_match == DEFAULT_MAX_ACTIONS_PER_MATCH
                    &&& !config.report_trajectories
                    &&& config.expert_source is None
                    &&& config.opponents@ == opponents@
                    &&& config.subjects@.len() == subjects@.len()
                    &&& forall|i: int|
                        0 <= i < subjects@.len() ==> {
                            let subject = #[trigger] config.subjects@[i];
                            &&& subject.policy == subjects@[i]
                            &&& subject.display_name@ == subjects@[i].id@
                        }
                },
            },
    {
        let ghost given = subjects@;
        let mut rest = subjects;
        let mut named: Vec<EvaluationSubjectPolicyConfig> = Vec::new();
        while rest.len() > 0
            invariant
                named@.len() + rest@.len() == given.len(),
                rest@ == given.skip(named@.len() as int),
                forall|i: int|
                    0 <= i < named@.len() ==> {
                        let subject = #[trigger] named@[i];
                        &&& subject.policy == given[i]
                        &&& subject.display_name@ == given[i].id@
                    },
            decreases rest@.len(),
        {
            let policy = rest.remove(0);
            let display_name = policy.id.clone();
            proof {
                assert(given.skip(named@.len() as int + 1) =~= given.skip(named@.len() as int).remove(0));
            }
            named.push(EvaluationSubjectPolicyConfig { display_name, policy });
        }
        let config = EvaluationArenaConfig {
            matches,
            seed,
            max_actions_per_match: DEFAULT_MAX_ACTIONS_PER_MATCH,
            report_trajectories: false,
            subjects: named,
            opponents,
            expert_source: None,
        };
        match config.validate() {
            Ok(()) => Ok(config),
            Err(e) => Err(e),
        }
    }
}

/// Fixes the rules of an evaluation table: evaluation mode, a minimum of eight fan, and no
/// dealer repeat, dealer double, player multipliers or ready hand.
pub fn apply_evaluation_rules(room: &mut RoomState)
    ensures
        final(room).mode@ == EVALUATION_ROOM_MODE@,
        *final(room) == (RoomState {
            mode: final(room).mode,
            minimum_hu_fan: EVALUATION_MINIMUM_HU_FAN,
            dealer_repeat_enabled: false,
            dealer_double_enabled: false,
            player_multiplier_selection_enabled: false,
            ready_hand_enabled: false,
            ..*old(room)
        }),
{
    room.mode = owned(EVALUATION_ROOM_MODE);
    room.minimum_hu_fan = EVALUATION_MINIMUM_HU_FAN;
    room.dealer_repeat_enabled = false;
    room.dealer_double_enabled = false;
    room.player_multiplier_selection_enabled = false;
    room.ready_hand_enabled = false;
}

/// The seed of match `index`: the arena seed plus the index, wrapping past `u64::MAX`.
pub open spec fn match_seed(seed: u64, index: int) -> u64 {
    if seed + index > u64::MAX {
        (seed + index - 0x1_0000_0000_0000_0000) as u64
    } else {
        (seed + index) as u64
    }
}

/// One seed per match, counting up from the arena seed.
pub fn evaluation_match_seeds(seed: u64, matches: usize) -> (r: Vec<u64>)
    ensures
        r@.len() == matches,
        forall|i: int| 0 <= i < matches ==> #[trigger] r@[i] == match_seed(seed, i),
{
    let mut seeds: Vec<u64> = Vec::new();
    let mut index: usize = 0;
    while index < matches
        invariant
            index <= matches,
            seeds@.len() == index,
            forall|i: int| 0 <= i < index ==> #[trigger] seeds@[i] == match_seed(seed, i),
        decreases matches - index,
    {
        seeds.push(seed.wrapping_add(index as u64));
        index += 1;
    }
    seeds
}

/// The id of supervised opponent `n`, counting from one.
pub open spec fn sft_opponent_id(n: int) -> Seq<char> {
    "sft-opponent-"@.push(digit_char(n))
}

/// The supervised policy with id `id`: the supervised model, no sampling, temperature one,
/// and the standard discard-risk weights.
pub open spec fn is_sft_policy(policy: BotPolicyConfig, id: Seq<char>) -> bool {
    &&& policy.id@ == id
    &&& policy.model_path matches Some(path) && path@ == SFT_MODEL_PATH@
    &&& !policy.sample_actions
    &&& policy.temperature_milli == 1000
    &&& policy.temperature_range_milli is None
    &&& policy.discard_base_risk_weight_milli == 900
    &&& policy.discard_value_risk_range_milli == 550
    &&& policy.discard_min_risk_weight_milli == 250
    &&& policy.discard_max_risk_weight_milli == 1450
}

/// The three supervised opponents of an evaluation, `sft-opponent-1` to `sft-opponent-3`.
pub fn default_sft_opponents() -> (r: Vec<BotPolicyConfig>)
    ensures
        r@.len() == 3,
        forall|i: int| 0 <= i < 3 ==> is_sft_policy(#[trigger] r@[i], sft_opponent_id(i + 1)),
{
    let mut opponents: Vec<BotPolicyConfig> = Vec::new();
    let mut index: u8 = 0;
    while index < 3
        invariant
            index <= 3,
            opponents@.len() == index,
            forall|i: int| 0 <= i < index ==> is_sft_policy(#[trigger] opponents@[i], sft_opponent_id(i + 1)),
        decreases 3 - index,
    {
        let mut id = owned("sft-opponent-");
        let number = if index == 0 {
            '1'
        } else if index == 1 {
            '2'
        } else {
            '3'
        };
        push_char(&mut id, number);
        opponents.push(
            BotPolicyConfig {
                id,
                model_path: Some(owned(SFT_MODEL_PATH)),
                sample_actions: false,
                temperature_milli: 1000,
                temperature_range_milli: None,
                discard_base_risk_weight_milli: 900,
                discard_value_risk_range_milli: 550,
                discard_min_risk_weight_milli: 250,
                discard_max_risk_weight_milli: 1450,
            },
        );
        index += 1;
    }
    opponents
}

/// One replayed match of an evaluation: its place in the run, the subject that plays it, the
/// match it replays and that match's seed.
#[derive(Clone, Copy, Debug, PartialEq, Eq)]
pub struct EvaluationReplicaSpec {
    pub replica_index: usize,
    pub subject_index: usize,
    pub match_index: usize,
    pub seed: u64,
}

/// The replica of match `m` played by subject `s`, when each subject plays `matches` matches.
pub open spec fn replica_of(seed: u64, matches: int, s: int, m: int) -> EvaluationReplicaSpec {
    EvaluationReplicaSpec {
        replica_index: (s * matches + m) as usize,
        subject_index: s as usize,
        match_index: m as usize,
        seed: match_seed(seed, m),
    }
}

proof fn lemma_replica_place(s: int, m: int, t: int, matches: int)
    by (nonlinear_arith)
    requires
        0 <= s < t,
        0 <= m < matches,
    ensures
        0 <= s * matches + m < t * matches,
        s * matches + m < (s + 1) * matches,
        (s + 1) * matches <= t * matches,
{
}

/// The replicas of an evaluation, subject by subject and, for each subject, match by match:
/// every subject replays every match with the same seed, the arena seed plus the match index.
pub fn evaluation_replica_specs(config: &EvaluationArenaConfig) -> (r: Vec<EvaluationReplicaSpec>)
    requires
        config.subjects@.len() * config.matches <= usize::MAX,
    ensures
        r@.len() == config.subjects@.len() * config.matches,
        forall|s: int, m: int|
            0 <= s < config.subjects@.len() && 0 <= m < config.matches ==> #[trigger] r@[s * config.matches + m]
                == replica_of(config.seed, config.matches as int, s, m),
{
    let n = config.subjects.len();
    let matches = config.matches;
    let mut replicas: Vec<EvaluationReplicaSpec> = Vec::new();
    let mut s: usize = 0;
    proof {
        assert(0 * matches == 0) by (nonlinear_arith);
    }
    while s < n
        invariant
            n == config.subjects@.len(),
            matches == config.matches,
            n * matches <= usize::MAX,
            s <= n,
            replicas@.len() == s * matches,
            forall|a: int, b: int|
                0 <= a < s && 0 <= b < matches ==> #[trigger] replicas@[a * matches + b] == replica_of(
                    config.seed,
                    matches as int,
                    a,
                    b,
                ),
        decreases n - s,
    {
        let mut m: usize = 0;
        proof {
            assert(s * matches + matches == (s + 1) * matches) by (nonlinear_arith);
            assert((s + 1) * matches <= n * matches) by (nonlinear_arith)
                requires
                    s < n,
            ;
        }
        while m < matches
            invariant
                n == config.subjects@.len(),
                matches == config.matches,
                n * matches <= usize::MAX,
                s < n,
                m <= matches,
                (s + 1) * matches <= n * matches,
                replicas@.len() == s * matches + m,
                forall|a: int, b: int|
                    0 <= a < s && 0 <= b < matches ==> #[trigger] replicas@[a * matches + b] == replica_of(
                        config.seed,
                        matches as int,
                        a,
                        b,
                    ),
                forall|b: int|
                    0 <= b < m ==> #[trigger] replicas@[s * matches + b] == replica_of(config.seed, matches as int, s as int, b),
            decreases matches - m,
        {
            proof {
                assert(s * matches + matches == (s + 1) * matches) by (nonlinear_arith);
            }
            let ghost before = replicas@;
            let place = replicas.len();
            replicas.push(
                EvaluationReplicaSpec {
                    replica_index: place,
                    subject_index: s,
                    match_index: m,
                    seed: config.seed.wrapping_add(m as u64),
                },
            );
            proof {
                assert forall|a: int, b: int| 0 <= a < s && 0 <= b < matches implies #[trigger] replicas@[a * matches + b]
                    == replica_of(config.seed, matches as int, a, b) by {
                    lemma_replica_place(a, b, s as int, matches as int);
                    assert(replicas@[a * matches + b] == before[a * matches + b]);
                }
                assert forall|b: int| 0 <= b < m + 1 implies #[trigger] replicas@[s * matches + b] == replica_of(
                    config.seed,
                    matches as int,
                    s as int,
                    b,
                ) by {
                    if b < m {
                        assert(replicas@[s * matches + b] == before[s * matches + b]);
                    }
                }
            }
            m += 1;
        }
        proof {
            assert(s * matches + matches == (s + 1) * matches) by (nonlinear_arith);
            assert forall|a: int, b: int| 0 <= a < s + 1 && 0 <= b < matches implies #[trigger] replicas@[a * matches + b]
                == replica_of(config.seed, matches as int, a, b) by {
                if a == s {
                    assert(replicas@[s * matches + b] == replica_of(config.seed, matches as int, s as int, b));
                }
            }
        }
        s += 1;
    }
    replicas
}

} // verus!
