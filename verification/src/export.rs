use vstd::prelude::*;

use crate::action_space::{claim_action_name, self_kong_action_name, tile_key_for_index};
use crate::botzone::string_views;
use crate::botzone::BotZoneMatch;
use crate::replay::{replay_match_to_samples, replay_upto, replayable, DecisionKind, TrainingDecisionSampleV2, TrainingLabel};
use crate::replay_view::samples_v;
use crate::text::{owned, push_str};
use crate::replay_view::strs_v;
use crate::tiles::spec_tile_key;

verus! {

/// The part of a dataset that a match goes to.
#[derive(Debug, Clone, Copy, PartialEq, Eq, PartialOrd, Ord)]
pub enum DatasetSplit {
    Train,
    Val,
    Test,
}

/// What a dataset holds: its schema, its vocabularies and how matches are split.
#[derive(Debug, Clone, PartialEq, Eq)]
pub struct BotDatasetMetadata {
    pub schema_version: u32,
    pub tile_keys: Vec<String>,
    pub decision_kinds: Vec<String>,
    pub claim_actions: Vec<String>,
    pub self_kong_actions: Vec<String>,
    pub model_outputs: Vec<String>,
    pub split_strategy: String,
}

/// What an export did: matches, samples written, labels refused, matches skipped, and the
/// samples of each split (train, val, test) and of each decision kind (active turn, claim
/// window, rob kong).
#[derive(Debug, Clone, PartialEq, Eq, Default)]
pub struct ExportReport {
    pub match_count: usize,
    pub sample_count: usize,
    pub illegal_label_count: usize,
    pub runtime_illegal_label_count: usize,
    pub parse_error_count: usize,
    pub skipped_match_ids: Vec<String>,
    pub samples_by_split: [usize; 3],
    pub samples_by_decision_kind: [usize; 3],
}

/// How an export runs: at most so many matches, a progress line every so many, and workers.
#[derive(Debug, Clone, Copy, PartialEq, Eq, Default)]
pub struct ExportOptions {
    pub max_matches: Option<usize>,
    pub progress_every: Option<usize>,
    pub worker_count: usize,
}

/// Why an export stops, or why a sample is refused.
#[derive(Debug, Clone, PartialEq, Eq)]
pub enum ExportError {
    Parse(String),
    Replay(String),
    IllegalLabel { match_id: String, decision_index: u64, label: String, legal_actions: Vec<String> },
}

/// The FNV-1a hash of `bytes`.
pub open spec fn fnv1a(bytes: Seq<u8>) -> u64
    decreases bytes.len(),
{
    if bytes.len() == 0 {
        14_695_981_039_346_656_037u64
    } else {
        (((fnv1a(bytes.drop_last()) ^ (bytes.last() as u64)) as nat * 1_099_511_628_211nat)
            % 0x1_0000_0000_0000_0000nat) as u64
    }
}

fn stable_hash(value: &str) -> (r: u64)
    ensures
        r == fnv1a(vstd::utf8::encode_utf8(value@)),
{
    let bytes = value.as_bytes();
    let ghost b = bytes@;
    let mut hash: u64 = 14_695_981_039_346_656_037u64;
    let mut i: usize = 0;
    while i < bytes.len()
        invariant
            b == bytes@,
            i <= b.len(),
            hash == fnv1a(b.take(i as int)),
        decreases b.len() - i,
    {
        proof {
            assert(b.take(i + 1).drop_last() =~= b.take(i as int));
        }
        hash = (hash ^ (bytes[i] as u64)).wrapping_mul(1_099_511_628_211u64);
        i += 1;
    }
    assert(b.take(b.len() as int) =~= b);
    hash
}

/// The split of a hash bucket in `0..100`: train below 80, val below 90, else test.
pub open spec fn split_of_bucket(bucket: int) -> DatasetSplit {
    if bucket < 80 {
        DatasetSplit::Train
    } else if bucket < 90 {
        DatasetSplit::Val
    } else {
        DatasetSplit::Test
    }
}

/// The split of a match: by the FNV-1a hash of its id's UTF-8 bytes, modulo 100.
pub fn split_for_match_id(match_id: &str) -> (r: DatasetSplit)
    ensures
        r == split_of_bucket((fnv1a(vstd::utf8::encode_utf8(match_id@)) % 100) as int),
{
    let bucket = stable_hash(match_id) % 100;
    if bucket < 80 {
        DatasetSplit::Train
    } else if bucket < 90 {
        DatasetSplit::Val
    } else {
        DatasetSplit::Test
    }
}

/// The decision kinds of a dataset, in order.
pub open spec fn decision_kind_name(k: int) -> Seq<char> {
    if k == 0 {
        "active_turn"@
    } else if k == 1 {
        "claim_window"@
    } else {
        "rob_kong"@
    }
}

/// The outputs of the model that a dataset trains, in order.
pub open spec fn model_output_name(k: int) -> Seq<char> {
    if k == 0 {
        "discard_logits"@
    } else if k == 1 {
        "claim_logits"@
    } else if k == 2 {
        "self_kong_logits"@
    } else if k == 3 {
        "hu_logits"@
    } else if k == 4 {
        "value"@
    } else if k == 5 {
        "value_for_risk"@
    } else if k == 6 {
        "fan_value"@
    } else if k == 7 {
        "qualifying_fan_value"@
    } else if k == 8 {
        "opponent_tenpai_logits"@
    } else {
        "opponent_risk_logits"@
    }
}

fn owned_all(names: &Vec<&'static str>) -> (r: Vec<String>)
    ensures
        r@.len() == names@.len(),
        forall|i: int| 0 <= i < names@.len() ==> #[trigger] r@[i]@ == names@[i]@,
{
    let mut r: Vec<String> = Vec::new();
    let mut i: usize = 0;
    while i < names.len()
        invariant
            i <= names@.len(),
            r@.len() == i,
            forall|j: int| 0 <= j < i ==> #[trigger] r@[j]@ == names@[j]@,
        decreases names@.len() - i,
    {
        r.push(owned(names[i]));
        i += 1;
    }
    r
}

/// The metadata of a dataset of schema 6.
pub fn export_metadata() -> (r: BotDatasetMetadata)
    ensures
        r.schema_version == 6,
        r.tile_keys@.len() == 34,
        forall|i: int| 0 <= i < 34 ==> #[trigger] r.tile_keys@[i]@ == spec_tile_key(i),
        r.decision_kinds@.len() == 3,
        forall|i: int| 0 <= i < 3 ==> #[trigger] r.decision_kinds@[i]@ == decision_kind_name(i),
        r.claim_actions@.len() == 7,
        forall|i: int| 0 <= i < 7 ==> #[trigger] r.claim_actions@[i]@ == claim_action_name(i),
        r.self_kong_actions@.len() == 3,
        forall|i: int| 0 <= i < 3 ==> #[trigger] r.self_kong_actions@[i]@ == self_kong_action_name(i),
        r.model_outputs@.len() == 10,
        forall|i: int| 0 <= i < 10 ==> #[trigger] r.model_outputs@[i]@ == model_output_name(i),
        r.split_strategy@ == "match_id_hash"@,
{
    let mut tile_keys: Vec<String> = Vec::new();
    let mut i: usize = 0;
    while i < 34
        invariant
            i <= 34,
            tile_keys@.len() == i,
            forall|j: int| 0 <= j < i ==> #[trigger] tile_keys@[j]@ == spec_tile_key(j),
        decreases 34 - i,
    {
        match tile_key_for_index(i) {
            Some(key) => tile_keys.push(owned(key)),
            None => {},
        }
        i += 1;
    }
    let decision_kinds = owned_all(&vec!["active_turn", "claim_window", "rob_kong"]);
    let claim_actions = owned_all(
        &vec!["pass", "hu", "pung", "kong", "chow_left", "chow_mid", "chow_right"],
    );
    let self_kong_actions = owned_all(&vec!["pass", "concealed_kong", "add_kong"]);
    let model_outputs = owned_all(
        &vec![
            "discard_logits",
            "claim_logits",
            "self_kong_logits",
            "hu_logits",
            "value",
            "value_for_risk",
            "fan_value",
            "qualifying_fan_value",
            "opponent_tenpai_logits",
            "opponent_risk_logits",
        ],
    );
    proof {
        reveal_strlit("pass");
        reveal_strlit("hu");
        reveal_strlit("pung");
        reveal_strlit("kong");
        reveal_strlit("chow_left");
        reveal_strlit("chow_mid");
        reveal_strlit("chow_right");
        reveal_strlit("concealed_kong");
        reveal_strlit("add_kong");
        assert forall|i: int| 0 <= i < 7 implies #[trigger] claim_actions@[i]@ == claim_action_name(i) by {
            if i == 0 {
                assert("pass"@ =~= claim_action_name(0));
            } else if i == 1 {
                assert("hu"@ =~= claim_action_name(1));
            } else if i == 2 {
                assert("pung"@ =~= claim_action_name(2));
            } else if i == 3 {
                assert("kong"@ =~= claim_action_name(3));
            } else if i == 4 {
                assert("chow_left"@ =~= claim_action_name(4));
            } else if i == 5 {
                assert("chow_mid"@ =~= claim_action_name(5));
            } else {
                assert("chow_right"@ =~= claim_action_name(6));
            }
        }
        assert forall|i: int| 0 <= i < 3 implies #[trigger] self_kong_actions@[i]@ == self_kong_action_name(i) by {
            if i == 0 {
                assert("pass"@ =~= self_kong_action_name(0));
            } else if i == 1 {
                assert("concealed_kong"@ =~= self_kong_action_name(1));
            } else {
                assert("add_kong"@ =~= self_kong_action_name(2));
            }
        }
    }
    BotDatasetMetadata {
        schema_version: 6,
        tile_keys,
        decision_kinds,
        claim_actions,
        self_kong_actions,
        model_outputs,
        split_strategy: owned("match_id_hash"),
    }
}

/// The action id of a label, in the form of the legal actions: `discard:w1`,
/// `claim:chow:w2`, `claim:pung:red`, `claim:kong:b9`, `self_kong:<kind>:<tile>`, `claim:hu`,
/// `pass`.
pub open spec fn label_action_id(label: TrainingLabel) -> Seq<char> {
    match label {
        TrainingLabel::Discard { tile_key } => "discard:"@ + tile_key@,
        TrainingLabel::ClaimChow { middle_tile_key } => "claim:chow:"@ + middle_tile_key@,
        TrainingLabel::ClaimPung { tile_key } => "claim:pung:"@ + tile_key@,
        TrainingLabel::ClaimKong { tile_key } => "claim:kong:"@ + tile_key@,
        TrainingLabel::SelfKong { kind, tile_key } => "self_kong:"@ + kind@ + ":"@ + tile_key@,
        TrainingLabel::Hu => "claim:hu"@,
        TrainingLabel::Pass => "pass"@,
    }
}

/// `prefix` followed by `rest`.
pub fn join2(prefix: &str, rest: &str) -> (r: String)
    ensures
        r@ == prefix@ + rest@,
{
    let mut all = crate::text::chars_of(prefix);
    let tail = crate::text::chars_of(rest);
    let ghost start = all@;
    let mut i: usize = 0;
    while i < tail.len()
        invariant
            i <= tail@.len(),
            all@ == start + tail@.take(i as int),
        decreases tail@.len() - i,
    {
        all.push(tail[i]);
        assert(all@ =~= start + tail@.take(i + 1));
        i += 1;
    }
    assert(tail@.take(tail@.len() as int) =~= tail@);
    crate::text::string_from_chars(&all)
}

/// The action id of a label.
pub fn label_to_action_id(label: &TrainingLabel) -> (r: String)
    ensures
        r@ == label_action_id(*label),
{
    match label {
        TrainingLabel::Discard { tile_key } => join2("discard:", tile_key.as_str()),
        TrainingLabel::ClaimChow { middle_tile_key } => join2("claim:chow:", middle_tile_key.as_str()),
        TrainingLabel::ClaimPung { tile_key } => join2("claim:pung:", tile_key.as_str()),
        TrainingLabel::ClaimKong { tile_key } => join2("claim:kong:", tile_key.as_str()),
        TrainingLabel::SelfKong { kind, tile_key } => {
            let head = join2("self_kong:", kind.as_str());
            let with_colon = join2(head.as_str(), ":");
            join2(with_colon.as_str(), tile_key.as_str())
        },
        TrainingLabel::Hu => owned("claim:hu"),
        TrainingLabel::Pass => owned("pass"),
    }
}

/// A sample's label is legal where its action id is among the sample's legal actions.
pub open spec fn label_is_legal(sample: TrainingDecisionSampleV2) -> bool {
    string_views(sample.legal_actions@).contains(label_action_id(sample.label))
}

/// Refuses a sample whose label is not among its legal actions.
pub fn validate_sample(sample: &TrainingDecisionSampleV2) -> (r: Result<(), ExportError>)
    ensures
        label_is_legal(*sample) ==> r is Ok,
        !label_is_legal(*sample) ==> (r matches Err(ExportError::IllegalLabel { match_id, decision_index, label, legal_actions })
            && match_id@ == sample.match_id@ && decision_index == sample.decision_index
            && label@ == label_action_id(sample.label) && legal_actions@ == sample.legal_actions@),
{
    let label_action = label_to_action_id(&sample.label);
    let mut i: usize = 0;
    while i < sample.legal_actions.len()
        invariant
            i <= sample.legal_actions@.len(),
            label_action@ == label_action_id(sample.label),
            forall|j: int| 0 <= j < i ==> #[trigger] sample.legal_actions@[j]@ != label_action@,
        decreases sample.legal_actions@.len() - i,
    {
        if crate::text::str_equal(sample.legal_actions[i].as_str(), label_action.as_str()) {
            assert(string_views(sample.legal_actions@)[i as int] == label_action@);
            return Ok(());
        }
        i += 1;
    }
    proof {
        if string_views(sample.legal_actions@).contains(label_action@) {
            let j = choose|j: int| 0 <= j < sample.legal_actions@.len() && string_views(sample.legal_actions@)[j] == label_action@;
            assert(sample.legal_actions@[j]@ == label_action@);
        }
    }
    Err(
        ExportError::IllegalLabel {
            match_id: sample.match_id.clone(),
            decision_index: sample.decision_index,
            label: label_action,
            legal_actions: crate::tile::clone_strings(&sample.legal_actions),
        },
    )
}

/// The position of a split among train, val, test.
pub open spec fn split_position(split: DatasetSplit) -> int {
    match split {
        DatasetSplit::Train => 0,
        DatasetSplit::Val => 1,
        DatasetSplit::Test => 2,
    }
}

/// The position of a decision kind among active turn, claim window, rob kong.
pub open spec fn kind_position(kind: DecisionKind) -> int {
    match kind {
        DecisionKind::ActiveTurn => 0,
        DecisionKind::ClaimWindow => 1,
        DecisionKind::RobKong => 2,
    }
}

/// The samples among `samples` whose label is legal, in order.
pub open spec fn legal_samples(samples: Seq<TrainingDecisionSampleV2>) -> Seq<TrainingDecisionSampleV2>
    decreases samples.len(),
{
    if samples.len() == 0 {
        Seq::empty()
    } else {
        let rest = legal_samples(samples.drop_last());
        if label_is_legal(samples.last()) {
            rest.push(samples.last())
        } else {
            rest
        }
    }
}

/// The samples of `samples` of decision kind `kind`.
pub open spec fn count_of_kind(samples: Seq<TrainingDecisionSampleV2>, k: int) -> nat
    decreases samples.len(),
{
    if samples.len() == 0 {
        0
    } else {
        count_of_kind(samples.drop_last(), k) + if kind_position(samples.last().decision_kind) == k {
            1nat
        } else {
            0nat
        }
    }
}

/// Takes the samples of one replayed match into the report: those with a legal label are
/// counted, under the match's split and their decision kinds, and handed back to be written;
/// the others are counted as refused.
pub fn accept_samples(
    report: &mut ExportReport,
    split: DatasetSplit,
    samples: Vec<TrainingDecisionSampleV2>,
) -> (r: Vec<TrainingDecisionSampleV2>)
    requires
        old(report).sample_count + samples@.len() <= usize::MAX,
        old(report).runtime_illegal_label_count + samples@.len() <= usize::MAX,
        forall|i: int| 0 <= i < 3 ==> old(report).samples_by_split@[i] + samples@.len() <= usize::MAX,
        forall|i: int| 0 <= i < 3 ==> old(report).samples_by_decision_kind@[i] + samples@.len() <= usize::MAX,
    ensures
        r@ == legal_samples(samples@),
        final(report).sample_count == old(report).sample_count + r@.len(),
        final(report).runtime_illegal_label_count == old(report).runtime_illegal_label_count + samples@.len()
            - r@.len(),
        forall|i: int|
            0 <= i < 3 ==> #[trigger] final(report).samples_by_split@[i] == old(report).samples_by_split@[i]
                + if i == split_position(split) {
                r@.len() as int
            } else {
                0
            },
        forall|i: int|
            0 <= i < 3 ==> #[trigger] final(report).samples_by_decision_kind@[i]
                == old(report).samples_by_decision_kind@[i] + count_of_kind(r@, i),
        final(report).match_count == old(report).match_count,
        final(report).illegal_label_count == old(report).illegal_label_count,
        final(report).parse_error_count == old(report).parse_error_count,
        final(report).skipped_match_ids@ == old(report).skipped_match_ids@,
{
    let ghost all = samples@;
    let ghost start = *report;
    let split_index: usize = match split {
        DatasetSplit::Train => 0,
        DatasetSplit::Val => 1,
        DatasetSplit::Test => 2,
    };
    let mut accepted: Vec<TrainingDecisionSampleV2> = Vec::new();
    let mut rest = samples;
    let mut taken: usize = 0;
    let total = rest.len();
    while rest.len() > 0
        invariant
            all.len() == total,
            taken + rest@.len() == total,
            rest@ == all.skip(taken as int),
            accepted@ == legal_samples(all.take(taken as int)),
            split_index == split_position(split),
            report.sample_count == start.sample_count + accepted@.len(),
            report.runtime_illegal_label_count == start.runtime_illegal_label_count + taken - accepted@.len(),
            accepted@.len() <= taken,
            start.sample_count + total <= usize::MAX,
            start.runtime_illegal_label_count + total <= usize::MAX,
            forall|i: int| 0 <= i < 3 ==> start.samples_by_split@[i] + total <= usize::MAX,
            forall|i: int| 0 <= i < 3 ==> start.samples_by_decision_kind@[i] + total <= usize::MAX,
            forall|i: int|
                0 <= i < 3 ==> #[trigger] report.samples_by_split@[i] == start.samples_by_split@[i]
                    + if i == split_position(split) {
                    accepted@.len() as int
                } else {
                    0
                },
            forall|i: int|
                0 <= i < 3 ==> #[trigger] report.samples_by_decision_kind@[i]
                    == start.samples_by_decision_kind@[i] + count_of_kind(accepted@, i),
            forall|i: int| 0 <= i < 3 ==> count_of_kind(accepted@, i) <= accepted@.len(),
            report.match_count == start.match_count,
            report.illegal_label_count == start.illegal_label_count,
            report.parse_error_count == start.parse_error_count,
            report.skipped_match_ids@ == start.skipped_match_ids@,
        decreases rest@.len(),
    {
        let ghost old_rest = rest@;
        let sample = rest.remove(0);
        proof {
            assert(all.skip(taken as int)[0] == all[taken as int]);
            assert(rest@ =~= all.skip(taken + 1));
            assert(all.take(taken + 1).drop_last() =~= all.take(taken as int));
            assert(all.take(taken + 1).last() == sample);
        }
        match validate_sample(&sample) {
            Ok(()) => {
                let kind_index: usize = match sample.decision_kind {
                    DecisionKind::ActiveTurn => 0,
                    DecisionKind::ClaimWindow => 1,
                    DecisionKind::RobKong => 2,
                };
                let ghost before = accepted@;
                let ghost before_split = report.samples_by_split@;
                let ghost before_kind = report.samples_by_decision_kind@;
                report.samples_by_split.set(split_index, report.samples_by_split[split_index] + 1);
                report.samples_by_decision_kind.set(kind_index, report.samples_by_decision_kind[kind_index] + 1);
                report.sample_count = report.sample_count + 1;
                accepted.push(sample);
                proof {
                    assert(accepted@.drop_last() =~= before);
                    assert forall|i: int| 0 <= i < 3 implies count_of_kind(accepted@, i) <= accepted@.len() by {
                        assert(count_of_kind(accepted@, i) == count_of_kind(before, i) + if kind_position(
                            accepted@.last().decision_kind,
                        ) == i {
                            1nat
                        } else {
                            0nat
                        });
                    }
                }
            },
            Err(_) => {
                report.runtime_illegal_label_count = report.runtime_illegal_label_count + 1;
            },
        }
        taken += 1;
    }
    assert(all.take(total as int) =~= all);
    accepted
}

/// Every sample that the export keeps has its label among its legal actions.
pub proof fn kept_samples_have_legal_labels(samples: Seq<TrainingDecisionSampleV2>)
    ensures
        forall|i: int|
            0 <= i < legal_samples(samples).len() ==> label_is_legal(#[trigger] legal_samples(samples)[i]),
    decreases samples.len(),
{
    if samples.len() > 0 {
        let rest = legal_samples(samples.drop_last());
        kept_samples_have_legal_labels(samples.drop_last());
        assert forall|i: int| 0 <= i < legal_samples(samples).len() implies label_is_legal(
            #[trigger] legal_samples(samples)[i],
        ) by {
            if i < rest.len() {
                assert(label_is_legal(rest[i]));
            }
        }
    }
}

/// The decision-kind counts of a list of samples add up to its length: each sample is counted
/// under exactly one kind.
pub proof fn decision_kind_counts_add_up(samples: Seq<TrainingDecisionSampleV2>)
    ensures
        count_of_kind(samples, 0) + count_of_kind(samples, 1) + count_of_kind(samples, 2) == samples.len(),
    decreases samples.len(),
{
    if samples.len() > 0 {
        decision_kind_counts_add_up(samples.drop_last());
    }
}

/// One replayed match: its id, its split and its samples.
pub struct ProcessedMatch {
    pub match_id: String,
    pub split: DatasetSplit,
    pub samples: Result<Vec<TrainingDecisionSampleV2>, String>,
}

/// Replays one match for the export: its split comes from its id, its samples from the
/// replay, `winner_fan` being the fan of its winning hand.
pub fn process_one_match(record: BotZoneMatch, winner_fan: i64) -> (r: ProcessedMatch)
    requires
        replayable(record),
    ensures
        r.match_id@ == record.match_id@,
        r.split == split_of_bucket((fnv1a(vstd::utf8::encode_utf8(record.match_id@)) % 100) as int),
        r.samples matches Ok(samples) && samples_v(samples@) == replay_upto(
            record,
            winner_fan,
            record.events@.len() as int,
        ).1,
{
    let split = split_for_match_id(record.match_id.as_str());
    let match_id = record.match_id.clone();
    let samples = match replay_match_to_samples(&record, winner_fan) {
        Ok(samples) => Ok(samples),
        Err(error) => Err(error.message()),
    };
    ProcessedMatch { match_id, split, samples }
}

/// How a directory export runs: at most so many round files, a progress line every so many.
#[derive(Debug, Clone, Copy, PartialEq, Eq, Default)]
pub struct ExportDirectoryOptions {
    pub max_matches: Option<usize>,
    pub progress_every: Option<usize>,
}

/// What a directory export did: the round files read and the samples written, the files
/// skipped for a parse or a replay error, each with a note, and the samples refused.
#[derive(Debug, Clone, PartialEq, Eq, Default)]
pub struct Datasets2ExportReport {
    pub match_count: usize,
    pub sample_count: usize,
    pub parse_error_count: usize,
    pub replay_error_count: usize,
    pub runtime_illegal_label_count: usize,
    pub skipped_files: Vec<String>,
}

/// The note kept for a skipped file: its source, a colon and a space, then the error.
pub open spec fn skip_note(source: Seq<char>, error: Seq<char>) -> Seq<char> {
    source + seq![':', ' '] + error
}

/// Whether a directory export has read as many round files as it may.
pub fn export_limit_reached(options: &ExportDirectoryOptions, report: &Datasets2ExportReport) -> (r: bool)
    ensures
        r == (options.max_matches matches Some(limit) && report.match_count >= limit),
{
    match options.max_matches {
        Some(limit) => report.match_count >= limit,
        None => false,
    }
}

/// Whether a progress line is due after `processed` files: every so many, never for none.
pub fn progress_due(progress_every: Option<usize>, processed: usize) -> (r: bool)
    ensures
        r == (progress_every matches Some(every) && every > 0 && processed > 0 && processed % every == 0),
{
    match progress_every {
        Some(every) => every > 0 && processed > 0 && processed % every == 0,
        None => false,
    }
}

fn note_for(source: &str, error: &str) -> (r: String)
    ensures
        r@ == skip_note(source@, error@),
{
    let mut note = owned(source);
    push_str(&mut note, ": ");
    proof {
        reveal_strlit(": ");
        assert(": "@ =~= seq![':', ' ']);
    }
    push_str(&mut note, error);
    note
}

impl Datasets2ExportReport {
    /// Counts a file that did not parse and keeps its note.
    pub fn record_parse_error(&mut self, source: &str, error: &str)
        requires
            old(self).parse_error_count < usize::MAX,
        ensures
            final(self).parse_error_count == old(self).parse_error_count + 1,
            strs_v(final(self).skipped_files@) == strs_v(old(self).skipped_files@).push(skip_note(source@, error@)),
            final(self).match_count == old(self).match_count,
            final(self).sample_count == old(self).sample_count,
            final(self).replay_error_count == old(self).replay_error_count,
            final(self).runtime_illegal_label_count == old(self).runtime_illegal_label_count,
    {
        self.parse_error_count = self.parse_error_count + 1;
        let note = note_for(source, error);
        let ghost before = strs_v(self.skipped_files@);
        let ghost nv = note@;
        self.skipped_files.push(note);
        assert(strs_v(self.skipped_files@) =~= before.push(nv));
    }

    /// Counts a file whose record did not replay and keeps its note.
    pub fn record_replay_error(&mut self, source: &str, error: &str)
        requires
            old(self).replay_error_count < usize::MAX,
        ensures
            final(self).replay_error_count == old(self).replay_error_count + 1,
            strs_v(final(self).skipped_files@) == strs_v(old(self).skipped_files@).push(skip_note(source@, error@)),
            final(self).match_count == old(self).match_count,
            final(self).sample_count == old(self).sample_count,
            final(self).parse_error_count == old(self).parse_error_count,
            final(self).runtime_illegal_label_count == old(self).runtime_illegal_label_count,
    {
        self.replay_error_count = self.replay_error_count + 1;
        let note = note_for(source, error);
        let ghost before = strs_v(self.skipped_files@);
        let ghost nv = note@;
        self.skipped_files.push(note);
        assert(strs_v(self.skipped_files@) =~= before.push(nv));
    }

    /// Counts a round file that parsed.
    pub fn record_parsed_match(&mut self)
        requires
            old(self).match_count < usize::MAX,
        ensures
            final(self).match_count == old(self).match_count + 1,
            final(self).sample_count == old(self).sample_count,
            final(self).parse_error_count == old(self).parse_error_count,
            final(self).replay_error_count == old(self).replay_error_count,
            final(self).runtime_illegal_label_count == old(self).runtime_illegal_label_count,
            final(self).skipped_files@ == old(self).skipped_files@,
    {
        self.match_count = self.match_count + 1;
    }

    /// Keeps the samples of a replayed file whose labels are legal, in order, and counts the
    /// kept and the refused.
    pub fn accept_round_samples(&mut self, samples: Vec<TrainingDecisionSampleV2>) -> (r: Vec<TrainingDecisionSampleV2>)
        requires
            old(self).sample_count + samples@.len() <= usize::MAX,
            old(self).runtime_illegal_label_count + samples@.len() <= usize::MAX,
        ensures
            r@ == legal_samples(samples@),
            final(self).sample_count == old(self).sample_count + r@.len(),
            final(self).runtime_illegal_label_count == old(self).runtime_illegal_label_count + samples@.len()
                - r@.len(),
            final(self).match_count == old(self).match_count,
            final(self).parse_error_count == old(self).parse_error_count,
            final(self).replay_error_count == old(self).replay_error_count,
            final(self).skipped_files@ == old(self).skipped_files@,
    {
        let ghost all = samples@;
        let ghost start = *self;
        let mut accepted: Vec<TrainingDecisionSampleV2> = Vec::new();
        let mut rest = samples;
        let mut taken: usize = 0;
        let total = rest.len();
        while rest.len() > 0
            invariant
                all.len() == total,
                taken + rest@.len() == total,
                rest@ == all.skip(taken as int),
                accepted@ == legal_samples(all.take(taken as int)),
                accepted@.len() <= taken,
                self.sample_count == start.sample_count + accepted@.len(),
                self.runtime_illegal_label_count == start.runtime_illegal_label_count + taken - accepted@.len(),
                start.sample_count + total <= usize::MAX,
                start.runtime_illegal_label_count + total <= usize::MAX,
                self.match_count == start.match_count,
                self.parse_error_count == start.parse_error_count,
                self.replay_error_count == start.replay_error_count,
                self.skipped_files@ == start.skipped_files@,
            decreases rest@.len(),
        {
            let sample = rest.remove(0);
            proof {
                assert(all.skip(taken as int)[0] == all[taken as int]);
                assert(rest@ =~= all.skip(taken + 1));
                assert(all.take(taken + 1).drop_last() =~= all.take(taken as int));
                assert(all.take(taken + 1).last() == sample);
            }
            match validate_sample(&sample) {
                Ok(()) => {
                    self.sample_count = self.sample_count + 1;
                    accepted.push(sample);
                },
                Err(_) => {
                    self.runtime_illegal_label_count = self.runtime_illegal_label_count + 1;
                },
            }
            taken += 1;
        }
        assert(all.take(total as int) =~= all);
        accepted
    }
}

} // verus!
