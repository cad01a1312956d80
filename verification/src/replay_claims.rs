use vstd::prelude::*;

use crate::context::{tile_index, tile_key_for_index};
use crate::ordering::sort_by_rank_exec;
use crate::replay::{SerializableBotTile, SerializableClaimOption, SerializableSelfKongCandidate};
use crate::replay_state::{first_key_index, is_pung_of, ReplayModel};
use crate::replay_view::{
    claims_v, groups_v, kongs_v, sort_by_rank, strs_v, tiles_v, ClaimV, KongV, TileV,
};
use crate::shanten::TILE_KIND_COUNT;
use crate::text::{owned, str_equal};
use crate::tiles::{lemma_key_of_tile_index, spec_tile_index, spec_tile_key};

verus! {

/// The key of kind `k`, or the empty key past the last kind.
pub open spec fn key_of_kind(k: int) -> Seq<char> {
    if 0 <= k < 34 {
        spec_tile_key(k)
    } else {
        Seq::empty()
    }
}

/// The pairs of kinds that make a run with a discard of kind `i`: the two below, one on each
/// side, and the two above, as far as the suit allows; none for an honour.
pub open spec fn chow_pairs(i: int) -> Seq<(int, int)> {
    if i >= 27 {
        Seq::empty()
    } else {
        let rank = i % 9 + 1;
        (if rank >= 3 {
            seq![(i - 2, i - 1)]
        } else {
            Seq::empty()
        }) + (if 2 <= rank <= 8 {
            seq![(i - 1, i + 1)]
        } else {
            Seq::empty()
        }) + (if rank <= 7 {
            seq![(i + 1, i + 2)]
        } else {
            Seq::empty()
        })
    }
}

/// Whether kinds `a < b`, together with `i`, are three consecutive ranks of one suit.
pub open spec fn completes_run(i: int, a: int, b: int) -> bool {
    &&& 0 <= a < b < 27
    &&& 0 <= i < 27
    &&& a != i && b != i
    &&& a / 9 == i / 9 && b / 9 == i / 9
    &&& (if a < i { a } else { i }) + 2 == (if b > i { b } else { i })
}

/// The chow pairs of a discard are exactly the pairs of kinds that make a run with it: every
/// run of its suit that holds it is offered, in particular the two kinds above whenever both
/// stay in the suit (rank 7 and below), and nothing else is; an honour has none. No pair is
/// offered twice, and they come lowest run first.
pub proof fn chow_pairs_are_the_runs_through_the_discard(i: int)
    requires
        0 <= i < 34,
    ensures
        forall|a: int, b: int| #[trigger] chow_pairs(i).contains((a, b)) <==> completes_run(i, a, b),
        chow_pairs(i).no_duplicates(),
        forall|j: int, k: int| 0 <= j < k < chow_pairs(i).len() ==> #[trigger] chow_pairs(i)[j].0 < #[trigger] chow_pairs(i)[k].0,
        i < 27 && i % 9 <= 6 ==> chow_pairs(i).contains((i + 1, i + 2)),
{
    let p = chow_pairs(i);
    assert forall|a: int, b: int| #[trigger] p.contains((a, b)) <==> completes_run(i, a, b) by {
        if p.contains((a, b)) {
            let k = choose|k: int| 0 <= k < p.len() && p[k] == (a, b);
            assert(p[k] == (a, b));
        }
        if completes_run(i, a, b) {
            if a < i && b < i {
                assert(a == i - 2 && b == i - 1);
                assert(i % 9 >= 2);
                assert(p[0] == (a, b));
            } else if a < i {
                assert(a == i - 1 && b == i + 1);
                assert(1 <= i % 9 <= 7);
                let k = if i % 9 >= 2 { 1int } else { 0int };
                assert(p[k] == (a, b));
            } else {
                assert(a == i + 1 && b == i + 2);
                assert(i % 9 <= 6);
                let k = (if i % 9 >= 2 { 1int } else { 0int }) + (if i % 9 >= 1 { 1int } else { 0int });
                assert(p[k] == (a, b));
            }
        }
    }
    if i < 27 && i % 9 <= 6 {
        assert(completes_run(i, i + 1, i + 2));
    }
}

/// The pairs of kinds that make a run with a discard of kind `tile_index`.
pub fn chow_required_tile_pairs(tile_index: usize) -> (r: Vec<(usize, usize)>)
    requires
        tile_index < 34,
    ensures
        r@.map_values(|p: (usize, usize)| (p.0 as int, p.1 as int)) == chow_pairs(tile_index as int),
{
    let mut pairs: Vec<(usize, usize)> = Vec::new();
    if tile_index >= 27 {
        assert(pairs@.map_values(|p: (usize, usize)| (p.0 as int, p.1 as int)) =~= chow_pairs(tile_index as int));
        return pairs;
    }
    let rank = tile_index % 9 + 1;
    let ghost i = tile_index as int;
    let ghost a: Seq<(int, int)> = if rank >= 3 {
        seq![(i - 2, i - 1)]
    } else {
        Seq::empty()
    };
    let ghost b: Seq<(int, int)> = if 2 <= rank <= 8 {
        seq![(i - 1, i + 1)]
    } else {
        Seq::empty()
    };
    let ghost c: Seq<(int, int)> = if rank <= 7 {
        seq![(i + 1, i + 2)]
    } else {
        Seq::empty()
    };
    if rank >= 3 {
        pairs.push((tile_index - 2, tile_index - 1));
    }
    assert(pairs@.map_values(|p: (usize, usize)| (p.0 as int, p.1 as int)) =~= a);
    if 2 <= rank && rank <= 8 {
        pairs.push((tile_index - 1, tile_index + 1));
    }
    assert(pairs@.map_values(|p: (usize, usize)| (p.0 as int, p.1 as int)) =~= a + b);
    if rank <= 7 {
        pairs.push((tile_index + 1, tile_index + 2));
    }
    assert(pairs@.map_values(|p: (usize, usize)| (p.0 as int, p.1 as int)) =~= a + b + c);
    pairs
}

/// The id of the first tile of the hand with key `key`.
pub open spec fn first_id_with_key(hand: Seq<TileV>, key: Seq<char>) -> Option<Seq<char>> {
    match first_key_index(hand, key, 0) {
        Some(i) => Some(hand[i].0),
        None => None,
    }
}

proof fn lemma_first_key_index_at(hand: Seq<TileV>, key: Seq<char>, from: int, k: int)
    requires
        0 <= from <= k <= hand.len(),
        forall|j: int| from <= j < k ==> (#[trigger] hand[j]).1 != key,
    ensures
        k == hand.len() ==> first_key_index(hand, key, from) is None,
        k < hand.len() && hand[k].1 == key ==> first_key_index(hand, key, from) == Some(k),
    decreases k - from,
{
    if from < k {
        lemma_first_key_index_at(hand, key, from + 1, k);
    }
}

/// The id of the first tile of the hand with key `key`.
pub fn first_id_with_key_exec(hand: &Vec<SerializableBotTile>, key: &str) -> (r: Option<String>)
    ensures
        match first_id_with_key(tiles_v(hand@), key@) {
            Some(id) => r matches Some(s) && s@ == id,
            None => r is None,
        },
{
    let ghost h = tiles_v(hand@);
    let mut i: usize = 0;
    while i < hand.len()
        invariant
            h == tiles_v(hand@),
            i <= hand@.len(),
            forall|j: int| 0 <= j < i ==> (#[trigger] h[j]).1 != key@,
        decreases hand@.len() - i,
    {
        if str_equal(hand[i].tile_key.as_str(), key) {
            proof {
                lemma_first_key_index_at(h, key@, 0, i as int);
            }
            return Some(hand[i].tile_id.clone());
        }
        i += 1;
    }
    proof {
        lemma_first_key_index_at(h, key@, 0, i as int);
    }
    None
}

/// The tile-id pairs that make a run with the discard, one per pair of kinds that the hand
/// holds, each tile the first of its key.
pub open spec fn chow_options_from(hand: Seq<TileV>, pairs: Seq<(int, int)>) -> Seq<Seq<Seq<char>>>
    decreases pairs.len(),
{
    if pairs.len() == 0 {
        Seq::empty()
    } else {
        let rest = chow_options_from(hand, pairs.drop_last());
        let p = pairs.last();
        match (first_id_with_key(hand, key_of_kind(p.0)), first_id_with_key(hand, key_of_kind(p.1))) {
            (Some(a), Some(b)) => rest.push(seq![a, b]),
            _ => rest,
        }
    }
}

pub open spec fn chow_id_options(hand: Seq<TileV>, discard: Seq<char>) -> Seq<Seq<Seq<char>>> {
    match spec_tile_index(discard) {
        Some(i) => chow_options_from(hand, chow_pairs(i)),
        None => Seq::empty(),
    }
}

pub open spec fn id_groups_v(v: Seq<Vec<String>>) -> Seq<Seq<Seq<char>>> {
    v.map_values(|g: Vec<String>| strs_v(g@))
}

/// The tile-id pairs of the hand that make a run with the discard.
pub fn chow_tile_id_options(hand: &Vec<SerializableBotTile>, discarded_tile_key: &str) -> (r: Vec<Vec<String>>)
    ensures
        id_groups_v(r@) == chow_id_options(tiles_v(hand@), discarded_tile_key@),
{
    let mut options: Vec<Vec<String>> = Vec::new();
    let discard_index = match tile_index(discarded_tile_key) {
        Some(i) => i,
        None => {
            assert(id_groups_v(options@) =~= Seq::<Seq<Seq<char>>>::empty());
            return options;
        },
    };
    proof {
        lemma_key_of_tile_index(discarded_tile_key@);
    }
    let pairs = chow_required_tile_pairs(discard_index);
    let ghost ps = chow_pairs(discard_index as int);
    let ghost h = tiles_v(hand@);
    let mut k: usize = 0;
    while k < pairs.len()
        invariant
            pairs@.map_values(|p: (usize, usize)| (p.0 as int, p.1 as int)) == ps,
            h == tiles_v(hand@),
            k <= pairs@.len(),
            id_groups_v(options@) == chow_options_from(h, ps.take(k as int)),
        decreases pairs@.len() - k,
    {
        let (left, right) = pairs[k];
        proof {
            assert(ps[k as int] == (left as int, right as int));
            assert(ps.take(k + 1).drop_last() =~= ps.take(k as int));
            assert(ps.take(k + 1).last() == (left as int, right as int));
        }
        let left_key = tile_key_for_index(left);
        let right_key = tile_key_for_index(right);
        let left_id = first_id_with_key_exec(hand, left_key);
        let right_id = first_id_with_key_exec(hand, right_key);
        match (left_id, right_id) {
            (Some(a), Some(b)) => {
                let ghost av = a@;
                let ghost bv = b@;
                let mut ids: Vec<String> = Vec::new();
                ids.push(a);
                ids.push(b);
                assert(strs_v(ids@) =~= seq![av, bv]);
                options.push(ids);
                assert(id_groups_v(options@) =~= chow_options_from(h, ps.take(k as int)).push(seq![av, bv]));
            },
            _ => {},
        }
        k += 1;
    }
    assert(ps.take(k as int) =~= ps);
    options
}

/// Index of the first tile at or after `from` with id `id`.
pub open spec fn first_id_index(hand: Seq<TileV>, id: Seq<char>, from: int) -> Option<int>
    decreases hand.len() - from,
{
    if from < 0 || from >= hand.len() {
        None
    } else if hand[from].0 == id {
        Some(from)
    } else {
        first_id_index(hand, id, from + 1)
    }
}

/// The key of the first tile of the hand with id `id`.
pub open spec fn key_of_id(hand: Seq<TileV>, id: Seq<char>) -> Option<Seq<char>> {
    match first_id_index(hand, id, 0) {
        Some(i) => Some(hand[i].1),
        None => None,
    }
}

proof fn lemma_first_id_index(hand: Seq<TileV>, id: Seq<char>, from: int, k: int)
    requires
        0 <= from <= k <= hand.len(),
        forall|j: int| from <= j < k ==> (#[trigger] hand[j]).0 != id,
    ensures
        k == hand.len() ==> first_id_index(hand, id, from) is None,
        k < hand.len() && hand[k].0 == id ==> first_id_index(hand, id, from) == Some(k),
    decreases k - from,
{
    if from < k {
        lemma_first_id_index(hand, id, from + 1, k);
    }
}

/// The key of the first tile of the hand with id `id`.
pub fn key_of_id_exec(hand: &Vec<SerializableBotTile>, id: &str) -> (r: Option<String>)
    ensures
        match key_of_id(tiles_v(hand@), id@) {
            Some(k) => r matches Some(s) && s@ == k,
            None => r is None,
        },
{
    let ghost h = tiles_v(hand@);
    let mut i: usize = 0;
    while i < hand.len()
        invariant
            h == tiles_v(hand@),
            i <= hand@.len(),
            forall|j: int| 0 <= j < i ==> (#[trigger] h[j]).0 != id@,
        decreases hand@.len() - i,
    {
        if str_equal(hand[i].tile_id.as_str(), id) {
            proof {
                lemma_first_id_index(h, id@, 0, i as int);
            }
            return Some(hand[i].tile_key.clone());
        }
        i += 1;
    }
    proof {
        lemma_first_id_index(h, id@, 0, i as int);
    }
    None
}

/// The discard's key, then the keys of the tiles with the given ids that the hand holds.
pub open spec fn keys_with_ids(hand: Seq<TileV>, discard: Seq<char>, ids: Seq<Seq<char>>) -> Seq<Seq<char>>
    decreases ids.len(),
{
    if ids.len() == 0 {
        seq![discard]
    } else {
        let rest = keys_with_ids(hand, discard, ids.drop_last());
        match key_of_id(hand, ids.last()) {
            Some(k) => rest.push(k),
            None => rest,
        }
    }
}

fn keys_with_ids_exec(hand: &Vec<SerializableBotTile>, discard: &str, ids: &Vec<String>) -> (r: Vec<String>)
    ensures
        strs_v(r@) == keys_with_ids(tiles_v(hand@), discard@, strs_v(ids@)),
{
    let ghost is = strs_v(ids@);
    let mut keys: Vec<String> = Vec::new();
    keys.push(owned(discard));
    assert(strs_v(keys@) =~= seq![discard@]);
    assert(is.take(0) =~= Seq::<Seq<char>>::empty());
    let mut k: usize = 0;
    while k < ids.len()
        invariant
            is == strs_v(ids@),
            k <= ids@.len(),
            strs_v(keys@) == keys_with_ids(tiles_v(hand@), discard@, is.take(k as int)),
        decreases ids@.len() - k,
    {
        proof {
            assert(is.take(k + 1).drop_last() =~= is.take(k as int));
            assert(is.take(k + 1).last() == ids@[k as int]@);
        }
        match key_of_id_exec(hand, ids[k].as_str()) {
            Some(key) => {
                let ghost kv = key@;
                let ghost before = strs_v(keys@);
                keys.push(key);
                assert(strs_v(keys@) =~= before.push(kv));
            },
            None => {},
        }
        k += 1;
    }
    assert(is.take(k as int) =~= is);
    keys
}

/// The middle key of the run that the discard and the tiles with these ids make, where there
/// are two keys or more.
pub open spec fn run_middle(hand: Seq<TileV>, discard: Seq<char>, ids: Seq<Seq<char>>) -> Option<Seq<char>> {
    let sorted = sort_by_rank(keys_with_ids(hand, discard, ids));
    if sorted.len() > 1 {
        Some(sorted[1])
    } else {
        None
    }
}

fn run_middle_exec(hand: &Vec<SerializableBotTile>, discard: &str, ids: &Vec<String>) -> (r: Option<String>)
    ensures
        match run_middle(tiles_v(hand@), discard@, strs_v(ids@)) {
            Some(k) => r matches Some(s) && s@ == k,
            None => r is None,
        },
{
    let keys = keys_with_ids_exec(hand, discard, ids);
    let sorted = sort_by_rank_exec(&keys);
    if sorted.len() > 1 {
        assert(strs_v(sorted@)[1] == sorted@[1]@);
        Some(sorted[1].clone())
    } else {
        None
    }
}

/// The middle key of a chow option's run: the second by rank of the discard and its tiles,
/// or the discard where there is no second.
pub open spec fn chow_middle_key(hand: Seq<TileV>, discard: Seq<char>, ids: Seq<Seq<char>>) -> Seq<char> {
    match run_middle(hand, discard, ids) {
        Some(k) => k,
        None => discard,
    }
}

/// The middle key of a chow option's run.
pub fn chow_middle_key_exec(hand: &Vec<SerializableBotTile>, discard: &str, ids: &Vec<String>) -> (r: String)
    ensures
        r@ == chow_middle_key(tiles_v(hand@), discard@, strs_v(ids@)),
{
    match run_middle_exec(hand, discard, ids) {
        Some(k) => k,
        None => owned(discard),
    }
}

/// The first option, from `from` on, whose run has `middle` in the middle.
pub open spec fn option_with_middle(
    hand: Seq<TileV>,
    discard: Seq<char>,
    middle: Seq<char>,
    options: Seq<Seq<Seq<char>>>,
    from: int,
) -> Option<Seq<Seq<char>>>
    decreases options.len() - from,
{
    if from < 0 || from >= options.len() {
        None
    } else if run_middle(hand, discard, options[from]) == Some(middle) {
        Some(options[from])
    } else {
        option_with_middle(hand, discard, middle, options, from + 1)
    }
}

/// The tiles of the hand that a chow on the discard with middle `middle` uses.
pub open spec fn chow_ids_for_middle(hand: Seq<TileV>, discard: Seq<char>, middle: Seq<char>) -> Option<Seq<Seq<char>>> {
    option_with_middle(hand, discard, middle, chow_id_options(hand, discard), 0)
}

proof fn lemma_option_with_middle(
    hand: Seq<TileV>,
    discard: Seq<char>,
    middle: Seq<char>,
    options: Seq<Seq<Seq<char>>>,
    from: int,
    k: int,
)
    requires
        0 <= from <= k <= options.len(),
        forall|j: int| from <= j < k ==> run_middle(hand, discard, #[trigger] options[j]) != Some(middle),
    ensures
        k == options.len() ==> option_with_middle(hand, discard, middle, options, from) is None,
        k < options.len() && run_middle(hand, discard, options[k]) == Some(middle) ==> option_with_middle(
            hand,
            discard,
            middle,
            options,
            from,
        ) == Some(options[k]),
    decreases k - from,
{
    if from < k {
        lemma_option_with_middle(hand, discard, middle, options, from + 1, k);
    }
}

/// The tiles of the hand that a chow on the discard with middle `middle` uses.
pub fn chow_tile_ids_for_middle(
    hand: &Vec<SerializableBotTile>,
    discarded_tile_key: &str,
    middle_tile_key: &str,
) -> (r: Option<Vec<String>>)
    ensures
        match chow_ids_for_middle(tiles_v(hand@), discarded_tile_key@, middle_tile_key@) {
            Some(ids) => r matches Some(v) && strs_v(v@) == ids,
            None => r is None,
        },
{
    let options = chow_tile_id_options(hand, discarded_tile_key);
    let ghost os = chow_id_options(tiles_v(hand@), discarded_tile_key@);
    let mut k: usize = 0;
    while k < options.len()
        invariant
            id_groups_v(options@) == os,
            os == chow_id_options(tiles_v(hand@), discarded_tile_key@),
            k <= options@.len(),
            forall|j: int|
                0 <= j < k ==> run_middle(tiles_v(hand@), discarded_tile_key@, #[trigger] os[j]) != Some(
                    middle_tile_key@,
                ),
        decreases options@.len() - k,
    {
        assert(os[k as int] == strs_v(options@[k as int]@));
        match run_middle_exec(hand, discarded_tile_key, &options[k]) {
            Some(m) => {
                if str_equal(m.as_str(), middle_tile_key) {
                    proof {
                        assert(run_middle(tiles_v(hand@), discarded_tile_key@, os[k as int]) == Some(middle_tile_key@));
                        lemma_option_with_middle(tiles_v(hand@), discarded_tile_key@, middle_tile_key@, os, 0, k as int);
                        assert(chow_ids_for_middle(tiles_v(hand@), discarded_tile_key@, middle_tile_key@) == Some(os[k as int]));
                    }
                    let ids = crate::tile::clone_strings(&options[k]);
                    assert(strs_v(ids@) == os[k as int]);
                    return Some(ids);
                }
            },
            None => {},
        }
        k += 1;
    }
    proof {
        lemma_option_with_middle(tiles_v(hand@), discarded_tile_key@, middle_tile_key@, os, 0, k as int);
    }
    None
}

/// The run claimed with a chow: the kinds below, at and above the middle, or the discard
/// alone where the middle names no kind.
pub open spec fn chow_group(discard: Seq<char>, middle: Seq<char>) -> Seq<Seq<char>> {
    match spec_tile_index(middle) {
        Some(m) => seq![
            key_of_kind(if m >= 1 {
                m - 1
            } else {
                0
            }),
            key_of_kind(m),
            key_of_kind(m + 1),
        ],
        None => seq![discard],
    }
}

/// The run claimed with a chow.
pub fn chow_group_exec(discarded_tile_key: &str, middle_tile_key: &str) -> (r: Vec<String>)
    ensures
        strs_v(r@) == chow_group(discarded_tile_key@, middle_tile_key@),
{
    let mut group: Vec<String> = Vec::new();
    match tile_index(middle_tile_key) {
        Some(m) => {
            proof {
                lemma_key_of_tile_index(middle_tile_key@);
            }
            let below = if m >= 1 {
                m - 1
            } else {
                0
            };
            group.push(owned(tile_key_for_index(below)));
            group.push(owned(tile_key_for_index(m)));
            group.push(owned(tile_key_for_index(m + 1)));
        },
        None => {
            group.push(owned(discarded_tile_key));
        },
    }
    assert(strs_v(group@) =~= chow_group(discarded_tile_key@, middle_tile_key@));
    group
}

/// The ids of the hand's tiles of key `key`, in hand order.
pub open spec fn ids_with_key(hand: Seq<TileV>, key: Seq<char>) -> Seq<Seq<char>>
    decreases hand.len(),
{
    if hand.len() == 0 {
        Seq::empty()
    } else {
        let rest = ids_with_key(hand.drop_last(), key);
        if hand.last().1 == key {
            rest.push(hand.last().0)
        } else {
            rest
        }
    }
}

/// The ids of the first `n` tiles of key `key`, or of all where there are fewer.
pub open spec fn take_ids(hand: Seq<TileV>, key: Seq<char>, n: int) -> Seq<Seq<char>> {
    let all = ids_with_key(hand, key);
    if all.len() <= n {
        all
    } else {
        all.take(n)
    }
}

/// The ids of the first `count` tiles of the hand with key `tile_key`.
pub fn take_tile_ids(hand: &Vec<SerializableBotTile>, tile_key: &str, count: usize) -> (r: Vec<String>)
    ensures
        strs_v(r@) == take_ids(tiles_v(hand@), tile_key@, count as int),
{
    let ghost h = tiles_v(hand@);
    let mut ids: Vec<String> = Vec::new();
    let mut i: usize = 0;
    assert(h.take(0) =~= Seq::<TileV>::empty());
    while i < hand.len() && ids.len() < count
        invariant
            h == tiles_v(hand@),
            i <= hand@.len(),
            strs_v(ids@) == ids_with_key(h.take(i as int), tile_key@),
            ids@.len() <= count,
        decreases hand@.len() - i,
    {
        proof {
            assert(h.take(i + 1).drop_last() =~= h.take(i as int));
            assert(h.take(i + 1).last() == h[i as int]);
        }
        if str_equal(hand[i].tile_key.as_str(), tile_key) {
            let ghost before = strs_v(ids@);
            ids.push(hand[i].tile_id.clone());
            assert(strs_v(ids@) =~= before.push(h[i as int].0));
        }
        i += 1;
    }
    proof {
        lemma_ids_prefix(h, tile_key@, i as int);
        if ids@.len() < count {
            assert(h.take(i as int) =~= h);
        }
    }
    ids
}

/// The ids of a prefix of the hand lead the ids of the whole hand.
proof fn lemma_ids_prefix(h: Seq<TileV>, key: Seq<char>, i: int)
    requires
        0 <= i <= h.len(),
    ensures
        ids_with_key(h.take(i), key).len() <= ids_with_key(h, key).len(),
        ids_with_key(h, key).take(ids_with_key(h.take(i), key).len() as int) == ids_with_key(h.take(i), key),
    decreases h.len() - i,
{
    if i < h.len() {
        lemma_ids_prefix(h, key, i + 1);
        let a = ids_with_key(h.take(i), key);
        let b = ids_with_key(h.take(i + 1), key);
        assert(h.take(i + 1).drop_last() =~= h.take(i));
        assert(b.take(a.len() as int) =~= a);
        let all = ids_with_key(h, key);
        assert(all.take(b.len() as int).take(a.len() as int) =~= all.take(a.len() as int));
    } else {
        assert(h.take(i) =~= h);
        assert(ids_with_key(h, key).take(ids_with_key(h, key).len() as int) =~= ids_with_key(h, key));
    }
}

/// Tiles of kind `k` in the hand.
pub open spec fn kind_count(hand: Seq<TileV>, k: int) -> int
    decreases hand.len(),
{
    if hand.len() == 0 {
        0
    } else {
        kind_count(hand.drop_last(), k) + (if spec_tile_index(hand.last().1) == Some(k) {
            1int
        } else {
            0int
        })
    }
}

/// Per-kind counts of the hand, each saturating at 255.
pub open spec fn hand_counts(hand: Seq<TileV>) -> Seq<u8> {
    Seq::new(
        34,
        |k: int|
            if kind_count(hand, k) < 255 {
                kind_count(hand, k) as u8
            } else {
                255u8
            },
    )
}

proof fn lemma_kind_count_nonneg(hand: Seq<TileV>, k: int)
    ensures
        kind_count(hand, k) >= 0,
    decreases hand.len(),
{
    if hand.len() > 0 {
        lemma_kind_count_nonneg(hand.drop_last(), k);
    }
}

/// Per-kind counts of the hand's tiles.
pub fn tile_counts(hand: &Vec<SerializableBotTile>) -> (r: Vec<u8>)
    ensures
        r@ == hand_counts(tiles_v(hand@)),
{
    let ghost h = tiles_v(hand@);
    let mut counts: Vec<u8> = Vec::new();
    let mut k: usize = 0;
    while k < TILE_KIND_COUNT
        invariant
            k <= 34,
            counts@.len() == k,
            forall|j: int| 0 <= j < k ==> #[trigger] counts@[j] == 0,
        decreases 34 - k,
    {
        counts.push(0);
        k += 1;
    }
    let mut i: usize = 0;
    while i < hand.len()
        invariant
            h == tiles_v(hand@),
            i <= hand@.len(),
            counts@.len() == 34,
            forall|j: int|
                0 <= j < 34 ==> #[trigger] counts@[j] == (if kind_count(h.take(i as int), j) < 255 {
                    kind_count(h.take(i as int), j) as u8
                } else {
                    255u8
                }),
        decreases hand@.len() - i,
    {
        proof {
            assert(h.take(i + 1).drop_last() =~= h.take(i as int));
            assert(h.take(i + 1).last() == h[i as int]);
        }
        proof {
            assert forall|j: int| 0 <= j < 34 implies #[trigger] kind_count(h.take(i + 1), j) == kind_count(
                h.take(i as int),
                j,
            ) + (if spec_tile_index(h[i as int].1) == Some(j) {
                1int
            } else {
                0int
            }) by {
                lemma_kind_count_nonneg(h.take(i as int), j);
            }
            assert forall|j: int| 0 <= j < 34 implies #[trigger] kind_count(h.take(i as int), j) >= 0 by {
                lemma_kind_count_nonneg(h.take(i as int), j);
            }
        }
        match tile_index(hand[i].tile_key.as_str()) {
            Some(index) => {
                proof {
                    lemma_key_of_tile_index(h[i as int].1);
                }
                let c = counts[index];
                if c < 255 {
                    counts.set(index, c + 1);
                }
            },
            None => {},
        }
        i += 1;
    }
    assert(h.take(i as int) =~= h);
    assert(counts@ =~= hand_counts(h));
    counts
}

/// The claims that the seat could make on the discard: a pung with two tiles of its key, a
/// kong with three, and, for the next seat after the discarder, each chow.
pub open spec fn claim_options_of(hand: Seq<TileV>, seat: usize, discarder: usize, discard: Seq<char>) -> Seq<ClaimV> {
    let same = match spec_tile_index(discard) {
        Some(i) => hand_counts(hand)[i] as int,
        None => 0,
    };
    (if same >= 2 {
        seq![("pung"@, take_ids(hand, discard, 2))]
    } else {
        Seq::empty()
    }) + (if same >= 3 {
        seq![("kong"@, take_ids(hand, discard, 3))]
    } else {
        Seq::empty()
    }) + (if seat as int == (discarder + 1) % 4 {
        chow_id_options(hand, discard).map_values(|ids: Seq<Seq<char>>| ("chow"@, ids))
    } else {
        Seq::empty()
    })
}

/// The claims that the seat could make on the discard.
pub fn claim_options(
    hand: &Vec<SerializableBotTile>,
    seat_index: usize,
    discarder_seat: usize,
    discarded_tile_key: &str,
) -> (r: Vec<SerializableClaimOption>)
    requires
        discarder_seat < 4,
    ensures
        claims_v(r@) == claim_options_of(tiles_v(hand@), seat_index, discarder_seat, discarded_tile_key@),
{
    let ghost h = tiles_v(hand@);
    let counts = tile_counts(hand);
    let same: u8 = match tile_index(discarded_tile_key) {
        Some(index) => {
            proof {
                lemma_key_of_tile_index(discarded_tile_key@);
            }
            counts[index]
        },
        None => 0,
    };
    let mut options: Vec<SerializableClaimOption> = Vec::new();
    let ghost a: Seq<ClaimV> = if same >= 2 {
        seq![("pung"@, take_ids(h, discarded_tile_key@, 2))]
    } else {
        Seq::empty()
    };
    let ghost b: Seq<ClaimV> = if same >= 3 {
        seq![("kong"@, take_ids(h, discarded_tile_key@, 3))]
    } else {
        Seq::empty()
    };
    if same >= 2 {
        options.push(
            SerializableClaimOption {
                action_type: owned("pung"),
                tile_ids: take_tile_ids(hand, discarded_tile_key, 2),
            },
        );
    }
    assert(claims_v(options@) =~= a);
    if same >= 3 {
        let ghost before = claims_v(options@);
        options.push(
            SerializableClaimOption {
                action_type: owned("kong"),
                tile_ids: take_tile_ids(hand, discarded_tile_key, 3),
            },
        );
        assert(claims_v(options@) =~= before.push(("kong"@, take_ids(h, discarded_tile_key@, 3))));
    }
    assert(claims_v(options@) =~= a + b);
    let ghost c: Seq<ClaimV> = if seat_index as int == (discarder_seat + 1) % 4 {
        chow_id_options(h, discarded_tile_key@).map_values(|ids: Seq<Seq<char>>| ("chow"@, ids))
    } else {
        Seq::empty()
    };
    if seat_index == (discarder_seat + 1) % 4 {
        let chows = chow_tile_id_options(hand, discarded_tile_key);
        let ghost cs = id_groups_v(chows@);
        let mut k: usize = 0;
        while k < chows.len()
            invariant
                cs == id_groups_v(chows@),
                k <= chows@.len(),
                claims_v(options@) == a + b + cs.take(k as int).map_values(
                    |ids: Seq<Seq<char>>| ("chow"@, ids),
                ),
            decreases chows@.len() - k,
        {
            let ghost before = claims_v(options@);
            options.push(
                SerializableClaimOption {
                    action_type: owned("chow"),
                    tile_ids: crate::tile::clone_strings(&chows[k]),
                },
            );
            proof {
                assert(cs[k as int] == strs_v(chows@[k as int]@));
                assert(cs.take(k + 1).map_values(|ids: Seq<Seq<char>>| ("chow"@, ids)) =~= cs.take(
                    k as int,
                ).map_values(|ids: Seq<Seq<char>>| ("chow"@, ids)).push(("chow"@, cs[k as int])));
                assert(claims_v(options@) =~= before.push(("chow"@, cs[k as int])));
            }
            k += 1;
        }
        assert(cs.take(k as int) =~= cs);
    } else {
        assert(a + b + c =~= a + b);
    }
    options
}

/// Whether every entry of a key list equals its first.
pub open spec fn all_same(meld: Seq<Seq<char>>) -> bool {
    forall|j: int| 0 <= j < meld.len() ==> #[trigger] meld[j] == meld[0]
}

/// The concealed kongs among the first `n` tiles: for each first tile of a key, the ids of
/// four tiles of that key where the hand holds four.
pub open spec fn concealed_kongs(hand: Seq<TileV>, n: int) -> Seq<KongV>
    decreases n,
{
    if n <= 0 {
        Seq::empty()
    } else {
        let rest = concealed_kongs(hand, n - 1);
        let k = hand[n - 1].1;
        if first_key_index(hand, k, 0) == Some(n - 1) && take_ids(hand, k, 4).len() == 4 {
            rest.push(("concealed_kong"@, take_ids(hand, k, 4), k, None))
        } else {
            rest
        }
    }
}

/// The kongs that could be added to the first `n` melds: each pung whose key the hand holds.
pub open spec fn add_kongs(hand: Seq<TileV>, melds: Seq<Seq<Seq<char>>>, n: int) -> Seq<KongV>
    decreases n,
{
    if n <= 0 {
        Seq::empty()
    } else {
        let rest = add_kongs(hand, melds, n - 1);
        let meld = melds[n - 1];
        if meld.len() == 3 && all_same(meld) && take_ids(hand, meld[0], 1).len() == 1 {
            rest.push(("add_kong"@, take_ids(hand, meld[0], 1), meld[0], Some((n - 1) as usize)))
        } else {
            rest
        }
    }
}

/// The kongs that a seat could declare on its turn: concealed kongs, then added kongs.
pub open spec fn kong_candidates(hand: Seq<TileV>, melds: Seq<Seq<Seq<char>>>) -> Seq<KongV> {
    concealed_kongs(hand, hand.len() as int) + add_kongs(hand, melds, melds.len() as int)
}

proof fn lemma_first_key_before(hand: Seq<TileV>, key: Seq<char>, i: int)
    requires
        0 <= i < hand.len(),
        hand[i].1 == key,
    ensures
        first_key_index(hand, key, 0) is Some,
        first_key_index(hand, key, 0)->0 <= i,
        hand[first_key_index(hand, key, 0)->0].1 == key,
    decreases i,
{
    let mut k: int = 0;
    if exists|j: int| 0 <= j < i && (#[trigger] hand[j]).1 == key {
        let j = choose|j: int| 0 <= j < i && (#[trigger] hand[j]).1 == key;
        lemma_first_key_before(hand, key, j);
    } else {
        lemma_first_key_index_at(hand, key, 0, i);
    }
}

/// Whether an earlier tile of the hand than `i` has key `key`.
fn key_seen_before(hand: &Vec<SerializableBotTile>, key: &str, i: usize) -> (r: bool)
    requires
        i < hand@.len(),
        tiles_v(hand@)[i as int].1 == key@,
    ensures
        r == (first_key_index(tiles_v(hand@), key@, 0) != Some(i as int)),
{
    let ghost h = tiles_v(hand@);
    let mut j: usize = 0;
    while j < i
        invariant
            h == tiles_v(hand@),
            j <= i < hand@.len(),
            h[i as int].1 == key@,
            forall|t: int| 0 <= t < j ==> (#[trigger] h[t]).1 != key@,
        decreases i - j,
    {
        if str_equal(hand[j].tile_key.as_str(), key) {
            proof {
                lemma_first_key_index_at(h, key@, 0, j as int);
            }
            return true;
        }
        j += 1;
    }
    proof {
        lemma_first_key_index_at(h, key@, 0, i as int);
    }
    false
}

/// Whether every key of a meld equals its first.
fn meld_all_same(meld: &Vec<String>) -> (r: bool)
    requires
        meld@.len() > 0,
    ensures
        r == all_same(strs_v(meld@)),
{
    let ghost m = strs_v(meld@);
    let mut j: usize = 0;
    while j < meld.len()
        invariant
            m == strs_v(meld@),
            meld@.len() > 0,
            j <= meld@.len(),
            forall|t: int| 0 <= t < j ==> #[trigger] m[t] == m[0],
        decreases meld@.len() - j,
    {
        if !str_equal(meld[j].as_str(), meld[0].as_str()) {
            assert(m[j as int] != m[0]);
            return false;
        }
        j += 1;
    }
    true
}

/// The kongs that the seat could declare on its turn.
pub fn self_kong_candidates(hand: &Vec<SerializableBotTile>, melds: &Vec<Vec<String>>) -> (r: Vec<
    SerializableSelfKongCandidate,
>)
    ensures
        kongs_v(r@) == kong_candidates(tiles_v(hand@), groups_v(melds@)),
{
    let ghost h = tiles_v(hand@);
    let ghost ms = groups_v(melds@);
    let mut candidates: Vec<SerializableSelfKongCandidate> = Vec::new();
    let mut i: usize = 0;
    while i < hand.len()
        invariant
            h == tiles_v(hand@),
            i <= hand@.len(),
            kongs_v(candidates@) == concealed_kongs(h, i as int),
        decreases hand@.len() - i,
    {
        let key = &hand[i].tile_key;
        if !key_seen_before(hand, key.as_str(), i) {
            let ids = take_tile_ids(hand, key.as_str(), 4);
            if ids.len() == 4 {
                let ghost before = kongs_v(candidates@);
                candidates.push(
                    SerializableSelfKongCandidate {
                        kind: owned("concealed_kong"),
                        tile_ids: ids,
                        tile_key: key.clone(),
                        meld_index: None,
                    },
                );
                assert(kongs_v(candidates@) =~= before.push(
                    ("concealed_kong"@, take_ids(h, h[i as int].1, 4), h[i as int].1, None),
                ));
            }
        }
        i += 1;
    }
    let ghost concealed = kongs_v(candidates@);
    let mut k: usize = 0;
    while k < melds.len()
        invariant
            h == tiles_v(hand@),
            ms == groups_v(melds@),
            k <= melds@.len(),
            concealed == concealed_kongs(h, h.len() as int),
            kongs_v(candidates@) == concealed + add_kongs(h, ms, k as int),
        decreases melds@.len() - k,
    {
        let meld = &melds[k];
        proof {
            assert(ms[k as int] == strs_v(meld@));
        }
        if meld.len() == 3 && meld_all_same(meld) {
            let ids = take_tile_ids(hand, meld[0].as_str(), 1);
            if ids.len() == 1 {
                let ghost before = kongs_v(candidates@);
                candidates.push(
                    SerializableSelfKongCandidate {
                        kind: owned("add_kong"),
                        tile_ids: ids,
                        tile_key: meld[0].clone(),
                        meld_index: Some(k),
                    },
                );
                assert(kongs_v(candidates@) =~= before.push(
                    ("add_kong"@, take_ids(h, ms[k as int][0], 1), ms[k as int][0], Some(k)),
                ));
            }
        }
        k += 1;
    }
    candidates
}

} // verus!
