use vstd::prelude::*;

use crate::bot::{BotClaimOption, BotContext, BotTileView};
use crate::context::tile_index;
use crate::ordering::sort_by_rank_exec;
use crate::replay_claims::{key_of_id, keys_with_ids};
use crate::replay_view::{sort_by_rank, strs_v, TileV};
use crate::text::{owned, str_equal};
use crate::tiles::{lemma_key_of_tile_index, spec_tile_index};

verus! {

pub open spec fn bot_tiles_v(tiles: Seq<BotTileView>) -> Seq<TileV> {
    tiles.map_values(|t: BotTileView| (t.tile_id@, t.tile_key@, t.is_flower))
}

/// Whether the hand holds a tile with each of the ids.
pub open spec fn ids_all_held(hand: Seq<TileV>, ids: Seq<Seq<char>>) -> bool {
    forall|i: int| 0 <= i < ids.len() ==> (#[trigger] key_of_id(hand, ids[i])) is Some
}

/// How the ranked claim actions name a chow option: `chow_left` where the discard is the
/// lowest tile of the run, `chow_right` where it is the highest, `chow_mid` otherwise and
/// wherever the run cannot be read (no last discard, an honour, a tile the hand lacks, or a
/// middle tile of another suit).
pub open spec fn spec_chow_action_name(hand: Seq<TileV>, last_discard: Option<Seq<char>>, ids: Seq<Seq<char>>) -> Seq<
    char,
> {
    match last_discard {
        None => "chow_mid"@,
        Some(last) => match spec_tile_index(last) {
            None => "chow_mid"@,
            Some(d) => if d >= 27 || !ids_all_held(hand, ids) {
                "chow_mid"@
            } else {
                let sorted = sort_by_rank(keys_with_ids(hand, last, ids));
                if sorted.len() < 2 {
                    "chow_mid"@
                } else {
                    match spec_tile_index(sorted[1]) {
                        None => "chow_mid"@,
                        Some(m) => if m >= 27 || m / 9 != d / 9 {
                            "chow_mid"@
                        } else if d == m - 1 {
                            "chow_left"@
                        } else if d == m + 1 {
                            "chow_right"@
                        } else {
                            "chow_mid"@
                        },
                    }
                }
            },
        },
    }
}

pub open spec fn opt_string_v(o: Option<String>) -> Option<Seq<char>> {
    match o {
        Some(s) => Some(s@),
        None => None,
    }
}

fn ids_held(hand: &Vec<BotTileView>, ids: &Vec<String>) -> (r: bool)
    ensures
        r == ids_all_held(bot_tiles_v(hand@), strs_v(ids@)),
{
    let ghost h = bot_tiles_v(hand@);
    let ghost is = strs_v(ids@);
    let mut k: usize = 0;
    while k < ids.len()
        invariant
            h == bot_tiles_v(hand@),
            is == strs_v(ids@),
            k <= ids@.len(),
            forall|i: int| 0 <= i < k ==> (#[trigger] key_of_id(h, is[i])) is Some,
        decreases ids@.len() - k,
    {
        let mut found = false;
        let mut j: usize = 0;
        while j < hand.len()
            invariant
                h == bot_tiles_v(hand@),
                is == strs_v(ids@),
                k < ids@.len(),
                j <= hand@.len(),
                found ==> key_of_id(h, is[k as int]) is Some,
                !found ==> forall|t: int| 0 <= t < j ==> (#[trigger] h[t]).0 != is[k as int],
            decreases hand@.len() - j,
        {
            if !found && str_equal(hand[j].tile_id.as_str(), ids[k].as_str()) {
                proof {
                    lemma_first_id_at(h, is[k as int], 0, j as int);
                }
                found = true;
            }
            j += 1;
        }
        if !found {
            proof {
                lemma_first_id_at(h, is[k as int], 0, j as int);
            }
            return false;
        }
        k += 1;
    }
    true
}

proof fn lemma_first_id_at(hand: Seq<TileV>, id: Seq<char>, from: int, k: int)
    requires
        0 <= from <= k <= hand.len(),
        forall|j: int| from <= j < k ==> (#[trigger] hand[j]).0 != id,
    ensures
        k == hand.len() ==> crate::replay_claims::first_id_index(hand, id, from) is None,
        k < hand.len() && hand[k].0 == id ==> crate::replay_claims::first_id_index(hand, id, from) == Some(k),
    decreases k - from,
{
    if from < k {
        lemma_first_id_at(hand, id, from + 1, k);
    }
}

pub(crate) fn key_of_id_in(hand: &Vec<BotTileView>, id: &str) -> (r: Option<String>)
    ensures
        match key_of_id(bot_tiles_v(hand@), id@) {
            Some(k) => r matches Some(s) && s@ == k,
            None => r is None,
        },
{
    let ghost h = bot_tiles_v(hand@);
    let mut i: usize = 0;
    while i < hand.len()
        invariant
            h == bot_tiles_v(hand@),
            i <= hand@.len(),
            forall|j: int| 0 <= j < i ==> (#[trigger] h[j]).0 != id@,
        decreases hand@.len() - i,
    {
        if str_equal(hand[i].tile_id.as_str(), id) {
            proof {
                lemma_first_id_at(h, id@, 0, i as int);
            }
            return Some(hand[i].tile_key.clone());
        }
        i += 1;
    }
    proof {
        lemma_first_id_at(h, id@, 0, i as int);
    }
    None
}

fn keys_with_held_ids(hand: &Vec<BotTileView>, discard: &str, ids: &Vec<String>) -> (r: Vec<String>)
    ensures
        strs_v(r@) == keys_with_ids(bot_tiles_v(hand@), discard@, strs_v(ids@)),
{
    let ghost is = strs_v(ids@);
    let mut keys: Vec<String> = Vec::new();
    keys.push(owned(discard));
    assert(strs_v(keys@) =~= seq![discard@]);
    assert(is.take(0) =~= Seq::<Seq<char>>::empty());
    let mut k: usize = 0;
    while k < ids.len()
        invariant
            is == strs_v(ids@),
            k <= ids@.len(),
            strs_v(keys@) == keys_with_ids(bot_tiles_v(hand@), discard@, is.take(k as int)),
        decreases ids@.len() - k,
    {
        proof {
            assert(is.take(k + 1).drop_last() =~= is.take(k as int));
            assert(is.take(k + 1).last() == ids@[k as int]@);
        }
        match key_of_id_in(hand, ids[k].as_str()) {
            Some(key) => {
                let ghost before = strs_v(keys@);
                let ghost kv = key@;
                keys.push(key);
                assert(strs_v(keys@) =~= before.push(kv));
            },
            None => {},
        }
        k += 1;
    }
    assert(is.take(k as int) =~= is);
    keys
}

/// How the ranked claim actions name a chow option of the context.
pub fn claim_chow_action_name(context: &BotContext, option: &BotClaimOption) -> (r: &'static str)
    ensures
        r@ == spec_chow_action_name(
            bot_tiles_v(context.player.concealed_tiles@),
            opt_string_v(context.last_discard_tile_key),
            strs_v(option.tile_ids@),
        ),
{
    proof {
        reveal_strlit("chow_mid");
    }
    let last = match &context.last_discard_tile_key {
        Some(k) => k,
        None => {
            return "chow_mid";
        },
    };
    let discard_index = match tile_index(last.as_str()) {
        Some(i) => i,
        None => {
            return "chow_mid";
        },
    };
    if discard_index >= 27 {
        return "chow_mid";
    }
    let hand = &context.player.concealed_tiles;
    if !ids_held(hand, &option.tile_ids) {
        return "chow_mid";
    }
    let keys = keys_with_held_ids(hand, last.as_str(), &option.tile_ids);
    let sorted = sort_by_rank_exec(&keys);
    if sorted.len() < 2 {
        return "chow_mid";
    }
    assert(strs_v(sorted@)[1] == sorted@[1]@);
    let middle_index = match tile_index(sorted[1].as_str()) {
        Some(m) => m,
        None => {
            return "chow_mid";
        },
    };
    if middle_index >= 27 || middle_index / 9 != discard_index / 9 {
        return "chow_mid";
    }
    if middle_index >= 1 && discard_index == middle_index - 1 {
        return "chow_left";
    }
    if discard_index == middle_index + 1 {
        return "chow_right";
    }
    "chow_mid"
}

/// Whether an option is the ranked action: a chow by the name of its run, any other claim
/// by its type.
pub open spec fn option_is_ranked(
    hand: Seq<TileV>,
    last_discard: Option<Seq<char>>,
    option: BotClaimOption,
    ranked: Seq<char>,
) -> bool {
    if option.action_type@ == "chow"@ {
        spec_chow_action_name(hand, last_discard, strs_v(option.tile_ids@)) == ranked
    } else {
        option.action_type@ == ranked
    }
}

/// Index of the first option from `from` on that is the ranked action.
pub open spec fn ranked_option_from(
    hand: Seq<TileV>,
    last_discard: Option<Seq<char>>,
    options: Seq<BotClaimOption>,
    ranked: Seq<char>,
    from: int,
) -> Option<int>
    decreases options.len() - from,
{
    if from < 0 || from >= options.len() {
        None
    } else if option_is_ranked(hand, last_discard, options[from], ranked) {
        Some(from)
    } else {
        ranked_option_from(hand, last_discard, options, ranked, from + 1)
    }
}

proof fn lemma_ranked_option_from(
    hand: Seq<TileV>,
    last_discard: Option<Seq<char>>,
    options: Seq<BotClaimOption>,
    ranked: Seq<char>,
    from: int,
    k: int,
)
    requires
        0 <= from <= k <= options.len(),
        forall|j: int| from <= j < k ==> !option_is_ranked(hand, last_discard, #[trigger] options[j], ranked),
    ensures
        k == options.len() ==> ranked_option_from(hand, last_discard, options, ranked, from) is None,
        k < options.len() && option_is_ranked(hand, last_discard, options[k], ranked) ==> ranked_option_from(
            hand,
            last_discard,
            options,
            ranked,
            from,
        ) == Some(k),
    decreases k - from,
{
    if from < k {
        lemma_ranked_option_from(hand, last_discard, options, ranked, from + 1, k);
    }
}

/// The claim option of the context that a ranked claim action names: the first whose chow
/// name, or whose type for other claims, is the action.
pub fn claim_option_for_ranked_action<'a>(context: &'a BotContext, ranked_action_name: &str) -> (r: Option<
    &'a BotClaimOption,
>)
    ensures
        match ranked_option_from(
            bot_tiles_v(context.player.concealed_tiles@),
            opt_string_v(context.last_discard_tile_key),
            context.claim_options@,
            ranked_action_name@,
            0,
        ) {
            Some(i) => r == Some(&context.claim_options@[i]),
            None => r is None,
        },
{
    let ghost hand = bot_tiles_v(context.player.concealed_tiles@);
    let ghost last = opt_string_v(context.last_discard_tile_key);
    let options = &context.claim_options;
    let mut k: usize = 0;
    while k < options.len()
        invariant
            hand == bot_tiles_v(context.player.concealed_tiles@),
            last == opt_string_v(context.last_discard_tile_key),
            options@ == context.claim_options@,
            k <= options@.len(),
            forall|j: int| 0 <= j < k ==> !option_is_ranked(hand, last, #[trigger] options@[j], ranked_action_name@),
        decreases options@.len() - k,
    {
        let option = &options[k];
        let matches_ranked = if str_equal(option.action_type.as_str(), "chow") {
            str_equal(claim_chow_action_name(context, option), ranked_action_name)
        } else {
            str_equal(option.action_type.as_str(), ranked_action_name)
        };
        if matches_ranked {
            proof {
                lemma_ranked_option_from(hand, last, options@, ranked_action_name@, 0, k as int);
            }
            return Some(option);
        }
        k += 1;
    }
    proof {
        lemma_ranked_option_from(hand, last, options@, ranked_action_name@, 0, k as int);
    }
    None
}

} // verus!
