use vstd::prelude::*;

use crate::action_space::{claim_action_index, claim_action_name, claim_action_names_are_distinct, self_kong_action_name, CLAIM_ACTION_COUNT, SELF_KONG_ACTION_COUNT};
use crate::bot::{BotClaimOption, BotContext, BotSelfKongKind};
use crate::context::tile_index;
use crate::policy::{bot_tiles_v, claim_chow_action_name, opt_string_v, spec_chow_action_name};
use crate::replay_view::{strs_v, TileV};
use crate::shanten::TILE_KIND_COUNT;
use crate::text::str_equal;
use crate::tiles::spec_tile_index;

verus! {

/// Whether the hand tile `t` lets the bot discard kind `k`: it is no flower, its key is not
/// the restricted one, and it is of kind `k`.
pub open spec fn discard_allowed(t: TileV, restricted: Option<Seq<char>>, k: int) -> bool {
    !t.2 && restricted != Some(t.1) && spec_tile_index(t.1) == Some(k)
}

/// Whether some tile of the hand lets the bot discard kind `k`.
pub open spec fn discard_legal(hand: Seq<TileV>, restricted: Option<Seq<char>>, k: int) -> bool {
    exists|i: int| 0 <= i < hand.len() && discard_allowed(#[trigger] hand[i], restricted, k)
}

/// The kinds that the bot may discard.
pub fn legal_discard_mask(context: &BotContext) -> (r: [bool; 34])
    ensures
        forall|k: int|
            0 <= k < 34 ==> #[trigger] r@[k] == discard_legal(
                bot_tiles_v(context.player.concealed_tiles@),
                opt_string_v(context.restricted_discard_tile_key),
                k,
            ),
{
    let ghost hand = bot_tiles_v(context.player.concealed_tiles@);
    let ghost restricted = opt_string_v(context.restricted_discard_tile_key);
    let mut mask = [false; TILE_KIND_COUNT];
    let mut j: usize = 0;
    while j < context.player.concealed_tiles.len()
        invariant
            hand == bot_tiles_v(context.player.concealed_tiles@),
            restricted == opt_string_v(context.restricted_discard_tile_key),
            j <= hand.len(),
            forall|k: int| 0 <= k < 34 ==> #[trigger] mask@[k] == discard_legal(hand.take(j as int), restricted, k),
        decreases hand.len() - j,
    {
        let ghost before = hand.take(j as int);
        let ghost after = hand.take(j + 1);
        let tile = &context.player.concealed_tiles[j];
        let is_restricted = match &context.restricted_discard_tile_key {
            Some(key) => str_equal(key.as_str(), tile.tile_key.as_str()),
            None => false,
        };
        let index = if tile.is_flower || is_restricted {
            None
        } else {
            tile_index(tile.tile_key.as_str())
        };
        assert(after[j as int] == hand[j as int]);
        match index {
            Some(i) => {
                mask[i] = true;
            },
            None => {},
        }
        proof {
            assert forall|k: int| 0 <= k < 34 implies #[trigger] mask@[k] == discard_legal(after, restricted, k) by {
                if discard_legal(after, restricted, k) {
                    let t = choose|t: int| 0 <= t < after.len() && discard_allowed(#[trigger] after[t], restricted, k);
                    if t < j {
                        assert(before[t] == after[t]);
                    }
                }
                if discard_legal(before, restricted, k) {
                    let t = choose|t: int| 0 <= t < before.len() && discard_allowed(#[trigger] before[t], restricted, k);
                    assert(after[t] == before[t]);
                }
            }
        }
        j += 1;
    }
    assert(hand.take(j as int) =~= hand);
    mask
}

/// How the claim head names a claim option: its action type, a chow by its shape.
pub open spec fn mask_action_name(context: BotContext, option: BotClaimOption) -> Seq<char> {
    if option.action_type@ != seq!['c', 'h', 'o', 'w'] {
        option.action_type@
    } else {
        spec_chow_action_name(
            bot_tiles_v(context.player.concealed_tiles@),
            opt_string_v(context.last_discard_tile_key),
            strs_v(option.tile_ids@),
        )
    }
}

/// Whether some claim option is named by claim action `k`.
pub open spec fn claim_offered(context: BotContext, options: Seq<BotClaimOption>, k: int) -> bool {
    exists|i: int| 0 <= i < options.len() && claim_action_name(k) == mask_action_name(context, #[trigger] options[i])
}

/// How the claim head names an option.
fn claim_mask_action_name<'a>(context: &BotContext, option: &'a BotClaimOption) -> (r: &'a str)
    ensures
        r@ == mask_action_name(*context, *option),
{
    proof {
        reveal_strlit("chow");
        assert("chow"@ =~= seq!['c', 'h', 'o', 'w']);
    }
    if !str_equal(option.action_type.as_str(), "chow") {
        return option.action_type.as_str();
    }
    claim_chow_action_name(context, option)
}

/// The claim actions open to the bot: always a pass, and the action naming each option.
pub fn legal_claim_mask(context: &BotContext) -> (r: [bool; 7])
    ensures
        forall|k: int| 0 <= k < 7 ==> #[trigger] r@[k] == (k == 0 || claim_offered(*context, context.claim_options@, k)),
{
    let ghost opts = context.claim_options@;
    let mut mask = [false; CLAIM_ACTION_COUNT];
    mask[0] = true;
    let mut j: usize = 0;
    while j < context.claim_options.len()
        invariant
            opts == context.claim_options@,
            j <= opts.len(),
            forall|k: int|
                0 <= k < 7 ==> #[trigger] mask@[k] == (k == 0 || claim_offered(*context, opts.take(j as int), k)),
        decreases opts.len() - j,
    {
        let ghost before = opts.take(j as int);
        let ghost after = opts.take(j + 1);
        let name = claim_mask_action_name(context, &context.claim_options[j]);
        let index = claim_action_index(name);
        assert(after[j as int] == opts[j as int]);
        match index {
            Some(i) => {
                mask[i] = true;
            },
            None => {},
        }
        proof {
            assert forall|k: int| 0 <= k < 7 implies #[trigger] mask@[k] == (k == 0 || claim_offered(*context, after, k)) by {
                if claim_offered(*context, after, k) {
                    let t = choose|t: int| 0 <= t < after.len() && claim_action_name(k) == mask_action_name(*context, #[trigger] after[t]);
                    if t < j {
                        assert(before[t] == after[t]);
                    } else if let Some(i) = index {
                        if i != k {
                            claim_action_names_are_distinct(i as int, k);
                        }
                    }
                }
                if claim_offered(*context, before, k) {
                    let t = choose|t: int| 0 <= t < before.len() && claim_action_name(k) == mask_action_name(*context, #[trigger] before[t]);
                    assert(after[t] == before[t]);
                }
                if index == Some(k as usize) {
                    assert(claim_action_name(k) == mask_action_name(*context, after[j as int]));
                }
            }
        }
        j += 1;
    }
    assert(opts.take(j as int) =~= opts);
    mask
}

/// How the self-kong head names a kind of kong.
pub open spec fn kong_kind_name(kind: BotSelfKongKind) -> Seq<char> {
    match kind {
        BotSelfKongKind::Concealed => self_kong_action_name(1),
        BotSelfKongKind::Add => self_kong_action_name(2),
    }
}

/// The self-kong actions open to the bot: always a pass, and the kind of each candidate.
pub fn legal_self_kong_mask(context: &BotContext) -> (r: [bool; 3])
    ensures
        forall|k: int|
            0 <= k < 3 ==> #[trigger] r@[k] == (k == 0 || exists|i: int|
                0 <= i < context.self_kong_candidates@.len() && self_kong_action_name(k) == kong_kind_name(
                    #[trigger] context.self_kong_candidates@[i].kind,
                )),
{
    let ghost cands = context.self_kong_candidates@;
    let mut mask = [false; SELF_KONG_ACTION_COUNT];
    mask[0] = true;
    assert(self_kong_action_name(1) != self_kong_action_name(2) && self_kong_action_name(0) != self_kong_action_name(1)
        && self_kong_action_name(0) != self_kong_action_name(2));
    let mut j: usize = 0;
    while j < context.self_kong_candidates.len()
        invariant
            cands == context.self_kong_candidates@,
            j <= cands.len(),
            self_kong_action_name(1) != self_kong_action_name(2),
            self_kong_action_name(0) != self_kong_action_name(1),
            self_kong_action_name(0) != self_kong_action_name(2),
            mask@[0],
            mask@[1] == exists|i: int| 0 <= i < j && (#[trigger] cands[i]).kind == BotSelfKongKind::Concealed,
            mask@[2] == exists|i: int| 0 <= i < j && (#[trigger] cands[i]).kind == BotSelfKongKind::Add,
        decreases cands.len() - j,
    {
        match context.self_kong_candidates[j].kind {
            BotSelfKongKind::Concealed => {
                mask[1] = true;
            },
            BotSelfKongKind::Add => {
                mask[2] = true;
            },
        }
        j += 1;
    }
    proof {
        assert forall|k: int| 0 <= k < 3 implies #[trigger] mask@[k] == (k == 0 || exists|i: int|
            0 <= i < cands.len() && self_kong_action_name(k) == kong_kind_name(#[trigger] cands[i].kind)) by {
            if k == 1 {
                if mask@[1] {
                    let i = choose|i: int| 0 <= i < j && (#[trigger] cands[i]).kind == BotSelfKongKind::Concealed;
                    assert(self_kong_action_name(k) == kong_kind_name(cands[i].kind));
                }
            } else if k == 2 {
                if mask@[2] {
                    let i = choose|i: int| 0 <= i < j && (#[trigger] cands[i]).kind == BotSelfKongKind::Add;
                    assert(self_kong_action_name(k) == kong_kind_name(cands[i].kind));
                }
            }
        }
    }
    mask
}

/// Whether some claim option is a win.
pub open spec fn hu_offered(options: Seq<BotClaimOption>) -> bool {
    exists|i: int| 0 <= i < options.len() && (#[trigger] options[i]).action_type@ == seq!['h', 'u']
}

/// The win head's choices: passing is always open, winning where an option is a win.
pub fn legal_hu_mask(context: &BotContext) -> (r: [bool; 2])
    ensures
        r@[0],
        r@[1] == hu_offered(context.claim_options@),
{
    proof {
        reveal_strlit("hu");
        assert("hu"@ =~= seq!['h', 'u']);
    }
    let ghost opts = context.claim_options@;
    let mut can_hu = false;
    let mut j: usize = 0;
    while j < context.claim_options.len()
        invariant
            opts == context.claim_options@,
            j <= opts.len(),
            "hu"@ == seq!['h', 'u'],
            can_hu == exists|i: int| 0 <= i < j && (#[trigger] opts[i]).action_type@ == seq!['h', 'u'],
        decreases opts.len() - j,
    {
        if str_equal(context.claim_options[j].action_type.as_str(), "hu") {
            can_hu = true;
        }
        j += 1;
    }
    [true, can_hu]
}

/// The place of a wind in the order east, south, west, north; east for any other word.
pub open spec fn spec_standard_wind_index(wind: Seq<char>) -> int {
    if wind == seq!['s', 'o', 'u', 't', 'h'] {
        1
    } else if wind == seq!['w', 'e', 's', 't'] {
        2
    } else if wind == seq!['n', 'o', 'r', 't', 'h'] {
        3
    } else {
        0
    }
}

/// The place of a wind in the order east, south, west, north.
pub fn standard_wind_index(wind: &str) -> (r: usize)
    ensures
        r == spec_standard_wind_index(wind@),
{
    proof {
        reveal_strlit("south");
        reveal_strlit("west");
        reveal_strlit("north");
        assert("south"@ =~= seq!['s', 'o', 'u', 't', 'h']);
        assert("west"@ =~= seq!['w', 'e', 's', 't']);
        assert("north"@ =~= seq!['n', 'o', 'r', 't', 'h']);
    }
    if str_equal(wind, "south") {
        1
    } else if str_equal(wind, "west") {
        2
    } else if str_equal(wind, "north") {
        3
    } else {
        0
    }
}

} // verus!
