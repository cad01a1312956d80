use vstd::prelude::*;

use crate::bot::{BotContext, BotTileView};
use crate::policy::bot_tiles_v;
use crate::replay_claims::all_same;
use crate::replay_samples::visible_meld_keys;
use crate::replay_view::TileV;
use crate::text::owned;
use crate::context::{seat_wind_key, spec_seat_wind_key, tile_index, tile_key_for_index};
use crate::replay_view::{groups_v, strs_v};
use crate::shanten::{min_shanten_for_counts, spec_min_shanten, TileCounts, HONOR_TILE_START, TILE_KIND_COUNT};
use crate::text::str_equal;
use crate::tiles::{lemma_key_of_tile_index, spec_tile_index, spec_tile_key, suit_letter};
use crate::text::chars_of;
use crate::ordering::str_less;
use crate::policy::key_of_id_in;
use crate::replay_claims::key_of_id;
use crate::replay_samples::{extend_keys, meld_is_kong, visible_melds};
use crate::replay_view::str_lt;

verus! {

/// Whether the tile of kind `i` stands alone: a single honour, or a suited tile with no tile
/// of its suit within two ranks.
pub open spec fn is_isolated(c: Seq<u8>, i: int) -> bool {
    if i >= 27 {
        c[i] == 1
    } else {
        let r = i % 9;
        &&& (r >= 2 ==> c[i - 2] == 0)
        &&& (r >= 1 ==> c[i - 1] == 0)
        &&& (r <= 7 ==> c[i + 1] == 0)
        &&& (r <= 6 ==> c[i + 2] == 0)
    }
}

/// Whether the tile of kind `tile_index` stands alone in the hand.
pub fn tile_is_isolated(counts: &TileCounts, tile_index: usize) -> (r: bool)
    requires
        tile_index < 34,
    ensures
        r == is_isolated(counts@, tile_index as int),
{
    if tile_index >= HONOR_TILE_START {
        return counts[tile_index] == 1;
    }
    let rank = tile_index % 9;
    if rank >= 2 && counts[tile_index - 2] != 0 {
        return false;
    }
    if rank >= 1 && counts[tile_index - 1] != 0 {
        return false;
    }
    if rank <= 7 && counts[tile_index + 1] != 0 {
        return false;
    }
    if rank <= 6 && counts[tile_index + 2] != 0 {
        return false;
    }
    true
}

pub open spec fn min_count(a: u8, b: u8) -> int {
    if a <= b {
        a as int
    } else {
        b as int
    }
}

/// What the tiles of kind `i` add to a hand's shape: honours by how many there are; suited
/// tiles for the middle ranks, against terminals, for pairs and triplets, for neighbours one
/// and two ranks up, and against standing alone.
pub open spec fn shape_term(c: Seq<u8>, i: int) -> int {
    let n = c[i] as int;
    if n == 0 {
        0
    } else if i >= 27 {
        if n == 1 {
            -28
        } else if n == 2 {
            24
        } else if n == 3 {
            44
        } else {
            48
        }
    } else {
        let rank = i % 9 + 1;
        (if 3 <= rank <= 7 {
            n * 8
        } else if rank == 1 || rank == 9 {
            -(n * 6)
        } else {
            0
        }) + (if n >= 2 {
            22int
        } else {
            0
        }) + (if n >= 3 {
            20int
        } else {
            0
        }) + (if rank <= 8 {
            12 * min_count(c[i], c[i + 1])
        } else {
            0
        }) + (if rank <= 7 {
            8 * min_count(c[i], c[i + 2])
        } else {
            0
        }) - (if is_isolated(c, i) {
            if rank == 1 || rank == 9 {
                36int
            } else {
                20
            }
        } else {
            0
        })
    }
}

/// The shape terms of the kinds below `n`, added up.
pub open spec fn shape_score(c: Seq<u8>, n: int) -> int
    decreases n,
{
    if n <= 0 {
        0
    } else {
        shape_score(c, n - 1) + shape_term(c, n - 1)
    }
}

/// How well the concealed tiles hang together.
pub fn bot_shape_score(concealed_counts: &TileCounts) -> (r: i64)
    ensures
        r == shape_score(concealed_counts@, 34),
{
    let c = concealed_counts;
    let mut score: i64 = 0;
    let mut tile_index: usize = 0;
    while tile_index < TILE_KIND_COUNT
        invariant
            tile_index <= 34,
            c@.len() == 34,
            score == shape_score(c@, tile_index as int),
            -10_000 * tile_index <= score <= 10_000 * tile_index,
        decreases 34 - tile_index,
    {
        let count = c[tile_index] as i64;
        let mut term: i64 = 0;
        if count == 0 {
        } else if tile_index >= HONOR_TILE_START {
            term = if count == 1 {
                -28
            } else if count == 2 {
                24
            } else if count == 3 {
                44
            } else {
                48
            };
        } else {
            let rank = tile_index % 9 + 1;
            if 3 <= rank && rank <= 7 {
                term = term + count * 8;
            } else if rank == 1 || rank == 9 {
                term = term - count * 6;
            }
            if count >= 2 {
                term = term + 22;
            }
            if count >= 3 {
                term = term + 20;
            }
            if rank <= 8 {
                let m = if c[tile_index] <= c[tile_index + 1] {
                    c[tile_index]
                } else {
                    c[tile_index + 1]
                };
                term = term + 12 * (m as i64);
            }
            if rank <= 7 {
                let m = if c[tile_index] <= c[tile_index + 2] {
                    c[tile_index]
                } else {
                    c[tile_index + 2]
                };
                term = term + 8 * (m as i64);
            }
            if tile_is_isolated(c, tile_index) {
                term = term - if rank == 1 || rank == 9 {
                    36
                } else {
                    20
                };
            }
        }
        assert(term == shape_term(c@, tile_index as int));
        score = score + term;
        tile_index += 1;
    }
    score
}

/// Tiles of suit `s` among the kinds below `n`.
pub open spec fn suit_total(c: Seq<u8>, s: int, n: int) -> int
    decreases n,
{
    if n <= 0 {
        0
    } else {
        suit_total(c, s, n - 1) + (if n - 1 < 27 && (n - 1) / 9 == s {
            c[n - 1] as int
        } else {
            0
        })
    }
}

/// Honour tiles among the kinds below `n`.
pub open spec fn honor_total(c: Seq<u8>, n: int) -> int
    decreases n,
{
    if n <= 0 {
        0
    } else {
        honor_total(c, n - 1) + (if n - 1 >= 27 {
            c[n - 1] as int
        } else {
            0
        })
    }
}

/// Keys of suit `s` among the keys (an honour's suit counts as three).
pub open spec fn keys_of_suit(keys: Seq<Seq<char>>, s: int) -> int
    decreases keys.len(),
{
    if keys.len() == 0 {
        0
    } else {
        keys_of_suit(keys.drop_last(), s) + match spec_tile_index(keys.last()) {
            Some(i) => if (if i >= 27 {
                3
            } else {
                i / 9
            }) == s {
                1int
            } else {
                0
            },
            None => 0,
        }
    }
}

/// Melded keys of suit `s`, honours counting as suit three.
pub open spec fn melds_of_suit(melds: Seq<Seq<Seq<char>>>, s: int) -> int
    decreases melds.len(),
{
    if melds.len() == 0 {
        0
    } else {
        melds_of_suit(melds.drop_last(), s) + keys_of_suit(melds.last(), s)
    }
}

/// Keys in all the melds.
pub open spec fn meld_key_total(melds: Seq<Seq<Seq<char>>>) -> int
    decreases melds.len(),
{
    if melds.len() == 0 {
        0
    } else {
        meld_key_total(melds.drop_last()) + melds.last().len()
    }
}

pub open spec fn max3(a: int, b: int, c: int) -> int {
    if a >= b && a >= c {
        a
    } else if b >= c {
        b
    } else {
        c
    }
}

pub open spec fn nonzero(a: int) -> int {
    if a > 0 {
        1
    } else {
        0
    }
}

/// How much the hand leans to one suit: twelve for each tile of the largest suit, four
/// less for each honour, and eighteen less for each suit present, concealed and melded tiles
/// counted alike.
pub open spec fn suit_focus(c: Seq<u8>, melds: Seq<Seq<Seq<char>>>) -> int {
    let s0 = suit_total(c, 0, 34) + melds_of_suit(melds, 0);
    let s1 = suit_total(c, 1, 34) + melds_of_suit(melds, 1);
    let s2 = suit_total(c, 2, 34) + melds_of_suit(melds, 2);
    let h = honor_total(c, 34) + melds_of_suit(melds, 3);
    max3(s0, s1, s2) * 12 - h * 4 - 18 * (nonzero(s0) + nonzero(s1) + nonzero(s2))
}

proof fn lemma_keys_of_suit_bound(keys: Seq<Seq<char>>, s: int)
    ensures
        0 <= keys_of_suit(keys, s) <= keys.len(),
    decreases keys.len(),
{
    if keys.len() > 0 {
        lemma_keys_of_suit_bound(keys.drop_last(), s);
    }
}

proof fn lemma_melds_of_suit_bound(melds: Seq<Seq<Seq<char>>>, s: int)
    ensures
        0 <= melds_of_suit(melds, s) <= meld_key_total(melds),
    decreases melds.len(),
{
    if melds.len() > 0 {
        lemma_melds_of_suit_bound(melds.drop_last(), s);
        lemma_keys_of_suit_bound(melds.last(), s);
    }
}

/// How much the hand leans to one suit.
pub fn suit_focus_score(concealed_counts: &TileCounts, meld_tile_key_groups: &Vec<Vec<String>>) -> (r: i64)
    requires
        meld_key_total(groups_v(meld_tile_key_groups@)) < 0x1_0000_0000,
    ensures
        r == suit_focus(concealed_counts@, groups_v(meld_tile_key_groups@)),
{
    let c = concealed_counts;
    let ghost ms = groups_v(meld_tile_key_groups@);
    let mut s0: i64 = 0;
    let mut s1: i64 = 0;
    let mut s2: i64 = 0;
    let mut honors: i64 = 0;
    let mut i: usize = 0;
    while i < TILE_KIND_COUNT
        invariant
            i <= 34,
            c@.len() == 34,
            s0 == suit_total(c@, 0, i as int),
            s1 == suit_total(c@, 1, i as int),
            s2 == suit_total(c@, 2, i as int),
            honors == honor_total(c@, i as int),
            0 <= s0 <= 256 * i,
            0 <= s1 <= 256 * i,
            0 <= s2 <= 256 * i,
            0 <= honors <= 256 * i,
        decreases 34 - i,
    {
        let count = c[i] as i64;
        if i >= HONOR_TILE_START {
            honors = honors + count;
        } else if i / 9 == 0 {
            s0 = s0 + count;
        } else if i / 9 == 1 {
            s1 = s1 + count;
        } else {
            s2 = s2 + count;
        }
        i += 1;
    }
    let mut k: usize = 0;
    let ghost base0 = s0 as int;
    let ghost base1 = s1 as int;
    let ghost base2 = s2 as int;
    let ghost base_h = honors as int;
    let ghost mut seen: int = 0;
    proof {
        assert(ms.take(0) =~= Seq::<Seq<Seq<char>>>::empty());
        lemma_total_prefix(ms, 0);
    }
    while k < meld_tile_key_groups.len()
        invariant
            ms == groups_v(meld_tile_key_groups@),
            meld_key_total(ms) < 0x1_0000_0000,
            k <= ms.len(),
            s0 == base0 + melds_of_suit(ms.take(k as int), 0),
            s1 == base1 + melds_of_suit(ms.take(k as int), 1),
            s2 == base2 + melds_of_suit(ms.take(k as int), 2),
            honors == base_h + melds_of_suit(ms.take(k as int), 3),
            0 <= base0 <= 10_000,
            0 <= base1 <= 10_000,
            0 <= base2 <= 10_000,
            0 <= base_h <= 10_000,
            seen == meld_key_total(ms.take(k as int)),
            seen <= meld_key_total(ms),
            0 <= melds_of_suit(ms.take(k as int), 0) <= seen,
            0 <= melds_of_suit(ms.take(k as int), 1) <= seen,
            0 <= melds_of_suit(ms.take(k as int), 2) <= seen,
            0 <= melds_of_suit(ms.take(k as int), 3) <= seen,
        decreases ms.len() - k,
    {
        let meld = &meld_tile_key_groups[k];
        let ghost mv = strs_v(meld@);
        proof {
            assert(ms[k as int] == mv);
            assert(ms.take(k + 1).drop_last() =~= ms.take(k as int));
            lemma_total_prefix(ms, k as int + 1);
        }
        let ghost before0 = s0 as int;
        let ghost before1 = s1 as int;
        let ghost before2 = s2 as int;
        let ghost before_h = honors as int;
        let mut j: usize = 0;
        while j < meld.len()
            invariant
                mv == strs_v(meld@),
                j <= mv.len(),
                s0 == before0 + keys_of_suit(mv.take(j as int), 0),
                s1 == before1 + keys_of_suit(mv.take(j as int), 1),
                s2 == before2 + keys_of_suit(mv.take(j as int), 2),
                honors == before_h + keys_of_suit(mv.take(j as int), 3),
                0 <= before0 <= 10_000 + 0x1_0000_0000,
                0 <= before1 <= 10_000 + 0x1_0000_0000,
                0 <= before2 <= 10_000 + 0x1_0000_0000,
                0 <= before_h <= 10_000 + 0x1_0000_0000,
                0 <= keys_of_suit(mv.take(j as int), 0) <= j,
                0 <= keys_of_suit(mv.take(j as int), 1) <= j,
                0 <= keys_of_suit(mv.take(j as int), 2) <= j,
                0 <= keys_of_suit(mv.take(j as int), 3) <= j,
                mv.len() <= 0x1_0000_0000,
            decreases mv.len() - j,
        {
            proof {
                assert(mv.take(j + 1).drop_last() =~= mv.take(j as int));
                assert(mv.take(j + 1).last() == meld@[j as int]@);
                lemma_keys_of_suit_bound(mv.take(j + 1), 0);
                lemma_keys_of_suit_bound(mv.take(j + 1), 1);
                lemma_keys_of_suit_bound(mv.take(j + 1), 2);
                lemma_keys_of_suit_bound(mv.take(j + 1), 3);
            }
            match tile_index(meld[j].as_str()) {
                Some(index) => {
                    if index >= HONOR_TILE_START {
                        honors = honors + 1;
                    } else if index / 9 == 0 {
                        s0 = s0 + 1;
                    } else if index / 9 == 1 {
                        s1 = s1 + 1;
                    } else {
                        s2 = s2 + 1;
                    }
                },
                None => {},
            }
            j += 1;
        }
        proof {
            assert(mv.take(j as int) =~= mv);
            lemma_melds_of_suit_bound(ms.take(k + 1), 0);
            lemma_melds_of_suit_bound(ms.take(k + 1), 1);
            lemma_melds_of_suit_bound(ms.take(k + 1), 2);
            lemma_melds_of_suit_bound(ms.take(k + 1), 3);
            seen = meld_key_total(ms.take(k + 1));
        }
        k += 1;
    }
    proof {
        assert(ms.take(k as int) =~= ms);
    }
    let dominant = if s0 >= s1 && s0 >= s2 {
        s0
    } else if s1 >= s2 {
        s1
    } else {
        s2
    };
    let spread: i64 = (if s0 > 0 {
        1
    } else {
        0
    }) + (if s1 > 0 {
        1
    } else {
        0
    }) + (if s2 > 0 {
        1
    } else {
        0
    });
    dominant * 12 - honors * 4 - spread * 18
}

/// The keys of a prefix of the melds are no more than those of all of them.
proof fn lemma_total_prefix(ms: Seq<Seq<Seq<char>>>, k: int)
    requires
        0 <= k <= ms.len(),
    ensures
        meld_key_total(ms.take(k)) <= meld_key_total(ms),
    decreases ms.len() - k,
{
    if k < ms.len() {
        lemma_total_prefix(ms, k + 1);
        assert(ms.take(k + 1).drop_last() =~= ms.take(k));
    } else {
        assert(ms.take(k) =~= ms);
    }
}

/// What an honour is worth in the hand: forty-two for the seat's or the round's wind,
/// thirty-six for a dragon, ten against another wind.
pub open spec fn honor_base(k: int, seat_wind: Seq<char>, round_wind: Option<Seq<char>>) -> int {
    if spec_tile_key(k) == seat_wind || Some(spec_tile_key(k)) == round_wind {
        42
    } else if k >= 31 {
        36
    } else {
        -10
    }
}

/// What the honours of kind `k` add: the base once for one, and more for a pair, a
/// triplet and four.
pub open spec fn honor_term(c: Seq<u8>, k: int, seat_wind: Seq<char>, round_wind: Option<Seq<char>>) -> int {
    let n = c[k];
    let base = honor_base(k, seat_wind, round_wind);
    if n == 0 {
        0
    } else if n == 1 {
        base
    } else if n == 2 {
        base * 2 + 18
    } else if n == 3 {
        base * 3 + 42
    } else {
        base * 3 + 48
    }
}

/// The honour terms of the first `n` honour kinds, added up.
pub open spec fn honor_value(c: Seq<u8>, seat_wind: Seq<char>, round_wind: Option<Seq<char>>, n: int) -> int
    decreases n,
{
    if n <= 0 {
        0
    } else {
        honor_value(c, seat_wind, round_wind, n - 1) + honor_term(c, 27 + n - 1, seat_wind, round_wind)
    }
}

pub open spec fn round_wind_v(context: BotContext) -> Option<Seq<char>> {
    match context.round_wind {
        Some(w) => Some(w@),
        None => None,
    }
}

/// What the concealed honours are worth to the bot, given its seat wind and the round wind.
pub fn honor_value_score(context: &BotContext, concealed_counts: &TileCounts) -> (r: i64)
    requires
        context.dealer_seat <= context.seat_index + 4,
        context.seat_index + 4 <= usize::MAX,
    ensures
        r == honor_value(
            concealed_counts@,
            spec_seat_wind_key(context.seat_index as int, context.dealer_seat as int),
            round_wind_v(*context),
            7,
        ),
{
    let seat_wind = seat_wind_key(context.seat_index, context.dealer_seat);
    let ghost rw = round_wind_v(*context);
    let mut score: i64 = 0;
    let mut n: usize = 0;
    while n < 7
        invariant
            n <= 7,
            concealed_counts@.len() == 34,
            rw == round_wind_v(*context),
            score == honor_value(concealed_counts@, seat_wind@, rw, n as int),
            -1000 * n <= score <= 1000 * n,
        decreases 7 - n,
    {
        let tile_index = 27 + n;
        let tile_key = tile_key_for_index(tile_index);
        let count = concealed_counts[tile_index];
        if count != 0 {
            let is_own_wind = str_equal(tile_key, seat_wind.as_str()) || match &context.round_wind {
                Some(w) => str_equal(tile_key, w.as_str()),
                None => false,
            };
            let base: i64 = if is_own_wind {
                42
            } else if tile_index >= 31 {
                36
            } else {
                -10
            };
            score = score + if count == 1 {
                base
            } else if count == 2 {
                base * 2 + 18
            } else if count == 3 {
                base * 3 + 42
            } else {
                base * 3 + 48
            };
        }
        n += 1;
    }
    score
}

/// The lowest shanten over the discards that may follow drawing a tile of kind `draw`:
/// every kind held after the draw but the restricted one; `i32::MAX` where none may go.
pub open spec fn best_after_draw_from(
    c: Seq<u8>,
    open_meld_count: int,
    restricted: Option<usize>,
    n: int,
) -> int
    decreases n,
{
    if n <= 0 {
        i32::MAX as int
    } else {
        let rest = best_after_draw_from(c, open_meld_count, restricted, n - 1);
        let d = n - 1;
        if c[d] == 0 || restricted == Some(d as usize) {
            rest
        } else {
            let s = spec_min_shanten(c.update(d, (c[d] - 1) as u8), open_meld_count);
            if s < rest {
                s
            } else {
                rest
            }
        }
    }
}

pub open spec fn after_draw(c: Seq<u8>, draw: int) -> Seq<u8> {
    c.update(
        draw,
        if c[draw] < 255 {
            (c[draw] + 1) as u8
        } else {
            255u8
        },
    )
}

/// The best shanten that one discard can reach after drawing a tile of kind
/// `draw_tile_index`, the restricted kind kept.
pub fn best_shanten_after_draw(
    concealed_counts: &TileCounts,
    draw_tile_index: usize,
    open_meld_count: usize,
    restricted_discard_tile_index: Option<usize>,
) -> (r: i32)
    requires
        draw_tile_index < 34,
        open_meld_count <= 0x7fff_ffff,
    ensures
        r == best_after_draw_from(
            after_draw(concealed_counts@, draw_tile_index as int),
            open_meld_count as int,
            restricted_discard_tile_index,
            34,
        ),
{
    let mut counts = *concealed_counts;
    counts[draw_tile_index] = if counts[draw_tile_index] < 255 {
        counts[draw_tile_index] + 1
    } else {
        255
    };
    let ghost c = counts@;
    assert(c =~= after_draw(concealed_counts@, draw_tile_index as int));
    let mut best: i32 = i32::MAX;
    let mut d: usize = 0;
    while d < TILE_KIND_COUNT
        invariant
            d <= 34,
            counts@ == c,
            c.len() == 34,
            open_meld_count <= 0x7fff_ffff,
            best == best_after_draw_from(c, open_meld_count as int, restricted_discard_tile_index, d as int),
        decreases 34 - d,
    {
        let is_restricted = match restricted_discard_tile_index {
            Some(r) => r == d,
            None => false,
        };
        if counts[d] != 0 && !is_restricted {
            counts[d] = counts[d] - 1;
            assert(counts@ =~= c.update(d as int, (c[d as int] - 1) as u8));
            let s = min_shanten_for_counts(&counts, open_meld_count);
            if s < best {
                best = s;
            }
            counts[d] = counts[d] + 1;
            assert(counts@ =~= c);
        }
        d += 1;
    }
    best
}

/// Keys among `keys` that name kind `k`.
pub open spec fn keys_of_kind(keys: Seq<Seq<char>>, k: int) -> int
    decreases keys.len(),
{
    if keys.len() == 0 {
        0
    } else {
        keys_of_kind(keys.drop_last(), k) + (if spec_tile_index(keys.last()) == Some(k) {
            1int
        } else {
            0
        })
    }
}

/// Tiles of kind `k` that others see of the melds: three of a kong's four.
pub open spec fn melds_visible_of_kind(melds: Seq<Seq<Seq<char>>>, k: int) -> int
    decreases melds.len(),
{
    if melds.len() == 0 {
        0
    } else {
        melds_visible_of_kind(melds.drop_last(), k) + keys_of_kind(visible_meld_keys(melds.last()), k)
    }
}

/// Tiles of kind `k` seen by the bot in a state whose melds are `melds`: those visible now,
/// less what its own melds show now, plus what `melds` would show.
pub open spec fn visible_of_kind(context: BotContext, melds: Seq<Seq<Seq<char>>>, k: int) -> int {
    keys_of_kind(strs_v(context.visible_tile_keys@), k) - melds_visible_of_kind(
        groups_v(context.player.meld_tile_key_groups@),
        k,
    ) + melds_visible_of_kind(melds, k)
}

proof fn lemma_keys_of_kind_bound(keys: Seq<Seq<char>>, k: int)
    ensures
        0 <= keys_of_kind(keys, k) <= keys.len(),
    decreases keys.len(),
{
    if keys.len() > 0 {
        lemma_keys_of_kind_bound(keys.drop_last(), k);
    }
}

proof fn lemma_melds_visible_bound(melds: Seq<Seq<Seq<char>>>, k: int)
    ensures
        0 <= melds_visible_of_kind(melds, k) <= crate::heuristics::meld_key_total(melds),
    decreases melds.len(),
{
    if melds.len() > 0 {
        lemma_melds_visible_bound(melds.drop_last(), k);
        lemma_keys_of_kind_bound(visible_meld_keys(melds.last()), k);
    }
}

/// Adds `delta` to the count of each kind that others see of a meld.
pub fn apply_visible_meld_delta(target: &mut [i32; 34], meld_tile_keys: &Vec<String>, delta: i32)
    requires
        delta == 1 || delta == -1,
        forall|k: int| 0 <= k < 34 ==> -0x1000_0000 <= #[trigger] old(target)@[k] <= 0x1000_0000,
        meld_tile_keys@.len() < 0x1000_0000,
    ensures
        forall|k: int|
            0 <= k < 34 ==> #[trigger] final(target)@[k] == old(target)@[k] + delta * keys_of_kind(
                visible_meld_keys(strs_v(meld_tile_keys@)),
                k,
            ),
{
    let ghost m = strs_v(meld_tile_keys@);
    let limit = if meld_is_kong(meld_tile_keys) {
        3
    } else {
        meld_tile_keys.len()
    };
    assert(m.take(limit as int) == visible_meld_keys(m) || (limit == m.len() && m.take(limit as int) =~= m));
    let ghost shown = m.take(limit as int);
    assert(shown =~= visible_meld_keys(m));
    let mut j: usize = 0;
    while j < limit
        invariant
            m == strs_v(meld_tile_keys@),
            limit <= m.len(),
            m.len() < 0x1000_0000,
            shown == m.take(limit as int),
            delta == 1 || delta == -1,
            j <= limit,
            forall|k: int|
                0 <= k < 34 ==> #[trigger] target@[k] == old(target)@[k] + delta * keys_of_kind(shown.take(j as int), k),
            forall|k: int| 0 <= k < 34 ==> -0x1000_0000 <= #[trigger] old(target)@[k] <= 0x1000_0000,
        decreases limit - j,
    {
        proof {
            assert(shown.take(j + 1).drop_last() =~= shown.take(j as int));
            assert(shown.take(j + 1).last() == meld_tile_keys@[j as int]@);
            assert forall|k: int| 0 <= k < 34 implies 0 <= #[trigger] keys_of_kind(shown.take(j as int), k) <= j by {
                lemma_keys_of_kind_bound(shown.take(j as int), k);
            }
        }
        match tile_index(meld_tile_keys[j].as_str()) {
            Some(index) => {
                proof {
                    lemma_key_of_tile_index(meld_tile_keys@[j as int]@);
                }
                target[index] = target[index] + delta;
            },
            None => {},
        }
        j += 1;
    }
    assert(shown.take(j as int) =~= shown);
}

/// Per kind, the tiles that the bot has seen in a state whose melds are `melds`.
pub fn visible_tile_counts_for_state(context: &BotContext, meld_tile_key_groups: &Vec<Vec<String>>) -> (r: [i32; 34])
    requires
        context.visible_tile_keys@.len() + meld_key_total(groups_v(context.player.meld_tile_key_groups@))
            + meld_key_total(groups_v(meld_tile_key_groups@)) < 0x1000_0000,
    ensures
        forall|k: int| 0 <= k < 34 ==> #[trigger] r@[k] == visible_of_kind(*context, groups_v(meld_tile_key_groups@), k),
{
    let ghost vk = strs_v(context.visible_tile_keys@);
    let ghost own = groups_v(context.player.meld_tile_key_groups@);
    let ghost new = groups_v(meld_tile_key_groups@);
    proof {
        lemma_total_nonneg(own);
        lemma_total_nonneg(new);
    }
    let mut counts = [0i32; 34];
    let mut i: usize = 0;
    while i < context.visible_tile_keys.len()
        invariant
            vk == strs_v(context.visible_tile_keys@),
            vk.len() < 0x1000_0000,
            i <= vk.len(),
            forall|k: int| 0 <= k < 34 ==> #[trigger] counts@[k] == keys_of_kind(vk.take(i as int), k),
        decreases vk.len() - i,
    {
        proof {
            assert(vk.take(i + 1).drop_last() =~= vk.take(i as int));
            assert(vk.take(i + 1).last() == context.visible_tile_keys@[i as int]@);
            assert forall|k: int| 0 <= k < 34 implies #[trigger] keys_of_kind(vk.take(i as int), k) <= i by {
                lemma_keys_of_kind_bound(vk.take(i as int), k);
            }
        }
        match tile_index(context.visible_tile_keys[i].as_str()) {
            Some(index) => {
                proof {
                    lemma_key_of_tile_index(context.visible_tile_keys@[i as int]@);
                }
                counts[index] = counts[index] + 1;
            },
            None => {},
        }
        i += 1;
    }
    assert(vk.take(i as int) =~= vk);
    let mut m: usize = 0;
    while m < context.player.meld_tile_key_groups.len()
        invariant
            vk == strs_v(context.visible_tile_keys@),
            own == groups_v(context.player.meld_tile_key_groups@),
            vk.len() + meld_key_total(own) < 0x1000_0000,
            m <= own.len(),
            forall|k: int|
                0 <= k < 34 ==> #[trigger] counts@[k] == keys_of_kind(vk, k) - melds_visible_of_kind(own.take(m as int), k),
        decreases own.len() - m,
    {
        proof {
            assert(own.take(m + 1).drop_last() =~= own.take(m as int));
            assert(own[m as int] == strs_v(context.player.meld_tile_key_groups@[m as int]@));
            lemma_total_prefix(own, m as int + 1);
            assert forall|k: int| 0 <= k < 34 implies -0x1000_0000 <= #[trigger] counts@[k] <= 0x1000_0000 by {
                lemma_keys_of_kind_bound(vk, k);
                lemma_melds_visible_bound(own.take(m as int), k);
                lemma_total_prefix(own, m as int);
            }
            lemma_meld_len_bound(own, m as int);
            assert(context.player.meld_tile_key_groups@[m as int]@.len() == own[m as int].len());
        }
        apply_visible_meld_delta(&mut counts, &context.player.meld_tile_key_groups[m], -1);
        m += 1;
    }
    assert(own.take(m as int) =~= own);
    let mut n: usize = 0;
    while n < meld_tile_key_groups.len()
        invariant
            vk == strs_v(context.visible_tile_keys@),
            own == groups_v(context.player.meld_tile_key_groups@),
            new == groups_v(meld_tile_key_groups@),
            vk.len() + meld_key_total(own) + meld_key_total(new) < 0x1000_0000,
            n <= new.len(),
            forall|k: int|
                0 <= k < 34 ==> #[trigger] counts@[k] == keys_of_kind(vk, k) - melds_visible_of_kind(own, k)
                    + melds_visible_of_kind(new.take(n as int), k),
        decreases new.len() - n,
    {
        proof {
            assert(new.take(n + 1).drop_last() =~= new.take(n as int));
            assert(new[n as int] == strs_v(meld_tile_key_groups@[n as int]@));
            assert forall|k: int| 0 <= k < 34 implies -0x1000_0000 <= #[trigger] counts@[k] <= 0x1000_0000 by {
                lemma_keys_of_kind_bound(vk, k);
                lemma_melds_visible_bound(own, k);
                lemma_melds_visible_bound(new.take(n as int), k);
                lemma_total_prefix(new, n as int);
            }
            lemma_meld_len_bound(new, n as int);
            lemma_total_nonneg(own);
            assert(meld_tile_key_groups@[n as int]@.len() == new[n as int].len());
        }
        apply_visible_meld_delta(&mut counts, &meld_tile_key_groups[n], 1);
        n += 1;
    }
    assert(new.take(n as int) =~= new);
    counts
}

/// One meld holds no more keys than all the melds.
proof fn lemma_meld_len_bound(ms: Seq<Seq<Seq<char>>>, i: int)
    requires
        0 <= i < ms.len(),
    ensures
        ms[i].len() <= meld_key_total(ms),
    decreases ms.len(),
{
    if i < ms.len() - 1 {
        lemma_meld_len_bound(ms.drop_last(), i);
        assert(ms.drop_last()[i] == ms[i]);
    }
    lemma_total_nonneg(ms.drop_last());
}

proof fn lemma_total_nonneg(ms: Seq<Seq<Seq<char>>>)
    ensures
        meld_key_total(ms) >= 0,
    decreases ms.len(),
{
    if ms.len() > 0 {
        lemma_total_nonneg(ms.drop_last());
    }
}

/// How many tiles of a kind may still come: four less those seen and held, never below zero.
pub fn estimated_remaining_tile_count(visible_counts: &[i32; 34], concealed_counts: &TileCounts, tile_index: usize) -> (r: i32)
    requires
        tile_index < 34,
        -0x1000_0000 <= visible_counts@[tile_index as int] <= 0x1000_0000,
    ensures
        r == (if 4 - visible_counts@[tile_index as int] - concealed_counts@[tile_index as int] > 0 {
            4 - visible_counts@[tile_index as int] - concealed_counts@[tile_index as int]
        } else {
            0
        }),
{
    let remaining = 4 - visible_counts[tile_index] - concealed_counts[tile_index] as i32;
    if remaining > 0 {
        remaining
    } else {
        0
    }
}

/// What favours discarding a tile of key `tile_key`: twenty-four for each copy seen, then
/// seventy-two for an honour, or twenty-eight for a terminal and fifty-two for a tile that
/// stands alone; twelve more for the drawn copy; nothing for a key of no kind.
pub open spec fn preference_score(
    context: BotContext,
    c: Seq<u8>,
    key: Seq<char>,
    prefer_drawn_copy: bool,
) -> int {
    match spec_tile_index(key) {
        None => 0,
        Some(i) => {
            let visible = visible_of_kind(context, groups_v(context.player.meld_tile_key_groups@), i);
            visible * 24 + (if i >= 27 {
                72int
            } else {
                let rank = i % 9 + 1;
                (if rank == 1 || rank == 9 {
                    28int
                } else {
                    0
                }) + (if is_isolated(c, i) {
                    52int
                } else {
                    0
                })
            }) + (if prefer_drawn_copy {
                12int
            } else {
                0
            })
        },
    }
}

/// What favours discarding a tile of key `tile_key`.
pub fn discard_tile_preference_score(
    context: &BotContext,
    concealed_counts: &TileCounts,
    tile_key: &str,
    prefer_drawn_copy: bool,
) -> (r: i64)
    requires
        context.visible_tile_keys@.len() + 2 * meld_key_total(groups_v(context.player.meld_tile_key_groups@))
            < 0x1000_0000,
    ensures
        r == preference_score(*context, concealed_counts@, tile_key@, prefer_drawn_copy),
{
    let tile_index = match tile_index(tile_key) {
        Some(i) => i,
        None => {
            return 0;
        },
    };
    proof {
        lemma_key_of_tile_index(tile_key@);
    }
    let visible_counts = visible_tile_counts_for_state(context, &context.player.meld_tile_key_groups);
    let visible = visible_counts[tile_index] as i64;
    proof {
        let own = groups_v(context.player.meld_tile_key_groups@);
        lemma_keys_of_kind_bound(strs_v(context.visible_tile_keys@), tile_index as int);
        lemma_melds_visible_bound(own, tile_index as int);
    }
    let mut score: i64 = visible * 24;
    if tile_index >= HONOR_TILE_START {
        score = score + 72;
    } else {
        let rank = tile_index % 9 + 1;
        if rank == 1 || rank == 9 {
            score = score + 28;
        }
        if tile_is_isolated(concealed_counts, tile_index) {
            score = score + 52;
        }
    }
    if prefer_drawn_copy {
        score = score + 12;
    }
    score
}

/// Index of the last tile before `n` with key `key`.
pub open spec fn last_with_key(tiles: Seq<TileV>, key: Seq<char>, n: int) -> Option<int>
    decreases n,
{
    if n <= 0 {
        None
    } else if tiles[n - 1].1 == key {
        Some(n - 1)
    } else {
        last_with_key(tiles, key, n - 1)
    }
}

/// Whether the drawn tile is in the hand with key `key`.
pub open spec fn drawn_present(tiles: Seq<TileV>, key: Seq<char>, drawn: Option<Seq<char>>) -> bool {
    drawn matches Some(d) && exists|j: int| 0 <= j < tiles.len() && (#[trigger] tiles[j]).0 == d && tiles[j].1 == key
}

/// The tile to discard for a key: the drawn tile where it has that key, else the last tile
/// of the hand with that key.
pub open spec fn preferred_discard_id(tiles: Seq<TileV>, key: Seq<char>, drawn: Option<Seq<char>>) -> Option<Seq<char>> {
    if drawn_present(tiles, key, drawn) {
        drawn
    } else {
        match last_with_key(tiles, key, tiles.len() as int) {
            Some(j) => Some(tiles[j].0),
            None => None,
        }
    }
}

/// The tile to discard for a key.
pub fn preferred_discard_tile_id_for_key(
    concealed_tiles: &Vec<BotTileView>,
    tile_key: &str,
    drawn_tile_id: Option<&str>,
) -> (r: Option<String>)
    ensures
        r matches Some(s) ==> preferred_discard_id(bot_tiles_v(concealed_tiles@), tile_key@, crate::arena::opt_str_view(drawn_tile_id)) == Some(s@),
        r is None ==> preferred_discard_id(bot_tiles_v(concealed_tiles@), tile_key@, crate::arena::opt_str_view(drawn_tile_id)) is None,
{
    let ghost t = bot_tiles_v(concealed_tiles@);
    let ghost d = crate::arena::opt_str_view(drawn_tile_id);
    match drawn_tile_id {
        Some(drawn) => {
            let mut j: usize = 0;
            while j < concealed_tiles.len()
                invariant
                    t == bot_tiles_v(concealed_tiles@),
                    d == Some(drawn@),
                    d == crate::arena::opt_str_view(drawn_tile_id),
                    j <= t.len(),
                    forall|i: int| 0 <= i < j ==> !((#[trigger] t[i]).0 == drawn@ && t[i].1 == tile_key@),
                decreases t.len() - j,
            {
                if str_equal(concealed_tiles[j].tile_id.as_str(), drawn) && str_equal(
                    concealed_tiles[j].tile_key.as_str(),
                    tile_key,
                ) {
                    assert(t[j as int].0 == drawn@ && t[j as int].1 == tile_key@);
                    assert(drawn_present(t, tile_key@, d));
                    return Some(owned(drawn));
                }
                j += 1;
            }
            assert(!drawn_present(t, tile_key@, d));
        },
        None => {},
    }
    let mut n: usize = concealed_tiles.len();
    while n > 0
        invariant
            t == bot_tiles_v(concealed_tiles@),
            n <= t.len(),
            d == crate::arena::opt_str_view(drawn_tile_id),
            !drawn_present(t, tile_key@, d),
            last_with_key(t, tile_key@, t.len() as int) == last_with_key(t, tile_key@, n as int),
        decreases n,
    {
        if str_equal(concealed_tiles[n - 1].tile_key.as_str(), tile_key) {
            assert(t[n - 1].1 == tile_key@);
            assert(last_with_key(t, tile_key@, n as int) == Some(n - 1));
            let id = concealed_tiles[n - 1].tile_id.clone();
            assert(id@ == t[n - 1].0);
            return Some(id);
        }
        n -= 1;
    }
    None
}

/// How many of `keys` are exactly `key`.
pub open spec fn count_key(keys: Seq<Seq<char>>, key: Seq<char>) -> int
    decreases keys.len(),
{
    if keys.len() == 0 {
        0
    } else {
        count_key(keys.drop_last(), key) + (if keys.last() == key {
            1int
        } else {
            0
        })
    }
}

/// How many of `keys` begin with the letter `suit`.
pub open spec fn count_suit(keys: Seq<Seq<char>>, suit: char) -> int
    decreases keys.len(),
{
    if keys.len() == 0 {
        0
    } else {
        count_suit(keys.drop_last(), suit) + (if keys.last().len() > 0 && keys.last()[0] == suit {
            1int
        } else {
            0
        })
    }
}

/// The last six discards of a seat, or all of them where there are fewer.
pub open spec fn recent_discards(d: Seq<Seq<char>>) -> Seq<Seq<char>> {
    if d.len() > 6 {
        d.subrange(d.len() - 6, d.len() as int)
    } else {
        d
    }
}

/// Whether `k` names a suited kind of the suit of kind `i` within two ranks of it.
pub open spec fn is_adjacent_key(k: Seq<char>, i: int) -> bool {
    match spec_tile_index(k) {
        Some(o) => o < 27 && o / 9 == i / 9 && -2 <= o - i <= 2,
        None => false,
    }
}

/// Whether any of `keys` is near kind `i` in its suit.
pub open spec fn any_adjacent(keys: Seq<Seq<char>>, i: int) -> bool {
    exists|t: int| 0 <= t < keys.len() && is_adjacent_key(#[trigger] keys[t], i)
}

/// What one other seat's discards `d` add to the danger of discarding kind `i` of key `key`:
/// ninety less for each copy it threw; else thirty-six for an honour, and for a suited tile
/// twenty-two for a terminal, twenty-eight where none of its last six discards is of that
/// letter (eight less for each of up to two that are), and twenty more where none of them
/// lies within two ranks (eighteen less where one does).
pub open spec fn danger_seat_term(d: Seq<Seq<char>>, key: Seq<char>, i: int) -> int {
    let same = count_key(d, key);
    if same > 0 {
        -90 * same
    } else if i >= 27 {
        36
    } else {
        let recent = recent_discards(d);
        let rank = i % 9 + 1;
        let suited = count_suit(recent, suit_letter(i / 9));
        (if rank == 1 || rank == 9 {
            22int
        } else {
            0
        }) + (if suited == 0 {
            28int
        } else if suited >= 2 {
            -16int
        } else {
            -8 * suited
        }) + (if any_adjacent(recent, i) {
            -18int
        } else {
            20
        })
    }
}

/// The danger terms of the seats before `n`, the bot's own seat left out.
pub open spec fn danger_seats(ds: Seq<Seq<Seq<char>>>, seat: int, key: Seq<char>, i: int, n: int) -> int
    decreases n,
{
    if n <= 0 {
        0
    } else {
        danger_seats(ds, seat, key, i, n - 1) + (if n - 1 == seat {
            0
        } else {
            danger_seat_term(ds[n - 1], key, i)
        })
    }
}

/// How many discards the seats before `n` have made.
pub open spec fn discard_total(ds: Seq<Seq<Seq<char>>>, n: int) -> int
    decreases n,
{
    if n <= 0 {
        0
    } else {
        discard_total(ds, n - 1) + ds[n - 1].len()
    }
}

/// The danger of discarding a tile of key `key`: ten for each copy not yet seen, times one
/// more than the fourteens of discards made so far, plus each other seat's term, eighteen
/// less where the hand holds a pair of it; never below zero, and nothing for a key of no kind.
pub open spec fn danger_penalty(context: BotContext, c: Seq<u8>, key: Seq<char>) -> int {
    match spec_tile_index(key) {
        None => 0,
        Some(i) => {
            let ds = seat_groups_flat(context);
            let visible = visible_of_kind(context, groups_v(context.player.meld_tile_key_groups@), i);
            let unseen = if 4 - visible > 0 {
                4 - visible
            } else {
                0
            };
            let late = 1 + discard_total(ds, ds.len() as int) / 14;
            let p = unseen * 10 * late + danger_seats(ds, context.seat_index as int, key, i, ds.len() as int)
                + (if c[i] >= 2 {
                -18int
            } else {
                0
            });
            if p > 0 {
                p
            } else {
                0
            }
        },
    }
}

/// The discards of each seat, as keys.
pub open spec fn seat_groups_flat(context: BotContext) -> Seq<Seq<Seq<char>>> {
    groups_v(context.opponent_discards_by_seat@)
}

proof fn lemma_count_key_bound(keys: Seq<Seq<char>>, key: Seq<char>)
    ensures
        0 <= count_key(keys, key) <= keys.len(),
    decreases keys.len(),
{
    if keys.len() > 0 {
        lemma_count_key_bound(keys.drop_last(), key);
    }
}

proof fn lemma_count_suit_nonneg(keys: Seq<Seq<char>>, suit: char)
    ensures
        0 <= count_suit(keys, suit),
    decreases keys.len(),
{
    if keys.len() > 0 {
        lemma_count_suit_nonneg(keys.drop_last(), suit);
    }
}

proof fn lemma_seat_term_bound(d: Seq<Seq<char>>, key: Seq<char>, i: int)
    ensures
        -90 * d.len() <= danger_seat_term(d, key, i) <= 106,
{
    lemma_count_key_bound(d, key);
    lemma_count_suit_nonneg(recent_discards(d), suit_letter(i / 9));
}

proof fn lemma_danger_seats_bound(ds: Seq<Seq<Seq<char>>>, seat: int, key: Seq<char>, i: int, n: int)
    requires
        0 <= n <= ds.len(),
    ensures
        -90 * discard_total(ds, n) <= danger_seats(ds, seat, key, i, n) <= 106 * n,
        discard_total(ds, n) >= 0,
    decreases n,
{
    if n > 0 {
        lemma_danger_seats_bound(ds, seat, key, i, n - 1);
        lemma_seat_term_bound(ds[n - 1], key, i);
    }
}

/// Counts the discards equal to `key`.
fn count_key_exec(keys: &Vec<String>, key: &str) -> (r: usize)
    ensures
        r == count_key(strs_v(keys@), key@),
{
    let ghost k = strs_v(keys@);
    let mut count: usize = 0;
    let mut j: usize = 0;
    while j < keys.len()
        invariant
            k == strs_v(keys@),
            j <= k.len(),
            count == count_key(k.take(j as int), key@),
        decreases k.len() - j,
    {
        proof {
            assert(k.take(j + 1).drop_last() =~= k.take(j as int));
            lemma_count_key_bound(k.take(j as int), key@);
        }
        if str_equal(keys[j].as_str(), key) {
            count = count + 1;
        }
        j += 1;
    }
    assert(k.take(j as int) =~= k);
    count
}

/// Whether a key begins with the letter `suit`.
fn starts_with_letter(key: &str, suit: char) -> (r: bool)
    ensures
        r == (key@.len() > 0 && key@[0] == suit),
{
    let v = chars_of(key);
    v.len() > 0 && v[0] == suit
}

/// Whether a key names a suited kind of the suit of `i` within two ranks of it.
fn adjacent_key_exec(key: &str, i: usize) -> (r: bool)
    requires
        i < 34,
    ensures
        r == is_adjacent_key(key@, i as int),
{
    match tile_index(key) {
        Some(o) => o < HONOR_TILE_START && o / 9 == i / 9 && (if o >= i {
            o - i <= 2
        } else {
            i - o <= 2
        }),
        None => false,
    }
}

/// The term that one other seat's discards add to the danger of discarding kind `i`.
fn danger_seat_term_exec(discards: &Vec<String>, tile_key: &str, i: usize, suit: char) -> (r: i64)
    requires
        i < 34,
        spec_tile_index(tile_key@) == Some(i as int),
        i < 27 ==> suit == suit_letter(i as int / 9),
        discards@.len() < 0x1000_0000,
    ensures
        r == danger_seat_term(strs_v(discards@), tile_key@, i as int),
{
    let ghost d = strs_v(discards@);
    let same = count_key_exec(discards, tile_key);
    if same > 0 {
        proof {
            lemma_count_key_bound(d, tile_key@);
        }
        return -90 * (same as i64);
    }
    if i >= HONOR_TILE_START {
        return 36;
    }
    let start: usize = if discards.len() > 6 {
        discards.len() - 6
    } else {
        0
    };
    let ghost recent = d.subrange(start as int, d.len() as int);
    assert(recent =~= recent_discards(d));
    let mut suited: i64 = 0;
    let mut adjacent = false;
    let mut j: usize = start;
    while j < discards.len()
        invariant
            d == strs_v(discards@),
            recent == d.subrange(start as int, d.len() as int),
            start <= j <= d.len(),
            d.len() - start <= 6,
            i < 34,
            suited == count_suit(recent.take(j - start), suit),
            0 <= suited <= j - start,
            adjacent == any_adjacent(recent.take(j - start), i as int),
        decreases d.len() - j,
    {
        let ghost before = recent.take(j - start);
        let ghost after = recent.take(j - start + 1);
        proof {
            assert(after.drop_last() =~= before);
            assert(after.last() == discards@[j as int]@);
            lemma_count_suit_nonneg(before, suit);
            assert(count_suit(before, suit) <= j - start) by {
                lemma_count_suit_bound(before, suit);
            }
        }
        if starts_with_letter(discards[j].as_str(), suit) {
            suited = suited + 1;
        }
        let near = adjacent_key_exec(discards[j].as_str(), i);
        proof {
            if near {
                assert(is_adjacent_key(after[j - start], i as int));
            }
            if adjacent {
                let t = choose|t: int| 0 <= t < before.len() && is_adjacent_key(#[trigger] before[t], i as int);
                assert(after[t] == before[t]);
            }
            if any_adjacent(after, i as int) {
                let t = choose|t: int| 0 <= t < after.len() && is_adjacent_key(#[trigger] after[t], i as int);
                if t < before.len() {
                    assert(before[t] == after[t]);
                }
            }
        }
        adjacent = adjacent || near;
        j += 1;
    }
    assert(recent.take(j - start) =~= recent);
    let rank = i % 9 + 1;
    let mut term: i64 = 0;
    if rank == 1 || rank == 9 {
        term = term + 22;
    }
    if suited == 0 {
        term = term + 28;
    } else if suited >= 2 {
        term = term - 16;
    } else {
        term = term - 8 * suited;
    }
    if adjacent {
        term = term - 18;
    } else {
        term = term + 20;
    }
    term
}

proof fn lemma_count_suit_bound(keys: Seq<Seq<char>>, suit: char)
    ensures
        count_suit(keys, suit) <= keys.len(),
    decreases keys.len(),
{
    if keys.len() > 0 {
        lemma_count_suit_bound(keys.drop_last(), suit);
    }
}

/// The danger of discarding a tile of key `tile_key`.
pub fn discard_danger_penalty(context: &BotContext, concealed_counts: &TileCounts, tile_key: &str) -> (r: i64)
    requires
        context.visible_tile_keys@.len() + 2 * meld_key_total(groups_v(context.player.meld_tile_key_groups@))
            < 0x1000_0000,
        context.opponent_discards_by_seat@.len() + discard_total(
            seat_groups_flat(*context),
            context.opponent_discards_by_seat@.len() as int,
        ) < 0x1000_0000,
    ensures
        r == danger_penalty(*context, concealed_counts@, tile_key@),
{
    let discard_index = match tile_index(tile_key) {
        Some(i) => i,
        None => {
            return 0;
        },
    };
    proof {
        lemma_key_of_tile_index(tile_key@);
    }
    let ghost ds = seat_groups_flat(*context);
    let ghost seat = context.seat_index as int;
    let visible_counts = visible_tile_counts_for_state(context, &context.player.meld_tile_key_groups);
    proof {
        let own = groups_v(context.player.meld_tile_key_groups@);
        lemma_keys_of_kind_bound(strs_v(context.visible_tile_keys@), discard_index as int);
        lemma_melds_visible_bound(own, discard_index as int);
    }
    let unseen_copies: i64 = if 4 - visible_counts[discard_index] > 0 {
        (4 - visible_counts[discard_index]) as i64
    } else {
        0
    };
    let n = context.opponent_discards_by_seat.len();
    let mut round_progress: i64 = 0;
    let mut s: usize = 0;
    while s < n
        invariant
            ds == seat_groups_flat(*context),
            n == ds.len(),
            s <= n,
            round_progress == discard_total(ds, s as int),
            n + discard_total(ds, n as int) < 0x1000_0000,
        decreases n - s,
    {
        proof {
            lemma_total_monotone(ds, s as int + 1, n as int);
            lemma_total_monotone(ds, s as int, s as int + 1);
            assert(ds[s as int] == strs_v(context.opponent_discards_by_seat@[s as int]@));
            assert(ds[s as int].len() == context.opponent_discards_by_seat@[s as int]@.len());
            assert(discard_total(ds, s as int + 1) == discard_total(ds, s as int) + ds[s as int].len());
        }
        let seat_len = context.opponent_discards_by_seat[s].len();
        assert(seat_len == ds[s as int].len());
        round_progress = round_progress + seat_len as i64;
        s += 1;
    }
    proof {
        lemma_total_monotone(ds, n as int, n as int);
    }
    let late_factor: i64 = 1 + round_progress / 14;
    proof {
        assert(0 <= unseen_copies <= 0x1000_0000 + 4);
        assert(1 <= late_factor <= 0x1000_0000);
        assert(unseen_copies * 10 * late_factor <= (0x1000_0000 + 4) * 10 * 0x1000_0000) by (nonlinear_arith)
            requires
                0 <= unseen_copies <= 0x1000_0000 + 4,
                1 <= late_factor <= 0x1000_0000,
        ;
        assert(unseen_copies * 10 * late_factor >= 0) by (nonlinear_arith)
            requires
                0 <= unseen_copies,
                1 <= late_factor,
        ;
    }
    let base: i64 = unseen_copies * 10 * late_factor;
    let suit: char = if discard_index < HONOR_TILE_START {
        let v = chars_of(tile_key);
        proof {
            assert(tile_key@ == spec_tile_key(discard_index as int));
        }
        v[0]
    } else {
        ' '
    };
    let mut seats: i64 = 0;
    let mut t: usize = 0;
    while t < n
        invariant
            ds == seat_groups_flat(*context),
            seat == context.seat_index as int,
            n == ds.len(),
            t <= n,
            discard_index < 34,
            spec_tile_index(tile_key@) == Some(discard_index as int),
            discard_index < 27 ==> suit == suit_letter(discard_index as int / 9),
            seats == danger_seats(ds, seat, tile_key@, discard_index as int, t as int),
            n + discard_total(ds, n as int) < 0x1000_0000,
        decreases n - t,
    {
        proof {
            lemma_danger_seats_bound(ds, seat, tile_key@, discard_index as int, t as int);
            lemma_total_monotone(ds, t as int + 1, n as int);
            lemma_total_monotone(ds, t as int, n as int);
            lemma_seat_term_bound(ds[t as int], tile_key@, discard_index as int);
            assert(ds[t as int] == strs_v(context.opponent_discards_by_seat@[t as int]@));
        }
        if t != context.seat_index {
            let term = danger_seat_term_exec(&context.opponent_discards_by_seat[t], tile_key, discard_index, suit);
            seats = seats + term;
        }
        t += 1;
    }
    proof {
        lemma_danger_seats_bound(ds, seat, tile_key@, discard_index as int, n as int);
    }
    let mut penalty: i64 = base + seats;
    if concealed_counts[discard_index] >= 2 {
        penalty = penalty - 18;
    }
    if penalty > 0 {
        penalty
    } else {
        0
    }
}

proof fn lemma_total_monotone(ds: Seq<Seq<Seq<char>>>, a: int, b: int)
    requires
        0 <= a <= b <= ds.len(),
    ensures
        0 <= discard_total(ds, a) <= discard_total(ds, b),
    decreases b,
{
    if b > 0 {
        if a < b {
            lemma_total_monotone(ds, a, b - 1);
        } else {
            lemma_total_monotone(ds, a - 1, b - 1);
        }
    }
}

/// How many tiles of kind `t` may still come, given the seen counts `v` and the hand `c`.
pub open spec fn remaining_of(v: Seq<i32>, c: Seq<u8>, t: int) -> int {
    if 4 - v[t] - c[t] > 0 {
        4 - v[t] - c[t]
    } else {
        0
    }
}

/// The count of kind `t` in the hand, zero outside the kinds.
pub open spec fn held(c: Seq<u8>, t: int) -> int {
    if 0 <= t < 34 {
        c[t] as int
    } else {
        0
    }
}

/// How much a draw of kind `t` is worth looking at first: twelve for each copy that may
/// still come and twenty-four for each held; for an honour thirty-six more where one is
/// held; for a suited tile twelve more for ranks three to seven, ten for each held tile one
/// rank away and six for each two ranks away, within its suit.
pub open spec fn draw_priority(v: Seq<i32>, c: Seq<u8>, t: int) -> int {
    let base = remaining_of(v, c, t) * 12 + c[t] * 24;
    if t >= 27 {
        base + (if c[t] > 0 {
            36int
        } else {
            0
        })
    } else {
        let rank = t % 9 + 1;
        base + (if 3 <= rank <= 7 {
            12int
        } else {
            0
        }) + (if rank >= 2 {
            held(c, t - 1) * 10
        } else {
            0
        }) + (if rank <= 8 {
            held(c, t + 1) * 10
        } else {
            0
        }) + (if rank >= 3 {
            held(c, t - 2) * 6
        } else {
            0
        }) + (if rank <= 7 {
            held(c, t + 2) * 6
        } else {
            0
        })
    }
}

/// Whether a draw of kind `t` is looked at before one of kind `u`: higher priority first,
/// then more copies left, then the lower kind.
pub open spec fn draw_before(v: Seq<i32>, c: Seq<u8>, t: int, u: int) -> bool {
    let (pt, pu) = (draw_priority(v, c, t), draw_priority(v, c, u));
    let (rt, ru) = (remaining_of(v, c, t), remaining_of(v, c, u));
    pt > pu || (pt == pu && (rt > ru || (rt == ru && t < u)))
}

/// Whether kind `t` can still be drawn.
pub open spec fn is_draw_candidate(v: Seq<i32>, c: Seq<u8>, t: int) -> bool {
    0 <= t < 34 && remaining_of(v, c, t) > 0
}

/// Whether kind `t` is among the first components of `r`.
pub open spec fn lists_kind(r: Seq<(usize, i32)>, t: int) -> bool {
    exists|i: int| 0 <= i < r.len() && (#[trigger] r[i]).0 == t
}

/// The computed priority of kind `t`.
fn draw_priority_exec(visible_counts: &[i32; 34], concealed_counts: &TileCounts, t: usize) -> (r: (i32, i32))
    requires
        t < 34,
        forall|k: int| 0 <= k < 34 ==> -0x0800_0000 <= #[trigger] visible_counts@[k] <= 0x0800_0000,
    ensures
        r.0 == remaining_of(visible_counts@, concealed_counts@, t as int),
        r.1 == draw_priority(visible_counts@, concealed_counts@, t as int),
{
    let remaining = estimated_remaining_tile_count(visible_counts, concealed_counts, t);
    let mut priority: i32 = remaining * 12 + concealed_counts[t] as i32 * 24;
    if t >= HONOR_TILE_START {
        if concealed_counts[t] > 0 {
            priority = priority + 36;
        }
    } else {
        let rank = t % 9 + 1;
        if 3 <= rank && rank <= 7 {
            priority = priority + 12;
        }
        if rank >= 2 {
            priority = priority + concealed_counts[t - 1] as i32 * 10;
        }
        if rank <= 8 {
            priority = priority + concealed_counts[t + 1] as i32 * 10;
        }
        if rank >= 3 {
            priority = priority + concealed_counts[t - 2] as i32 * 6;
        }
        if rank <= 7 {
            priority = priority + concealed_counts[t + 2] as i32 * 6;
        }
    }
    (remaining, priority)
}

/// The kinds that may still be drawn, at most `limit` of them, most promising first, each
/// with the number of copies that may still come.
pub fn prioritized_draw_candidates(visible_counts: &[i32; 34], concealed_counts: &TileCounts, limit: usize) -> (r: Vec<(
    usize,
    i32,
)>)
    requires
        forall|k: int| 0 <= k < 34 ==> -0x0800_0000 <= #[trigger] visible_counts@[k] <= 0x0800_0000,
    ensures
        r@.len() <= limit,
        forall|i: int|
            0 <= i < r@.len() ==> is_draw_candidate(visible_counts@, concealed_counts@, (#[trigger] r@[i]).0 as int)
                && r@[i].1 == remaining_of(visible_counts@, concealed_counts@, r@[i].0 as int),
        forall|i: int, j: int|
            0 <= i < j < r@.len() ==> draw_before(
                visible_counts@,
                concealed_counts@,
                (#[trigger] r@[i]).0 as int,
                (#[trigger] r@[j]).0 as int,
            ),
        forall|t: int|
            is_draw_candidate(visible_counts@, concealed_counts@, t) && !lists_kind(r@, t) ==> r@.len() == limit
                && forall|i: int| 0 <= i < r@.len() ==> draw_before(visible_counts@, concealed_counts@, (#[trigger] r@[i]).0 as int, t),
{
    let ghost v = visible_counts@;
    let ghost c = concealed_counts@;
    let mut ranked: Vec<(usize, i32)> = Vec::new();
    let mut t: usize = 0;
    while t < TILE_KIND_COUNT
        invariant
            v == visible_counts@,
            c == concealed_counts@,
            t <= 34,
            forall|k: int| 0 <= k < 34 ==> -0x0800_0000 <= #[trigger] visible_counts@[k] <= 0x0800_0000,
            forall|i: int|
                0 <= i < ranked@.len() ==> is_draw_candidate(v, c, (#[trigger] ranked@[i]).0 as int) && ranked@[i].0 < t
                    && ranked@[i].1 == remaining_of(v, c, ranked@[i].0 as int),
            forall|i: int, j: int|
                0 <= i < j < ranked@.len() ==> draw_before(v, c, (#[trigger] ranked@[i]).0 as int, (#[trigger] ranked@[j]).0 as int),
            forall|u: int| 0 <= u < t && is_draw_candidate(v, c, u) ==> lists_kind(ranked@, u),
        decreases 34 - t,
    {
        let (remaining, priority) = draw_priority_exec(visible_counts, concealed_counts, t);
        if remaining > 0 {
            let mut p: usize = 0;
            let mut placed = false;
            while p < ranked.len() && !placed
                invariant
                    v == visible_counts@,
                    c == concealed_counts@,
                    t < 34,
                    p <= ranked@.len(),
                    remaining == remaining_of(v, c, t as int),
                    priority == draw_priority(v, c, t as int),
                    forall|k: int| 0 <= k < 34 ==> -0x0800_0000 <= #[trigger] visible_counts@[k] <= 0x0800_0000,
                    forall|i: int| 0 <= i < p ==> draw_before(v, c, (#[trigger] ranked@[i]).0 as int, t as int),
                    placed ==> p < ranked@.len() && draw_before(v, c, t as int, ranked@[p as int].0 as int),
                    forall|i: int|
                        0 <= i < ranked@.len() ==> (#[trigger] ranked@[i]).0 < t && ranked@[i].1 == remaining_of(
                            v,
                            c,
                            ranked@[i].0 as int,
                        ),
                decreases ranked@.len() - p + (if placed { 0int } else { 1int }),
            {
                let (other, other_remaining) = ranked[p];
                let (_, other_priority) = draw_priority_exec(visible_counts, concealed_counts, other);
                if priority > other_priority || (priority == other_priority && remaining > other_remaining) {
                    placed = true;
                } else {
                    assert(draw_before(v, c, other as int, t as int));
                    p += 1;
                }
            }
            let ghost old_ranked = ranked@;
            ranked.insert(p, (t, remaining));
            proof {
                assert forall|i: int, j: int| 0 <= i < j < ranked@.len() implies draw_before(
                    v,
                    c,
                    (#[trigger] ranked@[i]).0 as int,
                    (#[trigger] ranked@[j]).0 as int,
                ) by {
                    if i < p && j == p {
                    } else if i < p && j > p {
                        assert(ranked@[j] == old_ranked[j - 1]);
                        assert(ranked@[i] == old_ranked[i]);
                    } else if i == p && j > p {
                        assert(ranked@[j] == old_ranked[j - 1]);
                        if j - 1 > p {
                            assert(draw_before(v, c, old_ranked[p as int].0 as int, old_ranked[j - 1].0 as int));
                        }
                    } else if i > p {
                        assert(ranked@[j] == old_ranked[j - 1]);
                        assert(ranked@[i] == old_ranked[i - 1]);
                    }
                }
                assert forall|u: int| 0 <= u < t + 1 && is_draw_candidate(v, c, u) implies lists_kind(ranked@, u) by {
                    if u == t {
                        assert(ranked@[p as int].0 == t);
                    } else {
                        let i = choose|i: int| 0 <= i < old_ranked.len() && (#[trigger] old_ranked[i]).0 == u;
                        if i < p {
                            assert(ranked@[i] == old_ranked[i]);
                        } else {
                            assert(ranked@[i + 1] == old_ranked[i]);
                        }
                    }
                }
            }
        }
        t += 1;
    }
    let mut r: Vec<(usize, i32)> = Vec::new();
    let mut i: usize = 0;
    while i < ranked.len() && i < limit
        invariant
            i <= ranked@.len(),
            i <= limit,
            r@ == ranked@.take(i as int),
        decreases ranked@.len() - i,
    {
        r.push(ranked[i]);
        i += 1;
    }
    proof {
        assert forall|u: int| is_draw_candidate(v, c, u) && !lists_kind(r@, u) implies r@.len() == limit
            && forall|k: int| 0 <= k < r@.len() ==> draw_before(v, c, (#[trigger] r@[k]).0 as int, u) by {
            let j = choose|j: int| 0 <= j < ranked@.len() && (#[trigger] ranked@[j]).0 == u;
            if j < i {
                assert(r@[j] == ranked@[j]);
            }
            assert forall|k: int| 0 <= k < r@.len() implies draw_before(v, c, (#[trigger] r@[k]).0 as int, u) by {
                assert(r@[k] == ranked@[k]);
            }
        }
    }
    r
}

/// The keys that the counts `c` hold, kind by kind for the kinds before `n`, each as often
/// as it is counted.
pub open spec fn keys_from_counts(c: Seq<u8>, n: int) -> Seq<Seq<char>>
    decreases n,
{
    if n <= 0 {
        Seq::empty()
    } else {
        keys_from_counts(c, n - 1) + Seq::new(c[n - 1] as nat, |j: int| spec_tile_key(n - 1))
    }
}

/// The keys that the counts hold, in the order of the kinds.
pub fn tile_keys_from_counts(counts: &TileCounts) -> (r: Vec<String>)
    ensures
        strs_v(r@) == keys_from_counts(counts@, 34),
{
    let ghost c = counts@;
    let mut keys: Vec<String> = Vec::new();
    let mut t: usize = 0;
    while t < TILE_KIND_COUNT
        invariant
            c == counts@,
            t <= 34,
            strs_v(keys@) == keys_from_counts(c, t as int),
        decreases 34 - t,
    {
        let ghost start = strs_v(keys@);
        let mut j: u8 = 0;
        while j < counts[t]
            invariant
                c == counts@,
                t < 34,
                j <= c[t as int],
                strs_v(keys@) == start + Seq::new(j as nat, |q: int| spec_tile_key(t as int)),
            decreases c[t as int] - j,
        {
            let ghost before = strs_v(keys@);
            let key = owned(tile_key_for_index(t));
            let ghost kv = key@;
            keys.push(key);
            assert(strs_v(keys@) =~= before.push(kv));
            assert(strs_v(keys@) =~= start + Seq::new((j + 1) as nat, |q: int| spec_tile_key(t as int)));
            j += 1;
        }
        t += 1;
    }
    keys
}

/// The keys of a hand in a state: the concealed keys, what others see of each meld, then the
/// incoming tile's key where there is one.
pub open spec fn player_keys(concealed: Seq<Seq<char>>, melds: Seq<Seq<Seq<char>>>, incoming: Option<Seq<char>>) -> Seq<
    Seq<char>,
> {
    concealed + visible_melds(melds) + match incoming {
        Some(k) => seq![k],
        None => Seq::empty(),
    }
}

/// The keys of a hand in a state.
pub fn player_tile_keys_from_parts(
    concealed_tile_keys: &Vec<String>,
    meld_tile_key_groups: &Vec<Vec<String>>,
    incoming_tile: Option<&str>,
) -> (r: Vec<String>)
    ensures
        strs_v(r@) == player_keys(
            strs_v(concealed_tile_keys@),
            groups_v(meld_tile_key_groups@),
            crate::arena::opt_str_view(incoming_tile),
        ),
{
    let mut keys: Vec<String> = Vec::new();
    extend_keys(&mut keys, concealed_tile_keys, concealed_tile_keys.len());
    assert(strs_v(concealed_tile_keys@).take(concealed_tile_keys@.len() as int) =~= strs_v(concealed_tile_keys@));
    let ghost start = strs_v(keys@);
    let ghost ms = groups_v(meld_tile_key_groups@);
    let mut k: usize = 0;
    while k < meld_tile_key_groups.len()
        invariant
            ms == groups_v(meld_tile_key_groups@),
            k <= meld_tile_key_groups@.len(),
            strs_v(keys@) == start + visible_melds(ms.take(k as int)),
        decreases meld_tile_key_groups@.len() - k,
    {
        proof {
            assert(ms.take(k + 1).drop_last() =~= ms.take(k as int));
            assert(ms[k as int] == strs_v(meld_tile_key_groups@[k as int]@));
        }
        let meld = &meld_tile_key_groups[k];
        if meld_is_kong(meld) {
            extend_keys(&mut keys, meld, 3);
        } else {
            extend_keys(&mut keys, meld, meld.len());
            assert(strs_v(meld@).take(meld@.len() as int) =~= strs_v(meld@));
        }
        proof {
            assert(start + visible_melds(ms.take(k + 1)) =~= start + visible_melds(ms.take(k as int))
                + visible_meld_keys(ms[k as int]));
        }
        k += 1;
    }
    assert(ms.take(k as int) =~= ms);
    let ghost body = strs_v(keys@);
    match incoming_tile {
        Some(key) => {
            keys.push(owned(key));
            assert(strs_v(keys@) =~= body + seq![key@]);
        },
        None => {
            assert(body + Seq::<Seq<char>>::empty() =~= body);
        },
    }
    keys
}

/// The tiles of a hand that remain once the tiles with the given ids are taken out, in
/// their order.
pub open spec fn kept_tiles(tiles: Seq<TileV>, removed: Seq<Seq<char>>) -> Seq<TileV>
    decreases tiles.len(),
{
    if tiles.len() == 0 {
        Seq::empty()
    } else if removed.contains(tiles.last().0) {
        kept_tiles(tiles.drop_last(), removed)
    } else {
        kept_tiles(tiles.drop_last(), removed).push(tiles.last())
    }
}

/// Whether `id` is one of `ids`.
fn holds_id(ids: &Vec<String>, id: &str) -> (r: bool)
    ensures
        r == strs_v(ids@).contains(id@),
{
    let ghost is = strs_v(ids@);
    let mut j: usize = 0;
    while j < ids.len()
        invariant
            is == strs_v(ids@),
            j <= is.len(),
            forall|q: int| 0 <= q < j ==> (#[trigger] is[q]) != id@,
        decreases is.len() - j,
    {
        if str_equal(ids[j].as_str(), id) {
            assert(is[j as int] == id@);
            return true;
        }
        j += 1;
    }
    false
}

/// The hand with the tiles of the given ids taken out.
pub fn simulated_tiles_after_removal(concealed_tiles: &Vec<BotTileView>, removed_tile_ids: &Vec<String>) -> (r: Vec<
    BotTileView,
>)
    ensures
        bot_tiles_v(r@) == kept_tiles(bot_tiles_v(concealed_tiles@), strs_v(removed_tile_ids@)),
{
    let ghost t = bot_tiles_v(concealed_tiles@);
    let ghost rm = strs_v(removed_tile_ids@);
    let mut kept: Vec<BotTileView> = Vec::new();
    let mut i: usize = 0;
    while i < concealed_tiles.len()
        invariant
            t == bot_tiles_v(concealed_tiles@),
            rm == strs_v(removed_tile_ids@),
            i <= t.len(),
            bot_tiles_v(kept@) == kept_tiles(t.take(i as int), rm),
        decreases t.len() - i,
    {
        proof {
            assert(t.take(i + 1).drop_last() =~= t.take(i as int));
        }
        let tile = &concealed_tiles[i];
        if !holds_id(removed_tile_ids, tile.tile_id.as_str()) {
            let ghost before = bot_tiles_v(kept@);
            let copy = BotTileView {
                tile_id: tile.tile_id.clone(),
                tile_key: tile.tile_key.clone(),
                is_flower: tile.is_flower,
            };
            kept.push(copy);
            assert(bot_tiles_v(kept@) =~= before.push(t[i as int]));
        }
        i += 1;
    }
    assert(t.take(i as int) =~= t);
    kept
}

/// `x` put into the ascending list `s` before the first entry above it, repeats kept.
pub open spec fn insert_ascending(s: Seq<Seq<char>>, x: Seq<char>) -> Seq<Seq<char>>
    decreases s.len(),
{
    if s.len() == 0 {
        seq![x]
    } else if str_lt(x, s[0]) {
        seq![x] + s
    } else {
        seq![s[0]] + insert_ascending(s.drop_first(), x)
    }
}

/// The keys of `v` in ascending byte order, repeats kept.
pub open spec fn sorted_keys(v: Seq<Seq<char>>) -> Seq<Seq<char>>
    decreases v.len(),
{
    if v.len() == 0 {
        Seq::empty()
    } else {
        insert_ascending(sorted_keys(v.drop_last()), v.last())
    }
}

/// The keys of the tiles with the given ids that the hand holds, in the order of the ids.
pub open spec fn held_keys(hand: Seq<TileV>, ids: Seq<Seq<char>>) -> Seq<Seq<char>>
    decreases ids.len(),
{
    if ids.len() == 0 {
        Seq::empty()
    } else {
        let rest = held_keys(hand, ids.drop_last());
        match key_of_id(hand, ids.last()) {
            Some(k) => rest.push(k),
            None => rest,
        }
    }
}

/// The keys of the meld that a claim would make: for a chow, the keys of the tiles it uses
/// and the discard's, in ascending order; for a kong, four copies of the discard's key; for
/// another claim, three.
pub open spec fn claim_meld_keys(action_type: Seq<char>, discard: Seq<char>, hand: Seq<TileV>, ids: Seq<Seq<char>>) -> Seq<
    Seq<char>,
> {
    if action_type == seq!['c', 'h', 'o', 'w'] {
        sorted_keys(held_keys(hand, ids).push(discard))
    } else if action_type == seq!['k', 'o', 'n', 'g'] {
        Seq::new(4, |j: int| discard)
    } else {
        Seq::new(3, |j: int| discard)
    }
}

proof fn lemma_insert_ascending_step(s: Seq<Seq<char>>, x: Seq<char>, i: int)
    requires
        0 <= i < s.len(),
        !str_lt(x, s[i]),
    ensures
        insert_ascending(s.skip(i), x) == seq![s[i]] + insert_ascending(s.skip(i + 1), x),
{
    let t = s.skip(i);
    assert(t[0] == s[i]);
    assert(t.drop_first() =~= s.skip(i + 1));
}

/// Puts `x` into the ascending list before the first entry above it.
fn insert_ascending_exec(v: &mut Vec<String>, x: String)
    ensures
        strs_v(final(v)@) == insert_ascending(strs_v(old(v)@), x@),
{
    let ghost s = strs_v(v@);
    let mut i: usize = 0;
    assert(s.skip(0) =~= s);
    assert(s.take(0) + s =~= s);
    while i < v.len()
        invariant
            s == strs_v(v@),
            *v == *old(v),
            i <= v@.len(),
            insert_ascending(s, x@) == s.take(i as int) + insert_ascending(s.skip(i as int), x@),
        decreases v@.len() - i,
    {
        if str_less(x.as_str(), v[i].as_str()) {
            proof {
                let t = s.skip(i as int);
                assert(t[0] == s[i as int]);
            }
            v.insert(i, x);
            proof {
                assert(strs_v(v@) =~= s.take(i as int) + (seq![x@] + s.skip(i as int)));
            }
            return;
        }
        proof {
            lemma_insert_ascending_step(s, x@, i as int);
            assert(s.take(i as int) + (seq![s[i as int]] + insert_ascending(s.skip(i + 1), x@)) =~= s.take(i + 1)
                + insert_ascending(s.skip(i + 1), x@));
        }
        i += 1;
    }
    proof {
        assert(s.skip(i as int) =~= Seq::<Seq<char>>::empty());
        assert(s.take(i as int) =~= s);
    }
    v.push(x);
    proof {
        assert(strs_v(v@) =~= s + seq![x@]);
    }
}

/// The keys of the meld that a claim would make.
pub fn claim_meld_tile_keys(
    action_type: &str,
    discard_tile_key: &str,
    tile_ids: &Vec<String>,
    concealed_tiles: &Vec<BotTileView>,
) -> (r: Vec<String>)
    ensures
        strs_v(r@) == claim_meld_keys(action_type@, discard_tile_key@, bot_tiles_v(concealed_tiles@), strs_v(tile_ids@)),
{
    proof {
        reveal_strlit("chow");
        reveal_strlit("kong");
        assert("chow"@ =~= seq!['c', 'h', 'o', 'w']);
        assert("kong"@ =~= seq!['k', 'o', 'n', 'g']);
    }
    if str_equal(action_type, "chow") {
        let ghost is = strs_v(tile_ids@);
        let ghost h = bot_tiles_v(concealed_tiles@);
        let mut keys: Vec<String> = Vec::new();
        let mut k: usize = 0;
        while k < tile_ids.len()
            invariant
                is == strs_v(tile_ids@),
                h == bot_tiles_v(concealed_tiles@),
                k <= is.len(),
                strs_v(keys@) == held_keys(h, is.take(k as int)),
            decreases is.len() - k,
        {
            proof {
                assert(is.take(k + 1).drop_last() =~= is.take(k as int));
                assert(is.take(k + 1).last() == tile_ids@[k as int]@);
            }
            match key_of_id_in(concealed_tiles, tile_ids[k].as_str()) {
                Some(key) => {
                    let ghost before = strs_v(keys@);
                    let ghost kv = key@;
                    keys.push(key);
                    assert(strs_v(keys@) =~= before.push(kv));
                },
                None => {},
            }
            k += 1;
        }
        assert(is.take(k as int) =~= is);
        let ghost held = strs_v(keys@);
        let d = owned(discard_tile_key);
        keys.push(d);
        assert(strs_v(keys@) =~= held.push(discard_tile_key@));
        let ghost all = strs_v(keys@);
        let mut sorted: Vec<String> = Vec::new();
        let mut j: usize = 0;
        while j < keys.len()
            invariant
                all == strs_v(keys@),
                j <= all.len(),
                strs_v(sorted@) == sorted_keys(all.take(j as int)),
            decreases all.len() - j,
        {
            proof {
                assert(all.take(j + 1).drop_last() =~= all.take(j as int));
                assert(all.take(j + 1).last() == keys@[j as int]@);
            }
            insert_ascending_exec(&mut sorted, keys[j].clone());
            j += 1;
        }
        assert(all.take(j as int) =~= all);
        return sorted;
    }
    let count: usize = if str_equal(action_type, "kong") {
        4
    } else {
        3
    };
    let mut meld: Vec<String> = Vec::new();
    let mut j: usize = 0;
    while j < count
        invariant
            j <= count,
            strs_v(meld@) == Seq::new(j as nat, |q: int| discard_tile_key@),
        decreases count - j,
    {
        let ghost before = strs_v(meld@);
        let key = owned(discard_tile_key);
        meld.push(key);
        assert(strs_v(meld@) =~= before.push(discard_tile_key@));
        assert(strs_v(meld@) =~= Seq::new((j + 1) as nat, |q: int| discard_tile_key@));
        j += 1;
    }
    assert(strs_v(meld@) =~= Seq::new(count as nat, |q: int| discard_tile_key@));
    meld
}

proof fn lemma_keys_of_kind_concat(a: Seq<Seq<char>>, b: Seq<Seq<char>>, k: int)
    ensures
        keys_of_kind(a + b, k) == keys_of_kind(a, k) + keys_of_kind(b, k),
    decreases b.len(),
{
    if b.len() == 0 {
        assert(a + b =~= a);
    } else {
        lemma_keys_of_kind_concat(a, b.drop_last(), k);
        assert((a + b).drop_last() =~= a + b.drop_last());
        assert((a + b).last() == b.last());
    }
}

proof fn lemma_keys_of_kind_repeat(n: nat, t: int, k: int)
    requires
        0 <= t < 34,
    ensures
        keys_of_kind(Seq::new(n, |j: int| spec_tile_key(t)), k) == (if t == k {
            n as int
        } else {
            0
        }),
    decreases n,
{
    crate::tiles::lemma_tile_index_of_key(t);
    if n > 0 {
        let s = Seq::new(n, |j: int| spec_tile_key(t));
        lemma_keys_of_kind_repeat((n - 1) as nat, t, k);
        assert(s.drop_last() =~= Seq::new((n - 1) as nat, |j: int| spec_tile_key(t)));
        assert(s.last() == spec_tile_key(t));
    }
}

proof fn lemma_keys_from_counts_kind(c: Seq<u8>, n: int, k: int)
    requires
        0 <= n <= 34,
        c.len() == 34,
        0 <= k < 34,
    ensures
        keys_of_kind(keys_from_counts(c, n), k) == (if k < n {
            c[k] as int
        } else {
            0
        }),
    decreases n,
{
    if n > 0 {
        lemma_keys_from_counts_kind(c, n - 1, k);
        lemma_keys_of_kind_concat(keys_from_counts(c, n - 1), Seq::new(c[n - 1] as nat, |j: int| spec_tile_key(n - 1)), k);
        lemma_keys_of_kind_repeat(c[n - 1] as nat, n - 1, k);
    }
}

proof fn lemma_key_count_is_keys_of_kind(keys: Seq<String>, k: int)
    ensures
        crate::context::key_count(keys, k) == keys_of_kind(strs_v(keys), k),
    decreases keys.len(),
{
    if keys.len() > 0 {
        lemma_key_count_is_keys_of_kind(keys.drop_last(), k);
        assert(strs_v(keys).drop_last() =~= strs_v(keys.drop_last()));
    }
}

/// Counting the keys that a set of counts spells out gives the counts back: what
/// `tile_counts34` makes of the keys of `tile_keys_from_counts` is where it started.
pub proof fn counts_survive_a_round_trip(c: Seq<u8>, keys: Seq<String>, k: int)
    requires
        c.len() == 34,
        strs_v(keys) == keys_from_counts(c, 34),
        0 <= k < 34,
    ensures
        crate::context::spec_tile_counts(keys, k) == c[k],
{
    lemma_key_count_is_keys_of_kind(keys, k);
    lemma_keys_from_counts_kind(c, 34, k);
}

proof fn lemma_insert_ascending_at(s: Seq<Seq<char>>, x: Seq<char>) -> (p: int)
    ensures
        0 <= p <= s.len(),
        insert_ascending(s, x) == s.insert(p, x),
        forall|i: int| 0 <= i < p ==> !str_lt(x, #[trigger] s[i]),
        p < s.len() ==> str_lt(x, s[p]),
    decreases s.len(),
{
    if s.len() == 0 {
        assert(insert_ascending(s, x) =~= s.insert(0, x));
        0
    } else if str_lt(x, s[0]) {
        assert(insert_ascending(s, x) =~= s.insert(0, x));
        0
    } else {
        let rest = s.drop_first();
        let q = lemma_insert_ascending_at(rest, x);
        assert(insert_ascending(s, x) =~= s.insert(q + 1, x));
        assert forall|i: int| 0 <= i < q + 1 implies !str_lt(x, #[trigger] s[i]) by {
            if i > 0 {
                assert(s[i] == rest[i - 1]);
            }
        }
        q + 1
    }
}

/// No entry of `s` comes before an earlier one: `s` is ascending, repeats allowed.
pub open spec fn ascending(s: Seq<Seq<char>>) -> bool {
    forall|i: int, j: int| 0 <= i < j < s.len() ==> !str_lt(#[trigger] s[j], #[trigger] s[i])
}

proof fn lemma_insert_ascending_keeps_order(s: Seq<Seq<char>>, x: Seq<char>)
    requires
        ascending(s),
    ensures
        ascending(insert_ascending(s, x)),
        insert_ascending(s, x).to_multiset() == s.to_multiset().insert(x),
{
    let p = lemma_insert_ascending_at(s, x);
    let r = insert_ascending(s, x);
    vstd::seq_lib::to_multiset_insert(s, p, x);
    assert forall|i: int, j: int| 0 <= i < j < r.len() implies !str_lt(#[trigger] r[j], #[trigger] r[i]) by {
        if j < p {
        } else if i < p && j == p {
        } else if i < p && j > p {
            assert(r[j] == s[j - 1]);
        } else if i == p {
            assert(r[j] == s[j - 1]);
            assert(str_lt(x, s[p]));
            if str_lt(s[j - 1], x) {
                if j - 1 == p {
                    crate::ordering::lemma_str_lt_asymmetric(x, s[p]);
                } else {
                    assert(!str_lt(s[j - 1], s[p]));
                    crate::ordering::lemma_str_lt_transitive(s[j - 1], x, s[p]);
                }
            }
        } else {
            assert(r[j] == s[j - 1]);
            assert(r[i] == s[i - 1]);
        }
    }
}

/// Sorting keeps every key, as often as it occurs, and leaves no key before an earlier one.
pub proof fn sorted_keys_is_an_ascending_permutation(v: Seq<Seq<char>>)
    ensures
        ascending(sorted_keys(v)),
        sorted_keys(v).to_multiset() == v.to_multiset(),
    decreases v.len(),
{
    if v.len() > 0 {
        sorted_keys_is_an_ascending_permutation(v.drop_last());
        lemma_insert_ascending_keeps_order(sorted_keys(v.drop_last()), v.last());
        vstd::seq_lib::to_multiset_build(v.drop_last(), v.last());
        assert(v.drop_last().push(v.last()) =~= v);
    } else {
        assert(sorted_keys(v) =~= v);
    }
}

} // verus!
