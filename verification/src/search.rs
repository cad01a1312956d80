use vstd::prelude::*;

use crate::shanten::{min_shanten_for_counts, spec_min_shanten, TileCounts, TILE_KIND_COUNT};

verus! {

/// Whether one more tile of kind `k` completes the hand.
pub open spec fn completes(c: Seq<u8>, open_meld_count: int, k: int) -> bool {
    spec_min_shanten(c.update(k, (c[k] + 1) as u8), open_meld_count) < 0
}

/// How many of the kinds below `n` complete the hand with one more tile.
pub open spec fn completing_kinds(c: Seq<u8>, open_meld_count: int, n: int) -> int
    decreases n,
{
    if n <= 0 {
        0
    } else {
        completing_kinds(c, open_meld_count, n - 1) + (if completes(c, open_meld_count, n - 1) {
            1int
        } else {
            0int
        })
    }
}

/// How many of the 34 tile kinds would complete the hand: its acceptance width at tenpai.
pub fn acceptance_width(counts: &TileCounts, open_meld_count: usize) -> (r: usize)
    requires
        forall|k: int| 0 <= k < 34 ==> counts@[k] < 255,
        open_meld_count <= 0x7fff_ffff,
    ensures
        r == completing_kinds(counts@, open_meld_count as int, 34),
{
    let mut width: usize = 0;
    let mut tile_index: usize = 0;
    while tile_index < TILE_KIND_COUNT
        invariant
            tile_index <= 34,
            counts@.len() == 34,
            forall|k: int| 0 <= k < 34 ==> counts@[k] < 255,
            open_meld_count <= 0x7fff_ffff,
            width == completing_kinds(counts@, open_meld_count as int, tile_index as int),
            width <= tile_index,
        decreases 34 - tile_index,
    {
        let mut test_counts = *counts;
        test_counts[tile_index] = test_counts[tile_index] + 1;
        assert(test_counts@ =~= counts@.update(tile_index as int, (counts@[tile_index as int] + 1) as u8));
        let shanten = min_shanten_for_counts(&test_counts, open_meld_count);
        if shanten < 0 {
            width += 1;
        }
        tile_index += 1;
    }
    width
}

} // verus!
