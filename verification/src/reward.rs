use vstd::prelude::*;

use crate::context::{spec_tile_counts, tile_counts34, tile_index};
use crate::shanten::{min_shanten_for_counts, spec_min_shanten, TileCounts};
use crate::tiles::spec_tile_index;

verus! {

/// Whether every key names a tile kind.
pub open spec fn all_tile_keys(keys: Seq<String>) -> bool {
    forall|j: int| 0 <= j < keys.len() ==> (#[trigger] spec_tile_index(keys[j]@)) is Some
}

/// Per-kind counts of the keys, each saturating at 255.
pub open spec fn counts_of_keys(keys: Seq<String>) -> Seq<u8> {
    Seq::new(34, |k: int| spec_tile_counts(keys, k) as u8)
}

/// Per-kind counts of the keys, or `None` where a key names no tile kind.
pub fn tile_counts_for_tile_keys(tile_keys: &Vec<String>) -> (r: Option<TileCounts>)
    ensures
        all_tile_keys(tile_keys@) ==> (r matches Some(c) && c@ == counts_of_keys(tile_keys@)),
        !all_tile_keys(tile_keys@) ==> r is None,
{
    let mut j: usize = 0;
    while j < tile_keys.len()
        invariant
            j <= tile_keys@.len(),
            forall|i: int| 0 <= i < j ==> (#[trigger] spec_tile_index(tile_keys@[i]@)) is Some,
        decreases tile_keys@.len() - j,
    {
        if tile_index(tile_keys[j].as_str()).is_none() {
            return None;
        }
        j += 1;
    }
    let counts = tile_counts34(tile_keys);
    proof {
        assert forall|k: int| 0 <= k < 34 implies spec_tile_counts(tile_keys@, k) as u8 == counts@[k] by {
        }
        assert(counts@ =~= counts_of_keys(tile_keys@));
    }
    Some(counts)
}

/// The shanten of a hand given by its tile keys and open melds, or `None` where a key names
/// no tile kind.
pub fn shanten_for_tile_keys(tile_keys: &Vec<String>, open_meld_count: usize) -> (r: Option<i32>)
    requires
        open_meld_count <= 0x7fff_ffff,
    ensures
        all_tile_keys(tile_keys@) ==> (r matches Some(v) && v == spec_min_shanten(
            counts_of_keys(tile_keys@),
            open_meld_count as int,
        )),
        !all_tile_keys(tile_keys@) ==> r is None,
{
    match tile_counts_for_tile_keys(tile_keys) {
        Some(counts) => Some(min_shanten_for_counts(&counts, open_meld_count)),
        None => None,
    }
}

} // verus!
