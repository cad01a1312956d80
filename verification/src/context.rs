use vstd::prelude::*;

use crate::shanten::{TILE_KIND_COUNT, TileCounts};
use crate::text::{chars_of, owned};
use crate::tiles::{lemma_key_of_tile_index, spec_tile_index, spec_tile_key, tile_index_of_chars};

verus! {

/// Kind index (0..34) of a tile key, or `None` for anything that is not a tile key.
pub fn tile_index(tile_key: &str) -> (r: Option<usize>)
    ensures
        r matches Some(i) ==> spec_tile_index(tile_key@) == Some(i as int),
        r is None <==> spec_tile_index(tile_key@) is None,
{
    let cs = chars_of(tile_key);
    tile_index_of_chars(&cs)
}

/// The key of kind `tile_index`; the empty string past the last kind.
pub fn tile_key_for_index(tile_index: usize) -> (r: &'static str)
    ensures
        tile_index < 34 ==> r@ == spec_tile_key(tile_index as int),
        tile_index >= 34 ==> r@ == Seq::<char>::empty(),
{
    match tile_index {
        0 => {
            proof {
                reveal_strlit("w1");
            }
            assert("w1"@ =~= spec_tile_key(0));
            "w1"
        }
        1 => {
            proof {
                reveal_strlit("w2");
            }
            assert("w2"@ =~= spec_tile_key(1));
            "w2"
        }
        2 => {
            proof {
                reveal_strlit("w3");
            }
            assert("w3"@ =~= spec_tile_key(2));
            "w3"
        }
        3 => {
            proof {
                reveal_strlit("w4");
            }
            assert("w4"@ =~= spec_tile_key(3));
            "w4"
        }
        4 => {
            proof {
                reveal_strlit("w5");
            }
            assert("w5"@ =~= spec_tile_key(4));
            "w5"
        }
        5 => {
            proof {
                reveal_strlit("w6");
            }
            assert("w6"@ =~= spec_tile_key(5));
            "w6"
        }
        6 => {
            proof {
                reveal_strlit("w7");
            }
            assert("w7"@ =~= spec_tile_key(6));
            "w7"
        }
        7 => {
            proof {
                reveal_strlit("w8");
            }
            assert("w8"@ =~= spec_tile_key(7));
            "w8"
        }
        8 => {
            proof {
                reveal_strlit("w9");
            }
            assert("w9"@ =~= spec_tile_key(8));
            "w9"
        }
        9 => {
            proof {
                reveal_strlit("t1");
            }
            assert("t1"@ =~= spec_tile_key(9));
            "t1"
        }
        10 => {
            proof {
                reveal_strlit("t2");
            }
            assert("t2"@ =~= spec_tile_key(10));
            "t2"
        }
        11 => {
            proof {
                reveal_strlit("t3");
            }
            assert("t3"@ =~= spec_tile_key(11));
            "t3"
        }
        12 => {
            proof {
                reveal_strlit("t4");
            }
            assert("t4"@ =~= spec_tile_key(12));
            "t4"
        }
        13 => {
            proof {
                reveal_strlit("t5");
            }
            assert("t5"@ =~= spec_tile_key(13));
            "t5"
        }
        14 => {
            proof {
                reveal_strlit("t6");
            }
            assert("t6"@ =~= spec_tile_key(14));
            "t6"
        }
        15 => {
            proof {
                reveal_strlit("t7");
            }
            assert("t7"@ =~= spec_tile_key(15));
            "t7"
        }
        16 => {
            proof {
                reveal_strlit("t8");
            }
            assert("t8"@ =~= spec_tile_key(16));
            "t8"
        }
        17 => {
            proof {
                reveal_strlit("t9");
            }
            assert("t9"@ =~= spec_tile_key(17));
            "t9"
        }
        18 => {
            proof {
                reveal_strlit("b1");
            }
            assert("b1"@ =~= spec_tile_key(18));
            "b1"
        }
        19 => {
            proof {
                reveal_strlit("b2");
            }
            assert("b2"@ =~= spec_tile_key(19));
            "b2"
        }
        20 => {
            proof {
                reveal_strlit("b3");
            }
            assert("b3"@ =~= spec_tile_key(20));
            "b3"
        }
        21 => {
            proof {
                reveal_strlit("b4");
            }
            assert("b4"@ =~= spec_tile_key(21));
            "b4"
        }
        22 => {
            proof {
                reveal_strlit("b5");
            }
            assert("b5"@ =~= spec_tile_key(22));
            "b5"
        }
        23 => {
            proof {
                reveal_strlit("b6");
            }
            assert("b6"@ =~= spec_tile_key(23));
            "b6"
        }
        24 => {
            proof {
                reveal_strlit("b7");
            }
            assert("b7"@ =~= spec_tile_key(24));
            "b7"
        }
        25 => {
            proof {
                reveal_strlit("b8");
            }
            assert("b8"@ =~= spec_tile_key(25));
            "b8"
        }
        26 => {
            proof {
                reveal_strlit("b9");
            }
            assert("b9"@ =~= spec_tile_key(26));
            "b9"
        }
        27 => {
            proof {
                reveal_strlit("east");
            }
            assert("east"@ =~= spec_tile_key(27));
            "east"
        }
        28 => {
            proof {
                reveal_strlit("south");
            }
            assert("south"@ =~= spec_tile_key(28));
            "south"
        }
        29 => {
            proof {
                reveal_strlit("west");
            }
            assert("west"@ =~= spec_tile_key(29));
            "west"
        }
        30 => {
            proof {
                reveal_strlit("north");
            }
            assert("north"@ =~= spec_tile_key(30));
            "north"
        }
        31 => {
            proof {
                reveal_strlit("red");
            }
            assert("red"@ =~= spec_tile_key(31));
            "red"
        }
        32 => {
            proof {
                reveal_strlit("green");
            }
            assert("green"@ =~= spec_tile_key(32));
            "green"
        }
        33 => {
            proof {
                reveal_strlit("white");
            }
            assert("white"@ =~= spec_tile_key(33));
            "white"
        }
        _ => {
            proof {
                reveal_strlit("");
            }
            ""
        }
    }
}

/// The wind of a seat relative to the dealer: the dealer sits east, then south, west, north.
pub open spec fn spec_seat_wind_key(seat_index: int, dealer_seat: int) -> Seq<char> {
    spec_tile_key(27 + (seat_index + 4 - dealer_seat) % 4)
}

pub fn seat_wind_key(seat_index: usize, dealer_seat: usize) -> (r: String)
    requires
        dealer_seat <= seat_index + 4,
        seat_index + 4 <= usize::MAX,
    ensures
        r@ == spec_seat_wind_key(seat_index as int, dealer_seat as int),
{
    let wind = (seat_index + 4 - dealer_seat) % 4;
    owned(tile_key_for_index(27 + wind))
}

/// Number of keys in `keys` that name kind `k`.
pub open spec fn key_count(keys: Seq<String>, k: int) -> int
    decreases keys.len(),
{
    if keys.len() == 0 {
        0
    } else {
        key_count(keys.drop_last(), k) + (if spec_tile_index(keys.last()@) == Some(k) {
            1int
        } else {
            0int
        })
    }
}

/// Per-kind counts of the valid tile keys in `keys` (each count saturates at 255).
pub open spec fn spec_tile_counts(keys: Seq<String>, k: int) -> int {
    if key_count(keys, k) < 255 {
        key_count(keys, k)
    } else {
        255
    }
}

pub fn tile_counts34(tile_keys: &Vec<String>) -> (r: TileCounts)
    ensures
        forall|k: int| 0 <= k < 34 ==> r@[k] == spec_tile_counts(tile_keys@, k),
{
    let mut counts = [0u8; TILE_KIND_COUNT];
    let mut j: usize = 0;
    while j < tile_keys.len()
        invariant
            j <= tile_keys@.len(),
            counts@.len() == 34,
            forall|k: int| 0 <= k < 34 ==> counts@[k] == spec_tile_counts(tile_keys@.take(j as int), k),
        decreases tile_keys@.len() - j,
    {
        proof {
            assert(tile_keys@.take(j + 1).drop_last() =~= tile_keys@.take(j as int));
        }
        if let Some(index) = tile_index(tile_keys[j].as_str()) {
            proof {
                lemma_key_of_tile_index(tile_keys@[j as int]@);
            }
            counts[index] = if counts[index] < 255 {
                counts[index] + 1
            } else {
                255
            };
        }
        j += 1;
    }
    assert(tile_keys@.take(j as int) =~= tile_keys@);
    counts
}

} // verus!
