use vstd::prelude::*;

use crate::context::tile_key_for_index as standard_key_for_index;
use crate::text::{chars_equal, chars_of};
use crate::tiles::{spec_tile_index, spec_tile_key, tile_index_of_chars};

verus! {

/// Number of claim actions in the claim head of the action space.
pub const CLAIM_ACTION_COUNT: usize = 7;
/// Number of self-kong actions in the self-kong head of the action space.
pub const SELF_KONG_ACTION_COUNT: usize = 3;

/// Tile keys in action-space order (the same order as the tile index).
pub const TILE_KEYS: [&'static str; 34] = [
    "w1", "w2", "w3", "w4", "w5", "w6", "w7", "w8", "w9", "t1", "t2", "t3", "t4", "t5", "t6",
    "t7", "t8", "t9", "b1", "b2", "b3", "b4", "b5", "b6", "b7", "b8", "b9", "east", "south",
    "west", "north", "red", "green", "white",
];

/// Position of a tile key in `TILE_KEYS`.
pub fn tile_index(tile_key: &str) -> (r: Option<usize>)
    ensures
        r matches Some(i) ==> spec_tile_index(tile_key@) == Some(i as int),
        r is None <==> spec_tile_index(tile_key@) is None,
{
    let cs = chars_of(tile_key);
    tile_index_of_chars(&cs)
}

/// The key at a position of `TILE_KEYS`.
pub fn tile_key_for_index(index: usize) -> (r: Option<&'static str>)
    ensures
        index < 34 ==> (r matches Some(k) && k@ == spec_tile_key(index as int)),
        index >= 34 ==> r is None,
{
    if index < 34 {
        Some(standard_key_for_index(index))
    } else {
        None
    }
}

/// Names of the claim actions, in head order.
pub open spec fn claim_action_name(k: int) -> Seq<char> {
    if k == 0 {
        seq!['p', 'a', 's', 's']
    } else if k == 1 {
        seq!['h', 'u']
    } else if k == 2 {
        seq!['p', 'u', 'n', 'g']
    } else if k == 3 {
        seq!['k', 'o', 'n', 'g']
    } else if k == 4 {
        seq!['c', 'h', 'o', 'w', '_', 'l', 'e', 'f', 't']
    } else if k == 5 {
        seq!['c', 'h', 'o', 'w', '_', 'm', 'i', 'd']
    } else {
        seq!['c', 'h', 'o', 'w', '_', 'r', 'i', 'g', 'h', 't']
    }
}

/// Names of the self-kong actions, in head order.
pub open spec fn self_kong_action_name(k: int) -> Seq<char> {
    if k == 0 {
        seq!['p', 'a', 's', 's']
    } else if k == 1 {
        seq!['c', 'o', 'n', 'c', 'e', 'a', 'l', 'e', 'd', '_', 'k', 'o', 'n', 'g']
    } else {
        seq!['a', 'd', 'd', '_', 'k', 'o', 'n', 'g']
    }
}

/// No two places of the claim head share a name, so a name found in the head names one
/// place only.
pub proof fn claim_action_names_are_distinct(a: int, b: int)
    requires
        0 <= a < 7,
        0 <= b < 7,
        a != b,
    ensures
        claim_action_name(a) != claim_action_name(b),
{
    let x = claim_action_name(a);
    let y = claim_action_name(b);
    assert(x.len() != y.len() || x[0] != y[0] || x[1] != y[1]);
}

/// No two places of the self-kong head share a name.
pub proof fn self_kong_action_names_are_distinct(a: int, b: int)
    requires
        0 <= a < 3,
        0 <= b < 3,
        a != b,
    ensures
        self_kong_action_name(a) != self_kong_action_name(b),
{
    let x = self_kong_action_name(a);
    let y = self_kong_action_name(b);
    assert(x.len() != y.len());
}

/// First position in `names` that holds `s`.
fn position_of(names: &Vec<Vec<char>>, s: &Vec<char>) -> (r: Option<usize>)
    ensures
        r matches Some(k) ==> k < names@.len() && names@[k as int]@ == s@ && forall|j: int|
            0 <= j < k ==> names@[j]@ != s@,
        r is None ==> forall|j: int| 0 <= j < names@.len() ==> names@[j]@ != s@,
{
    let mut k: usize = 0;
    while k < names.len()
        invariant
            k <= names@.len(),
            forall|j: int| 0 <= j < k ==> names@[j]@ != s@,
        decreases names@.len() - k,
    {
        if chars_equal(&names[k], s) {
            return Some(k);
        }
        k += 1;
    }
    None
}

/// Index of a claim action name in the claim head.
pub fn claim_action_index(action: &str) -> (r: Option<usize>)
    ensures
        r matches Some(k) ==> k < 7 && claim_action_name(k as int) == action@,
        r is None ==> forall|k: int| 0 <= k < 7 ==> claim_action_name(k) != action@,
{
    let names = vec![
        vec!['p', 'a', 's', 's'],
        vec!['h', 'u'],
        vec!['p', 'u', 'n', 'g'],
        vec!['k', 'o', 'n', 'g'],
        vec!['c', 'h', 'o', 'w', '_', 'l', 'e', 'f', 't'],
        vec!['c', 'h', 'o', 'w', '_', 'm', 'i', 'd'],
        vec!['c', 'h', 'o', 'w', '_', 'r', 'i', 'g', 'h', 't'],
    ];
    assert forall|k: int| 0 <= k < 7 implies names@[k]@ == claim_action_name(k) by {
        if k == 0 {
            assert(names@[k]@ =~= claim_action_name(k));
        } else if k == 1 {
            assert(names@[k]@ =~= claim_action_name(k));
        } else if k == 2 {
            assert(names@[k]@ =~= claim_action_name(k));
        } else if k == 3 {
            assert(names@[k]@ =~= claim_action_name(k));
        } else if k == 4 {
            assert(names@[k]@ =~= claim_action_name(k));
        } else if k == 5 {
            assert(names@[k]@ =~= claim_action_name(k));
        } else {
            assert(names@[k]@ =~= claim_action_name(k));
        }
    }
    let cs = chars_of(action);
    position_of(&names, &cs)
}

/// Index of a self-kong action name in the self-kong head.
pub fn self_kong_action_index(action: &str) -> (r: Option<usize>)
    ensures
        r matches Some(k) ==> k < 3 && self_kong_action_name(k as int) == action@,
        r is None ==> forall|k: int| 0 <= k < 3 ==> self_kong_action_name(k) != action@,
{
    let names = vec![
        vec!['p', 'a', 's', 's'],
        vec!['c', 'o', 'n', 'c', 'e', 'a', 'l', 'e', 'd', '_', 'k', 'o', 'n', 'g'],
        vec!['a', 'd', 'd', '_', 'k', 'o', 'n', 'g'],
    ];
    assert forall|k: int| 0 <= k < 3 implies names@[k]@ == self_kong_action_name(k) by {
        if k == 0 {
            assert(names@[k]@ =~= self_kong_action_name(k));
        } else if k == 1 {
            assert(names@[k]@ =~= self_kong_action_name(k));
        } else {
            assert(names@[k]@ =~= self_kong_action_name(k));
        }
    }
    let cs = chars_of(action);
    position_of(&names, &cs)
}

} // verus!
