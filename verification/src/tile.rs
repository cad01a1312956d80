use vstd::prelude::*;

use crate::text::owned;

verus! {

/// A physical tile: its unique id (such as `w1#0`), its kind key (such as `w1`),
/// and descriptive fields.
#[derive(Debug, Clone, PartialEq, Eq, Default)]
pub struct Tile {
    pub tile_id: String,
    pub tile_key: String,
    pub kind: String,
    pub suit: Option<String>,
    pub rank: Option<u8>,
    pub name: Option<String>,
}

impl Tile {
    /// A tile that carries only its kind key; every other field is empty.
    pub fn tile_key_only(tile_key: &str) -> (r: Self)
        ensures
            r.tile_key@ == tile_key@,
            r.tile_id@ == Seq::<char>::empty(),
            r.kind@ == Seq::<char>::empty(),
            r.suit is None,
            r.rank is None,
            r.name is None,
    {
        Tile {
            tile_id: String::new(),
            tile_key: owned(tile_key),
            kind: String::new(),
            suit: None,
            rank: None,
            name: None,
        }
    }
}

/// A copy of an optional string.
pub fn clone_opt_string(s: &Option<String>) -> (r: Option<String>)
    ensures
        r == *s,
{
    match s {
        Some(v) => Some(v.clone()),
        None => None,
    }
}

/// A field-for-field copy of a tile.
pub fn clone_tile(t: &Tile) -> (r: Tile)
    ensures
        r == *t,
{
    Tile {
        tile_id: t.tile_id.clone(),
        tile_key: t.tile_key.clone(),
        kind: t.kind.clone(),
        suit: clone_opt_string(&t.suit),
        rank: t.rank,
        name: clone_opt_string(&t.name),
    }
}

/// An element-for-element copy of a list of strings.
pub fn clone_strings(v: &Vec<String>) -> (r: Vec<String>)
    ensures
        r@ == v@,
{
    let mut r: Vec<String> = Vec::new();
    let mut i: usize = 0;
    while i < v.len()
        invariant
            i <= v@.len(),
            r@ == v@.take(i as int),
        decreases v@.len() - i,
    {
        r.push(v[i].clone());
        proof {
            assert(v@.take(i + 1) =~= v@.take(i as int).push(v@[i as int]));
        }
        i += 1;
    }
    assert(v@.take(v@.len() as int) =~= v@);
    r
}

/// An element-for-element copy of a list of tiles.
pub fn clone_tiles(v: &Vec<Tile>) -> (r: Vec<Tile>)
    ensures
        r@ == v@,
{
    let mut r: Vec<Tile> = Vec::new();
    let mut i: usize = 0;
    while i < v.len()
        invariant
            i <= v@.len(),
            r@ == v@.take(i as int),
        decreases v@.len() - i,
    {
        r.push(clone_tile(&v[i]));
        proof {
            assert(v@.take(i + 1) =~= v@.take(i as int).push(v@[i as int]));
        }
        i += 1;
    }
    assert(v@.take(v@.len() as int) =~= v@);
    r
}

/// An element-for-element copy of a list of seats.
pub fn clone_seats(v: &Vec<usize>) -> (r: Vec<usize>)
    ensures
        r@ == v@,
{
    let mut r: Vec<usize> = Vec::new();
    let mut i: usize = 0;
    while i < v.len()
        invariant
            i <= v@.len(),
            r@ == v@.take(i as int),
        decreases v@.len() - i,
    {
        r.push(v[i]);
        proof {
            assert(v@.take(i + 1) =~= v@.take(i as int).push(v@[i as int]));
        }
        i += 1;
    }
    assert(v@.take(v@.len() as int) =~= v@);
    r
}

} // verus!
