use vstd::prelude::*;

use crate::planner::{context_is, timeout_is, MAX_SEATS};
use crate::state::{
    LastActionContext, PendingTimeout, PlayerRoundState, RoundScoreTrackers, RoundState,
    RuleRuntimeState, WallState,
};
use crate::text::{digit, digit_char, owned, push_char};
use crate::tile::{clone_tile, clone_tiles, Tile};

verus! {

/// Tiles in a full set: 108 suited tiles, 28 honours and 8 flowers.
pub const FULL_SET_SIZE: usize = 144;


/// Tile-id prefix of suit `s`: characters, bamboos, dots.
pub open spec fn suit_prefix(s: int) -> char {
    if s == 0 {
        'w'
    } else if s == 1 {
        't'
    } else {
        'b'
    }
}

pub open spec fn suit_key(s: int) -> Seq<char> {
    if s == 0 {
        "characters"@
    } else if s == 1 {
        "bamboos"@
    } else {
        "dots"@
    }
}

pub open spec fn suit_name(s: int) -> Seq<char> {
    if s == 0 {
        "Character"@
    } else if s == 1 {
        "Bamboo"@
    } else {
        "Dot"@
    }
}

/// Honours in set order: the four winds, then the three dragons.
pub open spec fn honor_key(h: int) -> Seq<char> {
    if h == 0 {
        "east"@
    } else if h == 1 {
        "south"@
    } else if h == 2 {
        "west"@
    } else if h == 3 {
        "north"@
    } else if h == 4 {
        "red"@
    } else if h == 5 {
        "green"@
    } else {
        "white"@
    }
}

pub open spec fn honor_name(h: int) -> Seq<char> {
    if h == 0 {
        "East Wind"@
    } else if h == 1 {
        "South Wind"@
    } else if h == 2 {
        "West Wind"@
    } else if h == 3 {
        "North Wind"@
    } else if h == 4 {
        "Red Dragon"@
    } else if h == 5 {
        "Green Dragon"@
    } else {
        "White Dragon"@
    }
}

pub open spec fn honor_kind(h: int) -> Seq<char> {
    if h < 4 {
        "wind"@
    } else {
        "dragon"@
    }
}

pub open spec fn flower_key(f: int) -> Seq<char> {
    if f == 0 {
        "f1"@
    } else if f == 1 {
        "f2"@
    } else if f == 2 {
        "f3"@
    } else if f == 3 {
        "f4"@
    } else if f == 4 {
        "f5"@
    } else if f == 5 {
        "f6"@
    } else if f == 6 {
        "f7"@
    } else {
        "f8"@
    }
}

pub open spec fn flower_name(f: int) -> Seq<char> {
    if f == 0 {
        "Spring Flower"@
    } else if f == 1 {
        "Summer Flower"@
    } else if f == 2 {
        "Autumn Flower"@
    } else if f == 3 {
        "Winter Flower"@
    } else if f == 4 {
        "Plum Flower"@
    } else if f == 5 {
        "Orchid Flower"@
    } else if f == 6 {
        "Chrysanthemum Flower"@
    } else {
        "Bamboo Flower"@
    }
}

/// Copy `c` of rank `r` in suit `s`, such as `w1#0` (`Character 1`).
pub open spec fn is_suit_tile(t: Tile, s: int, r: int, c: int) -> bool {
    &&& t.tile_id@ == seq![suit_prefix(s), digit_char(r), '#', digit_char(c)]
    &&& t.tile_key@ == seq![suit_prefix(s), digit_char(r)]
    &&& t.kind@ == "suit"@
    &&& t.suit matches Some(x) && x@ == suit_key(s)
    &&& t.rank == Some(r as u8)
    &&& t.name matches Some(n) && n@ == suit_name(s) + seq![' ', digit_char(r)]
}

/// Copy `c` of honour `h`, such as `east#0` (`East Wind`).
pub open spec fn is_honor_tile(t: Tile, h: int, c: int) -> bool {
    &&& t.tile_id@ == honor_key(h) + seq!['#', digit_char(c)]
    &&& t.tile_key@ == honor_key(h)
    &&& t.kind@ == honor_kind(h)
    &&& t.suit is None
    &&& t.rank is None
    &&& t.name matches Some(n) && n@ == honor_name(h)
}

/// The single copy of flower `f`, such as `f1#0` (`Spring Flower`).
pub open spec fn is_flower_tile(t: Tile, f: int) -> bool {
    &&& t.tile_id@ == flower_key(f) + seq!['#', '0']
    &&& t.tile_key@ == flower_key(f)
    &&& t.kind@ == "flower"@
    &&& t.suit is None
    &&& t.rank is None
    &&& t.name matches Some(n) && n@ == flower_name(f)
}

/// The tile at position `i` of a full set: the three suits rank by rank, four copies each,
/// then the honours four copies each, then the eight flowers.
pub open spec fn is_full_set_tile(t: Tile, i: int) -> bool {
    if 0 <= i < 108 {
        is_suit_tile(t, i / 36, (i % 36) / 4 + 1, i % 4)
    } else if 108 <= i < 136 {
        is_honor_tile(t, (i - 108) / 4, (i - 108) % 4)
    } else if 136 <= i < 144 {
        is_flower_tile(t, i - 136)
    } else {
        false
    }
}

pub open spec fn is_full_tile_set(tiles: Seq<Tile>) -> bool {
    &&& tiles.len() == 144
    &&& forall|i: int| 0 <= i < 144 ==> #[trigger] is_full_set_tile(tiles[i], i)
}

fn suit_tile(s: usize, r: u8, c: u8) -> (t: Tile)
    requires
        s < 3,
        1 <= r <= 9,
        c < 4,
    ensures
        is_suit_tile(t, s as int, r as int, c as int),
{
    let prefix = if s == 0 {
        'w'
    } else if s == 1 {
        't'
    } else {
        'b'
    };
    let (key, name) = if s == 0 {
        ("characters", "Character")
    } else if s == 1 {
        ("bamboos", "Bamboo")
    } else {
        ("dots", "Dot")
    };
    let mut tile_id = String::new();
    push_char(&mut tile_id, prefix);
    push_char(&mut tile_id, digit(r));
    push_char(&mut tile_id, '#');
    push_char(&mut tile_id, digit(c));
    let mut tile_key = String::new();
    push_char(&mut tile_key, prefix);
    push_char(&mut tile_key, digit(r));
    let mut full_name = owned(name);
    push_char(&mut full_name, ' ');
    push_char(&mut full_name, digit(r));
    proof {
        assert(tile_id@ =~= seq![suit_prefix(s as int), digit_char(r as int), '#', digit_char(c as int)]);
        assert(tile_key@ =~= seq![suit_prefix(s as int), digit_char(r as int)]);
        assert(full_name@ =~= suit_name(s as int) + seq![' ', digit_char(r as int)]);
    }
    Tile {
        tile_id,
        tile_key,
        kind: owned("suit"),
        suit: Some(owned(key)),
        rank: Some(r),
        name: Some(full_name),
    }
}

fn honor_tile(h: usize, c: u8) -> (t: Tile)
    requires
        h < 7,
        c < 4,
    ensures
        is_honor_tile(t, h as int, c as int),
{
    let (key, name, kind) = if h == 0 {
        ("east", "East Wind", "wind")
    } else if h == 1 {
        ("south", "South Wind", "wind")
    } else if h == 2 {
        ("west", "West Wind", "wind")
    } else if h == 3 {
        ("north", "North Wind", "wind")
    } else if h == 4 {
        ("red", "Red Dragon", "dragon")
    } else if h == 5 {
        ("green", "Green Dragon", "dragon")
    } else {
        ("white", "White Dragon", "dragon")
    };
    let mut tile_id = owned(key);
    push_char(&mut tile_id, '#');
    push_char(&mut tile_id, digit(c));
    proof {
        assert(tile_id@ =~= honor_key(h as int) + seq!['#', digit_char(c as int)]);
    }
    Tile {
        tile_id,
        tile_key: owned(key),
        kind: owned(kind),
        suit: None,
        rank: None,
        name: Some(owned(name)),
    }
}

fn flower_tile(f: usize) -> (t: Tile)
    requires
        f < 8,
    ensures
        is_flower_tile(t, f as int),
{
    let (key, name) = if f == 0 {
        ("f1", "Spring Flower")
    } else if f == 1 {
        ("f2", "Summer Flower")
    } else if f == 2 {
        ("f3", "Autumn Flower")
    } else if f == 3 {
        ("f4", "Winter Flower")
    } else if f == 4 {
        ("f5", "Plum Flower")
    } else if f == 5 {
        ("f6", "Orchid Flower")
    } else if f == 6 {
        ("f7", "Chrysanthemum Flower")
    } else {
        ("f8", "Bamboo Flower")
    };
    let mut tile_id = owned(key);
    push_char(&mut tile_id, '#');
    push_char(&mut tile_id, '0');
    proof {
        assert(tile_id@ =~= flower_key(f as int) + seq!['#', '0']);
    }
    Tile {
        tile_id,
        tile_key: owned(key),
        kind: owned("flower"),
        suit: None,
        rank: None,
        name: Some(owned(name)),
    }
}

proof fn lemma_suit_position(s: int, r: int, c: int)
    requires
        0 <= s < 3,
        1 <= r <= 9,
        0 <= c < 4,
    ensures
        ({
            let i = 36 * s + 4 * (r - 1) + c;
            &&& 0 <= i < 108
            &&& i / 36 == s
            &&& (i % 36) / 4 + 1 == r
            &&& i % 4 == c
        }),
{
    let i = 36 * s + 4 * (r - 1) + c;
    assert(i / 36 == s) by (nonlinear_arith)
        requires
            i == 36 * s + 4 * (r - 1) + c,
            0 <= s < 3,
            1 <= r <= 9,
            0 <= c < 4,
    ;
    assert(i % 36 == 4 * (r - 1) + c) by (nonlinear_arith)
        requires
            i == 36 * s + 4 * (r - 1) + c,
            0 <= s < 3,
            1 <= r <= 9,
            0 <= c < 4,
    ;
    assert((4 * (r - 1) + c) / 4 == r - 1) by (nonlinear_arith)
        requires
            1 <= r <= 9,
            0 <= c < 4,
    ;
    assert(i % 4 == c) by (nonlinear_arith)
        requires
            i == 36 * s + 4 * (r - 1) + c,
            0 <= s < 3,
            1 <= r <= 9,
            0 <= c < 4,
    ;
}

proof fn lemma_honor_position(h: int, c: int)
    requires
        0 <= h < 7,
        0 <= c < 4,
    ensures
        ({
            let i = 108 + 4 * h + c;
            &&& 108 <= i < 136
            &&& (i - 108) / 4 == h
            &&& (i - 108) % 4 == c
        }),
{
    assert((4 * h + c) / 4 == h) by (nonlinear_arith)
        requires
            0 <= h < 7,
            0 <= c < 4,
    ;
    assert((4 * h + c) % 4 == c) by (nonlinear_arith)
        requires
            0 <= h < 7,
            0 <= c < 4,
    ;
}

/// The full set of 144 tiles, in set order.
pub fn full_tile_set() -> (tiles: Vec<Tile>)
    ensures
        is_full_tile_set(tiles@),
{
    let mut tiles: Vec<Tile> = Vec::new();
    let mut s: usize = 0;
    while s < 3
        invariant
            s <= 3,
            tiles@.len() == 36 * s,
            forall|i: int| 0 <= i < tiles@.len() ==> #[trigger] is_full_set_tile(tiles@[i], i),
        decreases 3 - s,
    {
        let mut r: u8 = 1;
        while r <= 9
            invariant
                s < 3,
                1 <= r <= 10,
                tiles@.len() == 36 * s + 4 * (r - 1),
                forall|i: int| 0 <= i < tiles@.len() ==> #[trigger] is_full_set_tile(tiles@[i], i),
            decreases 10 - r,
        {
            let mut c: u8 = 0;
            while c < 4
                invariant
                    s < 3,
                    1 <= r <= 9,
                    c <= 4,
                    tiles@.len() == 36 * s + 4 * (r - 1) + c,
                    forall|i: int| 0 <= i < tiles@.len() ==> #[trigger] is_full_set_tile(tiles@[i], i),
                decreases 4 - c,
            {
                let t = suit_tile(s, r, c);
                proof {
                    lemma_suit_position(s as int, r as int, c as int);
                }
                tiles.push(t);
                c += 1;
            }
            r += 1;
        }
        s += 1;
    }
    let mut h: usize = 0;
    while h < 7
        invariant
            h <= 7,
            tiles@.len() == 108 + 4 * h,
            forall|i: int| 0 <= i < tiles@.len() ==> #[trigger] is_full_set_tile(tiles@[i], i),
        decreases 7 - h,
    {
        let mut c: u8 = 0;
        while c < 4
            invariant
                h < 7,
                c <= 4,
                tiles@.len() == 108 + 4 * h + c,
                forall|i: int| 0 <= i < tiles@.len() ==> #[trigger] is_full_set_tile(tiles@[i], i),
            decreases 4 - c,
        {
            let t = honor_tile(h, c);
            proof {
                lemma_honor_position(h as int, c as int);
            }
            tiles.push(t);
            c += 1;
        }
        h += 1;
    }
    let mut f: usize = 0;
    while f < 8
        invariant
            f <= 8,
            tiles@.len() == 136 + f,
            forall|i: int| 0 <= i < tiles@.len() ==> #[trigger] is_full_set_tile(tiles@[i], i),
        decreases 8 - f,
    {
        let t = flower_tile(f);
        tiles.push(t);
        f += 1;
    }
    tiles
}


pub open spec fn is_flower(t: Tile) -> bool {
    t.kind@ == "flower"@
}

/// How many flowers `tiles` holds.
pub open spec fn flower_count(tiles: Seq<Tile>) -> nat
    decreases tiles.len(),
{
    if tiles.len() == 0 {
        0
    } else {
        flower_count(tiles.drop_last()) + if is_flower(tiles.last()) {
            1nat
        } else {
            0nat
        }
    }
}

pub proof fn lemma_flower_count_push(tiles: Seq<Tile>, t: Tile)
    ensures
        flower_count(tiles.push(t)) == flower_count(tiles) + if is_flower(t) {
            1nat
        } else {
            0nat
        },
{
    assert(tiles.push(t).drop_last() =~= tiles);
}

pub proof fn lemma_flower_count_append(a: Seq<Tile>, b: Seq<Tile>)
    ensures
        flower_count(a + b) == flower_count(a) + flower_count(b),
    decreases b.len(),
{
    if b.len() == 0 {
        assert(a + b =~= a);
    } else {
        lemma_flower_count_append(a, b.drop_last());
        assert((a + b).drop_last() =~= a + b.drop_last());
    }
}

pub proof fn lemma_flower_count_split(tiles: Seq<Tile>, i: int, j: int, k: int)
    requires
        0 <= i <= j <= k <= tiles.len(),
    ensures
        flower_count(tiles.subrange(i, k)) == flower_count(tiles.subrange(i, j)) + flower_count(
            tiles.subrange(j, k),
        ),
{
    assert(tiles.subrange(i, k) =~= tiles.subrange(i, j) + tiles.subrange(j, k));
    lemma_flower_count_append(tiles.subrange(i, j), tiles.subrange(j, k));
}

pub proof fn lemma_flower_count_remove(tiles: Seq<Tile>, i: int)
    requires
        0 <= i < tiles.len(),
    ensures
        flower_count(tiles) == flower_count(tiles.remove(i)) + if is_flower(tiles[i]) {
            1nat
        } else {
            0nat
        },
{
    let front = tiles.take(i);
    let back = tiles.skip(i + 1);
    assert(tiles =~= front.push(tiles[i]) + back);
    assert(tiles.remove(i) =~= front + back);
    lemma_flower_count_append(front.push(tiles[i]), back);
    lemma_flower_count_append(front, back);
    lemma_flower_count_push(front, tiles[i]);
}

/// Two arrangements of the same tiles hold the same number of flowers.
pub proof fn lemma_flower_count_permutation(a: Seq<Tile>, b: Seq<Tile>)
    requires
        a.to_multiset() == b.to_multiset(),
    ensures
        flower_count(a) == flower_count(b),
    decreases a.len(),
{
    broadcast use vstd::seq_lib::group_to_multiset_ensures;

    if a.len() == 0 {
        assert(a.to_multiset().len() == 0);
        assert(b.to_multiset().len() == b.len());
        assert(b.len() == 0);
    } else {
        let x = a.last();
        let rest = a.drop_last();
        assert(a =~= rest.push(x));
        assert(b.to_multiset().count(x) > 0);
        assert(b.contains(x));
        let j = choose|j: int| 0 <= j < b.len() && b[j] == x;
        let b_rest = b.remove(j);
        assert(b_rest.to_multiset() =~= rest.to_multiset()) by {
            assert(b_rest.to_multiset() =~= b.to_multiset().remove(x));
            assert(rest.push(x).to_multiset() =~= rest.to_multiset().insert(x));
        }
        lemma_flower_count_permutation(rest, b_rest);
        lemma_flower_count_remove(b, j);
        lemma_flower_count_push(rest, x);
    }
}

proof fn lemma_full_set_prefix_flowers(tiles: Seq<Tile>, n: int)
    requires
        is_full_tile_set(tiles),
        0 <= n <= 144,
    ensures
        flower_count(tiles.take(n)) == if n <= 136 {
            0
        } else {
            n - 136
        },
    decreases n,
{
    reveal_strlit("flower");
    reveal_strlit("suit");
    reveal_strlit("wind");
    reveal_strlit("dragon");
    if n > 0 {
        lemma_full_set_prefix_flowers(tiles, n - 1);
        assert(tiles.take(n) =~= tiles.take(n - 1).push(tiles[n - 1]));
        lemma_flower_count_push(tiles.take(n - 1), tiles[n - 1]);
        assert(is_full_set_tile(tiles[n - 1], n - 1));
        let k = tiles[n - 1].kind@;
        if n - 1 < 108 {
            assert(k == "suit"@);
        } else if n - 1 < 136 {
            assert(k == "wind"@ || k == "dragon"@);
        } else {
            assert(k == "flower"@);
        }
        assert("suit"@.len() == 4);
        assert("wind"@.len() == 4);
        assert("flower"@.len() == 6);
        assert("dragon"@[0] == 'd');
        assert("flower"@[0] == 'f');
        assert(is_flower(tiles[n - 1]) == (n - 1 >= 136));
    } else {
        assert(tiles.take(0).len() == 0);
    }
}

/// A full set holds eight flowers.
pub proof fn lemma_full_set_flowers(tiles: Seq<Tile>)
    requires
        is_full_tile_set(tiles),
    ensures
        flower_count(tiles) == 8,
{
    lemma_full_set_prefix_flowers(tiles, 144);
    assert(tiles.take(144) =~= tiles);
}


/// Index of the first flower in `hand` at or after `from`.
pub open spec fn first_flower_from(hand: Seq<Tile>, from: int) -> Option<int>
    decreases hand.len() - from,
{
    if from < 0 || from >= hand.len() {
        None
    } else if is_flower(hand[from]) {
        Some(from)
    } else {
        first_flower_from(hand, from + 1)
    }
}

pub open spec fn first_flower(hand: Seq<Tile>) -> Option<int> {
    first_flower_from(hand, 0)
}

proof fn lemma_first_flower_from(hand: Seq<Tile>, from: int, k: int)
    requires
        0 <= from <= k <= hand.len(),
        forall|j: int| from <= j < k ==> !is_flower(#[trigger] hand[j]),
    ensures
        k == hand.len() ==> first_flower_from(hand, from) is None,
        k < hand.len() && is_flower(hand[k]) ==> first_flower_from(hand, from) == Some(k),
    decreases k - from,
{
    if from < k {
        lemma_first_flower_from(hand, from + 1, k);
    }
}

proof fn lemma_first_flower_is_flower(hand: Seq<Tile>, from: int)
    ensures
        first_flower_from(hand, from) matches Some(i) ==> from <= i < hand.len() && is_flower(hand[i]),
    decreases hand.len() - from,
{
    if 0 <= from < hand.len() && !is_flower(hand[from]) {
        lemma_first_flower_is_flower(hand, from + 1);
    }
}

proof fn lemma_no_flower_count(hand: Seq<Tile>)
    requires
        forall|j: int| 0 <= j < hand.len() ==> !is_flower(#[trigger] hand[j]),
    ensures
        flower_count(hand) == 0,
    decreases hand.len(),
{
    if hand.len() > 0 {
        assert forall|j: int| 0 <= j < hand.drop_last().len() implies !is_flower(
            #[trigger] hand.drop_last()[j],
        ) by {
            assert(hand.drop_last()[j] == hand[j]);
        }
        lemma_no_flower_count(hand.drop_last());
    }
}

fn position_of_flower(hand: &Vec<Tile>) -> (r: Option<usize>)
    ensures
        r matches Some(i) ==> first_flower(hand@) == Some(i as int) && i < hand@.len(),
        r is None ==> first_flower(hand@) is None && flower_count(hand@) == 0,
{
    let mut i: usize = 0;
    while i < hand.len()
        invariant
            i <= hand@.len(),
            forall|j: int| 0 <= j < i ==> !is_flower(#[trigger] hand@[j]),
        decreases hand@.len() - i,
    {
        if crate::text::str_equal(hand[i].kind.as_str(), "flower") {
            proof {
                lemma_first_flower_from(hand@, 0, i as int);
            }
            return Some(i);
        }
        i += 1;
    }
    proof {
        lemma_first_flower_from(hand@, 0, i as int);
        lemma_no_flower_count(hand@);
    }
    None
}

/// One seat's flower exposures: while its hand holds a flower and the tail has a tile before
/// the wall's first, the first flower moves to the exposed flowers and the tail tile replaces
/// it in the hand, the tail moving one tile inward. Gives the hand, the exposed flowers, the
/// new tail and the last replacement tile.
pub open spec fn expose_flowers(hand: Seq<Tile>, flowers: Seq<Tile>, wall: Seq<Tile>, tail: int) -> (
    Seq<Tile>,
    Seq<Tile>,
    int,
    Option<Tile>,
)
    decreases tail,
{
    match first_flower(hand) {
        None => (hand, flowers, tail, None),
        Some(i) => if tail <= 0 || tail >= wall.len() {
            (hand, flowers, tail, None)
        } else {
            let replacement = wall[tail];
            let next = expose_flowers(
                hand.remove(i).push(replacement),
                flowers.push(hand[i]),
                wall,
                tail - 1,
            );
            (next.0, next.1, next.2, if next.3 is Some {
                next.3
            } else {
                Some(replacement)
            })
        },
    }
}

/// The flowers left in the hand and in the unused part of the wall, plus the replacements
/// already drawn from the tail.
pub open spec fn flower_budget(hand: Seq<Tile>, wall: Seq<Tile>, tail: int) -> int {
    flower_count(hand) + flower_count(wall.subrange(53, tail + 1)) + (143 - tail)
}

fn expose_seat_flowers(hand: Vec<Tile>, flowers: Vec<Tile>, wall: &Vec<Tile>, tail: usize) -> (r: (
    Vec<Tile>,
    Vec<Tile>,
    usize,
    Option<Tile>,
))
    requires
        wall@.len() == 144,
        53 <= tail <= 143,
        flower_budget(hand@, wall@, tail as int) <= 8,
    ensures
        ({
            let e = expose_flowers(hand@, flowers@, wall@, tail as int);
            &&& r.0@ == e.0
            &&& r.1@ == e.1
            &&& r.2 == e.2
            &&& r.3 == e.3
        }),
        flower_count(r.0@) == 0,
        r.0@.len() == hand@.len(),
        53 <= r.2 <= tail,
        flower_budget(r.0@, wall@, r.2 as int) == flower_budget(hand@, wall@, tail as int),
{
    let ghost e0 = expose_flowers(hand@, flowers@, wall@, tail as int);
    let ghost budget = flower_budget(hand@, wall@, tail as int);
    let ghost tail0 = tail;
    let ghost len0 = hand@.len();
    let mut hand = hand;
    let mut flowers = flowers;
    let mut tail = tail;
    let mut last: Option<Tile> = None;
    loop
        invariant
            wall@.len() == 144,
            53 <= tail <= 143,
            budget <= 8,
            tail <= tail0,
            hand@.len() == len0,
            flower_budget(hand@, wall@, tail as int) == budget,
            ({
                let e = expose_flowers(hand@, flowers@, wall@, tail as int);
                &&& e0.0 == e.0
                &&& e0.1 == e.1
                &&& e0.2 == e.2
                &&& e0.3 == (if e.3 is Some {
                    e.3
                } else {
                    last
                })
            }),
        ensures
            first_flower(hand@) is None,
            flower_count(hand@) == 0,
        decreases tail,
    {
        let position = position_of_flower(&hand);
        let i = match position {
            None => {
                break;
            },
            Some(i) => i,
        };
        let ghost before_hand = hand@;
        let ghost before_flowers = flowers@;
        proof {
            lemma_first_flower_is_flower(before_hand, 0);
            lemma_flower_count_remove(before_hand, i as int);
            assert(is_flower(before_hand[i as int]));
            lemma_flower_count_push(before_hand.remove(i as int), wall@[tail as int]);
            lemma_flower_count_split(wall@, 53, tail as int, tail + 1);
            lemma_flower_count_push(Seq::<Tile>::empty(), wall@[tail as int]);
            assert(wall@.subrange(tail as int, tail + 1) =~= Seq::<Tile>::empty().push(wall@[tail as int]));
        }
        let replacement = clone_tile(&wall[tail]);
        let flower = hand.remove(i);
        flowers.push(flower);
        hand.push(clone_tile(&replacement));
        last = Some(replacement);
        tail = tail - 1;
        proof {
            assert(hand@ =~= before_hand.remove(i as int).push(wall@[tail + 1]));
            assert(flowers@ =~= before_flowers.push(before_hand[i as int]));
        }
    }
    (hand, flowers, tail, last)
}


/// The hand dealt to `seat`: thirteen tiles from the head of the wall in seat order, and for
/// the dealer also the tile after the four hands.
pub open spec fn dealt_hand(wall: Seq<Tile>, seat: int, dealer: int) -> Seq<Tile> {
    let hand = wall.subrange(13 * seat, 13 * seat + 13);
    if seat == dealer {
        hand.push(wall[52])
    } else {
        hand
    }
}

/// The seats' flower exposures in turn from the dealer: hands, exposed flowers, the tail
/// after them, and the last replacement that the dealer drew.
pub open spec fn resolve_flowers(
    hands: Seq<Seq<Tile>>,
    flowers: Seq<Seq<Tile>>,
    wall: Seq<Tile>,
    tail: int,
    dealer: int,
    offset: int,
) -> (Seq<Seq<Tile>>, Seq<Seq<Tile>>, int, Option<Tile>)
    decreases 4 - offset,
{
    if offset < 0 || offset >= 4 {
        (hands, flowers, tail, None)
    } else {
        let seat = (dealer + offset) % 4;
        let e = expose_flowers(hands[seat], flowers[seat], wall, tail);
        let rest = resolve_flowers(
            hands.update(seat, e.0),
            flowers.update(seat, e.1),
            wall,
            e.2,
            dealer,
            offset + 1,
        );
        (rest.0, rest.1, rest.2, if offset == 0 {
            e.3
        } else {
            None
        })
    }
}

/// The flowers in all four hands.
pub open spec fn hands_flower_count(hands: Seq<Seq<Tile>>) -> nat {
    flower_count(hands[0]) + flower_count(hands[1]) + flower_count(hands[2]) + flower_count(hands[3])
}

/// A round dealt from `wall` by `dealer`: the dealt hands after every seat, from the dealer on,
/// has exposed its flowers; the dealer to act on the tile it drew last; and the timeout of
/// that active turn.
pub open spec fn dealt(
    dealer: usize,
    round_wind: Seq<char>,
    round_id: String,
    wall: Seq<Tile>,
    deadline_at: String,
    round: RoundState,
    timeout: PendingTimeout,
) -> bool {
    let hands = Seq::new(4, |s: int| dealt_hand(wall, s, dealer as int));
    let empty = Seq::new(4, |s: int| Seq::<Tile>::empty());
    let res = resolve_flowers(hands, empty, wall, 143, dealer as int, 0);
    let drawn_id = match res.3 {
        Some(t) => t.tile_id,
        None => wall[52].tile_id,
    };
    &&& round.round_id == round_id
    &&& round.dealer_seat == dealer
    &&& round.round_wind@ == round_wind
    &&& round.current_actor == dealer
    &&& round.phase@ == "playing"@
    &&& round.wall.tiles@ == wall
    &&& round.wall.head_index == 53
    &&& round.wall.tail_index == res.2
    &&& round.players@.len() == 4
    &&& forall|s: int|
        0 <= s < 4 ==> {
            let p = #[trigger] round.players@[s];
            &&& p.seat == s
            &&& !p.is_ready_hand
            &&& p.concealed_tiles@ == res.0[s]
            &&& p.flowers@ == res.1[s]
            &&& p.melds@.len() == 0
            &&& p.display_melds@.len() == 0
            &&& p.discards@.len() == 0
        }
    &&& round.last_discard is None
    &&& round.pending_action is None
    &&& round.settlement is None
    &&& round.version == 1
    &&& round.score_trackers.kong_entries@.len() == 0
    &&& !round.rule_state.enforce_minimum_eight_fan
    &&& round.restricted_discard_tile_key is None
    &&& context_is(
        round.last_action_context,
        if res.3 is Some {
            "replacement_draw"@
        } else {
            "draw"@
        },
        dealer,
        Some(drawn_id),
        false,
        false,
    )
    &&& timeout_is(timeout, "active_turn"@, dealer, deadline_at, Some(drawn_id))
}

/// Deals a round from `wall`: thirteen tiles to each seat, one more to the dealer, then every
/// seat from the dealer on exposes its flowers, replacing each from the tail of the wall. The
/// dealer acts first, with a timeout that ends at `deadline_at`.
pub fn deal_round(
    dealer_seat: usize,
    round_wind: &str,
    round_id: String,
    wall: Vec<Tile>,
    deadline_at: String,
) -> (r: (RoundState, PendingTimeout))
    requires
        wall@.len() == 144,
        flower_count(wall@) <= 8,
        dealer_seat < 4,
    ensures
        dealt(dealer_seat, round_wind@, round_id, wall@, deadline_at, r.0, r.1),
        forall|s: int| 0 <= s < 4 ==> flower_count(#[trigger] r.0.players@[s].concealed_tiles@) == 0,
        forall|s: int|
            0 <= s < 4 ==> (#[trigger] r.0.players@[s].concealed_tiles@).len() == if s == dealer_seat {
                14nat
            } else {
                13
            },
{
    let ghost w = wall@;
    let ghost dealt_hands = Seq::new(4, |s: int| dealt_hand(w, s, dealer_seat as int));
    let mut hands: Vec<Vec<Tile>> = Vec::new();
    let mut head: usize = 0;
    let mut seat: usize = 0;
    while seat < MAX_SEATS
        invariant
            wall@ == w,
            w.len() == 144,
            seat <= 4,
            head == 13 * seat,
            hands@.len() == seat,
            forall|s: int| 0 <= s < seat ==> #[trigger] hands@[s]@ == w.subrange(13 * s, 13 * s + 13),
        decreases 4 - seat,
    {
        let mut hand: Vec<Tile> = Vec::new();
        let mut k: usize = 0;
        while k < 13
            invariant
                wall@ == w,
                w.len() == 144,
                seat < 4,
                k <= 13,
                head == 13 * seat + k,
                hand@ == w.subrange(13 * seat, 13 * seat + k),
            decreases 13 - k,
        {
            hand.push(clone_tile(&wall[head]));
            head += 1;
            k += 1;
            proof {
                assert(hand@ =~= w.subrange(13 * seat, 13 * seat + k));
            }
        }
        hands.push(hand);
        seat += 1;
    }
    let draw_tile = clone_tile(&wall[head]);
    head += 1;
    let mut dealer_hand = clone_tiles(&hands[dealer_seat]);
    dealer_hand.push(clone_tile(&draw_tile));
    hands.set(dealer_seat, dealer_hand);
    proof {
        assert(hands@.len() == 4);
        assert forall|s: int| 0 <= s < 4 implies #[trigger] hands@[s]@ == dealt_hands[s] by {
            if s == dealer_seat {
                assert(hands@[s]@ =~= dealt_hands[s]);
            }
        }
        lemma_flower_count_split(w, 0, 13, 26);
        lemma_flower_count_split(w, 0, 26, 39);
        lemma_flower_count_split(w, 0, 39, 52);
        lemma_flower_count_split(w, 0, 52, 53);
        lemma_flower_count_split(w, 0, 53, 144);
        lemma_flower_count_split(w, 52, 53, 53);
        lemma_flower_count_push(w.subrange(13 * dealer_seat, 13 * dealer_seat + 13), w[52]);
        lemma_flower_count_push(Seq::<Tile>::empty(), w[52]);
        assert(w.subrange(52, 53) =~= Seq::<Tile>::empty().push(w[52]));
        assert(w.subrange(0, 144) =~= w);
    }
    let ghost hand_views = Seq::new(4, |s: int| hands@[s]@);
    assert(hand_views =~= dealt_hands);
    let mut flowers: Vec<Vec<Tile>> = Vec::new();
    let mut s: usize = 0;
    while s < MAX_SEATS
        invariant
            s <= 4,
            flowers@.len() == s,
            forall|j: int| 0 <= j < s ==> (#[trigger] flowers@[j])@.len() == 0,
        decreases 4 - s,
    {
        flowers.push(Vec::new());
        s += 1;
    }
    let ghost empty = Seq::new(4, |s: int| Seq::<Tile>::empty());
    let ghost goal = resolve_flowers(dealt_hands, empty, w, 143, dealer_seat as int, 0);
    proof {
        let fv = Seq::new(4, |s: int| flowers@[s]@);
        assert forall|j: int| 0 <= j < 4 implies #[trigger] fv[j] == empty[j] by {
            assert(flowers@[j]@ =~= Seq::<Tile>::empty());
        }
        assert(fv =~= empty);
        assert(Seq::new(4, |s: int| hands@[s]@) =~= dealt_hands);
    }
    let mut tail: usize = 143;
    let mut dealer_last: Option<Tile> = None;
    let mut offset: usize = 0;
    while offset < MAX_SEATS
        invariant
            wall@ == w,
            w.len() == 144,
            dealer_seat < 4,
            offset <= 4,
            53 <= tail <= 143,
            hands@.len() == 4,
            flowers@.len() == 4,
            hands_flower_count(Seq::new(4, |s: int| hands@[s]@)) + flower_count(
                w.subrange(53, tail + 1),
            ) + (143 - tail) <= 8,
            forall|j: int|
                0 <= j < offset ==> flower_count(#[trigger] hands@[(dealer_seat + j) % 4]@) == 0,
            forall|j: int|
                0 <= j < 4 ==> (#[trigger] hands@[j]@).len() == if j == dealer_seat {
                    14nat
                } else {
                    13
                },
            goal == ({
                let rest = resolve_flowers(
                    Seq::new(4, |s: int| hands@[s]@),
                    Seq::new(4, |s: int| flowers@[s]@),
                    w,
                    tail as int,
                    dealer_seat as int,
                    offset as int,
                );
                (rest.0, rest.1, rest.2, if offset == 0 {
                    rest.3
                } else {
                    dealer_last
                })
            }),
        decreases 4 - offset,
    {
        let seat = (dealer_seat + offset) % MAX_SEATS;
        let ghost hv = Seq::new(4, |s: int| hands@[s]@);
        let ghost fv = Seq::new(4, |s: int| flowers@[s]@);
        proof {
            assert(hands_flower_count(hv) >= flower_count(hv[seat as int]));
        }
        let hand = clone_tiles(&hands[seat]);
        let seat_flowers = clone_tiles(&flowers[seat]);
        let (new_hand, new_flowers, new_tail, last) = expose_seat_flowers(hand, seat_flowers, &wall, tail);
        hands.set(seat, new_hand);
        flowers.set(seat, new_flowers);
        proof {
            let hv2 = Seq::new(4, |s: int| hands@[s]@);
            let fv2 = Seq::new(4, |s: int| flowers@[s]@);
            let e = expose_flowers(hv[seat as int], fv[seat as int], w, tail as int);
            assert(hv2 =~= hv.update(seat as int, e.0));
            assert(fv2 =~= fv.update(seat as int, e.1));
            assert(hands_flower_count(hv2) == hands_flower_count(hv) - flower_count(hv[seat as int])
                + flower_count(e.0));
            assert forall|j: int| 0 <= j < offset + 1 implies flower_count(
                #[trigger] hands@[(dealer_seat + j) % 4]@,
            ) == 0 by {
                if j < offset {
                    assert((dealer_seat + j) % 4 != seat);
                }
            }
        }
        if offset == 0 {
            dealer_last = last;
        }
        tail = new_tail;
        offset += 1;
    }
    proof {
        assert forall|s: int| 0 <= s < 4 implies flower_count(#[trigger] hands@[s]@) == 0 by {
            let j = (s - dealer_seat + 4) % 4;
            assert((dealer_seat + j) % 4 == s);
        }
    }
    let mut players: Vec<PlayerRoundState> = Vec::new();
    let mut p: usize = 0;
    while p < MAX_SEATS
        invariant
            p <= 4,
            hands@.len() == 4,
            flowers@.len() == 4,
            players@.len() == p,
            forall|j: int|
                0 <= j < p ==> {
                    let q = #[trigger] players@[j];
                    &&& q.seat == j
                    &&& !q.is_ready_hand
                    &&& q.concealed_tiles@ == hands@[j]@
                    &&& q.flowers@ == flowers@[j]@
                    &&& q.melds@.len() == 0
                    &&& q.display_melds@.len() == 0
                    &&& q.discards@.len() == 0
                },
        decreases 4 - p,
    {
        players.push(
            PlayerRoundState {
                seat: p,
                is_ready_hand: false,
                concealed_tiles: clone_tiles(&hands[p]),
                melds: Vec::new(),
                display_melds: Vec::new(),
                flowers: clone_tiles(&flowers[p]),
                discards: Vec::new(),
            },
        );
        p += 1;
    }
    let last_action_context = match dealer_last {
        Some(replacement) => LastActionContext {
            kind: owned("replacement_draw"),
            seat: dealer_seat,
            tile_id: Some(replacement.tile_id),
            from_kong_replacement: false,
            was_last_live_tile: false,
            was_last_discard: false,
        },
        None => LastActionContext {
            kind: owned("draw"),
            seat: dealer_seat,
            tile_id: Some(draw_tile.tile_id),
            from_kong_replacement: false,
            was_last_live_tile: false,
            was_last_discard: false,
        },
    };
    let drawn_tile_id = match &last_action_context.tile_id {
        Some(id) => Some(id.clone()),
        None => None,
    };
    let round_state = RoundState {
        round_id,
        dealer_seat,
        round_wind: owned(round_wind),
        current_actor: dealer_seat,
        phase: owned("playing"),
        wall: WallState { tiles: wall, head_index: head, tail_index: tail },
        players,
        last_discard: None,
        pending_action: None,
        settlement: None,
        version: 1,
        score_trackers: RoundScoreTrackers { kong_entries: Vec::new() },
        last_action_context,
        rule_state: RuleRuntimeState { enforce_minimum_eight_fan: false },
        restricted_discard_tile_key: None,
    };
    let pending_timeout = PendingTimeout {
        kind: owned("active_turn"),
        seat_index: dealer_seat,
        extra_time_seat: None,
        deadline_at: Some(deadline_at),
        drawn_tile_id,
        extended_with_extra: false,
    };
    (round_state, pending_timeout)
}

} // verus!
