use vstd::prelude::*;

use crate::text::chars_equal;

verus! {

/// The suit letter of suited kinds: `w` characters, `t` bamboos, `b` dots.
pub open spec fn suit_letter(suit: int) -> char {
    if suit == 0 {
        'w'
    } else if suit == 1 {
        't'
    } else {
        'b'
    }
}

/// The digit character for a rank 1..9.
pub open spec fn rank_digit(rank: int) -> char {
    if rank == 1 {
        '1'
    } else if rank == 2 {
        '2'
    } else if rank == 3 {
        '3'
    } else if rank == 4 {
        '4'
    } else if rank == 5 {
        '5'
    } else if rank == 6 {
        '6'
    } else if rank == 7 {
        '7'
    } else if rank == 8 {
        '8'
    } else {
        '9'
    }
}

/// The key of tile kind `i` (0..34): `w1`..`w9`, `t1`..`t9`, `b1`..`b9`, then
/// `east`, `south`, `west`, `north`, `red`, `green`, `white`.
pub open spec fn spec_tile_key(i: int) -> Seq<char> {
    if i < 27 {
        seq![suit_letter(i / 9), rank_digit(i % 9 + 1)]
    } else if i == 27 {
        seq!['e', 'a', 's', 't']
    } else if i == 28 {
        seq!['s', 'o', 'u', 't', 'h']
    } else if i == 29 {
        seq!['w', 'e', 's', 't']
    } else if i == 30 {
        seq!['n', 'o', 'r', 't', 'h']
    } else if i == 31 {
        seq!['r', 'e', 'd']
    } else if i == 32 {
        seq!['g', 'r', 'e', 'e', 'n']
    } else {
        seq!['w', 'h', 'i', 't', 'e']
    }
}

/// Whether `s` is the key of some tile kind.
pub open spec fn is_tile_key(s: Seq<char>) -> bool {
    exists|i: int| 0 <= i < 34 && spec_tile_key(i) == s
}

/// The kind whose key is `s`, if any.
pub open spec fn spec_tile_index(s: Seq<char>) -> Option<int> {
    if is_tile_key(s) {
        Some(choose|i: int| 0 <= i < 34 && spec_tile_key(i) == s)
    } else {
        None
    }
}

/// Distinct kinds have distinct keys.
pub proof fn lemma_tile_key_injective(i: int, j: int)
    requires
        0 <= i < 34,
        0 <= j < 34,
        spec_tile_key(i) == spec_tile_key(j),
    ensures
        i == j,
{
    let a = spec_tile_key(i);
    let b = spec_tile_key(j);
    assert(a.len() == b.len());
    assert(a[0] == b[0]);
    if i < 27 && j < 27 {
        assert(a[1] == b[1]);
    } else if i >= 27 && j >= 27 {
        assert(a[1] == b[1]);
    }
}

/// Tile index and tile key are inverse to each other.
pub proof fn lemma_tile_index_of_key(i: int)
    requires
        0 <= i < 34,
    ensures
        spec_tile_index(spec_tile_key(i)) == Some(i),
{
    assert(is_tile_key(spec_tile_key(i)));
    let j = choose|j: int| 0 <= j < 34 && spec_tile_key(j) == spec_tile_key(i);
    lemma_tile_key_injective(i, j);
}

/// A key with index `i` is the key of `i`.
pub proof fn lemma_key_of_tile_index(s: Seq<char>)
    requires
        spec_tile_index(s) is Some,
    ensures
        0 <= spec_tile_index(s)->0 < 34,
        spec_tile_key(spec_tile_index(s)->0) == s,
{
}

/// The seven honour keys, east first.
pub open spec fn honor_word(k: int) -> Seq<char> {
    spec_tile_key(27 + k)
}

pub proof fn lemma_not_tile_key(s: Seq<char>)
    requires
        s.len() == 2 ==> !((s[0] == 'w' || s[0] == 't' || s[0] == 'b') && ('1' <= s[1] && s[1] <= '9')),
        forall|k: int| 0 <= k < 7 ==> s != #[trigger] honor_word(k),
    ensures
        !is_tile_key(s),
{
    if is_tile_key(s) {
        let i = choose|i: int| 0 <= i < 34 && spec_tile_key(i) == s;
        if i < 27 {
            assert(s[0] == suit_letter(i / 9));
            assert(s[1] == rank_digit(i % 9 + 1));
        } else {
            assert(s == honor_word(i - 27));
        }
    }
}

/// Suit offset (0, 9 or 18) for a suit letter.
pub open spec fn suit_offset_of(c: char) -> Option<usize> {
    if c == 'w' {
        Some(0usize)
    } else if c == 't' {
        Some(9usize)
    } else if c == 'b' {
        Some(18usize)
    } else {
        None
    }
}

pub fn suit_offset(c: char) -> (r: Option<usize>)
    ensures
        r == suit_offset_of(c),
{
    if c == 'w' {
        Some(0)
    } else if c == 't' {
        Some(9)
    } else if c == 'b' {
        Some(18)
    } else {
        None
    }
}

/// Rank 1..9 for a digit character.
pub fn digit_rank(c: char) -> (r: Option<usize>)
    ensures
        r matches Some(rank) ==> 1 <= rank <= 9 && rank_digit(rank as int) == c,
        r is None ==> !('1' <= c && c <= '9'),
{
    match c {
        '1' => Some(1),
        '2' => Some(2),
        '3' => Some(3),
        '4' => Some(4),
        '5' => Some(5),
        '6' => Some(6),
        '7' => Some(7),
        '8' => Some(8),
        '9' => Some(9),
        _ => None,
    }
}

/// The honour kind (27..34) whose key the characters spell, if any.
pub fn honor_index_of(cs: &Vec<char>) -> (r: Option<usize>)
    ensures
        r matches Some(i) ==> 27 <= i < 34 && spec_tile_key(i as int) == cs@,
        r is None ==> forall|k: int| 0 <= k < 7 ==> cs@ != #[trigger] honor_word(k),
{
    let east = vec!['e', 'a', 's', 't'];
    let south = vec!['s', 'o', 'u', 't', 'h'];
    let west = vec!['w', 'e', 's', 't'];
    let north = vec!['n', 'o', 'r', 't', 'h'];
    let red = vec!['r', 'e', 'd'];
    let green = vec!['g', 'r', 'e', 'e', 'n'];
    let white = vec!['w', 'h', 'i', 't', 'e'];
    assert(east@ =~= honor_word(0));
    assert(south@ =~= honor_word(1));
    assert(west@ =~= honor_word(2));
    assert(north@ =~= honor_word(3));
    assert(red@ =~= honor_word(4));
    assert(green@ =~= honor_word(5));
    assert(white@ =~= honor_word(6));
    if chars_equal(cs, &east) {
        Some(27)
    } else if chars_equal(cs, &south) {
        Some(28)
    } else if chars_equal(cs, &west) {
        Some(29)
    } else if chars_equal(cs, &north) {
        Some(30)
    } else if chars_equal(cs, &red) {
        Some(31)
    } else if chars_equal(cs, &green) {
        Some(32)
    } else if chars_equal(cs, &white) {
        Some(33)
    } else {
        assert forall|k: int| 0 <= k < 7 implies cs@ != #[trigger] honor_word(k) by {
            if k == 0 {
                assert(honor_word(k) == east@);
            } else if k == 1 {
                assert(honor_word(k) == south@);
            } else if k == 2 {
                assert(honor_word(k) == west@);
            } else if k == 3 {
                assert(honor_word(k) == north@);
            } else if k == 4 {
                assert(honor_word(k) == red@);
            } else if k == 5 {
                assert(honor_word(k) == green@);
            } else {
                assert(honor_word(k) == white@);
            }
        }
        None
    }
}

/// Tile kind of a key given as characters.
pub fn tile_index_of_chars(cs: &Vec<char>) -> (r: Option<usize>)
    ensures
        r matches Some(i) ==> spec_tile_index(cs@) == Some(i as int),
        r is None <==> spec_tile_index(cs@) is None,
{
    if let Some(i) = honor_index_of(cs) {
        proof {
            lemma_tile_index_of_key(i as int);
        }
        return Some(i);
    }
    if cs.len() == 2 {
        if let Some(offset) = suit_offset(cs[0]) {
            if let Some(rank) = digit_rank(cs[1]) {
                let i = offset + rank - 1;
                proof {
                    assert(spec_tile_key(i as int) =~= cs@);
                    lemma_tile_index_of_key(i as int);
                }
                return Some(i);
            }
        }
    }
    proof {
        lemma_not_tile_key(cs@);
    }
    None
}

} // verus!
