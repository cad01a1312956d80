use vstd::prelude::*;

use crate::context::tile_index;
use crate::replay_view::{insert_by_rank, insert_sorted, key_rank, sort_by_rank, sorted_unique, str_lt, strs_v};
use crate::text::{chars_of, str_equal};
use crate::tiles::lemma_key_of_tile_index;

verus! {

/// Whether `a` comes before `b` in byte order.
pub fn str_less(a: &str, b: &str) -> (r: bool)
    ensures
        r == str_lt(a@, b@),
{
    let av = chars_of(a);
    let bv = chars_of(b);
    let mut i: usize = 0;
    assert(a@.skip(0) =~= a@);
    assert(b@.skip(0) =~= b@);
    while i < av.len() && i < bv.len() && av[i] == bv[i]
        invariant
            av@ == a@,
            bv@ == b@,
            i <= av@.len(),
            i <= bv@.len(),
            str_lt(a@, b@) == str_lt(a@.skip(i as int), b@.skip(i as int)),
        decreases av@.len() - i,
    {
        proof {
            let sa = a@.skip(i as int);
            let sb = b@.skip(i as int);
            assert(sa.drop_first() =~= a@.skip(i + 1));
            assert(sb.drop_first() =~= b@.skip(i + 1));
        }
        i += 1;
    }
    let sa = Ghost(a@.skip(i as int));
    let sb = Ghost(b@.skip(i as int));
    if i == bv.len() {
        assert(sb@.len() == 0);
        false
    } else if i == av.len() {
        assert(sa@.len() == 0);
        true
    } else {
        assert(sa@[0] == av@[i as int]);
        assert(sb@[0] == bv@[i as int]);
        (av[i] as u32) < (bv[i] as u32)
    }
}

proof fn lemma_insert_sorted_step(s: Seq<Seq<char>>, x: Seq<char>, i: int)
    requires
        0 <= i < s.len(),
        s[i] != x,
        !str_lt(x, s[i]),
    ensures
        insert_sorted(s.skip(i), x) == seq![s[i]] + insert_sorted(s.skip(i + 1), x),
{
    let t = s.skip(i);
    assert(t[0] == s[i]);
    assert(t.drop_first() =~= s.skip(i + 1));
}

/// Puts `x` into the ordered list before the first entry above it, unless it is there.
pub fn insert_sorted_exec(v: &mut Vec<String>, x: String)
    ensures
        strs_v(final(v)@) == insert_sorted(strs_v(old(v)@), x@),
{
    let ghost s = strs_v(v@);
    let mut i: usize = 0;
    assert(s.skip(0) =~= s);
    assert(s.take(0) + s =~= s);
    while i < v.len()
        invariant
            s == strs_v(v@),
            *v == *old(v),
            i <= v@.len(),
            insert_sorted(s, x@) == s.take(i as int) + insert_sorted(s.skip(i as int), x@),
        decreases v@.len() - i,
    {
        if str_equal(v[i].as_str(), x.as_str()) {
            proof {
                let t = s.skip(i as int);
                assert(t[0] == x@);
                assert(s.take(i as int) + t =~= s);
            }
            return;
        }
        if str_less(x.as_str(), v[i].as_str()) {
            proof {
                let t = s.skip(i as int);
                assert(t[0] == s[i as int]);
            }
            v.insert(i, x);
            proof {
                assert(strs_v(v@) =~= s.take(i as int) + (seq![x@] + s.skip(i as int)));
            }
            return;
        }
        proof {
            lemma_insert_sorted_step(s, x@, i as int);
            assert(s.take(i as int) + (seq![s[i as int]] + insert_sorted(s.skip(i + 1), x@)) =~= s.take(i + 1)
                + insert_sorted(s.skip(i + 1), x@));
        }
        i += 1;
    }
    proof {
        assert(s.skip(i as int) =~= Seq::<Seq<char>>::empty());
        assert(s.take(i as int) =~= s);
    }
    v.push(x);
    proof {
        assert(strs_v(v@) =~= s + seq![x@]);
    }
}

/// The distinct strings of `v` in ascending byte order.
pub fn sorted_unique_exec(v: &Vec<String>) -> (r: Vec<String>)
    ensures
        strs_v(r@) == sorted_unique(strs_v(v@)),
{
    let ghost s = strs_v(v@);
    let mut r: Vec<String> = Vec::new();
    let mut j: usize = 0;
    while j < v.len()
        invariant
            s == strs_v(v@),
            j <= v@.len(),
            strs_v(r@) == sorted_unique(s.take(j as int)),
        decreases v@.len() - j,
    {
        proof {
            assert(s.take(j + 1).drop_last() =~= s.take(j as int));
            assert(s.take(j + 1).last() == v@[j as int]@);
        }
        insert_sorted_exec(&mut r, v[j].clone());
        j += 1;
    }
    assert(s.take(j as int) =~= s);
    r
}

/// The order of a tile key among the kinds; keys of no kind come last.
pub fn rank_of_key(k: &str) -> (r: usize)
    ensures
        r == key_rank(k@),
{
    match tile_index(k) {
        Some(i) => i,
        None => usize::MAX,
    }
}

proof fn lemma_insert_by_rank_step(s: Seq<Seq<char>>, x: Seq<char>, i: int)
    requires
        0 <= i < s.len(),
        !(key_rank(x) < key_rank(s[i])),
    ensures
        insert_by_rank(s.skip(i), x) == seq![s[i]] + insert_by_rank(s.skip(i + 1), x),
{
    let t = s.skip(i);
    assert(t[0] == s[i]);
    assert(t.drop_first() =~= s.skip(i + 1));
}

/// Puts the key `x` before the first key of higher rank.
pub fn insert_by_rank_exec(v: &mut Vec<String>, x: String)
    ensures
        strs_v(final(v)@) == insert_by_rank(strs_v(old(v)@), x@),
{
    let ghost s = strs_v(v@);
    let rank = rank_of_key(x.as_str());
    let mut i: usize = 0;
    assert(s.skip(0) =~= s);
    assert(s.take(0) + insert_by_rank(s, x@) =~= insert_by_rank(s, x@));
    while i < v.len()
        invariant
            s == strs_v(v@),
            *v == *old(v),
            rank == key_rank(x@),
            i <= v@.len(),
            insert_by_rank(s, x@) == s.take(i as int) + insert_by_rank(s.skip(i as int), x@),
        decreases v@.len() - i,
    {
        if rank < rank_of_key(v[i].as_str()) {
            proof {
                let t = s.skip(i as int);
                assert(t[0] == s[i as int]);
            }
            v.insert(i, x);
            proof {
                assert(strs_v(v@) =~= s.take(i as int) + (seq![x@] + s.skip(i as int)));
            }
            return;
        }
        proof {
            lemma_insert_by_rank_step(s, x@, i as int);
            assert(s.take(i as int) + (seq![s[i as int]] + insert_by_rank(s.skip(i + 1), x@)) =~= s.take(i + 1)
                + insert_by_rank(s.skip(i + 1), x@));
        }
        i += 1;
    }
    proof {
        assert(s.skip(i as int) =~= Seq::<Seq<char>>::empty());
        assert(s.take(i as int) =~= s);
    }
    v.push(x);
    proof {
        assert(strs_v(v@) =~= s + seq![x@]);
    }
}

/// The keys ordered by rank, keys of equal rank in their first order.
pub fn sort_by_rank_exec(v: &Vec<String>) -> (r: Vec<String>)
    ensures
        strs_v(r@) == sort_by_rank(strs_v(v@)),
{
    let ghost s = strs_v(v@);
    let mut r: Vec<String> = Vec::new();
    let mut j: usize = 0;
    while j < v.len()
        invariant
            s == strs_v(v@),
            j <= v@.len(),
            strs_v(r@) == sort_by_rank(s.take(j as int)),
        decreases v@.len() - j,
    {
        proof {
            assert(s.take(j + 1).drop_last() =~= s.take(j as int));
            assert(s.take(j + 1).last() == v@[j as int]@);
        }
        insert_by_rank_exec(&mut r, v[j].clone());
        j += 1;
    }
    assert(s.take(j as int) =~= s);
    r
}

/// No string comes before itself.
pub proof fn lemma_str_lt_irreflexive(a: Seq<char>)
    ensures
        !str_lt(a, a),
    decreases a.len(),
{
    if a.len() > 0 {
        lemma_str_lt_irreflexive(a.drop_first());
    }
}

/// Byte order is transitive.
pub proof fn lemma_str_lt_transitive(a: Seq<char>, b: Seq<char>, c: Seq<char>)
    requires
        str_lt(a, b),
        str_lt(b, c),
    ensures
        str_lt(a, c),
    decreases a.len(),
{
    if a.len() > 0 && b.len() > 0 && c.len() > 0 && a[0] == b[0] && b[0] == c[0] {
        lemma_str_lt_transitive(a.drop_first(), b.drop_first(), c.drop_first());
    }
}

/// Of two different strings one comes before the other.
pub proof fn lemma_str_lt_total(a: Seq<char>, b: Seq<char>)
    requires
        a != b,
    ensures
        str_lt(a, b) || str_lt(b, a),
    decreases a.len(),
{
    if a.len() == 0 {
        assert(b.len() > 0) by {
            if b.len() == 0 {
                assert(a =~= b);
            }
        }
    } else if b.len() > 0 {
        if a[0] == b[0] {
            if a.drop_first() == b.drop_first() {
                assert(a =~= seq![a[0]] + a.drop_first());
                assert(b =~= seq![b[0]] + b.drop_first());
            }
            lemma_str_lt_total(a.drop_first(), b.drop_first());
        } else {
            vstd::utf8::char_u32_cast(a[0], a[0] as u32);
            vstd::utf8::char_u32_cast(b[0], b[0] as u32);
        }
    }
}

/// Two strings are not each before the other.
pub proof fn lemma_str_lt_asymmetric(a: Seq<char>, b: Seq<char>)
    requires
        str_lt(a, b),
    ensures
        !str_lt(b, a),
{
    if str_lt(b, a) {
        lemma_str_lt_transitive(a, b, a);
        lemma_str_lt_irreflexive(a);
    }
}

/// Each entry of `s` comes before the next: `s` is ascending with no repeats.
pub open spec fn strictly_ascending(s: Seq<Seq<char>>) -> bool {
    forall|i: int, j: int| 0 <= i < j < s.len() ==> str_lt(#[trigger] s[i], #[trigger] s[j])
}

proof fn lemma_insert_sorted_keeps_order(s: Seq<Seq<char>>, x: Seq<char>)
    requires
        strictly_ascending(s),
    ensures
        strictly_ascending(insert_sorted(s, x)),
        forall|y: Seq<char>| #[trigger] insert_sorted(s, x).contains(y) <==> (s.contains(y) || y == x),
    decreases s.len(),
{
    let r = insert_sorted(s, x);
    if s.len() == 0 {
        assert(r =~= seq![x]);
        assert forall|y: Seq<char>| #[trigger] r.contains(y) <==> (s.contains(y) || y == x) by {
            if y == x {
                assert(r[0] == y);
            }
        }
    } else if s[0] == x {
        assert forall|y: Seq<char>| #[trigger] r.contains(y) <==> (s.contains(y) || y == x) by {
            if y == x {
                assert(s[0] == y);
            }
        }
    } else if str_lt(x, s[0]) {
        assert(r =~= seq![x] + s);
        assert forall|i: int, j: int| 0 <= i < j < r.len() implies str_lt(#[trigger] r[i], #[trigger] r[j]) by {
            if i == 0 {
                if j > 1 {
                    assert(str_lt(s[0], s[j - 1]));
                    lemma_str_lt_transitive(x, s[0], s[j - 1]);
                }
            } else {
                assert(str_lt(s[i - 1], s[j - 1]));
            }
        }
        assert forall|y: Seq<char>| #[trigger] r.contains(y) <==> (s.contains(y) || y == x) by {
            if r.contains(y) {
                let k = choose|k: int| 0 <= k < r.len() && r[k] == y;
                if k > 0 {
                    assert(s[k - 1] == y);
                }
            }
            if s.contains(y) {
                let k = choose|k: int| 0 <= k < s.len() && s[k] == y;
                assert(r[k + 1] == y);
            }
            if y == x {
                assert(r[0] == y);
            }
        }
    } else {
        lemma_str_lt_total(x, s[0]);
        let rest = s.drop_first();
        assert forall|i: int, j: int| 0 <= i < j < rest.len() implies str_lt(#[trigger] rest[i], #[trigger] rest[j]) by {
            assert(str_lt(s[i + 1], s[j + 1]));
        }
        lemma_insert_sorted_keeps_order(rest, x);
        let tail = insert_sorted(rest, x);
        assert(r =~= seq![s[0]] + tail);
        assert forall|y: Seq<char>| tail.contains(y) implies str_lt(s[0], y) by {
            if rest.contains(y) {
                let k = choose|k: int| 0 <= k < rest.len() && rest[k] == y;
                assert(str_lt(s[0], s[k + 1]));
            }
        }
        assert forall|i: int, j: int| 0 <= i < j < r.len() implies str_lt(#[trigger] r[i], #[trigger] r[j]) by {
            if i == 0 {
                assert(tail.contains(tail[j - 1]));
            } else {
                assert(str_lt(tail[i - 1], tail[j - 1]));
            }
        }
        assert forall|y: Seq<char>| #[trigger] r.contains(y) <==> (s.contains(y) || y == x) by {
            if r.contains(y) {
                let k = choose|k: int| 0 <= k < r.len() && r[k] == y;
                if k == 0 {
                    assert(s[0] == y);
                } else {
                    assert(tail.contains(y));
                    if rest.contains(y) {
                        let q = choose|q: int| 0 <= q < rest.len() && rest[q] == y;
                        assert(s[q + 1] == y);
                    }
                }
            }
            if s.contains(y) {
                let k = choose|k: int| 0 <= k < s.len() && s[k] == y;
                if k == 0 {
                    assert(r[0] == y);
                } else {
                    assert(rest[k - 1] == y);
                    assert(tail.contains(y));
                    let q = choose|q: int| 0 <= q < tail.len() && tail[q] == y;
                    assert(r[q + 1] == y);
                }
            }
            if y == x {
                assert(tail.contains(y));
                let q = choose|q: int| 0 <= q < tail.len() && tail[q] == y;
                assert(r[q + 1] == y);
            }
        }
    }
}

/// Sorting with repeats removed gives an ascending list without repeats that holds exactly
/// the strings of `v`.
pub proof fn sorted_unique_is_ascending_and_complete(v: Seq<Seq<char>>)
    ensures
        strictly_ascending(sorted_unique(v)),
        forall|y: Seq<char>| #[trigger] sorted_unique(v).contains(y) <==> v.contains(y),
    decreases v.len(),
{
    if v.len() > 0 {
        sorted_unique_is_ascending_and_complete(v.drop_last());
        lemma_insert_sorted_keeps_order(sorted_unique(v.drop_last()), v.last());
        assert forall|y: Seq<char>| #[trigger] sorted_unique(v).contains(y) <==> v.contains(y) by {
            if v.drop_last().contains(y) {
                let k = choose|k: int| 0 <= k < v.drop_last().len() && v.drop_last()[k] == y;
                assert(v[k] == y);
            }
            if v.contains(y) {
                let k = choose|k: int| 0 <= k < v.len() && v[k] == y;
                if k < v.len() - 1 {
                    assert(v.drop_last()[k] == y);
                }
            }
        }
    }
}

} // verus!
