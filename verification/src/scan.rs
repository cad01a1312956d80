use vstd::prelude::*;

verus! {

/// Unicode `White_Space`, the property that `char::is_whitespace` tests.
pub open spec fn is_ws(c: char) -> bool {
    let v = c as u32;
    ||| 9 <= v <= 13
    ||| v == 32
    ||| v == 0x85
    ||| v == 0xa0
    ||| v == 0x1680
    ||| 0x2000 <= v <= 0x200a
    ||| v == 0x2028
    ||| v == 0x2029
    ||| v == 0x202f
    ||| v == 0x205f
    ||| v == 0x3000
}

pub fn is_whitespace(c: char) -> (r: bool)
    ensures
        r == is_ws(c),
{
    let v = c as u32;
    (9 <= v && v <= 13) || v == 32 || v == 0x85 || v == 0xa0 || v == 0x1680 || (0x2000 <= v && v
        <= 0x200a) || v == 0x2028 || v == 0x2029 || v == 0x202f || v == 0x205f || v == 0x3000
}

/// `s` without its leading white space.
pub open spec fn trim_start(s: Seq<char>) -> Seq<char>
    decreases s.len(),
{
    if s.len() > 0 && is_ws(s[0]) {
        trim_start(s.drop_first())
    } else {
        s
    }
}

/// `s` without its trailing white space.
pub open spec fn trim_end(s: Seq<char>) -> Seq<char>
    decreases s.len(),
{
    if s.len() > 0 && is_ws(s.last()) {
        trim_end(s.drop_last())
    } else {
        s
    }
}

/// `s` without leading and trailing white space, as `str::trim` gives it.
pub open spec fn trim(s: Seq<char>) -> Seq<char> {
    trim_end(trim_start(s))
}

proof fn lemma_trim_start(s: Seq<char>, i: int)
    requires
        0 <= i <= s.len(),
        forall|k: int| 0 <= k < i ==> is_ws(#[trigger] s[k]),
        i == s.len() || !is_ws(s[i]),
    ensures
        trim_start(s) == s.skip(i),
    decreases i,
{
    if i > 0 {
        assert forall|k: int| 0 <= k < i - 1 implies is_ws(#[trigger] s.drop_first()[k]) by {
            assert(s.drop_first()[k] == s[k + 1]);
        }
        lemma_trim_start(s.drop_first(), i - 1);
        assert(s.drop_first().skip(i - 1) =~= s.skip(i));
    } else {
        assert(s.skip(0) =~= s);
    }
}

proof fn lemma_trim_end(s: Seq<char>, j: int)
    requires
        0 <= j <= s.len(),
        forall|k: int| j <= k < s.len() ==> is_ws(#[trigger] s[k]),
        j == 0 || !is_ws(s[j - 1]),
    ensures
        trim_end(s) == s.take(j),
    decreases s.len() - j,
{
    if j < s.len() {
        assert forall|k: int| j <= k < s.len() - 1 implies is_ws(#[trigger] s.drop_last()[k]) by {
            assert(s.drop_last()[k] == s[k]);
        }
        lemma_trim_end(s.drop_last(), j);
        assert(s.drop_last().take(j) =~= s.take(j));
    } else {
        assert(s.take(j) =~= s);
    }
}

/// A copy of `s` without leading and trailing white space.
pub fn trim_chars(s: &Vec<char>) -> (r: Vec<char>)
    ensures
        r@ == trim(s@),
{
    let mut i: usize = 0;
    while i < s.len() && is_whitespace(s[i])
        invariant
            i <= s@.len(),
            forall|k: int| 0 <= k < i ==> is_ws(#[trigger] s@[k]),
        decreases s@.len() - i,
    {
        i += 1;
    }
    proof {
        lemma_trim_start(s@, i as int);
    }
    let ghost rest = s@.skip(i as int);
    let mut j: usize = s.len();
    while j > i && is_whitespace(s[j - 1])
        invariant
            i <= j <= s@.len(),
            rest == s@.skip(i as int),
            forall|k: int| j <= k < s@.len() ==> is_ws(#[trigger] s@[k]),
        decreases j,
    {
        j -= 1;
    }
    proof {
        assert forall|k: int| j - i <= k < rest.len() implies is_ws(#[trigger] rest[k]) by {
            assert(rest[k] == s@[k + i]);
        }
        if j > i {
            assert(rest[j - i - 1] == s@[j - 1]);
        }
        lemma_trim_end(rest, j - i);
    }
    let mut r: Vec<char> = Vec::new();
    let mut k: usize = i;
    while k < j
        invariant
            i <= k <= j <= s@.len(),
            r@ == s@.subrange(i as int, k as int),
        decreases j - k,
    {
        r.push(s[k]);
        proof {
            assert(r@ =~= s@.subrange(i as int, k + 1));
        }
        k += 1;
    }
    assert(r@ =~= rest.take(j - i));
    r
}

/// How a text is cut into pieces: at one character, or at any white space.
#[derive(Clone, Copy)]
pub enum Separator {
    Char(char),
    Whitespace,
}

pub open spec fn separates(sep: Separator, c: char) -> bool {
    match sep {
        Separator::Char(d) => c == d,
        Separator::Whitespace => is_ws(c),
    }
}

fn is_separator(sep: Separator, c: char) -> (r: bool)
    ensures
        r == separates(sep, c),
{
    match sep {
        Separator::Char(d) => c == d,
        Separator::Whitespace => is_whitespace(c),
    }
}

/// The pieces of `s` between separators, empty ones included, as `str::split` gives them.
pub open spec fn split(s: Seq<char>, sep: Separator) -> Seq<Seq<char>>
    decreases s.len(),
{
    if s.len() == 0 {
        seq![Seq::<char>::empty()]
    } else {
        let pieces = split(s.drop_last(), sep);
        if separates(sep, s.last()) {
            pieces.push(Seq::<char>::empty())
        } else {
            pieces.update(pieces.len() - 1, pieces.last().push(s.last()))
        }
    }
}

pub proof fn lemma_split_nonempty(s: Seq<char>, sep: Separator)
    ensures
        split(s, sep).len() >= 1,
    decreases s.len(),
{
    if s.len() > 0 {
        lemma_split_nonempty(s.drop_last(), sep);
    }
}

/// The views of a list of character lists.
pub open spec fn views(v: Seq<Vec<char>>) -> Seq<Seq<char>> {
    v.map_values(|p: Vec<char>| p@)
}

/// The pieces of `s` between separators.
pub fn split_chars(s: &Vec<char>, sep: Separator) -> (r: Vec<Vec<char>>)
    ensures
        views(r@) == split(s@, sep),
{
    let mut pieces: Vec<Vec<char>> = Vec::new();
    let mut current: Vec<char> = Vec::new();
    let mut i: usize = 0;
    while i < s.len()
        invariant
            i <= s@.len(),
            views(pieces@).push(current@) == split(s@.take(i as int), sep),
        decreases s@.len() - i,
    {
        let c = s[i];
        let ghost before = views(pieces@).push(current@);
        proof {
            assert(s@.take(i + 1).drop_last() =~= s@.take(i as int));
            assert(s@.take(i + 1).last() == c);
        }
        if is_separator(sep, c) {
            let piece = current;
            pieces.push(piece);
            current = Vec::new();
            proof {
                assert(views(pieces@).push(current@) =~= before.push(Seq::<char>::empty()));
            }
        } else {
            current.push(c);
            proof {
                assert(views(pieces@).push(current@) =~= before.update(
                    before.len() - 1,
                    before.last().push(c),
                ));
            }
        }
        i += 1;
    }
    assert(s@.take(s@.len() as int) =~= s@);
    let ghost before = views(pieces@);
    pieces.push(current);
    assert(views(pieces@) =~= before.push(current@));
    pieces
}

/// The non-empty lists among `pieces`, in order.
pub open spec fn nonempty(pieces: Seq<Seq<char>>) -> Seq<Seq<char>>
    decreases pieces.len(),
{
    if pieces.len() == 0 {
        Seq::empty()
    } else {
        let rest = nonempty(pieces.drop_last());
        if pieces.last().len() > 0 {
            rest.push(pieces.last())
        } else {
            rest
        }
    }
}

/// The words of `s`: the non-empty pieces between white space, as `str::split_whitespace`
/// gives them.
pub open spec fn words(s: Seq<char>) -> Seq<Seq<char>> {
    nonempty(split(s, Separator::Whitespace))
}

/// Each list trimmed.
pub open spec fn trim_all(pieces: Seq<Seq<char>>) -> Seq<Seq<char>> {
    pieces.map_values(|p: Seq<char>| trim(p))
}

/// The lines of `s`, trimmed, the blank ones left out: `s.lines().map(str::trim)` without
/// its empty lines.
pub open spec fn content_lines(s: Seq<char>) -> Seq<Seq<char>> {
    nonempty(trim_all(split(s, Separator::Char('\n'))))
}

/// The non-empty lists among `v`, in order.
pub fn keep_nonempty(v: Vec<Vec<char>>) -> (r: Vec<Vec<char>>)
    ensures
        views(r@) == nonempty(views(v@)),
{
    let mut r: Vec<Vec<char>> = Vec::new();
    let mut rest = v;
    let ghost all = views(rest@);
    let total = rest.len();
    let mut taken: usize = 0;
    while rest.len() > 0
        invariant
            all.len() == total,
            all.len() == taken + rest@.len(),
            views(rest@) == all.skip(taken as int),
            views(r@) == nonempty(all.take(taken as int)),
        decreases rest@.len(),
    {
        let ghost old_rest = rest@;
        let piece = rest.remove(0);
        proof {
            assert(views(old_rest)[0] == piece@);
            assert(all.skip(taken as int)[0] == all[taken as int]);
            assert(views(rest@) =~= views(old_rest).drop_first());
            assert(all.skip(taken + 1) =~= all.skip(taken as int).drop_first());
            assert(all.take(taken + 1).drop_last() =~= all.take(taken as int));
        }
        let ghost before = views(r@);
        if piece.len() > 0 {
            r.push(piece);
            assert(views(r@) =~= before.push(all[taken as int]));
        }
        taken += 1;
    }
    assert(all.take(all.len() as int) =~= all);
    r
}

/// The words of `s`.
pub fn split_words(s: &Vec<char>) -> (r: Vec<Vec<char>>)
    ensures
        views(r@) == words(s@),
{
    let pieces = split_chars(s, Separator::Whitespace);
    keep_nonempty(pieces)
}

/// Each list trimmed.
pub fn trim_each(v: &Vec<Vec<char>>) -> (r: Vec<Vec<char>>)
    ensures
        views(r@) == trim_all(views(v@)),
{
    let mut r: Vec<Vec<char>> = Vec::new();
    let mut i: usize = 0;
    while i < v.len()
        invariant
            i <= v@.len(),
            views(r@) == trim_all(views(v@).take(i as int)),
        decreases v@.len() - i,
    {
        let t = trim_chars(&v[i]);
        let ghost before = views(r@);
        r.push(t);
        proof {
            assert(views(r@) =~= before.push(t@));
            assert(views(v@).take(i + 1) =~= views(v@).take(i as int).push(v@[i as int]@));
            assert(trim_all(views(v@).take(i + 1)) =~= trim_all(views(v@).take(i as int)).push(
                trim(v@[i as int]@),
            ));
        }
        i += 1;
    }
    assert(views(v@).take(v@.len() as int) =~= views(v@));
    r
}

/// The trimmed, non-blank lines of `s`.
pub fn content_lines_of(s: &Vec<char>) -> (r: Vec<Vec<char>>)
    ensures
        views(r@) == content_lines(s@),
{
    let pieces = split_chars(s, Separator::Char('\n'));
    let trimmed = trim_each(&pieces);
    keep_nonempty(trimmed)
}

/// Whether `p` begins `s`.
pub open spec fn starts_with(s: Seq<char>, p: Seq<char>) -> bool {
    p.len() <= s.len() && s.take(p.len() as int) == p
}

/// What follows `p` in `s`, where `p` begins `s`.
pub open spec fn strip_prefix(s: Seq<char>, p: Seq<char>) -> Option<Seq<char>> {
    if starts_with(s, p) {
        Some(s.skip(p.len() as int))
    } else {
        None
    }
}

pub fn has_prefix(s: &Vec<char>, p: &str) -> (r: bool)
    ensures
        r == starts_with(s@, p@),
{
    let pv = crate::text::chars_of(p);
    if pv.len() > s.len() {
        return false;
    }
    let mut i: usize = 0;
    while i < pv.len()
        invariant
            pv@ == p@,
            pv@.len() <= s@.len(),
            i <= pv@.len(),
            forall|k: int| 0 <= k < i ==> s@[k] == pv@[k],
        decreases pv@.len() - i,
    {
        if s[i] != pv[i] {
            assert(s@.take(pv@.len() as int)[i as int] != pv@[i as int]);
            return false;
        }
        i += 1;
    }
    assert(s@.take(pv@.len() as int) =~= pv@);
    true
}

/// The characters of `s` from `start` on.
pub fn skip_chars(s: &Vec<char>, start: usize) -> (r: Vec<char>)
    requires
        start <= s@.len(),
    ensures
        r@ == s@.skip(start as int),
{
    let mut r: Vec<char> = Vec::new();
    let mut k: usize = start;
    while k < s.len()
        invariant
            start <= k <= s@.len(),
            r@ == s@.subrange(start as int, k as int),
        decreases s@.len() - k,
    {
        r.push(s[k]);
        assert(r@ =~= s@.subrange(start as int, k + 1));
        k += 1;
    }
    assert(r@ =~= s@.skip(start as int));
    r
}

/// What follows `p` in `s`, where `p` begins `s`.
pub fn after_prefix(s: &Vec<char>, p: &str) -> (r: Option<Vec<char>>)
    ensures
        match strip_prefix(s@, p@) {
            Some(rest) => r matches Some(v) && v@ == rest,
            None => r is None,
        },
{
    if has_prefix(s, p) {
        Some(skip_chars(s, crate::text::chars_of(p).len()))
    } else {
        None
    }
}

/// Whether `s` equals the literal `lit`.
pub fn chars_are(s: &Vec<char>, lit: &str) -> (r: bool)
    ensures
        r == (s@ == lit@),
{
    let v = crate::text::chars_of(lit);
    crate::text::chars_equal(s, &v)
}

/// The value of a run of decimal digits.
pub open spec fn digits_value(d: Seq<char>) -> int
    decreases d.len(),
{
    if d.len() == 0 {
        0
    } else {
        10 * digits_value(d.drop_last()) + (d.last() as u32 - 48)
    }
}

pub open spec fn is_digit(c: char) -> bool {
    48 <= c as u32 <= 57
}

pub open spec fn all_digits(d: Seq<char>) -> bool {
    forall|k: int| 0 <= k < d.len() ==> is_digit(#[trigger] d[k])
}

/// The number that `s` writes in decimal, with an optional `+` sign, as the unsigned
/// integer parsers of `str::parse` read it, before its range is checked.
pub open spec fn unsigned_value(s: Seq<char>) -> Option<int> {
    let d = if s.len() > 0 && s[0] == '+' {
        s.drop_first()
    } else {
        s
    };
    if d.len() == 0 || !all_digits(d) {
        None
    } else {
        Some(digits_value(d))
    }
}

/// `s.parse::<usize>()`, where it succeeds.
pub open spec fn parse_usize(s: Seq<char>) -> Option<usize> {
    match unsigned_value(s) {
        Some(v) => if v <= usize::MAX {
            Some(v as usize)
        } else {
            None
        },
        None => None,
    }
}

/// `s.parse::<i64>()`, where it succeeds: an optional sign, then decimal digits, in range.
pub open spec fn parse_i64(s: Seq<char>) -> Option<i64> {
    if s.len() > 0 && s[0] == '-' {
        let d = s.drop_first();
        if d.len() == 0 || !all_digits(d) {
            None
        } else if digits_value(d) <= 0x8000_0000_0000_0000 {
            Some((-digits_value(d)) as i64)
        } else {
            None
        }
    } else {
        match unsigned_value(s) {
            Some(v) => if v <= i64::MAX {
                Some(v as i64)
            } else {
                None
            },
            None => None,
        }
    }
}

proof fn lemma_digits_value_nonneg(d: Seq<char>)
    requires
        all_digits(d),
    ensures
        digits_value(d) >= 0,
    decreases d.len(),
{
    if d.len() > 0 {
        assert(is_digit(d[d.len() - 1]));
        assert forall|k: int| 0 <= k < d.drop_last().len() implies is_digit(#[trigger] d.drop_last()[k]) by {
            assert(d.drop_last()[k] == d[k]);
        }
        lemma_digits_value_nonneg(d.drop_last());
    }
}

/// The value of the digits of `s` from `start` on, where they are all digits and the value
/// fits in a `u64`.
fn digits_from(s: &Vec<char>, start: usize) -> (r: Option<u64>)
    requires
        start <= s@.len(),
    ensures
        match r {
            Some(v) => all_digits(s@.skip(start as int)) && v == digits_value(s@.skip(start as int)),
            None => !all_digits(s@.skip(start as int)) || digits_value(s@.skip(start as int))
                > u64::MAX,
        },
{
    let mut value: u64 = 0;
    let mut k: usize = start;
    let mut overflow = false;
    while k < s.len()
        invariant
            start <= k <= s@.len(),
            all_digits(s@.subrange(start as int, k as int)),
            !overflow ==> value == digits_value(s@.subrange(start as int, k as int)),
            overflow ==> digits_value(s@.subrange(start as int, k as int)) > u64::MAX,
        decreases s@.len() - k,
    {
        let c = s[k];
        let ghost prefix = s@.subrange(start as int, k as int);
        let ghost next = s@.subrange(start as int, k + 1);
        proof {
            assert(next.drop_last() =~= prefix);
            assert(next.last() == c);
        }
        let cv = c as u32;
        if !(48 <= cv && cv <= 57) {
            proof {
                assert(!is_digit(s@.skip(start as int)[k - start]));
            }
            return None;
        }
        proof {
            assert(all_digits(next)) by {
                assert forall|m: int| 0 <= m < next.len() implies is_digit(#[trigger] next[m]) by {
                    if m < prefix.len() {
                        assert(next[m] == prefix[m]);
                    }
                }
            }
            lemma_digits_value_nonneg(prefix);
        }
        let d = (cv - 48) as u64;
        if !overflow {
            match value.checked_mul(10) {
                Some(m) => match m.checked_add(d) {
                    Some(v) => {
                        value = v;
                    },
                    None => {
                        overflow = true;
                    },
                },
                None => {
                    overflow = true;
                },
            }
        } else {
            proof {
                assert(digits_value(next) == 10 * digits_value(prefix) + d);
            }
        }
        k += 1;
    }
    assert(s@.subrange(start as int, s@.len() as int) =~= s@.skip(start as int));
    if overflow {
        None
    } else {
        Some(value)
    }
}

/// `s.parse::<usize>()`.
pub fn parse_usize_chars(s: &Vec<char>) -> (r: Option<usize>)
    ensures
        r == parse_usize(s@),
{
    let start: usize = if s.len() > 0 && s[0] == '+' {
        1
    } else {
        0
    };
    proof {
        if start == 1 {
            assert(s@.skip(1) =~= s@.drop_first());
        } else {
            assert(s@.skip(0) =~= s@);
        }
    }
    if start == s.len() {
        return None;
    }
    match digits_from(s, start) {
        Some(v) => if v <= usize::MAX as u64 {
            Some(v as usize)
        } else {
            None
        },
        None => None,
    }
}

/// `s.parse::<i64>()`.
pub fn parse_i64_chars(s: &Vec<char>) -> (r: Option<i64>)
    ensures
        r == parse_i64(s@),
{
    if s.len() > 0 && s[0] == '-' {
        proof {
            assert(s@.skip(1) =~= s@.drop_first());
        }
        if s.len() == 1 {
            return None;
        }
        match digits_from(s, 1) {
            Some(v) => if v <= 0x8000_0000_0000_0000u64 {
                if v == 0x8000_0000_0000_0000u64 {
                    Some(i64::MIN)
                } else {
                    Some(-(v as i64))
                }
            } else {
                None
            },
            None => None,
        }
    } else {
        let start: usize = if s.len() > 0 && s[0] == '+' {
            1
        } else {
            0
        };
        proof {
            if start == 1 {
                assert(s@.skip(1) =~= s@.drop_first());
            } else {
                assert(s@.skip(0) =~= s@);
            }
        }
        if start == s.len() {
            return None;
        }
        match digits_from(s, start) {
            Some(v) => if v <= i64::MAX as u64 {
                Some(v as i64)
            } else {
                None
            },
            None => None,
        }
    }
}


/// `s` without the leading and trailing characters that `set` holds, as `str::trim_matches`
/// gives it for a set of characters.
pub open spec fn trim_set(s: Seq<char>, set: Seq<char>) -> Seq<char> {
    trim_set_end(trim_set_start(s, set), set)
}

pub open spec fn trim_set_start(s: Seq<char>, set: Seq<char>) -> Seq<char>
    decreases s.len(),
{
    if s.len() > 0 && set.contains(s[0]) {
        trim_set_start(s.drop_first(), set)
    } else {
        s
    }
}

pub open spec fn trim_set_end(s: Seq<char>, set: Seq<char>) -> Seq<char>
    decreases s.len(),
{
    if s.len() > 0 && set.contains(s.last()) {
        trim_set_end(s.drop_last(), set)
    } else {
        s
    }
}

proof fn lemma_trim_set_start(s: Seq<char>, set: Seq<char>, i: int)
    requires
        0 <= i <= s.len(),
        forall|k: int| 0 <= k < i ==> set.contains(#[trigger] s[k]),
        i == s.len() || !set.contains(s[i]),
    ensures
        trim_set_start(s, set) == s.skip(i),
    decreases i,
{
    if i > 0 {
        assert forall|k: int| 0 <= k < i - 1 implies set.contains(#[trigger] s.drop_first()[k]) by {
            assert(s.drop_first()[k] == s[k + 1]);
        }
        lemma_trim_set_start(s.drop_first(), set, i - 1);
        assert(s.drop_first().skip(i - 1) =~= s.skip(i));
    } else {
        assert(s.skip(0) =~= s);
    }
}

proof fn lemma_trim_set_end(s: Seq<char>, set: Seq<char>, j: int)
    requires
        0 <= j <= s.len(),
        forall|k: int| j <= k < s.len() ==> set.contains(#[trigger] s[k]),
        j == 0 || !set.contains(s[j - 1]),
    ensures
        trim_set_end(s, set) == s.take(j),
    decreases s.len() - j,
{
    if j < s.len() {
        assert forall|k: int| j <= k < s.len() - 1 implies set.contains(#[trigger] s.drop_last()[k]) by {
            assert(s.drop_last()[k] == s[k]);
        }
        lemma_trim_set_end(s.drop_last(), set, j);
        assert(s.drop_last().take(j) =~= s.take(j));
    } else {
        assert(s.take(j) =~= s);
    }
}

fn in_set(set: &Vec<char>, c: char) -> (r: bool)
    ensures
        r == set@.contains(c),
{
    let mut i: usize = 0;
    while i < set.len()
        invariant
            i <= set@.len(),
            forall|k: int| 0 <= k < i ==> set@[k] != c,
        decreases set@.len() - i,
    {
        if set[i] == c {
            assert(set@[i as int] == c);
            return true;
        }
        i += 1;
    }
    false
}

/// A copy of `s` without the leading and trailing characters that `set` holds.
pub fn trim_set_chars(s: &Vec<char>, set: &Vec<char>) -> (r: Vec<char>)
    ensures
        r@ == trim_set(s@, set@),
{
    let mut i: usize = 0;
    while i < s.len() && in_set(set, s[i])
        invariant
            i <= s@.len(),
            forall|k: int| 0 <= k < i ==> set@.contains(#[trigger] s@[k]),
        decreases s@.len() - i,
    {
        i += 1;
    }
    proof {
        lemma_trim_set_start(s@, set@, i as int);
    }
    let ghost rest = s@.skip(i as int);
    let mut j: usize = s.len();
    while j > i && in_set(set, s[j - 1])
        invariant
            i <= j <= s@.len(),
            rest == s@.skip(i as int),
            forall|k: int| j <= k < s@.len() ==> set@.contains(#[trigger] s@[k]),
        decreases j,
    {
        j -= 1;
    }
    proof {
        assert forall|k: int| j - i <= k < rest.len() implies set@.contains(#[trigger] rest[k]) by {
            assert(rest[k] == s@[k + i]);
        }
        if j > i {
            assert(rest[j - i - 1] == s@[j - 1]);
        }
        lemma_trim_set_end(rest, set@, j - i);
    }
    let mut r: Vec<char> = Vec::new();
    let mut k: usize = i;
    while k < j
        invariant
            i <= k <= j <= s@.len(),
            r@ == s@.subrange(i as int, k as int),
        decreases j - k,
    {
        r.push(s[k]);
        proof {
            assert(r@ =~= s@.subrange(i as int, k + 1));
        }
        k += 1;
    }
    assert(r@ =~= rest.take(j - i));
    r
}

/// Whether `p` occurs in `s`.
pub open spec fn contains_text(s: Seq<char>, p: Seq<char>) -> bool {
    exists|i: int| 0 <= i && i + p.len() <= s.len() && #[trigger] s.subrange(i, i + p.len()) == p
}

/// Whether the literal `p` occurs in `s`.
pub fn has_text(s: &Vec<char>, p: &str) -> (r: bool)
    ensures
        r == contains_text(s@, p@),
{
    let pv = crate::text::chars_of(p);
    if pv.len() > s.len() {
        return false;
    }
    let n = s.len();
    let limit = n - pv.len();
    let mut i: usize = 0;
    while i <= limit
        invariant
            pv@ == p@,
            n == s@.len(),
            limit == n - pv@.len(),
            pv@.len() <= s@.len(),
            i <= s@.len() - pv@.len() + 1,
            forall|k: int| 0 <= k < i ==> #[trigger] s@.subrange(k, k + pv@.len()) != pv@,
        decreases s@.len() - i,
    {
        let mut j: usize = 0;
        let mut same = true;
        while j < pv.len()
            invariant
                n == s@.len(),
                i + pv@.len() <= n,
                j <= pv@.len(),
                same == (forall|m: int| 0 <= m < j ==> s@[i + m] == pv@[m]),
            decreases pv@.len() - j,
        {
            if s[i + j] != pv[j] {
                same = false;
            }
            j += 1;
        }
        if same {
            assert(s@.subrange(i as int, i + pv@.len()) =~= pv@);
            return true;
        }
        proof {
            let m = choose|m: int| 0 <= m < pv@.len() && s@[i + m] != pv@[m];
            assert(s@.subrange(i as int, i + pv@.len())[m] != pv@[m]);
        }
        i += 1;
    }
    false
}

/// Whether `p` ends `s`.
pub open spec fn ends_with(s: Seq<char>, p: Seq<char>) -> bool {
    p.len() <= s.len() && s.skip(s.len() - p.len()) == p
}

pub fn has_suffix_char(s: &Vec<char>, c: char) -> (r: bool)
    ensures
        r == ends_with(s@, seq![c]),
{
    if s.len() == 0 {
        false
    } else {
        let last = s[s.len() - 1];
        proof {
            if last == c {
                assert(s@.skip(s@.len() - 1) =~= seq![c]);
            } else {
                assert(s@.skip(s@.len() - 1)[0] != seq![c][0]);
            }
        }
        last == c
    }
}

} // verus!
