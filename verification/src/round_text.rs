use vstd::prelude::*;
use vstd::relations::{sorted_by, total_ordering};

use crate::action_space::tile_index;
use crate::botzone::{
    event_view, make_action, numbers_of, opt_view, string_views, tile_of_code,
    tile_of_code_chars, BotZoneActionKind, BotZoneEvent, BotZoneMatch, BotZoneResult, EventView,
};
use crate::scan::{
    chars_are, content_lines, content_lines_of, contains_text, ends_with, has_prefix, has_text,
    has_suffix_char, parse_i64, parse_i64_chars, parse_usize, parse_usize_chars, split,
    split_chars, starts_with, trim, trim_all, trim_chars, trim_each, trim_set, trim_set_chars,
    views, Separator,
};
use crate::text::{chars_of, owned, string_from_chars};
use crate::tiles::{spec_tile_index, spec_tile_key};

verus! {

/// The fields of a tab-separated line, each trimmed.
pub open spec fn tab_fields(line: Seq<char>) -> Seq<Seq<char>> {
    trim_all(split(line, Separator::Char('\t')))
}

fn split_tab_line(line: &Vec<char>) -> (r: Vec<Vec<char>>)
    ensures
        views(r@) == tab_fields(line@),
{
    let pieces = split_chars(line, Separator::Char('\t'));
    trim_each(&pieces)
}

/// A seat number of the table, read from a field.
pub open spec fn seat_of(raw: Seq<char>) -> Option<usize> {
    match parse_usize(trim(raw)) {
        Some(seat) => if seat < 4 {
            Some(seat)
        } else {
            None
        },
        None => None,
    }
}

fn parse_seat(raw: &Vec<char>) -> (r: Option<usize>)
    ensures
        r == seat_of(raw@),
{
    let t = trim_chars(raw);
    match parse_usize_chars(&t) {
        Some(seat) => if seat < 4 {
            Some(seat)
        } else {
            None
        },
        None => None,
    }
}

/// The round wind that a header names, by Chinese name, code or English name; east where
/// it names none.
pub open spec fn header_wind(raw: Seq<char>) -> Seq<char> {
    let t = trim(raw);
    if t == "东"@ || t == "F1"@ || t == "east"@ {
        "east"@
    } else if t == "南"@ || t == "F2"@ || t == "south"@ {
        "south"@
    } else if t == "西"@ || t == "F3"@ || t == "west"@ {
        "west"@
    } else if t == "北"@ || t == "F4"@ || t == "north"@ {
        "north"@
    } else {
        "east"@
    }
}

/// Each wind is named three ways in a round header, by its Chinese name, its code and its
/// English name: 东, F1, east; 南, F2, south; 西, F3, west; 北, F4, north. A header reads as a
/// wind exactly when its trimmed text is one of that wind's names, and as east when it is
/// none of the twelve.
pub proof fn header_winds_follow_their_names(raw: Seq<char>)
    ensures
        header_wind(raw) == "south"@ <==> (trim(raw) == "南"@ || trim(raw) == "F2"@ || trim(raw) == "south"@),
        header_wind(raw) == "west"@ <==> (trim(raw) == "西"@ || trim(raw) == "F3"@ || trim(raw) == "west"@),
        header_wind(raw) == "north"@ <==> (trim(raw) == "北"@ || trim(raw) == "F4"@ || trim(raw) == "north"@),
        header_wind(raw) == "east"@ <==> !(trim(raw) == "南"@ || trim(raw) == "F2"@ || trim(raw) == "south"@
            || trim(raw) == "西"@ || trim(raw) == "F3"@ || trim(raw) == "west"@ || trim(raw) == "北"@
            || trim(raw) == "F4"@ || trim(raw) == "north"@),
{
    reveal_strlit("东");
    reveal_strlit("南");
    reveal_strlit("西");
    reveal_strlit("北");
    reveal_strlit("F1");
    reveal_strlit("F2");
    reveal_strlit("F3");
    reveal_strlit("F4");
    reveal_strlit("east");
    reveal_strlit("south");
    reveal_strlit("west");
    reveal_strlit("north");
    assert("东"@.len() == 1 && "南"@.len() == 1 && "西"@.len() == 1 && "北"@.len() == 1);
    assert("东"@[0] != "南"@[0] && "东"@[0] != "西"@[0] && "东"@[0] != "北"@[0]);
    assert("南"@[0] != "西"@[0] && "南"@[0] != "北"@[0] && "西"@[0] != "北"@[0]);
    assert("F1"@.len() == 2 && "F2"@.len() == 2 && "F3"@.len() == 2 && "F4"@.len() == 2);
    assert("F1"@[1] == '1' && "F2"@[1] == '2' && "F3"@[1] == '3' && "F4"@[1] == '4');
    assert("east"@.len() == 4 && "west"@.len() == 4 && "south"@.len() == 5 && "north"@.len() == 5);
    assert("east"@[0] == 'e' && "west"@[0] == 'w' && "south"@[0] == 's' && "north"@[0] == 'n');
}

fn parse_wind(raw: &Vec<char>) -> (r: String)
    ensures
        r@ == header_wind(raw@),
{
    let t = trim_chars(raw);
    if chars_are(&t, "东") || chars_are(&t, "F1") || chars_are(&t, "east") {
        owned("east")
    } else if chars_are(&t, "南") || chars_are(&t, "F2") || chars_are(&t, "south") {
        owned("south")
    } else if chars_are(&t, "西") || chars_are(&t, "F3") || chars_are(&t, "west") {
        owned("west")
    } else if chars_are(&t, "北") || chars_are(&t, "F4") || chars_are(&t, "north") {
        owned("north")
    } else {
        owned("east")
    }
}

/// A tile code of a list field, without its quotes.
pub open spec fn part_code(part: Seq<char>) -> Seq<char> {
    trim_set(trim_set(trim(part), seq!['\'']), seq!['"'])
}

/// The tile keys of a list's parts, flowers (codes that begin with `H`) and unknown codes
/// left out.
pub open spec fn tiles_of_parts(parts: Seq<Seq<char>>) -> Seq<Seq<char>>
    decreases parts.len(),
{
    if parts.len() == 0 {
        Seq::empty()
    } else {
        let rest = tiles_of_parts(parts.drop_last());
        let code = part_code(parts.last());
        if code.len() > 0 && code[0] == 'H' {
            rest
        } else {
            match tile_of_code(code) {
                Some(t) => rest.push(t),
                None => rest,
            }
        }
    }
}

/// The tile keys of a list field such as `['W8','B7']`.
pub open spec fn tile_list_of(raw: Seq<char>) -> Seq<Seq<char>> {
    tiles_of_parts(split(trim_set(trim(raw), seq!['[', ']']), Separator::Char(',')))
}

fn parse_tile_list(raw: &Vec<char>) -> (r: Vec<String>)
    ensures
        string_views(r@) == tile_list_of(raw@),
{
    let brackets: Vec<char> = vec!['[', ']'];
    let quote: Vec<char> = vec!['\''];
    let double_quote: Vec<char> = vec!['"'];
    proof {
        assert(brackets@ =~= seq!['[', ']']);
        assert(quote@ =~= seq!['\'']);
        assert(double_quote@ =~= seq!['"']);
    }
    let inner = trim_set_chars(&trim_chars(raw), &brackets);
    let parts = split_chars(&inner, Separator::Char(','));
    let ghost pv = views(parts@);
    let mut tiles: Vec<String> = Vec::new();
    let mut i: usize = 0;
    while i < parts.len()
        invariant
            pv == views(parts@),
            brackets@ == seq!['[', ']'],
            quote@ == seq!['\''],
            double_quote@ == seq!['"'],
            i <= parts@.len(),
            string_views(tiles@) == tiles_of_parts(pv.take(i as int)),
        decreases parts@.len() - i,
    {
        proof {
            assert(pv.take(i + 1).drop_last() =~= pv.take(i as int));
            assert(pv.take(i + 1).last() == parts@[i as int]@);
        }
        let code = trim_set_chars(&trim_set_chars(&trim_chars(&parts[i]), &quote), &double_quote);
        if !(code.len() > 0 && code[0] == 'H') {
            let ghost before = string_views(tiles@);
            match tile_of_code_chars(&code) {
                Some(t) => {
                    tiles.push(t);
                    assert(string_views(tiles@) =~= before.push(t@));
                },
                None => {},
            }
        }
        i += 1;
    }
    assert(pv.take(pv.len() as int) =~= pv);
    tiles
}

/// The first tile of an optional list field.
pub open spec fn first_tile_of(raw: Option<Seq<char>>) -> Option<Seq<char>> {
    match raw {
        Some(v) => if tile_list_of(v).len() > 0 {
            Some(tile_list_of(v)[0])
        } else {
            None
        },
        None => None,
    }
}

/// The tile indices of the tile keys among `tiles`, in order.
pub open spec fn indices_of(tiles: Seq<Seq<char>>) -> Seq<usize>
    decreases tiles.len(),
{
    if tiles.len() == 0 {
        Seq::empty()
    } else {
        let rest = indices_of(tiles.drop_last());
        match spec_tile_index(tiles.last()) {
            Some(i) => rest.push(i as usize),
            None => rest,
        }
    }
}

pub open spec fn usize_leq() -> spec_fn(usize, usize) -> bool {
    |a: usize, b: usize| a <= b
}

/// The middle tile of a run: the tile whose index stands in the middle once the indices are
/// in ascending order.
pub open spec fn middle_tile_of(tiles: Seq<Seq<char>>) -> Option<Seq<char>> {
    let idx = indices_of(tiles);
    if idx.len() == 0 {
        None
    } else {
        let sorted = idx.sort_by(usize_leq());
        if sorted[idx.len() as int / 2] < 34 {
            Some(spec_tile_key(sorted[idx.len() as int / 2] as int))
        } else {
            None
        }
    }
}

/// `slice::sort_unstable` on tile indices: the same indices, in ascending order.
#[verifier::external_body]
fn sort_indices(v: &mut Vec<usize>)
    ensures
        final(v)@.to_multiset() == old(v)@.to_multiset(),
        sorted_by(final(v)@, usize_leq()),
{
    v.sort_unstable();
}

fn middle_tile_key(tiles: &Vec<String>) -> (r: Option<String>)
    ensures
        opt_view(r) == middle_tile_of(string_views(tiles@)),
{
    let ghost tv = string_views(tiles@);
    let mut indexes: Vec<usize> = Vec::new();
    let mut i: usize = 0;
    while i < tiles.len()
        invariant
            tv == string_views(tiles@),
            i <= tiles@.len(),
            indexes@ == indices_of(tv.take(i as int)),
        decreases tiles@.len() - i,
    {
        proof {
            assert(tv.take(i + 1).drop_last() =~= tv.take(i as int));
            assert(tv.take(i + 1).last() == tiles@[i as int]@);
        }
        match tile_index(tiles[i].as_str()) {
            Some(k) => {
                indexes.push(k);
            },
            None => {},
        }
        i += 1;
    }
    assert(tv.take(tv.len() as int) =~= tv);
    let ghost idx = indexes@;
    sort_indices(&mut indexes);
    proof {
        assert(total_ordering(usize_leq()));
        idx.lemma_sort_by_ensures(usize_leq());
        vstd::seq_lib::lemma_sorted_unique(indexes@, idx.sort_by(usize_leq()), usize_leq());
        broadcast use vstd::seq_lib::group_to_multiset_ensures;
        assert(indexes@.to_multiset().len() == indexes@.len());
        assert(idx.to_multiset().len() == idx.len());
    }
    if indexes.len() == 0 {
        return None;
    }
    let middle = indexes[indexes.len() / 2];
    match crate::action_space::tile_key_for_index(middle) {
        Some(key) => Some(owned(key)),
        None => None,
    }
}

/// What an event line of a round record says: none for lines of other kinds and for draws
/// without a tile, else the event; or the error of a line that cannot be read.
pub open spec fn event_of_fields(line: Seq<char>) -> Result<Option<EventView>, Seq<char>> {
    let parts = tab_fields(line);
    if parts.len() < 3 {
        Ok(None)
    } else {
        match seat_of(parts[0]) {
            None => Err("invalid actor in event: "@ + line),
            Some(actor) => {
                let name = parts[1];
                let tiles = tile_list_of(parts[2]);
                let tile: Option<Seq<char>> = if tiles.len() > 0 {
                    Some(tiles[0])
                } else {
                    None
                };
                let named = match first_tile_of(
                    if parts.len() > 3 {
                        Some(parts[3])
                    } else {
                        None
                    },
                ) {
                    Some(t) => Some(t),
                    None => tile,
                };
                if name == "摸牌"@ {
                    match tile {
                        None => Ok(None),
                        Some(t) => Ok(Some((actor, (BotZoneActionKind::Draw, t), Seq::empty()))),
                    }
                } else if name == "补花后摸牌"@ {
                    event_or(actor, BotZoneActionKind::Draw, tile, "missing draw tile: "@ + line)
                } else if name == "打牌"@ {
                    event_or(actor, BotZoneActionKind::Play, tile, "missing play tile: "@ + line)
                } else if name == "碰"@ {
                    event_or(actor, BotZoneActionKind::Peng, named, "missing peng tile: "@ + line)
                } else if name == "吃"@ {
                    event_or(
                        actor,
                        BotZoneActionKind::Chi,
                        middle_tile_of(tiles),
                        "missing chi middle tile: "@ + line,
                    )
                } else if name == "杠"@ || name == "明杠"@ {
                    event_or(actor, BotZoneActionKind::Gang, named, "missing gang tile: "@ + line)
                } else if name == "暗杠"@ {
                    event_or(
                        actor,
                        BotZoneActionKind::AnGang,
                        named,
                        "missing concealed kong tile: "@ + line,
                    )
                } else if name == "补杠"@ || name == "补杠牌"@ {
                    event_or(actor, BotZoneActionKind::BuGang, named, "missing add kong tile: "@ + line)
                } else if name == "胡"@ || name == "和"@ || name == "自摸"@ {
                    Ok(
                        Some(
                            (
                                actor,
                                (
                                    BotZoneActionKind::Hu,
                                    match tile {
                                        Some(t) => t,
                                        None => Seq::empty(),
                                    },
                                ),
                                Seq::empty(),
                            ),
                        ),
                    )
                } else {
                    Ok(None)
                }
            },
        }
    }
}

/// The event of `kind` on `tile`, or `error` where there is no tile.
pub open spec fn event_or(
    actor: usize,
    kind: BotZoneActionKind,
    tile: Option<Seq<char>>,
    error: Seq<char>,
) -> Result<Option<EventView>, Seq<char>> {
    match tile {
        Some(t) => Ok(Some((actor, (kind, t), Seq::empty()))),
        None => Err(error),
    }
}

fn concat_line(prefix: &str, line: &Vec<char>) -> (r: String)
    ensures
        r@ == prefix@ + line@,
{
    let mut all = chars_of(prefix);
    let ghost start = all@;
    let mut i: usize = 0;
    while i < line.len()
        invariant
            i <= line@.len(),
            all@ == start + line@.take(i as int),
        decreases line@.len() - i,
    {
        all.push(line[i]);
        assert(all@ =~= start + line@.take(i + 1));
        i += 1;
    }
    assert(line@.take(line@.len() as int) =~= line@);
    string_from_chars(&all)
}

fn event_with(actor: usize, kind: BotZoneActionKind, tile: String) -> (r: BotZoneEvent)
    ensures
        event_view(r) == (actor, (kind, tile@), Seq::<(usize, (BotZoneActionKind, Seq<char>))>::empty()),
{
    let r = BotZoneEvent { actor, action: make_action(kind, tile), ignored_claims: Vec::new() };
    assert(event_view(r).2 =~= Seq::<(usize, (BotZoneActionKind, Seq<char>))>::empty());
    r
}

pub open spec fn opt_event_view(e: Option<BotZoneEvent>) -> Option<EventView> {
    match e {
        Some(ev) => Some(event_view(ev)),
        None => None,
    }
}

/// The characters of the action names of a round record.
proof fn lemma_event_names()
    ensures
        "摸牌"@ == seq!['摸', '牌'],
        "补花后摸牌"@ == seq!['补', '花', '后', '摸', '牌'],
        "打牌"@ == seq!['打', '牌'],
        "碰"@ == seq!['碰'],
        "吃"@ == seq!['吃'],
        "杠"@ == seq!['杠'],
        "明杠"@ == seq!['明', '杠'],
        "暗杠"@ == seq!['暗', '杠'],
        "补杠"@ == seq!['补', '杠'],
        "补杠牌"@ == seq!['补', '杠', '牌'],
        "胡"@ == seq!['胡'],
        "和"@ == seq!['和'],
        "自摸"@ == seq!['自', '摸'],
{
    reveal_strlit("摸牌");
    reveal_strlit("补花后摸牌");
    reveal_strlit("打牌");
    reveal_strlit("碰");
    reveal_strlit("吃");
    reveal_strlit("杠");
    reveal_strlit("明杠");
    reveal_strlit("暗杠");
    reveal_strlit("补杠");
    reveal_strlit("补杠牌");
    reveal_strlit("胡");
    reveal_strlit("和");
    reveal_strlit("自摸");
    assert("摸牌"@ =~= seq!['摸', '牌']);
    assert("补花后摸牌"@ =~= seq!['补', '花', '后', '摸', '牌']);
    assert("打牌"@ =~= seq!['打', '牌']);
    assert("碰"@ =~= seq!['碰']);
    assert("吃"@ =~= seq!['吃']);
    assert("杠"@ =~= seq!['杠']);
    assert("明杠"@ =~= seq!['明', '杠']);
    assert("暗杠"@ =~= seq!['暗', '杠']);
    assert("补杠"@ =~= seq!['补', '杠']);
    assert("补杠牌"@ =~= seq!['补', '杠', '牌']);
    assert("胡"@ =~= seq!['胡']);
    assert("和"@ =~= seq!['和']);
    assert("自摸"@ =~= seq!['自', '摸']);
}

fn parse_event(line: &Vec<char>) -> (r: Result<Option<BotZoneEvent>, String>)
    ensures
        match event_of_fields(line@) {
            Ok(ev) => r matches Ok(e) && opt_event_view(e) == ev,
            Err(msg) => r matches Err(err) && err@ == msg,
        },
{
    proof {
        lemma_event_names();
    }
    let parts = split_tab_line(line);
    if parts.len() < 3 {
        return Ok(None);
    }
    let actor = match parse_seat(&parts[0]) {
        Some(seat) => seat,
        None => return Err(concat_line("invalid actor in event: ", line)),
    };
    let name = &parts[1];
    let tiles = parse_tile_list(&parts[2]);
    let tile: Option<String> = if tiles.len() > 0 {
        Some(tiles[0].clone())
    } else {
        None
    };
    if chars_are(name, "摸牌") {
        return match tile {
            None => Ok(None),
            Some(t) => Ok(Some(event_with(actor, BotZoneActionKind::Draw, t))),
        };
    }
    if chars_are(name, "补花后摸牌") {
        return match tile {
            None => Err(concat_line("missing draw tile: ", line)),
            Some(t) => Ok(Some(event_with(actor, BotZoneActionKind::Draw, t))),
        };
    }
    if chars_are(name, "打牌") {
        return match tile {
            None => Err(concat_line("missing play tile: ", line)),
            Some(t) => Ok(Some(event_with(actor, BotZoneActionKind::Play, t))),
        };
    }
    if chars_are(name, "吃") {
        assert(name@.len() == 1 && name@[0] == '吃');
        return match middle_tile_key(&tiles) {
            None => Err(concat_line("missing chi middle tile: ", line)),
            Some(t) => Ok(Some(event_with(actor, BotZoneActionKind::Chi, t))),
        };
    }
    if chars_are(name, "胡") || chars_are(name, "和") || chars_are(name, "自摸") {
        assert((name@.len() == 1 && (name@[0] == '胡' || name@[0] == '和')) || (name@.len() == 2
            && name@[0] == '自'));
        let t = match tile {
            Some(t) => t,
            None => String::new(),
        };
        return Ok(Some(event_with(actor, BotZoneActionKind::Hu, t)));
    }
    let is_peng = chars_are(name, "碰");
    let is_gang = chars_are(name, "杠") || chars_are(name, "明杠");
    let is_an_gang = chars_are(name, "暗杠");
    let is_bu_gang = chars_are(name, "补杠") || chars_are(name, "补杠牌");
    if !(is_peng || is_gang || is_an_gang || is_bu_gang) {
        return Ok(None);
    }
    let named_list = if parts.len() > 3 {
        parse_tile_list(&parts[3])
    } else {
        Vec::new()
    };
    let named: Option<String> = if named_list.len() > 0 {
        Some(named_list[0].clone())
    } else {
        tile
    };
    if is_peng {
        match named {
            None => Err(concat_line("missing peng tile: ", line)),
            Some(t) => Ok(Some(event_with(actor, BotZoneActionKind::Peng, t))),
        }
    } else if is_gang {
        match named {
            None => Err(concat_line("missing gang tile: ", line)),
            Some(t) => Ok(Some(event_with(actor, BotZoneActionKind::Gang, t))),
        }
    } else if is_an_gang {
        match named {
            None => Err(concat_line("missing concealed kong tile: ", line)),
            Some(t) => Ok(Some(event_with(actor, BotZoneActionKind::AnGang, t))),
        }
    } else {
        match named {
            None => Err(concat_line("missing add kong tile: ", line)),
            Some(t) => Ok(Some(event_with(actor, BotZoneActionKind::BuGang, t))),
        }
    }
}


/// The integers among list parts, each trimmed and unquoted, in order.
pub open spec fn numbers_of_parts(parts: Seq<Seq<char>>) -> Seq<i64>
    decreases parts.len(),
{
    if parts.len() == 0 {
        Seq::empty()
    } else {
        let rest = numbers_of_parts(parts.drop_last());
        match parse_i64(trim_set(trim(parts.last()), seq!['\''])) {
            Some(v) => rest.push(v),
            None => rest,
        }
    }
}

/// The score changes of a header field written `[a, b, c, d]`.
pub open spec fn score_of_field(value: Seq<char>) -> Option<Seq<i64>> {
    let t = trim(value);
    if !(starts_with(t, seq!['[']) && ends_with(t, seq![']'])) {
        None
    } else {
        let nums = numbers_of_parts(split(trim_set(t, seq!['[', ']']), Separator::Char(',')));
        if nums.len() == 4 {
            Some(nums)
        } else {
            None
        }
    }
}

/// The score changes of the first header field, from `from` on, that gives four; zeros
/// where none does.
pub open spec fn header_score(header: Seq<Seq<char>>, from: int) -> Seq<i64>
    decreases header.len() - from,
{
    if from < 0 || from >= header.len() {
        seq![0i64, 0i64, 0i64, 0i64]
    } else {
        match score_of_field(header[from]) {
            Some(s) => s,
            None => header_score(header, from + 1),
        }
    }
}

/// The fan that a header field ends with, as in `['Seven Pairs-24']`.
pub open spec fn fan_of_field(value: Seq<char>) -> Option<i64> {
    let pieces = split(trim_set(trim(value), seq!['[', ']', '\'']), Separator::Char('-'));
    parse_i64(pieces.last())
}

/// The fans of the header fields that end with one, in order.
pub open spec fn fans_of(header: Seq<Seq<char>>) -> Seq<i64>
    decreases header.len(),
{
    if header.len() == 0 {
        Seq::empty()
    } else {
        let rest = fans_of(header.drop_last());
        match fan_of_field(header.last()) {
            Some(v) => rest.push(v),
            None => rest,
        }
    }
}

/// The greatest of `s`, zero where `s` is empty.
pub open spec fn max_or_zero(s: Seq<i64>) -> i64
    decreases s.len(),
{
    if s.len() == 0 {
        0
    } else if s.len() == 1 {
        s[0]
    } else {
        let m = max_or_zero(s.drop_last());
        if s.last() > m {
            s.last()
        } else {
            m
        }
    }
}

/// A header marks a drawn round with `荒庄` in one of its fields.
pub open spec fn header_drawn(header: Seq<Seq<char>>) -> bool {
    exists|i: int| 0 <= i < header.len() && contains_text(#[trigger] header[i], "荒庄"@)
}

fn parse_score_delta(header: &Vec<Vec<char>>) -> (r: [i64; 4])
    ensures
        r@ == header_score(views(header@), 0),
{
    let ghost hv = views(header@);
    let brackets: Vec<char> = vec!['[', ']'];
    let quote: Vec<char> = vec!['\''];
    proof {
        assert(brackets@ =~= seq!['[', ']']);
        assert(quote@ =~= seq!['\'']);
    }
    let mut i: usize = 0;
    while i < header.len()
        invariant
            hv == views(header@),
            brackets@ == seq!['[', ']'],
            quote@ == seq!['\''],
            i <= header@.len(),
            header_score(hv, 0) == header_score(hv, i as int),
        decreases header@.len() - i,
    {
        let t = trim_chars(&header[i]);
        if has_prefix(&t, "[") && has_suffix_char(&t, ']') {
            let inner = trim_set_chars(&t, &brackets);
            let parts = split_chars(&inner, Separator::Char(','));
            let ghost pv = views(parts@);
            let mut nums: Vec<i64> = Vec::new();
            let mut k: usize = 0;
            while k < parts.len()
                invariant
                    pv == views(parts@),
                    quote@ == seq!['\''],
                    k <= parts@.len(),
                    nums@ == numbers_of_parts(pv.take(k as int)),
                decreases parts@.len() - k,
            {
                proof {
                    assert(pv.take(k + 1).drop_last() =~= pv.take(k as int));
                    assert(pv.take(k + 1).last() == parts@[k as int]@);
                }
                let part = trim_set_chars(&trim_chars(&parts[k]), &quote);
                match parse_i64_chars(&part) {
                    Some(v) => {
                        nums.push(v);
                    },
                    None => {},
                }
                k += 1;
            }
            proof {
                assert(pv.take(pv.len() as int) =~= pv);
                reveal_strlit("[");
                assert("["@ =~= seq!['[']);
            }
            if nums.len() == 4 {
                let delta: [i64; 4] = [nums[0], nums[1], nums[2], nums[3]];
                assert(delta@ =~= nums@);
                return delta;
            }
        } else {
            proof {
                reveal_strlit("[");
                assert("["@ =~= seq!['[']);
            }
        }
        i += 1;
    }
    let zeros: [i64; 4] = [0, 0, 0, 0];
    assert(zeros@ =~= seq![0i64, 0i64, 0i64, 0i64]);
    zeros
}

fn parse_fan(header: &Vec<Vec<char>>) -> (r: i64)
    ensures
        r == max_or_zero(fans_of(views(header@))),
{
    let ghost hv = views(header@);
    let marks: Vec<char> = vec!['[', ']', '\''];
    assert(marks@ =~= seq!['[', ']', '\'']);
    let mut fans: Vec<i64> = Vec::new();
    let mut i: usize = 0;
    while i < header.len()
        invariant
            hv == views(header@),
            marks@ == seq!['[', ']', '\''],
            i <= header@.len(),
            fans@ == fans_of(hv.take(i as int)),
        decreases header@.len() - i,
    {
        proof {
            assert(hv.take(i + 1).drop_last() =~= hv.take(i as int));
            assert(hv.take(i + 1).last() == header@[i as int]@);
        }
        let inner = trim_set_chars(&trim_chars(&header[i]), &marks);
        let pieces = split_chars(&inner, Separator::Char('-'));
        proof {
            crate::scan::lemma_split_nonempty(inner@, Separator::Char('-'));
        }
        let last = &pieces[pieces.len() - 1];
        match parse_i64_chars(last) {
            Some(v) => {
                fans.push(v);
            },
            None => {},
        }
        i += 1;
    }
    assert(hv.take(hv.len() as int) =~= hv);
    let mut best: i64 = 0;
    let mut k: usize = 0;
    while k < fans.len()
        invariant
            k <= fans@.len(),
            best == max_or_zero(fans@.take(k as int)),
        decreases fans@.len() - k,
    {
        proof {
            assert(fans@.take(k + 1).drop_last() =~= fans@.take(k as int));
        }
        if k == 0 || fans[k] > best {
            best = fans[k];
        }
        k += 1;
    }
    assert(fans@.take(fans@.len() as int) =~= fans@);
    best
}

fn is_drawn_header(header: &Vec<Vec<char>>) -> (r: bool)
    ensures
        r == header_drawn(views(header@)),
{
    let mut i: usize = 0;
    while i < header.len()
        invariant
            i <= header@.len(),
            forall|k: int| 0 <= k < i ==> !contains_text(#[trigger] views(header@)[k], "荒庄"@),
        decreases header@.len() - i,
    {
        if has_text(&header[i], "荒庄") {
            assert(contains_text(views(header@)[i as int], "荒庄"@));
            return true;
        }
        i += 1;
    }
    false
}

/// The dealt tiles of the deal lines, lines `2` to `k`, or the error of the first bad line.
pub open spec fn deals_after(lines: Seq<Seq<char>>, k: int) -> Result<Seq<Seq<Seq<char>>>, Seq<char>>
    decreases k,
{
    if k <= 2 {
        Ok(Seq::new(4, |s: int| Seq::<Seq<char>>::empty()))
    } else {
        match deals_after(lines, k - 1) {
            Err(e) => Err(e),
            Ok(deals) => {
                let line = lines[k - 1];
                let parts = tab_fields(line);
                match seat_of(parts[0]) {
                    None => Err("invalid deal line: "@ + line),
                    Some(seat) => Ok(
                        deals.update(
                            seat as int,
                            tile_list_of(
                                if parts.len() > 1 {
                                    parts[1]
                                } else {
                                    Seq::empty()
                                },
                            ),
                        ),
                    ),
                }
            },
        }
    }
}

/// The events of the event lines, lines `6` to `k`, or the error of the first bad line.
pub open spec fn events_after(lines: Seq<Seq<char>>, k: int) -> Result<Seq<EventView>, Seq<char>>
    decreases k,
{
    if k <= 6 {
        Ok(Seq::empty())
    } else {
        match events_after(lines, k - 1) {
            Err(e) => Err(e),
            Ok(events) => match event_of_fields(lines[k - 1]) {
                Err(e) => Err(e),
                Ok(None) => Ok(events),
                Ok(Some(ev)) => Ok(events.push(ev)),
            },
        }
    }
}

/// A round record read into `m` with id `match_id`: wind, dealer and end from the header,
/// no scores before, the dealt tiles and the events.
pub open spec fn round_matches(
    m: BotZoneMatch,
    lines: Seq<Seq<char>>,
    match_id: Seq<char>,
    deals: Seq<Seq<Seq<char>>>,
    events: Seq<EventView>,
) -> bool {
    let header = tab_fields(lines[1]);
    let score = header_score(header, 0);
    &&& m.match_id@ == match_id
    &&& m.round_wind@ == header_wind(header[0])
    &&& m.dealer_seat == (if header.len() > 1 && seat_of(header[1]) is Some {
        seat_of(header[1])->0
    } else {
        0
    })
    &&& m.cumulative_scores@ == seq![0i64, 0i64, 0i64, 0i64]
    &&& forall|s: int| 0 <= s < 4 ==> string_views(#[trigger] m.deals@[s]@) == deals[s]
    &&& m.events@.map_values(|e: BotZoneEvent| event_view(e)) == events
    &&& if header_drawn(header) {
        m.result matches BotZoneResult::Huang { score_delta } && score_delta@ == score
    } else {
        m.result matches BotZoneResult::Hu { fan, description, score_delta } && fan == max_or_zero(
            fans_of(header),
        ) && description@ == header.last() && score_delta@ == score
    }
}

proof fn lemma_events_after_error(lines: Seq<Seq<char>>, n: int, m: int)
    requires
        n <= m,
        events_after(lines, n) is Err,
    ensures
        events_after(lines, m) == events_after(lines, n),
    decreases m - n,
{
    if n < m {
        lemma_events_after_error(lines, n, m - 1);
    }
}

/// Reads a round record from its trimmed, non-blank lines (a source line, a header, four deal
/// lines, then events), under the id `match_id`.
pub fn parse_round_lines(lines: &Vec<Vec<char>>, match_id: String) -> (r: Result<BotZoneMatch, String>)
    requires
        lines@.len() >= 6,
    ensures
        ({
            let lv = views(lines@);
            match deals_after(lv, 6) {
                Err(e) => r matches Err(err) && err@ == e,
                Ok(deals) => match events_after(lv, lv.len() as int) {
                    Err(e) => r matches Err(err) && err@ == e,
                    Ok(events) => r matches Ok(m) && round_matches(m, lv, match_id@, deals, events),
                },
            }
        }),
{
    let ghost lv = views(lines@);
    let header = split_tab_line(&lines[1]);
    proof {
        crate::scan::lemma_split_nonempty(lines@[1]@, Separator::Char('\t'));
        assert(views(header@).len() == header@.len());
    }
    let round_wind = parse_wind(&header[0]);
    let dealer_seat = if header.len() > 1 {
        match parse_seat(&header[1]) {
            Some(seat) => seat,
            None => 0,
        }
    } else {
        0
    };
    let result = if is_drawn_header(&header) {
        BotZoneResult::Huang { score_delta: parse_score_delta(&header) }
    } else {
        let fan = parse_fan(&header);
        let description = string_from_chars(&header[header.len() - 1]);
        BotZoneResult::Hu { fan, description, score_delta: parse_score_delta(&header) }
    };
    let mut deals: [Vec<String>; 4] = [Vec::new(), Vec::new(), Vec::new(), Vec::new()];
    proof {
        assert(Seq::new(4, |s: int| string_views(deals@[s]@)) =~~= deals_after(lv, 2)->Ok_0);
    }
    let mut k: usize = 2;
    while k < 6
        invariant
            lv == views(lines@),
            lines@.len() >= 6,
            2 <= k <= 6,
            deals_after(lv, k as int) == Ok::<Seq<Seq<Seq<char>>>, Seq<char>>(
                Seq::new(4, |s: int| string_views(deals@[s]@)),
            ),
        decreases 6 - k,
    {
        let line = &lines[k];
        let parts = split_tab_line(line);
        proof {
            crate::scan::lemma_split_nonempty(line@, Separator::Char('\t'));
            assert(views(parts@).len() == parts@.len());
        }
        let seat = match parse_seat(&parts[0]) {
            Some(seat) => seat,
            None => {
                proof {
                    lemma_deals_after_error(lv, k + 1, 6);
                }
                return Err(concat_line("invalid deal line: ", line));
            },
        };
        let tiles = if parts.len() > 1 {
            parse_tile_list(&parts[1])
        } else {
            let empty: Vec<char> = Vec::new();
            parse_tile_list(&empty)
        };
        let ghost before = Seq::new(4, |s: int| string_views(deals@[s]@));
        let ghost tv = string_views(tiles@);
        deals.set(seat, tiles);
        proof {
            assert(Seq::new(4, |s: int| string_views(deals@[s]@)) =~~= before.update(seat as int, tv));
        }
        k += 1;
    }
    let ghost deal_views = Seq::new(4, |s: int| string_views(deals@[s]@));
    let mut events: Vec<BotZoneEvent> = Vec::new();
    assert(events@.map_values(|e: BotZoneEvent| event_view(e)) =~= Seq::<EventView>::empty());
    let mut i: usize = 6;
    while i < lines.len()
        invariant
            lv == views(lines@),
            deals_after(lv, 6) == Ok::<Seq<Seq<Seq<char>>>, Seq<char>>(deal_views),
            6 <= i <= lines@.len(),
            events_after(lv, i as int) == Ok::<Seq<EventView>, Seq<char>>(
                events@.map_values(|e: BotZoneEvent| event_view(e)),
            ),
        decreases lines@.len() - i,
    {
        let ghost before = events@.map_values(|e: BotZoneEvent| event_view(e));
        match parse_event(&lines[i]) {
            Ok(Some(event)) => {
                events.push(event);
                assert(events@.map_values(|e: BotZoneEvent| event_view(e)) =~= before.push(event_view(event)));
            },
            Ok(None) => {},
            Err(e) => {
                proof {
                    lemma_events_after_error(lv, i + 1, lv.len() as int);
                }
                return Err(e);
            },
        }
        i += 1;
    }
    let m = BotZoneMatch {
        match_id,
        round_wind,
        dealer_seat,
        cumulative_scores: [0, 0, 0, 0],
        deals,
        events,
        result,
    };
    proof {
        assert(m.cumulative_scores@ =~= seq![0i64, 0i64, 0i64, 0i64]);
        assert(views(header@) == tab_fields(lv[1]));
    }
    Ok(m)
}

proof fn lemma_deals_after_error(lines: Seq<Seq<char>>, n: int, m: int)
    requires
        n <= m,
        deals_after(lines, n) is Err,
    ensures
        deals_after(lines, m) == deals_after(lines, n),
    decreases m - n,
{
    if n < m {
        lemma_deals_after_error(lines, n, m - 1);
    }
}


/// The characters of `s` after its last `c`, all of `s` where there is none.
pub open spec fn after_last(s: Seq<char>, c: char) -> Seq<char>
    decreases s.len(),
{
    if s.len() == 0 {
        s
    } else if s.last() == c {
        Seq::empty()
    } else {
        after_last(s.drop_last(), c).push(s.last())
    }
}

/// The characters of `s` before its last `c`, if it holds one.
pub open spec fn before_last(s: Seq<char>, c: char) -> Option<Seq<char>>
    decreases s.len(),
{
    if s.len() == 0 {
        None
    } else if s.last() == c {
        Some(s.drop_last())
    } else {
        before_last(s.drop_last(), c)
    }
}

/// The stem of a file name: the part before its last `.`, or the whole name where it holds
/// no `.` after its first character.
pub open spec fn stem_of_name(name: Seq<char>) -> Seq<char> {
    match before_last(name, '.') {
        Some(b) => if b.len() > 0 {
            b
        } else {
            name
        },
        None => name,
    }
}

/// Whether the path is one whose file name is plainly what follows its last `/`: it holds
/// no `\` and no `:`, and that last part is neither empty, `.` nor `..`.
pub open spec fn plain_path(path: Seq<char>) -> bool {
    let name = after_last(path, '/');
    &&& !path.contains('\\')
    &&& !path.contains(':')
    &&& name.len() > 0
    &&& name != seq!['.']
    &&& name != seq!['.', '.']
}

/// `std::path::Path::file_stem` of the path `path`, as text. How a path splits into
/// components depends on the platform, so the result is claimed only of a path that holds
/// neither `\` nor `:` and does not end in `/`, `.` or `..` as its last part: then its file
/// name is what follows the last `/`, and its stem is, as the documentation of `file_stem`
/// says, the whole name where the name holds no `.` after its first character, else the part
/// before the last `.`.
#[verifier::external_body]
fn file_stem(path: &str) -> (r: Option<String>)
    ensures
        plain_path(path@) ==> opt_view(r) == Some(stem_of_name(after_last(path@, '/'))),
{
    match std::path::Path::new(path).file_stem() {
        Some(stem) => stem.to_str().map(|text| text.to_string()),
        None => None,
    }
}

/// The id of a round record: the stem of its source line where that stem is not empty, else
/// the stem of the source name, else `unknown`.
pub open spec fn match_id_of(first_stem: Option<Seq<char>>, source_stem: Option<Seq<char>>) -> Seq<char> {
    match first_stem {
        Some(s) if s.len() > 0 => s,
        _ => match source_stem {
            Some(s) => s,
            None => "unknown"@,
        },
    }
}

pub fn choose_match_id(first_stem: Option<String>, source_stem: Option<String>) -> (r: String)
    ensures
        r@ == match_id_of(opt_view(first_stem), opt_view(source_stem)),
{
    match first_stem {
        Some(s) => if chars_of(s.as_str()).len() > 0 {
            return s;
        },
        None => {},
    }
    match source_stem {
        Some(s) => s,
        None => owned("unknown"),
    }
}

/// Reads a round record: a source line, a tab-separated header (wind, dealer, fan entries,
/// score changes, description), four deal lines, then event lines. The record is refused with
/// fewer than six lines; its id comes from the stems of the source line and the source name.
pub fn parse_match_text(raw: &str, source_name: &str) -> (r: Result<BotZoneMatch, String>)
    ensures
        ({
            let lv = content_lines(raw@);
            if lv.len() < 6 {
                r matches Err(err) && err@ == "expected source, header, four deal lines"@
            } else {
                match deals_after(lv, 6) {
                    Err(e) => r matches Err(err) && err@ == e,
                    Ok(deals) => match events_after(lv, lv.len() as int) {
                        Err(e) => r matches Err(err) && err@ == e,
                        Ok(events) => r matches Ok(m) && round_matches(m, lv, m.match_id@, deals, events) && (
                        plain_path(lv[0]) ==> m.match_id@ == stem_of_name(after_last(lv[0], '/'))),
                    },
                }
            }
        }),
{
    let v = chars_of(raw);
    let lines = content_lines_of(&v);
    if lines.len() < 6 {
        return Err(owned("expected source, header, four deal lines"));
    }
    let first = string_from_chars(&lines[0]);
    let first_stem = file_stem(first.as_str());
    let source_stem = file_stem(source_name);
    let match_id = choose_match_id(first_stem, source_stem);
    parse_round_lines(&lines, match_id)
}

} // verus!
