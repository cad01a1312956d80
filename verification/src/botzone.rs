use vstd::prelude::*;

use crate::scan::{
    after_prefix, chars_are, content_lines, content_lines_of, has_prefix, is_ws, parse_i64,
    parse_i64_chars, parse_usize, parse_usize_chars, split_words, starts_with, strip_prefix,
    trim, trim_chars, views, words,
};
use crate::text::{chars_of, owned, push_char, string_from_chars};

verus! {

/// The kind of a recorded action.
#[derive(Debug, Clone, Copy, PartialEq, Eq, Structural)]
pub enum BotZoneActionKind {
    Draw,
    Play,
    Chi,
    Peng,
    Gang,
    AnGang,
    BuGang,
    Hu,
}

/// A recorded action and the tile it names (for a chow, the middle tile of the run).
#[derive(Debug, Clone, PartialEq, Eq)]
pub enum BotZoneAction {
    Draw { tile_key: String },
    Play { tile_key: String },
    Chi { middle_tile_key: String },
    Peng { tile_key: String },
    Gang { tile_key: String },
    AnGang { tile_key: String },
    BuGang { tile_key: String },
    Hu { tile_key: String },
}

/// A claim that a seat could have made and let pass.
#[derive(Debug, Clone, PartialEq, Eq)]
pub struct BotZoneIgnoredClaim {
    pub actor: usize,
    pub action: BotZoneAction,
}

/// One event of a record: who acted, what, and the claims that others let pass.
#[derive(Debug, Clone, PartialEq, Eq)]
pub struct BotZoneEvent {
    pub actor: usize,
    pub action: BotZoneAction,
    pub ignored_claims: Vec<BotZoneIgnoredClaim>,
}

/// How a recorded round ended: a win with its fan and description, or a drawn round.
#[derive(Debug, Clone, PartialEq, Eq)]
pub enum BotZoneResult {
    Hu { fan: i64, description: String, score_delta: [i64; 4] },
    Huang { score_delta: [i64; 4] },
}

/// One recorded round: its id, wind, dealer, scores before it, dealt hands, events and end.
#[derive(Debug, Clone, PartialEq, Eq)]
pub struct BotZoneMatch {
    pub match_id: String,
    pub round_wind: String,
    pub dealer_seat: usize,
    pub cumulative_scores: [i64; 4],
    pub deals: [Vec<String>; 4],
    pub events: Vec<BotZoneEvent>,
    pub result: BotZoneResult,
}

/// Why a record could not be read.
#[derive(Debug, Clone, PartialEq, Eq)]
pub struct BotZoneParseError {
    message: String,
}

impl BotZoneParseError {
    pub fn new(message: String) -> (r: Self)
        ensures
            r.view() == message@,
    {
        BotZoneParseError { message }
    }

    pub closed spec fn view(&self) -> Seq<char> {
        self.message@
    }

    /// The message of the error.
    pub fn message(&self) -> (r: String)
        ensures
            r@ == self.view(),
    {
        self.message.clone()
    }
}

/// What an action says: its kind and its tile.
pub open spec fn action_view(a: BotZoneAction) -> (BotZoneActionKind, Seq<char>) {
    match a {
        BotZoneAction::Draw { tile_key } => (BotZoneActionKind::Draw, tile_key@),
        BotZoneAction::Play { tile_key } => (BotZoneActionKind::Play, tile_key@),
        BotZoneAction::Chi { middle_tile_key } => (BotZoneActionKind::Chi, middle_tile_key@),
        BotZoneAction::Peng { tile_key } => (BotZoneActionKind::Peng, tile_key@),
        BotZoneAction::Gang { tile_key } => (BotZoneActionKind::Gang, tile_key@),
        BotZoneAction::AnGang { tile_key } => (BotZoneActionKind::AnGang, tile_key@),
        BotZoneAction::BuGang { tile_key } => (BotZoneActionKind::BuGang, tile_key@),
        BotZoneAction::Hu { tile_key } => (BotZoneActionKind::Hu, tile_key@),
    }
}

/// The action of the given kind that names `tile`.
pub fn make_action(kind: BotZoneActionKind, tile: String) -> (r: BotZoneAction)
    ensures
        action_view(r) == (kind, tile@),
{
    match kind {
        BotZoneActionKind::Draw => BotZoneAction::Draw { tile_key: tile },
        BotZoneActionKind::Play => BotZoneAction::Play { tile_key: tile },
        BotZoneActionKind::Chi => BotZoneAction::Chi { middle_tile_key: tile },
        BotZoneActionKind::Peng => BotZoneAction::Peng { tile_key: tile },
        BotZoneActionKind::Gang => BotZoneAction::Gang { tile_key: tile },
        BotZoneActionKind::AnGang => BotZoneAction::AnGang { tile_key: tile },
        BotZoneActionKind::BuGang => BotZoneAction::BuGang { tile_key: tile },
        BotZoneActionKind::Hu => BotZoneAction::Hu { tile_key: tile },
    }
}

/// What an event says: actor, action, and each let-pass claim's seat and action.
pub type EventView = (usize, (BotZoneActionKind, Seq<char>), Seq<(usize, (BotZoneActionKind, Seq<char>))>);

pub open spec fn event_view(e: BotZoneEvent) -> EventView {
    (
        e.actor,
        action_view(e.action),
        e.ignored_claims@.map_values(|c: BotZoneIgnoredClaim| (c.actor, action_view(c.action))),
    )
}

/// The suit of a record's tile letter: `W` characters, `T` bamboos, `B` dots.
pub open spec fn suit_of_letter(c: char) -> Option<char> {
    if c == 'W' {
        Some('w')
    } else if c == 'T' {
        Some('t')
    } else if c == 'B' {
        Some('b')
    } else {
        None
    }
}

pub open spec fn is_rank_char(c: char) -> bool {
    49 <= c as u32 <= 57
}

/// The tile key that a record's tile code names: winds `F1` east, `F2` north, `F3` west,
/// `F4` south; dragons `J1` red, `J2` green, `J3` white; suited tiles a suit letter and a rank.
pub open spec fn tile_of_code(raw: Seq<char>) -> Option<Seq<char>> {
    let t = trim(raw);
    if t == "F1"@ {
        Some("east"@)
    } else if t == "F2"@ {
        Some("north"@)
    } else if t == "F3"@ {
        Some("west"@)
    } else if t == "F4"@ {
        Some("south"@)
    } else if t == "J1"@ {
        Some("red"@)
    } else if t == "J2"@ {
        Some("green"@)
    } else if t == "J3"@ {
        Some("white"@)
    } else if t.len() == 2 && suit_of_letter(t[0]) is Some && is_rank_char(t[1]) {
        Some(seq![suit_of_letter(t[0])->0, t[1]])
    } else {
        None
    }
}

pub open spec fn opt_view(o: Option<String>) -> Option<Seq<char>> {
    match o {
        Some(s) => Some(s@),
        None => None,
    }
}

pub(crate) fn tile_of_code_chars(raw: &Vec<char>) -> (r: Option<String>)
    ensures
        opt_view(r) == tile_of_code(raw@),
{
    let t = trim_chars(raw);
    if chars_are(&t, "F1") {
        return Some(owned("east"));
    }
    if chars_are(&t, "F2") {
        return Some(owned("north"));
    }
    if chars_are(&t, "F3") {
        return Some(owned("west"));
    }
    if chars_are(&t, "F4") {
        return Some(owned("south"));
    }
    if chars_are(&t, "J1") {
        return Some(owned("red"));
    }
    if chars_are(&t, "J2") {
        return Some(owned("green"));
    }
    if chars_are(&t, "J3") {
        return Some(owned("white"));
    }
    if t.len() != 2 {
        return None;
    }
    let suit = if t[0] == 'W' {
        'w'
    } else if t[0] == 'T' {
        't'
    } else if t[0] == 'B' {
        'b'
    } else {
        return None;
    };
    let rank = t[1];
    let rv = rank as u32;
    if !(49 <= rv && rv <= 57) {
        return None;
    }
    let mut key = String::new();
    push_char(&mut key, suit);
    push_char(&mut key, rank);
    assert(key@ =~= seq![suit, rank]);
    Some(key)
}

/// The tile key that a record's tile code names.
pub fn map_botzone_tile(raw: &str) -> (r: Option<String>)
    ensures
        opt_view(r) == tile_of_code(raw@),
{
    let v = chars_of(raw);
    tile_of_code_chars(&v)
}

/// The kind that an action word names.
pub open spec fn action_kind_of(word: Seq<char>) -> Option<BotZoneActionKind> {
    if word == "Draw"@ || word == "DRAW"@ || word == "Mo"@ {
        Some(BotZoneActionKind::Draw)
    } else if word == "Play"@ || word == "PLAY"@ || word == "打出"@ {
        Some(BotZoneActionKind::Play)
    } else if word == "Chi"@ || word == "CHI"@ {
        Some(BotZoneActionKind::Chi)
    } else if word == "Peng"@ || word == "PENG"@ {
        Some(BotZoneActionKind::Peng)
    } else if word == "Gang"@ || word == "GANG"@ {
        Some(BotZoneActionKind::Gang)
    } else if word == "AnGang"@ || word == "ANGANG"@ {
        Some(BotZoneActionKind::AnGang)
    } else if word == "BuGang"@ || word == "BUGANG"@ {
        Some(BotZoneActionKind::BuGang)
    } else if word == "Hu"@ || word == "HU"@ {
        Some(BotZoneActionKind::Hu)
    } else {
        None
    }
}

fn action_kind_of_chars(word: &Vec<char>) -> (r: Option<BotZoneActionKind>)
    ensures
        r == action_kind_of(word@),
{
    if chars_are(word, "Draw") || chars_are(word, "DRAW") || chars_are(word, "Mo") {
        Some(BotZoneActionKind::Draw)
    } else if chars_are(word, "Play") || chars_are(word, "PLAY") || chars_are(word, "打出") {
        Some(BotZoneActionKind::Play)
    } else if chars_are(word, "Chi") || chars_are(word, "CHI") {
        Some(BotZoneActionKind::Chi)
    } else if chars_are(word, "Peng") || chars_are(word, "PENG") {
        Some(BotZoneActionKind::Peng)
    } else if chars_are(word, "Gang") || chars_are(word, "GANG") {
        Some(BotZoneActionKind::Gang)
    } else if chars_are(word, "AnGang") || chars_are(word, "ANGANG") {
        Some(BotZoneActionKind::AnGang)
    } else if chars_are(word, "BuGang") || chars_are(word, "BUGANG") {
        Some(BotZoneActionKind::BuGang)
    } else if chars_are(word, "Hu") || chars_are(word, "HU") {
        Some(BotZoneActionKind::Hu)
    } else {
        None
    }
}

/// Reads `Player <seat>` at `index`: the seat and the index after it.
pub open spec fn player_at(tokens: Seq<Seq<char>>, index: int) -> Result<(usize, int), Seq<char>> {
    if !(0 <= index < tokens.len() && tokens[index] == "Player"@) {
        Err("expected Player token"@)
    } else if !(index + 1 < tokens.len() && parse_usize(tokens[index + 1]) is Some) {
        Err("expected player seat"@)
    } else if parse_usize(tokens[index + 1])->0 >= 4 {
        Err("player seat out of range"@)
    } else {
        Ok((parse_usize(tokens[index + 1])->0, index + 2))
    }
}

/// Reads `<action> <tile>` at `index`: the action and the index after it.
pub open spec fn action_at(tokens: Seq<Seq<char>>, index: int) -> Result<
    ((BotZoneActionKind, Seq<char>), int),
    Seq<char>,
> {
    if !(0 <= index < tokens.len()) {
        Err("missing action"@)
    } else {
        let tile = if index + 1 < tokens.len() {
            tile_of_code(tokens[index + 1])
        } else {
            None
        };
        match tile {
            None => Err("missing or invalid tile"@),
            Some(t) => match action_kind_of(tokens[index]) {
                Some(kind) => Ok(((kind, t), index + 2)),
                None => Err("unknown action "@ + tokens[index]),
            },
        }
    }
}

/// Reads the `Ignore Player <seat> <action> <tile>` groups from `index` to the end.
pub open spec fn ignored_from(tokens: Seq<Seq<char>>, index: int) -> Result<
    Seq<(usize, (BotZoneActionKind, Seq<char>))>,
    Seq<char>,
>
    decreases tokens.len() - index,
{
    if index < 0 || index >= tokens.len() {
        Ok(Seq::empty())
    } else if tokens[index] != "Ignore"@ {
        Err("unexpected token '"@ + tokens[index] + "' in event line"@)
    } else {
        match player_at(tokens, index + 1) {
            Err(e) => Err(e),
            Ok((actor, _)) => match action_at(tokens, index + 3) {
                Err(e) => Err(e),
                Ok((action, _)) => match ignored_from(tokens, index + 5) {
                    Err(e) => Err(e),
                    Ok(rest) => Ok(seq![(actor, action)] + rest),
                },
            },
        }
    }
}

/// Reads an event line: `Player <seat> <action> <tile>`, then any ignored claims.
pub open spec fn event_of_line(line: Seq<char>) -> Result<EventView, Seq<char>> {
    let tokens = words(line);
    match player_at(tokens, 0) {
        Err(e) => Err(e),
        Ok((actor, _)) => match action_at(tokens, 2) {
            Err(e) => Err(e),
            Ok((action, _)) => match ignored_from(tokens, 4) {
                Err(e) => Err(e),
                Ok(ignored) => Ok((actor, action, ignored)),
            },
        },
    }
}

fn concat3(a: &str, b: &Vec<char>, c: &str) -> (r: String)
    ensures
        r@ == a@ + b@ + c@,
{
    let av = chars_of(a);
    let cv = chars_of(c);
    let mut all: Vec<char> = Vec::new();
    let mut i: usize = 0;
    while i < av.len()
        invariant
            i <= av@.len(),
            all@ == av@.take(i as int),
        decreases av@.len() - i,
    {
        all.push(av[i]);
        assert(all@ =~= av@.take(i + 1));
        i += 1;
    }
    let mut j: usize = 0;
    while j < b.len()
        invariant
            i == av@.len(),
            j <= b@.len(),
            all@ == av@ + b@.take(j as int),
        decreases b@.len() - j,
    {
        all.push(b[j]);
        assert(all@ =~= av@ + b@.take(j + 1));
        j += 1;
    }
    let mut k: usize = 0;
    while k < cv.len()
        invariant
            k <= cv@.len(),
            all@ == av@ + b@ + cv@.take(k as int),
        decreases cv@.len() - k,
    {
        all.push(cv[k]);
        assert(all@ =~= av@ + b@ + cv@.take(k + 1));
        k += 1;
    }
    assert(av@.take(av@.len() as int) =~= av@);
    assert(b@.take(b@.len() as int) =~= b@);
    assert(cv@.take(cv@.len() as int) =~= cv@);
    string_from_chars(&all)
}

fn player_tokens(tokens: &Vec<Vec<char>>, index: usize) -> (r: Result<(usize, usize), BotZoneParseError>)
    ensures
        match player_at(views(tokens@), index as int) {
            Ok((seat, next)) => r matches Ok((s, n)) && s == seat && n == next,
            Err(e) => r matches Err(err) && err.view() == e,
        },
{
    if !(index < tokens.len() && chars_are(&tokens[index], "Player")) {
        return Err(BotZoneParseError::new(owned("expected Player token")));
    }
    let seat = if index + 1 < tokens.len() {
        parse_usize_chars(&tokens[index + 1])
    } else {
        None
    };
    let seat = match seat {
        Some(s) => s,
        None => return Err(BotZoneParseError::new(owned("expected player seat"))),
    };
    if seat >= 4 {
        return Err(BotZoneParseError::new(owned("player seat out of range")));
    }
    Ok((seat, index + 2))
}

fn action_tokens(tokens: &Vec<Vec<char>>, index: usize) -> (r: Result<(BotZoneAction, usize), BotZoneParseError>)
    ensures
        match action_at(views(tokens@), index as int) {
            Ok((action, next)) => r matches Ok((a, n)) && action_view(a) == action && n == next,
            Err(e) => r matches Err(err) && err.view() == e,
        },
{
    if index >= tokens.len() {
        return Err(BotZoneParseError::new(owned("missing action")));
    }
    let tile = if index + 1 < tokens.len() {
        tile_of_code_chars(&tokens[index + 1])
    } else {
        None
    };
    let tile = match tile {
        Some(t) => t,
        None => return Err(BotZoneParseError::new(owned("missing or invalid tile"))),
    };
    let kind = match action_kind_of_chars(&tokens[index]) {
        Some(k) => k,
        None => {
            proof {
                reveal_strlit("");
                assert("unknown action "@ + tokens@[index as int]@ + ""@ =~= "unknown action "@
                    + tokens@[index as int]@);
            }
            return Err(BotZoneParseError::new(concat3("unknown action ", &tokens[index], "")));
        },
    };
    Ok((make_action(kind, tile), index + 2))
}

/// The claims that seats let pass, as an event line lists them after its action.
pub open spec fn ignored_views(claims: Seq<BotZoneIgnoredClaim>) -> Seq<(usize, (BotZoneActionKind, Seq<char>))> {
    claims.map_values(|c: BotZoneIgnoredClaim| (c.actor, action_view(c.action)))
}

fn event_of_words(tokens: &Vec<Vec<char>>) -> (r: Result<BotZoneEvent, BotZoneParseError>)
    ensures
        ({
            let t = views(tokens@);
            match player_at(t, 0) {
                Err(e) => r matches Err(err) && err.view() == e,
                Ok((actor, _)) => match action_at(t, 2) {
                    Err(e) => r matches Err(err) && err.view() == e,
                    Ok((action, _)) => match ignored_from(t, 4) {
                        Err(e) => r matches Err(err) && err.view() == e,
                        Ok(ignored) => r matches Ok(ev) && event_view(ev) == (actor, action, ignored),
                    },
                },
            }
        }),
{
    let ghost t = views(tokens@);
    let (actor, index) = match player_tokens(tokens, 0) {
        Ok(p) => p,
        Err(e) => return Err(e),
    };
    let (action, mut index) = match action_tokens(tokens, index) {
        Ok(p) => p,
        Err(e) => return Err(e),
    };
    let mut ignored_claims: Vec<BotZoneIgnoredClaim> = Vec::new();
    while index < tokens.len()
        invariant
            t == views(tokens@),
            4 <= index,
            player_at(t, 0) == Ok::<(usize, int), Seq<char>>((actor, 2)),
            action_at(t, 2) == Ok::<((BotZoneActionKind, Seq<char>), int), Seq<char>>((action_view(action), 4)),
            ignored_from(t, 4) == match ignored_from(t, index as int) {
                Ok(rest) => Ok(ignored_views(ignored_claims@) + rest),
                Err(e) => Err(e),
            },
        decreases tokens@.len() - index,
    {
        if !chars_are(&tokens[index], "Ignore") {
            return Err(BotZoneParseError::new(concat3("unexpected token '", &tokens[index], "' in event line")));
        }
        let (ignored_actor, after_player) = match player_tokens(tokens, index + 1) {
            Ok(p) => p,
            Err(e) => return Err(e),
        };
        let (ignored_action, after_action) = match action_tokens(tokens, after_player) {
            Ok(p) => p,
            Err(e) => return Err(e),
        };
        let ghost before = ignored_claims@;
        ignored_claims.push(BotZoneIgnoredClaim { actor: ignored_actor, action: ignored_action });
        proof {
            assert(ignored_views(ignored_claims@) =~= ignored_views(before).push(
                (ignored_actor, action_view(ignored_action)),
            ));
            match ignored_from(t, after_action as int) {
                Ok(rest) => {
                    assert(ignored_views(before) + (seq![(ignored_actor, action_view(ignored_action))] + rest)
                        =~= ignored_views(ignored_claims@) + rest);
                },
                Err(e) => {},
            }
        }
        index = after_action;
    }
    assert(ignored_views(ignored_claims@) + Seq::empty() =~= ignored_views(ignored_claims@));
    Ok(BotZoneEvent { actor, action, ignored_claims })
}

/// Reads one event line of a record.
pub fn parse_event_line(line: &str) -> (r: Result<BotZoneEvent, BotZoneParseError>)
    ensures
        match event_of_line(line@) {
            Ok(ev) => r matches Ok(e) && event_view(e) == ev,
            Err(msg) => r matches Err(err) && err.view() == msg,
        },
{
    let v = chars_of(line);
    let tokens = split_words(&v);
    event_of_words(&tokens)
}


/// The round wind that a `Wind` line names, by tile code or by name, or `1` for north;
/// east where it names none.
pub open spec fn wind_of(raw: Seq<char>) -> Seq<char> {
    let t = trim(raw);
    if t == "F1"@ || t == "east"@ || t == "East"@ {
        "east"@
    } else if t == "F2"@ || t == "north"@ || t == "North"@ || t == "1"@ {
        "north"@
    } else if t == "F3"@ || t == "west"@ || t == "West"@ {
        "west"@
    } else if t == "F4"@ || t == "south"@ || t == "South"@ {
        "south"@
    } else {
        "east"@
    }
}

/// A `Wind` line names a wind by its tile code or its English name in either case: F1, east,
/// East; F2, north, North, and also `1`; F3, west, West; F4, south, South. It reads as a wind
/// exactly when its trimmed text is one of that wind's names, and as east when it is none of
/// them.
pub proof fn wind_lines_follow_their_names(raw: Seq<char>)
    ensures
        wind_of(raw) == "north"@ <==> (trim(raw) == "F2"@ || trim(raw) == "north"@ || trim(raw) == "North"@
            || trim(raw) == "1"@),
        wind_of(raw) == "west"@ <==> (trim(raw) == "F3"@ || trim(raw) == "west"@ || trim(raw) == "West"@),
        wind_of(raw) == "south"@ <==> (trim(raw) == "F4"@ || trim(raw) == "south"@ || trim(raw) == "South"@),
        wind_of(raw) == "east"@ <==> !(trim(raw) == "F2"@ || trim(raw) == "north"@ || trim(raw) == "North"@
            || trim(raw) == "1"@ || trim(raw) == "F3"@ || trim(raw) == "west"@ || trim(raw) == "West"@
            || trim(raw) == "F4"@ || trim(raw) == "south"@ || trim(raw) == "South"@),
{
    reveal_strlit("F1");
    reveal_strlit("F2");
    reveal_strlit("F3");
    reveal_strlit("F4");
    reveal_strlit("1");
    reveal_strlit("east");
    reveal_strlit("East");
    reveal_strlit("north");
    reveal_strlit("North");
    reveal_strlit("west");
    reveal_strlit("West");
    reveal_strlit("south");
    reveal_strlit("South");
    assert("F1"@.len() == 2 && "F2"@.len() == 2 && "F3"@.len() == 2 && "F4"@.len() == 2 && "1"@.len() == 1);
    assert("F1"@[1] == '1' && "F2"@[1] == '2' && "F3"@[1] == '3' && "F4"@[1] == '4');
    assert("east"@.len() == 4 && "East"@.len() == 4 && "west"@.len() == 4 && "West"@.len() == 4);
    assert("north"@.len() == 5 && "North"@.len() == 5 && "south"@.len() == 5 && "South"@.len() == 5);
    assert("east"@[0] == 'e' && "East"@[0] == 'E' && "west"@[0] == 'w' && "West"@[0] == 'W');
    assert("north"@[0] == 'n' && "North"@[0] == 'N' && "south"@[0] == 's' && "South"@[0] == 'S');
}

fn parse_wind(raw: &Vec<char>) -> (r: String)
    ensures
        r@ == wind_of(raw@),
{
    let t = trim_chars(raw);
    if chars_are(&t, "F1") || chars_are(&t, "east") || chars_are(&t, "East") {
        owned("east")
    } else if chars_are(&t, "F2") || chars_are(&t, "north") || chars_are(&t, "North") || chars_are(&t, "1") {
        owned("north")
    } else if chars_are(&t, "F3") || chars_are(&t, "west") || chars_are(&t, "West") {
        owned("west")
    } else if chars_are(&t, "F4") || chars_are(&t, "south") || chars_are(&t, "South") {
        owned("south")
    } else {
        owned("east")
    }
}

/// The integers among `ws`, in order.
pub open spec fn numbers_of(ws: Seq<Seq<char>>) -> Seq<i64>
    decreases ws.len(),
{
    if ws.len() == 0 {
        Seq::empty()
    } else {
        let rest = numbers_of(ws.drop_last());
        match parse_i64(ws.last()) {
            Some(v) => rest.push(v),
            None => rest,
        }
    }
}

/// The four score changes of a `Score` line: its first four integers, zero for the missing.
pub open spec fn score_of(rest: Seq<char>) -> Seq<i64> {
    let nums = numbers_of(words(rest));
    Seq::new(4, |i: int| if i < nums.len() { nums[i] } else { 0 })
}

fn parse_score_delta(rest: &Vec<char>) -> (r: [i64; 4])
    ensures
        r@ == score_of(rest@),
{
    let ws = split_words(rest);
    let ghost wv = views(ws@);
    let mut nums: Vec<i64> = Vec::new();
    let mut i: usize = 0;
    while i < ws.len()
        invariant
            wv == views(ws@),
            i <= ws@.len(),
            nums@ == numbers_of(wv.take(i as int)),
        decreases ws@.len() - i,
    {
        proof {
            assert(wv.take(i + 1).drop_last() =~= wv.take(i as int));
        }
        match parse_i64_chars(&ws[i]) {
            Some(v) => {
                nums.push(v);
            },
            None => {},
        }
        i += 1;
    }
    assert(wv.take(wv.len() as int) =~= wv);
    let mut delta: [i64; 4] = [0, 0, 0, 0];
    let mut k: usize = 0;
    while k < 4
        invariant
            k <= 4,
            nums@ == numbers_of(wv),
            wv == words(rest@),
            delta@.len() == 4,
            forall|j: int| 0 <= j < k ==> delta@[j] == (if j < nums@.len() { nums@[j] } else { 0 }),
            forall|j: int| k <= j < 4 ==> delta@[j] == 0,
        decreases 4 - k,
    {
        if k < nums.len() {
            delta.set(k, nums[k]);
        }
        k += 1;
    }
    assert(delta@ =~= score_of(rest@));
    delta
}

/// Index of the first `c` in `s` at or after `from`.
pub open spec fn index_of_from(s: Seq<char>, c: char, from: int) -> Option<int>
    decreases s.len() - from,
{
    if from < 0 || from >= s.len() {
        None
    } else if s[from] == c {
        Some(from)
    } else {
        index_of_from(s, c, from + 1)
    }
}

/// Index of the first white space in `s` at or after `from`.
pub open spec fn ws_index_from(s: Seq<char>, from: int) -> Option<int>
    decreases s.len() - from,
{
    if from < 0 || from >= s.len() {
        None
    } else if is_ws(s[from]) {
        Some(from)
    } else {
        ws_index_from(s, from + 1)
    }
}

proof fn lemma_index_of_from(s: Seq<char>, c: char, from: int, k: int)
    requires
        0 <= from <= k <= s.len(),
        forall|j: int| from <= j < k ==> #[trigger] s[j] != c,
    ensures
        k == s.len() ==> index_of_from(s, c, from) is None,
        k < s.len() && s[k] == c ==> index_of_from(s, c, from) == Some(k),
    decreases k - from,
{
    if from < k {
        lemma_index_of_from(s, c, from + 1, k);
    }
}

proof fn lemma_ws_index_from(s: Seq<char>, from: int, k: int)
    requires
        0 <= from <= k <= s.len(),
        forall|j: int| from <= j < k ==> !is_ws(#[trigger] s[j]),
    ensures
        k == s.len() ==> ws_index_from(s, from) is None,
        k < s.len() && is_ws(s[k]) ==> ws_index_from(s, from) == Some(k),
    decreases k - from,
{
    if from < k {
        lemma_ws_index_from(s, from + 1, k);
    }
}

fn index_of(s: &Vec<char>, c: char) -> (r: Option<usize>)
    ensures
        r matches Some(p) ==> p < s@.len() && index_of_from(s@, c, 0) == Some(p as int),
        r is None ==> index_of_from(s@, c, 0) is None,
{
    let mut i: usize = 0;
    while i < s.len()
        invariant
            i <= s@.len(),
            forall|j: int| 0 <= j < i ==> #[trigger] s@[j] != c,
        decreases s@.len() - i,
    {
        if s[i] == c {
            proof {
                lemma_index_of_from(s@, c, 0, i as int);
            }
            return Some(i);
        }
        i += 1;
    }
    proof {
        lemma_index_of_from(s@, c, 0, i as int);
    }
    None
}

fn ws_index(s: &Vec<char>) -> (r: Option<usize>)
    ensures
        r matches Some(p) ==> p < s@.len() && ws_index_from(s@, 0) == Some(p as int),
        r is None ==> ws_index_from(s@, 0) is None,
{
    let mut i: usize = 0;
    while i < s.len()
        invariant
            i <= s@.len(),
            forall|j: int| 0 <= j < i ==> !is_ws(#[trigger] s@[j]),
        decreases s@.len() - i,
    {
        if crate::scan::is_whitespace(s[i]) {
            proof {
                lemma_ws_index_from(s@, 0, i as int);
            }
            return Some(i);
        }
        i += 1;
    }
    proof {
        lemma_ws_index_from(s@, 0, i as int);
    }
    None
}

fn take_chars(s: &Vec<char>, n: usize) -> (r: Vec<char>)
    requires
        n <= s@.len(),
    ensures
        r@ == s@.take(n as int),
{
    let mut r: Vec<char> = Vec::new();
    let mut k: usize = 0;
    while k < n
        invariant
            k <= n <= s@.len(),
            r@ == s@.take(k as int),
        decreases n - k,
    {
        r.push(s[k]);
        assert(r@ =~= s@.take(k + 1));
        k += 1;
    }
    r
}

/// A `Player <seat> <rest>` line: its seat and what follows the space after the seat.
pub open spec fn player_prefix(line: Seq<char>) -> Option<(usize, Seq<char>)> {
    match strip_prefix(line, "Player "@) {
        None => None,
        Some(rest) => match index_of_from(rest, ' ', 0) {
            None => None,
            Some(p) => match parse_usize(rest.take(p)) {
                Some(seat) => Some((seat, rest.skip(p + 1))),
                None => None,
            },
        },
    }
}

fn parse_player_prefix(line: &Vec<char>) -> (r: Option<(usize, Vec<char>)>)
    ensures
        match player_prefix(line@) {
            Some((seat, rest)) => r matches Some((s, v)) && s == seat && v@ == rest,
            None => r is None,
        },
{
    let rest = match after_prefix(line, "Player ") {
        Some(v) => v,
        None => return None,
    };
    let p = match index_of(&rest, ' ') {
        Some(p) => p,
        None => return None,
    };
    let n = rest.len();
    assert(p < n);
    let seat_text = take_chars(&rest, p);
    match parse_usize_chars(&seat_text) {
        Some(seat) => Some((seat, crate::scan::skip_chars(&rest, p + 1))),
        None => None,
    }
}

/// The tile keys of the codes among `ws` that name tiles, in order.
pub open spec fn tiles_of_codes(ws: Seq<Seq<char>>) -> Seq<Seq<char>>
    decreases ws.len(),
{
    if ws.len() == 0 {
        Seq::empty()
    } else {
        let rest = tiles_of_codes(ws.drop_last());
        match tile_of_code(ws.last()) {
            Some(t) => rest.push(t),
            None => rest,
        }
    }
}

pub open spec fn string_views(v: Seq<String>) -> Seq<Seq<char>> {
    v.map_values(|s: String| s@)
}

fn tiles_of_code_words(ws: &Vec<Vec<char>>) -> (r: Vec<String>)
    ensures
        string_views(r@) == tiles_of_codes(views(ws@)),
{
    let ghost wv = views(ws@);
    let mut tiles: Vec<String> = Vec::new();
    let mut i: usize = 0;
    while i < ws.len()
        invariant
            wv == views(ws@),
            i <= ws@.len(),
            string_views(tiles@) == tiles_of_codes(wv.take(i as int)),
        decreases ws@.len() - i,
    {
        proof {
            assert(wv.take(i + 1).drop_last() =~= wv.take(i as int));
        }
        let ghost before = string_views(tiles@);
        match tile_of_code_chars(&ws[i]) {
            Some(t) => {
                tiles.push(t);
                assert(string_views(tiles@) =~= before.push(t@));
            },
            None => {},
        }
        i += 1;
    }
    assert(wv.take(wv.len() as int) =~= wv);
    tiles
}

/// The fan of a `Fan` line: the integer before its first white space, zero where none.
pub open spec fn fan_of(rest: Seq<char>) -> i64 {
    let first = match ws_index_from(rest, 0) {
        Some(p) => rest.take(p),
        None => rest,
    };
    match parse_i64(first) {
        Some(v) => v,
        None => 0,
    }
}

/// The description of a `Fan` line: what follows its first white space, trimmed.
pub open spec fn description_of(rest: Seq<char>) -> Seq<char> {
    match ws_index_from(rest, 0) {
        Some(p) => trim(rest.skip(p + 1)),
        None => Seq::empty(),
    }
}

/// What the lines of a record have said so far.
pub struct RecordSoFar {
    pub match_id: Option<Seq<char>>,
    pub round_wind: Seq<char>,
    pub deals: Seq<Seq<Seq<char>>>,
    pub events: Seq<EventView>,
    pub score: Seq<i64>,
    pub fan: i64,
    pub description: Seq<char>,
    pub drawn: bool,
}

pub open spec fn record_start() -> RecordSoFar {
    RecordSoFar {
        match_id: None,
        round_wind: "east"@,
        deals: Seq::new(4, |s: int| Seq::<Seq<char>>::empty()),
        events: Seq::empty(),
        score: seq![0i64, 0i64, 0i64, 0i64],
        fan: 0,
        description: Seq::empty(),
        drawn: false,
    }
}

/// What one line of a record adds: its id, its wind, a seat's dealt tiles, an event, the
/// fan and description, the score changes, or that the round was drawn.
pub open spec fn record_step(acc: RecordSoFar, line: Seq<char>) -> Result<RecordSoFar, Seq<char>> {
    if starts_with(line, "Match "@) {
        Ok(RecordSoFar { match_id: Some(trim(line.skip(6))), ..acc })
    } else if starts_with(line, "Wind "@) {
        Ok(RecordSoFar { round_wind: wind_of(line.skip(5)), ..acc })
    } else {
        match player_prefix(line) {
            Some((seat, rest)) => if starts_with(rest, "Deal "@) {
                Ok(
                    RecordSoFar {
                        deals: acc.deals.update(seat as int, tiles_of_codes(words(rest.skip(5)))),
                        ..acc
                    },
                )
            } else {
                match event_of_line(line) {
                    Ok(ev) => Ok(RecordSoFar { events: acc.events.push(ev), ..acc }),
                    Err(e) => Err(e),
                }
            },
            None => if starts_with(line, "Fan "@) {
                Ok(
                    RecordSoFar {
                        fan: fan_of(line.skip(4)),
                        description: description_of(line.skip(4)),
                        ..acc
                    },
                )
            } else if starts_with(line, "Score "@) {
                Ok(RecordSoFar { score: score_of(line.skip(6)), ..acc })
            } else if starts_with(line, "Huang"@) {
                Ok(RecordSoFar { drawn: true, ..acc })
            } else {
                Ok(acc)
            },
        }
    }
}

/// What the first `n` lines of a record say, or the error of the first bad event line.
pub open spec fn record_after(lines: Seq<Seq<char>>, n: int) -> Result<RecordSoFar, Seq<char>>
    decreases n,
{
    if n <= 0 {
        Ok(record_start())
    } else {
        match record_after(lines, n - 1) {
            Ok(acc) => record_step(acc, lines[n - 1]),
            Err(e) => Err(e),
        }
    }
}

/// Every `Player <seat> Deal` line names a seat of the table.
pub open spec fn deal_seats_in_range(lines: Seq<Seq<char>>) -> bool {
    forall|i: int|
        0 <= i < lines.len() ==> (#[trigger] player_prefix(lines[i]) matches Some((seat, rest))
            ==> (starts_with(rest, "Deal "@) ==> seat < 4))
}

/// A record read into `m` says what `acc` holds: the id (`unknown` where none), the wind,
/// dealer zero, no scores before, the dealt tiles, the events, and the end of the round.
pub open spec fn record_matches(m: BotZoneMatch, acc: RecordSoFar) -> bool {
    &&& m.match_id@ == match acc.match_id {
        Some(id) => id,
        None => "unknown"@,
    }
    &&& m.round_wind@ == acc.round_wind
    &&& m.dealer_seat == 0
    &&& m.cumulative_scores@ == seq![0i64, 0i64, 0i64, 0i64]
    &&& forall|s: int| 0 <= s < 4 ==> string_views(#[trigger] m.deals@[s]@) == acc.deals[s]
    &&& m.events@.map_values(|e: BotZoneEvent| event_view(e)) == acc.events
    &&& if acc.drawn {
        m.result matches BotZoneResult::Huang { score_delta } && score_delta@ == acc.score
    } else {
        m.result matches BotZoneResult::Hu { fan, description, score_delta } && fan == acc.fan
            && description@ == acc.description && score_delta@ == acc.score
    }
}

/// A record being read, line by line.
struct RecordBuilder {
    match_id: Option<String>,
    round_wind: String,
    deals: [Vec<String>; 4],
    events: Vec<BotZoneEvent>,
    score_delta: [i64; 4],
    fan: i64,
    description: String,
    is_drawn: bool,
}

impl RecordBuilder {
    spec fn view(&self) -> RecordSoFar {
        RecordSoFar {
            match_id: opt_view(self.match_id),
            round_wind: self.round_wind@,
            deals: Seq::new(4, |s: int| string_views(self.deals@[s]@)),
            events: self.events@.map_values(|e: BotZoneEvent| event_view(e)),
            score: self.score_delta@,
            fan: self.fan,
            description: self.description@,
            drawn: self.is_drawn,
        }
    }

    fn new() -> (r: Self)
        ensures
            r.view() == record_start(),
    {
        let r = RecordBuilder {
            match_id: None,
            round_wind: owned("east"),
            deals: [Vec::new(), Vec::new(), Vec::new(), Vec::new()],
            events: Vec::new(),
            score_delta: [0, 0, 0, 0],
            fan: 0,
            description: String::new(),
            is_drawn: false,
        };
        proof {
            assert forall|s: int| 0 <= s < 4 implies #[trigger] string_views(r.deals@[s]@)
                =~= Seq::<Seq<char>>::empty() by {}
            assert(r.view().deals =~= record_start().deals);
            assert(r.view().events =~= record_start().events);
            assert(r.view().score =~= record_start().score);
            assert(r.view().description =~= record_start().description);
        }
        r
    }

    fn set_deal(&mut self, seat: usize, deal: &Vec<char>)
        requires
            seat < 4,
        ensures
            final(self).view() == (RecordSoFar {
                deals: old(self).view().deals.update(seat as int, tiles_of_codes(words(deal@))),
                ..old(self).view()
            }),
    {
        let ws = split_words(deal);
        let tiles = tiles_of_code_words(&ws);
        let ghost before = self.view();
        self.deals.set(seat, tiles);
        proof {
            let after = self.view();
            assert forall|s: int| 0 <= s < 4 implies #[trigger] after.deals[s] == before.deals.update(
                seat as int,
                tiles_of_codes(words(deal@)),
            )[s] by {}
            assert(after.deals =~= before.deals.update(seat as int, tiles_of_codes(words(deal@))));
        }
    }

    fn push_event(&mut self, event: BotZoneEvent)
        ensures
            final(self).view() == (RecordSoFar {
                events: old(self).view().events.push(event_view(event)),
                ..old(self).view()
            }),
    {
        let ghost before = self.view();
        self.events.push(event);
        proof {
            assert(self.view().events =~= before.events.push(event_view(event)));
            assert(self.view().deals =~= before.deals);
        }
    }

    fn set_fan(&mut self, rest: &Vec<char>)
        ensures
            final(self).view() == (RecordSoFar {
                fan: fan_of(rest@),
                description: description_of(rest@),
                ..old(self).view()
            }),
    {
        let ghost before = self.view();
        match ws_index(rest) {
            Some(p) => {
                let n = rest.len();
                assert(p < n);
                let first = take_chars(rest, p);
                self.fan = match parse_i64_chars(&first) {
                    Some(v) => v,
                    None => 0,
                };
                let after = crate::scan::skip_chars(rest, p + 1);
                self.description = string_from_chars(&trim_chars(&after));
            },
            None => {
                self.fan = match parse_i64_chars(rest) {
                    Some(v) => v,
                    None => 0,
                };
                self.description = String::new();
            },
        }
        proof {
            assert(self.view().deals =~= before.deals);
            assert(self.view().events =~= before.events);
            assert(self.view().description =~= description_of(rest@));
        }
    }

    fn apply_line(&mut self, line: &Vec<char>) -> (r: Result<(), BotZoneParseError>)
        requires
            player_prefix(line@) matches Some((seat, rest)) ==> (starts_with(rest, "Deal "@) ==> seat < 4),
        ensures
            match record_step(old(self).view(), line@) {
                Ok(acc) => r is Ok && final(self).view() == acc,
                Err(e) => r matches Err(err) && err.view() == e,
            },
    {
        proof {
            reveal_strlit("Match ");
            reveal_strlit("Wind ");
            reveal_strlit("Deal ");
            reveal_strlit("Fan ");
            reveal_strlit("Score ");
        }
        let ghost before = self.view();
        if let Some(rest) = after_prefix(line, "Match ") {
            self.match_id = Some(string_from_chars(&trim_chars(&rest)));
            proof {
                assert(self.view().deals =~= before.deals);
                assert(self.view().events =~= before.events);
            }
            return Ok(());
        }
        if let Some(rest) = after_prefix(line, "Wind ") {
            self.round_wind = parse_wind(&rest);
            proof {
                assert(self.view().deals =~= before.deals);
                assert(self.view().events =~= before.events);
            }
            return Ok(());
        }
        if let Some((seat, rest)) = parse_player_prefix(line) {
            if let Some(deal) = after_prefix(&rest, "Deal ") {
                self.set_deal(seat, &deal);
                return Ok(());
            }
            let tokens = split_words(line);
            return match event_of_words(&tokens) {
                Ok(event) => {
                    self.push_event(event);
                    Ok(())
                },
                Err(e) => Err(e),
            };
        }
        if let Some(rest) = after_prefix(line, "Fan ") {
            self.set_fan(&rest);
            return Ok(());
        }
        if let Some(rest) = after_prefix(line, "Score ") {
            self.score_delta = parse_score_delta(&rest);
            proof {
                assert(self.view().deals =~= before.deals);
                assert(self.view().events =~= before.events);
            }
            return Ok(());
        }
        if has_prefix(line, "Huang") {
            self.is_drawn = true;
            proof {
                assert(self.view().deals =~= before.deals);
                assert(self.view().events =~= before.events);
            }
        }
        Ok(())
    }

    fn finish(self) -> (r: BotZoneMatch)
        ensures
            record_matches(r, self.view()),
    {
        let result = if self.is_drawn {
            BotZoneResult::Huang { score_delta: self.score_delta }
        } else {
            BotZoneResult::Hu { fan: self.fan, description: self.description, score_delta: self.score_delta }
        };
        let match_id = match self.match_id {
            Some(id) => id,
            None => owned("unknown"),
        };
        let m = BotZoneMatch {
            match_id,
            round_wind: self.round_wind,
            dealer_seat: 0,
            cumulative_scores: [0, 0, 0, 0],
            deals: self.deals,
            events: self.events,
            result,
        };
        assert(m.cumulative_scores@ =~= seq![0i64, 0i64, 0i64, 0i64]);
        m
    }
}

/// Reads one record from its trimmed, non-blank lines.
fn parse_match_lines(lines: &Vec<Vec<char>>) -> (r: Result<BotZoneMatch, BotZoneParseError>)
    requires
        deal_seats_in_range(views(lines@)),
    ensures
        match record_after(views(lines@), lines@.len() as int) {
            Ok(acc) => r matches Ok(m) && record_matches(m, acc),
            Err(e) => r matches Err(err) && err.view() == e,
        },
{
    let ghost lv = views(lines@);
    let mut builder = RecordBuilder::new();
    let mut i: usize = 0;
    while i < lines.len()
        invariant
            lv == views(lines@),
            deal_seats_in_range(lv),
            i <= lines@.len(),
            record_after(lv, i as int) == Ok::<RecordSoFar, Seq<char>>(builder.view()),
        decreases lines@.len() - i,
    {
        assert(lines@[i as int]@ == lv[i as int]);
        assert(player_prefix(lv[i as int]) matches Some((seat, rest)) ==> (starts_with(rest, "Deal "@)
            ==> seat < 4));
        match builder.apply_line(&lines[i]) {
            Ok(()) => {},
            Err(e) => {
                proof {
                    lemma_record_after_error(lv, i as int + 1, lines@.len() as int);
                }
                return Err(e);
            },
        }
        i += 1;
    }
    Ok(builder.finish())
}

proof fn lemma_record_after_error(lines: Seq<Seq<char>>, n: int, m: int)
    requires
        0 <= n <= m,
        record_after(lines, n) is Err,
    ensures
        record_after(lines, m) == record_after(lines, n),
    decreases m - n,
{
    if n < m {
        lemma_record_after_error(lines, n, m - 1);
    }
}


/// Reads one record.
pub fn parse_match(raw: &str) -> (r: Result<BotZoneMatch, BotZoneParseError>)
    requires
        deal_seats_in_range(content_lines(raw@)),
    ensures
        ({
            let lines = content_lines(raw@);
            match record_after(lines, lines.len() as int) {
                Ok(acc) => r matches Ok(m) && record_matches(m, acc),
                Err(e) => r matches Err(err) && err.view() == e,
            }
        }),
{
    let v = chars_of(raw);
    let lines = content_lines_of(&v);
    parse_match_lines(&lines)
}

/// The records of a text: each begins at a `Match` line, except that lines before the first
/// `Match` line begin the first record.
pub open spec fn record_blocks(lines: Seq<Seq<char>>) -> Seq<Seq<Seq<char>>>
    decreases lines.len(),
{
    if lines.len() == 0 {
        Seq::empty()
    } else {
        let blocks = record_blocks(lines.drop_last());
        let line = lines.last();
        if blocks.len() == 0 || starts_with(line, "Match "@) {
            blocks.push(seq![line])
        } else {
            blocks.update(blocks.len() - 1, blocks.last().push(line))
        }
    }
}

/// What the first `n` records say, or the error of the first that cannot be read.
pub open spec fn records_after(blocks: Seq<Seq<Seq<char>>>, n: int) -> Result<Seq<RecordSoFar>, Seq<char>>
    decreases n,
{
    if n <= 0 {
        Ok(Seq::empty())
    } else {
        match records_after(blocks, n - 1) {
            Err(e) => Err(e),
            Ok(done) => match record_after(blocks[n - 1], blocks[n - 1].len() as int) {
                Ok(acc) => Ok(done.push(acc)),
                Err(e) => Err(e),
            },
        }
    }
}

proof fn lemma_records_after_error(blocks: Seq<Seq<Seq<char>>>, n: int, m: int)
    requires
        0 <= n <= m,
        records_after(blocks, n) is Err,
    ensures
        records_after(blocks, m) == records_after(blocks, n),
    decreases m - n,
{
    if n < m {
        lemma_records_after_error(blocks, n, m - 1);
    }
}

/// The lines of each block, as character lists.
pub open spec fn block_views(blocks: Seq<Vec<Vec<char>>>) -> Seq<Seq<Seq<char>>> {
    blocks.map_values(|b: Vec<Vec<char>>| views(b@))
}

fn split_blocks(lines: &Vec<Vec<char>>) -> (r: Vec<Vec<Vec<char>>>)
    ensures
        block_views(r@) == record_blocks(views(lines@)),
{
    let ghost lv = views(lines@);
    let mut blocks: Vec<Vec<Vec<char>>> = Vec::new();
    let mut current: Vec<Vec<char>> = Vec::new();
    let mut i: usize = 0;
    while i < lines.len()
        invariant
            lv == views(lines@),
            i <= lines@.len(),
            (if current@.len() == 0 {
                block_views(blocks@)
            } else {
                block_views(blocks@).push(views(current@))
            }) == record_blocks(lv.take(i as int)),
            i > 0 ==> current@.len() > 0,
            i == 0 ==> blocks@.len() == 0 && current@.len() == 0,
        decreases lines@.len() - i,
    {
        let line = &lines[i];
        proof {
            assert(lv.take(i + 1).drop_last() =~= lv.take(i as int));
            assert(lv.take(i + 1).last() == line@);
        }
        let ghost before_blocks = block_views(blocks@);
        let ghost before_current = views(current@);
        if has_prefix(line, "Match ") && current.len() > 0 {
            let finished = current;
            blocks.push(finished);
            current = Vec::new();
            proof {
                assert(block_views(blocks@) =~= before_blocks.push(before_current));
            }
        }
        let ghost mid_current = views(current@);
        current.push(crate::text::clone_chars(line));
        proof {
            assert(views(current@) =~= mid_current.push(line@));
            if mid_current.len() > 0 {
                assert(block_views(blocks@).push(views(current@)) =~= record_blocks(lv.take(i as int)).update(
                    record_blocks(lv.take(i as int)).len() - 1,
                    record_blocks(lv.take(i as int)).last().push(line@),
                ));
            } else {
                assert(views(current@) =~= seq![line@]);
            }
        }
        i += 1;
    }
    assert(lv.take(lv.len() as int) =~= lv);
    if current.len() > 0 {
        let ghost before_blocks = block_views(blocks@);
        let ghost cv = views(current@);
        blocks.push(current);
        assert(block_views(blocks@) =~= before_blocks.push(cv));
    }
    blocks
}

/// Every `Player <seat> Deal` line of each block names a seat of the table.
pub open spec fn blocks_deal_seats_in_range(blocks: Seq<Seq<Seq<char>>>) -> bool {
    forall|b: int| 0 <= b < blocks.len() ==> deal_seats_in_range(#[trigger] blocks[b])
}

proof fn lemma_record_blocks_lines(lines: Seq<Seq<char>>)
    ensures
        forall|b: int, j: int|
            0 <= b < record_blocks(lines).len() && 0 <= j < record_blocks(lines)[b].len() ==> exists|
                k: int,
            | 0 <= k < lines.len() && #[trigger] record_blocks(lines)[b][j] == lines[k],
    decreases lines.len(),
{
    if lines.len() > 0 {
        let prev = lines.drop_last();
        lemma_record_blocks_lines(prev);
        let blocks = record_blocks(lines);
        assert forall|b: int, j: int|
            0 <= b < blocks.len() && 0 <= j < blocks[b].len() implies exists|k: int|
                0 <= k < lines.len() && #[trigger] blocks[b][j] == lines[k] by {
            let pb = record_blocks(prev);
            if b < pb.len() && j < pb[b].len() {
                let k = choose|k: int| 0 <= k < prev.len() && pb[b][j] == prev[k];
                assert(lines[k] == prev[k]);
            } else {
                assert(blocks[b][j] == lines[lines.len() - 1]);
            }
        }
    }
}

/// Reads every record of a text.
pub fn parse_matches(raw: &str) -> (r: Result<Vec<BotZoneMatch>, BotZoneParseError>)
    requires
        deal_seats_in_range(content_lines(raw@)),
    ensures
        ({
            let blocks = record_blocks(content_lines(raw@));
            match records_after(blocks, blocks.len() as int) {
                Ok(accs) => r matches Ok(ms) && ms@.len() == accs.len() && forall|i: int|
                    0 <= i < accs.len() ==> record_matches(#[trigger] ms@[i], accs[i]),
                Err(e) => r matches Err(err) && err.view() == e,
            }
        }),
{
    let v = chars_of(raw);
    let lines = content_lines_of(&v);
    let blocks = split_blocks(&lines);
    let ghost bv = block_views(blocks@);
    assert(bv == record_blocks(content_lines(raw@)));
    proof {
        lemma_record_blocks_lines(views(lines@));
        assert forall|b: int| 0 <= b < bv.len() implies deal_seats_in_range(#[trigger] bv[b]) by {
            assert forall|j: int| 0 <= j < bv[b].len() implies (#[trigger] player_prefix(bv[b][j]) matches Some((seat, rest))
                ==> (starts_with(rest, "Deal "@) ==> seat < 4)) by {
                let k = choose|k: int| 0 <= k < views(lines@).len() && bv[b][j] == views(lines@)[k];
                assert(player_prefix(views(lines@)[k]) matches Some((seat, rest)) ==> (starts_with(rest, "Deal "@)
                    ==> seat < 4));
            }
        }
    }
    let mut matches: Vec<BotZoneMatch> = Vec::new();
    let mut b: usize = 0;
    while b < blocks.len()
        invariant
            bv == block_views(blocks@),
            bv == record_blocks(content_lines(raw@)),
            forall|k: int| 0 <= k < bv.len() ==> deal_seats_in_range(#[trigger] bv[k]),
            b <= blocks@.len(),
            records_after(bv, b as int) matches Ok(accs) && matches@.len() == accs.len() && forall|i: int|
                0 <= i < accs.len() ==> record_matches(#[trigger] matches@[i], accs[i]),
        decreases blocks@.len() - b,
    {
        assert(views(blocks@[b as int]@) == bv[b as int]);
        let ghost done = records_after(bv, b as int)->Ok_0;
        match parse_match_lines(&blocks[b]) {
            Ok(m) => {
                matches.push(m);
                proof {
                    let acc = record_after(bv[b as int], bv[b as int].len() as int)->Ok_0;
                    assert(records_after(bv, b + 1) == Ok::<Seq<RecordSoFar>, Seq<char>>(done.push(acc)));
                    assert forall|i: int| 0 <= i < done.len() + 1 implies record_matches(
                        #[trigger] matches@[i],
                        done.push(acc)[i],
                    ) by {}
                }
            },
            Err(e) => {
                proof {
                    assert(bv[b as int].len() == blocks@[b as int]@.len());
                    assert(record_after(bv[b as int], bv[b as int].len() as int) == Err::<RecordSoFar, Seq<char>>(e.view()));
                    assert(records_after(bv, b + 1) == Err::<Seq<RecordSoFar>, Seq<char>>(e.view()));
                    lemma_records_after_error(bv, b + 1, bv.len() as int);
                }
                return Err(e);
            },
        }
        b += 1;
    }
    Ok(matches)
}

/// Whether every `Player N Deal` line of the text deals to one of the four seats: what
/// reading the text needs.
pub fn deal_seats_valid(raw: &str) -> (r: bool)
    ensures
        r == deal_seats_in_range(content_lines(raw@)),
{
    let v = chars_of(raw);
    let lines = content_lines_of(&v);
    let ghost lv = views(lines@);
    let mut i: usize = 0;
    while i < lines.len()
        invariant
            lv == views(lines@),
            lv == content_lines(raw@),
            i <= lines@.len(),
            forall|j: int|
                0 <= j < i ==> (#[trigger] player_prefix(lv[j]) matches Some((seat, rest)) ==> (starts_with(
                    rest,
                    "Deal "@,
                ) ==> seat < 4)),
        decreases lines@.len() - i,
    {
        assert(lv[i as int] == lines@[i as int]@);
        if let Some((seat, rest)) = parse_player_prefix(&lines[i]) {
            if has_prefix(&rest, "Deal ") && seat >= 4 {
                return false;
            }
        }
        i += 1;
    }
    true
}

} // verus!
