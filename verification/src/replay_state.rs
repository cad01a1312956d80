use vstd::prelude::*;

use crate::botzone::BotZoneMatch;
use crate::replay_claims::{chow_group, chow_group_exec, chow_ids_for_middle, chow_tile_ids_for_middle, key_of_id, key_of_id_exec};
use crate::replay::{SerializableBotTile, SerializableDiscardEvent};
use crate::replay_view::{groups_v, history_v, opt_v, seat_groups_v, strs_v, tile_v, tiles_v, TileV};
use crate::text::{decimal, push_decimal, push_str, str_equal};
use crate::tile::clone_strings;

verus! {

/// The tables as the replay has followed them: hands, discards, melds, the wall, the last
/// discard, each seat's drawn tile, and the tile that may not be discarded now.
#[verifier::ext_equal]
pub struct ReplayModel {
    pub hands: Seq<Seq<TileV>>,
    pub discards: Seq<Seq<Seq<char>>>,
    pub history: Seq<(usize, Seq<char>)>,
    pub melds: Seq<Seq<Seq<Seq<char>>>>,
    pub wall: i64,
    pub last_discard: Option<Seq<char>>,
    pub last_discarder: Option<usize>,
    pub drawn: Seq<Option<Seq<char>>>,
    pub restricted: Option<Seq<char>>,
    pub next_sequence: int,
}

/// The replay's running state.
pub struct ReplayState {
    pub match_id: String,
    pub hands: Vec<Vec<SerializableBotTile>>,
    pub discards: Vec<Vec<String>>,
    pub discard_history: Vec<SerializableDiscardEvent>,
    pub melds: Vec<Vec<Vec<String>>>,
    pub wall_tiles_remaining: i64,
    pub last_discard_tile_key: Option<String>,
    pub last_discarder_seat: Option<usize>,
    pub current_drawn_tile_ids: Vec<Option<String>>,
    pub restricted_discard_tile_key: Option<String>,
    pub next_sequence: usize,
}

pub open spec fn drawn_v(v: Seq<Option<String>>) -> Seq<Option<Seq<char>>> {
    v.map_values(|o: Option<String>| opt_v(o))
}

impl ReplayState {
    pub open spec fn model(&self) -> ReplayModel {
        ReplayModel {
            hands: self.hands@.map_values(|h: Vec<SerializableBotTile>| tiles_v(h@)),
            discards: groups_v(self.discards@),
            history: history_v(self.discard_history@),
            melds: seat_groups_v(self.melds@),
            wall: self.wall_tiles_remaining,
            last_discard: opt_v(self.last_discard_tile_key),
            last_discarder: self.last_discarder_seat,
            drawn: drawn_v(self.current_drawn_tile_ids@),
            restricted: opt_v(self.restricted_discard_tile_key),
            next_sequence: self.next_sequence as int,
        }
    }

    /// Four seats in each per-seat list.
    pub open spec fn inv(&self) -> bool {
        &&& self.hands@.len() == 4
        &&& self.discards@.len() == 4
        &&& self.melds@.len() == 4
        &&& self.current_drawn_tile_ids@.len() == 4
        &&& self.wall_tiles_remaining >= 0
    }
}

/// The id of a replayed tile: the match id, the seat, the key and the tile's running number.
pub open spec fn tile_id(match_id: Seq<char>, seat: usize, sequence: int, key: Seq<char>) -> Seq<char> {
    match_id + ":s"@ + decimal(seat as nat) + ":"@ + key + ":"@ + decimal(sequence as nat)
}

pub open spec fn made_tile(match_id: Seq<char>, seat: usize, sequence: int, key: Seq<char>) -> TileV {
    (tile_id(match_id, seat, sequence, key), key, false)
}

/// The replayed tile of a seat with the given running number.
pub fn make_tile(match_id: &String, seat: usize, sequence: usize, tile_key: &String) -> (t: SerializableBotTile)
    ensures
        tile_v(t) == made_tile(match_id@, seat, sequence as int, tile_key@),
{
    let mut id = match_id.clone();
    push_str(&mut id, ":s");
    push_decimal(&mut id, seat);
    push_str(&mut id, ":");
    push_str(&mut id, tile_key.as_str());
    push_str(&mut id, ":");
    push_decimal(&mut id, sequence);
    SerializableBotTile { tile_id: id, tile_key: tile_key.clone(), is_flower: false }
}

/// Index of the first tile at or after `from` with key `key`.
pub open spec fn first_key_index(hand: Seq<TileV>, key: Seq<char>, from: int) -> Option<int>
    decreases hand.len() - from,
{
    if from < 0 || from >= hand.len() {
        None
    } else if hand[from].1 == key {
        Some(from)
    } else {
        first_key_index(hand, key, from + 1)
    }
}

/// The hand without its first tile of key `key`, where it has one.
pub open spec fn remove_one(hand: Seq<TileV>, key: Seq<char>) -> Seq<TileV> {
    match first_key_index(hand, key, 0) {
        Some(i) => hand.remove(i),
        None => hand,
    }
}

/// The hand after `n` removals of a tile of key `key`.
pub open spec fn remove_n(hand: Seq<TileV>, key: Seq<char>, n: nat) -> Seq<TileV>
    decreases n,
{
    if n == 0 {
        hand
    } else {
        remove_one(remove_n(hand, key, (n - 1) as nat), key)
    }
}

/// `n` copies of a key.
pub open spec fn copies(key: Seq<char>, n: nat) -> Seq<Seq<char>> {
    Seq::new(n, |i: int| key)
}

proof fn lemma_first_key_index(hand: Seq<TileV>, key: Seq<char>, from: int, k: int)
    requires
        0 <= from <= k <= hand.len(),
        forall|j: int| from <= j < k ==> (#[trigger] hand[j]).1 != key,
    ensures
        k == hand.len() ==> first_key_index(hand, key, from) is None,
        k < hand.len() && hand[k].1 == key ==> first_key_index(hand, key, from) == Some(k),
    decreases k - from,
{
    if from < k {
        lemma_first_key_index(hand, key, from + 1, k);
    }
}

/// Removes the first tile of key `key` from the hand, where there is one.
pub fn remove_one_tile(hand: &mut Vec<SerializableBotTile>, key: &str)
    ensures
        tiles_v(final(hand)@) == remove_one(tiles_v(old(hand)@), key@),
{
    let ghost h = tiles_v(hand@);
    let mut i: usize = 0;
    while i < hand.len()
        invariant
            h == tiles_v(hand@),
            *hand == *old(hand),
            i <= hand@.len(),
            forall|j: int| 0 <= j < i ==> (#[trigger] h[j]).1 != key@,
        decreases hand@.len() - i,
    {
        if str_equal(hand[i].tile_key.as_str(), key) {
            proof {
                lemma_first_key_index(h, key@, 0, i as int);
            }
            hand.remove(i);
            proof {
                assert(tiles_v(hand@) =~= h.remove(i as int));
            }
            return;
        }
        i += 1;
    }
    proof {
        lemma_first_key_index(h, key@, 0, i as int);
    }
}

/// Removes `n` tiles of key `key` from the hand, one at a time.
pub fn remove_tiles(hand: &mut Vec<SerializableBotTile>, key: &str, n: usize)
    ensures
        tiles_v(final(hand)@) == remove_n(tiles_v(old(hand)@), key@, n as nat),
{
    let mut k: usize = 0;
    while k < n
        invariant
            k <= n,
            tiles_v(hand@) == remove_n(tiles_v(old(hand)@), key@, k as nat),
        decreases n - k,
    {
        remove_one_tile(hand, key);
        k += 1;
    }
}

/// A meld of `n` copies of a key.
pub fn copies_exec(key: &str, n: usize) -> (r: Vec<String>)
    ensures
        strs_v(r@) == copies(key@, n as nat),
{
    let mut r: Vec<String> = Vec::new();
    let mut k: usize = 0;
    while k < n
        invariant
            k <= n,
            r@.len() == k,
            forall|i: int| 0 <= i < k ==> (#[trigger] r@[i])@ == key@,
        decreases n - k,
    {
        r.push(crate::text::owned(key));
        k += 1;
    }
    assert(strs_v(r@) =~= copies(key@, n as nat));
    r
}

/// The seat's hand with one more drawn tile, which becomes its drawn tile; the wall shrinks
/// by one, but not below zero.
pub open spec fn after_draw(m: ReplayModel, match_id: Seq<char>, seat: usize, key: Seq<char>) -> ReplayModel {
    let t = made_tile(match_id, seat, m.next_sequence, key);
    ReplayModel {
        hands: m.hands.update(seat as int, m.hands[seat as int].push(t)),
        wall: if m.wall - 1 > 0 {
            (m.wall - 1) as i64
        } else {
            0
        },
        drawn: m.drawn.update(seat as int, Some(t.0)),
        next_sequence: m.next_sequence + 1,
        ..m
    }
}

/// The seat discarded `key`: it leaves the hand, joins the seat's discards and the history,
/// becomes the last discard, and no tile is drawn or restricted any more.
pub open spec fn after_play(m: ReplayModel, seat: usize, key: Seq<char>) -> ReplayModel {
    ReplayModel {
        hands: m.hands.update(seat as int, remove_one(m.hands[seat as int], key)),
        discards: m.discards.update(seat as int, m.discards[seat as int].push(key)),
        history: m.history.push((seat, key)),
        last_discard: Some(key),
        last_discarder: Some(seat),
        drawn: m.drawn.update(seat as int, None),
        restricted: None,
        ..m
    }
}

/// A claimed discard leaves its discarder's discards, where it is their last.
pub open spec fn without_claimed_discard(m: ReplayModel, key: Seq<char>) -> ReplayModel {
    match m.last_discarder {
        Some(d) => if 0 <= d < m.discards.len() && m.discards[d as int].len() > 0 && m.discards[d as int].last()
            == key {
            ReplayModel { discards: m.discards.update(d as int, m.discards[d as int].drop_last()), ..m }
        } else {
            m
        },
        None => m,
    }
}

/// A pung (`count` two) or a kong (`count` three) claimed on `key`.
pub open spec fn after_same_tile_meld(m: ReplayModel, seat: usize, key: Seq<char>, count: nat) -> ReplayModel {
    let m1 = without_claimed_discard(m, key);
    ReplayModel {
        hands: m1.hands.update(seat as int, remove_n(m1.hands[seat as int], key, count)),
        melds: m1.melds.update(seat as int, m1.melds[seat as int].push(copies(key, count + 1))),
        drawn: m1.drawn.update(seat as int, None),
        restricted: Some(key),
        last_discard: None,
        last_discarder: None,
        ..m1
    }
}

/// A concealed kong of `key`.
pub open spec fn after_concealed_kong(m: ReplayModel, seat: usize, key: Seq<char>) -> ReplayModel {
    ReplayModel {
        hands: m.hands.update(seat as int, remove_n(m.hands[seat as int], key, 4)),
        melds: m.melds.update(seat as int, m.melds[seat as int].push(copies(key, 4))),
        drawn: m.drawn.update(seat as int, None),
        ..m
    }
}

/// Whether a meld is a pung of `key`.
pub open spec fn is_pung_of(meld: Seq<Seq<char>>, key: Seq<char>) -> bool {
    meld.len() == 3 && forall|j: int| 0 <= j < 3 ==> #[trigger] meld[j] == key
}

/// Index of the first pung of `key` at or after `from`.
pub open spec fn first_pung_of(melds: Seq<Seq<Seq<char>>>, key: Seq<char>, from: int) -> Option<int>
    decreases melds.len() - from,
{
    if from < 0 || from >= melds.len() {
        None
    } else if is_pung_of(melds[from], key) {
        Some(from)
    } else {
        first_pung_of(melds, key, from + 1)
    }
}

/// A kong added to the seat's pung of `key`.
pub open spec fn after_add_kong(m: ReplayModel, seat: usize, key: Seq<char>) -> ReplayModel {
    let ms = m.melds[seat as int];
    ReplayModel {
        hands: m.hands.update(seat as int, remove_one(m.hands[seat as int], key)),
        drawn: m.drawn.update(seat as int, None),
        melds: match first_pung_of(ms, key, 0) {
            Some(i) => m.melds.update(seat as int, ms.update(i, ms[i].push(key))),
            None => m.melds,
        },
        ..m
    }
}

proof fn lemma_first_pung_of(melds: Seq<Seq<Seq<char>>>, key: Seq<char>, from: int, k: int)
    requires
        0 <= from <= k <= melds.len(),
        forall|j: int| from <= j < k ==> !is_pung_of(#[trigger] melds[j], key),
    ensures
        k == melds.len() ==> first_pung_of(melds, key, from) is None,
        k < melds.len() && is_pung_of(melds[k], key) ==> first_pung_of(melds, key, from) == Some(k),
    decreases k - from,
{
    if from < k {
        lemma_first_pung_of(melds, key, from + 1, k);
    }
}

/// Whether every entry of a meld is `key`.
pub fn all_equal(meld: &Vec<String>, key: &str) -> (r: bool)
    ensures
        r == forall|j: int| 0 <= j < meld@.len() ==> #[trigger] meld@[j]@ == key@,
{
    let mut j: usize = 0;
    while j < meld.len()
        invariant
            j <= meld@.len(),
            forall|i: int| 0 <= i < j ==> #[trigger] meld@[i]@ == key@,
        decreases meld@.len() - j,
    {
        if !str_equal(meld[j].as_str(), key) {
            return false;
        }
        j += 1;
    }
    true
}

impl ReplayState {
    /// Deals a drawn tile to the seat.
    pub fn add_tile(&mut self, seat: usize, tile_key: &String)
        requires
            old(self).inv(),
            seat < 4,
            old(self).next_sequence < usize::MAX,
        ensures
            final(self).inv(),
            final(self).match_id == old(self).match_id,
            final(self).model() == after_draw(old(self).model(), old(self).match_id@, seat, tile_key@),
    {
        let ghost m = self.model();
        let tile = make_tile(&self.match_id, seat, self.next_sequence, tile_key);
        let tile_id = tile.tile_id.clone();
        self.next_sequence = self.next_sequence + 1;
        self.wall_tiles_remaining = if self.wall_tiles_remaining - 1 > 0 {
            self.wall_tiles_remaining - 1
        } else {
            0
        };
        self.hands[seat].push(tile);
        self.current_drawn_tile_ids.set(seat, Some(tile_id));
        proof {
            let want = after_draw(m, old(self).match_id@, seat, tile_key@);
            assert forall|j: int| 0 <= j < 4 implies #[trigger] self.model().hands[j] == want.hands[j] by {
                if j == seat {
                    assert(tiles_v(self.hands@[j]@) =~= tiles_v(old(self).hands@[j]@).push(tile_v(tile)));
                } else {
                    assert(self.hands@[j] == old(self).hands@[j]);
                }
            }
            assert forall|j: int| 0 <= j < 4 implies #[trigger] self.model().drawn[j] == want.drawn[j] by {
                if j == seat {
                } else {
                    assert(self.current_drawn_tile_ids@[j] == old(self).current_drawn_tile_ids@[j]);
                }
            }
            assert(self.model().hands =~= want.hands);
            assert(self.model().drawn =~= want.drawn);
            assert(self.model() =~= want);
        }
    }

    /// Records the seat's discard of `tile_key`.
    pub fn play_tile(&mut self, seat: usize, tile_key: &String)
        requires
            old(self).inv(),
            seat < 4,
        ensures
            final(self).inv(),
            final(self).match_id == old(self).match_id,
            final(self).next_sequence == old(self).next_sequence,
            final(self).model() == after_play(old(self).model(), seat, tile_key@),
    {
        let ghost m = self.model();
        remove_one_tile(&mut self.hands[seat], tile_key.as_str());
        self.discards[seat].push(tile_key.clone());
        self.discard_history.push(SerializableDiscardEvent { seat_index: seat, tile_key: tile_key.clone() });
        self.last_discard_tile_key = Some(tile_key.clone());
        self.last_discarder_seat = Some(seat);
        self.current_drawn_tile_ids.set(seat, None);
        self.restricted_discard_tile_key = None;
        proof {
            let want = after_play(m, seat, tile_key@);
            assert forall|j: int| 0 <= j < 4 implies #[trigger] self.model().hands[j] == want.hands[j] by {
                if j == seat {
                } else {
                    assert(self.hands@[j] == old(self).hands@[j]);
                }
            }
            assert(self.model().hands =~= want.hands);
            assert forall|j: int| 0 <= j < 4 implies #[trigger] self.model().discards[j] == want.discards[j] by {
                if j == seat {
                    assert(strs_v(self.discards@[j]@) =~= strs_v(old(self).discards@[j]@).push(tile_key@));
                } else {
                    assert(self.discards@[j] == old(self).discards@[j]);
                }
            }
            assert forall|j: int| 0 <= j < 4 implies #[trigger] self.model().drawn[j] == want.drawn[j] by {
                if j == seat {
                } else {
                    assert(self.current_drawn_tile_ids@[j] == old(self).current_drawn_tile_ids@[j]);
                }
            }
            assert(self.model().discards =~= want.discards);
            assert(self.model().history =~= want.history);
            assert(self.model().drawn =~= want.drawn);
            assert(self.model() =~= want);
        }
    }

    /// Takes a claimed discard off its discarder's discards, where it is their last.
    pub fn remove_claimed_discard_from_discards(&mut self, tile_key: &str)
        requires
            old(self).inv(),
        ensures
            final(self).inv(),
            final(self).match_id == old(self).match_id,
            final(self).next_sequence == old(self).next_sequence,
            final(self).model() == without_claimed_discard(old(self).model(), tile_key@),
    {
        let ghost m = self.model();
        match self.last_discarder_seat {
            Some(d) => {
                if d < self.discards.len() && self.discards[d].len() > 0 {
                    let n = self.discards[d].len();
                    if str_equal(self.discards[d][n - 1].as_str(), tile_key) {
                        self.discards[d].pop();
                        proof {
                            let want = without_claimed_discard(m, tile_key@);
                            assert forall|j: int| 0 <= j < 4 implies #[trigger] self.model().discards[j] == want.discards[j] by {
                                if j == d {
                                    assert(strs_v(self.discards@[j]@) =~= strs_v(old(self).discards@[j]@).drop_last());
                                } else {
                                    assert(self.discards@[j] == old(self).discards@[j]);
                                }
                            }
                            assert(self.model().discards =~= want.discards);
                            assert(self.model() =~= want);
                        }
                    }
                }
            },
            None => {},
        }
    }

    /// A pung (`count` two) or kong (`count` three) claimed by the seat on `tile_key`.
    pub fn apply_same_tile_meld(&mut self, seat: usize, tile_key: &String, count: usize)
        requires
            old(self).inv(),
            seat < 4,
            count < usize::MAX,
        ensures
            final(self).inv(),
            final(self).match_id == old(self).match_id,
            final(self).next_sequence == old(self).next_sequence,
            final(self).model() == after_same_tile_meld(old(self).model(), seat, tile_key@, count as nat),
    {
        self.remove_claimed_discard_from_discards(tile_key.as_str());
        let ghost m1 = self.model();
        let ghost pre = *self;
        remove_tiles(&mut self.hands[seat], tile_key.as_str(), count);
        let meld = copies_exec(tile_key.as_str(), count + 1);
        let ghost meld_v = meld;
        self.melds[seat].push(meld);
        self.current_drawn_tile_ids.set(seat, None);
        self.restricted_discard_tile_key = Some(tile_key.clone());
        self.last_discard_tile_key = None;
        self.last_discarder_seat = None;
        proof {
            let want = after_same_tile_meld(old(self).model(), seat, tile_key@, count as nat);
            assert(m1.hands == without_claimed_discard(old(self).model(), tile_key@).hands);
            assert forall|j: int| 0 <= j < 4 implies #[trigger] self.model().hands[j] == want.hands[j] by {
                if j == seat {
                } else {
                    assert(self.hands@[j] == pre.hands@[j]);
                }
            }
            assert forall|j: int| 0 <= j < 4 implies #[trigger] self.model().melds[j] == want.melds[j] by {
                if j == seat {
                    assert(groups_v(self.melds@[j]@) =~= groups_v(pre.melds@[j]@).push(strs_v(meld_v@)));
                } else {
                    assert(self.melds@[j] == pre.melds@[j]);
                }
            }
            assert forall|j: int| 0 <= j < 4 implies #[trigger] self.model().drawn[j] == want.drawn[j] by {
                if j == seat {
                } else {
                    assert(self.current_drawn_tile_ids@[j] == pre.current_drawn_tile_ids@[j]);
                }
            }
            assert(self.model().hands =~= want.hands);
            assert(self.model().melds =~= want.melds);
            assert(self.model().drawn =~= want.drawn);
            assert(self.model() =~= want);
        }
    }

    /// A concealed kong of `tile_key` declared by the seat.
    pub fn apply_concealed_kong(&mut self, seat: usize, tile_key: &String)
        requires
            old(self).inv(),
            seat < 4,
        ensures
            final(self).inv(),
            final(self).match_id == old(self).match_id,
            final(self).next_sequence == old(self).next_sequence,
            final(self).model() == after_concealed_kong(old(self).model(), seat, tile_key@),
    {
        let ghost m = self.model();
        remove_tiles(&mut self.hands[seat], tile_key.as_str(), 4);
        let meld = copies_exec(tile_key.as_str(), 4);
        let ghost meld_v = meld;
        self.melds[seat].push(meld);
        self.current_drawn_tile_ids.set(seat, None);
        proof {
            let want = after_concealed_kong(m, seat, tile_key@);
            assert forall|j: int| 0 <= j < 4 implies #[trigger] self.model().hands[j] == want.hands[j] by {
                if j == seat {
                } else {
                    assert(self.hands@[j] == old(self).hands@[j]);
                }
            }
            assert forall|j: int| 0 <= j < 4 implies #[trigger] self.model().melds[j] == want.melds[j] by {
                if j == seat {
                    assert(groups_v(self.melds@[j]@) =~= groups_v(old(self).melds@[j]@).push(strs_v(meld_v@)));
                } else {
                    assert(self.melds@[j] == old(self).melds@[j]);
                }
            }
            assert forall|j: int| 0 <= j < 4 implies #[trigger] self.model().drawn[j] == want.drawn[j] by {
                if j == seat {
                } else {
                    assert(self.current_drawn_tile_ids@[j] == old(self).current_drawn_tile_ids@[j]);
                }
            }
            assert(self.model().hands =~= want.hands);
            assert(self.model().melds =~= want.melds);
            assert(self.model().drawn =~= want.drawn);
            assert(self.model() =~= want);
        }
    }

    /// A kong added by the seat to its pung of `tile_key`.
    pub fn apply_add_kong(&mut self, seat: usize, tile_key: &String)
        requires
            old(self).inv(),
            seat < 4,
        ensures
            final(self).inv(),
            final(self).match_id == old(self).match_id,
            final(self).next_sequence == old(self).next_sequence,
            final(self).model() == after_add_kong(old(self).model(), seat, tile_key@),
    {
        let ghost m = self.model();
        let ghost want = after_add_kong(m, seat, tile_key@);
        remove_one_tile(&mut self.hands[seat], tile_key.as_str());
        self.current_drawn_tile_ids.set(seat, None);
        proof {
            assert forall|j: int| 0 <= j < 4 implies #[trigger] self.model().hands[j] == want.hands[j] by {
                if j != seat {
                    assert(self.hands@[j] == old(self).hands@[j]);
                }
            }
            assert forall|j: int| 0 <= j < 4 implies #[trigger] self.model().drawn[j] == want.drawn[j] by {
                if j != seat {
                    assert(self.current_drawn_tile_ids@[j] == old(self).current_drawn_tile_ids@[j]);
                }
            }
            assert(self.model().hands =~= want.hands);
            assert(self.model().drawn =~= want.drawn);
        }
        let ghost mid = *self;
        let ghost ms = m.melds[seat as int];
        let mut i: usize = 0;
        while i < self.melds[seat].len()
            invariant
                *self == mid,
                mid.inv(),
                old(self).inv(),
                m == old(self).model(),
                want == after_add_kong(m, seat, tile_key@),
                ms == m.melds[seat as int],
                mid.match_id == old(self).match_id,
                mid.next_sequence == old(self).next_sequence,
                mid.discards == old(self).discards,
                mid.discard_history == old(self).discard_history,
                mid.wall_tiles_remaining == old(self).wall_tiles_remaining,
                mid.last_discard_tile_key == old(self).last_discard_tile_key,
                mid.last_discarder_seat == old(self).last_discarder_seat,
                mid.restricted_discard_tile_key == old(self).restricted_discard_tile_key,
                seat < 4,
                mid.melds@ == old(self).melds@,
                mid.model().hands == want.hands,
                mid.model().drawn == want.drawn,
                ms == groups_v(self.melds@[seat as int]@),
                i <= ms.len(),
                forall|j: int| 0 <= j < i ==> !is_pung_of(#[trigger] ms[j], tile_key@),
            decreases ms.len() - i,
        {
            if self.melds[seat][i].len() == 3 && all_equal(&self.melds[seat][i], tile_key.as_str()) {
                proof {
                    let mv = self.melds@[seat as int]@[i as int]@;
                    assert(strs_v(mv) == ms[i as int]);
                    assert forall|j: int| 0 <= j < 3 implies #[trigger] ms[i as int][j] == tile_key@ by {
                        assert(mv[j]@ == tile_key@);
                    }
                    assert(is_pung_of(ms[i as int], tile_key@));
                    lemma_first_pung_of(ms, tile_key@, 0, i as int);
                }
                let ghost before = self.melds@[seat as int]@;
                self.melds[seat][i].push(tile_key.clone());
                proof {
                    let after = self.melds@[seat as int]@;
                    assert forall|k: int| 0 <= k < after.len() implies #[trigger] groups_v(after)[k] == ms.update(
                        i as int,
                        ms[i as int].push(tile_key@),
                    )[k] by {
                        if k == i {
                            assert(strs_v(after[k]@) =~= strs_v(before[k]@).push(tile_key@));
                        } else {
                            assert(after[k] == before[k]);
                        }
                    }
                    assert(first_pung_of(ms, tile_key@, 0) == Some(i as int));
                    assert(want.melds == m.melds.update(seat as int, ms.update(i as int, ms[i as int].push(tile_key@))));
                    assert(m.melds.len() == 4);
                    assert forall|j: int| 0 <= j < 4 implies #[trigger] self.model().melds[j] == want.melds[j] by {
                        if j == seat {
                            assert(groups_v(self.melds@[j]@) =~= ms.update(i as int, ms[i as int].push(tile_key@)));
                        } else {
                            assert(self.melds@[j] == old(self).melds@[j]);
                        }
                    }
                    assert(self.model().melds =~= want.melds);
                    assert(self.model() =~= want);
                }
                return;
            }
            proof {
                let mv = self.melds@[seat as int]@[i as int]@;
                assert(strs_v(mv) == ms[i as int]);
                if is_pung_of(ms[i as int], tile_key@) {
                    assert forall|j: int| 0 <= j < mv.len() implies #[trigger] mv[j]@ == tile_key@ by {
                        assert(strs_v(mv)[j] == mv[j]@);
                    }
                }
            }
            i += 1;
        }
        proof {
            lemma_first_pung_of(ms, tile_key@, 0, i as int);
            assert(self.model() =~= want);
        }
    }
}

/// The hand after each tile named by an id leaves it, one at a time: the first tile of the
/// named tile's key goes.
pub open spec fn remove_tiles_with_ids(hand: Seq<TileV>, ids: Seq<Seq<char>>) -> Seq<TileV>
    decreases ids.len(),
{
    if ids.len() == 0 {
        hand
    } else {
        let h = remove_tiles_with_ids(hand, ids.drop_last());
        match key_of_id(h, ids.last()) {
            Some(k) => remove_one(h, k),
            None => h,
        }
    }
}

/// A chow with middle `middle` claimed by the seat on the last discard: the discard leaves
/// its discarder's discards, the run's tiles leave the hand, the run joins the seat's melds,
/// and the discarded key may not be discarded at once.
pub open spec fn after_chow(m: ReplayModel, seat: usize, middle: Seq<char>) -> ReplayModel {
    match m.last_discard {
        None => m,
        Some(ld) => {
            let m1 = without_claimed_discard(m, ld);
            let hand = m1.hands[seat as int];
            let new_hand = match chow_ids_for_middle(hand, ld, middle) {
                Some(ids) => remove_tiles_with_ids(hand, ids),
                None => hand,
            };
            ReplayModel {
                hands: m1.hands.update(seat as int, new_hand),
                melds: m1.melds.update(seat as int, m1.melds[seat as int].push(chow_group(ld, middle))),
                drawn: m1.drawn.update(seat as int, None),
                restricted: Some(ld),
                last_discard: None,
                last_discarder: None,
                ..m1
            }
        },
    }
}

/// Tiles dealt to the seats before `seat`.
pub open spec fn dealt_before(deals: Seq<Seq<Seq<char>>>, seat: int) -> int
    decreases seat,
{
    if seat <= 0 {
        0
    } else {
        dealt_before(deals, seat - 1) + deals[seat - 1].len()
    }
}

/// The dealt hand of a seat, its tiles numbered on from `start`.
pub open spec fn dealt_hand(match_id: Seq<char>, seat: usize, deal: Seq<Seq<char>>, start: int) -> Seq<TileV> {
    Seq::new(deal.len(), |j: int| made_tile(match_id, seat, start + j, deal[j]))
}

/// The tables as dealt: the dealt hands, numbered seat by seat; an empty wall where 136 tiles
/// or more were dealt, else the rest of the 136.
pub open spec fn initial_model(match_id: Seq<char>, deals: Seq<Seq<Seq<char>>>) -> ReplayModel {
    let total = dealt_before(deals, 4);
    ReplayModel {
        hands: Seq::new(4, |s: int| dealt_hand(match_id, s as usize, deals[s], dealt_before(deals, s))),
        discards: Seq::new(4, |s: int| Seq::<Seq<char>>::empty()),
        history: Seq::empty(),
        melds: Seq::new(4, |s: int| Seq::<Seq<Seq<char>>>::empty()),
        wall: if total >= 136 {
            0
        } else {
            (136 - total) as i64
        },
        last_discard: None,
        last_discarder: None,
        drawn: Seq::new(4, |s: int| None::<Seq<char>>),
        restricted: None,
        next_sequence: total,
    }
}

pub open spec fn deals_v(record: BotZoneMatch) -> Seq<Seq<Seq<char>>> {
    groups_v(record.deals@)
}

proof fn lemma_dealt_before_mono(deals: Seq<Seq<Seq<char>>>, a: int, b: int)
    requires
        0 <= a <= b,
    ensures
        dealt_before(deals, a) <= dealt_before(deals, b),
    decreases b,
{
    if a < b {
        lemma_dealt_before_mono(deals, a, b - 1);
    }
}

impl ReplayState {
    /// The tables as the record dealt them.
    pub fn new(record: &BotZoneMatch) -> (r: Self)
        requires
            dealt_before(deals_v(*record), 4) < usize::MAX,
        ensures
            r.inv(),
            r.match_id@ == record.match_id@,
            r.model() == initial_model(record.match_id@, deals_v(*record)),
    {
        let ghost deals = deals_v(*record);
        let ghost mid = record.match_id@;
        let mut hands: Vec<Vec<SerializableBotTile>> = Vec::new();
        let mut next_sequence: usize = 0;
        let mut seat: usize = 0;
        while seat < 4
            invariant
                deals == deals_v(*record),
                deals.len() == 4,
                mid == record.match_id@,
                dealt_before(deals, 4) < usize::MAX,
                seat <= 4,
                hands@.len() == seat,
                next_sequence == dealt_before(deals, seat as int),
                forall|s: int| 0 <= s < seat ==> tiles_v(#[trigger] hands@[s]@) == dealt_hand(mid, s as usize, deals[s], dealt_before(deals, s)),
            decreases 4 - seat,
        {
            let deal = &record.deals[seat];
            assert(deals[seat as int] == strs_v(deal@));
            let ghost start = next_sequence as int;
            let mut hand: Vec<SerializableBotTile> = Vec::new();
            let mut j: usize = 0;
            proof {
                lemma_dealt_before_mono(deals, seat + 1, 4);
            }
            while j < deal.len()
                invariant
                    deals[seat as int] == strs_v(deal@),
                    deals.len() == 4,
                    mid == record.match_id@,
                    start == dealt_before(deals, seat as int),
                    dealt_before(deals, seat + 1) < usize::MAX,
                    dealt_before(deals, seat + 1) == start + deal@.len(),
                    seat < 4,
                    j <= deal@.len(),
                    next_sequence == start + j,
                    tiles_v(hand@) == dealt_hand(mid, seat, deals[seat as int], start).take(j as int),
                decreases deal@.len() - j,
            {
                let tile = make_tile(&record.match_id, seat, next_sequence, &deal[j]);
                let ghost before = tiles_v(hand@);
                hand.push(tile);
                proof {
                    assert(deals[seat as int][j as int] == deal@[j as int]@);
                    assert(tiles_v(hand@) =~= before.push(made_tile(mid, seat, start + j, deals[seat as int][j as int])));
                    assert(tiles_v(hand@) =~= dealt_hand(mid, seat, deals[seat as int], start).take(j + 1));
                }
                next_sequence = next_sequence + 1;
                j += 1;
            }
            proof {
                assert(dealt_hand(mid, seat, deals[seat as int], start).take(j as int) =~= dealt_hand(
                    mid,
                    seat,
                    deals[seat as int],
                    start,
                ));
            }
            hands.push(hand);
            seat += 1;
        }
        let total = next_sequence;
        let wall: i64 = if total >= 136 {
            0
        } else {
            (136 - total) as i64
        };
        let mut discards: Vec<Vec<String>> = Vec::new();
        let mut melds: Vec<Vec<Vec<String>>> = Vec::new();
        let mut drawn: Vec<Option<String>> = Vec::new();
        let mut k: usize = 0;
        while k < 4
            invariant
                k <= 4,
                discards@.len() == k,
                melds@.len() == k,
                drawn@.len() == k,
                forall|s: int| 0 <= s < k ==> (#[trigger] discards@[s])@.len() == 0,
                forall|s: int| 0 <= s < k ==> (#[trigger] melds@[s])@.len() == 0,
                forall|s: int| 0 <= s < k ==> (#[trigger] drawn@[s]) is None,
            decreases 4 - k,
        {
            discards.push(Vec::new());
            melds.push(Vec::new());
            drawn.push(None);
            k += 1;
        }
        let r = ReplayState {
            match_id: record.match_id.clone(),
            hands,
            discards,
            discard_history: Vec::new(),
            melds,
            wall_tiles_remaining: wall,
            last_discard_tile_key: None,
            last_discarder_seat: None,
            current_drawn_tile_ids: drawn,
            restricted_discard_tile_key: None,
            next_sequence,
        };
        proof {
            let want = initial_model(mid, deals);
            assert(r.model().hands =~= want.hands);
            assert forall|s: int| 0 <= s < 4 implies #[trigger] r.model().discards[s] == want.discards[s] by {
                assert(strs_v(r.discards@[s]@) =~= Seq::<Seq<char>>::empty());
            }
            assert forall|s: int| 0 <= s < 4 implies #[trigger] r.model().melds[s] == want.melds[s] by {
                assert(groups_v(r.melds@[s]@) =~= Seq::<Seq<Seq<char>>>::empty());
            }
            assert(r.model().discards =~= want.discards);
            assert(r.model().melds =~= want.melds);
            assert(r.model().drawn =~= want.drawn);
            assert(r.model().history =~= want.history);
            assert(r.model() =~= want);
        }
        r
    }

    /// A chow with middle `middle_tile_key` claimed by the seat on the last discard.
    pub fn apply_chow(&mut self, seat: usize, middle_tile_key: &String)
        requires
            old(self).inv(),
            seat < 4,
        ensures
            final(self).inv(),
            final(self).match_id == old(self).match_id,
            final(self).next_sequence == old(self).next_sequence,
            final(self).model() == after_chow(old(self).model(), seat, middle_tile_key@),
    {
        let last = match &self.last_discard_tile_key {
            Some(k) => k.clone(),
            None => {
                return;
            },
        };
        self.remove_claimed_discard_from_discards(last.as_str());
        let ghost pre = *self;
        let ghost h0 = tiles_v(self.hands@[seat as int]@);
        match chow_tile_ids_for_middle(&self.hands[seat], last.as_str(), middle_tile_key.as_str()) {
            Some(ids) => {
                let ghost is = strs_v(ids@);
                let mut k: usize = 0;
                while k < ids.len()
                    invariant
                        is == strs_v(ids@),
                        k <= ids@.len(),
                        seat < 4,
                        pre.inv(),
                        self.inv(),
                        self.hands@.len() == 4,
                        forall|j: int| 0 <= j < 4 && j != seat ==> #[trigger] self.hands@[j] == pre.hands@[j],
                        tiles_v(self.hands@[seat as int]@) == remove_tiles_with_ids(h0, is.take(k as int)),
                        self.match_id == pre.match_id,
                        self.next_sequence == pre.next_sequence,
                        self.discards == pre.discards,
                        self.discard_history == pre.discard_history,
                        self.melds == pre.melds,
                        self.wall_tiles_remaining == pre.wall_tiles_remaining,
                        self.last_discard_tile_key == pre.last_discard_tile_key,
                        self.last_discarder_seat == pre.last_discarder_seat,
                        self.current_drawn_tile_ids == pre.current_drawn_tile_ids,
                        self.restricted_discard_tile_key == pre.restricted_discard_tile_key,
                    decreases ids@.len() - k,
                {
                    proof {
                        assert(is.take(k + 1).drop_last() =~= is.take(k as int));
                        assert(is.take(k + 1).last() == ids@[k as int]@);
                    }
                    match key_of_id_exec(&self.hands[seat], ids[k].as_str()) {
                        Some(key) => {
                            remove_one_tile(&mut self.hands[seat], key.as_str());
                        },
                        None => {},
                    }
                    k += 1;
                }
                assert(is.take(k as int) =~= is);
            },
            None => {},
        }
        let group = chow_group_exec(last.as_str(), middle_tile_key.as_str());
        let ghost group_v = strs_v(group@);
        let ghost mid = *self;
        self.melds[seat].push(group);
        self.current_drawn_tile_ids.set(seat, None);
        self.restricted_discard_tile_key = Some(last);
        self.last_discard_tile_key = None;
        self.last_discarder_seat = None;
        proof {
            let want = after_chow(old(self).model(), seat, middle_tile_key@);
            assert forall|j: int| 0 <= j < 4 implies #[trigger] self.model().hands[j] == want.hands[j] by {
                if j != seat {
                    assert(self.hands@[j] == pre.hands@[j]);
                }
            }
            assert forall|j: int| 0 <= j < 4 implies #[trigger] self.model().melds[j] == want.melds[j] by {
                if j == seat {
                    assert(groups_v(self.melds@[j]@) =~= groups_v(pre.melds@[j]@).push(group_v));
                } else {
                    assert(self.melds@[j] == pre.melds@[j]);
                }
            }
            assert forall|j: int| 0 <= j < 4 implies #[trigger] self.model().drawn[j] == want.drawn[j] by {
                if j != seat {
                    assert(self.current_drawn_tile_ids@[j] == pre.current_drawn_tile_ids@[j]);
                }
            }
            assert(self.model().hands =~= want.hands);
            assert(self.model().melds =~= want.melds);
            assert(self.model().drawn =~= want.drawn);
            assert(self.model() =~= want);
        }
    }
}

} // verus!
