use vstd::prelude::*;

use crate::evaluation::EVALUATION_ROOM_MODE;
use crate::state::{RoomState, SeatState};
use crate::text::str_equal;
use crate::tile::clone_strings;

verus! {

/// A minimum fan that a table may be set to: 0, 2, 4, 6 or 8.
pub open spec fn is_allowed_minimum_hu_fan(value: i64) -> bool {
    value == 0 || value == 2 || value == 4 || value == 6 || value == 8
}

/// The requested minimum fan, where a table may be set to it.
pub fn normalize_minimum_hu_fan(value: i64) -> (r: Option<i64>)
    ensures
        is_allowed_minimum_hu_fan(value) ==> r == Some(value),
        !is_allowed_minimum_hu_fan(value) ==> r is None,
{
    if value == 0 || value == 2 || value == 4 || value == 6 || value == 8 {
        Some(value)
    } else {
        None
    }
}

/// Whether a room is an evaluation table.
pub fn room_is_evaluation(room: &RoomState) -> (r: bool)
    ensures
        r == (room.mode@ == EVALUATION_ROOM_MODE@),
{
    str_equal(room.mode.as_str(), EVALUATION_ROOM_MODE)
}

/// Index of the first seat at or after `from` that the user holds.
pub open spec fn user_seat_from(seats: Seq<SeatState>, user_id: i64, from: int) -> Option<int>
    decreases seats.len() - from,
{
    if from < 0 || from >= seats.len() {
        None
    } else if seats[from].user_id == Some(user_id) {
        Some(from)
    } else {
        user_seat_from(seats, user_id, from + 1)
    }
}

/// Whether `seat` is the fallback seat and free or the user's own.
pub open spec fn fallback_fits(seat: SeatState, user_id: i64, fallback_seat_index: usize) -> bool {
    seat.seat_index == fallback_seat_index && (seat.user_id is None || seat.user_id == Some(user_id))
}

/// Index of the first seat at or after `from` that fits as the fallback.
pub open spec fn fallback_seat_from(
    seats: Seq<SeatState>,
    user_id: i64,
    fallback_seat_index: usize,
    from: int,
) -> Option<int>
    decreases seats.len() - from,
{
    if from < 0 || from >= seats.len() {
        None
    } else if fallback_fits(seats[from], user_id, fallback_seat_index) {
        Some(from)
    } else {
        fallback_seat_from(seats, user_id, fallback_seat_index, from + 1)
    }
}

/// The seat of a user: the first seat that the user holds, else the fallback seat where it is
/// free or the user's own.
pub open spec fn seat_for_user(seats: Seq<SeatState>, user_id: i64, fallback_seat_index: usize) -> Option<usize> {
    match user_seat_from(seats, user_id, 0) {
        Some(i) => Some(seats[i].seat_index),
        None => match fallback_seat_from(seats, user_id, fallback_seat_index, 0) {
            Some(i) => Some(seats[i].seat_index),
            None => None,
        },
    }
}

proof fn lemma_user_seat_from(seats: Seq<SeatState>, user_id: i64, from: int, k: int)
    requires
        0 <= from <= k <= seats.len(),
        forall|j: int| from <= j < k ==> (#[trigger] seats[j]).user_id != Some(user_id),
    ensures
        k == seats.len() ==> user_seat_from(seats, user_id, from) is None,
        k < seats.len() && seats[k].user_id == Some(user_id) ==> user_seat_from(seats, user_id, from)
            == Some(k),
    decreases k - from,
{
    if from < k {
        lemma_user_seat_from(seats, user_id, from + 1, k);
    }
}

proof fn lemma_fallback_seat_from(
    seats: Seq<SeatState>,
    user_id: i64,
    fallback_seat_index: usize,
    from: int,
    k: int,
)
    requires
        0 <= from <= k <= seats.len(),
        forall|j: int| from <= j < k ==> !fallback_fits(#[trigger] seats[j], user_id, fallback_seat_index),
    ensures
        k == seats.len() ==> fallback_seat_from(seats, user_id, fallback_seat_index, from) is None,
        k < seats.len() && fallback_fits(seats[k], user_id, fallback_seat_index) ==> fallback_seat_from(
            seats,
            user_id,
            fallback_seat_index,
            from,
        ) == Some(k),
    decreases k - from,
{
    if from < k {
        lemma_fallback_seat_from(seats, user_id, fallback_seat_index, from + 1, k);
    }
}

/// The seat of a user at a table.
pub fn current_seat_index_for_user(room: &RoomState, user_id: i64, fallback_seat_index: usize) -> (r:
    Option<usize>)
    ensures
        r == seat_for_user(room.seats@, user_id, fallback_seat_index),
{
    let seats = &room.seats;
    let mut i: usize = 0;
    while i < seats.len()
        invariant
            *seats == room.seats,
            i <= seats@.len(),
            forall|j: int| 0 <= j < i ==> (#[trigger] seats@[j]).user_id != Some(user_id),
        decreases seats@.len() - i,
    {
        let holds = match seats[i].user_id {
            Some(id) => id == user_id,
            None => false,
        };
        if holds {
            proof {
                lemma_user_seat_from(seats@, user_id, 0, i as int);
            }
            return Some(seats[i].seat_index);
        }
        i += 1;
    }
    proof {
        lemma_user_seat_from(seats@, user_id, 0, i as int);
    }
    let mut k: usize = 0;
    while k < seats.len()
        invariant
            *seats == room.seats,
            k <= seats@.len(),
            user_seat_from(seats@, user_id, 0) is None,
            forall|j: int| 0 <= j < k ==> !fallback_fits(#[trigger] seats@[j], user_id, fallback_seat_index),
        decreases seats@.len() - k,
    {
        let seat = &seats[k];
        let free_or_own = match seat.user_id {
            None => true,
            Some(id) => id == user_id,
        };
        if seat.seat_index == fallback_seat_index && free_or_own {
            proof {
                lemma_fallback_seat_from(seats@, user_id, fallback_seat_index, 0, k as int);
            }
            return Some(seat.seat_index);
        }
        k += 1;
    }
    proof {
        lemma_fallback_seat_from(seats@, user_id, fallback_seat_index, 0, k as int);
    }
    None
}

/// What a connection is: not yet seated, or the player of a seat.
#[derive(Debug, Clone, Copy, PartialEq, Eq)]
pub enum ConnectionRole {
    Unbound,
    Player { seat_index: usize },
}

impl ConnectionRole {
    /// The seat that the connection plays, if any.
    pub fn owned_seat(self) -> (r: Option<usize>)
        ensures
            r == match self {
                ConnectionRole::Player { seat_index } => Some(seat_index),
                ConnectionRole::Unbound => None,
            },
    {
        match self {
            ConnectionRole::Player { seat_index } => Some(seat_index),
            ConnectionRole::Unbound => None,
        }
    }
}

/// A player's request to act: the action and the tiles it names.
#[derive(Debug, Clone, PartialEq, Eq, Default)]
pub struct ActionRequest {
    pub action_type: String,
    pub tile_ids: Vec<String>,
}

impl ActionRequest {
    /// The tile ids of the request.
    pub fn tile_id_strings(&self) -> (r: Vec<String>)
        ensures
            r@ == self.tile_ids@,
    {
        clone_strings(&self.tile_ids)
    }
}

/// Whether a seat is played by an independent bot: a `bot` seat, or an untyped seat marked
/// as a bot.
pub open spec fn spec_is_independent_bot_seat(seat: SeatState) -> bool {
    seat.seat_type@ == "bot"@ || (seat.seat_type@.len() == 0 && seat.is_bot)
}

/// Whether a seat is played by an independent bot.
pub fn is_independent_bot_seat(seat: &SeatState) -> (r: bool)
    ensures
        r == spec_is_independent_bot_seat(*seat),
{
    str_equal(seat.seat_type.as_str(), "bot") || (crate::text::chars_of(seat.seat_type.as_str()).len() == 0 && seat.is_bot)
}

/// Whether a seat keeps a table's results out of the public records: an independent bot does.
pub fn seat_blocks_public_records(seat: &SeatState) -> (r: bool)
    ensures
        r == spec_is_independent_bot_seat(*seat),
{
    is_independent_bot_seat(seat)
}

} // verus!
