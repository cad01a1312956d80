use vstd::prelude::*;

use crate::state::{ContinueActionState, RoomState, SeatState};
use crate::text::{owned, str_equal};
use crate::tile::clone_seats;

verus! {

/// The seats that people play, in seat order.
pub open spec fn human_seats(seats: Seq<SeatState>) -> Seq<usize>
    decreases seats.len(),
{
    if seats.len() == 0 {
        Seq::empty()
    } else {
        let rest = human_seats(seats.drop_last());
        if !seats.last().is_bot {
            rest.push(seats.last().seat_index)
        } else {
            rest
        }
    }
}

/// The seats that people play and that are connected, in seat order.
pub open spec fn online_human_seats(seats: Seq<SeatState>) -> Seq<usize>
    decreases seats.len(),
{
    if seats.len() == 0 {
        Seq::empty()
    } else {
        let rest = online_human_seats(seats.drop_last());
        if !seats.last().is_bot && seats.last().connected {
            rest.push(seats.last().seat_index)
        } else {
            rest
        }
    }
}

/// Whether a continue action is `id`, with the given confirmations and deadline, waiting on
/// the seats that people play, of which those connected are online.
pub open spec fn continue_action_is(
    a: ContinueActionState,
    id: Seq<char>,
    seats: Seq<SeatState>,
    confirmed: Seq<usize>,
    deadline: Option<String>,
) -> bool {
    &&& a.action_id@ == id
    &&& a.confirmed_seats@ == confirmed
    &&& a.required_seats@ == human_seats(seats)
    &&& a.online_seats@ == online_human_seats(seats)
    &&& a.auto_advance_deadline_at == deadline
}

/// The action that the room waits on after a round: the next round in settlement, a new
/// match once the match is finished, none otherwise.
pub open spec fn continue_action_id(phase: Seq<char>) -> Option<Seq<char>> {
    if phase == "settlement"@ {
        Some("start_next_round"@)
    } else if phase == "finished"@ {
        Some("restart_match"@)
    } else {
        None
    }
}

fn seat_lists(seats: &Vec<SeatState>) -> (r: (Vec<usize>, Vec<usize>))
    ensures
        r.0@ == human_seats(seats@),
        r.1@ == online_human_seats(seats@),
{
    let mut required: Vec<usize> = Vec::new();
    let mut online: Vec<usize> = Vec::new();
    let mut i: usize = 0;
    while i < seats.len()
        invariant
            i <= seats@.len(),
            required@ == human_seats(seats@.take(i as int)),
            online@ == online_human_seats(seats@.take(i as int)),
        decreases seats@.len() - i,
    {
        proof {
            assert(seats@.take(i + 1).drop_last() =~= seats@.take(i as int));
        }
        if !seats[i].is_bot {
            required.push(seats[i].seat_index);
            if seats[i].connected {
                online.push(seats[i].seat_index);
            }
        }
        i += 1;
    }
    assert(seats@.take(i as int) =~= seats@);
    (required, online)
}

/// Makes the room's continue action `action_id`, waiting on the seats that people play; an
/// existing action keeps its confirmations and deadline.
pub fn ensure_continue_action(room: &mut RoomState, action_id: &str)
    ensures
        *final(room) == (RoomState { continue_action: final(room).continue_action, ..*old(room) }),
        final(room).continue_action matches Some(a) && continue_action_is(
            a,
            action_id@,
            old(room).seats@,
            match old(room).continue_action {
                Some(prior) => prior.confirmed_seats@,
                None => Seq::empty(),
            },
            match old(room).continue_action {
                Some(prior) => prior.auto_advance_deadline_at,
                None => None,
            },
        ),
{
    let (required_seats, online_seats) = seat_lists(&room.seats);
    let (confirmed_seats, deadline) = match &room.continue_action {
        Some(prior) => (clone_seats(&prior.confirmed_seats), prior.auto_advance_deadline_at.clone()),
        None => (Vec::new(), None),
    };
    room.continue_action = Some(
        ContinueActionState {
            action_id: owned(action_id),
            confirmed_seats,
            required_seats,
            online_seats,
            auto_advance_deadline_at: deadline,
        },
    );
}

/// The confirmations and deadline that carry over to the action `id`: those of the room's
/// action where it is `id`, else none.
pub open spec fn carried(prior: Option<ContinueActionState>, id: Seq<char>) -> (Seq<usize>, Option<String>) {
    match prior {
        Some(a) => if a.action_id@ == id {
            (a.confirmed_seats@, a.auto_advance_deadline_at)
        } else {
            (Seq::empty(), None)
        },
        None => (Seq::empty(), None),
    }
}

/// Whether `after` is `before` with its continue action brought in line with its phase.
pub open spec fn refreshed(before: RoomState, after: RoomState) -> bool {
    &&& after == (RoomState { continue_action: after.continue_action, ..before })
    &&& match continue_action_id(before.phase@) {
        None => after.continue_action is None,
        Some(id) => after.continue_action matches Some(a) && continue_action_is(
            a,
            id,
            before.seats@,
            carried(before.continue_action, id).0,
            carried(before.continue_action, id).1,
        ),
    }
}

/// A continue action by value.
pub open spec fn continue_action_v(a: Option<ContinueActionState>) -> Option<
    (Seq<char>, Seq<usize>, Seq<usize>, Seq<usize>, Option<String>),
> {
    match a {
        Some(a) => Some((a.action_id@, a.confirmed_seats@, a.required_seats@, a.online_seats@, a.auto_advance_deadline_at)),
        None => None,
    }
}

/// Refreshing a room's continue action a second time changes nothing more.
pub proof fn refresh_is_idempotent(first: RoomState, once: RoomState, twice: RoomState)
    requires
        refreshed(first, once),
        refreshed(once, twice),
    ensures
        continue_action_v(twice.continue_action) == continue_action_v(once.continue_action),
        (RoomState { continue_action: once.continue_action, ..twice }) == once,
{
}

/// Brings the room's continue action in line with its phase: in settlement the next round,
/// once finished a new match, each waiting on the seats that people play and keeping what
/// was confirmed for that same action; no action in other phases.
pub fn refresh_continue_action_state(room: &mut RoomState)
    ensures
        refreshed(*old(room), *final(room)),
{
    let action_id: &str = if str_equal(room.phase.as_str(), "settlement") {
        "start_next_round"
    } else if str_equal(room.phase.as_str(), "finished") {
        "restart_match"
    } else {
        room.continue_action = None;
        return;
    };
    let (confirmed, deadline) = match &room.continue_action {
        Some(prior) => if str_equal(prior.action_id.as_str(), action_id) {
            (clone_seats(&prior.confirmed_seats), prior.auto_advance_deadline_at.clone())
        } else {
            (Vec::new(), None)
        },
        None => (Vec::new(), None),
    };
    ensure_continue_action(room, action_id);
    match &mut room.continue_action {
        Some(action) => {
            action.confirmed_seats = confirmed;
            action.auto_advance_deadline_at = deadline;
        },
        None => {},
    }
}

} // verus!
