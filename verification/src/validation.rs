use vstd::prelude::*;

use crate::action::PlayerAction;
use crate::command::EngineContext;
use crate::state::{contains_seat, PendingAction, RoomState, RoundState};
use crate::text::str_equal;
use crate::tile::Tile;

verus! {

/// How the engine handles a player action locally.
#[derive(Debug, Clone, Copy, PartialEq, Eq)]
pub enum LocalPlayerActionKind {
    Hu,
    Flower,
    Discard,
    ReadyHand,
    ClaimWindow,
    SelfKong,
    RobKongPass,
}

/// Index of the first tile, at or after `from`, whose id is `id`.
pub open spec fn find_tile_from(tiles: Seq<Tile>, id: Seq<char>, from: int) -> Option<int>
    decreases tiles.len() - from,
{
    if from < 0 || from >= tiles.len() {
        None
    } else if tiles[from].tile_id@ == id {
        Some(from)
    } else {
        find_tile_from(tiles, id, from + 1)
    }
}

/// Index of the first tile whose id is `id`.
pub open spec fn find_tile(tiles: Seq<Tile>, id: Seq<char>) -> Option<int> {
    find_tile_from(tiles, id, 0)
}

pub proof fn lemma_find_tile_from(tiles: Seq<Tile>, id: Seq<char>, from: int, k: int)
    requires
        0 <= from <= k <= tiles.len(),
        forall|j: int| from <= j < k ==> tiles[j].tile_id@ != id,
    ensures
        k == tiles.len() ==> find_tile_from(tiles, id, from) is None,
        k < tiles.len() && tiles[k].tile_id@ == id ==> find_tile_from(tiles, id, from) == Some(k),
    decreases k - from,
{
    if from < k {
        lemma_find_tile_from(tiles, id, from + 1, k);
    }
}

/// Position of the first tile whose id is `tile_id`.
pub fn position_of_tile(tiles: &Vec<Tile>, tile_id: &str) -> (r: Option<usize>)
    ensures
        r matches Some(i) ==> find_tile(tiles@, tile_id@) == Some(i as int) && i < tiles@.len(),
        r is None ==> find_tile(tiles@, tile_id@) is None,
{
    let mut i: usize = 0;
    while i < tiles.len()
        invariant
            i <= tiles@.len(),
            forall|j: int| 0 <= j < i ==> tiles@[j].tile_id@ != tile_id@,
        decreases tiles@.len() - i,
    {
        if str_equal(tiles[i].tile_id.as_str(), tile_id) {
            proof {
                lemma_find_tile_from(tiles@, tile_id@, 0, i as int);
            }
            return Some(i);
        }
        i += 1;
    }
    proof {
        lemma_find_tile_from(tiles@, tile_id@, 0, i as int);
    }
    None
}

/// Whether `actor` may discard the tile `tile_id` now: it is their turn in a playing room,
/// nothing is pending, they have not declared a ready hand, they hold the tile, and its
/// kind is not the one they may not discard this turn.
pub open spec fn spec_discard_supported(room: RoomState, actor: usize, tile_id: Seq<char>) -> bool {
    &&& room.phase@ == "playing"@
    &&& room.round_state matches Some(round)
    &&& round.current_actor == actor
    &&& round.pending_action is None
    &&& actor < round.players@.len()
    &&& !round.players@[actor as int].is_ready_hand
    &&& find_tile(round.players@[actor as int].concealed_tiles@, tile_id) matches Some(i)
    &&& match round.restricted_discard_tile_key {
        Some(restricted) => round.players@[actor as int].concealed_tiles@[i].tile_key@ != restricted@,
        None => true,
    }
}

pub fn discard_supported_locally(context: &EngineContext, actor: usize, tile_id: &str) -> (r: bool)
    ensures
        r == spec_discard_supported(context.room, actor, tile_id@),
{
    if !str_equal(context.room.phase.as_str(), "playing") {
        return false;
    }
    let round = match &context.room.round_state {
        Some(round) => round,
        None => return false,
    };
    if round.current_actor != actor || round.pending_action.is_some() {
        return false;
    }
    if actor >= round.players.len() {
        return false;
    }
    let player = &round.players[actor];
    if player.is_ready_hand {
        return false;
    }
    let index = match position_of_tile(&player.concealed_tiles, tile_id) {
        Some(index) => index,
        None => return false,
    };
    match &round.restricted_discard_tile_key {
        Some(restricted) => !str_equal(player.concealed_tiles[index].tile_key.as_str(), restricted.as_str()),
        None => true,
    }
}

/// Whether `actor` may expose a flower now: it is their turn in a playing room, nothing is
/// pending, and they have not declared a ready hand.
pub open spec fn spec_flower_supported(room: RoomState, actor: usize) -> bool {
    &&& room.phase@ == "playing"@
    &&& room.round_state matches Some(round)
    &&& round.current_actor == actor
    &&& round.pending_action is None
    &&& !(actor < round.players@.len() && round.players@[actor as int].is_ready_hand)
}

fn flower_supported_locally(context: &EngineContext, actor: usize) -> (r: bool)
    ensures
        r == spec_flower_supported(context.room, actor),
{
    if !str_equal(context.room.phase.as_str(), "playing") {
        return false;
    }
    let round = match &context.room.round_state {
        Some(round) => round,
        None => return false,
    };
    if round.current_actor != actor || round.pending_action.is_some() {
        return false;
    }
    !(actor < round.players.len() && round.players[actor].is_ready_hand)
}

/// Whether the seat has declared a ready hand.
pub open spec fn seat_is_ready_hand(round: RoundState, actor: usize) -> bool {
    actor < round.players@.len() && round.players@[actor as int].is_ready_hand
}

/// Whether the list of claim names holds `name`.
pub open spec fn names_contain(names: Seq<String>, name: Seq<char>) -> bool {
    exists|i: int| 0 <= i < names.len() && names[i]@ == name
}

/// Whether `names` holds a string equal to `name`.
pub fn contains_name(names: &Vec<String>, name: &str) -> (r: bool)
    ensures
        r == names_contain(names@, name@),
{
    let mut i: usize = 0;
    while i < names.len()
        invariant
            i <= names@.len(),
            forall|j: int| 0 <= j < i ==> names@[j]@ != name@,
        decreases names@.len() - i,
    {
        if str_equal(names[i].as_str(), name) {
            return true;
        }
        i += 1;
    }
    false
}

/// Whether `actor` may answer the open claim window with `action_type`: the seat was offered
/// claims and has not answered; a seat with a ready hand may only take `hu` or `kong`
/// and only when offered; others may pass or take any offered claim.
pub open spec fn spec_claim_window_supported(room: RoomState, actor: usize, action_type: Seq<char>) -> bool {
    &&& room.round_state matches Some(round)
    &&& round.pending_action matches Some(PendingAction::ClaimWindow(claim))
    &&& actor < claim.claim_window@.len()
    &&& claim.claim_window@[actor as int]@.len() > 0
    &&& !claim.responded_seats@.contains(actor)
    &&& if seat_is_ready_hand(round, actor) {
        (action_type == "hu"@ || action_type == "kong"@) && names_contain(
            claim.claim_window@[actor as int]@,
            action_type,
        )
    } else {
        action_type == "pass"@ || names_contain(claim.claim_window@[actor as int]@, action_type)
    }
}

fn claim_window_action_supported(context: &EngineContext, actor: usize, action_type: &str) -> (r: bool)
    ensures
        r == spec_claim_window_supported(context.room, actor, action_type@),
{
    let round = match &context.room.round_state {
        Some(round) => round,
        None => return false,
    };
    let claim = match &round.pending_action {
        Some(PendingAction::ClaimWindow(claim)) => claim,
        _ => return false,
    };
    let is_ready_hand = actor < round.players.len() && round.players[actor].is_ready_hand;
    if actor >= claim.claim_window.len() {
        return false;
    }
    let allowed_claims = &claim.claim_window[actor];
    if allowed_claims.len() == 0 || contains_seat(&claim.responded_seats, actor) {
        return false;
    }
    if is_ready_hand {
        return (str_equal(action_type, "hu") || str_equal(action_type, "kong")) && contains_name(
            allowed_claims,
            action_type,
        );
    }
    str_equal(action_type, "pass") || contains_name(allowed_claims, action_type)
}

/// Whether `actor` may pass on an open rob-kong window: offered, not yet answered, and not
/// holding a declared ready hand.
pub open spec fn spec_rob_kong_pass_supported(room: RoomState, actor: usize) -> bool {
    &&& room.round_state matches Some(round)
    &&& !seat_is_ready_hand(round, actor)
    &&& round.pending_action matches Some(PendingAction::RobKongWindow(rob))
    &&& rob.offered_hu_seats@.contains(actor)
    &&& !rob.responded_seats@.contains(actor)
}

fn rob_kong_pass_supported(context: &EngineContext, actor: usize) -> (r: bool)
    ensures
        r == spec_rob_kong_pass_supported(context.room, actor),
{
    let round = match &context.room.round_state {
        Some(round) => round,
        None => return false,
    };
    if actor < round.players.len() && round.players[actor].is_ready_hand {
        return false;
    }
    match &round.pending_action {
        Some(PendingAction::RobKongWindow(rob)) => contains_seat(&rob.offered_hu_seats, actor)
            && !contains_seat(&rob.responded_seats, actor),
        _ => false,
    }
}

/// Whether `actor` may declare a kong from their own hand: it is their turn in a playing room
/// and the room waits on an active-turn timeout.
pub open spec fn spec_self_kong_supported(room: RoomState, actor: usize) -> bool {
    &&& room.phase@ == "playing"@
    &&& room.round_state matches Some(round)
    &&& round.current_actor == actor
    &&& room.pending_timeout matches Some(timeout)
    &&& timeout.kind@ == "active_turn"@
}

fn self_kong_supported(context: &EngineContext, actor: usize) -> (r: bool)
    ensures
        r == spec_self_kong_supported(context.room, actor),
{
    if !str_equal(context.room.phase.as_str(), "playing") {
        return false;
    }
    match context.current_actor() {
        Some(current) => {
            if current != actor {
                return false;
            }
        },
        None => return false,
    }
    match &context.room.pending_timeout {
        Some(timeout) => str_equal(timeout.kind.as_str(), "active_turn"),
        None => false,
    }
}

/// How a player action is handled locally, if at all. `ready_hand_allowed` is whether the
/// ready-hand rules let `actor` declare with the named tile.
pub open spec fn spec_classify(
    room: RoomState,
    actor: usize,
    action: PlayerAction,
    ready_hand_allowed: bool,
) -> Option<LocalPlayerActionKind> {
    match action {
        PlayerAction::Hu => Some(LocalPlayerActionKind::Hu),
        PlayerAction::Flower { .. } => if spec_flower_supported(room, actor) {
            Some(LocalPlayerActionKind::Flower)
        } else {
            None
        },
        PlayerAction::Discard { tile_id } => if spec_discard_supported(room, actor, tile_id@) {
            Some(LocalPlayerActionKind::Discard)
        } else {
            None
        },
        PlayerAction::ReadyHand { .. } => if ready_hand_allowed {
            Some(LocalPlayerActionKind::ReadyHand)
        } else {
            None
        },
        PlayerAction::Chow { .. } => if spec_claim_window_supported(room, actor, "chow"@) {
            Some(LocalPlayerActionKind::ClaimWindow)
        } else {
            None
        },
        PlayerAction::Pung { .. } => if spec_claim_window_supported(room, actor, "pung"@) {
            Some(LocalPlayerActionKind::ClaimWindow)
        } else {
            None
        },
        PlayerAction::Kong { .. } => if spec_claim_window_supported(room, actor, "kong"@) {
            Some(LocalPlayerActionKind::ClaimWindow)
        } else if spec_self_kong_supported(room, actor) {
            Some(LocalPlayerActionKind::SelfKong)
        } else {
            None
        },
        PlayerAction::Pass => if spec_claim_window_supported(room, actor, "pass"@) {
            Some(LocalPlayerActionKind::ClaimWindow)
        } else if spec_rob_kong_pass_supported(room, actor) {
            Some(LocalPlayerActionKind::RobKongPass)
        } else {
            None
        },
    }
}

pub fn classify_local_player_action(
    context: &EngineContext,
    actor: usize,
    action: &PlayerAction,
    ready_hand_allowed: bool,
) -> (r: Option<LocalPlayerActionKind>)
    ensures
        r == spec_classify(context.room, actor, *action, ready_hand_allowed),
{
    match action {
        PlayerAction::Hu => Some(LocalPlayerActionKind::Hu),
        PlayerAction::Flower { .. } => if flower_supported_locally(context, actor) {
            Some(LocalPlayerActionKind::Flower)
        } else {
            None
        },
        PlayerAction::Discard { tile_id } => if discard_supported_locally(context, actor, tile_id.as_str()) {
            Some(LocalPlayerActionKind::Discard)
        } else {
            None
        },
        PlayerAction::ReadyHand { .. } => if ready_hand_allowed {
            Some(LocalPlayerActionKind::ReadyHand)
        } else {
            None
        },
        PlayerAction::Chow { .. } => if claim_window_action_supported(context, actor, "chow") {
            Some(LocalPlayerActionKind::ClaimWindow)
        } else {
            None
        },
        PlayerAction::Pung { .. } => if claim_window_action_supported(context, actor, "pung") {
            Some(LocalPlayerActionKind::ClaimWindow)
        } else {
            None
        },
        PlayerAction::Kong { .. } => {
            if claim_window_action_supported(context, actor, "kong") {
                Some(LocalPlayerActionKind::ClaimWindow)
            } else if self_kong_supported(context, actor) {
                Some(LocalPlayerActionKind::SelfKong)
            } else {
                None
            }
        },
        PlayerAction::Pass => {
            if claim_window_action_supported(context, actor, "pass") {
                Some(LocalPlayerActionKind::ClaimWindow)
            } else if rob_kong_pass_supported(context, actor) {
                Some(LocalPlayerActionKind::RobKongPass)
            } else {
                None
            }
        },
    }
}

/// Whether the round's open claim window offers `actor` the claim `name` and `actor` has not
/// answered it yet.
pub open spec fn offered_in_open_window(room: RoomState, actor: usize, name: Seq<char>) -> bool {
    &&& room.round_state matches Some(round)
    &&& round.pending_action matches Some(PendingAction::ClaimWindow(claim))
    &&& actor < claim.claim_window@.len()
    &&& !claim.responded_seats@.contains(actor)
    &&& exists|j: int|
        0 <= j < claim.claim_window@[actor as int]@.len() && (#[trigger] claim.claim_window@[actor as int]@[j])@
            == name
}

/// Whether `actor` has declared a ready hand in the current round.
pub open spec fn holds_ready_hand(room: RoomState, actor: usize) -> bool {
    &&& room.round_state matches Some(round)
    &&& actor < round.players@.len()
    &&& round.players@[actor as int].is_ready_hand
}

/// Claims are answered by what the window offers: a chow or a pung is a claim-window action
/// exactly when the open window offers the seat that very claim, the seat has not answered,
/// and it holds no ready hand, and is refused otherwise; a kong is a claim-window action
/// exactly when the window offers the seat a kong it has not answered, ready hand or not.
pub proof fn claims_follow_the_offered_names(room: RoomState, actor: usize, action: PlayerAction, ready_hand_allowed: bool)
    ensures
        action is Chow ==> (spec_classify(room, actor, action, ready_hand_allowed) == Some(
            LocalPlayerActionKind::ClaimWindow,
        ) <==> offered_in_open_window(room, actor, "chow"@) && !holds_ready_hand(room, actor)),
        action is Chow ==> (spec_classify(room, actor, action, ready_hand_allowed) is None <==> !(
        offered_in_open_window(room, actor, "chow"@) && !holds_ready_hand(room, actor))),
        action is Pung ==> (spec_classify(room, actor, action, ready_hand_allowed) == Some(
            LocalPlayerActionKind::ClaimWindow,
        ) <==> offered_in_open_window(room, actor, "pung"@) && !holds_ready_hand(room, actor)),
        action is Pung ==> (spec_classify(room, actor, action, ready_hand_allowed) is None <==> !(
        offered_in_open_window(room, actor, "pung"@) && !holds_ready_hand(room, actor))),
        action is Kong ==> (spec_classify(room, actor, action, ready_hand_allowed) == Some(
            LocalPlayerActionKind::ClaimWindow,
        ) <==> offered_in_open_window(room, actor, "kong"@)),
        action is Pass ==> (spec_classify(room, actor, action, ready_hand_allowed) == Some(
            LocalPlayerActionKind::ClaimWindow,
        ) <==> (exists|name: Seq<char>| offered_in_open_window(room, actor, name)) && !holds_ready_hand(room, actor)),
{
    reveal_strlit("hu");
    reveal_strlit("kong");
    reveal_strlit("pung");
    reveal_strlit("chow");
    reveal_strlit("pass");
    assert("hu"@.len() == 2 && "kong"@.len() == 4 && "pung"@.len() == 4 && "chow"@.len() == 4 && "pass"@.len() == 4);
    assert("kong"@[0] == 'k' && "pung"@[0] == 'p' && "chow"@[0] == 'c' && "pass"@[1] == 'a' && "pung"@[1] == 'u');
    assert("chow"@ != "hu"@ && "chow"@ != "kong"@ && "chow"@ != "pass"@);
    assert("pung"@ != "hu"@ && "pung"@ != "kong"@ && "pung"@ != "pass"@);
    assert("kong"@ != "pass"@ && "hu"@ != "pass"@);
    if action is Pass {
        if spec_classify(room, actor, action, ready_hand_allowed) == Some(LocalPlayerActionKind::ClaimWindow) {
            let round = room.round_state->0;
            let claim = round.pending_action->0->ClaimWindow_0;
            assert(spec_claim_window_supported(room, actor, "pass"@));
            assert(claim.claim_window@[actor as int]@.len() > 0);
            let name = claim.claim_window@[actor as int]@[0]@;
            assert(offered_in_open_window(room, actor, name));
        }
        if exists|name: Seq<char>| offered_in_open_window(room, actor, name) {
            let name = choose|name: Seq<char>| offered_in_open_window(room, actor, name);
            assert(offered_in_open_window(room, actor, name));
        }
    }
}

} // verus!
