use vstd::prelude::*;

use crate::action::{GameCommand, PlayerAction};
use crate::state::RoomState;
use crate::text::{owned, str_equal};
use crate::tile::clone_strings;

verus! {

/// The room that the engine works on.
#[derive(Debug, Clone)]
pub struct EngineContext {
    pub room: RoomState,
}

impl EngineContext {
    pub fn new(room: RoomState) -> (r: Self)
        ensures
            r.room == room,
    {
        Self { room }
    }

    pub fn from_room_state(room: RoomState) -> (r: Self)
        ensures
            r.room == room,
    {
        Self::new(room)
    }

    /// The seat whose turn it is, when a round is in progress.
    pub fn current_actor(&self) -> (r: Option<usize>)
        ensures
            r == (match self.room.round_state {
                Some(round) => Some(round.current_actor),
                None => None,
            }),
    {
        match &self.room.round_state {
            Some(round) => Some(round.current_actor),
            None => None,
        }
    }
}

/// Whether a wire action name names a player action.
pub open spec fn is_action_name(name: Seq<char>) -> bool {
    name == "hu"@ || name == "flower"@ || name == "discard"@ || name == "ready_hand"@ || name == "chow"@
        || name == "pung"@ || name == "kong"@ || name == "pass"@
}

/// Whether the action name asks for exactly one tile that was not given.
pub open spec fn needs_one_tile_but_got_other(name: Seq<char>, tile_ids: Seq<String>) -> bool {
    (name == "discard"@ || name == "ready_hand"@) && tile_ids.len() != 1
}

/// Whether `a` is the player action that the name and tile ids stand for.
pub open spec fn is_parsed_action(a: PlayerAction, name: Seq<char>, tile_ids: Seq<String>) -> bool {
    if name == "hu"@ {
        a is Hu
    } else if name == "flower"@ {
        a matches PlayerAction::Flower { tile_ids: ids } && ids@ == tile_ids
    } else if name == "discard"@ {
        a matches PlayerAction::Discard { tile_id } && tile_id == tile_ids[0]
    } else if name == "ready_hand"@ {
        a matches PlayerAction::ReadyHand { tile_id } && tile_id == tile_ids[0]
    } else if name == "chow"@ {
        a matches PlayerAction::Chow { tile_ids: ids } && ids@ == tile_ids
    } else if name == "pung"@ {
        a matches PlayerAction::Pung { tile_ids: ids } && ids@ == tile_ids
    } else if name == "kong"@ {
        a matches PlayerAction::Kong { tile_ids: ids } && ids@ == tile_ids
    } else {
        a is Pass
    }
}

/// Parses a player's action request into a game command; `None` for an unknown action name.
pub fn parse_player_command(actor: usize, action_type: &str, tile_ids: &Vec<String>) -> (r: Option<Result<GameCommand, String>>)
    ensures
        !is_action_name(action_type@) ==> r is None,
        needs_one_tile_but_got_other(action_type@, tile_ids@) ==> (r matches Some(Err(e)) && e@
            == "select_tile_first"@),
        is_action_name(action_type@) && !needs_one_tile_but_got_other(action_type@, tile_ids@) ==> (
        r matches Some(Ok(GameCommand::PlayerAction { actor: who, action })) && who == actor
            && is_parsed_action(action, action_type@, tile_ids@)),
{
    proof {
        reveal_strlit("hu");
        reveal_strlit("flower");
        reveal_strlit("discard");
        reveal_strlit("ready_hand");
        reveal_strlit("chow");
        reveal_strlit("pung");
        reveal_strlit("kong");
        reveal_strlit("pass");
        reveal_strlit("select_tile_first");
        assert("hu"@.len() == 2);
        assert("flower"@.len() == 6);
        assert("discard"@.len() == 7);
        assert("ready_hand"@.len() == 10);
        assert("hu"@ != "discard"@ && "hu"@ != "ready_hand"@);
        assert("flower"@ != "discard"@ && "flower"@ != "ready_hand"@);
        assert("chow"@ != "discard"@ && "chow"@ != "ready_hand"@);
        assert("pung"@ != "discard"@ && "pung"@ != "ready_hand"@);
        assert("kong"@ != "discard"@ && "kong"@ != "ready_hand"@);
        assert("pass"@ != "discard"@ && "pass"@ != "ready_hand"@);
    }
    let action = if str_equal(action_type, "hu") {
        Ok(PlayerAction::Hu)
    } else if str_equal(action_type, "flower") {
        Ok(PlayerAction::Flower { tile_ids: clone_strings(tile_ids) })
    } else if str_equal(action_type, "discard") {
        if tile_ids.len() != 1 {
            Err(owned("select_tile_first"))
        } else {
            Ok(PlayerAction::Discard { tile_id: tile_ids[0].clone() })
        }
    } else if str_equal(action_type, "ready_hand") {
        if tile_ids.len() != 1 {
            Err(owned("select_tile_first"))
        } else {
            Ok(PlayerAction::ReadyHand { tile_id: tile_ids[0].clone() })
        }
    } else if str_equal(action_type, "chow") {
        Ok(PlayerAction::Chow { tile_ids: clone_strings(tile_ids) })
    } else if str_equal(action_type, "pung") {
        Ok(PlayerAction::Pung { tile_ids: clone_strings(tile_ids) })
    } else if str_equal(action_type, "kong") {
        Ok(PlayerAction::Kong { tile_ids: clone_strings(tile_ids) })
    } else if str_equal(action_type, "pass") {
        Ok(PlayerAction::Pass)
    } else {
        return None;
    };
    match action {
        Ok(action) => Some(Ok(GameCommand::PlayerAction { actor, action })),
        Err(e) => Some(Err(e)),
    }
}

} // verus!
