use vstd::prelude::*;

use crate::state::RoundSettlement;
use crate::tile::Tile;

verus! {

/// Something that happened in a room, as reported to observers.
#[derive(Debug, Clone, PartialEq, Eq)]
pub enum GameEvent {
    MatchStarted { dealer: usize },
    RoundStarted { round_id: String },
    TileDrawn { seat: usize, tile: Tile, source: String },
    TileDiscarded { seat: usize, tile: Tile },
    ReadyHandDeclared { seat: usize, tile: Tile },
    MeldClaimed { seat: usize, meld: Vec<String>, from: usize },
    FlowerExposed { seat: usize, tile_id: String },
    SelfKongDeclared { seat: usize, kong_type: String, tile_key: String, tile_ids: Vec<String> },
    ClaimAutoPassed { discarder_seat: usize, seats: Vec<usize> },
    HuDeclared { winner: usize, source: String },
    SettlementPrepared { settlement: RoundSettlement },
}

} // verus!
