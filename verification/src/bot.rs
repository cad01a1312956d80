use vstd::prelude::*;

use crate::shanten::TileCounts;

verus! {

/// An action that a bot takes: its seat, the action type and the tiles it names.
#[derive(Clone, Debug, PartialEq, Eq)]
pub struct BotAction {
    pub seat_index: usize,
    pub action_type: String,
    pub tile_ids: Vec<String>,
}

/// A tile as a bot sees it.
#[derive(Clone, Debug, PartialEq, Eq, Default)]
pub struct BotTileView {
    pub tile_id: String,
    pub tile_key: String,
    pub is_flower: bool,
}

/// A concealed kong or a kong added to a pung.
#[derive(Clone, Copy, Debug, PartialEq, Eq)]
pub enum BotSelfKongKind {
    Concealed,
    Add,
}

/// A kong that the bot could declare on its turn.
#[derive(Clone, Debug, PartialEq, Eq)]
pub struct BotSelfKongCandidate {
    pub kind: BotSelfKongKind,
    pub tile_ids: Vec<String>,
    pub tile_key: String,
    pub meld_index: Option<usize>,
}

/// A claim that the bot could make on a discard, with the tiles it would use.
#[derive(Clone, Debug, PartialEq, Eq, Default)]
pub struct BotClaimOption {
    pub action_type: String,
    pub tile_ids: Vec<String>,
}

/// The bot's own hand and melds.
#[derive(Clone, Debug, PartialEq, Eq)]
pub struct BotPlayerContext {
    pub concealed_tiles: Vec<BotTileView>,
    pub concealed_tile_counts: TileCounts,
    pub meld_tile_key_groups: Vec<Vec<String>>,
    pub flower_count: usize,
}

/// What a bot knows at a decision.
#[derive(Clone, Debug)]
pub struct BotContext {
    pub seat_index: usize,
    pub seat_count: usize,
    pub dealer_seat: usize,
    pub round_wind: Option<String>,
    pub visible_tile_keys: Vec<String>,
    pub opponent_discards_by_seat: Vec<Vec<String>>,
    pub player: BotPlayerContext,
    pub restricted_discard_tile_key: Option<String>,
    pub drawn_tile_id: Option<String>,
    pub enforce_minimum_eight_fan: bool,
    pub self_kong_candidates: Vec<BotSelfKongCandidate>,
    pub claim_options: Vec<BotClaimOption>,
    pub last_discard_tile_key: Option<String>,
    pub add_kong_risk_tiles: Vec<String>,
}

} // verus!
