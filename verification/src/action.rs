use vstd::prelude::*;

verus! {

/// A command that drives a room's game.
#[derive(Debug, Clone, PartialEq, Eq)]
#[allow(inconsistent_fields)]
pub enum GameCommand {
    StartMatch { dealer: usize, seed: u64 },
    PlayerAction { actor: usize, action: PlayerAction },
    ResolveTimeout { kind: String, nonce: u64 },
    ContinueAction { actor: usize, kind: ContinueActionKind },
}

/// What a continue confirmation asks for.
#[derive(Debug, Clone, PartialEq, Eq)]
pub enum ContinueActionKind {
    StartNextRound,
    Other(String),
}

/// An action a seated player takes during a round.
#[derive(Debug, Clone, PartialEq, Eq)]
pub enum PlayerAction {
    Flower { tile_ids: Vec<String> },
    Discard { tile_id: String },
    ReadyHand { tile_id: String },
    Chow { tile_ids: Vec<String> },
    Pung { tile_ids: Vec<String> },
    Kong { tile_ids: Vec<String> },
    Hu,
    Pass,
}

} // verus!
