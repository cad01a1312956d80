pub mod text;
pub mod tiles;
pub mod shanten;
pub mod decomposition;
pub mod context;
pub mod action_space;
pub mod tile;
pub mod action;
pub mod state;
pub mod event;
pub mod command;
pub mod validation;
pub mod planner;
pub mod match_progress;
pub mod deal;
pub mod evaluation;
pub mod scan;
pub mod botzone;
pub mod round_text;
pub mod replay;
pub mod replay_view;
pub mod ordering;
pub mod replay_state;
pub mod replay_claims;
pub mod replay_samples;
pub mod export;
pub mod table;
pub mod reducer;
pub mod arena;
pub mod reward;
pub mod bot;
pub mod policy;
pub mod heuristics;
pub mod features;
pub mod search;
