//! Arcade hub: player progression and a global leaderboard, aggregated from
//! many chains onto one hub chain.
//!
//! Every chain keeps its own ledger of players and scores. A chain that is
//! not the hub forwards what it records to the hub, which folds the incoming
//! events into its own ledger with rules that tolerate duplicated and
//! reordered delivery: a player's recorded progress never goes backwards.

pub mod address;
pub mod contract;
pub mod error;
pub mod game;
pub mod identity;
pub mod laws;
pub mod ledger;
pub mod level;
pub mod ordered_map;
pub mod ranking;
pub mod service;
pub mod state;
pub mod types;

pub use address::{parse_account_owner, parse_trimmed_address};
pub use contract::ArcadeHubContract;
pub use error::{validate_username, ArcadeError};
pub use game::{GameId, GameType};
pub use identity::{AccountOwner, ChainId};
pub use ledger::Ledger;
pub use level::calculate_level;
pub use ordered_map::OrderedMap;
pub use service::ArcadeHubService;
pub use state::ArcadeHubState;
pub use types::{
    ArcadeResponse, ArcadeStats, GameHighScoreEntry, GameScore, InstantiationArgument,
    LeaderboardEntry, Message, Operation, Player,
};
