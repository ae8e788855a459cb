//! The records of the arcade and the messages that carry them.

use vstd::prelude::*;

use crate::game::GameType;
use crate::identity::{AccountOwner, ChainId};
use crate::level::{calculate_level, level_of};

verus! {

/// `a + b`, clamped at `u64::MAX`.
pub open spec fn add_clamped(a: u64, b: u64) -> u64 {
    if a + b > u64::MAX {
        u64::MAX
    } else {
        (a + b) as u64
    }
}

/// A registered player.
#[derive(Debug, PartialEq, Eq)]
pub struct Player {
    pub owner: AccountOwner,
    pub username: String,
    pub total_xp: u64,
    pub level: u32,
    pub games_played: u64,
    pub registered_at: u64,
}

impl Clone for Player {
    fn clone(&self) -> (r: Self)
        ensures
            r == *self,
    {
        Player {
            owner: self.owner,
            username: self.username.clone(),
            total_xp: self.total_xp,
            level: self.level,
            games_played: self.games_played,
            registered_at: self.registered_at,
        }
    }
}

impl Player {
    /// The level is the one that goes with the total experience.
    pub open spec fn level_consistent(&self) -> bool {
        self.level == level_of(self.total_xp)
    }

    /// The player after earning `xp`: the experience grows, clamped at
    /// `u64::MAX`, and the level follows it.
    pub open spec fn with_xp(self, xp: u64) -> Player {
        let total = add_clamped(self.total_xp, xp);
        Player { total_xp: total, level: level_of(total), ..self }
    }

    /// The player after one more game, the count clamped at `u64::MAX`.
    pub open spec fn with_game_played(self) -> Player {
        Player { games_played: add_clamped(self.games_played, 1), ..self }
    }

    /// A player who has just registered: no experience, level 1, no games.
    pub fn new(owner: AccountOwner, username: String, timestamp: u64) -> (p: Player)
        ensures
            p == (Player {
                owner,
                username,
                total_xp: 0,
                level: 1,
                games_played: 0,
                registered_at: timestamp,
            }),
    {
        Player { owner, username, total_xp: 0, level: 1, games_played: 0, registered_at: timestamp }
    }

    /// Adds `xp` to the total experience and recomputes the level from it.
    pub fn add_xp(&mut self, xp: u64)
        ensures
            *final(self) == old(self).with_xp(xp),
    {
        self.total_xp = self.total_xp.saturating_add(xp);
        self.level = calculate_level(self.total_xp);
    }

    /// Counts one more game played.
    pub fn increment_games(&mut self)
        ensures
            *final(self) == old(self).with_game_played(),
    {
        self.games_played = self.games_played.saturating_add(1);
    }
}

/// A line of the leaderboard: what the board shows of a player.
#[derive(Debug, PartialEq, Eq)]
pub struct LeaderboardEntry {
    pub wallet_address: AccountOwner,
    pub username: String,
    pub total_xp: u64,
    pub level: u32,
    pub rank: u32,
}

impl Clone for LeaderboardEntry {
    fn clone(&self) -> (r: Self)
        ensures
            r == *self,
    {
        LeaderboardEntry {
            wallet_address: self.wallet_address,
            username: self.username.clone(),
            total_xp: self.total_xp,
            level: self.level,
            rank: self.rank,
        }
    }
}

impl LeaderboardEntry {
    /// The line that shows `player` at `rank`.
    pub open spec fn of_player(player: Player, rank: u32) -> LeaderboardEntry {
        LeaderboardEntry {
            wallet_address: player.owner,
            username: player.username,
            total_xp: player.total_xp,
            level: player.level,
            rank,
        }
    }

    /// The same line at another rank.
    pub open spec fn at_rank(self, rank: u32) -> LeaderboardEntry {
        LeaderboardEntry { rank, ..self }
    }

    /// The line that shows `player` at `rank`.
    pub fn from_player(player: &Player, rank: u32) -> (e: LeaderboardEntry)
        ensures
            e == Self::of_player(*player, rank),
    {
        LeaderboardEntry {
            wallet_address: player.owner,
            username: player.username.clone(),
            total_xp: player.total_xp,
            level: player.level,
            rank,
        }
    }
}

/// A recorded score. Once made it never changes.
#[derive(Clone, Copy, Debug, PartialEq, Eq)]
pub struct GameScore {
    pub id: u64,
    pub game_type: GameType,
    pub player: AccountOwner,
    pub score: u64,
    pub xp_earned: u64,
    pub bonus_data: Option<u64>,
    pub timestamp: u64,
}

/// A player's best score in one game.
#[derive(Debug, PartialEq, Eq)]
pub struct GameHighScoreEntry {
    pub player: AccountOwner,
    pub username: String,
    pub score: u64,
    pub xp_earned: u64,
    pub timestamp: u64,
}

/// Totals of a ledger: what this ledger has itself seen, not a sum over all
/// chains.
#[derive(Clone, Copy, Debug, PartialEq, Eq)]
pub struct ArcadeStats {
    pub total_players: u64,
    pub total_games_played: u64,
    pub total_xp_earned: u64,
}

impl Default for ArcadeStats {
    fn default() -> (s: Self)
        ensures
            s == (ArcadeStats { total_players: 0, total_games_played: 0, total_xp_earned: 0 }),
    {
        ArcadeStats { total_players: 0, total_games_played: 0, total_xp_earned: 0 }
    }
}

/// A command of a player.
#[derive(Debug, PartialEq, Eq)]
pub enum Operation {
    /// Register the signer as a player under a user name.
    RegisterPlayer { username: String },
    /// Submit a score of the signer.
    SubmitScore { game_type: GameType, score: u64, bonus_data: Option<u64> },
    /// Give the signer another user name.
    UpdateUsername { new_username: String },
}

/// The answer to a command.
#[derive(Debug, PartialEq, Eq)]
pub enum ArcadeResponse {
    /// The player was registered.
    PlayerRegistered,
    /// The score was recorded and earned this much experience.
    ScoreSubmitted { xp_earned: u64 },
    /// The user name was changed.
    UsernameUpdated,
    /// The command failed, with the message of the error.
    Error(String),
}

/// An event sent to the hub.
#[derive(Debug, PartialEq, Eq)]
pub enum Message {
    /// A snapshot of a player.
    SyncPlayer(Player),
    /// A recorded score.
    SyncScore(GameScore),
    /// The progress of a player.
    SyncXpUpdate { wallet_address: AccountOwner, total_xp: u64, level: u32, games_played: u64 },
}

impl Clone for Message {
    fn clone(&self) -> (r: Self)
        ensures
            r == *self,
    {
        match self {
            Message::SyncPlayer(player) => Message::SyncPlayer(player.clone()),
            Message::SyncScore(score) => Message::SyncScore(*score),
            Message::SyncXpUpdate { wallet_address, total_xp, level, games_played } => {
                Message::SyncXpUpdate {
                    wallet_address: *wallet_address,
                    total_xp: *total_xp,
                    level: *level,
                    games_played: *games_played,
                }
            },
        }
    }
}

/// What a ledger is told when it is set up.
#[derive(Clone, Copy, Debug, PartialEq, Eq)]
pub struct InstantiationArgument {
    /// The chain that aggregates the data of all chains.
    pub hub_chain_id: ChainId,
}

} // verus!
