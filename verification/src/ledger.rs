//! The ledger of a chain as a mathematical object, the local mutations and
//! the merge rules of the hub as functions on it.
//!
//! A ledger files every record under its own identity: a player and the
//! leaderboard line that mirrors them under the owner, a score under its
//! identifier. The functions here say what each operation makes of a ledger;
//! the executable state in `state` is proved to do the same.

use vstd::prelude::*;

use crate::error::{username_verdict, ArcadeError};
use crate::game::{xp_award, GameType};
use crate::identity::{AccountOwner, ChainId};
use crate::types::{
    add_clamped, ArcadeResponse, GameScore, LeaderboardEntry, Message, Operation, Player,
};

verus! {

/// The ledger of one chain.
pub struct Ledger {
    /// The chain that aggregates all others, once the ledger is set up.
    pub hub_chain_id: Option<ChainId>,
    /// The players, by owner.
    pub players: Map<AccountOwner, Player>,
    /// The leaderboard lines, by owner.
    pub leaderboard: Map<AccountOwner, LeaderboardEntry>,
    /// The scores, by identifier.
    pub game_scores: Map<u64, GameScore>,
    /// The identifier that the next local score gets.
    pub score_counter: u64,
    /// Number of scores this ledger has processed.
    pub total_games_played: u64,
    /// Experience awarded by the scores this ledger has processed.
    pub total_xp_earned: u64,
}

/// What a snapshot of a player makes of the record that the hub has of them:
/// the snapshot, with the progress (experience, level, games played) of the
/// record where the record has strictly more experience. The user name and
/// the time of registration are always those of the snapshot.
pub open spec fn merged_snapshot(existing: Option<Player>, incoming: Player) -> Player {
    match existing {
        Some(held) => if held.total_xp > incoming.total_xp {
            Player {
                total_xp: held.total_xp,
                level: held.level,
                games_played: held.games_played,
                ..incoming
            }
        } else {
            incoming
        },
        None => incoming,
    }
}

/// What an update of progress makes of a player: applied unless it reports
/// less experience than the player has.
pub open spec fn player_after_update(
    held: Player,
    total_xp: u64,
    level: u32,
    games_played: u64,
) -> Player {
    if total_xp >= held.total_xp {
        Player { total_xp, level, games_played, ..held }
    } else {
        held
    }
}

/// What an update of progress makes of a leaderboard line: applied unless it
/// reports less experience than the line shows.
pub open spec fn entry_after_update(held: LeaderboardEntry, total_xp: u64, level: u32) -> LeaderboardEntry {
    if total_xp >= held.total_xp {
        LeaderboardEntry { total_xp, level, ..held }
    } else {
        held
    }
}

/// The players of a sequence of records, each filed under their owner. Of two
/// records of one owner the later stays.
pub open spec fn players_filed(records: Seq<Player>) -> Map<AccountOwner, Player>
    decreases records.len(),
{
    if records.len() == 0 {
        Map::empty()
    } else {
        players_filed(records.drop_last()).insert(records.last().owner, records.last())
    }
}

/// The leaderboard lines of a sequence of records, each filed under its
/// owner. Of two lines of one owner the later stays.
pub open spec fn lines_filed(records: Seq<LeaderboardEntry>) -> Map<AccountOwner, LeaderboardEntry>
    decreases records.len(),
{
    if records.len() == 0 {
        Map::empty()
    } else {
        lines_filed(records.drop_last()).insert(records.last().wallet_address, records.last())
    }
}

/// The scores of a sequence of records, each filed under its identifier. Of
/// two scores with one identifier the later stays.
pub open spec fn scores_filed(records: Seq<GameScore>) -> Map<u64, GameScore>
    decreases records.len(),
{
    if records.len() == 0 {
        Map::empty()
    } else {
        scores_filed(records.drop_last()).insert(records.last().id, records.last())
    }
}

impl Ledger {
    /// A ledger that holds nothing and has not been set up.
    pub open spec fn empty() -> Ledger {
        Ledger {
            hub_chain_id: None,
            players: Map::empty(),
            leaderboard: Map::empty(),
            game_scores: Map::empty(),
            score_counter: 0,
            total_games_played: 0,
            total_xp_earned: 0,
        }
    }

    /// Every record is filed under its own identity.
    pub open spec fn keyed(self) -> bool {
        &&& forall|k: AccountOwner|
            self.players.contains_key(k) ==> (#[trigger] self.players[k]).owner == k
        &&& forall|k: AccountOwner|
            self.leaderboard.contains_key(k) ==> (#[trigger] self.leaderboard[k]).wallet_address
                == k
        &&& forall|id: u64|
            self.game_scores.contains_key(id) ==> (#[trigger] self.game_scores[id]).id == id
    }

    /// The leaderboard mirrors the players: the same owners, and for each the
    /// line that shows the player, at rank 0.
    pub open spec fn mirrored(self) -> bool {
        &&& self.leaderboard.dom() == self.players.dom()
        &&& forall|k: AccountOwner|
            self.players.contains_key(k) ==> #[trigger] self.leaderboard[k]
                == LeaderboardEntry::of_player(self.players[k], 0)
    }

    /// Every player has the level that goes with their experience.
    pub open spec fn levels_consistent(self) -> bool {
        forall|k: AccountOwner|
            self.players.contains_key(k) ==> (#[trigger] self.players[k]).level_consistent()
    }

    /// The ledger once set up for a hub: the hub is recorded, the counter and
    /// the totals start at zero.
    pub open spec fn instantiated(self, hub_chain_id: ChainId) -> Ledger {
        Ledger {
            hub_chain_id: Some(hub_chain_id),
            score_counter: 0,
            total_games_played: 0,
            total_xp_earned: 0,
            ..self
        }
    }

    /// The ledger with `player` stored under their owner, and their line on
    /// the leaderboard written anew at rank 0.
    pub open spec fn with_player(self, player: Player) -> Ledger {
        Ledger {
            players: self.players.insert(player.owner, player),
            leaderboard: self.leaderboard.insert(
                player.owner,
                LeaderboardEntry::of_player(player, 0),
            ),
            ..self
        }
    }

    /// The ledger with `score` stored under its identifier, whatever was
    /// there, and counted in the totals. The totals are clamped at
    /// `u64::MAX`.
    pub open spec fn with_score(self, score: GameScore) -> Ledger {
        Ledger {
            game_scores: self.game_scores.insert(score.id, score),
            total_games_played: add_clamped(self.total_games_played, 1),
            total_xp_earned: add_clamped(self.total_xp_earned, score.xp_earned),
            ..self
        }
    }

    /// Whether `owner` may register under `username`: the name is checked
    /// first, then the owner must be new.
    pub open spec fn register_verdict(self, owner: AccountOwner, username: Seq<char>) -> Result<
        (),
        ArcadeError,
    > {
        match username_verdict(username) {
            Err(e) => Err(e),
            Ok(_) => if self.players.contains_key(owner) {
                Err(ArcadeError::PlayerAlreadyRegistered)
            } else {
                Ok(())
            },
        }
    }

    /// The player that a registration creates.
    pub open spec fn new_player(owner: AccountOwner, username: String, now: u64) -> Player {
        Player { owner, username, total_xp: 0, level: 1, games_played: 0, registered_at: now }
    }

    /// What a registration returns.
    pub open spec fn register_result(self, owner: AccountOwner, username: String, now: u64) -> Result<
        Player,
        ArcadeError,
    > {
        match self.register_verdict(owner, username@) {
            Err(e) => Err(e),
            Ok(_) => Ok(Self::new_player(owner, username, now)),
        }
    }

    /// The ledger after a registration: with the new player where the
    /// registration succeeds, unchanged where it fails.
    pub open spec fn after_register(self, owner: AccountOwner, username: String, now: u64) -> Ledger {
        match self.register_verdict(owner, username@) {
            Err(_) => self,
            Ok(_) => self.with_player(Self::new_player(owner, username, now)),
        }
    }

    /// The record of a score that `owner` submits now.
    pub open spec fn new_score(
        self,
        owner: AccountOwner,
        game_type: GameType,
        score: u64,
        bonus_data: Option<u64>,
        now: u64,
    ) -> GameScore {
        GameScore {
            id: self.score_counter,
            game_type,
            player: owner,
            score,
            xp_earned: xp_award(game_type, score, bonus_data),
            bonus_data,
            timestamp: now,
        }
    }

    /// What a submission returns: the record and the experience it earned,
    /// or `PlayerNotRegistered`.
    pub open spec fn submit_result(
        self,
        owner: AccountOwner,
        game_type: GameType,
        score: u64,
        bonus_data: Option<u64>,
        now: u64,
    ) -> Result<(GameScore, u64), ArcadeError> {
        if self.players.contains_key(owner) {
            Ok(
                (
                    self.new_score(owner, game_type, score, bonus_data, now),
                    xp_award(game_type, score, bonus_data),
                ),
            )
        } else {
            Err(ArcadeError::PlayerNotRegistered)
        }
    }

    /// The ledger after a submission. For a registered owner the player
    /// earns the experience and one more game, the record is stored under
    /// the next identifier and counted in the totals, and the counter moves
    /// on. Otherwise nothing changes.
    pub open spec fn after_submit(
        self,
        owner: AccountOwner,
        game_type: GameType,
        score: u64,
        bonus_data: Option<u64>,
        now: u64,
    ) -> Ledger {
        if self.players.contains_key(owner) {
            let player = self.players[owner].with_xp(
                xp_award(game_type, score, bonus_data),
            ).with_game_played();
            let record = self.new_score(owner, game_type, score, bonus_data, now);
            let stored = self.with_player(player).with_score(record);
            Ledger { score_counter: (self.score_counter + 1) as u64, ..stored }
        } else {
            self
        }
    }

    /// Whether `owner` may take `new_username`: the name is checked first,
    /// then the owner must be registered.
    pub open spec fn rename_verdict(self, owner: AccountOwner, new_username: Seq<char>) -> Result<
        (),
        ArcadeError,
    > {
        match username_verdict(new_username) {
            Err(e) => Err(e),
            Ok(_) => if self.players.contains_key(owner) {
                Ok(())
            } else {
                Err(ArcadeError::PlayerNotRegistered)
            },
        }
    }

    /// The ledger after a change of user name: the player and their line
    /// carry the new name where the change succeeds, nothing changes where
    /// it fails.
    pub open spec fn after_rename(self, owner: AccountOwner, new_username: String) -> Ledger {
        match self.rename_verdict(owner, new_username@) {
            Err(_) => self,
            Ok(_) => self.with_player(Player { username: new_username, ..self.players[owner] }),
        }
    }

    /// The record that the ledger has of `owner`, if any.
    pub open spec fn player_of(self, owner: AccountOwner) -> Option<Player> {
        if self.players.contains_key(owner) {
            Some(self.players[owner])
        } else {
            None
        }
    }

    /// The ledger after the snapshot of a player has been merged in.
    pub open spec fn after_snapshot(self, incoming: Player) -> Ledger {
        self.with_player(merged_snapshot(self.player_of(incoming.owner), incoming))
    }

    /// The ledger after an update of progress has been merged in. The line
    /// on the leaderboard and the player are treated apart: each is updated
    /// if it exists and does not show more experience than the update
    /// reports. What does not exist is not created.
    pub open spec fn after_xp_update(
        self,
        owner: AccountOwner,
        total_xp: u64,
        level: u32,
        games_played: u64,
    ) -> Ledger {
        Ledger {
            leaderboard: if self.leaderboard.contains_key(owner) {
                self.leaderboard.insert(
                    owner,
                    entry_after_update(self.leaderboard[owner], total_xp, level),
                )
            } else {
                self.leaderboard
            },
            players: if self.players.contains_key(owner) {
                self.players.insert(
                    owner,
                    player_after_update(self.players[owner], total_xp, level, games_played),
                )
            } else {
                self.players
            },
            ..self
        }
    }
}

/// Whether `response` is what `expected` asks for: the response itself where
/// the command succeeds, the report of the error where it fails.
pub open spec fn responds(response: ArcadeResponse, expected: Result<ArcadeResponse, ArcadeError>) -> bool {
    match expected {
        Ok(r) => response == r,
        Err(e) => response matches ArcadeResponse::Error(m) && m@ == e.text(),
    }
}

impl Ledger {
    /// Whether a ledger on `chain` forwards its events: it does once it is
    /// set up, unless it is the hub itself.
    pub open spec fn forwards_from(self, chain: ChainId) -> bool {
        self.hub_chain_id matches Some(hub) && hub != chain
    }

    /// Whether a ledger on `chain` merges the events it receives: only the
    /// hub does.
    pub open spec fn merges_on(self, chain: ChainId) -> bool {
        self.hub_chain_id == Some(chain)
    }

    /// Whether a command of `signer` takes a new score identifier: only the
    /// submission of a registered player does.
    pub open spec fn takes_identifier(
        self,
        signer: Option<AccountOwner>,
        operation: Operation,
    ) -> bool {
        &&& operation is SubmitScore
        &&& signer matches Some(owner)
        &&& self.players.contains_key(owner)
    }

    /// What a command of `signer` is answered with.
    pub open spec fn operation_response(
        self,
        signer: Option<AccountOwner>,
        operation: Operation,
        now: u64,
    ) -> Result<ArcadeResponse, ArcadeError> {
        match signer {
            None => Err(ArcadeError::NotAuthenticated),
            Some(owner) => match operation {
                Operation::RegisterPlayer { username } => match self.register_verdict(
                    owner,
                    username@,
                ) {
                    Ok(_) => Ok(ArcadeResponse::PlayerRegistered),
                    Err(e) => Err(e),
                },
                Operation::SubmitScore { game_type, score, bonus_data } => match self.submit_result(
                    owner,
                    game_type,
                    score,
                    bonus_data,
                    now,
                ) {
                    Ok((_, xp_earned)) => Ok(ArcadeResponse::ScoreSubmitted { xp_earned }),
                    Err(e) => Err(e),
                },
                Operation::UpdateUsername { new_username } => match self.rename_verdict(
                    owner,
                    new_username@,
                ) {
                    Ok(_) => Ok(ArcadeResponse::UsernameUpdated),
                    Err(e) => Err(e),
                },
            },
        }
    }

    /// The ledger after a command of `signer`.
    pub open spec fn after_operation(
        self,
        signer: Option<AccountOwner>,
        operation: Operation,
        now: u64,
    ) -> Ledger {
        match signer {
            None => self,
            Some(owner) => match operation {
                Operation::RegisterPlayer { username } => self.after_register(owner, username, now),
                Operation::SubmitScore { game_type, score, bonus_data } => self.after_submit(
                    owner,
                    game_type,
                    score,
                    bonus_data,
                    now,
                ),
                Operation::UpdateUsername { new_username } => self.after_rename(
                    owner,
                    new_username,
                ),
            },
        }
    }

    /// The events that a command of `signer` gives rise to, in the order in
    /// which they are emitted. A command that fails emits nothing. A
    /// registration and a change of user name emit the snapshot of the
    /// player; a submission emits the snapshot of the player, then the
    /// record of the score.
    pub open spec fn operation_events(
        self,
        signer: Option<AccountOwner>,
        operation: Operation,
        now: u64,
    ) -> Seq<Message> {
        let after = self.after_operation(signer, operation, now);
        match signer {
            None => seq![],
            Some(owner) => match self.operation_response(signer, operation, now) {
                Err(_) => seq![],
                Ok(_) => match operation {
                    Operation::SubmitScore { game_type, score, bonus_data } => seq![
                        Message::SyncPlayer(after.players[owner]),
                        Message::SyncScore(
                            self.new_score(owner, game_type, score, bonus_data, now),
                        ),
                    ],
                    _ => seq![Message::SyncPlayer(after.players[owner])],
                },
            },
        }
    }

    /// The ledger after an event has been merged in.
    pub open spec fn after_message(self, message: Message) -> Ledger {
        match message {
            Message::SyncPlayer(player) => self.after_snapshot(player),
            Message::SyncScore(score) => self.with_score(score),
            Message::SyncXpUpdate { wallet_address, total_xp, level, games_played } => {
                self.after_xp_update(wallet_address, total_xp, level, games_played)
            },
        }
    }
}

} // verus!
