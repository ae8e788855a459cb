//! The state of a ledger, held in ordered maps, and the operations on it.

use vstd::prelude::*;

use crate::error::{validate_username, ArcadeError};
use crate::game::{xp_award, GameType};
use crate::identity::{AccountOwner, ChainId};
use crate::ledger::{lines_filed, merged_snapshot, players_filed, scores_filed, Ledger};
use crate::ordered_map::{lemma_size, OrderedMap};
use crate::types::{GameScore, LeaderboardEntry, Player};

verus! {

/// The state that a chain keeps: its players, the leaderboard lines that
/// mirror them, its scores, and a few registers.
pub struct ArcadeHubState {
    hub_chain_id: Option<ChainId>,
    players: OrderedMap<AccountOwner, Player>,
    leaderboard: OrderedMap<AccountOwner, LeaderboardEntry>,
    game_scores: OrderedMap<u64, GameScore>,
    score_counter: u64,
    total_games_played: u64,
    total_xp_earned: u64,
}

impl View for ArcadeHubState {
    type V = Ledger;

    /// The ledger that the state holds.
    closed spec fn view(&self) -> Ledger {
        Ledger {
            hub_chain_id: self.hub_chain_id,
            players: self.players@,
            leaderboard: self.leaderboard@,
            game_scores: self.game_scores@,
            score_counter: self.score_counter,
            total_games_played: self.total_games_played,
            total_xp_earned: self.total_xp_earned,
        }
    }
}

/// The player that a snapshot leaves in the ledger, given the record held so
/// far.
pub fn merge_snapshot(existing: Option<&Player>, incoming: Player) -> (merged: Player)
    ensures
        merged == merged_snapshot(
            match existing {
                Some(held) => Some(*held),
                None => None,
            },
            incoming,
        ),
{
    let mut updated = incoming;
    match existing {
        Some(held) => {
            if held.total_xp > updated.total_xp {
                updated.total_xp = held.total_xp;
                updated.level = held.level;
                updated.games_played = held.games_played;
            }
        },
        None => {},
    }
    updated
}

impl ArcadeHubState {
    /// The three maps keep their keys in order.
    pub closed spec fn maps_wf(&self) -> bool {
        &&& self.players.wf()
        &&& self.leaderboard.wf()
        &&& self.game_scores.wf()
    }

    /// The state is well formed: its maps are in order and every record is
    /// filed under its own identity.
    pub open spec fn wf(&self) -> bool {
        &&& self.maps_wf()
        &&& self@.keyed()
    }

    /// A well-formed state holds finitely many players, leaderboard lines
    /// and scores.
    pub proof fn lemma_finite(&self)
        requires
            self.wf(),
        ensures
            self@.players.dom().finite(),
            self@.leaderboard.dom().finite(),
            self@.game_scores.dom().finite(),
    {
        lemma_size(self.players.entries());
        lemma_size(self.leaderboard.entries());
        lemma_size(self.game_scores.entries());
    }

    /// A state that holds nothing and has not been set up.
    pub fn new() -> (s: Self)
        ensures
            s.wf(),
            s@ == Ledger::empty(),
    {
        ArcadeHubState {
            hub_chain_id: None,
            players: OrderedMap::new(),
            leaderboard: OrderedMap::new(),
            game_scores: OrderedMap::new(),
            score_counter: 0,
            total_games_played: 0,
            total_xp_earned: 0,
        }
    }

    /// The state that holds the given records, each filed under its own
    /// identity, and the given registers. Where two records have one
    /// identity, the later stays.
    pub fn from_records(
        hub_chain_id: Option<ChainId>,
        players: Vec<Player>,
        leaderboard: Vec<LeaderboardEntry>,
        game_scores: Vec<GameScore>,
        score_counter: u64,
        total_games_played: u64,
        total_xp_earned: u64,
    ) -> (s: Self)
        ensures
            s.wf(),
            s@ == (Ledger {
                hub_chain_id,
                players: players_filed(players@),
                leaderboard: lines_filed(leaderboard@),
                game_scores: scores_filed(game_scores@),
                score_counter,
                total_games_played,
                total_xp_earned,
            }),
    {
        let mut player_map: OrderedMap<AccountOwner, Player> = OrderedMap::new();
        let mut i: usize = 0;
        while i < players.len()
            invariant
                i <= players@.len(),
                player_map.wf(),
                player_map@ == players_filed(players@.subrange(0, i as int)),
                forall|k: AccountOwner|
                    player_map@.contains_key(k) ==> (#[trigger] player_map@[k]).owner == k,
            decreases players@.len() - i,
        {
            let record = players[i].clone();
            assert(players@.subrange(0, i + 1).drop_last() =~= players@.subrange(0, i as int));
            player_map.insert(record.owner, record);
            i = i + 1;
        }
        assert(players@.subrange(0, players@.len() as int) =~= players@);
        let mut line_map: OrderedMap<AccountOwner, LeaderboardEntry> = OrderedMap::new();
        let mut i: usize = 0;
        while i < leaderboard.len()
            invariant
                i <= leaderboard@.len(),
                line_map.wf(),
                line_map@ == lines_filed(leaderboard@.subrange(0, i as int)),
                forall|k: AccountOwner|
                    line_map@.contains_key(k) ==> (#[trigger] line_map@[k]).wallet_address == k,
            decreases leaderboard@.len() - i,
        {
            let record = leaderboard[i].clone();
            assert(leaderboard@.subrange(0, i + 1).drop_last() =~= leaderboard@.subrange(
                0,
                i as int,
            ));
            line_map.insert(record.wallet_address, record);
            i = i + 1;
        }
        assert(leaderboard@.subrange(0, leaderboard@.len() as int) =~= leaderboard@);
        let mut score_map: OrderedMap<u64, GameScore> = OrderedMap::new();
        let mut i: usize = 0;
        while i < game_scores.len()
            invariant
                i <= game_scores@.len(),
                score_map.wf(),
                score_map@ == scores_filed(game_scores@.subrange(0, i as int)),
                forall|id: u64| score_map@.contains_key(id) ==> (#[trigger] score_map@[id]).id == id,
            decreases game_scores@.len() - i,
        {
            let record = game_scores[i];
            assert(game_scores@.subrange(0, i + 1).drop_last() =~= game_scores@.subrange(
                0,
                i as int,
            ));
            score_map.insert(record.id, record);
            i = i + 1;
        }
        assert(game_scores@.subrange(0, game_scores@.len() as int) =~= game_scores@);
        ArcadeHubState {
            hub_chain_id,
            players: player_map,
            leaderboard: line_map,
            game_scores: score_map,
            score_counter,
            total_games_played,
            total_xp_earned,
        }
    }

    /// Sets the state up for a hub: records the hub, and starts the counter
    /// and the totals at zero.
    pub fn instantiate(&mut self, hub_chain_id: ChainId)
        requires
            old(self).wf(),
        ensures
            final(self).wf(),
            final(self)@ == old(self)@.instantiated(hub_chain_id),
    {
        self.hub_chain_id = Some(hub_chain_id);
        self.score_counter = 0;
        self.total_games_played = 0;
        self.total_xp_earned = 0;
    }

    /// The hub, once the state is set up.
    pub fn hub_chain_id(&self) -> (r: Option<ChainId>)
        ensures
            r == self@.hub_chain_id,
    {
        self.hub_chain_id
    }

    /// The players, by owner.
    pub fn players(&self) -> (m: &OrderedMap<AccountOwner, Player>)
        requires
            self.wf(),
        ensures
            m.wf(),
            m@ == self@.players,
    {
        &self.players
    }

    /// The leaderboard lines, by owner.
    pub fn leaderboard(&self) -> (m: &OrderedMap<AccountOwner, LeaderboardEntry>)
        requires
            self.wf(),
        ensures
            m.wf(),
            m@ == self@.leaderboard,
    {
        &self.leaderboard
    }

    /// The scores, by identifier.
    pub fn game_scores(&self) -> (m: &OrderedMap<u64, GameScore>)
        requires
            self.wf(),
        ensures
            m.wf(),
            m@ == self@.game_scores,
    {
        &self.game_scores
    }

    /// The identifier that the next local score gets.
    pub fn score_counter(&self) -> (r: u64)
        ensures
            r == self@.score_counter,
    {
        self.score_counter
    }

    /// Number of scores this ledger has processed.
    pub fn total_games_played(&self) -> (r: u64)
        ensures
            r == self@.total_games_played,
    {
        self.total_games_played
    }

    /// Experience awarded by the scores this ledger has processed.
    pub fn total_xp_earned(&self) -> (r: u64)
        ensures
            r == self@.total_xp_earned,
    {
        self.total_xp_earned
    }

    /// Stores `player` under their owner and writes their line on the
    /// leaderboard anew.
    fn store_player(&mut self, player: Player)
        requires
            old(self).wf(),
        ensures
            final(self).wf(),
            final(self)@ == old(self)@.with_player(player),
    {
        let entry = LeaderboardEntry::from_player(&player, 0);
        self.leaderboard.insert(player.owner, entry);
        self.players.insert(player.owner, player);
    }

    /// Stores `score` under its identifier and counts it in the totals.
    fn store_score(&mut self, score: GameScore)
        requires
            old(self).wf(),
        ensures
            final(self).wf(),
            final(self)@ == old(self)@.with_score(score),
    {
        self.game_scores.insert(score.id, score);
        self.total_games_played = self.total_games_played.saturating_add(1);
        self.total_xp_earned = self.total_xp_earned.saturating_add(score.xp_earned);
    }

    /// Registers `owner` as a player under `username`.
    ///
    /// Fails with `InvalidUsernameLength` or `InvalidUsernameCharacters` if
    /// the name is not acceptable, and with `PlayerAlreadyRegistered` if the
    /// owner is a player already. Otherwise the player enters the ledger
    /// with no experience, at level 1, with a line on the leaderboard at
    /// rank 0, and is returned.
    pub fn register_player(&mut self, owner: AccountOwner, username: String, now: u64) -> (r:
        Result<Player, ArcadeError>)
        requires
            old(self).wf(),
        ensures
            final(self).wf(),
            r == old(self)@.register_result(owner, username, now),
            final(self)@ == old(self)@.after_register(owner, username, now),
    {
        match validate_username(username.as_str()) {
            Err(e) => {
                return Err(e);
            },
            Ok(_) => {},
        }
        if self.players.contains_key(&owner) {
            return Err(ArcadeError::PlayerAlreadyRegistered);
        }
        let player = Player::new(owner, username, now);
        self.store_player(player.clone());
        Ok(player)
    }

    /// Records a score of `owner`.
    ///
    /// Fails with `PlayerNotRegistered` if the owner is no player. Otherwise
    /// the player earns the experience that the game awards and one more
    /// game, their line on the leaderboard follows, the score is stored
    /// under the next identifier of this ledger and counted in the totals.
    /// Returns the record and the experience earned.
    pub fn submit_score(
        &mut self,
        owner: AccountOwner,
        game_type: GameType,
        score: u64,
        bonus_data: Option<u64>,
        now: u64,
    ) -> (r: Result<(GameScore, u64), ArcadeError>)
        requires
            old(self).wf(),
            old(self)@.players.contains_key(owner) ==> old(self)@.score_counter < u64::MAX,
        ensures
            final(self).wf(),
            r == old(self)@.submit_result(owner, game_type, score, bonus_data, now),
            final(self)@ == old(self)@.after_submit(owner, game_type, score, bonus_data, now),
            old(self)@.players.contains_key(owner) ==> {
                let player = old(self)@.players[owner].with_xp(
                    xp_award(game_type, score, bonus_data),
                ).with_game_played();
                &&& final(self)@.players.contains_key(owner)
                &&& final(self)@.players[owner] == player
                &&& final(self)@.leaderboard[owner] == LeaderboardEntry::of_player(player, 0)
            },
    {
        let mut player = match self.players.get(&owner) {
            Some(p) => p.clone(),
            None => {
                return Err(ArcadeError::PlayerNotRegistered);
            },
        };
        let xp_earned = game_type.calculate_xp(score, bonus_data);
        player.add_xp(xp_earned);
        player.increment_games();
        self.store_player(player);
        let score_id = self.score_counter;
        self.score_counter = score_id + 1;
        let record = GameScore {
            id: score_id,
            game_type,
            player: owner,
            score,
            xp_earned,
            bonus_data,
            timestamp: now,
        };
        self.store_score(record);
        Ok((record, xp_earned))
    }

    /// Gives `owner` the user name `new_username`.
    ///
    /// Fails with `InvalidUsernameLength` or `InvalidUsernameCharacters` if
    /// the name is not acceptable, and with `PlayerNotRegistered` if the
    /// owner is no player. Otherwise the player and their line on the
    /// leaderboard carry the new name.
    pub fn update_username(&mut self, owner: AccountOwner, new_username: String) -> (r: Result<
        (),
        ArcadeError,
    >)
        requires
            old(self).wf(),
        ensures
            final(self).wf(),
            r == old(self)@.rename_verdict(owner, new_username@),
            final(self)@ == old(self)@.after_rename(owner, new_username),
    {
        match validate_username(new_username.as_str()) {
            Err(e) => {
                return Err(e);
            },
            Ok(_) => {},
        }
        let mut player = match self.players.get(&owner) {
            Some(p) => p.clone(),
            None => {
                return Err(ArcadeError::PlayerNotRegistered);
            },
        };
        player.username = new_username;
        self.store_player(player);
        Ok(())
    }

    /// Merges the snapshot of a player into the ledger.
    ///
    /// A player that the ledger does not know is stored as sent. For one it
    /// knows, the progress with the larger experience is kept, so a stale
    /// snapshot never takes progress away; the user name and the time of
    /// registration are those of the snapshot. The line on the leaderboard
    /// follows the stored player.
    pub fn apply_player_snapshot(&mut self, incoming: Player)
        requires
            old(self).wf(),
        ensures
            final(self).wf(),
            final(self)@ == old(self)@.after_snapshot(incoming),
    {
        let merged = merge_snapshot(self.players.get(&incoming.owner), incoming);
        self.store_player(merged);
    }

    /// Merges the record of a score into the ledger: it is stored under its
    /// identifier, replacing what was stored there, and counted in the
    /// totals on every delivery.
    pub fn apply_score_record(&mut self, score: GameScore)
        requires
            old(self).wf(),
        ensures
            final(self).wf(),
            final(self)@ == old(self)@.with_score(score),
    {
        self.store_score(score);
    }

    /// Merges an update of progress into the ledger.
    ///
    /// The line on the leaderboard and the player are updated each on its
    /// own, where it exists and the update does not report less experience
    /// than it shows. An update for an unknown owner changes nothing.
    pub fn apply_xp_update(
        &mut self,
        wallet_address: AccountOwner,
        total_xp: u64,
        level: u32,
        games_played: u64,
    )
        requires
            old(self).wf(),
        ensures
            final(self).wf(),
            final(self)@ == old(self)@.after_xp_update(
                wallet_address,
                total_xp,
                level,
                games_played,
            ),
    {
        let entry = match self.leaderboard.get(&wallet_address) {
            Some(e) => Some(e.clone()),
            None => None,
        };
        match entry {
            Some(mut e) => {
                if total_xp >= e.total_xp {
                    e.total_xp = total_xp;
                    e.level = level;
                    self.leaderboard.insert(wallet_address, e);
                } else {
                    assert(self@.leaderboard =~= self@.leaderboard.insert(wallet_address, e));
                }
            },
            None => {},
        }
        let player = match self.players.get(&wallet_address) {
            Some(p) => Some(p.clone()),
            None => None,
        };
        match player {
            Some(mut p) => {
                if total_xp >= p.total_xp {
                    p.total_xp = total_xp;
                    p.level = level;
                    p.games_played = games_played;
                    self.players.insert(wallet_address, p);
                } else {
                    assert(self@.players =~= self@.players.insert(wallet_address, p));
                }
            },
            None => {},
        }
    }
}

} // verus!
