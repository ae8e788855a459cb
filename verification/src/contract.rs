//! The contract of a chain: commands from players, events from other chains,
//! and the events this chain owes the hub.

use vstd::prelude::*;

use crate::error::ArcadeError;
use crate::game::{xp_award, GameType};
use crate::identity::{AccountOwner, ChainId};
use crate::ledger::{responds, Ledger};
use crate::state::ArcadeHubState;
use crate::types::{
    ArcadeResponse, GameScore, InstantiationArgument, LeaderboardEntry, Message, Operation, Player,
};

verus! {

/// The contract of one chain: the state of its ledger, the chain it runs on,
/// and the events it has emitted that are yet to be delivered to the hub.
pub struct ArcadeHubContract {
    state: ArcadeHubState,
    chain_id: ChainId,
    outbox: Vec<Message>,
}

impl ArcadeHubContract {
    /// The ledger of the chain.
    pub closed spec fn ledger(&self) -> Ledger {
        self.state@
    }

    /// The chain that the contract runs on.
    pub closed spec fn chain(&self) -> ChainId {
        self.chain_id
    }

    /// The events emitted and not yet taken out for delivery, oldest first.
    pub closed spec fn outbox(&self) -> Seq<Message> {
        self.outbox@
    }

    /// The state of the ledger is well formed.
    pub closed spec fn wf(&self) -> bool {
        self.state.wf()
    }

    /// A well-formed contract files every record under its own identity and
    /// holds finitely many of each kind.
    pub proof fn lemma_wf(&self)
        requires
            self.wf(),
        ensures
            self.ledger().keyed(),
            self.ledger().players.dom().finite(),
            self.ledger().leaderboard.dom().finite(),
            self.ledger().game_scores.dom().finite(),
    {
        self.state.lemma_finite();
    }

    /// The outbox after `message` has been handed over for the hub: it is
    /// appended where this chain forwards, dropped where it does not.
    pub open spec fn outbox_after(&self, message: Message) -> Seq<Message> {
        if self.ledger().forwards_from(self.chain()) {
            self.outbox().push(message)
        } else {
            self.outbox()
        }
    }

    /// The outbox after `events` have been handed over for the hub, in order.
    pub open spec fn outbox_after_all(&self, events: Seq<Message>) -> Seq<Message> {
        if self.ledger().forwards_from(self.chain()) {
            self.outbox() + events
        } else {
            self.outbox()
        }
    }

    /// The contract of `chain_id` over a state, with nothing to deliver.
    pub fn new(state: ArcadeHubState, chain_id: ChainId) -> (c: Self)
        requires
            state.wf(),
        ensures
            c.wf(),
            c.ledger() == state@,
            c.chain() == chain_id,
            c.outbox() == Seq::<Message>::empty(),
    {
        ArcadeHubContract { state, chain_id, outbox: Vec::new() }
    }

    /// The state of the ledger.
    pub fn state(&self) -> (s: &ArcadeHubState)
        requires
            self.wf(),
        ensures
            s.wf(),
            s@ == self.ledger(),
    {
        &self.state
    }

    /// Gives up the contract for the state of its ledger.
    pub fn into_state(self) -> (s: ArcadeHubState)
        requires
            self.wf(),
        ensures
            s.wf(),
            s@ == self.ledger(),
    {
        self.state
    }

    /// The chain that the contract runs on.
    pub fn chain_id(&self) -> (c: ChainId)
        ensures
            c == self.chain(),
    {
        self.chain_id
    }

    /// Takes the emitted events out for delivery to the hub, oldest first,
    /// and leaves the outbox empty.
    pub fn take_outbox(&mut self) -> (events: Vec<Message>)
        ensures
            events@ == old(self).outbox(),
            final(self).outbox() == Seq::<Message>::empty(),
            final(self).ledger() == old(self).ledger(),
            final(self).chain() == old(self).chain(),
            old(self).wf() ==> final(self).wf(),
    {
        let mut events: Vec<Message> = Vec::new();
        std::mem::swap(&mut events, &mut self.outbox);
        events
    }

    /// Sets the ledger up for the hub named in `argument`.
    pub fn instantiate(&mut self, argument: InstantiationArgument)
        requires
            old(self).wf(),
        ensures
            final(self).wf(),
            final(self).ledger() == old(self).ledger().instantiated(argument.hub_chain_id),
            final(self).chain() == old(self).chain(),
            final(self).outbox() == old(self).outbox(),
    {
        self.state.instantiate(argument.hub_chain_id);
    }

    /// Hands `message` over for the hub: it joins the outbox if the ledger is
    /// set up and this chain is not the hub itself, and is dropped otherwise.
    pub fn send_to_hub_if_needed(&mut self, message: Message)
        ensures
            final(self).outbox() == old(self).outbox_after(message),
            final(self).ledger() == old(self).ledger(),
            final(self).chain() == old(self).chain(),
            old(self).wf() ==> final(self).wf(),
    {
        let hub_chain_id = match self.state.hub_chain_id() {
            Some(id) => id,
            None => {
                return ;
            },
        };
        if !self.chain_id.same(&hub_chain_id) {
            self.outbox.push(message);
        }
    }

    /// Carries out a command of `signer` at time `now` and answers it.
    ///
    /// A command without a signer is answered with `NotAuthenticated` and
    /// changes nothing. Otherwise the command is carried out on the ledger;
    /// where it fails, the answer reports the error and nothing changes;
    /// where it succeeds, the events it gives rise to are handed over for
    /// the hub.
    pub fn execute_operation(
        &mut self,
        signer: Option<AccountOwner>,
        operation: Operation,
        now: u64,
    ) -> (response: ArcadeResponse)
        requires
            old(self).wf(),
            old(self).ledger().takes_identifier(signer, operation) ==> old(
                self,
            ).ledger().score_counter < u64::MAX,
        ensures
            final(self).wf(),
            responds(response, old(self).ledger().operation_response(signer, operation, now)),
            final(self).ledger() == old(self).ledger().after_operation(signer, operation, now),
            final(self).outbox() == old(self).outbox_after_all(
                old(self).ledger().operation_events(signer, operation, now),
            ),
            final(self).chain() == old(self).chain(),
    {
        let owner = match signer {
            Some(signer) => signer,
            None => {
                assert(self.outbox() + Seq::<Message>::empty() =~= self.outbox());
                return ArcadeError::NotAuthenticated.into_response();
            },
        };
        match operation {
            Operation::RegisterPlayer { username } => self.handle_register_player(
                owner,
                username,
                now,
            ),
            Operation::SubmitScore { game_type, score, bonus_data } => self.handle_submit_score(
                owner,
                game_type,
                score,
                bonus_data,
                now,
            ),
            Operation::UpdateUsername { new_username } => {
                let response = self.handle_update_username(owner, new_username);
                proof {
                    let events = old(self).ledger().operation_events(signer, operation, now);
                    if old(self).ledger().rename_verdict(owner, new_username@) is Ok {
                        assert(events =~= seq![
                            Message::SyncPlayer(final(self).ledger().players[owner]),
                        ]);
                        assert(old(self).outbox() + events =~= old(self).outbox().push(
                            Message::SyncPlayer(final(self).ledger().players[owner]),
                        ));
                    } else {
                        assert(old(self).outbox() + events =~= old(self).outbox());
                    }
                }
                response
            },
        }
    }

    /// Merges an event that another chain has sent, if this chain is the
    /// hub. On any other chain, and on a ledger that is not set up, the event
    /// is ignored. Nothing is forwarded.
    pub fn execute_message(&mut self, message: Message)
        requires
            old(self).wf(),
        ensures
            final(self).wf(),
            final(self).ledger() == if old(self).ledger().merges_on(old(self).chain()) {
                old(self).ledger().after_message(message)
            } else {
                old(self).ledger()
            },
            final(self).outbox() == old(self).outbox(),
            final(self).chain() == old(self).chain(),
    {
        let hub_chain_id = match self.state.hub_chain_id() {
            Some(id) => id,
            None => {
                return ;
            },
        };
        if !self.chain_id.same(&hub_chain_id) {
            return ;
        }
        match message {
            Message::SyncPlayer(player) => {
                self.handle_sync_player(player);
            },
            Message::SyncScore(score) => {
                self.handle_sync_score(score);
            },
            Message::SyncXpUpdate { wallet_address, total_xp, level, games_played } => {
                self.handle_sync_xp_update(wallet_address, total_xp, level, games_played);
            },
        }
    }

    /// Registers `owner` under `username` and emits the snapshot of the new
    /// player.
    pub fn handle_register_player(&mut self, owner: AccountOwner, username: String, now: u64) -> (response:
        ArcadeResponse)
        requires
            old(self).wf(),
        ensures
            final(self).wf(),
            responds(
                response,
                old(self).ledger().operation_response(
                    Some(owner),
                    Operation::RegisterPlayer { username },
                    now,
                ),
            ),
            final(self).ledger() == old(self).ledger().after_register(owner, username, now),
            final(self).outbox() == old(self).outbox_after_all(
                old(self).ledger().operation_events(
                    Some(owner),
                    Operation::RegisterPlayer { username },
                    now,
                ),
            ),
            final(self).chain() == old(self).chain(),
    {
        match self.state.register_player(owner, username, now) {
            Ok(player) => {
                proof {
                    let events = old(self).ledger().operation_events(
                        Some(owner),
                        Operation::RegisterPlayer { username },
                        now,
                    );
                    assert(events =~= seq![Message::SyncPlayer(player)]);
                    assert(old(self).outbox() + events =~= old(self).outbox().push(
                        Message::SyncPlayer(player),
                    ));
                }
                self.send_to_hub_if_needed(Message::SyncPlayer(player));
                ArcadeResponse::PlayerRegistered
            },
            Err(e) => {
                assert(self.outbox() + Seq::<Message>::empty() =~= self.outbox());
                e.into_response()
            },
        }
    }

    /// Records a score of `owner`, and emits the snapshot of the player and
    /// the record of the score.
    pub fn handle_submit_score(
        &mut self,
        owner: AccountOwner,
        game_type: GameType,
        score: u64,
        bonus_data: Option<u64>,
        now: u64,
    ) -> (response: ArcadeResponse)
        requires
            old(self).wf(),
            old(self).ledger().players.contains_key(owner) ==> old(self).ledger().score_counter
                < u64::MAX,
        ensures
            final(self).wf(),
            old(self).ledger().players.contains_key(owner) ==> {
                let player = old(self).ledger().players[owner].with_xp(
                    xp_award(game_type, score, bonus_data),
                ).with_game_played();
                &&& final(self).ledger().players.contains_key(owner)
                &&& final(self).ledger().players[owner] == player
                &&& final(self).ledger().leaderboard[owner] == LeaderboardEntry::of_player(
                    player,
                    0,
                )
            },
            responds(
                response,
                old(self).ledger().operation_response(
                    Some(owner),
                    Operation::SubmitScore { game_type, score, bonus_data },
                    now,
                ),
            ),
            final(self).ledger() == old(self).ledger().after_submit(
                owner,
                game_type,
                score,
                bonus_data,
                now,
            ),
            final(self).outbox() == old(self).outbox_after_all(
                old(self).ledger().operation_events(
                    Some(owner),
                    Operation::SubmitScore { game_type, score, bonus_data },
                    now,
                ),
            ),
            final(self).chain() == old(self).chain(),
    {
        match self.state.submit_score(owner, game_type, score, bonus_data, now) {
            Ok((record, xp_earned)) => {
                let snapshot = match self.state.players().get(&owner) {
                    Some(player) => player.clone(),
                    None => vstd::pervasive::unreached(),
                };
                proof {
                    let events = old(self).ledger().operation_events(
                        Some(owner),
                        Operation::SubmitScore { game_type, score, bonus_data },
                        now,
                    );
                    assert(events =~= seq![
                        Message::SyncPlayer(snapshot),
                        Message::SyncScore(record),
                    ]);
                    assert(old(self).outbox() + events =~= old(self).outbox().push(
                        Message::SyncPlayer(snapshot),
                    ).push(Message::SyncScore(record)));
                }
                self.send_to_hub_if_needed(Message::SyncPlayer(snapshot));
                self.send_to_hub_if_needed(Message::SyncScore(record));
                ArcadeResponse::ScoreSubmitted { xp_earned }
            },
            Err(e) => {
                assert(self.outbox() + Seq::<Message>::empty() =~= self.outbox());
                e.into_response()
            },
        }
    }

    /// Gives `owner` the user name `new_username` and emits the snapshot of
    /// the player.
    pub fn handle_update_username(&mut self, owner: AccountOwner, new_username: String) -> (response:
        ArcadeResponse)
        requires
            old(self).wf(),
        ensures
            final(self).wf(),
            responds(
                response,
                match old(self).ledger().rename_verdict(owner, new_username@) {
                    Ok(_) => Ok(ArcadeResponse::UsernameUpdated),
                    Err(e) => Err(e),
                },
            ),
            final(self).ledger() == old(self).ledger().after_rename(owner, new_username),
            final(self).outbox() == (match old(self).ledger().rename_verdict(
                owner,
                new_username@,
            ) {
                Ok(_) => old(self).outbox_after(
                    Message::SyncPlayer(final(self).ledger().players[owner]),
                ),
                Err(_) => old(self).outbox(),
            }),
            final(self).chain() == old(self).chain(),
    {
        match self.state.update_username(owner, new_username) {
            Ok(_) => {
                let snapshot = match self.state.players().get(&owner) {
                    Some(player) => player.clone(),
                    None => vstd::pervasive::unreached(),
                };
                self.send_to_hub_if_needed(Message::SyncPlayer(snapshot));
                ArcadeResponse::UsernameUpdated
            },
            Err(e) => e.into_response(),
        }
    }

    /// Merges the snapshot of a player that another chain has sent.
    pub fn handle_sync_player(&mut self, player: Player)
        requires
            old(self).wf(),
        ensures
            final(self).wf(),
            final(self).ledger() == old(self).ledger().after_snapshot(player),
            final(self).outbox() == old(self).outbox(),
            final(self).chain() == old(self).chain(),
    {
        self.state.apply_player_snapshot(player);
    }

    /// Merges the record of a score that another chain has sent.
    pub fn handle_sync_score(&mut self, score: GameScore)
        requires
            old(self).wf(),
        ensures
            final(self).wf(),
            final(self).ledger() == old(self).ledger().with_score(score),
            final(self).outbox() == old(self).outbox(),
            final(self).chain() == old(self).chain(),
    {
        self.state.apply_score_record(score);
    }

    /// Merges an update of progress that another chain has sent.
    pub fn handle_sync_xp_update(
        &mut self,
        wallet_address: AccountOwner,
        total_xp: u64,
        level: u32,
        games_played: u64,
    )
        requires
            old(self).wf(),
        ensures
            final(self).wf(),
            final(self).ledger() == old(self).ledger().after_xp_update(
                wallet_address,
                total_xp,
                level,
                games_played,
            ),
            final(self).outbox() == old(self).outbox(),
            final(self).chain() == old(self).chain(),
    {
        self.state.apply_xp_update(wallet_address, total_xp, level, games_played);
    }
}

} // verus!
