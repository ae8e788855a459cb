use arcade_hub::{
    AccountOwner, ArcadeError, ArcadeHubContract, ArcadeHubState, ArcadeResponse, ChainId,
    GameScore, GameType, InstantiationArgument, LeaderboardEntry, Message, Operation, Player,
};

fn alice() -> AccountOwner {
    AccountOwner::Address20([0xa1; 20])
}

fn bob() -> AccountOwner {
    AccountOwner::Address20([0xb0; 20])
}

fn hub() -> ChainId {
    ChainId([1; 32])
}

fn shard() -> ChainId {
    ChainId([2; 32])
}

fn contract_on(chain: ChainId) -> ArcadeHubContract {
    let mut contract = ArcadeHubContract::new(ArcadeHubState::new(), chain);
    contract.instantiate(InstantiationArgument { hub_chain_id: hub() });
    contract
}

fn register(contract: &mut ArcadeHubContract, owner: AccountOwner, name: &str, now: u64) -> ArcadeResponse {
    contract.execute_operation(
        Some(owner),
        Operation::RegisterPlayer { username: String::from(name) },
        now,
    )
}

fn submit(
    contract: &mut ArcadeHubContract,
    owner: AccountOwner,
    game_type: GameType,
    score: u64,
    bonus_data: Option<u64>,
    now: u64,
) -> ArcadeResponse {
    contract.execute_operation(
        Some(owner),
        Operation::SubmitScore { game_type, score, bonus_data },
        now,
    )
}

#[test]
fn a_new_state_is_empty_and_not_set_up() {
    let state = ArcadeHubState::new();
    assert_eq!(state.hub_chain_id(), None);
    assert_eq!(state.players().len(), 0);
    assert_eq!(state.leaderboard().len(), 0);
    assert_eq!(state.game_scores().len(), 0);
    assert_eq!(state.score_counter(), 0);
    assert_eq!(state.total_games_played(), 0);
    assert_eq!(state.total_xp_earned(), 0);
}

#[test]
fn instantiate_records_the_hub_and_resets_the_registers() {
    let mut state = ArcadeHubState::new();
    state.register_player(alice(), String::from("alice"), 1).unwrap();
    state.submit_score(alice(), GameType::SpeedClicker, 5, None, 2).unwrap();
    assert_eq!(state.score_counter(), 1);
    state.instantiate(hub());
    assert_eq!(state.hub_chain_id(), Some(hub()));
    assert_eq!(state.score_counter(), 0);
    assert_eq!(state.total_games_played(), 0);
    assert_eq!(state.total_xp_earned(), 0);
    assert_eq!(state.players().len(), 1);
}

#[test]
fn registration_creates_a_player_at_level_one() {
    let mut state = ArcadeHubState::new();
    let player = state.register_player(alice(), String::from("alice"), 1234).unwrap();
    let expected = Player {
        owner: alice(),
        username: String::from("alice"),
        total_xp: 0,
        level: 1,
        games_played: 0,
        registered_at: 1234,
    };
    assert_eq!(player, expected);
    assert_eq!(state.players().get(&alice()), Some(&expected));
    assert_eq!(
        state.leaderboard().get(&alice()),
        Some(&LeaderboardEntry {
            wallet_address: alice(),
            username: String::from("alice"),
            total_xp: 0,
            level: 1,
            rank: 0,
        })
    );
    assert_eq!(state.players().len(), 1);
    assert_eq!(state.leaderboard().len(), 1);
}

#[test]
fn registration_succeeds_exactly_once_per_identity() {
    let mut state = ArcadeHubState::new();
    assert!(state.register_player(alice(), String::from("alice"), 1).is_ok());
    assert_eq!(
        state.register_player(alice(), String::from("alice"), 2),
        Err(ArcadeError::PlayerAlreadyRegistered)
    );
    assert_eq!(
        state.register_player(alice(), String::from("another"), 3),
        Err(ArcadeError::PlayerAlreadyRegistered)
    );
    assert!(state.register_player(bob(), String::from("alice"), 4).is_ok());
    assert_eq!(state.players().len(), 2);
    assert_eq!(state.players().get(&alice()).unwrap().username, "alice");
    assert_eq!(state.players().get(&alice()).unwrap().registered_at, 1);
}

#[test]
fn registration_checks_the_name_before_the_identity() {
    let mut state = ArcadeHubState::new();
    assert_eq!(
        state.register_player(alice(), String::from("al"), 1),
        Err(ArcadeError::InvalidUsernameLength)
    );
    assert_eq!(
        state.register_player(alice(), String::from("al ice"), 1),
        Err(ArcadeError::InvalidUsernameCharacters)
    );
    assert_eq!(state.players().len(), 0);
    assert_eq!(state.leaderboard().len(), 0);
    state.register_player(alice(), String::from("alice"), 1).unwrap();
    assert_eq!(
        state.register_player(alice(), String::from("x"), 2),
        Err(ArcadeError::InvalidUsernameLength)
    );
}

#[test]
fn submission_needs_a_registered_player() {
    let mut state = ArcadeHubState::new();
    assert_eq!(
        state.submit_score(alice(), GameType::SpeedClicker, 50, None, 1),
        Err(ArcadeError::PlayerNotRegistered)
    );
    assert_eq!(state.score_counter(), 0);
    assert_eq!(state.total_games_played(), 0);
    assert_eq!(state.game_scores().len(), 0);
}

#[test]
fn submission_updates_player_scores_and_totals() {
    let mut state = ArcadeHubState::new();
    state.register_player(alice(), String::from("alice"), 1).unwrap();
    let (record, xp) = state
        .submit_score(alice(), GameType::SpeedClicker, 50, None, 77)
        .unwrap();
    assert_eq!(xp, 500);
    assert_eq!(
        record,
        GameScore {
            id: 0,
            game_type: GameType::SpeedClicker,
            player: alice(),
            score: 50,
            xp_earned: 500,
            bonus_data: None,
            timestamp: 77,
        }
    );
    let player = state.players().get(&alice()).unwrap();
    assert_eq!(player.total_xp, 500);
    assert_eq!(player.level, 3);
    assert_eq!(player.games_played, 1);
    assert_eq!(player.registered_at, 1);
    let line = state.leaderboard().get(&alice()).unwrap();
    assert_eq!(line.total_xp, 500);
    assert_eq!(line.level, 3);
    assert_eq!(line.rank, 0);
    assert_eq!(state.game_scores().get(&0), Some(&record));
    assert_eq!(state.score_counter(), 1);
    assert_eq!(state.total_games_played(), 1);
    assert_eq!(state.total_xp_earned(), 500);
}

#[test]
fn score_identifiers_count_up_from_zero() {
    let mut state = ArcadeHubState::new();
    state.register_player(alice(), String::from("alice"), 1).unwrap();
    state.register_player(bob(), String::from("bob"), 1).unwrap();
    for expected in 0..5u64 {
        let owner = if expected % 2 == 0 { alice() } else { bob() };
        let (record, _) = state
            .submit_score(owner, GameType::MathBlitz, 1, Some(0), 10 + expected)
            .unwrap();
        assert_eq!(record.id, expected);
    }
    assert_eq!(state.score_counter(), 5);
    assert_eq!(state.game_scores().len(), 5);
    assert_eq!(state.total_games_played(), 5);
    assert_eq!(state.total_xp_earned(), 125);
}

#[test]
fn repeated_submissions_keep_the_level_in_step() {
    let mut state = ArcadeHubState::new();
    state.register_player(alice(), String::from("alice"), 1).unwrap();
    let mut last_level = 1;
    let mut last_xp = 0;
    for round in 0..40u64 {
        state
            .submit_score(alice(), GameType::SnakeSprint, round * 3, Some(round), round)
            .unwrap();
        let player = state.players().get(&alice()).unwrap();
        assert!(player.total_xp >= last_xp);
        assert!(player.level >= last_level);
        assert_eq!(player.level, arcade_hub::calculate_level(player.total_xp));
        assert_eq!(player.games_played, round + 1);
        last_level = player.level;
        last_xp = player.total_xp;
    }
    assert_eq!(last_xp, (0..40u64).map(|r| r * 45 + r * 5).sum::<u64>());
}

#[test]
fn experience_and_totals_are_clamped() {
    let mut state = ArcadeHubState::new();
    state.register_player(alice(), String::from("alice"), 1).unwrap();
    state.submit_score(alice(), GameType::SpeedClicker, u64::MAX, None, 1).unwrap();
    state.submit_score(alice(), GameType::SpeedClicker, 1, None, 2).unwrap();
    let player = state.players().get(&alice()).unwrap();
    assert_eq!(player.total_xp, u64::MAX);
    assert_eq!(player.level, 429_496_730);
    assert_eq!(player.games_played, 2);
    assert_eq!(state.total_xp_earned(), u64::MAX);
    assert_eq!(state.total_games_played(), 2);
}

#[test]
fn a_player_can_change_their_name() {
    let mut state = ArcadeHubState::new();
    state.register_player(alice(), String::from("alice"), 1).unwrap();
    state.submit_score(alice(), GameType::SpeedClicker, 50, None, 2).unwrap();
    assert_eq!(state.update_username(alice(), String::from("alice_2")), Ok(()));
    let player = state.players().get(&alice()).unwrap();
    assert_eq!(player.username, "alice_2");
    assert_eq!(player.total_xp, 500);
    assert_eq!(player.games_played, 1);
    let line = state.leaderboard().get(&alice()).unwrap();
    assert_eq!(line.username, "alice_2");
    assert_eq!(line.total_xp, 500);
    assert_eq!(line.level, 3);
}

#[test]
fn a_change_of_name_can_fail() {
    let mut state = ArcadeHubState::new();
    assert_eq!(
        state.update_username(alice(), String::from("alice")),
        Err(ArcadeError::PlayerNotRegistered)
    );
    assert_eq!(
        state.update_username(alice(), String::from("a")),
        Err(ArcadeError::InvalidUsernameLength)
    );
    state.register_player(alice(), String::from("alice"), 1).unwrap();
    assert_eq!(
        state.update_username(alice(), String::from("al!ce")),
        Err(ArcadeError::InvalidUsernameCharacters)
    );
    assert_eq!(state.players().get(&alice()).unwrap().username, "alice");
}

#[test]
fn a_command_without_a_signer_is_refused() {
    let mut contract = contract_on(shard());
    let response = contract.execute_operation(
        None,
        Operation::RegisterPlayer { username: String::from("alice") },
        1,
    );
    assert_eq!(
        response,
        ArcadeResponse::Error(String::from("Operation requires authentication"))
    );
    assert_eq!(contract.state().players().len(), 0);
    assert!(contract.take_outbox().is_empty());
}

#[test]
fn commands_are_answered() {
    let mut contract = contract_on(shard());
    assert_eq!(register(&mut contract, alice(), "alice", 1), ArcadeResponse::PlayerRegistered);
    assert_eq!(
        register(&mut contract, alice(), "alice", 2),
        ArcadeResponse::Error(String::from("Player is already registered"))
    );
    assert_eq!(
        register(&mut contract, bob(), "b", 2),
        ArcadeResponse::Error(String::from("Username must be between 3 and 20 characters"))
    );
    assert_eq!(
        register(&mut contract, bob(), "b b", 2),
        ArcadeResponse::Error(String::from("Username contains invalid characters"))
    );
    assert_eq!(
        submit(&mut contract, alice(), GameType::MemoryMatrix, 4, Some(2), 3),
        ArcadeResponse::ScoreSubmitted { xp_earned: 500 }
    );
    assert_eq!(
        submit(&mut contract, bob(), GameType::MemoryMatrix, 4, Some(2), 3),
        ArcadeResponse::Error(String::from("Player is not registered"))
    );
    assert_eq!(
        contract.execute_operation(
            Some(alice()),
            Operation::UpdateUsername { new_username: String::from("alicia") },
            4
        ),
        ArcadeResponse::UsernameUpdated
    );
    assert_eq!(
        contract.execute_operation(
            Some(bob()),
            Operation::UpdateUsername { new_username: String::from("bobby") },
            4
        ),
        ArcadeResponse::Error(String::from("Player is not registered"))
    );
}

#[test]
fn a_shard_emits_a_snapshot_on_registration() {
    let mut contract = contract_on(shard());
    register(&mut contract, alice(), "alice", 9);
    let events = contract.take_outbox();
    assert_eq!(
        events,
        vec![Message::SyncPlayer(Player {
            owner: alice(),
            username: String::from("alice"),
            total_xp: 0,
            level: 1,
            games_played: 0,
            registered_at: 9,
        })]
    );
    assert!(contract.take_outbox().is_empty());
}

#[test]
fn a_shard_emits_a_snapshot_and_a_record_on_submission() {
    let mut contract = contract_on(shard());
    register(&mut contract, alice(), "alice", 9);
    contract.take_outbox();
    submit(&mut contract, alice(), GameType::SpeedClicker, 50, None, 10);
    let events = contract.take_outbox();
    assert_eq!(
        events,
        vec![
            Message::SyncPlayer(Player {
                owner: alice(),
                username: String::from("alice"),
                total_xp: 500,
                level: 3,
                games_played: 1,
                registered_at: 9,
            }),
            Message::SyncScore(GameScore {
                id: 0,
                game_type: GameType::SpeedClicker,
                player: alice(),
                score: 50,
                xp_earned: 500,
                bonus_data: None,
                timestamp: 10,
            }),
        ]
    );
}

#[test]
fn a_shard_emits_a_snapshot_on_a_change_of_name() {
    let mut contract = contract_on(shard());
    register(&mut contract, alice(), "alice", 9);
    contract.take_outbox();
    contract.execute_operation(
        Some(alice()),
        Operation::UpdateUsername { new_username: String::from("alicia") },
        11,
    );
    assert_eq!(
        contract.take_outbox(),
        vec![Message::SyncPlayer(Player {
            owner: alice(),
            username: String::from("alicia"),
            total_xp: 0,
            level: 1,
            games_played: 0,
            registered_at: 9,
        })]
    );
}

#[test]
fn failed_commands_emit_nothing() {
    let mut contract = contract_on(shard());
    register(&mut contract, alice(), "a", 1);
    submit(&mut contract, alice(), GameType::SpeedClicker, 1, None, 2);
    contract.execute_operation(
        Some(alice()),
        Operation::UpdateUsername { new_username: String::from("alicia") },
        3,
    );
    assert!(contract.take_outbox().is_empty());
}

#[test]
fn the_hub_emits_nothing() {
    let mut contract = contract_on(hub());
    register(&mut contract, alice(), "alice", 1);
    submit(&mut contract, alice(), GameType::SpeedClicker, 1, None, 2);
    assert!(contract.take_outbox().is_empty());
    assert_eq!(contract.state().players().len(), 1);
    assert_eq!(contract.state().game_scores().len(), 1);
}

#[test]
fn a_ledger_that_is_not_set_up_emits_nothing() {
    let mut contract = ArcadeHubContract::new(ArcadeHubState::new(), shard());
    register(&mut contract, alice(), "alice", 1);
    contract.send_to_hub_if_needed(Message::SyncXpUpdate {
        wallet_address: alice(),
        total_xp: 1,
        level: 1,
        games_played: 1,
    });
    assert!(contract.take_outbox().is_empty());
    assert_eq!(contract.state().players().len(), 1);
}

#[test]
fn events_queue_up_in_the_order_of_emission() {
    let mut contract = contract_on(shard());
    register(&mut contract, alice(), "alice", 1);
    register(&mut contract, bob(), "bob", 2);
    submit(&mut contract, bob(), GameType::MathBlitz, 2, Some(1), 3);
    let events = contract.take_outbox();
    assert_eq!(events.len(), 4);
    assert!(matches!(&events[0], Message::SyncPlayer(p) if p.owner == alice()));
    assert!(matches!(&events[1], Message::SyncPlayer(p) if p.owner == bob() && p.total_xp == 0));
    assert!(matches!(&events[2], Message::SyncPlayer(p) if p.owner == bob() && p.total_xp == 60));
    assert!(matches!(&events[3], Message::SyncScore(s) if s.id == 0 && s.player == bob()));
}

#[test]
fn the_contract_knows_its_chain_and_gives_back_its_state() {
    let mut contract = contract_on(shard());
    assert_eq!(contract.chain_id(), shard());
    register(&mut contract, alice(), "alice", 1);
    let state = contract.into_state();
    assert_eq!(state.hub_chain_id(), Some(hub()));
    assert_eq!(state.players().len(), 1);
}

#[test]
fn player_methods_add_experience_and_games() {
    let mut player = Player::new(alice(), String::from("alice"), 5);
    assert_eq!(player.total_xp, 0);
    assert_eq!(player.level, 1);
    assert_eq!(player.games_played, 0);
    assert_eq!(player.registered_at, 5);
    player.add_xp(399);
    assert_eq!((player.total_xp, player.level), (399, 2));
    player.add_xp(1);
    assert_eq!((player.total_xp, player.level), (400, 3));
    player.add_xp(u64::MAX);
    assert_eq!((player.total_xp, player.level), (u64::MAX, 429_496_730));
    player.increment_games();
    player.increment_games();
    assert_eq!(player.games_played, 2);
    player.games_played = u64::MAX;
    player.increment_games();
    assert_eq!(player.games_played, u64::MAX);
    assert_eq!(player.clone(), player);
}

#[test]
fn a_leaderboard_line_shows_the_player() {
    let mut player = Player::new(alice(), String::from("alice"), 5);
    player.add_xp(900);
    let line = LeaderboardEntry::from_player(&player, 7);
    assert_eq!(
        line,
        LeaderboardEntry {
            wallet_address: alice(),
            username: String::from("alice"),
            total_xp: 900,
            level: 4,
            rank: 7,
        }
    );
    assert_eq!(line.clone(), line);
}

#[test]
fn a_state_can_be_put_together_from_its_records() {
    let first = Player::new(alice(), String::from("alice"), 1);
    let mut later = Player::new(alice(), String::from("alicia"), 2);
    later.add_xp(500);
    let other = Player::new(bob(), String::from("bob"), 3);
    let line = LeaderboardEntry::from_player(&later, 0);
    let score = GameScore {
        id: 4,
        game_type: GameType::MathBlitz,
        player: bob(),
        score: 3,
        xp_earned: 75,
        bonus_data: None,
        timestamp: 9,
    };
    let state = ArcadeHubState::from_records(
        Some(hub()),
        vec![first, other.clone(), later.clone()],
        vec![line.clone()],
        vec![score],
        5,
        6,
        7,
    );
    assert_eq!(state.hub_chain_id(), Some(hub()));
    assert_eq!(state.players().len(), 2);
    // Of two records of one owner the later stays.
    assert_eq!(state.players().get(&alice()), Some(&later));
    assert_eq!(state.players().get(&bob()), Some(&other));
    assert_eq!(state.leaderboard().len(), 1);
    assert_eq!(state.leaderboard().get(&alice()), Some(&line));
    assert_eq!(state.game_scores().get(&4), Some(&score));
    assert_eq!(state.score_counter(), 5);
    assert_eq!(state.total_games_played(), 6);
    assert_eq!(state.total_xp_earned(), 7);
}

#[test]
fn a_window_of_the_ledger_answers_a_command_like_the_whole() {
    let mut whole = ArcadeHubState::new();
    whole.instantiate(hub());
    whole.register_player(alice(), String::from("alice"), 1).unwrap();
    whole.register_player(bob(), String::from("bob"), 2).unwrap();
    whole.submit_score(bob(), GameType::SpeedClicker, 3, None, 3).unwrap();
    let mut window = ArcadeHubState::from_records(
        whole.hub_chain_id(),
        vec![whole.players().get(&alice()).unwrap().clone()],
        vec![whole.leaderboard().get(&alice()).unwrap().clone()],
        vec![],
        whole.score_counter(),
        whole.total_games_played(),
        whole.total_xp_earned(),
    );
    let in_whole = whole.submit_score(alice(), GameType::MemoryMatrix, 4, Some(2), 4);
    let in_window = window.submit_score(alice(), GameType::MemoryMatrix, 4, Some(2), 4);
    assert_eq!(in_whole, in_window);
    assert_eq!(whole.players().get(&alice()), window.players().get(&alice()));
    assert_eq!(whole.leaderboard().get(&alice()), window.leaderboard().get(&alice()));
    assert_eq!(whole.game_scores().get(&1), window.game_scores().get(&1));
    assert_eq!(whole.score_counter(), window.score_counter());
    assert_eq!(whole.total_games_played(), window.total_games_played());
    assert_eq!(whole.total_xp_earned(), window.total_xp_earned());
    assert_eq!(window.players().len(), 1);
}
