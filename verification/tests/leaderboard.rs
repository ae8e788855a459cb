use arcade_hub::{AccountOwner, ArcadeHubService, ArcadeHubState, LeaderboardEntry, Player};

fn address(tag: u8) -> AccountOwner {
    AccountOwner::Address20([tag; 20])
}

fn numbered(n: u32) -> AccountOwner {
    let mut bytes = [0u8; 20];
    bytes[16..20].copy_from_slice(&n.to_be_bytes());
    AccountOwner::Address20(bytes)
}

fn with_players(players: &[(AccountOwner, &str, u64)]) -> ArcadeHubService {
    let mut state = ArcadeHubState::new();
    for (owner, name, xp) in players.iter() {
        state.apply_player_snapshot(Player {
            owner: *owner,
            username: String::from(*name),
            total_xp: *xp,
            level: arcade_hub::calculate_level(*xp),
            games_played: 1,
            registered_at: 0,
        });
    }
    ArcadeHubService::new(state)
}

fn names(page: &[LeaderboardEntry]) -> Vec<String> {
    page.iter().map(|line| line.username.clone()).collect()
}

#[test]
fn an_empty_leaderboard() {
    let service = ArcadeHubService::new(ArcadeHubState::new());
    assert!(service.leaderboard(None).is_empty());
    assert!(service.leaderboard(Some(10)).is_empty());
    assert_eq!(service.player_rank(&address(1)), None);
}

#[test]
fn lines_are_sorted_by_descending_experience() {
    let service = with_players(&[
        (address(1), "low", 100),
        (address(2), "high", 900),
        (address(3), "mid", 400),
        (address(4), "none", 0),
    ]);
    let page = service.leaderboard(None);
    assert_eq!(names(&page), vec!["high", "mid", "low", "none"]);
    for (place, line) in page.iter().enumerate() {
        assert_eq!(line.rank, place as u32 + 1);
    }
    for pair in page.windows(2) {
        assert!(pair[0].total_xp >= pair[1].total_xp);
    }
    assert_eq!(
        page[0],
        LeaderboardEntry {
            wallet_address: address(2),
            username: String::from("high"),
            total_xp: 900,
            level: 4,
            rank: 1,
        }
    );
}

#[test]
fn ties_go_to_the_smaller_owner() {
    let service = with_players(&[
        (address(9), "nine", 500),
        (address(3), "three", 500),
        (AccountOwner::Address32([0xff; 32]), "long", 500),
        (address(5), "five", 500),
        (AccountOwner::Reserved(200), "reserved", 500),
        (address(1), "top", 600),
    ]);
    let page = service.leaderboard(None);
    assert_eq!(names(&page), vec!["top", "reserved", "long", "three", "five", "nine"]);
}

#[test]
fn the_order_does_not_depend_on_the_order_of_arrival() {
    let forward = with_players(&[
        (address(1), "a", 500),
        (address(2), "b", 500),
        (address(3), "c", 700),
    ]);
    let backward = with_players(&[
        (address(3), "c", 700),
        (address(2), "b", 500),
        (address(1), "a", 500),
    ]);
    assert_eq!(forward.leaderboard(None), backward.leaderboard(None));
}

#[test]
fn the_page_is_cut_to_the_limit() {
    let service = with_players(&[
        (address(1), "low", 100),
        (address(2), "high", 900),
        (address(3), "mid", 400),
    ]);
    assert_eq!(names(&service.leaderboard(Some(2))), vec!["high", "mid"]);
    assert_eq!(names(&service.leaderboard(Some(1))), vec!["high"]);
    assert!(service.leaderboard(Some(0)).is_empty());
    assert_eq!(service.leaderboard(Some(3)).len(), 3);
    assert_eq!(service.leaderboard(Some(50)).len(), 3);
    assert_eq!(service.leaderboard(Some(i32::MAX)).len(), 3);
}

#[test]
fn a_negative_limit_is_no_limit() {
    let service = with_players(&[
        (address(1), "low", 100),
        (address(2), "high", 900),
        (address(3), "mid", 400),
    ]);
    assert_eq!(service.leaderboard(Some(-1)).len(), 3);
    assert_eq!(service.leaderboard(Some(i32::MIN)).len(), 3);
}

#[test]
fn without_a_limit_a_page_has_a_hundred_lines() {
    let mut state = ArcadeHubState::new();
    for n in 0..130u32 {
        state.apply_player_snapshot(Player {
            owner: numbered(n),
            username: format!("player{}", n),
            total_xp: (n as u64) * 10,
            level: 1,
            games_played: 0,
            registered_at: 0,
        });
    }
    let service = ArcadeHubService::new(state);
    let page = service.leaderboard(None);
    assert_eq!(page.len(), 100);
    assert_eq!(page[0].username, "player129");
    assert_eq!(page[0].rank, 1);
    assert_eq!(page[99].username, "player30");
    assert_eq!(page[99].rank, 100);
    assert_eq!(service.leaderboard(Some(-5)).len(), 130);
    assert_eq!(service.leaderboard(Some(130))[129].rank, 130);
    assert_eq!(service.player_rank(&numbered(0)), Some(130));
    assert_eq!(service.player_rank(&numbered(129)), Some(1));
}

#[test]
fn ranks_are_computed_not_stored() {
    let mut state = ArcadeHubState::new();
    state.register_player(address(1), String::from("one"), 0).unwrap();
    state.register_player(address(2), String::from("two"), 0).unwrap();
    state.submit_score(address(2), arcade_hub::GameType::SpeedClicker, 5, None, 1).unwrap();
    assert_eq!(state.leaderboard().get(&address(1)).unwrap().rank, 0);
    assert_eq!(state.leaderboard().get(&address(2)).unwrap().rank, 0);
    let service = ArcadeHubService::new(state);
    let page = service.leaderboard(None);
    assert_eq!(names(&page), vec!["two", "one"]);
    assert_eq!(page[0].rank, 1);
    assert_eq!(page[1].rank, 2);
}

#[test]
fn the_rank_of_a_player_is_their_place_on_the_board() {
    let service = with_players(&[
        (address(1), "low", 100),
        (address(2), "high", 900),
        (address(3), "mid", 400),
        (address(4), "mid_too", 400),
    ]);
    assert_eq!(service.player_rank(&address(2)), Some(1));
    assert_eq!(service.player_rank(&address(3)), Some(2));
    assert_eq!(service.player_rank(&address(4)), Some(3));
    assert_eq!(service.player_rank(&address(1)), Some(4));
    assert_eq!(service.player_rank(&address(5)), None);
    let page = service.leaderboard(None);
    for line in page.iter() {
        assert_eq!(service.player_rank(&line.wallet_address), Some(line.rank as i32));
    }
}
