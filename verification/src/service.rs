//! The read-only side of a ledger: players, the leaderboard, scores and
//! totals. Every answer is computed afresh from the ledger; no rank is ever
//! read from storage.

use vstd::prelude::*;

use crate::game::GameType;
use crate::identity::AccountOwner;
use crate::ledger::Ledger;
use crate::ordered_map::{
    as_map, ascending, keys_of, lemma_keys, lemma_size, lemma_slot, rank_at, rank_lt, slot_of,
    OrderedKey, OrderedMap,
};
use crate::ranking::{is_ranking, lemma_standing, outranks, ranking, standing};
use crate::state::ArcadeHubState;
use crate::types::{ArcadeStats, GameHighScoreEntry, GameScore, LeaderboardEntry, Player};

verus! {

/// The number of answers on a page: as many as there are, up to the limit. A
/// missing limit stands for `default`; a negative one for no limit at all.
pub open spec fn page_len(limit: Option<i32>, default: nat, available: nat) -> nat {
    let cap: nat = match limit {
        None => default,
        Some(l) => if l < 0 {
            available
        } else {
            l as nat
        },
    };
    if cap < available {
        cap
    } else {
        available
    }
}

/// The rank shown at place `place` of a ranking, places counted from 0: one
/// more than the place, reduced modulo `2^32`.
pub open spec fn rank_number(place: int) -> u32 {
    ((place + 1) % 0x1_0000_0000) as u32
}

/// The rank at place `place` as a signed number: `rank_number` read as a
/// 32-bit two's complement value.
pub open spec fn signed_rank_number(place: int) -> i32 {
    let m = (place + 1) % 0x1_0000_0000;
    if m < 0x8000_0000 {
        m as i32
    } else {
        (m - 0x1_0000_0000) as i32
    }
}

/// The experience that the leaderboard shows for each owner.
pub open spec fn xp_shown(board: Map<AccountOwner, LeaderboardEntry>) -> spec_fn(AccountOwner) -> u64 {
    |k: AccountOwner| board[k].total_xp
}

/// The identifiers of the scores that a query asks for: those of one game,
/// or all of them.
pub open spec fn wanted(scores: Map<u64, GameScore>, game: Option<GameType>) -> Set<u64> {
    scores.dom().filter(|id: u64| game matches Some(g) ==> scores[id].game_type == g)
}

/// What scores are ranked by: the time of the score, or its value.
pub open spec fn measure(scores: Map<u64, GameScore>, by_time: bool) -> spec_fn(u64) -> u64 {
    |id: u64|
        if by_time {
            scores[id].timestamp
        } else {
            scores[id].score
        }
}

/// Whether a score is one of `owner` in `game`.
pub open spec fn counts_for(record: GameScore, game: GameType, owner: AccountOwner) -> bool {
    record.game_type == game && record.player == owner
}

/// Whether the score `id` is the best of `owner` in `game`: no score of
/// theirs in that game is higher, and of those as high none has a smaller
/// identifier.
pub open spec fn is_best(
    scores: Map<u64, GameScore>,
    game: GameType,
    owner: AccountOwner,
    id: u64,
) -> bool {
    &&& scores.contains_key(id)
    &&& counts_for(scores[id], game, owner)
    &&& forall|other: u64|
        scores.contains_key(other) && counts_for(#[trigger] scores[other], game, owner)
            ==> scores[other].score < scores[id].score || (scores[other].score
            == scores[id].score && id <= other)
}

/// The owners who have a score in `game`.
pub open spec fn contenders(scores: Map<u64, GameScore>, game: GameType) -> Set<AccountOwner> {
    Set::new(
        |owner: AccountOwner|
            exists|id: u64|
                scores.contains_key(id) && counts_for(#[trigger] scores[id], game, owner),
    )
}

/// The best score of `owner` in `game`.
pub open spec fn best_record(
    scores: Map<u64, GameScore>,
    game: GameType,
    owner: AccountOwner,
) -> GameScore {
    scores[choose|id: u64| is_best(scores, game, owner, id)]
}

/// The value of the best score of each owner in `game`.
pub open spec fn best_score(scores: Map<u64, GameScore>, game: GameType) -> spec_fn(
    AccountOwner,
) -> u64 {
    |owner: AccountOwner| best_record(scores, game, owner).score
}

/// The name shown for `owner`: their user name, or `Unknown` for one who is
/// no player of this ledger.
pub open spec fn shown_name(players: Map<AccountOwner, Player>, owner: AccountOwner) -> Seq<char> {
    if players.contains_key(owner) {
        players[owner].username@
    } else {
        "Unknown"@
    }
}

/// Whether `line` shows `record` as the best score of its player.
pub open spec fn shows_record(
    line: GameHighScoreEntry,
    record: GameScore,
    players: Map<AccountOwner, Player>,
) -> bool {
    &&& line.player == record.player
    &&& line.username@ == shown_name(players, record.player)
    &&& line.score == record.score
    &&& line.xp_earned == record.xp_earned
    &&& line.timestamp == record.timestamp
}

/// Whether the score at position `j` is one of `owner` in `game`.
spec fn counts_at(
    s: Seq<(u64, GameScore)>,
    game: GameType,
    owner: AccountOwner,
    j: int,
) -> bool {
    counts_for(s[j].1, game, owner)
}

/// Whether the score at position `j` is the best of `owner` in `game` among
/// the first `upto` scores.
spec fn best_upto(
    s: Seq<(u64, GameScore)>,
    upto: int,
    game: GameType,
    owner: AccountOwner,
    j: int,
) -> bool {
    &&& 0 <= j < upto
    &&& counts_at(s, game, owner, j)
    &&& forall|j2: int|
        0 <= j2 < upto && #[trigger] counts_at(s, game, owner, j2) ==> s[j2].1.score
            < s[j].1.score || (s[j2].1.score == s[j].1.score && j <= j2)
}

/// Whether `best` holds, for each owner with a score in `game` among the
/// first `upto` scores, the best of them.
spec fn gathered(
    s: Seq<(u64, GameScore)>,
    upto: int,
    game: GameType,
    best: Map<AccountOwner, GameScore>,
) -> bool {
    &&& forall|owner: AccountOwner| #[trigger]
        best.contains_key(owner) <==> exists|j: int|
            0 <= j < upto && #[trigger] counts_at(s, game, owner, j)
    &&& forall|owner: AccountOwner| #[trigger]
        best.contains_key(owner) ==> exists|j: int| #[trigger]
            best_upto(s, upto, game, owner, j) && best[owner] == s[j].1
}

/// What has been gathered from all scores is, for each owner with a score
/// in the game, their best record.
proof fn lemma_gathered(s: Seq<(u64, GameScore)>, game: GameType, best: Map<AccountOwner, GameScore>)
    requires
        ascending(s),
        gathered(s, s.len() as int, game, best),
    ensures
        best.dom() == contenders(as_map(s), game),
        forall|owner: AccountOwner| #[trigger]
            best.contains_key(owner) ==> best_record(as_map(s), game, owner) == best[owner]
                && best[owner].player == owner,
{
    let scores = as_map(s);
    assert forall|owner: AccountOwner| best.contains_key(owner) <==> contenders(
        scores,
        game,
    ).contains(owner) by {
        if best.contains_key(owner) {
            let j = choose|j: int| 0 <= j < s.len() && counts_at(s, game, owner, j);
            lemma_slot(s, j);
            assert(scores.contains_key(s[j].0) && counts_for(scores[s[j].0], game, owner));
        }
        if contenders(scores, game).contains(owner) {
            let id = choose|id: u64|
                scores.contains_key(id) && counts_for(#[trigger] scores[id], game, owner);
            let j = slot_of(s, id);
            assert(0 <= j < s.len() && s[j].0 == id);
            lemma_slot(s, j);
            assert(counts_at(s, game, owner, j));
        }
    }
    assert(best.dom() =~= contenders(scores, game));
    assert forall|owner: AccountOwner| #[trigger] best.contains_key(owner) implies best_record(
        scores,
        game,
        owner,
    ) == best[owner] && best[owner].player == owner by {
        let j = choose|j: int| #[trigger]
            best_upto(s, s.len() as int, game, owner, j) && best[owner] == s[j].1;
        lemma_slot(s, j);
        let id = s[j].0;
        assert forall|other: u64|
            scores.contains_key(other) && counts_for(
                #[trigger] scores[other],
                game,
                owner,
            ) implies scores[other].score < scores[id].score || (scores[other].score
            == scores[id].score && id <= other) by {
            let j2 = slot_of(s, other);
            assert(0 <= j2 < s.len() && s[j2].0 == other);
            lemma_slot(s, j2);
            assert(counts_at(s, game, owner, j2));
            if j < j2 {
                assert(rank_lt(
                    rank_at(s, j),
                    rank_at(s, j2),
                ));
            }
        }
        assert(is_best(scores, game, owner, id));
        let chosen = choose|id: u64| is_best(scores, game, owner, id);
        assert(is_best(scores, game, owner, chosen));
        assert(counts_for(scores[chosen], game, owner));
        assert(counts_for(scores[id], game, owner));
        assert(chosen == id);
    }
}

/// `page_len` of `available` answers.
fn page_count(limit: Option<i32>, default: usize, available: usize) -> (n: usize)
    ensures
        n == page_len(limit, default as nat, available as nat),
{
    let cap: usize = match limit {
        None => default,
        Some(l) => if l < 0 {
            available
        } else {
            l as usize
        },
    };
    if cap < available {
        cap
    } else {
        available
    }
}

/// `rank_number` of a place.
fn rank_at_place(place: usize) -> (r: u32)
    requires
        place < usize::MAX,
    ensures
        r == rank_number(place as int),
{
    let m: u64 = (place as u64 + 1) % 0x1_0000_0000;
    m as u32
}

/// `signed_rank_number` of a place.
fn signed_rank_at_place(place: usize) -> (r: i32)
    requires
        place < usize::MAX,
    ensures
        r == signed_rank_number(place as int),
{
    let m: u64 = (place as u64 + 1) % 0x1_0000_0000;
    if m < 0x8000_0000 {
        m as i32
    } else {
        (m as i64 - 0x1_0000_0000) as i32
    }
}

/// The experience shown by each line of a leaderboard, in the order of a
/// scan.
fn shown_xp(board: &OrderedMap<AccountOwner, LeaderboardEntry>) -> (xs: Vec<u64>)
    ensures
        xs@.len() == board.entries().len(),
        forall|i: int| 0 <= i < xs@.len() ==> #[trigger] xs@[i] == board.entries()[i].1.total_xp,
{
    let n = board.len();
    let mut xs: Vec<u64> = Vec::new();
    let mut i: usize = 0;
    while i < n
        invariant
            n == board.entries().len(),
            i <= n,
            xs@.len() == i,
            forall|j: int| 0 <= j < i ==> #[trigger] xs@[j] == board.entries()[j].1.total_xp,
        decreases n - i,
    {
        xs.push(board.value_at(i).total_xp);
        i = i + 1;
    }
    xs
}

/// The scores that a query asks for, ranked by descending measure, ties
/// going to the smaller identifier, and cut to a page.
fn select_scores(
    scores: &OrderedMap<u64, GameScore>,
    game: Option<GameType>,
    by_time: bool,
    limit: Option<i32>,
) -> (page: Vec<GameScore>)
    requires
        scores.wf(),
        forall|id: u64| scores@.contains_key(id) ==> (#[trigger] scores@[id]).id == id,
    ensures
        wanted(scores@, game).finite(),
        page@.len() == page_len(limit, 50, wanted(scores@, game).len()),
        forall|k: int|
            0 <= k < page@.len() ==> {
                let record = #[trigger] page@[k];
                &&& wanted(scores@, game).contains(record.id)
                &&& record == scores@[record.id]
                &&& standing(wanted(scores@, game), measure(scores@, by_time), record.id) == k
            },
{
    let n = scores.len();
    let ghost s = scores.entries();
    let mut found: Vec<usize> = Vec::new();
    let mut xs: Vec<u64> = Vec::new();
    let mut i: usize = 0;
    while i < n
        invariant
            n == s.len(),
            s == scores.entries(),
            i <= n,
            found@.len() == xs@.len(),
            forall|c: int| 0 <= c < found@.len() ==> (#[trigger] found@[c]) < i,
            forall|c: int|
                0 <= c < found@.len() ==> (game matches Some(g) ==> s[(#[trigger] found@[c]) as int].1.game_type
                    == g),
            forall|c: int|
                0 <= c < found@.len() ==> #[trigger] xs@[c] == (if by_time {
                    s[found@[c] as int].1.timestamp
                } else {
                    s[found@[c] as int].1.score
                }),
            forall|c: int, d: int|
                0 <= c < d < found@.len() ==> (#[trigger] found@[c]) < (#[trigger] found@[d]),
            forall|j: usize|
                j < i && (game matches Some(g) ==> s[j as int].1.game_type == g)
                    ==> #[trigger] found@.contains(j),
        decreases n - i,
    {
        let record = scores.value_at(i);
        let take = match game {
            Some(g) => record.game_type == g,
            None => true,
        };
        if take {
            let ghost before = found@;
            found.push(i);
            xs.push(
                if by_time {
                    record.timestamp
                } else {
                    record.score
                },
            );
            proof {
                assert forall|j: usize|
                    j < i + 1 && (game matches Some(g) ==> s[j as int].1.game_type
                        == g) implies #[trigger] found@.contains(j) by {
                    if j < i {
                        assert(before.contains(j));
                        let w = choose|w: int| 0 <= w < before.len() && before[w] == j;
                        assert(found@[w] == j);
                    } else {
                        assert(found@[found@.len() - 1] == j);
                    }
                }
            }
        }
        i = i + 1;
    }
    let order = ranking(&xs);
    let count = page_count(limit, 50, order.len());
    let ghost ks = Seq::new(found@.len(), |c: int| s[found@[c] as int].0);
    proof {
        lemma_keys(s);
        assert forall|c: int, d: int| 0 <= c < d < ks.len() implies rank_lt(
            #[trigger] ks[c].rank(),
            #[trigger] ks[d].rank(),
        ) by {
            assert(found@[c] < found@[d]);
            assert(rank_lt(
                keys_of(s)[found@[c] as int].rank(),
                keys_of(s)[found@[d] as int].rank(),
            ));
        }
        assert forall|x: u64| ks.to_set().contains(x) <==> wanted(scores@, game).contains(x) by {
            if ks.contains(x) {
                let c = choose|c: int| 0 <= c < ks.len() && ks[c] == x;
                lemma_slot(s, found@[c] as int);
            }
            if wanted(scores@, game).contains(x) {
                let j = slot_of(s, x);
                assert(0 <= j < s.len() && s[j].0 == x);
                lemma_slot(s, j);
                assert(found@.contains(j as usize));
                let c = choose|c: int| 0 <= c < found@.len() && found@[c] == j as usize;
                assert(ks[c] == x);
            }
        }
        assert(ks.to_set() =~= wanted(scores@, game));
        assert forall|c: int, d: int| 0 <= c < ks.len() && 0 <= d < ks.len() && c != d implies ks[c]
            != ks[d] by {
            if c < d {
                assert(rank_lt(ks[c].rank(), ks[d].rank()));
            } else {
                assert(rank_lt(ks[d].rank(), ks[c].rank()));
            }
        }
        ks.unique_seq_to_set();
        vstd::seq_lib::seq_to_set_is_finite(ks);
    }
    let mut page: Vec<GameScore> = Vec::new();
    let mut k: usize = 0;
    while k < count
        invariant
            s == scores.entries(),
            found@.len() == xs@.len(),
            forall|c: int| 0 <= c < found@.len() ==> (#[trigger] found@[c]) < s.len(),
            is_ranking(xs@, order@),
            count <= order@.len(),
            k <= count,
            page@.len() == k,
            forall|j: int|
                0 <= j < k ==> #[trigger] page@[j] == s[found@[order@[j] as int] as int].1,
        decreases count - k,
    {
        page.push(*scores.value_at(found[order[k]]));
        k = k + 1;
    }
    proof {
        let value = measure(scores@, by_time);
        assert forall|c: int| 0 <= c < ks.len() implies value(#[trigger] ks[c]) == xs@[c] by {
            lemma_slot(s, found@[c] as int);
        }
        assert forall|k: int| 0 <= k < page@.len() implies {
            let record = #[trigger] page@[k];
            &&& wanted(scores@, game).contains(record.id)
            &&& record == scores@[record.id]
            &&& standing(wanted(scores@, game), measure(scores@, by_time), record.id) == k
        } by {
            let c = order@[k] as int;
            lemma_slot(s, found@[c] as int);
            lemma_standing(ks, xs@, order@, value, k);
            assert(ks[c] == s[found@[c] as int].0);
            assert(ks.contains(ks[c]));
        }
    }
    page
}

/// The best score of each owner in a game, by owner.
fn gather_best(scores: &OrderedMap<u64, GameScore>, game: GameType) -> (best: OrderedMap<
    AccountOwner,
    GameScore,
>)
    requires
        scores.wf(),
    ensures
        best.wf(),
        best@.dom() == contenders(scores@, game),
        forall|owner: AccountOwner| #[trigger]
            best@.contains_key(owner) ==> best_record(scores@, game, owner) == best@[owner]
                && best@[owner].player == owner,
{
    let n = scores.len();
    let ghost s = scores.entries();
    let mut best: OrderedMap<AccountOwner, GameScore> = OrderedMap::new();
    let mut i: usize = 0;
    while i < n
        invariant
            n == s.len(),
            s == scores.entries(),
            i <= n,
            best.wf(),
            gathered(s, i as int, game, best@),
        decreases n - i,
    {
        let record = *scores.value_at(i);
        let ghost before = best@;
        if record.game_type == game {
            let owner = record.player;
            let held = match best.get(&owner) {
                Some(b) => Some(*b),
                None => None,
            };
            match held {
                Some(b) => {
                    let ghost j = choose|j: int| #[trigger]
                        best_upto(s, i as int, game, owner, j) && before[owner] == s[j].1;
                    if record.score > b.score {
                        best.insert(owner, record);
                        proof {
                            assert(counts_at(s, game, owner, i as int));
                            assert(best_upto(s, i + 1, game, owner, i as int));
                        }
                    } else {
                        proof {
                            assert(best_upto(s, i + 1, game, owner, j));
                        }
                    }
                },
                None => {
                    best.insert(owner, record);
                    proof {
                        assert(counts_at(s, game, owner, i as int));
                        assert(best_upto(s, i + 1, game, owner, i as int));
                    }
                },
            }
            proof {
                assert forall|other: AccountOwner| #[trigger]
                    best@.contains_key(other) <==> exists|j: int|
                        0 <= j < i + 1 && #[trigger] counts_at(s, game, other, j) by {
                    if other == owner {
                        assert(counts_at(s, game, owner, i as int));
                    } else {
                        assert(best@.contains_key(other) == before.contains_key(other));
                        if before.contains_key(other) {
                            let j = choose|j: int|
                                0 <= j < i && #[trigger] counts_at(s, game, other, j);
                            assert(counts_at(s, game, other, j));
                        }
                    }
                }
                assert forall|other: AccountOwner| #[trigger]
                    best@.contains_key(other) implies exists|j: int| #[trigger]
                    best_upto(s, i + 1, game, other, j) && best@[other] == s[j].1 by {
                    if other != owner {
                        assert(before.contains_key(other));
                        let j = choose|j: int| #[trigger]
                            best_upto(s, i as int, game, other, j) && before[other] == s[j].1;
                        assert(best_upto(s, i + 1, game, other, j));
                    }
                }
            }
        } else {
            proof {
                assert forall|other: AccountOwner| #[trigger]
                    best@.contains_key(other) <==> exists|j: int|
                        0 <= j < i + 1 && #[trigger] counts_at(s, game, other, j) by {
                    if best@.contains_key(other) {
                        let j = choose|j: int|
                            0 <= j < i && #[trigger] counts_at(s, game, other, j);
                        assert(counts_at(s, game, other, j));
                    }
                }
                assert forall|other: AccountOwner| #[trigger]
                    best@.contains_key(other) implies exists|j: int| #[trigger]
                    best_upto(s, i + 1, game, other, j) && best@[other] == s[j].1 by {
                    let j = choose|j: int| #[trigger]
                        best_upto(s, i as int, game, other, j) && before[other] == s[j].1;
                    assert(best_upto(s, i + 1, game, other, j));
                }
            }
        }
        i = i + 1;
    }
    proof {
        lemma_gathered(s, game, best@);
    }
    best
}

/// The read-only view of a ledger.
pub struct ArcadeHubService {
    state: ArcadeHubState,
}

impl ArcadeHubService {
    /// The ledger that the service reads.
    pub closed spec fn ledger(&self) -> Ledger {
        self.state@
    }

    /// The state of the ledger is well formed.
    pub closed spec fn wf(&self) -> bool {
        self.state.wf()
    }

    /// A well-formed service reads a ledger that files every record under
    /// its own identity and holds finitely many of each kind.
    pub proof fn lemma_wf(&self)
        requires
            self.wf(),
        ensures
            self.ledger().keyed(),
            self.ledger().players.dom().finite(),
            self.ledger().leaderboard.dom().finite(),
            self.ledger().game_scores.dom().finite(),
    {
        self.state.lemma_finite();
    }

    /// The service over a state.
    pub fn new(state: ArcadeHubState) -> (s: Self)
        requires
            state.wf(),
        ensures
            s.wf(),
            s.ledger() == state@,
    {
        ArcadeHubService { state }
    }

    /// The player that `owner` is registered as, if any.
    pub fn player(&self, owner: &AccountOwner) -> (r: Option<Player>)
        requires
            self.wf(),
        ensures
            r == self.ledger().player_of(*owner),
    {
        match self.state.players().get(owner) {
            Some(p) => Some(p.clone()),
            None => None,
        }
    }

    /// All players, by ascending owner.
    pub fn all_players(&self) -> (all: Vec<Player>)
        requires
            self.wf(),
        ensures
            all@.len() == self.ledger().players.dom().len(),
            forall|i: int|
                0 <= i < all@.len() ==> self.ledger().players.contains_key(
                    (#[trigger] all@[i]).owner,
                ) && all@[i] == self.ledger().players[all@[i].owner],
            forall|i: int, j: int|
                0 <= i < j < all@.len() ==> rank_lt(
                    (#[trigger] all@[i]).owner.rank(),
                    (#[trigger] all@[j]).owner.rank(),
                ),
    {
        let players = self.state.players();
        let n = players.len();
        let mut all: Vec<Player> = Vec::new();
        let mut i: usize = 0;
        proof {
            lemma_size(players.entries());
            lemma_keys(players.entries());
        }
        while i < n
            invariant
                self.wf(),
                players.wf(),
                players@ == self.ledger().players,
                self.ledger().keyed(),
                n == players.entries().len(),
                i <= n,
                all@.len() == i,
                forall|j: int| 0 <= j < i ==> #[trigger] all@[j] == players.entries()[j].1,
            decreases n - i,
        {
            all.push(players.value_at(i).clone());
            i = i + 1;
        }
        proof {
            let s = players.entries();
            assert forall|i: int| 0 <= i < all@.len() implies self.ledger().players.contains_key(
                (#[trigger] all@[i]).owner,
            ) && all@[i] == self.ledger().players[all@[i].owner] by {
                lemma_slot(s, i);
            }
            assert forall|i: int, j: int| 0 <= i < j < all@.len() implies rank_lt(
                (#[trigger] all@[i]).owner.rank(),
                (#[trigger] all@[j]).owner.rank(),
            ) by {
                lemma_slot(s, i);
                lemma_slot(s, j);
                assert(rank_lt(keys_of(s)[i].rank(), keys_of(s)[j].rank()));
            }
        }
        all
    }

    /// The totals of the ledger: the number of players it holds, and the
    /// games and the experience of the scores it has processed.
    pub fn stats(&self) -> (stats: ArcadeStats)
        requires
            self.wf(),
        ensures
            stats.total_players == self.ledger().players.dom().len(),
            stats.total_games_played == self.ledger().total_games_played,
            stats.total_xp_earned == self.ledger().total_xp_earned,
    {
        let players = self.state.players();
        proof {
            lemma_size(players.entries());
        }
        ArcadeStats {
            total_players: players.len() as u64,
            total_games_played: self.state.total_games_played(),
            total_xp_earned: self.state.total_xp_earned(),
        }
    }

    /// The leaderboard: the lines by descending experience, ties going to
    /// the smaller owner, each with its rank, counted from 1. At most
    /// `limit` lines are returned, 100 if no limit is given, all if the limit
    /// is negative.
    pub fn leaderboard(&self, limit: Option<i32>) -> (page: Vec<LeaderboardEntry>)
        requires
            self.wf(),
        ensures
            page@.len() == page_len(limit, 100, self.ledger().leaderboard.dom().len()),
            forall|k: int|
                0 <= k < page@.len() ==> {
                    let line = #[trigger] page@[k];
                    let board = self.ledger().leaderboard;
                    &&& board.contains_key(line.wallet_address)
                    &&& line == board[line.wallet_address].at_rank(rank_number(k))
                    &&& standing(board.dom(), xp_shown(board), line.wallet_address) == k
                },
            forall|a: int, b: int|
                0 <= a < b < page@.len() ==> (#[trigger] page@[a]).total_xp >= (
                #[trigger] page@[b]).total_xp,
            forall|k: int|
                0 <= k < page@.len() && k < u32::MAX ==> (#[trigger] page@[k]).rank == k + 1,
            limit matches Some(l) ==> (l >= 0 ==> page@.len() <= l),
            limit is None ==> page@.len() <= 100,
    {
        let board = self.state.leaderboard();
        let xs = shown_xp(board);
        let order = ranking(&xs);
        let count = page_count(limit, 100, order.len());
        let mut page: Vec<LeaderboardEntry> = Vec::new();
        let mut k: usize = 0;
        proof {
            lemma_size(board.entries());
        }
        while k < count
            invariant
                self.wf(),
                board.wf(),
                board@ == self.ledger().leaderboard,
                self.ledger().keyed(),
                xs@.len() == board.entries().len(),
                forall|i: int|
                    0 <= i < xs@.len() ==> #[trigger] xs@[i] == board.entries()[i].1.total_xp,
                is_ranking(xs@, order@),
                count <= order@.len(),
                k <= count,
                page@.len() == k,
                forall|j: int|
                    0 <= j < k ==> #[trigger] page@[j] == board.entries()[order@[j] as int].1.at_rank(
                        rank_number(j),
                    ),
            decreases count - k,
        {
            let mut line = board.value_at(order[k]).clone();
            line.rank = rank_at_place(k);
            page.push(line);
            k = k + 1;
        }
        proof {
            let s = board.entries();
            let shown = xp_shown(self.ledger().leaderboard);
            lemma_keys(s);
            assert forall|i: int| 0 <= i < s.len() implies shown(#[trigger] keys_of(s)[i])
                == xs@[i] by {
                lemma_slot(s, i);
            }
            assert forall|k: int| 0 <= k < page@.len() implies {
                let line = #[trigger] page@[k];
                let board = self.ledger().leaderboard;
                &&& board.contains_key(line.wallet_address)
                &&& line == board[line.wallet_address].at_rank(rank_number(k))
                &&& standing(board.dom(), xp_shown(board), line.wallet_address) == k
            } by {
                let i = order@[k] as int;
                lemma_slot(s, i);
                lemma_standing(keys_of(s), xs@, order@, shown, k);
                assert(keys_of(s)[i] == s[i].0);
            }
            assert forall|a: int, b: int| 0 <= a < b < page@.len() implies (#[trigger] page@[a]).total_xp
                >= (#[trigger] page@[b]).total_xp by {
                assert(outranks(xs@, order@[a] as int, order@[b] as int));
            }
        }
        page
    }

    /// The rank of `owner` on the leaderboard, counted from 1, if the
    /// leaderboard has a line for them: one more than the number of lines
    /// that come before theirs.
    pub fn player_rank(&self, owner: &AccountOwner) -> (rank: Option<i32>)
        requires
            self.wf(),
        ensures
            match rank {
                Some(r) => self.ledger().leaderboard.contains_key(*owner) && r
                    == signed_rank_number(
                    standing(
                        self.ledger().leaderboard.dom(),
                        xp_shown(self.ledger().leaderboard),
                        *owner,
                    ) as int,
                ),
                None => !self.ledger().leaderboard.contains_key(*owner),
            },
    {
        let board = self.state.leaderboard();
        let at = match board.position(owner) {
            Some(at) => at,
            None => {
                return None;
            },
        };
        let xs = shown_xp(board);
        let order = ranking(&xs);
        let mut k: usize = 0;
        assert(order@.contains(at));
        while k < order.len() && order[k] != at
            invariant
                k <= order@.len(),
                order@.contains(at),
                forall|j: int| 0 <= j < k ==> #[trigger] order@[j] != at,
            decreases order@.len() - k,
        {
            k = k + 1;
        }
        proof {
            let s = board.entries();
            let shown = xp_shown(self.ledger().leaderboard);
            lemma_keys(s);
            lemma_slot(s, at as int);
            assert forall|i: int| 0 <= i < s.len() implies shown(#[trigger] keys_of(s)[i])
                == xs@[i] by {
                lemma_slot(s, i);
            }
            lemma_standing(keys_of(s), xs@, order@, shown, k as int);
            assert(keys_of(s)[at as int] == *owner);
        }
        Some(signed_rank_at_place(k))
    }

    /// The most recent scores: all scores by descending time, ties going to
    /// the smaller identifier. At most `limit` scores are returned, 50 if no
    /// limit is given, all if the limit is negative.
    pub fn recent_scores(&self, limit: Option<i32>) -> (page: Vec<GameScore>)
        requires
            self.wf(),
        ensures
            page@.len() == page_len(limit, 50, self.ledger().game_scores.dom().len()),
            forall|k: int|
                0 <= k < page@.len() ==> {
                    let record = #[trigger] page@[k];
                    let scores = self.ledger().game_scores;
                    &&& scores.contains_key(record.id)
                    &&& record == scores[record.id]
                    &&& standing(scores.dom(), measure(scores, true), record.id) == k
                },
    {
        let scores = self.state.game_scores();
        assert(wanted(scores@, None) =~= scores@.dom());
        select_scores(scores, None, true, limit)
    }

    /// The scores of one game by descending value, ties going to the smaller
    /// identifier. At most `limit` scores are returned, 50 if no limit is
    /// given, all if the limit is negative.
    pub fn game_scores(&self, game_type: GameType, limit: Option<i32>) -> (page: Vec<GameScore>)
        requires
            self.wf(),
        ensures
            page@.len() == page_len(
                limit,
                50,
                wanted(self.ledger().game_scores, Some(game_type)).len(),
            ),
            forall|k: int|
                0 <= k < page@.len() ==> {
                    let record = #[trigger] page@[k];
                    let scores = self.ledger().game_scores;
                    &&& scores.contains_key(record.id)
                    &&& record.game_type == game_type
                    &&& record == scores[record.id]
                    &&& standing(wanted(scores, Some(game_type)), measure(scores, false), record.id)
                        == k
                },
    {
        let scores = self.state.game_scores();
        select_scores(scores, Some(game_type), false, limit)
    }

    /// The high scores of one game: the best score of each owner who has
    /// one, by descending value, ties going to the smaller owner, each with
    /// the user name of the owner, or `Unknown` for an owner who is no player
    /// of this ledger. At most `limit` lines are returned, 50 if no limit is
    /// given, all if the limit is negative.
    pub fn game_high_scores(&self, game_type: GameType, limit: Option<i32>) -> (page: Vec<
        GameHighScoreEntry,
    >)
        requires
            self.wf(),
        ensures
            contenders(self.ledger().game_scores, game_type).finite(),
            page@.len() == page_len(
                limit,
                50,
                contenders(self.ledger().game_scores, game_type).len(),
            ),
            forall|k: int|
                0 <= k < page@.len() ==> {
                    let line = #[trigger] page@[k];
                    let scores = self.ledger().game_scores;
                    &&& contenders(scores, game_type).contains(line.player)
                    &&& shows_record(
                        line,
                        best_record(scores, game_type, line.player),
                        self.ledger().players,
                    )
                    &&& standing(
                        contenders(scores, game_type),
                        best_score(scores, game_type),
                        line.player,
                    ) == k
                },
    {
        let scores = self.state.game_scores();
        let players = self.state.players();
        let best = gather_best(scores, game_type);
        let n = best.len();
        let ghost b = best.entries();
        let mut xs: Vec<u64> = Vec::new();
        let mut i: usize = 0;
        while i < n
            invariant
                n == b.len(),
                b == best.entries(),
                i <= n,
                xs@.len() == i,
                forall|j: int| 0 <= j < i ==> #[trigger] xs@[j] == b[j].1.score,
            decreases n - i,
        {
            xs.push(best.value_at(i).score);
            i = i + 1;
        }
        let order = ranking(&xs);
        let count = page_count(limit, 50, order.len());
        proof {
            lemma_size(b);
            lemma_keys(b);
        }
        let mut page: Vec<GameHighScoreEntry> = Vec::new();
        let mut k: usize = 0;
        while k < count
            invariant
                self.wf(),
                players.wf(),
                players@ == self.ledger().players,
                b == best.entries(),
                xs@.len() == b.len(),
                is_ranking(xs@, order@),
                count <= order@.len(),
                k <= count,
                page@.len() == k,
                forall|j: int|
                    0 <= j < k ==> shows_record(
                        #[trigger] page@[j],
                        b[order@[j] as int].1,
                        self.ledger().players,
                    ),
            decreases count - k,
        {
            let record = best.value_at(order[k]);
            let username = match players.get(&record.player) {
                Some(p) => p.username.clone(),
                None => "Unknown".to_owned(),
            };
            page.push(
                GameHighScoreEntry {
                    player: record.player,
                    username,
                    score: record.score,
                    xp_earned: record.xp_earned,
                    timestamp: record.timestamp,
                },
            );
            k = k + 1;
        }
        proof {
            let all = self.ledger().game_scores;
            let value = best_score(all, game_type);
            assert forall|i: int| 0 <= i < b.len() implies value(#[trigger] keys_of(b)[i])
                == xs@[i] && b[i].1 == best_record(all, game_type, b[i].0) && b[i].1.player
                == b[i].0 by {
                lemma_slot(b, i);
            }
            assert forall|k: int| 0 <= k < page@.len() implies {
                let line = #[trigger] page@[k];
                &&& contenders(all, game_type).contains(line.player)
                &&& shows_record(
                    line,
                    best_record(all, game_type, line.player),
                    self.ledger().players,
                )
                &&& standing(contenders(all, game_type), best_score(all, game_type), line.player)
                    == k
            } by {
                let i = order@[k] as int;
                lemma_slot(b, i);
                assert(keys_of(b)[i] == b[i].0);
                assert(value(keys_of(b)[i]) == xs@[i]);
                lemma_standing(keys_of(b), xs@, order@, value, k);
            }
        }
        page
    }
}

} // verus!
