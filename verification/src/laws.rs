//! Laws of the ledger: what holds of every ledger under every command and
//! every event.

use vstd::prelude::*;

use crate::error::{username_verdict, ArcadeError};
use crate::game::{xp_award, GameType};
use crate::identity::AccountOwner;
use crate::ledger::Ledger;
use crate::level::{is_floor_sqrt, lemma_floor_sqrt, lemma_level_bounds, lemma_level_monotonic, level_of};
use crate::types::{add_clamped, GameScore, LeaderboardEntry, Message, Operation, Player};

verus! {

/// An owner registers once. For an owner who is no player yet, a
/// registration succeeds exactly if the user name is acceptable. After it
/// has succeeded, no registration of that owner succeeds again: under an
/// acceptable name it is answered with `PlayerAlreadyRegistered`, under any
/// other with what is wrong with the name.
pub proof fn law_register_once(
    ledger: Ledger,
    owner: AccountOwner,
    first: String,
    now: u64,
    second: String,
    later: u64,
)
    requires
        !ledger.players.contains_key(owner),
    ensures
        ledger.register_result(owner, first, now) is Ok <==> username_verdict(first@) is Ok,
        ledger.register_result(owner, first, now) is Ok ==> ledger.after_register(
            owner,
            first,
            now,
        ).register_result(owner, second, later) == (match username_verdict(second@) {
            Err(e) => Err::<Player, ArcadeError>(e),
            Ok(_) => Err(ArcadeError::PlayerAlreadyRegistered),
        }),
{
}

/// A submission moves a player forward. Their experience does not decrease,
/// their level afterwards is the one that goes with their experience, and
/// it is no lower than before if it went with their experience before.
pub proof fn law_submit_progress(
    ledger: Ledger,
    owner: AccountOwner,
    game_type: GameType,
    score: u64,
    bonus_data: Option<u64>,
    now: u64,
)
    requires
        ledger.keyed(),
        ledger.players.contains_key(owner),
    ensures
        ({
            let before = ledger.players[owner];
            let after = ledger.after_submit(owner, game_type, score, bonus_data, now).players[owner];
            &&& after.total_xp >= before.total_xp
            &&& after.level == level_of(after.total_xp)
            &&& before.level_consistent() ==> after.level >= before.level
        }),
{
    let before = ledger.players[owner];
    let earned = before.with_xp(xp_award(game_type, score, bonus_data));
    let after = ledger.after_submit(owner, game_type, score, bonus_data, now).players[owner];
    assert(after == earned.with_game_played());
    lemma_level_monotonic(before.total_xp, after.total_xp);
}

/// Commands keep levels in step with experience: if every player of a
/// ledger has the level that goes with their experience, the same holds
/// after any command.
pub proof fn law_commands_keep_levels(
    ledger: Ledger,
    signer: Option<AccountOwner>,
    operation: Operation,
    now: u64,
)
    requires
        ledger.levels_consistent(),
    ensures
        ledger.after_operation(signer, operation, now).levels_consistent(),
{
    let after = ledger.after_operation(signer, operation, now);
    lemma_level_bounds(0);
    lemma_floor_sqrt(0);
    assert(level_of(0) == 1) by {
        assert(is_floor_sqrt(0, 0)) by (nonlinear_arith);
    }
    assert forall|k: AccountOwner| after.players.contains_key(k) implies (
    #[trigger] after.players[k]).level_consistent() by {
        if ledger.players.contains_key(k) {
            assert(ledger.players[k].level_consistent());
        }
    }
}

/// Events keep levels in step with experience, if they are themselves in
/// step: a snapshot whose level goes with its experience, or an update of
/// progress whose level goes with the experience it reports.
pub proof fn law_events_keep_levels(ledger: Ledger, message: Message)
    requires
        ledger.levels_consistent(),
        match message {
            Message::SyncPlayer(player) => player.level_consistent(),
            Message::SyncScore(_) => true,
            Message::SyncXpUpdate { total_xp, level, .. } => level == level_of(total_xp),
        },
    ensures
        ledger.after_message(message).levels_consistent(),
{
    let after = ledger.after_message(message);
    assert forall|k: AccountOwner| after.players.contains_key(k) implies (
    #[trigger] after.players[k]).level_consistent() by {
        if ledger.players.contains_key(k) {
            assert(ledger.players[k].level_consistent());
        }
    }
}

/// Commands keep records filed under their own identity.
pub proof fn law_commands_keep_filing(
    ledger: Ledger,
    signer: Option<AccountOwner>,
    operation: Operation,
    now: u64,
)
    requires
        ledger.keyed(),
    ensures
        ledger.after_operation(signer, operation, now).keyed(),
{
}

/// Events keep records filed under their own identity.
pub proof fn law_events_keep_filing(ledger: Ledger, message: Message)
    requires
        ledger.keyed(),
    ensures
        ledger.after_message(message).keyed(),
{
}

/// One submission of a score.
pub struct Submission {
    pub game_type: GameType,
    pub score: u64,
    pub bonus_data: Option<u64>,
    pub now: u64,
}

/// The ledger after `owner` has made the submissions, one after the other.
pub open spec fn after_submissions(
    ledger: Ledger,
    owner: AccountOwner,
    submissions: Seq<Submission>,
) -> Ledger
    decreases submissions.len(),
{
    if submissions.len() == 0 {
        ledger
    } else {
        let last = submissions.last();
        after_submissions(ledger, owner, submissions.drop_last()).after_submit(
            owner,
            last.game_type,
            last.score,
            last.bonus_data,
            last.now,
        )
    }
}

/// Through any run of submissions a player stays a player, filed under
/// their owner, with the level that goes with their experience.
proof fn lemma_after_submissions(ledger: Ledger, owner: AccountOwner, submissions: Seq<Submission>)
    requires
        ledger.keyed(),
        ledger.players.contains_key(owner),
        ledger.players[owner].level_consistent(),
    ensures
        after_submissions(ledger, owner, submissions).keyed(),
        after_submissions(ledger, owner, submissions).players.contains_key(owner),
        after_submissions(ledger, owner, submissions).players[owner].level_consistent(),
    decreases submissions.len(),
{
    if submissions.len() > 0 {
        let last = submissions.last();
        let before = after_submissions(ledger, owner, submissions.drop_last());
        lemma_after_submissions(ledger, owner, submissions.drop_last());
        law_submit_progress(before, owner, last.game_type, last.score, last.bonus_data, last.now);
        law_commands_keep_filing(
            before,
            Some(owner),
            Operation::SubmitScore {
                game_type: last.game_type,
                score: last.score,
                bonus_data: last.bonus_data,
            },
            last.now,
        );
    }
}

/// Along any run of submissions of a player whose level goes with their
/// experience, the level always goes with the experience, and neither of
/// the two ever decreases: after the first `upto` submissions they are no
/// higher than after all of them.
pub proof fn law_levels_follow_submissions(
    ledger: Ledger,
    owner: AccountOwner,
    submissions: Seq<Submission>,
    upto: int,
)
    requires
        ledger.keyed(),
        ledger.players.contains_key(owner),
        ledger.players[owner].level_consistent(),
        0 <= upto <= submissions.len(),
    ensures
        ({
            let earlier = after_submissions(ledger, owner, submissions.subrange(0, upto)).players[owner];
            let later = after_submissions(ledger, owner, submissions).players[owner];
            &&& later.level == level_of(later.total_xp)
            &&& earlier.level == level_of(earlier.total_xp)
            &&& earlier.total_xp <= later.total_xp
            &&& earlier.level <= later.level
        }),
    decreases submissions.len(),
{
    lemma_after_submissions(ledger, owner, submissions);
    lemma_after_submissions(ledger, owner, submissions.subrange(0, upto));
    if upto == submissions.len() {
        assert(submissions.subrange(0, upto) =~= submissions);
    } else {
        let last = submissions.last();
        let rest = submissions.drop_last();
        let before = after_submissions(ledger, owner, rest);
        assert(rest.subrange(0, upto) =~= submissions.subrange(0, upto));
        law_levels_follow_submissions(ledger, owner, rest, upto);
        lemma_after_submissions(ledger, owner, rest);
        law_submit_progress(before, owner, last.game_type, last.score, last.bonus_data, last.now);
    }
}

/// The experience that two snapshots of one player leave does not depend on
/// the order in which they arrive: it is the largest of what the ledger had
/// and what the snapshots report.
pub proof fn law_snapshots_commute_in_experience(ledger: Ledger, first: Player, second: Player)
    requires
        first.owner == second.owner,
    ensures
        ledger.after_snapshot(first).after_snapshot(second).players[first.owner].total_xp
            == ledger.after_snapshot(second).after_snapshot(first).players[first.owner].total_xp,
        ledger.after_snapshot(first).after_snapshot(second).players[first.owner].total_xp
            >= first.total_xp,
        ledger.after_snapshot(first).after_snapshot(second).players[first.owner].total_xp
            >= second.total_xp,
{
}

/// Merging the snapshot of a player is idempotent: the second delivery of a
/// snapshot changes nothing.
pub proof fn law_snapshot_idempotent(ledger: Ledger, player: Player)
    ensures
        ledger.after_snapshot(player).after_snapshot(player) == ledger.after_snapshot(player),
{
    let once = ledger.after_snapshot(player);
    let twice = once.after_snapshot(player);
    assert(twice.players =~= once.players);
    assert(twice.leaderboard =~= once.leaderboard);
}

/// Merging an update of progress is idempotent: the second delivery of an
/// update changes nothing.
pub proof fn law_xp_update_idempotent(
    ledger: Ledger,
    owner: AccountOwner,
    total_xp: u64,
    level: u32,
    games_played: u64,
)
    ensures
        ledger.after_xp_update(owner, total_xp, level, games_played).after_xp_update(
            owner,
            total_xp,
            level,
            games_played,
        ) == ledger.after_xp_update(owner, total_xp, level, games_played),
{
    let once = ledger.after_xp_update(owner, total_xp, level, games_played);
    let twice = once.after_xp_update(owner, total_xp, level, games_played);
    assert(twice.players =~= once.players);
    assert(twice.leaderboard =~= once.leaderboard);
}

/// An update of progress that is behind changes nothing: if it reports less
/// experience than the player has and than their line shows, the ledger
/// stays as it is. So does an update for an owner the ledger does not know.
pub proof fn law_stale_xp_update_is_noop(
    ledger: Ledger,
    owner: AccountOwner,
    total_xp: u64,
    level: u32,
    games_played: u64,
)
    requires
        ledger.players.contains_key(owner) ==> total_xp < ledger.players[owner].total_xp,
        ledger.leaderboard.contains_key(owner) ==> total_xp
            < ledger.leaderboard[owner].total_xp,
    ensures
        ledger.after_xp_update(owner, total_xp, level, games_played) == ledger,
{
    let after = ledger.after_xp_update(owner, total_xp, level, games_played);
    assert(after.players =~= ledger.players);
    assert(after.leaderboard =~= ledger.leaderboard);
}

/// Progress never goes backwards on the hub: whatever event is merged, every
/// player stays in the ledger with no less experience than before, and so
/// does every line of the leaderboard.
pub proof fn law_events_never_regress(ledger: Ledger, message: Message, owner: AccountOwner)
    ensures
        ledger.players.contains_key(owner) ==> {
            let after = ledger.after_message(message);
            after.players.contains_key(owner) && after.players[owner].total_xp
                >= ledger.players[owner].total_xp
        },
        ledger.mirrored() && ledger.leaderboard.contains_key(owner) ==> {
            let after = ledger.after_message(message);
            after.leaderboard.contains_key(owner) && after.leaderboard[owner].total_xp
                >= ledger.leaderboard[owner].total_xp
        },
{
}

/// Progress never goes backwards under commands either: whatever command is
/// carried out, every player stays in the ledger with no less experience
/// than before.
pub proof fn law_commands_never_regress(
    ledger: Ledger,
    signer: Option<AccountOwner>,
    operation: Operation,
    now: u64,
    owner: AccountOwner,
)
    requires
        ledger.keyed(),
        ledger.players.contains_key(owner),
    ensures
        ({
            let after = ledger.after_operation(signer, operation, now);
            after.players.contains_key(owner) && after.players[owner].total_xp
                >= ledger.players[owner].total_xp
        }),
{
    match signer {
        Some(who) => match operation {
            Operation::SubmitScore { game_type, score, bonus_data } => {
                if ledger.players.contains_key(who) {
                    law_submit_progress(ledger, who, game_type, score, bonus_data, now);
                }
            },
            _ => {},
        },
        None => {},
    }
}

/// Commands keep the leaderboard mirroring the players.
pub proof fn law_commands_keep_mirror(
    ledger: Ledger,
    signer: Option<AccountOwner>,
    operation: Operation,
    now: u64,
)
    requires
        ledger.mirrored(),
    ensures
        ledger.after_operation(signer, operation, now).mirrored(),
{
    let after = ledger.after_operation(signer, operation, now);
    assert(after.leaderboard.dom() =~= after.players.dom());
    assert forall|k: AccountOwner| after.players.contains_key(k) implies #[trigger] after.leaderboard[k]
        == LeaderboardEntry::of_player(after.players[k], 0) by {
        if ledger.players.contains_key(k) {
            assert(ledger.leaderboard[k] == LeaderboardEntry::of_player(ledger.players[k], 0));
        }
    }
}

/// Events keep the leaderboard mirroring the players.
pub proof fn law_events_keep_mirror(ledger: Ledger, message: Message)
    requires
        ledger.mirrored(),
    ensures
        ledger.after_message(message).mirrored(),
{
    let after = ledger.after_message(message);
    assert(after.leaderboard.dom() =~= after.players.dom());
    assert forall|k: AccountOwner| after.players.contains_key(k) implies #[trigger] after.leaderboard[k]
        == LeaderboardEntry::of_player(after.players[k], 0) by {
        if ledger.players.contains_key(k) {
            assert(ledger.leaderboard[k] == LeaderboardEntry::of_player(ledger.players[k], 0));
        }
    }
}

/// A command touches the records of its signer only: whatever the command,
/// the player and the line of every other owner stay as they are, and so
/// does every score but the one stored under the next identifier.
pub proof fn law_command_is_local(
    ledger: Ledger,
    signer: Option<AccountOwner>,
    operation: Operation,
    now: u64,
    other: AccountOwner,
    id: u64,
)
    requires
        ledger.keyed(),
    ensures
        signer != Some(other) ==> {
            let after = ledger.after_operation(signer, operation, now);
            &&& after.players.contains_key(other) == ledger.players.contains_key(other)
            &&& after.players[other] == ledger.players[other]
            &&& after.leaderboard.contains_key(other) == ledger.leaderboard.contains_key(other)
            &&& after.leaderboard[other] == ledger.leaderboard[other]
        },
        id != ledger.score_counter ==> {
            let after = ledger.after_operation(signer, operation, now);
            &&& after.game_scores.contains_key(id) == ledger.game_scores.contains_key(id)
            &&& after.game_scores[id] == ledger.game_scores[id]
        },
{
}

/// An event touches the records it names only: a snapshot and an update of
/// progress the player and the line of their owner, a score record the score
/// under its identifier.
pub proof fn law_event_is_local(ledger: Ledger, message: Message, other: AccountOwner, id: u64)
    ensures
        (match message {
            Message::SyncPlayer(player) => player.owner != other,
            Message::SyncScore(_) => true,
            Message::SyncXpUpdate { wallet_address, .. } => wallet_address != other,
        }) ==> {
            let after = ledger.after_message(message);
            &&& after.players.contains_key(other) == ledger.players.contains_key(other)
            &&& after.players[other] == ledger.players[other]
            &&& after.leaderboard.contains_key(other) == ledger.leaderboard.contains_key(other)
            &&& after.leaderboard[other] == ledger.leaderboard[other]
        },
        (match message {
            Message::SyncScore(score) => score.id != id,
            _ => true,
        }) ==> {
            let after = ledger.after_message(message);
            &&& after.game_scores.contains_key(id) == ledger.game_scores.contains_key(id)
            &&& after.game_scores[id] == ledger.game_scores[id]
        },
{
}

/// The second delivery of a score record stores nothing new but is counted
/// again: the scores are as after the first delivery, one score under the
/// identifier, and the totals have grown twice.
pub proof fn law_score_redelivery(ledger: Ledger, score: GameScore)
    ensures
        ({
            let once = ledger.with_score(score);
            let twice = once.with_score(score);
            &&& twice.game_scores == once.game_scores
            &&& twice.game_scores[score.id] == score
            &&& twice.total_games_played == add_clamped(
                once.total_games_played,
                1,
            )
            &&& twice.total_xp_earned == add_clamped(
                once.total_xp_earned,
                score.xp_earned,
            )
        }),
{
    let once = ledger.with_score(score);
    let twice = once.with_score(score);
    assert(twice.game_scores =~= once.game_scores);
}

} // verus!
