//! The games of the arcade and the experience each of them awards.

use vstd::prelude::*;

verus! {

/// Numeric identifier of a game.
pub type GameId = u16;

/// The games a score can be submitted for.
#[derive(Clone, Copy, Debug, PartialEq, Eq, Hash, Structural)]
pub enum GameType {
    SpeedClicker,
    MemoryMatrix,
    ReactionStrike,
    MathBlitz,
    SnakeSprint,
}

/// `n` clamped to the range of `u64`.
pub open spec fn clamp_u64(n: int) -> u64 {
    if n < 0 {
        0
    } else if n > u64::MAX {
        u64::MAX
    } else {
        n as u64
    }
}

/// The bonus signal of a submission, zero when none was sent.
pub open spec fn bonus_or_zero(bonus_data: Option<u64>) -> u64 {
    match bonus_data {
        Some(b) => b,
        None => 0,
    }
}

/// Base award of Reaction Strike for an average reaction time in
/// milliseconds: `1000 - time` for a time below a second, nothing for a time
/// of a second or more.
pub open spec fn reaction_base(avg_ms: u64) -> int {
    if avg_ms >= 1000 {
        0
    } else {
        1000 - avg_ms
    }
}

/// Experience awarded for one submission, before clamping to `u64`.
pub open spec fn raw_xp(game: GameType, score: u64, bonus_data: Option<u64>) -> int {
    let bonus = bonus_or_zero(bonus_data);
    match game {
        GameType::SpeedClicker => score * 10,
        GameType::MemoryMatrix => score * 100 + bonus * 50,
        GameType::ReactionStrike => reaction_base(score) * bonus,
        GameType::MathBlitz => score * 25 + bonus * 10,
        GameType::SnakeSprint => score * 15 + bonus * 5,
    }
}

/// Experience awarded for one submission: the game's formula, clamped at
/// `u64::MAX`.
pub open spec fn xp_award(game: GameType, score: u64, bonus_data: Option<u64>) -> u64 {
    clamp_u64(raw_xp(game, score, bonus_data))
}

/// `a * b`, clamped at `u64::MAX`.
fn mul_clamped(a: u64, b: u64) -> (r: u64)
    ensures
        r == clamp_u64(a * b),
{
    match a.checked_mul(b) {
        Some(v) => v,
        None => u64::MAX,
    }
}

/// `a * ka + b * kb`, clamped at `u64::MAX`.
fn weighted_sum_clamped(a: u64, ka: u64, b: u64, kb: u64) -> (r: u64)
    ensures
        r == clamp_u64(a * ka + b * kb),
{
    assert(a * ka >= 0 && b * kb >= 0) by (nonlinear_arith);
    mul_clamped(a, ka).saturating_add(mul_clamped(b, kb))
}

/// Executable form of [`reaction_base`].
fn reaction_base_of(avg_ms: u64) -> (r: u64)
    ensures
        r == reaction_base(avg_ms),
{
    1000u64.saturating_sub(avg_ms)
}

impl GameType {
    /// Experience earned by a submission of `score` with an optional bonus
    /// signal, which counts as zero when absent.
    ///
    /// | game            | score              | bonus          | award                            |
    /// |-----------------|--------------------|----------------|----------------------------------|
    /// | Speed Clicker   | clicks             | unused         | `score * 10`                     |
    /// | Memory Matrix   | level reached      | perfect rounds | `score * 100 + bonus * 50`       |
    /// | Reaction Strike | average time in ms | targets hit    | `reaction_base(score) * bonus`   |
    /// | Math Blitz      | correct answers    | longest streak | `score * 25 + bonus * 10`        |
    /// | Snake Sprint    | snake length       | apples eaten   | `score * 15 + bonus * 5`         |
    ///
    /// Every award is clamped at `u64::MAX`; nothing overflows.
    pub fn calculate_xp(&self, score: u64, bonus_data: Option<u64>) -> (xp: u64)
        ensures
            xp == xp_award(*self, score, bonus_data),
    {
        let bonus: u64 = match bonus_data {
            Some(b) => b,
            None => 0,
        };
        match self {
            GameType::SpeedClicker => mul_clamped(score, 10),
            GameType::MemoryMatrix => weighted_sum_clamped(score, 100, bonus, 50),
            GameType::ReactionStrike => mul_clamped(reaction_base_of(score), bonus),
            GameType::MathBlitz => weighted_sum_clamped(score, 25, bonus, 10),
            GameType::SnakeSprint => weighted_sum_clamped(score, 15, bonus, 5),
        }
    }

    /// The numeric identifier of a game, spec form.
    pub open spec fn spec_id(&self) -> GameId {
        match *self {
            GameType::SpeedClicker => 1,
            GameType::MemoryMatrix => 2,
            GameType::ReactionStrike => 3,
            GameType::MathBlitz => 4,
            GameType::SnakeSprint => 5,
        }
    }

    /// The numeric identifier of this game: 1 to 5, in declaration order.
    #[verifier::when_used_as_spec(spec_id)]
    pub fn id(&self) -> (id: GameId)
        ensures
            id == self.spec_id(),
    {
        match self {
            GameType::SpeedClicker => 1,
            GameType::MemoryMatrix => 2,
            GameType::ReactionStrike => 3,
            GameType::MathBlitz => 4,
            GameType::SnakeSprint => 5,
        }
    }

    /// The display name of a game, as a sequence of characters.
    pub open spec fn display_name(&self) -> Seq<char> {
        match *self {
            GameType::SpeedClicker => "Speed Clicker"@,
            GameType::MemoryMatrix => "Memory Matrix"@,
            GameType::ReactionStrike => "Reaction Strike"@,
            GameType::MathBlitz => "Math Blitz"@,
            GameType::SnakeSprint => "Snake Sprint"@,
        }
    }

    /// The display name of this game.
    pub fn name(&self) -> (name: &'static str)
        ensures
            name@ == self.display_name(),
    {
        match self {
            GameType::SpeedClicker => "Speed Clicker",
            GameType::MemoryMatrix => "Memory Matrix",
            GameType::ReactionStrike => "Reaction Strike",
            GameType::MathBlitz => "Math Blitz",
            GameType::SnakeSprint => "Snake Sprint",
        }
    }
}

} // verus!
