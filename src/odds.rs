use vstd::prelude::*;
use crate::types::{Balance, BetStatus, Odd, Prediction, SingleMatch};

verus! {

/// An odd is valid when its integer part is at least 1 and its fractional
/// part is below 100 percent.
pub open spec fn odd_is_valid(odd: Odd) -> bool {
    odd.0 > 0 && odd.1 < 100
}

/// `x`, or the largest balance where `x` does not fit.
pub open spec fn saturate(x: int) -> Balance {
    if x > u128::MAX {
        u128::MAX
    } else {
        x as Balance
    }
}

/// The bookmaker's liability for a stake at an odd:
/// `floor(amount * fraction / 100) + amount * integer`, saturated.
pub open spec fn winnable_spec(amount: Balance, odd: Odd) -> Balance {
    saturate(amount * odd.1 / 100 + amount * odd.0)
}

/// Computes the bookmaker's liability for `amount` staked at `odd`.
pub fn winnable(amount: Balance, odd: Odd) -> (r: Balance)
    requires
        odd.1 < 100,
    ensures
        r == winnable_spec(amount, odd),
{
    let f = odd.1 as u128;
    let q = amount / 100;
    let rem = amount % 100;
    assert(q * f <= amount) by (nonlinear_arith)
        requires
            q == amount / 100,
            f < 100,
    ;
    assert(rem * f < 10000) by (nonlinear_arith)
        requires
            rem < 100,
            f < 100,
    ;
    assert(q * f + rem * f / 100 == amount * f / 100 && amount * f / 100 <= amount)
        by (nonlinear_arith)
        requires
            q == amount / 100,
            rem == amount % 100,
            f < 100,
    ;
    let frac = q * f + rem * f / 100;
    let whole = match amount.checked_mul(odd.0 as u128) {
        Some(w) => w,
        None => u128::MAX,
    };
    frac.saturating_add(whole)
}

/// Whether `prediction` holds of the final score `home` to `away`.
pub open spec fn prediction_wins(prediction: Prediction, home: u32, away: u32) -> bool {
    match prediction {
        Prediction::Homewin => home > away,
        Prediction::Awaywin => home < away,
        Prediction::Draw => home == away,
        Prediction::Over => home + away > 3,
        Prediction::Under => home + away < 3,
    }
}

/// The status that settlement gives a bet with `prediction` on the final
/// score `home` to `away`.
pub open spec fn outcome_spec(prediction: Prediction, home: u32, away: u32) -> BetStatus {
    if prediction_wins(prediction, home, away) {
        BetStatus::Won
    } else {
        BetStatus::Lost
    }
}

/// Classifies a bet as won or lost on the final score.
pub fn bet_outcome(prediction: Prediction, home: u32, away: u32) -> (r: BetStatus)
    ensures
        r == outcome_spec(prediction, home, away),
{
    let total = home as u64 + away as u64;
    let won = match prediction {
        Prediction::Homewin => home > away,
        Prediction::Awaywin => home < away,
        Prediction::Draw => home == away,
        Prediction::Over => total > 3,
        Prediction::Under => total < 3,
    };
    if won {
        BetStatus::Won
    } else {
        BetStatus::Lost
    }
}

/// The odd that a match offers for `prediction`.
pub open spec fn odd_for(m: SingleMatch, prediction: Prediction) -> Odd {
    match prediction {
        Prediction::Homewin => m.odd_homewin,
        Prediction::Awaywin => m.odd_awaywin,
        Prediction::Draw => m.odd_draw,
        Prediction::Under => m.odd_under,
        Prediction::Over => m.odd_over,
    }
}

/// Looks up the odd that a match offers for `prediction`.
pub fn select_odd(m: &SingleMatch, prediction: Prediction) -> (r: Odd)
    ensures
        r == odd_for(*m, prediction),
{
    match prediction {
        Prediction::Homewin => m.odd_homewin,
        Prediction::Awaywin => m.odd_awaywin,
        Prediction::Draw => m.odd_draw,
        Prediction::Under => m.odd_under,
        Prediction::Over => m.odd_over,
    }
}

/// The error for a set of odds, if any: `InvalidOddFraction` when any odd
/// has a fractional part of 100 or more, whatever the integer parts;
/// otherwise `InvalidOddInteger` when any odd has an integer part of 0.
pub open spec fn odds_check(odds: Seq<Odd>) -> Option<crate::types::Error> {
    if exists|i: int| 0 <= i < odds.len() && odds[i].1 >= 100 {
        Some(crate::types::Error::InvalidOddFraction)
    } else if exists|i: int| 0 <= i < odds.len() && odds[i].0 == 0 {
        Some(crate::types::Error::InvalidOddInteger)
    } else {
        None
    }
}

} // verus!
