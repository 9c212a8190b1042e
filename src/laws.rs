use vstd::prelude::*;
use crate::ledger::{account_of, lemma_two_accounts, ledger_wf, reserved_in, AccountData};
use crate::odds::{odd_is_valid, odds_check, outcome_spec, prediction_wins, winnable_spec};
use crate::pallet::{closed_match, paid_off, payoff_possible, settled_bet, Pallet};
use crate::types::{
    AccountId, Balance, BetIndex, BetStatus, Error, MatchIndex, MatchStatus, Odd, Prediction,
};

verus! {

/// With a valid odd the bookmaker's liability is never below the stake:
/// the payout multiplier is at least 1x.
pub proof fn lemma_winnable_at_least_stake(amount: Balance, odd: Odd)
    requires
        odd_is_valid(odd),
    ensures
        winnable_spec(amount, odd) >= amount,
{
    assert(amount * odd.0 >= amount) by (nonlinear_arith)
        requires
            odd.0 >= 1,
    ;
    assert(amount * odd.1 / 100 >= 0) by (nonlinear_arith);
}

/// A match is created exactly when each of its five odds has an integer
/// part of at least 1 and a fractional part below 100.
pub proof fn lemma_create_match_accepts_valid_odds(odds: Seq<Odd>)
    requires
        odds.len() == 5,
    ensures
        odds_check(odds) is None <==> forall|i: int|
            0 <= i < 5 ==> odd_is_valid(#[trigger] odds[i]),
{
    if odds_check(odds) is None {
        assert forall|i: int| 0 <= i < 5 implies odd_is_valid(#[trigger] odds[i]) by {
            assert(!(odds[i].1 >= 100));
            assert(!(odds[i].0 == 0));
        }
    }
    if forall|i: int| 0 <= i < 5 ==> odd_is_valid(#[trigger] odds[i]) {
        assert(!exists|i: int| 0 <= i < odds.len() && odds[i].1 >= 100) by {
            if exists|i: int| 0 <= i < odds.len() && odds[i].1 >= 100 {
                let i = choose|i: int| 0 <= i < odds.len() && odds[i].1 >= 100;
                assert(odd_is_valid(odds[i]));
            }
        }
        assert(!exists|i: int| 0 <= i < odds.len() && odds[i].0 == 0) by {
            if exists|i: int| 0 <= i < odds.len() && odds[i].0 == 0 {
                let i = choose|i: int| 0 <= i < odds.len() && odds[i].0 == 0;
                assert(odd_is_valid(odds[i]));
            }
        }
    }
}

/// A bookmaker cannot bet on a match of their own, and nobody can bet on a
/// match that is no longer open.
pub proof fn lemma_place_bet_rejects(
    p: Pallet,
    l: Map<AccountId, AccountData>,
    origin: AccountId,
    id_match: MatchIndex,
    prediction: Prediction,
    amount: Balance,
)
    requires
        id_match < p.matches_view().len(),
    ensures
        origin == p.matches_view()[id_match as int].owner ==> p.place_bet_error(
            l,
            origin,
            id_match,
            prediction,
            amount,
        ) == Some(Error::SameMatchOwner),
        origin != p.matches_view()[id_match as int].owner && p.matches_view()[id_match as int].status
            != MatchStatus::Open ==> p.place_bet_error(l, origin, id_match, prediction, amount)
            == Some(Error::MatchClosed),
{
}

/// Placing a bet reserves exactly the stake from the bettor and exactly the
/// liability from the bookmaker, taking the same amounts from their free
/// balances, and touches no other account.
pub proof fn lemma_place_bet_reserves(
    l: Map<AccountId, AccountData>,
    bettor: AccountId,
    bookmaker: AccountId,
    amount: Balance,
    winnable: Balance,
    other: AccountId,
)
    requires
        ledger_wf(l),
        bettor != bookmaker,
        amount <= account_of(l, bettor).free,
        winnable <= account_of(l, bookmaker).free,
    ensures
        ({
            let after = reserved_in(reserved_in(l, bettor, amount), bookmaker, winnable);
            &&& account_of(after, bettor).reserved == account_of(l, bettor).reserved + amount
            &&& account_of(after, bettor).free == account_of(l, bettor).free - amount
            &&& account_of(after, bookmaker).reserved == account_of(l, bookmaker).reserved
                + winnable
            &&& account_of(after, bookmaker).free == account_of(l, bookmaker).free - winnable
            &&& other != bettor && other != bookmaker ==> account_of(after, other) == account_of(
                l,
                other,
            )
        }),
{
    lemma_two_accounts(l, bettor, bookmaker);
    lemma_two_accounts(l, bookmaker, bettor);
}

/// A closed match cannot be closed again: in any state whose match
/// `id_match` was closed as `close_match` closes it, closing it fails.
pub proof fn lemma_close_match_once(
    p: Pallet,
    q: Pallet,
    id_match: MatchIndex,
    home: u32,
    away: u32,
)
    requires
        id_match < p.matches_view().len(),
        q.matches_view() == p.matches_view().update(
            id_match as int,
            closed_match(p.matches_view()[id_match as int], home, away),
        ),
    ensures
        q.close_match_error(id_match) == Some(Error::MatchAlreadyClosed),
{
}

/// Every prediction on every score is either won or lost, and won exactly
/// when the prediction holds of the score.
pub proof fn lemma_outcome_table(prediction: Prediction, home: u32, away: u32)
    ensures
        outcome_spec(prediction, home, away) == BetStatus::Won || outcome_spec(
            prediction,
            home,
            away,
        ) == BetStatus::Lost,
        outcome_spec(prediction, home, away) == BetStatus::Won <==> prediction_wins(
            prediction,
            home,
            away,
        ),
        prediction == Prediction::Homewin ==> (prediction_wins(prediction, home, away) <==> home
            > away),
        prediction == Prediction::Awaywin ==> (prediction_wins(prediction, home, away) <==> home
            < away),
        prediction == Prediction::Draw ==> (prediction_wins(prediction, home, away) <==> home
            == away),
        prediction == Prediction::Over ==> (prediction_wins(prediction, home, away) <==> home
            + away > 3),
        prediction == Prediction::Under ==> (prediction_wins(prediction, home, away) <==> home
            + away < 3),
{
}

/// On a won bet the bettor's free balance gains the liability and the
/// bettor's reserved balance loses the stake; the bookmaker's reserved
/// balance loses the liability and the bookmaker's free balance gains the
/// stake.
pub proof fn lemma_payoff_won(
    l: Map<AccountId, AccountData>,
    bettor: AccountId,
    bookmaker: AccountId,
    amount: Balance,
    winnable: Balance,
)
    requires
        ledger_wf(l),
        bettor != bookmaker,
        payoff_possible(l, bettor, bookmaker, amount, winnable),
    ensures
        ({
            let after = paid_off(l, bettor, bookmaker, amount, winnable, BetStatus::Won);
            &&& account_of(after, bettor).free == account_of(l, bettor).free + winnable
            &&& account_of(after, bettor).reserved == account_of(l, bettor).reserved - amount
            &&& account_of(after, bookmaker).free == account_of(l, bookmaker).free + amount
            &&& account_of(after, bookmaker).reserved == account_of(l, bookmaker).reserved
                - winnable
        }),
{
    lemma_two_accounts(l, bettor, bookmaker);
}

/// On a lost bet the stake moves from the bettor's reserved balance to the
/// bookmaker's free balance, and the bookmaker's liability is released to
/// the bookmaker's own free balance; the bettor gains nothing.
pub proof fn lemma_payoff_lost(
    l: Map<AccountId, AccountData>,
    bettor: AccountId,
    bookmaker: AccountId,
    amount: Balance,
    winnable: Balance,
)
    requires
        ledger_wf(l),
        bettor != bookmaker,
        payoff_possible(l, bettor, bookmaker, amount, winnable),
    ensures
        ({
            let after = paid_off(l, bettor, bookmaker, amount, winnable, BetStatus::Lost);
            &&& account_of(after, bettor).free == account_of(l, bettor).free
            &&& account_of(after, bettor).reserved == account_of(l, bettor).reserved - amount
            &&& account_of(after, bookmaker).free == account_of(l, bookmaker).free + amount
                + winnable
            &&& account_of(after, bookmaker).reserved == account_of(l, bookmaker).reserved
                - winnable
        }),
{
    lemma_two_accounts(l, bettor, bookmaker);
}

/// A settled bet cannot be claimed again: in any state where bet `id_bet`
/// was settled as `claim_bet` settles it, claiming it fails with
/// `BetAlreadyClosed`, and `claim_bet` then moves no funds.
pub proof fn lemma_claim_bet_once(
    p: Pallet,
    q: Pallet,
    l: Map<AccountId, AccountData>,
    id_bet: BetIndex,
    outcome: BetStatus,
)
    requires
        id_bet < p.bets_view().len(),
        outcome != BetStatus::Open,
        q.bets_view() == p.bets_view().update(id_bet as int, settled_bet(p.bets_view()[id_bet as int], outcome)),
    ensures
        q.claim_bet_error(l, id_bet) == Some(Error::BetAlreadyClosed),
{
}

} // verus!
