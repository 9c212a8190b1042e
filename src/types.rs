use vstd::prelude::*;

verus! {

/// An index of a match.
pub type MatchIndex = u64;

/// An index of a bet.
pub type BetIndex = u64;

/// An account of the ledger.
pub type AccountId = u64;

/// An amount of currency.
pub type Balance = u128;

/// A payout multiplier: integer part and fractional part in percent,
/// so `(2, 50)` is 2.50x.
pub type Odd = (u32, u8);

/// A match starts `Open`; `Closed` and `Postponed` are final.
#[derive(Clone, Copy, Debug, PartialEq, Eq, Structural)]
pub enum MatchStatus {
    Open,
    Closed,
    Postponed,
}

/// A match offered by a bookmaker, with its odds and, once closed, its score.
#[derive(Clone, Copy, Debug)]
pub struct SingleMatch {
    /// The bookmaker, who accepts bets on this match.
    pub owner: AccountId,
    /// The id of the external event.
    pub id_event: u32,
    pub status: MatchStatus,
    pub home_score: u32,
    pub away_score: u32,
    pub odd_homewin: Odd,
    pub odd_awaywin: Odd,
    pub odd_draw: Odd,
    pub odd_under: Odd,
    pub odd_over: Odd,
}

/// What a bettor claims of the final score.
#[derive(Clone, Copy, Debug, PartialEq, Eq, Structural)]
pub enum Prediction {
    Homewin,
    Awaywin,
    Draw,
    Under,
    Over,
}

/// A bet starts `Open`; settlement makes it `Won` or `Lost` once.
#[derive(Clone, Copy, Debug, PartialEq, Eq, Structural)]
pub enum BetStatus {
    Open,
    Lost,
    Won,
}

/// A bet placed on a match.
#[derive(Clone, Copy, Debug)]
pub struct Bet {
    /// The bettor.
    pub owner: AccountId,
    /// The match bet on.
    pub id_match: MatchIndex,
    pub prediction: Prediction,
    /// The odd of the match for `prediction` when the bet was placed.
    pub odd: Odd,
    /// The stake.
    pub amount: Balance,
    pub status: BetStatus,
}

/// Notifications of the lifecycle, in the order the operations completed.
#[derive(Clone, Copy, Debug, PartialEq, Eq, Structural)]
pub enum Event {
    MatchCreated(MatchIndex),
    BetPlaced(BetIndex),
    MatchClosed(MatchIndex),
    BetClaimed(BetIndex),
}

/// Why an operation was refused.
#[derive(Clone, Copy, Debug, PartialEq, Eq, Structural)]
pub enum Error {
    /// No match under the given index.
    MatchNotFound,
    /// A bookmaker cannot bet on a match of their own.
    SameMatchOwner,
    /// The fractional part of an odd is 100 or more.
    InvalidOddFraction,
    /// The integer part of an odd is 0.
    InvalidOddInteger,
    /// The match takes no more bets.
    MatchClosed,
    /// The match already has its result.
    MatchAlreadyClosed,
    /// The match has no result yet.
    MatchStillOpen,
    /// The bettor cannot reserve the stake.
    BettorInsufficientBalance,
    /// The bookmaker cannot reserve what the bet may win.
    BookmakerInsufficientBalance,
    /// No bet under the given index.
    BetNotFound,
    /// The bet was already settled.
    BetAlreadyClosed,
    /// The reserved funds cannot be moved as settlement requires.
    PayoffFailure,
}

} // verus!
