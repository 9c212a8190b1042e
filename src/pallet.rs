use vstd::prelude::*;
use crate::ledger::{
    account_of, lemma_two_accounts, ledger_wf, repatriated, reserved_in, unreserved_in,
    AccountData, LedgerBackend,
};
use crate::odds::{
    bet_outcome, odd_for, odd_is_valid, odds_check, outcome_spec, select_odd, winnable,
    winnable_spec,
};
use crate::random::{generate_random_score, score_of, Config, MAX_SCORE};
use crate::types::{
    AccountId, Balance, Bet, BetIndex, BetStatus, Error, Event, MatchIndex, MatchStatus, Odd,
    Prediction, SingleMatch,
};

verus! {

/// The state of the betting ledger: matches and bets, each stored under its
/// index, and the notifications emitted so far.
///
/// Match `i` is `matches[i]` and bet `i` is `bets[i]`, so the number of
/// matches and bets are the next indices to allocate; nothing is removed.
pub struct Pallet {
    matches: Vec<SingleMatch>,
    bets: Vec<Bet>,
    events: Vec<Event>,
}

/// All five odds of a match are valid.
pub open spec fn match_wf(m: SingleMatch) -> bool {
    &&& odd_is_valid(m.odd_homewin)
    &&& odd_is_valid(m.odd_awaywin)
    &&& odd_is_valid(m.odd_draw)
    &&& odd_is_valid(m.odd_under)
    &&& odd_is_valid(m.odd_over)
}

/// A bet refers to an existing match of another account, at a valid odd.
pub open spec fn bet_wf(b: Bet, matches: Seq<SingleMatch>) -> bool {
    &&& b.id_match < matches.len()
    &&& b.owner != matches[b.id_match as int].owner
    &&& odd_is_valid(b.odd)
}

/// The match that `create_match` stores.
pub open spec fn new_match(
    owner: AccountId,
    id_event: u32,
    odd_homewin: Odd,
    odd_awaywin: Odd,
    odd_draw: Odd,
    odd_under: Odd,
    odd_over: Odd,
) -> SingleMatch {
    SingleMatch {
        owner,
        id_event,
        status: MatchStatus::Open,
        home_score: 0,
        away_score: 0,
        odd_homewin,
        odd_awaywin,
        odd_draw,
        odd_under,
        odd_over,
    }
}

/// The match after it closed with the score `home` to `away`.
pub open spec fn closed_match(m: SingleMatch, home: u32, away: u32) -> SingleMatch {
    SingleMatch { status: MatchStatus::Closed, home_score: home, away_score: away, ..m }
}

/// The bet after settlement gave it `status`.
pub open spec fn settled_bet(b: Bet, status: BetStatus) -> Bet {
    Bet { status, ..b }
}

/// Whether the funds of a bet are still in place for settlement: the
/// bettor holds the stake reserved and the bookmaker the liability.
pub open spec fn payoff_possible(
    l: Map<AccountId, AccountData>,
    bettor: AccountId,
    bookmaker: AccountId,
    amount: Balance,
    winnable: Balance,
) -> bool {
    &&& amount <= account_of(l, bettor).reserved
    &&& winnable <= account_of(l, bookmaker).reserved
}

/// The ledger after settlement with `outcome`. On `Won` the bookmaker's
/// reserved `winnable` goes to the bettor's free balance and the bettor's
/// reserved stake to the bookmaker's free balance. On `Lost` the stake goes
/// to the bookmaker's free balance and the bookmaker's `winnable` is released.
pub open spec fn paid_off(
    l: Map<AccountId, AccountData>,
    bettor: AccountId,
    bookmaker: AccountId,
    amount: Balance,
    winnable: Balance,
    outcome: BetStatus,
) -> Map<AccountId, AccountData> {
    if outcome == BetStatus::Won {
        repatriated(repatriated(l, bookmaker, bettor, winnable), bettor, bookmaker, amount)
    } else {
        unreserved_in(repatriated(l, bettor, bookmaker, amount), bookmaker, winnable)
    }
}

/// Bets that keep their owner, match and odd stay well formed when the
/// matches keep their owners and only new matches are added.
proof fn lemma_bets_stay_wf(
    old_m: Seq<SingleMatch>,
    new_m: Seq<SingleMatch>,
    old_b: Seq<Bet>,
    new_b: Seq<Bet>,
)
    requires
        old_m.len() <= new_m.len(),
        forall|i: int| 0 <= i < old_m.len() ==> #[trigger] new_m[i].owner == old_m[i].owner,
        forall|i: int| 0 <= i < old_b.len() ==> bet_wf(#[trigger] old_b[i], old_m),
        forall|i: int|
            0 <= i < new_b.len() ==> (i < old_b.len() && (#[trigger] new_b[i]).owner
                == old_b[i].owner && new_b[i].id_match == old_b[i].id_match && new_b[i].odd
                == old_b[i].odd) || bet_wf(new_b[i], old_m),
    ensures
        forall|i: int| 0 <= i < new_b.len() ==> bet_wf(#[trigger] new_b[i], new_m),
{
    assert forall|i: int| 0 <= i < new_b.len() implies bet_wf(#[trigger] new_b[i], new_m) by {
        if i < old_b.len() && new_b[i].owner == old_b[i].owner && new_b[i].id_match
            == old_b[i].id_match && new_b[i].odd == old_b[i].odd {
            assert(bet_wf(old_b[i], old_m));
        }
        assert(new_m[new_b[i].id_match as int].owner == old_m[new_b[i].id_match as int].owner);
    }
}

impl Pallet {
    /// The matches, match `i` at index `i`.
    pub closed spec fn matches_view(&self) -> Seq<SingleMatch> {
        self.matches@
    }

    /// The bets, bet `i` at index `i`.
    pub closed spec fn bets_view(&self) -> Seq<Bet> {
        self.bets@
    }

    /// The notifications emitted so far, oldest first.
    pub closed spec fn events_view(&self) -> Seq<Event> {
        self.events@
    }

    /// The notifications emitted so far, oldest first.
    pub fn events(&self) -> (r: &Vec<Event>)
        ensures
            r@ == self.events_view(),
    {
        &self.events
    }

    /// Well-formedness: indices fit in a `u64`, every match has valid odds,
    /// and every bet is well formed against the matches.
    pub open spec fn wf(&self) -> bool {
        &&& self.matches_view().len() <= u64::MAX
        &&& self.bets_view().len() <= u64::MAX
        &&& forall|i: int| 0 <= i < self.matches_view().len() ==> match_wf(#[trigger] self.matches_view()[i])
        &&& forall|i: int|
            0 <= i < self.bets_view().len() ==> bet_wf(#[trigger] self.bets_view()[i], self.matches_view())
    }

    /// The error that `place_bet` returns, checked in this order, if any.
    pub open spec fn place_bet_error(
        &self,
        l: Map<AccountId, AccountData>,
        origin: AccountId,
        id_match: MatchIndex,
        prediction: Prediction,
        amount: Balance,
    ) -> Option<Error> {
        if id_match >= self.matches_view().len() {
            Some(Error::MatchNotFound)
        } else {
            let m = self.matches_view()[id_match as int];
            if origin == m.owner {
                Some(Error::SameMatchOwner)
            } else if m.status != MatchStatus::Open {
                Some(Error::MatchClosed)
            } else if amount > account_of(l, origin).free {
                Some(Error::BettorInsufficientBalance)
            } else if winnable_spec(amount, odd_for(m, prediction)) > account_of(
                l,
                m.owner,
            ).free {
                Some(Error::BookmakerInsufficientBalance)
            } else {
                None
            }
        }
    }

    /// The error that `close_match` returns, if any.
    pub open spec fn close_match_error(&self, id_match: MatchIndex) -> Option<Error> {
        if id_match >= self.matches_view().len() {
            Some(Error::MatchNotFound)
        } else if self.matches_view()[id_match as int].status != MatchStatus::Open {
            Some(Error::MatchAlreadyClosed)
        } else {
            None
        }
    }

    /// The error that `claim_bet` returns, checked in this order, if any.
    pub open spec fn claim_bet_error(
        &self,
        l: Map<AccountId, AccountData>,
        id_bet: BetIndex,
    ) -> Option<Error> {
        if id_bet >= self.bets_view().len() {
            Some(Error::BetNotFound)
        } else {
            let b = self.bets_view()[id_bet as int];
            if b.status != BetStatus::Open {
                Some(Error::BetAlreadyClosed)
            } else if b.id_match >= self.matches_view().len() {
                Some(Error::MatchNotFound)
            } else {
                let m = self.matches_view()[b.id_match as int];
                if m.status == MatchStatus::Open {
                    Some(Error::MatchStillOpen)
                } else if !payoff_possible(
                    l,
                    b.owner,
                    m.owner,
                    b.amount,
                    winnable_spec(b.amount, b.odd),
                ) {
                    Some(Error::PayoffFailure)
                } else {
                    None
                }
            }
        }
    }

    /// A state with no match, no bet and no notification.
    pub fn new() -> (r: Pallet)
        ensures
            r.wf(),
            r.matches_view().len() == 0,
            r.bets_view().len() == 0,
            r.events_view().len() == 0,
    {
        Pallet { matches: Vec::new(), bets: Vec::new(), events: Vec::new() }
    }

    /// The number of matches created, which is the next match index.
    pub fn matches_count(&self) -> (r: MatchIndex)
        requires
            self.wf(),
        ensures
            r == self.matches_view().len(),
    {
        self.matches.len() as u64
    }

    /// The number of bets placed, which is the next bet index.
    pub fn bets_count(&self) -> (r: BetIndex)
        requires
            self.wf(),
        ensures
            r == self.bets_view().len(),
    {
        self.bets.len() as u64
    }

    /// The match under `id_match`, if there is one.
    pub fn matches_by_id(&self, id_match: MatchIndex) -> (r: Option<SingleMatch>)
        ensures
            id_match < self.matches_view().len() ==> r == Some(self.matches_view()[id_match as int]),
            id_match >= self.matches_view().len() ==> r is None,
    {
        if id_match < self.matches.len() as u64 {
            Some(self.matches[id_match as usize])
        } else {
            None
        }
    }

    /// The bet under `id_bet`, if there is one.
    pub fn bets_by_id(&self, id_bet: BetIndex) -> (r: Option<Bet>)
        ensures
            id_bet < self.bets_view().len() ==> r == Some(self.bets_view()[id_bet as int]),
            id_bet >= self.bets_view().len() ==> r is None,
    {
        if id_bet < self.bets.len() as u64 {
            Some(self.bets[id_bet as usize])
        } else {
            None
        }
    }

    /// Creates a match of `origin` with the five odds, and returns its index.
    /// Fails with `InvalidOddFraction` if any fractional part is 100 or more,
    /// else with `InvalidOddInteger` if any integer part is 0; a failure
    /// changes nothing.
    pub fn create_match(
        &mut self,
        origin: AccountId,
        id_event: u32,
        odd_homewin: Odd,
        odd_awaywin: Odd,
        odd_draw: Odd,
        odd_under: Odd,
        odd_over: Odd,
    ) -> (r: Result<MatchIndex, Error>)
        requires
            old(self).wf(),
            old(self).matches_view().len() < u64::MAX,
        ensures
            final(self).wf(),
            ({
                let odds = seq![odd_homewin, odd_awaywin, odd_draw, odd_under, odd_over];
                match odds_check(odds) {
                    Some(e) => r == Err::<MatchIndex, Error>(e) && *final(self) == *old(self),
                    None => {
                        &&& r == Ok::<MatchIndex, Error>(old(self).matches_view().len() as MatchIndex)
                        &&& final(self).matches_view() == old(self).matches_view().push(
                            new_match(
                                origin,
                                id_event,
                                odd_homewin,
                                odd_awaywin,
                                odd_draw,
                                odd_under,
                                odd_over,
                            ),
                        )
                        &&& final(self).bets_view() == old(self).bets_view()
                        &&& final(self).events_view() == old(self).events_view().push(
                            Event::MatchCreated(old(self).matches_view().len() as MatchIndex),
                        )
                    },
                }
            }),
    {
        let ghost odds = seq![odd_homewin, odd_awaywin, odd_draw, odd_under, odd_over];
        if !(odd_homewin.1 < 100 && odd_awaywin.1 < 100 && odd_draw.1 < 100 && odd_under.1 < 100
            && odd_over.1 < 100) {
            proof {
                assert(exists|i: int| 0 <= i < odds.len() && odds[i].1 >= 100) by {
                    if odd_homewin.1 >= 100 {
                        assert(odds[0].1 >= 100);
                    } else if odd_awaywin.1 >= 100 {
                        assert(odds[1].1 >= 100);
                    } else if odd_draw.1 >= 100 {
                        assert(odds[2].1 >= 100);
                    } else if odd_under.1 >= 100 {
                        assert(odds[3].1 >= 100);
                    } else {
                        assert(odds[4].1 >= 100);
                    }
                }
            }
            return Err(Error::InvalidOddFraction);
        }
        if !(odd_homewin.0 > 0 && odd_awaywin.0 > 0 && odd_draw.0 > 0 && odd_under.0 > 0
            && odd_over.0 > 0) {
            proof {
                assert(exists|i: int| 0 <= i < odds.len() && odds[i].0 == 0) by {
                    if odd_homewin.0 == 0 {
                        assert(odds[0].0 == 0);
                    } else if odd_awaywin.0 == 0 {
                        assert(odds[1].0 == 0);
                    } else if odd_draw.0 == 0 {
                        assert(odds[2].0 == 0);
                    } else if odd_under.0 == 0 {
                        assert(odds[3].0 == 0);
                    } else {
                        assert(odds[4].0 == 0);
                    }
                }
            }
            return Err(Error::InvalidOddInteger);
        }
        assert(odds_check(odds) is None);
        let single_match = SingleMatch {
            owner: origin,
            id_event,
            status: MatchStatus::Open,
            home_score: 0,
            away_score: 0,
            odd_homewin,
            odd_awaywin,
            odd_draw,
            odd_under,
            odd_over,
        };
        let match_index = self.matches.len() as u64;
        self.matches.push(single_match);
        self.events.push(Event::MatchCreated(match_index));
        proof {
            lemma_bets_stay_wf(
                old(self).matches_view(),
                self.matches_view(),
                old(self).bets_view(),
                self.bets_view(),
            );
            assert forall|i: int| 0 <= i < self.matches_view().len() implies match_wf(
                #[trigger] self.matches_view()[i],
            ) by {
                if i < old(self).matches_view().len() {
                    assert(match_wf(old(self).matches_view()[i]));
                }
            }
        }
        Ok(match_index)
    }

    /// Closes match `id_match` with the score `home` to `away`. Fails with
    /// `MatchNotFound` or `MatchAlreadyClosed`, changing nothing.
    pub fn close_match(&mut self, id_match: MatchIndex, home: u32, away: u32) -> (r: Result<
        (),
        Error,
    >)
        requires
            old(self).wf(),
        ensures
            final(self).wf(),
            match old(self).close_match_error(id_match) {
                Some(e) => r == Err::<(), Error>(e) && *final(self) == *old(self),
                None => {
                    &&& r is Ok
                    &&& final(self).matches_view() == old(self).matches_view().update(
                        id_match as int,
                        closed_match(old(self).matches_view()[id_match as int], home, away),
                    )
                    &&& final(self).bets_view() == old(self).bets_view()
                    &&& final(self).events_view() == old(self).events_view().push(
                        Event::MatchClosed(id_match),
                    )
                },
            },
    {
        if id_match >= self.matches.len() as u64 {
            return Err(Error::MatchNotFound);
        }
        let idx = id_match as usize;
        let mut m = self.matches[idx];
        if m.status != MatchStatus::Open {
            return Err(Error::MatchAlreadyClosed);
        }
        m.status = MatchStatus::Closed;
        m.home_score = home;
        m.away_score = away;
        self.matches.set(idx, m);
        self.events.push(Event::MatchClosed(id_match));
        proof {
            lemma_bets_stay_wf(
                old(self).matches_view(),
                self.matches_view(),
                old(self).bets_view(),
                self.bets_view(),
            );
            assert forall|i: int| 0 <= i < self.matches_view().len() implies match_wf(
                #[trigger] self.matches_view()[i],
            ) by {
                assert(match_wf(old(self).matches_view()[i]));
            }
        }
        Ok(())
    }

    /// Closes match `id_match` with a score drawn from the host's randomness,
    /// the home score with seed 0 and the away score with seed 1, and returns
    /// the score. Fails as `close_match` does, changing nothing.
    pub fn set_match_result<T: Config>(&mut self, cfg: &T, id_match: MatchIndex) -> (r: Result<
        (u32, u32),
        Error,
    >)
        requires
            old(self).wf(),
        ensures
            final(self).wf(),
            match old(self).close_match_error(id_match) {
                Some(e) => r == Err::<(u32, u32), Error>(e) && *final(self) == *old(self),
                None => {
                    &&& r == Ok::<(u32, u32), Error>((score_of(cfg, 0), score_of(cfg, 1)))
                    &&& r->Ok_0.0 < MAX_SCORE
                    &&& r->Ok_0.1 < MAX_SCORE
                    &&& final(self).matches_view() == old(self).matches_view().update(
                        id_match as int,
                        closed_match(
                            old(self).matches_view()[id_match as int],
                            r->Ok_0.0,
                            r->Ok_0.1,
                        ),
                    )
                    &&& final(self).bets_view() == old(self).bets_view()
                    &&& final(self).events_view() == old(self).events_view().push(
                        Event::MatchClosed(id_match),
                    )
                },
            },
    {
        if id_match >= self.matches.len() as u64 {
            return Err(Error::MatchNotFound);
        }
        if self.matches[id_match as usize].status != MatchStatus::Open {
            return Err(Error::MatchAlreadyClosed);
        }
        let home = generate_random_score(cfg, 0);
        let away = generate_random_score(cfg, 1);
        match self.close_match(id_match, home, away) {
            Ok(()) => Ok((home, away)),
            Err(e) => Err(e),
        }
    }

    /// Places a bet of `origin` on match `id_match` with `prediction` and
    /// stake `amount`, and returns its index. The stake is reserved from the
    /// bettor and the liability `winnable(amount, odd)` from the bookmaker.
    /// The checks run in the order of `place_bet_error`, before anything is
    /// written; a failure changes nothing.
    pub fn place_bet<L: LedgerBackend>(
        &mut self,
        ledger: &mut L,
        origin: AccountId,
        id_match: MatchIndex,
        prediction: Prediction,
        amount: Balance,
    ) -> (r: Result<BetIndex, Error>)
        requires
            old(self).wf(),
            ledger_wf(old(ledger).balances()),
            old(self).bets_view().len() < u64::MAX,
        ensures
            final(self).wf(),
            ledger_wf(final(ledger).balances()),
            match old(self).place_bet_error(
                old(ledger).balances(),
                origin,
                id_match,
                prediction,
                amount,
            ) {
                Some(e) => {
                    &&& r == Err::<BetIndex, Error>(e)
                    &&& *final(self) == *old(self)
                    &&& final(ledger).balances() == old(ledger).balances()
                },
                None => {
                    let m = old(self).matches_view()[id_match as int];
                    let odd = odd_for(m, prediction);
                    let bet = Bet {
                        owner: origin,
                        id_match,
                        prediction,
                        odd,
                        amount,
                        status: BetStatus::Open,
                    };
                    &&& r == Ok::<BetIndex, Error>(old(self).bets_view().len() as BetIndex)
                    &&& final(ledger).balances() == reserved_in(
                        reserved_in(old(ledger).balances(), origin, amount),
                        m.owner,
                        winnable_spec(amount, odd),
                    )
                    &&& final(self).matches_view() == old(self).matches_view()
                    &&& final(self).bets_view() == old(self).bets_view().push(bet)
                    &&& final(self).events_view() == old(self).events_view().push(
                        Event::BetPlaced(old(self).bets_view().len() as BetIndex),
                    )
                },
            },
    {
        let bet_index = self.bets.len() as u64;
        if id_match >= self.matches.len() as u64 {
            return Err(Error::MatchNotFound);
        }
        let selected_match = self.matches[id_match as usize];
        let match_owner = selected_match.owner;
        if origin == match_owner {
            return Err(Error::SameMatchOwner);
        }
        if selected_match.status != MatchStatus::Open {
            return Err(Error::MatchClosed);
        }
        if !ledger.can_reserve(origin, amount) {
            return Err(Error::BettorInsufficientBalance);
        }
        let odd = select_odd(&selected_match, prediction);
        assert(match_wf(self.matches_view()[id_match as int]));
        let winnable_amount = winnable(amount, odd);
        if !ledger.can_reserve(match_owner, winnable_amount) {
            return Err(Error::BookmakerInsufficientBalance);
        }
        let ghost l0 = ledger.balances();
        match ledger.reserve(origin, amount) {
            Ok(()) => {},
            Err(_) => {
                return Err(Error::BettorInsufficientBalance);
            },
        }
        assert(account_of(ledger.balances(), match_owner) == account_of(l0, match_owner));
        match ledger.reserve(match_owner, winnable_amount) {
            Ok(()) => {},
            Err(_) => {
                return Err(Error::BookmakerInsufficientBalance);
            },
        }
        let bet = Bet {
            owner: origin,
            id_match,
            prediction,
            odd,
            amount,
            status: BetStatus::Open,
        };
        self.bets.push(bet);
        self.events.push(Event::BetPlaced(bet_index));
        proof {
            lemma_bets_stay_wf(
                old(self).matches_view(),
                self.matches_view(),
                old(self).bets_view(),
                self.bets_view(),
            );
        }
        Ok(bet_index)
    }

    /// Settles bet `id_bet` on its closed or postponed match, and returns
    /// whether it was won or lost. Funds move as `paid_off` states, both
    /// movements or neither. The checks run in the order of `claim_bet_error`,
    /// before anything is written; a failure changes nothing.
    pub fn claim_bet<L: LedgerBackend>(
        &mut self,
        ledger: &mut L,
        _origin: AccountId,
        id_bet: BetIndex,
    ) -> (r: Result<BetStatus, Error>)
        requires
            old(self).wf(),
            ledger_wf(old(ledger).balances()),
        ensures
            final(self).wf(),
            ledger_wf(final(ledger).balances()),
            match old(self).claim_bet_error(old(ledger).balances(), id_bet) {
                Some(e) => {
                    &&& r == Err::<BetStatus, Error>(e)
                    &&& *final(self) == *old(self)
                    &&& final(ledger).balances() == old(ledger).balances()
                },
                None => {
                    let b = old(self).bets_view()[id_bet as int];
                    let m = old(self).matches_view()[b.id_match as int];
                    let outcome = outcome_spec(b.prediction, m.home_score, m.away_score);
                    &&& r == Ok::<BetStatus, Error>(outcome)
                    &&& final(ledger).balances() == paid_off(
                        old(ledger).balances(),
                        b.owner,
                        m.owner,
                        b.amount,
                        winnable_spec(b.amount, b.odd),
                        outcome,
                    )
                    &&& final(self).matches_view() == old(self).matches_view()
                    &&& final(self).bets_view() == old(self).bets_view().update(
                        id_bet as int,
                        settled_bet(b, outcome),
                    )
                    &&& final(self).events_view() == old(self).events_view().push(Event::BetClaimed(id_bet))
                },
            },
    {
        if id_bet >= self.bets.len() as u64 {
            return Err(Error::BetNotFound);
        }
        let mut selected_bet = self.bets[id_bet as usize];
        if selected_bet.status != BetStatus::Open {
            return Err(Error::BetAlreadyClosed);
        }
        if selected_bet.id_match >= self.matches.len() as u64 {
            return Err(Error::MatchNotFound);
        }
        let selected_match = self.matches[selected_bet.id_match as usize];
        if selected_match.status == MatchStatus::Open {
            return Err(Error::MatchStillOpen);
        }
        assert(bet_wf(self.bets_view()[id_bet as int], self.matches_view()));
        let bet_status = bet_outcome(
            selected_bet.prediction,
            selected_match.home_score,
            selected_match.away_score,
        );
        let winnable_amount = winnable(selected_bet.amount, selected_bet.odd);
        let bettor = selected_bet.owner;
        let bookmaker = selected_match.owner;
        let amount = selected_bet.amount;
        if !(amount <= ledger.account(bettor).reserved
            && winnable_amount <= ledger.account(bookmaker).reserved) {
            return Err(Error::PayoffFailure);
        }
        proof {
            lemma_two_accounts(ledger.balances(), bettor, bookmaker);
        }
        if bet_status == BetStatus::Won {
            match ledger.repatriate_reserved(bookmaker, bettor, winnable_amount) {
                Ok(()) => {},
                Err(_) => {
                    return Err(Error::PayoffFailure);
                },
            }
            match ledger.repatriate_reserved(bettor, bookmaker, amount) {
                Ok(()) => {},
                Err(_) => {
                    return Err(Error::PayoffFailure);
                },
            }
        } else {
            match ledger.repatriate_reserved(bettor, bookmaker, amount) {
                Ok(()) => {},
                Err(_) => {
                    return Err(Error::PayoffFailure);
                },
            }
            match ledger.unreserve(bookmaker, winnable_amount) {
                Ok(()) => {},
                Err(_) => {
                    return Err(Error::PayoffFailure);
                },
            }
        }
        selected_bet.status = bet_status;
        self.bets.set(id_bet as usize, selected_bet);
        self.events.push(Event::BetClaimed(id_bet));
        proof {
            lemma_bets_stay_wf(
                old(self).matches_view(),
                self.matches_view(),
                old(self).bets_view(),
                self.bets_view(),
            );
        }
        Ok(bet_status)
    }
}

} // verus!
