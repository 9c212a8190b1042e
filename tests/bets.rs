use bets::ledger::{Ledger, LedgerBackend, LedgerError};
use bets::odds::{bet_outcome, select_odd, winnable};
use bets::pallet::Pallet;
use bets::random::{
    decode_u32, draw_score, encode_subject, generate_random_number, generate_random_score,
    score_from_draws, FixedDraws,
};
use bets::types::{BetStatus, Error, Event, MatchStatus, Prediction};

const BOOKMAKER: u64 = 1;
const BETTOR: u64 = 2;

const ID: [u8; 8] = *b"py/bets_";

/// Answers seed `i` with `by_seed[i]` and other seeds with 0.
fn scripted(by_seed: Vec<u32>) -> FixedDraws {
    FixedDraws { id: ID, draws: by_seed, otherwise: 0 }
}

fn splitmix(mut x: u64) -> u64 {
    x = x.wrapping_add(0x9E37_79B9_7F4A_7C15);
    let mut z = x;
    z = (z ^ (z >> 30)).wrapping_mul(0xBF58_476D_1CE4_E5B9);
    z = (z ^ (z >> 27)).wrapping_mul(0x94D0_49BB_1331_11EB);
    z ^ (z >> 31)
}

/// Pseudo-random draws for the seeds `0..n`.
fn mixed(n: u32) -> FixedDraws {
    let draws = (0..n).map(|i| (splitmix(i as u64) >> 32) as u32).collect();
    FixedDraws { id: ID, draws, otherwise: 0 }
}

/// Every draw is the largest `u32`, which is always biased.
fn always_biased() -> FixedDraws {
    FixedDraws { id: [0; 8], draws: vec![], otherwise: u32::MAX }
}

fn funded(bookmaker: u128, bettor: u128) -> Ledger {
    let mut l = Ledger::new();
    l.deposit(BOOKMAKER, bookmaker).unwrap();
    l.deposit(BETTOR, bettor).unwrap();
    l
}

fn one_match(p: &mut Pallet) -> u64 {
    p.create_match(BOOKMAKER, 42, (2, 0), (3, 50), (3, 0), (1, 80), (2, 10)).unwrap()
}

#[test]
fn winnable_exact_values() {
    assert_eq!(winnable(100, (2, 50)), 250);
    assert_eq!(winnable(33, (1, 50)), 49);
    assert_eq!(winnable(100, (2, 0)), 200);
    assert_eq!(winnable(199, (1, 99)), 199 + 197);
    assert_eq!(winnable(0, (5, 20)), 0);
}

#[test]
fn winnable_saturates() {
    assert_eq!(winnable(u128::MAX, (2, 0)), u128::MAX);
    assert_eq!(winnable(u128::MAX, (1, 1)), u128::MAX);
    assert_eq!(winnable(u128::MAX / 2, (2, 0)), u128::MAX - 1);
}

#[test]
fn winnable_at_least_stake() {
    for amount in [0u128, 1, 7, 99, 100, 12345, u128::MAX / 3, u128::MAX] {
        for odd in [(1u32, 0u8), (1, 99), (2, 50), (u32::MAX, 99)] {
            assert!(winnable(amount, odd) >= amount);
        }
    }
}

#[test]
fn create_match_boundaries() {
    let mut p = Pallet::new();
    assert_eq!(p.create_match(BOOKMAKER, 1, (1, 0), (1, 0), (1, 0), (1, 0), (1, 0)), Ok(0));
    assert_eq!(p.create_match(BOOKMAKER, 1, (1, 99), (1, 0), (1, 0), (1, 0), (1, 0)), Ok(1));
    assert_eq!(
        p.create_match(BOOKMAKER, 1, (0, 0), (1, 0), (1, 0), (1, 0), (1, 0)),
        Err(Error::InvalidOddInteger)
    );
    assert_eq!(
        p.create_match(BOOKMAKER, 1, (1, 0), (1, 0), (1, 0), (1, 0), (1, 100)),
        Err(Error::InvalidOddFraction)
    );
    assert_eq!(
        p.create_match(BOOKMAKER, 1, (0, 0), (1, 0), (1, 255), (1, 0), (1, 0)),
        Err(Error::InvalidOddFraction)
    );
    assert_eq!(p.matches_count(), 2);
    assert_eq!(p.events(), &vec![Event::MatchCreated(0), Event::MatchCreated(1)]);
}

#[test]
fn create_match_stores_open_match() {
    let mut p = Pallet::new();
    let idx = one_match(&mut p);
    let m = p.matches_by_id(idx).unwrap();
    assert_eq!(m.owner, BOOKMAKER);
    assert_eq!(m.id_event, 42);
    assert_eq!(m.status, MatchStatus::Open);
    assert_eq!((m.home_score, m.away_score), (0, 0));
    assert_eq!(m.odd_awaywin, (3, 50));
    assert_eq!(select_odd(&m, Prediction::Under), (1, 80));
    assert_eq!(select_odd(&m, Prediction::Over), (2, 10));
    assert!(p.matches_by_id(idx + 1).is_none());
}

#[test]
fn place_bet_rejects_own_and_closed_match() {
    let mut p = Pallet::new();
    let mut l = funded(1000, 1000);
    let idx = one_match(&mut p);
    assert_eq!(
        p.place_bet(&mut l, BOOKMAKER, idx, Prediction::Draw, 10),
        Err(Error::SameMatchOwner)
    );
    p.close_match(idx, 1, 0).unwrap();
    assert_eq!(p.place_bet(&mut l, BETTOR, idx, Prediction::Draw, 10), Err(Error::MatchClosed));
    assert_eq!(p.bets_count(), 0);
    assert_eq!(l.reserved_balance(BETTOR), 0);
    assert_eq!(l.reserved_balance(BOOKMAKER), 0);
}

#[test]
fn place_bet_other_errors_change_nothing() {
    let mut p = Pallet::new();
    let mut l = funded(150, 100);
    let idx = one_match(&mut p);
    assert_eq!(
        p.place_bet(&mut l, BETTOR, idx + 1, Prediction::Homewin, 10),
        Err(Error::MatchNotFound)
    );
    assert_eq!(
        p.place_bet(&mut l, BETTOR, idx, Prediction::Homewin, 101),
        Err(Error::BettorInsufficientBalance)
    );
    assert_eq!(
        p.place_bet(&mut l, BETTOR, idx, Prediction::Homewin, 100),
        Err(Error::BookmakerInsufficientBalance)
    );
    assert_eq!(l.free_balance(BETTOR), 100);
    assert_eq!(l.free_balance(BOOKMAKER), 150);
    assert_eq!(l.reserved_balance(BETTOR), 0);
    assert_eq!(l.reserved_balance(BOOKMAKER), 0);
    assert_eq!(p.bets_count(), 0);
    assert_eq!(p.events().len(), 1);
}

#[test]
fn place_bet_reserves_both_sides() {
    let mut p = Pallet::new();
    let mut l = funded(1000, 500);
    let idx = one_match(&mut p);
    let b = p.place_bet(&mut l, BETTOR, idx, Prediction::Awaywin, 100).unwrap();
    assert_eq!(b, 0);
    assert_eq!(l.reserved_balance(BETTOR), 100);
    assert_eq!(l.free_balance(BETTOR), 400);
    assert_eq!(l.reserved_balance(BOOKMAKER), 350);
    assert_eq!(l.free_balance(BOOKMAKER), 650);
    let bet = p.bets_by_id(b).unwrap();
    assert_eq!(bet.owner, BETTOR);
    assert_eq!(bet.odd, (3, 50));
    assert_eq!(bet.amount, 100);
    assert_eq!(bet.status, BetStatus::Open);
    assert_eq!(p.bets_count(), 1);
    assert_eq!(p.events().last(), Some(&Event::BetPlaced(0)));
}

#[test]
fn set_match_result_once() {
    let mut p = Pallet::new();
    let idx = one_match(&mut p);
    let cfg = scripted(vec![3, 1]);
    assert_eq!(p.set_match_result(&cfg, idx), Ok((3, 1)));
    let m = p.matches_by_id(idx).unwrap();
    assert_eq!(m.status, MatchStatus::Closed);
    assert_eq!((m.home_score, m.away_score), (3, 1));
    assert_eq!(p.set_match_result(&cfg, idx), Err(Error::MatchAlreadyClosed));
    assert_eq!(p.close_match(idx, 0, 0), Err(Error::MatchAlreadyClosed));
    assert_eq!(p.set_match_result(&cfg, idx + 1), Err(Error::MatchNotFound));
    assert_eq!(p.events().last(), Some(&Event::MatchClosed(idx)));
}

#[test]
fn set_match_result_scores_in_range() {
    let mut p = Pallet::new();
    let cfg = mixed(64);
    for i in 0..50u64 {
        let idx = p.create_match(BOOKMAKER, i as u32, (1, 0), (1, 0), (1, 0), (1, 0), (1, 0)).unwrap();
        let (h, a) = p.set_match_result(&cfg, idx).unwrap();
        assert!(h < 9 && a < 9);
    }
}

#[test]
fn outcome_table() {
    for home in 0..9u32 {
        for away in 0..9u32 {
            let expect = |won: bool| if won { BetStatus::Won } else { BetStatus::Lost };
            assert_eq!(bet_outcome(Prediction::Homewin, home, away), expect(home > away));
            assert_eq!(bet_outcome(Prediction::Awaywin, home, away), expect(home < away));
            assert_eq!(bet_outcome(Prediction::Draw, home, away), expect(home == away));
            assert_eq!(bet_outcome(Prediction::Over, home, away), expect(home + away > 3));
            assert_eq!(bet_outcome(Prediction::Under, home, away), expect(home + away < 3));
        }
    }
    assert_eq!(bet_outcome(Prediction::Over, u32::MAX, u32::MAX), BetStatus::Won);
    assert_eq!(bet_outcome(Prediction::Under, 2, 1), BetStatus::Lost);
    assert_eq!(bet_outcome(Prediction::Over, 2, 1), BetStatus::Lost);
}

#[test]
fn scenario_won() {
    let mut p = Pallet::new();
    let mut l = funded(1000, 1000);
    let idx = p.create_match(BOOKMAKER, 7, (2, 0), (1, 0), (1, 0), (1, 0), (1, 0)).unwrap();
    let b = p.place_bet(&mut l, BETTOR, idx, Prediction::Homewin, 100).unwrap();
    assert_eq!(l.reserved_balance(BOOKMAKER), 200);
    p.close_match(idx, 3, 1).unwrap();
    assert_eq!(p.claim_bet(&mut l, BETTOR, b), Ok(BetStatus::Won));
    assert_eq!(l.free_balance(BETTOR), 900 + 200);
    assert_eq!(l.reserved_balance(BETTOR), 0);
    assert_eq!(l.free_balance(BOOKMAKER), 800 + 100);
    assert_eq!(l.reserved_balance(BOOKMAKER), 0);
    assert_eq!(p.bets_by_id(b).unwrap().status, BetStatus::Won);
    assert_eq!(p.events().last(), Some(&Event::BetClaimed(b)));
}

#[test]
fn scenario_won_with_drawn_score() {
    let mut p = Pallet::new();
    let mut l = funded(1000, 1000);
    let idx = p.create_match(BOOKMAKER, 7, (2, 0), (1, 0), (1, 0), (1, 0), (1, 0)).unwrap();
    let b = p.place_bet(&mut l, BETTOR, idx, Prediction::Homewin, 100).unwrap();
    p.set_match_result(&scripted(vec![3, 1]), idx).unwrap();
    assert_eq!(p.claim_bet(&mut l, BETTOR, b), Ok(BetStatus::Won));
    assert_eq!(l.free_balance(BETTOR), 1100);
}

#[test]
fn scenario_lost() {
    let mut p = Pallet::new();
    let mut l = funded(1000, 1000);
    let idx = p.create_match(BOOKMAKER, 7, (2, 0), (1, 0), (1, 0), (1, 0), (1, 0)).unwrap();
    let b = p.place_bet(&mut l, BETTOR, idx, Prediction::Homewin, 100).unwrap();
    p.close_match(idx, 1, 1).unwrap();
    assert_eq!(p.claim_bet(&mut l, BETTOR, b), Ok(BetStatus::Lost));
    assert_eq!(l.free_balance(BETTOR), 900);
    assert_eq!(l.reserved_balance(BETTOR), 0);
    assert_eq!(l.free_balance(BOOKMAKER), 1100);
    assert_eq!(l.reserved_balance(BOOKMAKER), 0);
    assert_eq!(p.bets_by_id(b).unwrap().status, BetStatus::Lost);
}

#[test]
fn claim_bet_twice() {
    let mut p = Pallet::new();
    let mut l = funded(1000, 1000);
    let idx = one_match(&mut p);
    let b = p.place_bet(&mut l, BETTOR, idx, Prediction::Draw, 100).unwrap();
    p.close_match(idx, 2, 2).unwrap();
    assert_eq!(p.claim_bet(&mut l, BETTOR, b), Ok(BetStatus::Won));
    let (bf, br) = (l.free_balance(BETTOR), l.reserved_balance(BETTOR));
    let (kf, kr) = (l.free_balance(BOOKMAKER), l.reserved_balance(BOOKMAKER));
    let events = p.events().len();
    assert_eq!(p.claim_bet(&mut l, BETTOR, b), Err(Error::BetAlreadyClosed));
    assert_eq!((l.free_balance(BETTOR), l.reserved_balance(BETTOR)), (bf, br));
    assert_eq!((l.free_balance(BOOKMAKER), l.reserved_balance(BOOKMAKER)), (kf, kr));
    assert_eq!(p.events().len(), events);
}

#[test]
fn claim_bet_errors() {
    let mut p = Pallet::new();
    let mut l = funded(1000, 1000);
    let idx = one_match(&mut p);
    assert_eq!(p.claim_bet(&mut l, BETTOR, 0), Err(Error::BetNotFound));
    let b = p.place_bet(&mut l, BETTOR, idx, Prediction::Over, 100).unwrap();
    assert_eq!(p.claim_bet(&mut l, BETTOR, b), Err(Error::MatchStillOpen));
    p.close_match(idx, 0, 0).unwrap();
    // The bookmaker's liability is released behind the bet's back.
    l.unreserve(BOOKMAKER, 150).unwrap();
    assert_eq!(p.claim_bet(&mut l, BETTOR, b), Err(Error::PayoffFailure));
    assert_eq!(l.reserved_balance(BETTOR), 100);
    assert_eq!(l.reserved_balance(BOOKMAKER), 60);
    assert_eq!(p.bets_by_id(b).unwrap().status, BetStatus::Open);
}

#[test]
fn ledger_moves() {
    let mut l = Ledger::new();
    assert_eq!(l.free_balance(5), 0);
    assert_eq!(l.reserve(5, 1), Err(LedgerError::InsufficientBalance));
    l.deposit(5, 100).unwrap();
    assert!(l.can_reserve(5, 100));
    assert!(!l.can_reserve(5, 101));
    l.reserve(5, 60).unwrap();
    assert_eq!((l.free_balance(5), l.reserved_balance(5)), (40, 60));
    assert_eq!(l.unreserve(5, 61), Err(LedgerError::InsufficientBalance));
    l.unreserve(5, 10).unwrap();
    assert_eq!((l.free_balance(5), l.reserved_balance(5)), (50, 50));
    assert_eq!(l.repatriate_reserved(5, 6, 51), Err(LedgerError::InsufficientBalance));
    l.repatriate_reserved(5, 6, 20).unwrap();
    assert_eq!((l.free_balance(5), l.reserved_balance(5)), (50, 30));
    assert_eq!(l.free_balance(6), 20);
    l.repatriate_reserved(5, 5, 30).unwrap();
    assert_eq!((l.free_balance(5), l.reserved_balance(5)), (80, 0));
}

#[test]
fn ledger_overflow() {
    let mut l = Ledger::new();
    l.deposit(1, u128::MAX - 30).unwrap();
    l.deposit(2, 20).unwrap();
    assert_eq!(l.total_issuance(), u128::MAX - 10);
    assert_eq!(l.deposit(3, 11), Err(LedgerError::Overflow));
    assert_eq!(l.free_balance(3), 0);
    l.deposit(3, 10).unwrap();
    assert_eq!(l.total_issuance(), u128::MAX);
    l.reserve(2, 20).unwrap();
    l.repatriate_reserved(2, 1, 20).unwrap();
    assert_eq!(l.free_balance(1), u128::MAX - 10);
    assert_eq!(l.total_issuance(), u128::MAX);
}

#[test]
fn settlement_of_rich_bettor_succeeds() {
    let mut p = Pallet::new();
    let mut l = funded(1000, u128::MAX - 1000);
    let idx = p.create_match(BOOKMAKER, 7, (2, 0), (1, 0), (1, 0), (1, 0), (1, 0)).unwrap();
    let b = p.place_bet(&mut l, BETTOR, idx, Prediction::Homewin, 100).unwrap();
    p.close_match(idx, 3, 1).unwrap();
    assert_eq!(p.claim_bet(&mut l, BETTOR, b), Ok(BetStatus::Won));
    assert_eq!(l.free_balance(BETTOR), u128::MAX - 1000 - 100 + 200);
    assert_eq!(l.free_balance(BOOKMAKER), 1000 - 200 + 100);
}

#[test]
fn subject_and_decode() {
    let s = encode_subject(*b"abcdefgh", 0x0102_0304);
    assert_eq!(s, vec![b'a', b'b', b'c', b'd', b'e', b'f', b'g', b'h', 4, 3, 2, 1]);
    let mut h = [0u8; 32];
    h[0] = 0x78;
    h[1] = 0x56;
    h[2] = 0x34;
    h[3] = 0x12;
    h[4] = 0xff;
    assert_eq!(decode_u32(&h), 0x1234_5678);
    assert_eq!(decode_u32(&[0xff; 32]), u32::MAX);
    let cfg = scripted(vec![7, 0xdead_beef]);
    assert_eq!(generate_random_number(&cfg, 1), 0xdead_beef);
}

#[test]
fn score_from_draws_picks_first_unbiased() {
    let limit = u32::MAX - u32::MAX % 9;
    assert_eq!(score_from_draws(&vec![20]), 2);
    assert_eq!(score_from_draws(&vec![limit, 13, 5]), 4);
    assert_eq!(score_from_draws(&vec![limit - 1, 13]), (limit - 1) % 9);
    assert_eq!(score_from_draws(&vec![limit, u32::MAX]), u32::MAX % 9);
}

#[test]
fn biased_draws_stop_after_ten() {
    let (score, draws) = draw_score(&always_biased(), 0);
    assert_eq!(draws.len(), 10);
    assert_eq!(score, u32::MAX % 9);
    let limit = u32::MAX - u32::MAX % 9;
    let cfg = scripted(vec![limit, u32::MAX, 17, 4]);
    let (score, draws) = draw_score(&cfg, 0);
    assert_eq!(draws, vec![limit, u32::MAX, 17]);
    assert_eq!(score, 8);
    let cfg = scripted(vec![0, 4294967292, 4294967291, 5]);
    assert_eq!(generate_random_score(&cfg, 1), 8);
    let (_, draws) = draw_score(&cfg, 1);
    assert_eq!(draws, vec![4294967292, 4294967291]);
}

#[test]
fn highest_seed_diff_is_accepted() {
    let (score, draws) = draw_score(&always_biased(), u32::MAX - 9);
    assert_eq!(draws.len(), 10);
    assert_eq!(score, 3);
    let cfg = FixedDraws { id: ID, draws: vec![], otherwise: 23 };
    assert_eq!(generate_random_score(&cfg, u32::MAX - 9), 5);
}

#[test]
fn random_scores_are_uniform() {
    let n: u32 = 90_000;
    let cfg = mixed(n + 9);
    let mut counts = [0u32; 9];
    for seed in 0..n {
        let s = generate_random_score(&cfg, seed);
        counts[s as usize] += 1;
    }
    let expected = (n / 9) as f64;
    let chi2: f64 = counts
        .iter()
        .map(|&c| {
            let d = c as f64 - expected;
            d * d / expected
        })
        .sum();
    // 8 degrees of freedom: the 99.9th percentile is about 26.1.
    assert!(chi2 < 26.1, "counts {:?}, chi2 {}", counts, chi2);
}
