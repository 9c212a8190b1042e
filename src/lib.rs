//! A peer-to-peer wagering ledger: any account may publish a match with
//! fixed odds and act as its bookmaker, any other account may bet on it
//! against reserved balance, and settlement moves the reserved funds once
//! the score is known.

pub mod types;
pub mod odds;
pub mod ledger;
pub mod random;
pub mod pallet;
pub mod laws;
