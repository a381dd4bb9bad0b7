//! Full market cycles and one test per failure condition, exercised through
//! the public operations with plain account identifiers and explicit ticks.

use kale_prediction::Error;
use kale_prediction::KalePrediction;
use kale_prediction::Side;
use kale_prediction::GRACE_LEDGERS;

/// Happy path: bets, resolution, and correct payouts.
#[test]
fn happy_path_claims() {
    let mut m = KalePrediction::new();
    let admin: u64 = 1;
    m.init(admin, 2).unwrap();

    let cur: u32 = 0;
    let deadline = cur + 5;
    let finality = cur + 10;
    let round_id = m.start_round(admin, 100, deadline, finality).unwrap();

    let alice: u64 = 10; // winner
    let bob: u64 = 11; // loser

    m.bet(alice, round_id, Side::Higher, 100, cur).unwrap();
    m.bet(bob, round_id, Side::Lower, 300, cur).unwrap();

    // actual count higher than predicted: Higher wins
    m.resolve_round(admin, round_id, 150, finality + 1).unwrap();

    let paid_alice = m.claim(alice, round_id).unwrap();
    let paid_bob = m.claim(bob, round_id).unwrap();

    assert_eq!(paid_alice, 400); // 100 + 300
    assert_eq!(paid_bob, 0);
}

/// Refund after the grace period if the admin never resolves.
#[test]
fn refund_after_grace() {
    let mut m = KalePrediction::new();
    let admin: u64 = 1;
    m.init(admin, 2).unwrap();

    let cur: u32 = 0;
    let deadline = cur + 3;
    let finality = cur + 6;
    let round_id = m.start_round(admin, 42, deadline, finality).unwrap();

    let carol: u64 = 12;
    m.bet(carol, round_id, Side::Lower, 150, cur).unwrap();

    // just before grace expiry the refund is refused
    assert!(m.refund(carol, round_id, finality + GRACE_LEDGERS - 1).is_err());

    // past grace the original stake comes back exactly
    let refunded = m.refund(carol, round_id, finality + GRACE_LEDGERS + 1).unwrap();
    assert_eq!(refunded, 150);
}

/// Two winners split the loser pot proportionally to their stake.
#[test]
fn proportional_split_two_winners() {
    let mut m = KalePrediction::new();
    let admin: u64 = 1;
    m.init(admin, 2).unwrap();

    let cur: u32 = 0;
    let deadline = cur + 4;
    let finality = cur + 8;
    let round_id = m.start_round(admin, 120, deadline, finality).unwrap();

    let alice: u64 = 10; // Lower winner, stake 100 (25% of winner pool)
    let bob: u64 = 11; // Lower winner, stake 300 (75% of winner pool)
    let charlie: u64 = 13; // Higher loser, stake 400

    m.bet(alice, round_id, Side::Lower, 100, cur).unwrap();
    m.bet(bob, round_id, Side::Lower, 300, cur).unwrap();
    m.bet(charlie, round_id, Side::Higher, 400, cur).unwrap();

    // move past finality and resolve with actual lower than predicted
    m.resolve_round(admin, round_id, 100, finality + 1).unwrap();

    // stakes are still locked before the claims
    assert_eq!(m.get_stake(alice, round_id).unwrap().amount, 100);
    assert_eq!(m.get_stake(bob, round_id).unwrap().amount, 300);
    assert_eq!(m.get_stake(charlie, round_id).unwrap().amount, 400);

    // Winner pool = 100 + 300 = 400, total pool = 800:
    // Alice 100 * 800 / 400 = 200, Bob 300 * 800 / 400 = 600.
    assert_eq!(m.claim(alice, round_id).unwrap(), 200);
    assert_eq!(m.claim(bob, round_id).unwrap(), 600);
    assert_eq!(m.claim(charlie, round_id).unwrap(), 0);
}

/// A non-admin attempt to start a round is rejected as `Unauthorized`.
#[test]
fn unauthorized_admin_calls() {
    let mut m = KalePrediction::new();
    let admin: u64 = 1;
    m.init(admin, 2).unwrap();
    let eve: u64 = 66;
    let cur: u32 = 0;
    assert_eq!(m.start_round(eve, 1, cur + 2, cur + 4), Err(Error::Unauthorized));
}

/// Claiming an unknown round fails with `RoundNotFound`.
#[test]
fn round_not_found_claim() {
    let mut m = KalePrediction::new();
    m.init(1, 2).unwrap();
    let frank: u64 = 14;
    assert_eq!(m.claim(frank, 999), Err(Error::RoundNotFound));
}

/// Betting after the deadline fails with `BettingClosed`.
#[test]
fn bet_after_deadline_panics() {
    let mut m = KalePrediction::new();
    let admin: u64 = 1;
    m.init(admin, 2).unwrap();
    let cur: u32 = 0;
    let deadline = cur + 1;
    let finality = cur + 10;
    let round_id = m.start_round(admin, 10, deadline, finality).unwrap();
    let dave: u64 = 15;
    assert_eq!(m.bet(dave, round_id, Side::Higher, 10, deadline + 1), Err(Error::BettingClosed));
}

/// Resolving twice fails with `AlreadyResolved`.
#[test]
fn resolve_twice_panics() {
    let mut m = KalePrediction::new();
    let admin: u64 = 1;
    m.init(admin, 2).unwrap();
    let cur: u32 = 0;
    let round = m.start_round(admin, 1, cur + 1, cur + 2).unwrap();
    m.resolve_round(admin, round, 2, cur + 3).unwrap();
    assert_eq!(m.resolve_round(admin, round, 3, cur + 3), Err(Error::AlreadyResolved));
}

/// Resolving before finality fails with `TooEarly`.
#[test]
fn resolve_too_early_panics() {
    let mut m = KalePrediction::new();
    let admin: u64 = 1;
    m.init(admin, 2).unwrap();
    let cur: u32 = 0;
    let round = m.start_round(admin, 1, cur + 5, cur + 10).unwrap();
    assert_eq!(m.resolve_round(admin, round, 0, cur + 6), Err(Error::TooEarly));
}

/// Claiming before resolution fails with `NotResolved`.
#[test]
fn claim_not_resolved_panics() {
    let mut m = KalePrediction::new();
    let admin: u64 = 1;
    m.init(admin, 2).unwrap();
    let cur: u32 = 0;
    let round = m.start_round(admin, 1, cur + 1, cur + 3).unwrap();
    let alice: u64 = 10;
    m.bet(alice, round, Side::Higher, 1, cur).unwrap();
    assert_eq!(m.claim(alice, round), Err(Error::NotResolved));
}

/// A second claim fails with `AlreadyClaimed`.
#[test]
fn double_claim_panics() {
    let mut m = KalePrediction::new();
    let admin: u64 = 1;
    m.init(admin, 2).unwrap();
    let cur: u32 = 0;
    let round = m.start_round(admin, 1, cur + 1, cur + 2).unwrap();
    let alice: u64 = 10;
    m.bet(alice, round, Side::Higher, 1, cur).unwrap();
    m.resolve_round(admin, round, 2, cur + 3).unwrap();
    m.claim(alice, round).unwrap();
    assert_eq!(m.claim(alice, round), Err(Error::AlreadyClaimed));
}

/// A refund attempt before the grace period ends fails with
/// `RefundNotAvailable`.
#[test]
fn refund_before_grace_panics() {
    let mut m = KalePrediction::new();
    let admin: u64 = 1;
    m.init(admin, 2).unwrap();
    let cur: u32 = 0;
    let deadline = cur + 2;
    let finality = cur + 4;
    let round = m.start_round(admin, 1, deadline, finality).unwrap();
    let frank: u64 = 14;
    m.bet(frank, round, Side::Higher, 10, cur).unwrap();
    assert_eq!(m.refund(frank, round, finality + 1), Err(Error::RefundNotAvailable));
}

/// A bet of amount zero fails with `ZeroAmount`.
#[test]
fn zero_amount_panics() {
    let mut m = KalePrediction::new();
    let admin: u64 = 1;
    m.init(admin, 2).unwrap();
    let cur: u32 = 0;
    let round = m.start_round(admin, 1, cur + 1, cur + 2).unwrap();
    let alice: u64 = 10;
    assert_eq!(m.bet(alice, round, Side::Higher, 0, cur), Err(Error::ZeroAmount));
}
