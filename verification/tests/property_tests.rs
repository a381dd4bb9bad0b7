//! Concrete instances of the market's laws — conservation, single
//! consumption, mutual exclusivity, window boundaries — plus the remaining
//! failure conditions and the tie-break and side-fixing policies.

use kale_prediction::Error;
use kale_prediction::KalePrediction;
use kale_prediction::Outcome;
use kale_prediction::Side;
use kale_prediction::GRACE_LEDGERS;

/// The configuration record is created exactly once.
#[test]
fn second_init_rejected() {
    let mut m = KalePrediction::new();
    m.init(1, 2).unwrap();
    assert_eq!(m.init(3, 4), Err(Error::AlreadyInitialised));
    assert_eq!(m.get_admin(), 1);
}

/// A betting deadline at or past the finality tick is rejected.
#[test]
fn invalid_window_rejected() {
    let mut m = KalePrediction::new();
    m.init(1, 2).unwrap();
    assert_eq!(m.start_round(1, 7, 10, 10), Err(Error::InvalidWindow));
    assert_eq!(m.start_round(1, 7, 11, 10), Err(Error::InvalidWindow));
}

/// Pool conservation: the pot equals the sum of all successful bet amounts.
#[test]
fn pools_equal_sum_of_bets() {
    let mut m = KalePrediction::new();
    m.init(1, 2).unwrap();
    let round = m.start_round(1, 50, 10, 20).unwrap();
    m.bet(10, round, Side::Higher, 7, 0).unwrap();
    m.bet(11, round, Side::Lower, 11, 1).unwrap();
    m.bet(12, round, Side::Higher, 13, 2).unwrap();
    m.bet(10, round, Side::Higher, 19, 3).unwrap();
    let r = m.get_round(round).unwrap();
    assert_eq!(r.high_pool, 7 + 13 + 19);
    assert_eq!(r.low_pool, 11);
    assert_eq!(r.high_pool + r.low_pool, 7 + 11 + 13 + 19);
}

/// Payout conservation with bounded rounding: floor division loses at most
/// `winning_pool - 1` units, which stay in custody.
#[test]
fn payout_rounding_residual() {
    let mut m = KalePrediction::new();
    m.init(1, 2).unwrap();
    let round = m.start_round(1, 50, 10, 20).unwrap();
    m.bet(10, round, Side::Higher, 3, 0).unwrap();
    m.bet(11, round, Side::Higher, 4, 0).unwrap();
    m.bet(12, round, Side::Lower, 10, 0).unwrap();
    m.resolve_round(1, round, 99, 20).unwrap();
    // winning pool 7, total 17: payouts floor(3*17/7)=7 and floor(4*17/7)=9
    let paid_first = m.claim(10, round).unwrap();
    let paid_second = m.claim(11, round).unwrap();
    assert_eq!(paid_first, 7);
    assert_eq!(paid_second, 9);
    let total = 17;
    let winning_pool = 7;
    assert!(paid_first + paid_second <= total);
    assert!(paid_first + paid_second >= total - (winning_pool - 1));
}

/// No double consumption: a second refund fails with `AlreadyClaimed`.
#[test]
fn double_refund_rejected() {
    let mut m = KalePrediction::new();
    m.init(1, 2).unwrap();
    let round = m.start_round(1, 5, 3, 6).unwrap();
    m.bet(10, round, Side::Lower, 150, 0).unwrap();
    let after_grace = 6 + GRACE_LEDGERS + 1;
    assert_eq!(m.refund(10, round, after_grace), Ok(150));
    assert_eq!(m.refund(10, round, after_grace), Err(Error::AlreadyClaimed));
    assert_eq!(m.get_stake(10, round), None);
}

/// Mutual exclusivity: once resolved, refunds fail with `AlreadyResolved`
/// for every account and every later tick, even past the grace period.
#[test]
fn refund_blocked_after_resolve() {
    let mut m = KalePrediction::new();
    m.init(1, 2).unwrap();
    let round = m.start_round(1, 5, 3, 6).unwrap();
    m.bet(10, round, Side::Lower, 100, 0).unwrap();
    m.bet(11, round, Side::Higher, 40, 0).unwrap();
    m.resolve_round(1, round, 9, 7).unwrap();
    let after_grace = 6 + GRACE_LEDGERS + 1;
    assert_eq!(m.refund(10, round, after_grace), Err(Error::AlreadyResolved));
    assert_eq!(m.refund(11, round, 7), Err(Error::AlreadyResolved));
    // an account that never bet is blocked the same way
    assert_eq!(m.refund(99, round, after_grace), Err(Error::AlreadyResolved));
}

/// Window boundaries: a bet exactly at the deadline is accepted, one tick
/// later refused; resolution exactly at finality is accepted, one tick
/// earlier refused.
#[test]
fn window_boundaries() {
    let mut m = KalePrediction::new();
    m.init(1, 2).unwrap();
    let round = m.start_round(1, 5, 10, 20).unwrap();
    assert!(m.bet(10, round, Side::Higher, 1, 10).is_ok());
    assert_eq!(m.bet(11, round, Side::Higher, 1, 11), Err(Error::BettingClosed));
    assert_eq!(m.resolve_round(1, round, 9, 19), Err(Error::TooEarly));
    assert!(m.resolve_round(1, round, 9, 20).is_ok());
}

/// Refund boundary: exactly at the end of the grace period the refund is
/// still refused; one tick later it opens.
#[test]
fn refund_grace_boundary() {
    let mut m = KalePrediction::new();
    m.init(1, 2).unwrap();
    let round = m.start_round(1, 5, 3, 6).unwrap();
    m.bet(10, round, Side::Lower, 25, 0).unwrap();
    assert_eq!(m.refund(10, round, 6 + GRACE_LEDGERS), Err(Error::RefundNotAvailable));
    assert_eq!(m.refund(10, round, 6 + GRACE_LEDGERS + 1), Ok(25));
}

/// A tie between actual and predicted counts resolves to `Lower` by policy.
#[test]
fn tie_resolves_to_lower() {
    let mut m = KalePrediction::new();
    m.init(1, 2).unwrap();
    let round = m.start_round(1, 100, 3, 6).unwrap();
    m.bet(10, round, Side::Lower, 100, 0).unwrap();
    m.bet(11, round, Side::Higher, 300, 0).unwrap();
    m.resolve_round(1, round, 100, 7).unwrap();
    let r = m.get_round(round).unwrap();
    assert_eq!(r.outcome, Outcome::Resolved { winning_side: Side::Lower, actual_count: 100 });
    assert_eq!(m.claim(10, round).unwrap(), 400);
    assert_eq!(m.claim(11, round).unwrap(), 0);
}

/// The side of a stake is fixed at the first bet: a later bet naming the
/// other side accumulates under the original side, in the stake record and
/// in the pools alike.
#[test]
fn side_fixed_at_first_bet() {
    let mut m = KalePrediction::new();
    m.init(1, 2).unwrap();
    let round = m.start_round(1, 5, 10, 20).unwrap();
    m.bet(10, round, Side::Higher, 100, 0).unwrap();
    m.bet(10, round, Side::Lower, 50, 1).unwrap();
    let st = m.get_stake(10, round).unwrap();
    assert_eq!(st.amount, 150);
    assert_eq!(st.side, Side::Higher);
    let r = m.get_round(round).unwrap();
    assert_eq!(r.high_pool, 150);
    assert_eq!(r.low_pool, 0);
}

/// Round ids are sequential, the queries return the stored records, and a
/// stake query for an account that never bet returns `None` without failing.
#[test]
fn queries_reflect_state() {
    let mut m = KalePrediction::new();
    m.init(5, 6).unwrap();
    assert_eq!(m.get_admin(), 5);
    let first = m.start_round(5, 1, 2, 3).unwrap();
    let second = m.start_round(5, 9, 10, 30).unwrap();
    assert_eq!(first, 0);
    assert_eq!(second, 1);
    assert_eq!(m.get_round(2), Err(Error::RoundNotFound));
    let r = m.get_round(1).unwrap();
    assert_eq!(r.predicted_count, 9);
    assert_eq!(r.deadline_ledger, 10);
    assert_eq!(r.finality_ledger, 30);
    assert_eq!(r.high_pool, 0);
    assert_eq!(r.low_pool, 0);
    assert_eq!(r.outcome, Outcome::Pending);
    assert_eq!(m.get_stake(10, 1), None);
    m.bet(10, 1, Side::Lower, 8, 4).unwrap();
    assert_eq!(m.get_stake(10, 1).unwrap().amount, 8);
    assert_eq!(m.get_stake(10, 0), None);
}

/// The round-creation decision validates the window and builds the fresh
/// record with empty pools and a pending outcome.
#[test]
fn create_round_decision() {
    assert_eq!(kale_prediction::rules::create_round(7, 10, 10), Err(Error::InvalidWindow));
    let r = kale_prediction::rules::create_round(7, 10, 20).unwrap();
    assert_eq!(r.predicted_count, 7);
    assert_eq!(r.deadline_ledger, 10);
    assert_eq!(r.finality_ledger, 20);
    assert_eq!(r.high_pool, 0);
    assert_eq!(r.low_pool, 0);
    assert_eq!(r.outcome, Outcome::Pending);
}

/// A losing claim consumes the stake even though it pays nothing.
#[test]
fn losing_claim_consumes_stake() {
    let mut m = KalePrediction::new();
    m.init(1, 2).unwrap();
    let round = m.start_round(1, 100, 3, 6).unwrap();
    m.bet(10, round, Side::Lower, 60, 0).unwrap();
    m.bet(11, round, Side::Higher, 40, 0).unwrap();
    m.resolve_round(1, round, 200, 7).unwrap();
    assert_eq!(m.claim(10, round), Ok(0));
    assert_eq!(m.get_stake(10, round), None);
    assert_eq!(m.claim(10, round), Err(Error::AlreadyClaimed));
}
