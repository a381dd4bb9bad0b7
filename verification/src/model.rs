//! Data model of the market and the specification-level rules of one round:
//! when each operation is legal, which error it fails with otherwise, and how
//! a successful operation transforms the round and the caller's stake.

use vstd::prelude::*;

verus! {

/// Ledger ticks past `finality_ledger` that must elapse before refunds of an
/// unresolved round become available.
pub const GRACE_LEDGERS: u32 = 100;

/// Upper bound kept on `high_pool + low_pool` of every round, so that the
/// payout product `stake * total_pool` always fits in an `i128`.
pub const MAX_TOTAL_POOL: i128 = 0x7fff_ffff_ffff_ffff;

/// The two outcomes a bet can back.
#[derive(Clone, Copy, PartialEq, Eq, Debug, Structural)]
pub enum Side {
    Lower,
    Higher,
}

/// Resolution state of a round: outcome data exists only once the round has
/// been resolved, so it cannot be read while still pending.
#[derive(Clone, Copy, PartialEq, Eq, Debug, Structural)]
pub enum Outcome {
    Pending,
    Resolved { winning_side: Side, actual_count: u32 },
}

/// One market instance: the prediction parameters, the two side pools, and
/// the resolution state.
#[derive(Clone, Copy, PartialEq, Eq, Debug, Structural)]
pub struct Round {
    pub predicted_count: u32,
    /// Last tick at which bets are accepted (inclusive).
    pub deadline_ledger: u32,
    /// Earliest tick at which resolution is permitted.
    pub finality_ledger: u32,
    /// Cumulative amount ever wagered on `Higher`.
    pub high_pool: i128,
    /// Cumulative amount ever wagered on `Lower`.
    pub low_pool: i128,
    pub outcome: Outcome,
}

/// One account's accumulated wager within a round. The side is fixed at the
/// first bet; later bets accumulate under it.
#[derive(Clone, Copy, PartialEq, Eq, Debug, Structural)]
pub struct Stake {
    pub amount: i128,
    pub side: Side,
}

/// The closed set of failure conditions. Every operation either commits in
/// full or fails with one of these, leaving all state unchanged.
#[derive(Clone, Copy, PartialEq, Eq, Debug, Structural)]
pub enum Error {
    Unauthorized,
    AlreadyInitialised,
    RoundNotFound,
    BettingClosed,
    AlreadyResolved,
    TooEarly,
    NotResolved,
    AlreadyClaimed,
    RefundNotAvailable,
    ZeroAmount,
    InvalidWindow,
}

/// The pool of the given side.
pub open spec fn side_pool(r: Round, s: Side) -> int {
    match s {
        Side::Higher => r.high_pool as int,
        Side::Lower => r.low_pool as int,
    }
}

/// Combined pot of the round.
pub open spec fn total_pool(r: Round) -> int {
    r.high_pool + r.low_pool
}

/// Well-formedness of a round: non-negative pools, a bounded pot, and a
/// betting deadline that precedes the resolution window.
pub open spec fn round_wf(r: Round) -> bool {
    &&& 0 <= r.high_pool
    &&& 0 <= r.low_pool
    &&& total_pool(r) <= MAX_TOTAL_POOL
    &&& r.deadline_ledger < r.finality_ledger
}

/// A stake is consistent with its round: positive, and no larger than the
/// pool of its own side (the pool is the sum of all stakes ever placed on
/// that side, so each single stake is at most the pool).
pub open spec fn stake_ok(r: Round, st: Stake) -> bool {
    0 < st.amount && st.amount <= side_pool(r, st.side)
}

/// The winning side for an observation: `Higher` only when the actual count
/// strictly exceeds the prediction; ties resolve to `Lower` by policy.
pub open spec fn winner_of(predicted: u32, actual: u32) -> Side {
    if actual > predicted {
        Side::Higher
    } else {
        Side::Lower
    }
}

/// A newly created round: empty pools, pending outcome.
pub open spec fn fresh_round(predicted_count: u32, deadline_ledger: u32, finality_ledger: u32) -> Round {
    Round {
        predicted_count,
        deadline_ledger,
        finality_ledger,
        high_pool: 0,
        low_pool: 0,
        outcome: Outcome::Pending,
    }
}

/// The round after a successful resolution against `actual`.
pub open spec fn resolved_round(r: Round, actual: u32) -> Round {
    Round {
        outcome: Outcome::Resolved {
            winning_side: winner_of(r.predicted_count, actual),
            actual_count: actual,
        },
        ..r
    }
}

/// The side a bet accumulates under: the side of the existing stake if the
/// account already bet in this round, else the side requested now.
pub open spec fn effective_side(prev: Option<Stake>, side: Side) -> Side {
    match prev {
        Some(st) => st.side,
        None => side,
    }
}

/// The amount already staked, or zero for a first bet.
pub open spec fn prev_amount(prev: Option<Stake>) -> int {
    match prev {
        Some(st) => st.amount as int,
        None => 0,
    }
}

/// The stake record after a successful bet of `amount`.
pub open spec fn merged_stake(prev: Option<Stake>, side: Side, amount: i128) -> Stake {
    Stake { amount: (prev_amount(prev) + amount) as i128, side: effective_side(prev, side) }
}

/// The round after a successful bet of `amount` on side `s`.
pub open spec fn bet_pools(r: Round, s: Side, amount: i128) -> Round {
    match s {
        Side::Higher => Round { high_pool: (r.high_pool + amount) as i128, ..r },
        Side::Lower => Round { low_pool: (r.low_pool + amount) as i128, ..r },
    }
}

/// Why a bet on an existing round fails, if it does: a non-positive amount is
/// rejected first, then the betting window is enforced.
pub open spec fn bet_err(r: Round, amount: i128, now: u32) -> Option<Error> {
    if amount <= 0 {
        Some(Error::ZeroAmount)
    } else if now > r.deadline_ledger {
        Some(Error::BettingClosed)
    } else {
        None
    }
}

/// Why resolving an existing round fails, if it does: too early before the
/// finality tick, and never a second time.
pub open spec fn resolve_err(r: Round, now: u32) -> Option<Error> {
    if now < r.finality_ledger {
        Some(Error::TooEarly)
    } else if r.outcome is Resolved {
        Some(Error::AlreadyResolved)
    } else {
        None
    }
}

/// The payout a consumed stake earns in a resolved round: losers forfeit
/// (zero), winners get `stake * total_pool / winning_pool` in floor division.
pub open spec fn payout_value(st: Stake, r: Round, winning_side: Side) -> i128 {
    if st.side == winning_side {
        (st.amount * total_pool(r) / side_pool(r, winning_side)) as i128
    } else {
        0
    }
}

/// Result of a claim against an existing round, given the claimant's stake
/// record (`None` once consumed): claims are legal only after resolution, a
/// missing record means the stake was already consumed, and a losing claim
/// succeeds with no payout.
pub open spec fn claim_result(r: Round, st: Option<Stake>) -> Result<i128, Error> {
    match r.outcome {
        Outcome::Pending => Err(Error::NotResolved),
        Outcome::Resolved { winning_side, actual_count } => match st {
            None => Err(Error::AlreadyClaimed),
            Some(stake) => Ok(payout_value(stake, r, winning_side)),
        },
    }
}

/// Result of a refund against an existing round: refunds are the fallback
/// for rounds never resolved, open only after the grace period, and return
/// exactly the original stake.
pub open spec fn refund_result(r: Round, st: Option<Stake>, now: u32) -> Result<i128, Error> {
    if r.outcome is Resolved {
        Err(Error::AlreadyResolved)
    } else if now <= r.finality_ledger + GRACE_LEDGERS {
        Err(Error::RefundNotAvailable)
    } else {
        match st {
            None => Err(Error::AlreadyClaimed),
            Some(stake) => Ok(stake.amount),
        }
    }
}

} // verus!
