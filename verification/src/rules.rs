//! Executable per-round decisions: given a round, the caller's stake record
//! and the current tick, each function either reports the exact error the
//! operation fails with or returns the updated record and the amount the
//! custody collaborator must move. Each is proved against the corresponding
//! specification function of [`crate::model`].

use vstd::prelude::*;

use crate::model::bet_err;
use crate::model::bet_pools;
use crate::model::claim_result;
use crate::model::effective_side;
use crate::model::fresh_round;
use crate::model::merged_stake;
use crate::model::payout_value;
use crate::model::refund_result;
use crate::model::resolve_err;
use crate::model::resolved_round;
use crate::model::round_wf;
use crate::model::side_pool;
use crate::model::stake_ok;
use crate::model::total_pool;
use crate::model::Error;
use crate::model::Outcome;
use crate::model::Round;
use crate::model::Side;
use crate::model::Stake;
use crate::model::GRACE_LEDGERS;
use crate::model::MAX_TOTAL_POOL;

verus! {

/// Validate the betting window and create a fresh round record: empty pools,
/// pending outcome, and a betting deadline strictly before the finality tick.
pub fn create_round(predicted_count: u32, deadline_ledger: u32, finality_ledger: u32) -> (res:
    Result<Round, Error>)
    ensures
        deadline_ledger >= finality_ledger ==> res == Err::<Round, Error>(Error::InvalidWindow),
        deadline_ledger < finality_ledger ==> res == Ok::<Round, Error>(
            fresh_round(predicted_count, deadline_ledger, finality_ledger),
        ) && round_wf(fresh_round(predicted_count, deadline_ledger, finality_ledger)),
{
    if deadline_ledger >= finality_ledger {
        return Err(Error::InvalidWindow);
    }
    Ok(
        Round {
            predicted_count,
            deadline_ledger,
            finality_ledger,
            high_pool: 0,
            low_pool: 0,
            outcome: Outcome::Pending,
        },
    )
}

/// Validate a bet of `amount` on `side` at tick `now` against round `r` and
/// the bettor's previous stake, and on success return the round with the pool
/// of the effective side grown by `amount`, together with the upserted stake
/// record. The caller commits both records only after the custody transfer of
/// `amount` into the contract has succeeded.
pub fn apply_bet(r: &Round, prev: Option<Stake>, side: Side, amount: i128, now: u32) -> (res: Result<
    (Round, Stake),
    Error,
>)
    requires
        round_wf(*r),
        prev matches Some(st) ==> stake_ok(*r, st),
        amount > 0 ==> total_pool(*r) + amount <= MAX_TOTAL_POOL,
    ensures
        match bet_err(*r, amount, now) {
            Some(e) => res == Err::<(Round, Stake), Error>(e),
            None => res == Ok::<(Round, Stake), Error>(
                (
                    bet_pools(*r, effective_side(prev, side), amount),
                    merged_stake(prev, side, amount),
                ),
            ),
        },
        res matches Ok(rs) ==> round_wf(rs.0) && stake_ok(rs.0, rs.1) && total_pool(rs.0)
            == total_pool(*r) + amount,
{
    if amount <= 0 {
        return Err(Error::ZeroAmount);
    }
    if now > r.deadline_ledger {
        return Err(Error::BettingClosed);
    }
    let eff = match prev {
        Some(st) => st.side,
        None => side,
    };
    let prior: i128 = match prev {
        Some(st) => st.amount,
        None => 0,
    };
    let updated = match eff {
        Side::Higher => (Round { high_pool: r.high_pool + amount, ..*r }),
        Side::Lower => (Round { low_pool: r.low_pool + amount, ..*r }),
    };
    let stake = Stake { amount: prior + amount, side: eff };
    Ok((updated, stake))
}

/// Resolve round `r` against the observed `actual_count` at tick `now`. On
/// success the outcome becomes `Resolved` with the winning side fixed by the
/// tie-to-`Lower` policy; resolution is refused before the finality tick and
/// refused forever once done.
pub fn apply_resolve(r: &Round, actual_count: u32, now: u32) -> (res: Result<Round, Error>)
    ensures
        match resolve_err(*r, now) {
            Some(e) => res == Err::<Round, Error>(e),
            None => res == Ok::<Round, Error>(resolved_round(*r, actual_count)),
        },
        res matches Ok(r2) ==> r2.outcome is Resolved && r2.high_pool == r.high_pool && r2.low_pool
            == r.low_pool && r2.deadline_ledger == r.deadline_ledger && r2.finality_ledger
            == r.finality_ledger,
{
    if now < r.finality_ledger {
        return Err(Error::TooEarly);
    }
    match r.outcome {
        Outcome::Resolved { .. } => Err(Error::AlreadyResolved),
        Outcome::Pending => {
            let winning_side = if actual_count > r.predicted_count {
                Side::Higher
            } else {
                Side::Lower
            };
            Ok(Round { outcome: Outcome::Resolved { winning_side, actual_count }, ..*r })
        },
    }
}

/// Settle a claim against round `r` for a caller whose stake record is `st`
/// (`None` once the record was consumed). On success the caller must delete
/// the stake record before transferring the returned payout: a losing stake
/// earns zero, a winning stake earns `stake * total_pool / winning_pool` in
/// floor division, never more than the whole pot.
pub fn claim_payout(r: &Round, st: Option<Stake>) -> (res: Result<i128, Error>)
    requires
        round_wf(*r),
        st matches Some(s) ==> stake_ok(*r, s),
    ensures
        res == claim_result(*r, st),
        res matches Ok(p) ==> 0 <= p && p <= total_pool(*r),
{
    let winning_side = match r.outcome {
        Outcome::Pending => {
            return Err(Error::NotResolved);
        },
        Outcome::Resolved { winning_side, .. } => winning_side,
    };
    let stake = match st {
        None => {
            return Err(Error::AlreadyClaimed);
        },
        Some(s) => s,
    };
    if stake.side != winning_side {
        assert(payout_value(stake, *r, winning_side) == 0);
        return Ok(0);
    }
    let pool: i128 = match winning_side {
        Side::Higher => r.high_pool,
        Side::Lower => r.low_pool,
    };
    let total: i128 = r.high_pool + r.low_pool;
    proof {
        assert(1 <= stake.amount && stake.amount <= pool && pool <= total && total
            <= MAX_TOTAL_POOL);
        assert(stake.amount * total <= MAX_TOTAL_POOL * MAX_TOTAL_POOL && 0 <= stake.amount
            * total) by (nonlinear_arith)
            requires
                1 <= stake.amount && stake.amount <= pool && pool <= total && total
                    <= MAX_TOTAL_POOL,
        ;
        assert(stake.amount * total <= pool * total) by (nonlinear_arith)
            requires
                1 <= stake.amount && stake.amount <= pool && 0 <= total,
        ;
        vstd::arithmetic::div_mod::lemma_div_pos_is_pos(stake.amount * total, pool as int);
        vstd::arithmetic::div_mod::lemma_div_is_ordered(
            stake.amount * total,
            pool * total,
            pool as int,
        );
        vstd::arithmetic::div_mod::lemma_div_multiples_vanish(total as int, pool as int);
    }
    let payout = stake.amount * total / pool;
    Ok(payout)
}

/// Decide a refund against round `r` for a caller whose stake record is `st`
/// at tick `now`. On success the caller must delete the stake record before
/// transferring back the returned amount, which is exactly the original
/// stake.
pub fn refund_payout(r: &Round, st: Option<Stake>, now: u32) -> (res: Result<i128, Error>)
    ensures
        res == refund_result(*r, st, now),
{
    match r.outcome {
        Outcome::Resolved { .. } => {
            return Err(Error::AlreadyResolved);
        },
        Outcome::Pending => {},
    }
    if (now as u64) <= (r.finality_ledger as u64) + (GRACE_LEDGERS as u64) {
        return Err(Error::RefundNotAvailable);
    }
    match st {
        None => Err(Error::AlreadyClaimed),
        Some(stake) => Ok(stake.amount),
    }
}

} // verus!
