//! The laws of the market, stated over the specification functions that the
//! operation contracts of [`crate::market`] and [`crate::rules`] speak of,
//! and proved once for all states and inputs.

use vstd::prelude::*;

use crate::model::bet_err;
use crate::model::bet_pools;
use crate::model::claim_result;
use crate::model::refund_result;
use crate::model::resolve_err;
use crate::model::resolved_round;
use crate::model::round_wf;
use crate::model::total_pool;
use crate::model::Error;
use crate::model::Round;
use crate::model::Side;
use crate::model::Stake;
use crate::model::MAX_TOTAL_POOL;

verus! {

/// Sum of the amounts of a sequence of bets, each a side and an amount.
pub open spec fn sum_amounts(bets: Seq<(Side, i128)>) -> int
    decreases bets.len(),
{
    if bets.len() == 0 {
        0
    } else {
        bets[0].1 + sum_amounts(bets.drop_first())
    }
}

/// The round after a sequence of bets is folded into its pools, each bet
/// exactly as a successful `bet` commits it.
pub open spec fn pools_after(r: Round, bets: Seq<(Side, i128)>) -> Round
    decreases bets.len(),
{
    if bets.len() == 0 {
        r
    } else {
        pools_after(bet_pools(r, bets[0].0, bets[0].1), bets.drop_first())
    }
}

proof fn lemma_sum_amounts_nonneg(bets: Seq<(Side, i128)>)
    requires
        forall|i: int| 0 <= i < bets.len() ==> 0 < (#[trigger] bets[i]).1,
    ensures
        sum_amounts(bets) >= 0,
    decreases bets.len(),
{
    if bets.len() > 0 {
        assert(forall|i: int|
            0 <= i < bets.drop_first().len() ==> #[trigger] bets.drop_first()[i] == bets[i + 1]);
        lemma_sum_amounts_nonneg(bets.drop_first());
    }
}

/// Pool conservation: folding any sequence of successful bets into a well
/// formed round grows `high_pool + low_pool` by exactly the sum of the bet
/// amounts — no stake is lost and none is minted. Each successful `bet`
/// performs exactly one `bet_pools` step, so this covers every sequence of
/// successful bets on a round.
pub proof fn lemma_pool_conservation(r: Round, bets: Seq<(Side, i128)>)
    requires
        round_wf(r),
        forall|i: int| 0 <= i < bets.len() ==> 0 < (#[trigger] bets[i]).1,
        total_pool(r) + sum_amounts(bets) <= MAX_TOTAL_POOL,
    ensures
        round_wf(pools_after(r, bets)),
        total_pool(pools_after(r, bets)) == total_pool(r) + sum_amounts(bets),
    decreases bets.len(),
{
    if bets.len() > 0 {
        let rest = bets.drop_first();
        assert(forall|i: int| 0 <= i < rest.len() ==> #[trigger] rest[i] == bets[i + 1]);
        lemma_sum_amounts_nonneg(rest);
        let r1 = bet_pools(r, bets[0].0, bets[0].1);
        assert(total_pool(r1) == total_pool(r) + bets[0].1 && round_wf(r1)) by {
            match bets[0].0 {
                Side::Higher => {},
                Side::Lower => {},
            }
        }
        lemma_pool_conservation(r1, rest);
    }
}

/// Sum of a sequence of integers.
pub open spec fn sum_ints(amts: Seq<int>) -> int
    decreases amts.len(),
{
    if amts.len() == 0 {
        0
    } else {
        amts[0] + sum_ints(amts.drop_first())
    }
}

/// Sum of the floor-division payouts `a * total / pool` of the stakes in
/// `amts` — the amount each winner's claim transfers.
pub open spec fn sum_payouts(amts: Seq<int>, total: int, pool: int) -> int
    decreases amts.len(),
{
    if amts.len() == 0 {
        0
    } else {
        amts[0] * total / pool + sum_payouts(amts.drop_first(), total, pool)
    }
}

proof fn lemma_len_le_sum(amts: Seq<int>)
    requires
        forall|i: int| 0 <= i < amts.len() ==> #[trigger] amts[i] >= 1,
    ensures
        sum_ints(amts) >= amts.len(),
    decreases amts.len(),
{
    if amts.len() > 0 {
        assert(forall|i: int|
            0 <= i < amts.drop_first().len() ==> #[trigger] amts.drop_first()[i] == amts[i + 1]);
        lemma_len_le_sum(amts.drop_first());
    }
}

proof fn lemma_payout_sum_bounds(amts: Seq<int>, total: int, pool: int)
    requires
        0 < pool,
        0 <= total,
        forall|i: int| 0 <= i < amts.len() ==> #[trigger] amts[i] >= 1,
    ensures
        pool * sum_payouts(amts, total, pool) <= total * sum_ints(amts),
        pool * sum_payouts(amts, total, pool) >= total * sum_ints(amts) - amts.len() * (pool - 1),
    decreases amts.len(),
{
    if amts.len() == 0 {
        assert(pool * 0 == 0) by (nonlinear_arith);
        assert(total * 0 == 0) by (nonlinear_arith);
    } else {
        let rest = amts.drop_first();
        assert(forall|i: int| 0 <= i < rest.len() ==> #[trigger] rest[i] == amts[i + 1]);
        lemma_payout_sum_bounds(rest, total, pool);
        let a = amts[0];
        let q = a * total / pool;
        let rem = (a * total) % pool;
        assert(0 <= a * total) by (nonlinear_arith)
            requires
                a >= 1 && total >= 0,
        ;
        vstd::arithmetic::div_mod::lemma_fundamental_div_mod(a * total, pool);
        vstd::arithmetic::div_mod::lemma_mod_bound(a * total, pool);
        assert(a * total == pool * q + rem);
        let s_rest = sum_payouts(rest, total, pool);
        let sum_rest = sum_ints(rest);
        assert(sum_payouts(amts, total, pool) == q + s_rest);
        assert(sum_ints(amts) == a + sum_rest);
        assert(pool * (q + s_rest) == pool * q + pool * s_rest) by (nonlinear_arith);
        assert(total * (a + sum_rest) == total * a + total * sum_rest) by (nonlinear_arith);
        assert(total * a == a * total) by (nonlinear_arith);
        assert((rest.len() + 1) * (pool - 1) == rest.len() * (pool - 1) + (pool - 1))
            by (nonlinear_arith);
        assert(amts.len() == rest.len() + 1);
    }
}

/// Payout conservation with bounded rounding: when every winning stake of a
/// resolved round is claimed, the winner payouts `a * total / pool` sum to at
/// most the whole pot `total`, and to at least `total - (pool - 1)`: floor
/// division leaves at most `pool - 1` minor units behind in custody. Here
/// `pool` is the winning side pool, the sum of the winning stakes.
pub proof fn lemma_payout_conservation(amts: Seq<int>, total: int, pool: int)
    requires
        0 < pool,
        pool <= total,
        forall|i: int| 0 <= i < amts.len() ==> #[trigger] amts[i] >= 1,
        sum_ints(amts) == pool,
    ensures
        sum_payouts(amts, total, pool) <= total,
        sum_payouts(amts, total, pool) >= total - (pool - 1),
{
    lemma_payout_sum_bounds(amts, total, pool);
    lemma_len_le_sum(amts);
    let s = sum_payouts(amts, total, pool);
    let n = amts.len() as int;
    assert(s <= total) by (nonlinear_arith)
        requires
            0 < pool && pool * s <= total * pool,
    ;
    assert(n * (pool - 1) <= pool * (pool - 1)) by (nonlinear_arith)
        requires
            0 <= n <= pool && 1 <= pool,
    ;
    assert(s >= total - (pool - 1)) by (nonlinear_arith)
        requires
            0 < pool && pool * s >= total * pool - pool * (pool - 1),
    ;
}

/// No double consumption: once a claim or a refund has succeeded the stake
/// record is gone, and against the same round the same account succeeds at
/// most once — a second call of the same operation, at the same or any later
/// tick, the clock being monotonic, fails with `AlreadyClaimed`, and the
/// other operation fails too, blocked by the round's resolution state.
pub proof fn lemma_no_double_consumption(r: Round, st: Option<Stake>, now1: u32, now2: u32)
    requires
        now1 <= now2,
    ensures
        claim_result(r, st) is Ok ==> claim_result(r, None::<Stake>) == Err::<i128, Error>(
            Error::AlreadyClaimed,
        ),
        refund_result(r, st, now1) is Ok ==> refund_result(r, None::<Stake>, now2) == Err::<
            i128,
            Error,
        >(Error::AlreadyClaimed),
        claim_result(r, st) is Ok ==> refund_result(r, None::<Stake>, now2) == Err::<i128, Error>(
            Error::AlreadyResolved,
        ),
        refund_result(r, st, now1) is Ok ==> claim_result(r, None::<Stake>) == Err::<i128, Error>(
            Error::NotResolved,
        ),
{
}

/// Mutual exclusivity: the moment a resolution succeeds, every refund against
/// the resolved round fails with `AlreadyResolved`, for every account and
/// every future tick; and no later operation can take the round out of the
/// resolved state — bets keep the outcome and a second resolution always
/// fails.
pub proof fn lemma_resolve_excludes_refund(r: Round, actual_count: u32, now: u32)
    requires
        resolve_err(r, now) is None,
    ensures
        forall|st: Option<Stake>, later: u32|
            refund_result(resolved_round(r, actual_count), st, later) == Err::<i128, Error>(
                Error::AlreadyResolved,
            ),
        forall|s: Side, amount: i128|
            (#[trigger] bet_pools(resolved_round(r, actual_count), s, amount)).outcome
                == resolved_round(r, actual_count).outcome,
        forall|later: u32| resolve_err(resolved_round(r, actual_count), later) is Some,
{
    assert forall|s: Side, amount: i128|
        (#[trigger] bet_pools(resolved_round(r, actual_count), s, amount)).outcome
            == resolved_round(r, actual_count).outcome by {
        match s {
            Side::Higher => {},
            Side::Lower => {},
        }
    }
}

/// Window enforcement: a positive bet strictly after the deadline fails with
/// `BettingClosed`, and a resolution strictly before the finality tick fails
/// with `TooEarly`, whatever else holds of the round.
pub proof fn lemma_window_enforcement(r: Round, amount: i128, now: u32)
    ensures
        amount > 0 && now > r.deadline_ledger ==> bet_err(r, amount, now) == Some(
            Error::BettingClosed,
        ),
        now < r.finality_ledger ==> resolve_err(r, now) == Some(Error::TooEarly),
{
}

} // verus!
