//! The market itself: the configuration record, every round, and the stake
//! table, together with the state-changing operations and the read-only
//! queries. Each operation validates before it mutates, so a failing call
//! leaves the state exactly as it was.

use vstd::prelude::*;

use crate::model::bet_pools;
use crate::model::claim_result;
use crate::model::effective_side;
use crate::model::fresh_round;
use crate::model::merged_stake;
use crate::model::refund_result;
use crate::model::resolve_err;
use crate::model::resolved_round;
use crate::model::round_wf;
use crate::model::side_pool;
use crate::model::total_pool;
use crate::model::Error;
use crate::model::Round;
use crate::model::Side;
use crate::model::Stake;
use crate::model::MAX_TOTAL_POOL;
use crate::rules::apply_bet;
use crate::rules::apply_resolve;
use crate::rules::claim_payout;
use crate::rules::refund_payout;
use crate::stakes::entry_is;
use crate::stakes::find_stake;
use crate::stakes::find_stake_index;
use crate::stakes::lemma_find_push;
use crate::stakes::lemma_find_remove_match;
use crate::stakes::lemma_find_remove_other;
use crate::stakes::unique_keys;
use crate::stakes::StakeEntry;

verus! {

/// A stake-table entry is consistent with the rounds it points into.
pub open spec fn entry_ok(e: StakeEntry, rounds: Seq<Round>) -> bool {
    &&& (e.round_id as int) < rounds.len()
    &&& 0 < e.stake.amount
    &&& e.stake.amount <= side_pool(rounds[e.round_id as int], e.stake.side)
}

/// Every entry of the stake table is consistent with the rounds.
pub open spec fn entries_ok(s: Seq<StakeEntry>, rounds: Seq<Round>) -> bool {
    forall|j: int| 0 <= j < s.len() ==> entry_ok(#[trigger] s[j], rounds)
}

/// The whole market state. Accounts are the plain identifiers the external
/// authentication collaborator vouches for; the clock tick of each time-gated
/// operation is read from the external clock by the caller and passed in.
pub struct KalePrediction {
    pub admin: u64,
    pub token: u64,
    pub initialized: bool,
    pub rounds: Vec<Round>,
    pub stakes: Vec<StakeEntry>,
}

impl KalePrediction {
    /// Invariant of the market: round ids fit the id type, every round is
    /// well formed, the stake table has one entry per (round, account), and
    /// every stake is consistent with its round.
    pub open spec fn wf(&self) -> bool {
        &&& self.rounds@.len() <= u32::MAX as int
        &&& (forall|i: int| 0 <= i < self.rounds@.len() ==> round_wf(#[trigger] self.rounds@[i]))
        &&& unique_keys(self.stakes@)
        &&& entries_ok(self.stakes@, self.rounds@)
    }

    /// Number of rounds created so far; also the next round id.
    pub open spec fn num_rounds(&self) -> int {
        self.rounds@.len() as int
    }

    pub open spec fn has_round(&self, round_id: u32) -> bool {
        (round_id as int) < self.num_rounds()
    }

    pub open spec fn spec_round(&self, round_id: u32) -> Round {
        self.rounds@[round_id as int]
    }

    /// The live stake record of `account` in `round_id`, `None` before the
    /// first bet and again once the record has been consumed.
    pub open spec fn spec_stake(&self, round_id: u32, account: u64) -> Option<Stake> {
        find_stake(self.stakes@, round_id, account)
    }

    /// The configuration record is untouched.
    pub open spec fn config_eq(&self, other: &Self) -> bool {
        self.admin == other.admin && self.token == other.token && self.initialized
            == other.initialized
    }

    /// An empty, not yet configured market.
    pub fn new() -> (s: Self)
        ensures
            s.wf(),
            !s.initialized,
            s.num_rounds() == 0,
            s.stakes@.len() == 0,
    {
        KalePrediction {
            admin: 0,
            token: 0,
            initialized: false,
            rounds: Vec::new(),
            stakes: Vec::new(),
        }
    }

    /// Configure the administrative identity and the wagering token, exactly
    /// once: re-configuration is rejected and changes nothing.
    pub fn init(&mut self, admin: u64, token: u64) -> (res: Result<(), Error>)
        ensures
            old(self).initialized ==> res == Err::<(), Error>(Error::AlreadyInitialised) && *final(self) == *old(self),
            !old(self).initialized ==> res == Ok::<(), Error>(()) && final(self).initialized
                && final(self).admin == admin && final(self).token == token && final(self).rounds@
                == old(self).rounds@ && final(self).stakes@ == old(self).stakes@,
            old(self).wf() ==> final(self).wf(),
    {
        if self.initialized {
            return Err(Error::AlreadyInitialised);
        }
        self.admin = admin;
        self.token = token;
        self.initialized = true;
        Ok(())
    }

    /// Start a new round: admin only, and the betting deadline must strictly
    /// precede the finality tick. On success the fresh round is appended
    /// under the next sequential id, with empty pools and a pending outcome.
    pub fn start_round(
        &mut self,
        requestor: u64,
        predicted_count: u32,
        deadline_ledger: u32,
        finality_ledger: u32,
    ) -> (res: Result<u32, Error>)
        requires
            old(self).wf(),
            old(self).initialized,
            old(self).num_rounds() < u32::MAX as int,
        ensures
            final(self).wf(),
            final(self).config_eq(old(self)),
            final(self).stakes@ == old(self).stakes@,
            requestor != old(self).admin ==> res == Err::<u32, Error>(Error::Unauthorized) && *final(self) == *old(self),
            requestor == old(self).admin && deadline_ledger >= finality_ledger ==> res == Err::<
                u32,
                Error,
            >(Error::InvalidWindow) && *final(self) == *old(self),
            requestor == old(self).admin && deadline_ledger < finality_ledger ==> res == Ok::<
                u32,
                Error,
            >(old(self).num_rounds() as u32) && final(self).rounds@ == old(self).rounds@.push(
                fresh_round(predicted_count, deadline_ledger, finality_ledger),
            ),
    {
        if requestor != self.admin {
            return Err(Error::Unauthorized);
        }
        if deadline_ledger >= finality_ledger {
            return Err(Error::InvalidWindow);
        }
        let round_id = self.rounds.len() as u32;
        self.rounds.push(
            Round {
                predicted_count,
                deadline_ledger,
                finality_ledger,
                high_pool: 0,
                low_pool: 0,
                outcome: crate::model::Outcome::Pending,
            },
        );
        proof {
            assert(self.rounds@[old(self).num_rounds()] == fresh_round(
                predicted_count,
                deadline_ledger,
                finality_ledger,
            ));
            assert forall|j: int| 0 <= j < self.stakes@.len() implies entry_ok(
                #[trigger] self.stakes@[j],
                self.rounds@,
            ) by {
                assert(entry_ok(self.stakes@[j], old(self).rounds@));
                assert(self.rounds@[self.stakes@[j].round_id as int] == old(self).rounds@[self.stakes@[j].round_id as int]);
            }
        }
        Ok(round_id)
    }

    /// Place a bet of `amount` on `side` in round `round_id` at tick `now`.
    /// The caller performs the custody transfer of `amount` into the contract
    /// before committing this mutation; a failing call commits nothing. The
    /// amount accumulates under the side fixed by the account's first bet.
    pub fn bet(&mut self, player: u64, round_id: u32, side: Side, amount: i128, now: u32) -> (res:
        Result<(), Error>)
        requires
            old(self).wf(),
            // machine limit: the pot of a round is kept below MAX_TOTAL_POOL
            // so the payout product always fits the i128 arithmetic
            old(self).has_round(round_id) && amount > 0 ==> total_pool(
                old(self).spec_round(round_id),
            ) + amount <= MAX_TOTAL_POOL,
        ensures
            final(self).wf(),
            final(self).config_eq(old(self)),
            final(self).num_rounds() == old(self).num_rounds(),
            amount <= 0 ==> res == Err::<(), Error>(Error::ZeroAmount) && *final(self) == *old(self),
            amount > 0 && !old(self).has_round(round_id) ==> res == Err::<(), Error>(
                Error::RoundNotFound,
            ) && *final(self) == *old(self),
            amount > 0 && old(self).has_round(round_id) && now > old(self).spec_round(
                round_id,
            ).deadline_ledger ==> res == Err::<(), Error>(Error::BettingClosed) && *final(self)
                == *old(self),
            amount > 0 && old(self).has_round(round_id) && now <= old(self).spec_round(
                round_id,
            ).deadline_ledger ==> res == Ok::<(), Error>(()) && final(self).spec_round(round_id)
                == bet_pools(
                old(self).spec_round(round_id),
                effective_side(old(self).spec_stake(round_id, player), side),
                amount,
            ) && final(self).spec_stake(round_id, player) == Some(
                merged_stake(old(self).spec_stake(round_id, player), side, amount),
            ) && total_pool(final(self).spec_round(round_id)) == total_pool(
                old(self).spec_round(round_id),
            ) + amount && (forall|rid: u32|
                rid != round_id && old(self).has_round(rid) ==> final(self).spec_round(rid) == old(self).spec_round(rid)) && (forall|rid: u32, acct: u64|
                !(rid == round_id && acct == player) ==> final(self).spec_stake(rid, acct) == old(self).spec_stake(rid, acct)),
    {
        if amount <= 0 {
            return Err(Error::ZeroAmount);
        }
        let rid = round_id as usize;
        if rid >= self.rounds.len() {
            return Err(Error::RoundNotFound);
        }
        let r = self.rounds[rid];
        if now > r.deadline_ledger {
            return Err(Error::BettingClosed);
        }
        let prev_idx = find_stake_index(&self.stakes, round_id, player);
        let prev: Option<Stake> = match prev_idx {
            Some(i) => Some(self.stakes[i].stake),
            None => None,
        };
        let (new_round, new_stake) = match apply_bet(&r, prev, side, amount, now) {
            Ok(p) => p,
            Err(e) => {
                proof {
                    assert(false);
                }
                return Err(e);
            },
        };
        let ghost e0 = self.stakes@;
        match prev_idx {
            Some(i) => {
                self.stakes.remove(i);
            },
            None => {},
        }
        let ghost e1 = self.stakes@;
        proof {
            // after the removal no entry of (round_id, player) is left, and
            // the table is still unique and consistent with the old rounds
            assert forall|j: int| 0 <= j < e1.len() implies !entry_is(
                #[trigger] e1[j],
                round_id,
                player,
            ) && entry_ok(e1[j], old(self).rounds@) by {
                match prev_idx {
                    Some(i) => {
                        e0.remove_ensures(i as int);
                        if j < i {
                            assert(e1[j] == e0[j]);
                        } else {
                            assert(e1[j] == e0[j + 1]);
                        }
                    },
                    None => {},
                }
            }
            assert forall|a: int, b: int| 0 <= a < b < e1.len() implies !(e1[a].round_id
                == e1[b].round_id && e1[a].account == e1[b].account) by {
                match prev_idx {
                    Some(i) => {
                        e0.remove_ensures(i as int);
                        let a0: int = if a < i { a } else { a + 1 };
                        let b0: int = if b < i { b } else { b + 1 };
                        assert(e1[a] == e0[a0]);
                        assert(e1[b] == e0[b0]);
                    },
                    None => {},
                }
            }
        }
        self.stakes.push(StakeEntry { round_id, account: player, stake: new_stake });
        self.rounds.set(rid, new_round);
        proof {
            let e2 = self.stakes@;
            let entry = StakeEntry { round_id, account: player, stake: new_stake };
            // the bettor's record is the merged stake
            crate::stakes::lemma_find_absent(e1, round_id, player);
            lemma_find_push(e1, entry, round_id, player);
            // every other record is untouched
            assert forall|rid2: u32, acct: u64| !(rid2 == round_id && acct == player) implies
                find_stake(e2, rid2, acct) == find_stake(e0, rid2, acct) by {
                match prev_idx {
                    Some(i) => {
                        lemma_find_remove_other(e0, i as int, rid2, acct);
                    },
                    None => {},
                }
                lemma_find_push(e1, entry, rid2, acct);
            }
            // pools only grow, so every entry stays within its side pool
            assert(side_pool(new_round, Side::Higher) >= side_pool(r, Side::Higher));
            assert(side_pool(new_round, Side::Lower) >= side_pool(r, Side::Lower));
            assert forall|j: int| 0 <= j < e2.len() implies entry_ok(
                #[trigger] e2[j],
                self.rounds@,
            ) by {
                if j < e1.len() {
                    assert(e2[j] == e1[j]);
                    assert(entry_ok(e1[j], old(self).rounds@));
                    if e1[j].round_id == round_id {
                        assert(self.rounds@[round_id as int] == new_round);
                        match e1[j].stake.side {
                            Side::Higher => {},
                            Side::Lower => {},
                        }
                    } else {
                        assert(self.rounds@[e1[j].round_id as int] == old(self).rounds@[e1[j].round_id as int]);
                    }
                } else {
                    assert(e2[j] == entry);
                }
            }
        }
        Ok(())
    }

    /// Record the outcome of round `round_id` from the observed
    /// `actual_count` at tick `now`: admin only, not before the finality
    /// tick, and at most once; pools and stakes are untouched.
    pub fn resolve_round(
        &mut self,
        requestor: u64,
        round_id: u32,
        actual_count: u32,
        now: u32,
    ) -> (res: Result<(), Error>)
        requires
            old(self).wf(),
            old(self).initialized,
        ensures
            final(self).wf(),
            final(self).config_eq(old(self)),
            final(self).num_rounds() == old(self).num_rounds(),
            final(self).stakes@ == old(self).stakes@,
            requestor != old(self).admin ==> res == Err::<(), Error>(Error::Unauthorized) && *final(self) == *old(self),
            requestor == old(self).admin && !old(self).has_round(round_id) ==> res == Err::<
                (),
                Error,
            >(Error::RoundNotFound) && *final(self) == *old(self),
            requestor == old(self).admin && old(self).has_round(round_id) ==> match resolve_err(
                old(self).spec_round(round_id),
                now,
            ) {
                Some(e) => res == Err::<(), Error>(e) && *final(self) == *old(self),
                None => res == Ok::<(), Error>(()) && final(self).spec_round(round_id)
                    == resolved_round(old(self).spec_round(round_id), actual_count) && (forall|
                    rid: u32,
                |
                    rid != round_id && old(self).has_round(rid) ==> final(self).spec_round(rid)
                        == old(self).spec_round(rid)),
            },
    {
        if requestor != self.admin {
            return Err(Error::Unauthorized);
        }
        let rid = round_id as usize;
        if rid >= self.rounds.len() {
            return Err(Error::RoundNotFound);
        }
        let r = self.rounds[rid];
        let new_round = match apply_resolve(&r, actual_count, now) {
            Ok(r2) => r2,
            Err(e) => {
                return Err(e);
            },
        };
        self.rounds.set(rid, new_round);
        proof {
            assert(round_wf(new_round));
            assert forall|j: int| 0 <= j < self.stakes@.len() implies entry_ok(
                #[trigger] self.stakes@[j],
                self.rounds@,
            ) by {
                assert(entry_ok(self.stakes@[j], old(self).rounds@));
                if self.stakes@[j].round_id == round_id {
                    match self.stakes@[j].stake.side {
                        Side::Higher => {},
                        Side::Lower => {},
                    }
                } else {
                    assert(self.rounds@[self.stakes@[j].round_id as int] == old(self).rounds@[self.stakes@[j].round_id as int]);
                }
            }
        }
        Ok(())
    }

    /// Consume the caller's stake in a resolved round: the record is deleted
    /// before any transfer, a losing stake earns zero, a winning stake earns
    /// its proportional share of the whole pot. The caller transfers the
    /// returned payout out of custody after this call commits.
    pub fn claim(&mut self, player: u64, round_id: u32) -> (res: Result<i128, Error>)
        requires
            old(self).wf(),
        ensures
            final(self).wf(),
            final(self).config_eq(old(self)),
            final(self).rounds@ == old(self).rounds@,
            !old(self).has_round(round_id) ==> res == Err::<i128, Error>(Error::RoundNotFound)
                && *final(self) == *old(self),
            old(self).has_round(round_id) ==> res == claim_result(
                old(self).spec_round(round_id),
                old(self).spec_stake(round_id, player),
            ),
            res is Err ==> *final(self) == *old(self),
            res is Ok ==> final(self).spec_stake(round_id, player) is None && (forall|
                rid: u32,
                acct: u64,
            |
                !(rid == round_id && acct == player) ==> final(self).spec_stake(rid, acct) == old(self).spec_stake(rid, acct)),
            res matches Ok(p) ==> 0 <= p && p <= total_pool(old(self).spec_round(round_id)),
    {
        let rid = round_id as usize;
        if rid >= self.rounds.len() {
            return Err(Error::RoundNotFound);
        }
        let r = self.rounds[rid];
        let prev_idx = find_stake_index(&self.stakes, round_id, player);
        let st: Option<Stake> = match prev_idx {
            Some(i) => Some(self.stakes[i].stake),
            None => None,
        };
        let payout = match claim_payout(&r, st) {
            Ok(p) => p,
            Err(e) => {
                return Err(e);
            },
        };
        let i = match prev_idx {
            Some(i) => i,
            None => {
                proof {
                    assert(false);
                }
                return Err(Error::AlreadyClaimed);
            },
        };
        let ghost e0 = self.stakes@;
        self.stakes.remove(i);
        proof {
            self.consume_entry_facts(e0, i as int, round_id, player);
        }
        Ok(payout)
    }

    /// Return the caller's original stake from a round that was never
    /// resolved, once the grace period after the finality tick has elapsed.
    /// The record is deleted before the transfer; the caller transfers the
    /// returned amount out of custody after this call commits.
    pub fn refund(&mut self, player: u64, round_id: u32, now: u32) -> (res: Result<i128, Error>)
        requires
            old(self).wf(),
        ensures
            final(self).wf(),
            final(self).config_eq(old(self)),
            final(self).rounds@ == old(self).rounds@,
            !old(self).has_round(round_id) ==> res == Err::<i128, Error>(Error::RoundNotFound)
                && *final(self) == *old(self),
            old(self).has_round(round_id) ==> res == refund_result(
                old(self).spec_round(round_id),
                old(self).spec_stake(round_id, player),
                now,
            ),
            res is Err ==> *final(self) == *old(self),
            res is Ok ==> final(self).spec_stake(round_id, player) is None && (forall|
                rid: u32,
                acct: u64,
            |
                !(rid == round_id && acct == player) ==> final(self).spec_stake(rid, acct) == old(self).spec_stake(rid, acct)),
    {
        let rid = round_id as usize;
        if rid >= self.rounds.len() {
            return Err(Error::RoundNotFound);
        }
        let r = self.rounds[rid];
        let prev_idx = find_stake_index(&self.stakes, round_id, player);
        let st: Option<Stake> = match prev_idx {
            Some(i) => Some(self.stakes[i].stake),
            None => None,
        };
        let amount = match refund_payout(&r, st, now) {
            Ok(a) => a,
            Err(e) => {
                return Err(e);
            },
        };
        let i = match prev_idx {
            Some(i) => i,
            None => {
                proof {
                    assert(false);
                }
                return Err(Error::AlreadyClaimed);
            },
        };
        let ghost e0 = self.stakes@;
        self.stakes.remove(i);
        proof {
            self.consume_entry_facts(e0, i as int, round_id, player);
        }
        Ok(amount)
    }

    /// After removing the entry of `(round_id, account)` at index `i` from a
    /// unique, consistent table, the pair finds nothing, every other pair is
    /// untouched, and the table is still unique and consistent.
    proof fn consume_entry_facts(&self, e0: Seq<StakeEntry>, i: int, round_id: u32, account: u64)
        requires
            unique_keys(e0),
            entries_ok(e0, self.rounds@),
            0 <= i < e0.len(),
            entry_is(e0[i], round_id, account),
            self.stakes@ == e0.remove(i),
        ensures
            find_stake(self.stakes@, round_id, account) is None,
            forall|rid: u32, acct: u64|
                !(rid == round_id && acct == account) ==> find_stake(self.stakes@, rid, acct)
                    == find_stake(e0, rid, acct),
            unique_keys(self.stakes@),
            entries_ok(self.stakes@, self.rounds@),
    {
        e0.remove_ensures(i);
        let e1 = self.stakes@;
        assert forall|j: int| 0 <= j < e0.len() && j != i implies !entry_is(
            #[trigger] e0[j],
            round_id,
            account,
        ) by {}
        lemma_find_remove_match(e0, i);
        assert forall|rid: u32, acct: u64| !(rid == round_id && acct == account) implies find_stake(
            e1,
            rid,
            acct,
        ) == find_stake(e0, rid, acct) by {
            lemma_find_remove_other(e0, i, rid, acct);
        }
        assert forall|a: int, b: int| 0 <= a < b < e1.len() implies !(e1[a].round_id
            == e1[b].round_id && e1[a].account == e1[b].account) by {
            let a0: int = if a < i {
                a
            } else {
                a + 1
            };
            let b0: int = if b < i {
                b
            } else {
                b + 1
            };
            assert(e1[a] == e0[a0]);
            assert(e1[b] == e0[b0]);
        }
        assert forall|j: int| 0 <= j < e1.len() implies entry_ok(
            #[trigger] e1[j],
            self.rounds@,
        ) by {
            if j < i {
                assert(e1[j] == e0[j]);
            } else {
                assert(e1[j] == e0[j + 1]);
            }
        }
    }

    /// The configured administrative identity.
    pub fn get_admin(&self) -> (a: u64)
        requires
            self.initialized,
        ensures
            a == self.admin,
    {
        self.admin
    }

    /// The full round record, or `RoundNotFound`.
    pub fn get_round(&self, round_id: u32) -> (res: Result<Round, Error>)
        ensures
            self.has_round(round_id) ==> res == Ok::<Round, Error>(self.spec_round(round_id)),
            !self.has_round(round_id) ==> res == Err::<Round, Error>(Error::RoundNotFound),
    {
        let rid = round_id as usize;
        if rid < self.rounds.len() {
            Ok(self.rounds[rid])
        } else {
            Err(Error::RoundNotFound)
        }
    }

    /// The caller's live stake in a round, or `None` if they never bet or it
    /// was already consumed. Unlike claim and refund, this query never fails.
    pub fn get_stake(&self, player: u64, round_id: u32) -> (res: Option<Stake>)
        ensures
            res == self.spec_stake(round_id, player),
    {
        match find_stake_index(&self.stakes, round_id, player) {
            Some(i) => Some(self.stakes[i].stake),
            None => None,
        }
    }
}

} // verus!
