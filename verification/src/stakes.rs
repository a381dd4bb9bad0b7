//! The stake table: one entry per (round, account) pair, holding that
//! account's accumulated stake in that round. `find_stake` is the lookup the
//! contracts speak of; the lemmas relate it to removal and insertion of
//! entries, which is how stakes are consumed and upserted.

use vstd::prelude::*;

use crate::model::Stake;

verus! {

/// One account's stake record within one round.
#[derive(Clone, Copy, PartialEq, Eq, Debug, Structural)]
pub struct StakeEntry {
    pub round_id: u32,
    pub account: u64,
    pub stake: Stake,
}

/// Whether `e` is the record of `account`'s stake in round `round_id`.
pub open spec fn entry_is(e: StakeEntry, round_id: u32, account: u64) -> bool {
    e.round_id == round_id && e.account == account
}

/// The stake record of `account` in round `round_id`, if any.
pub open spec fn find_stake(s: Seq<StakeEntry>, round_id: u32, account: u64) -> Option<Stake>
    decreases s.len(),
{
    if s.len() == 0 {
        None
    } else if entry_is(s[0], round_id, account) {
        Some(s[0].stake)
    } else {
        find_stake(s.drop_first(), round_id, account)
    }
}

/// At most one entry per (round, account) pair.
pub open spec fn unique_keys(s: Seq<StakeEntry>) -> bool {
    forall|i: int, j: int|
        0 <= i < j < s.len() ==> !(s[i].round_id == s[j].round_id && s[i].account == s[j].account)
}

/// A table with no entry for the pair finds nothing for it.
pub proof fn lemma_find_absent(s: Seq<StakeEntry>, round_id: u32, account: u64)
    requires
        forall|j: int| 0 <= j < s.len() ==> !entry_is(#[trigger] s[j], round_id, account),
    ensures
        find_stake(s, round_id, account) is None,
    decreases s.len(),
{
    if s.len() > 0 {
        lemma_find_absent(s.drop_first(), round_id, account);
    }
}

/// Skipping entries that do not belong to the pair does not change what is
/// found for it.
pub proof fn lemma_find_skip(s: Seq<StakeEntry>, i: int, round_id: u32, account: u64)
    requires
        0 <= i <= s.len(),
        forall|j: int| 0 <= j < i ==> !entry_is(#[trigger] s[j], round_id, account),
    ensures
        find_stake(s, round_id, account) == find_stake(s.skip(i), round_id, account),
    decreases i,
{
    if i == 0 {
        assert(s.skip(0) =~= s);
    } else {
        assert(forall|j: int| 0 <= j < i - 1 ==> s.drop_first()[j] == s[j + 1]);
        lemma_find_skip(s.drop_first(), i - 1, round_id, account);
        assert(s.drop_first().skip(i - 1) =~= s.skip(i));
        assert(find_stake(s, round_id, account) == find_stake(s.drop_first(), round_id, account));
    }
}

/// Removing an entry of another pair does not change what is found.
pub proof fn lemma_find_remove_other(s: Seq<StakeEntry>, i: int, round_id: u32, account: u64)
    requires
        0 <= i < s.len(),
        !entry_is(s[i], round_id, account),
    ensures
        find_stake(s.remove(i), round_id, account) == find_stake(s, round_id, account),
    decreases i,
{
    s.remove_ensures(i);
    if i == 0 {
        assert(s.remove(0) =~= s.drop_first());
    } else {
        assert(s.remove(i)[0] == s[0]);
        if entry_is(s[0], round_id, account) {
        } else {
            lemma_find_remove_other(s.drop_first(), i - 1, round_id, account);
            assert(s.remove(i).drop_first() =~= s.drop_first().remove(i - 1));
        }
    }
}

/// Removing the one entry of a pair leaves nothing to find for it.
pub proof fn lemma_find_remove_match(s: Seq<StakeEntry>, i: int)
    requires
        0 <= i < s.len(),
        forall|j: int|
            0 <= j < s.len() && j != i ==> !entry_is(#[trigger] s[j], s[i].round_id, s[i].account),
    ensures
        find_stake(s.remove(i), s[i].round_id, s[i].account) is None,
{
    s.remove_ensures(i);
    let t = s.remove(i);
    assert forall|j: int| 0 <= j < t.len() implies !entry_is(
        #[trigger] t[j],
        s[i].round_id,
        s[i].account,
    ) by {
        if j < i {
            assert(t[j] == s[j]);
        } else {
            assert(t[j] == s[j + 1]);
        }
    }
    lemma_find_absent(t, s[i].round_id, s[i].account);
}

/// Appending an entry changes what is found only for its own pair, and for
/// that pair only when it had no entry yet.
pub proof fn lemma_find_push(s: Seq<StakeEntry>, e: StakeEntry, round_id: u32, account: u64)
    ensures
        find_stake(s.push(e), round_id, account) == if find_stake(s, round_id, account) is Some {
            find_stake(s, round_id, account)
        } else if entry_is(e, round_id, account) {
            Some(e.stake)
        } else {
            None
        },
    decreases s.len(),
{
    if s.len() == 0 {
        assert(s.push(e)[0] == e);
        assert(find_stake(s, round_id, account) is None);
        if entry_is(e, round_id, account) {
            assert(find_stake(s.push(e), round_id, account) == Some(e.stake));
        } else {
            assert(s.push(e).drop_first() =~= Seq::<StakeEntry>::empty());
            assert(find_stake(Seq::<StakeEntry>::empty(), round_id, account) is None);
            assert(find_stake(s.push(e), round_id, account) is None);
        }
    } else {
        assert(s.push(e)[0] == s[0]);
        if entry_is(s[0], round_id, account) {
            assert(find_stake(s, round_id, account) == Some(s[0].stake));
            assert(find_stake(s.push(e), round_id, account) == Some(s[0].stake));
        } else {
            lemma_find_push(s.drop_first(), e, round_id, account);
            assert(s.push(e).drop_first() =~= s.drop_first().push(e));
            assert(find_stake(s.push(e), round_id, account) == find_stake(
                s.drop_first().push(e),
                round_id,
                account,
            ));
            assert(find_stake(s, round_id, account) == find_stake(
                s.drop_first(),
                round_id,
                account,
            ));
        }
    }
}

/// Find the index of the entry of `(round_id, account)`, if there is one.
pub fn find_stake_index(entries: &Vec<StakeEntry>, round_id: u32, account: u64) -> (res: Option<
    usize,
>)
    ensures
        match res {
            Some(i) => i < entries@.len() && entry_is(entries@[i as int], round_id, account)
                && find_stake(entries@, round_id, account) == Some(entries@[i as int].stake) && (
            forall|j: int| 0 <= j < i ==> !entry_is(#[trigger] entries@[j], round_id, account)),
            None => find_stake(entries@, round_id, account) is None && (forall|j: int|
                0 <= j < entries@.len() ==> !entry_is(#[trigger] entries@[j], round_id, account)),
        },
{
    let n = entries.len();
    let mut i: usize = 0;
    while i < n
        invariant
            i <= n,
            n == entries@.len(),
            forall|j: int| 0 <= j < i ==> !entry_is(#[trigger] entries@[j], round_id, account),
        decreases n - i,
    {
        let e = entries[i];
        if e.round_id == round_id && e.account == account {
            proof {
                lemma_find_skip(entries@, i as int, round_id, account);
                assert(entries@.skip(i as int)[0] == entries@[i as int]);
            }
            return Some(i);
        }
        i = i + 1;
    }
    proof {
        lemma_find_absent(entries@, round_id, account);
    }
    None
}

} // verus!
