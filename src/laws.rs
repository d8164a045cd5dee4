//! Laws of the cache, stated over the value of a store and proved.
use crate::account::{delegated_voter, is_stake_account, is_vote_account, AccountView};
use crate::cache::{
    lemma_restake_delta, lemma_stored_consistent, prior_contribution, restaked,
    stake_table_after, stored, StakesView,
};
use crate::sums::{
    by_lamports, contribution, delegated_stake, lemma_sum_after_insert, lemma_sum_after_remove,
    total_lamports,
};
use solana_sdk::pubkey::Pubkey;
use vstd::prelude::*;

verus! {

/// The lamports that the stake table gains and loses when `a` is stored
/// under `key`.
pub proof fn lemma_total_after(stakes: Map<Pubkey, AccountView>, key: Pubkey, a: AccountView)
    requires
        stakes.dom().finite(),
    ensures
        total_lamports(stake_table_after(stakes, key, a)) + (if stakes.contains_key(key) {
            stakes[key].lamports as nat
        } else {
            0
        }) == total_lamports(stakes) + a.lamports,
{
    if a.lamports == 0 {
        lemma_sum_after_remove(stakes, key, by_lamports());
    } else {
        lemma_sum_after_insert(stakes, key, a, by_lamports());
    }
}

/// Storing a stake account keeps the vote identities that have an entry,
/// and moves each one's aggregate by what the old account under `key`
/// contributed to it and what `a` contributes.
pub proof fn lemma_stake_store(m: StakesView, key: Pubkey, a: AccountView)
    requires
        m.consistent(),
        is_stake_account(a),
        total_lamports(stake_table_after(m.stakes, key, a)) <= u64::MAX,
    ensures
        stored(m, key, a).votes.dom() == m.votes.dom(),
        forall|v: Pubkey| #[trigger]
            m.votes.contains_key(v) ==> stored(m, key, a).votes[v].0 + prior_contribution(
                m.stakes,
                key,
                v,
            ) == m.votes[v].0 + contribution(a, v),
{
    let r = stored(m, key, a);
    lemma_restake_delta(m.stakes, key, a);
    assert(r.votes.dom() =~= m.votes.dom());
    assert forall|v: Pubkey| #[trigger] m.votes.contains_key(v) implies r.votes[v].0
        + prior_contribution(m.stakes, key, v) == m.votes[v].0 + contribution(a, v) by {
        assert(delegated_stake(stake_table_after(m.stakes, key, a), v) <= u64::MAX);
    }
}

/// Storing the same account twice in a row under the same key leaves the
/// cache as storing it once did: the second store changes no aggregate.
pub proof fn lemma_store_idempotent(m: StakesView, key: Pubkey, a: AccountView)
    ensures
        stored(stored(m, key, a), key, a) == stored(m, key, a),
{
    let once = stored(m, key, a);
    let twice = stored(once, key, a);
    if is_vote_account(a) {
        if a.lamports == 0 {
            assert(twice.votes =~= once.votes);
        } else {
            assert(twice.votes =~= once.votes);
        }
    } else if is_stake_account(a) {
        let s2 = stake_table_after(m.stakes, key, a);
        assert(stake_table_after(s2, key, a) =~= s2);
        assert(restaked(restaked(m.votes, s2), s2) =~= restaked(m.votes, s2));
    }
}

/// A vote account stored with no lamports takes its identity's entry out
/// of the vote table.
pub proof fn lemma_empty_vote_account_removes(m: StakesView, key: Pubkey, a: AccountView)
    requires
        is_vote_account(a),
        a.lamports == 0,
    ensures
        !stored(m, key, a).votes.contains_key(key),
        stored(m, key, a).votes == m.votes.remove(key),
        stored(m, key, a).stakes == m.stakes,
{
}

/// A stake account stored with no lamports leaves the stake table, and
/// what it contributed is taken once from each aggregate.
pub proof fn lemma_empty_stake_account_removes(m: StakesView, key: Pubkey, a: AccountView)
    requires
        m.consistent(),
        is_stake_account(a),
        a.lamports == 0,
    ensures
        !stored(m, key, a).stakes.contains_key(key),
        stored(m, key, a).votes.dom() == m.votes.dom(),
        forall|v: Pubkey| #[trigger]
            m.votes.contains_key(v) ==> stored(m, key, a).votes[v].0 == m.votes[v].0
                - prior_contribution(m.stakes, key, v),
{
    lemma_total_after(m.stakes, key, a);
    lemma_stake_store(m, key, a);
    assert forall|v: Pubkey| #[trigger] m.votes.contains_key(v) implies stored(
        m,
        key,
        a,
    ).votes[v].0 == m.votes[v].0 - prior_contribution(m.stakes, key, v) by {
        assert(contribution(a, v) == 0);
    }
}

/// A vote account that goes to no lamports and comes back comes back with
/// the stake that still delegates to it, recomputed, not with nothing.
pub proof fn lemma_reappearance_recomputes(
    m: StakesView,
    key: Pubkey,
    gone: AccountView,
    back: AccountView,
)
    requires
        m.consistent(),
        is_vote_account(gone),
        gone.lamports == 0,
        is_vote_account(back),
        back.lamports > 0,
    ensures
        stored(stored(m, key, gone), key, back).votes.contains_key(key),
        stored(stored(m, key, gone), key, back).votes[key].0 == delegated_stake(m.stakes, key),
{
    lemma_stored_consistent(m, key, gone);
    lemma_stored_consistent(stored(m, key, gone), key, back);
    let twice = stored(stored(m, key, gone), key, back);
    assert(twice.votes.contains_key(key));
    assert(twice.stakes == m.stakes);
}

/// A stake account that moves its delegation from `from` to `to`, with its
/// lamports unchanged, moves all of them from the one aggregate to the
/// other; the two together keep their sum.
pub proof fn lemma_redelegation(
    m: StakesView,
    key: Pubkey,
    a: AccountView,
    from: Pubkey,
    to: Pubkey,
)
    requires
        m.consistent(),
        m.stakes.contains_key(key),
        delegated_voter(m.stakes[key].data) == Some(from),
        is_stake_account(a),
        delegated_voter(a.data) == Some(to),
        a.lamports == m.stakes[key].lamports,
        from != to,
        m.votes.contains_key(from),
        m.votes.contains_key(to),
    ensures
        stored(m, key, a).votes[from].0 == m.votes[from].0 - a.lamports,
        stored(m, key, a).votes[to].0 == m.votes[to].0 + a.lamports,
        stored(m, key, a).votes[from].0 + stored(m, key, a).votes[to].0 == m.votes[from].0
            + m.votes[to].0,
{
    lemma_total_after(m.stakes, key, a);
    lemma_stake_store(m, key, a);
    assert(prior_contribution(m.stakes, key, from) == a.lamports);
    assert(prior_contribution(m.stakes, key, to) == 0);
    assert(contribution(a, from) == 0);
    assert(contribution(a, to) == a.lamports);
}

/// Two new stake accounts that delegate to the same identity add both of
/// their lamports to its aggregate.
pub proof fn lemma_two_stakers_add_up(
    m: StakesView,
    k1: Pubkey,
    a1: AccountView,
    k2: Pubkey,
    a2: AccountView,
    voter: Pubkey,
)
    requires
        m.consistent(),
        k1 != k2,
        !m.stakes.contains_key(k1),
        !m.stakes.contains_key(k2),
        is_stake_account(a1),
        is_stake_account(a2),
        delegated_voter(a1.data) == Some(voter),
        delegated_voter(a2.data) == Some(voter),
        m.votes.contains_key(voter),
        total_lamports(m.stakes) + a1.lamports + a2.lamports <= u64::MAX,
    ensures
        stored(stored(m, k1, a1), k2, a2).votes[voter].0 == m.votes[voter].0 + a1.lamports
            + a2.lamports,
{
    let m1 = stored(m, k1, a1);
    lemma_total_after(m.stakes, k1, a1);
    lemma_stake_store(m, k1, a1);
    lemma_stored_consistent(m, k1, a1);
    assert(m1.votes.contains_key(voter));
    assert(!m1.stakes.contains_key(k2));
    lemma_total_after(m1.stakes, k2, a2);
    lemma_stake_store(m1, k2, a2);
}

/// A stake account rewritten under its key with data that delegates to no
/// one takes all it contributed away from the voter it delegated to.
pub proof fn lemma_undelegated_write_withdraws(
    m: StakesView,
    key: Pubkey,
    a: AccountView,
    voter: Pubkey,
)
    requires
        m.consistent(),
        m.stakes.contains_key(key),
        delegated_voter(m.stakes[key].data) == Some(voter),
        m.votes.contains_key(voter),
        is_stake_account(a),
        delegated_voter(a.data) is None,
        total_lamports(stored(m, key, a).stakes) <= u64::MAX,
    ensures
        stored(m, key, a).votes[voter].0 == m.votes[voter].0 - m.stakes[key].lamports,
{
    lemma_stake_store(m, key, a);
    assert(contribution(a, voter) == 0);
}

} // verus!
