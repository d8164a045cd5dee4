//! Sums over a stake table: how many lamports delegate to a vote identity,
//! and how many lamports the table holds in all.
use crate::account::{delegated_voter, AccountView};
use solana_sdk::pubkey::Pubkey;
use vstd::prelude::*;

verus! {

/// The lamports that one stake account adds to `voter`: all of its
/// lamports where it delegates to `voter`, none otherwise.
pub open spec fn contribution(a: AccountView, voter: Pubkey) -> nat {
    if delegated_voter(a.data) == Some(voter) {
        a.lamports as nat
    } else {
        0
    }
}

/// Weighs a stake account by its contribution to `voter`.
pub open spec fn toward(voter: Pubkey) -> spec_fn(AccountView) -> nat {
    |a: AccountView| contribution(a, voter)
}

/// Weighs a stake account by its lamports.
pub open spec fn by_lamports() -> spec_fn(AccountView) -> nat {
    |a: AccountView| a.lamports as nat
}

/// The sum of `w` over the accounts stored under `keys`.
pub open spec fn sum_over(
    table: Map<Pubkey, AccountView>,
    keys: Set<Pubkey>,
    w: spec_fn(AccountView) -> nat,
) -> nat
    decreases keys.len(),
{
    if keys.finite() && keys.len() > 0 {
        let k = keys.choose();
        w(table[k]) + sum_over(table, keys.remove(k), w)
    } else {
        0
    }
}

/// The lamports of all stake accounts in `table` that delegate to `voter`.
pub open spec fn delegated_stake(table: Map<Pubkey, AccountView>, voter: Pubkey) -> nat {
    sum_over(table, table.dom(), toward(voter))
}

/// The lamports of all stake accounts in `table`.
pub open spec fn total_lamports(table: Map<Pubkey, AccountView>) -> nat {
    sum_over(table, table.dom(), by_lamports())
}

/// Any member of `keys` can be taken out first.
pub proof fn lemma_sum_remove(
    table: Map<Pubkey, AccountView>,
    keys: Set<Pubkey>,
    w: spec_fn(AccountView) -> nat,
    k: Pubkey,
)
    requires
        keys.finite(),
        keys.contains(k),
    ensures
        sum_over(table, keys, w) == w(table[k]) + sum_over(table, keys.remove(k), w),
    decreases keys.len(),
{
    let c = keys.choose();
    assert(keys.len() > 0);
    if c != k {
        let rest = keys.remove(c);
        lemma_sum_remove(table, rest, w, k);
        lemma_sum_remove(table, keys.remove(k), w, c);
        assert(rest.remove(k) =~= keys.remove(k).remove(c));
    }
}

/// Two tables that agree on `keys` give the same sum over them.
pub proof fn lemma_sum_agree(
    t1: Map<Pubkey, AccountView>,
    t2: Map<Pubkey, AccountView>,
    keys: Set<Pubkey>,
    w: spec_fn(AccountView) -> nat,
)
    requires
        forall|k: Pubkey| keys.contains(k) ==> t1[k] == t2[k],
    ensures
        sum_over(t1, keys, w) == sum_over(t2, keys, w),
    decreases keys.len(),
{
    if keys.finite() && keys.len() > 0 {
        let k = keys.choose();
        lemma_sum_agree(t1, t2, keys.remove(k), w);
    }
}

/// A sum over part of the keys is at most the sum over all of them.
pub proof fn lemma_sum_subset(
    table: Map<Pubkey, AccountView>,
    part: Set<Pubkey>,
    keys: Set<Pubkey>,
    w: spec_fn(AccountView) -> nat,
)
    requires
        keys.finite(),
        part.subset_of(keys),
    ensures
        sum_over(table, part, w) <= sum_over(table, keys, w),
    decreases keys.len(),
{
    if keys.len() == 0 {
        assert(part =~= Set::empty());
    } else {
        let k = keys.choose();
        lemma_sum_remove(table, keys, w, k);
        lemma_sum_subset(table, part.remove(k), keys.remove(k), w);
        if part.contains(k) {
            lemma_sum_remove(table, part, w, k);
        } else {
            assert(part.remove(k) =~= part);
        }
    }
}

/// A weight that is pointwise smaller gives a smaller sum.
pub proof fn lemma_sum_weights(
    table: Map<Pubkey, AccountView>,
    keys: Set<Pubkey>,
    w1: spec_fn(AccountView) -> nat,
    w2: spec_fn(AccountView) -> nat,
)
    requires
        forall|a: AccountView| #[trigger] w1(a) <= w2(a),
    ensures
        sum_over(table, keys, w1) <= sum_over(table, keys, w2),
    decreases keys.len(),
{
    if keys.finite() && keys.len() > 0 {
        let k = keys.choose();
        lemma_sum_weights(table, keys.remove(k), w1, w2);
    }
}

/// No voter is delegated more lamports than the table holds.
pub proof fn lemma_delegated_within_total(table: Map<Pubkey, AccountView>, voter: Pubkey)
    ensures
        delegated_stake(table, voter) <= total_lamports(table),
{
    lemma_sum_weights(table, table.dom(), toward(voter), by_lamports());
}

/// What storing `a` under `k` does to a table's sum: the old entry's weight
/// leaves, the new one's comes in.
pub proof fn lemma_sum_after_insert(
    table: Map<Pubkey, AccountView>,
    k: Pubkey,
    a: AccountView,
    w: spec_fn(AccountView) -> nat,
)
    requires
        table.dom().finite(),
    ensures
        sum_over(table.insert(k, a), table.insert(k, a).dom(), w) + (if table.contains_key(k) {
            w(table[k])
        } else {
            0
        }) == sum_over(table, table.dom(), w) + w(a),
{
    let t2 = table.insert(k, a);
    let rest = table.dom().remove(k);
    assert(t2.dom().remove(k) =~= rest);
    lemma_sum_remove(t2, t2.dom(), w, k);
    lemma_sum_agree(t2, table, rest, w);
    if table.contains_key(k) {
        lemma_sum_remove(table, table.dom(), w, k);
    } else {
        assert(rest =~= table.dom());
    }
}

/// What removing `k` does to a table's sum: the old entry's weight leaves.
pub proof fn lemma_sum_after_remove(
    table: Map<Pubkey, AccountView>,
    k: Pubkey,
    w: spec_fn(AccountView) -> nat,
)
    requires
        table.dom().finite(),
    ensures
        sum_over(table.remove(k), table.remove(k).dom(), w) + (if table.contains_key(k) {
            w(table[k])
        } else {
            0
        }) == sum_over(table, table.dom(), w),
{
    let t2 = table.remove(k);
    assert(t2.dom() =~= table.dom().remove(k));
    lemma_sum_agree(t2, table, t2.dom(), w);
    if table.contains_key(k) {
        lemma_sum_remove(table, table.dom(), w, k);
    } else {
        assert(t2.dom() =~= table.dom());
    }
}

} // verus!
