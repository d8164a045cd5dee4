//! The stake cache: vote accounts with the stake delegated to each, and the
//! stake accounts that the aggregates are summed from.
use crate::account::{
    decode_voter, delegated_voter, is_stake_account, is_stake_program, is_vote_account,
    is_vote_program, owned_by_stake_program, owned_by_vote_program, same_pubkey, Account,
    AccountView,
};
use crate::sums::{
    contribution, delegated_stake, lemma_delegated_within_total,
    lemma_sum_after_insert, lemma_sum_after_remove, lemma_sum_remove, lemma_sum_subset,
    sum_over, toward, total_lamports,
};
use crate::table::{
    drop_stake, drop_vote, empty_stake_table, empty_vote_table, put_stake, put_vote,
    set_aggregate, stake_entry, stake_keys, stake_table, vote_table, StakeTable, VoteTable, vote_entry,
};
use solana_sdk::pubkey::Pubkey;
use vstd::prelude::*;

verus! {

/// The value of a [`Stakes`]: the vote table and the stake table.
pub struct StakesView {
    pub votes: Map<Pubkey, (u64, AccountView)>,
    pub stakes: Map<Pubkey, AccountView>,
}

impl StakesView {
    /// The cache's invariant. Both tables are finite and their lamports fit
    /// in a `u64`; every vote entry's aggregate is the stake delegated to
    /// its identity; every entry holds a funded account of its program.
    pub open spec fn consistent(self) -> bool {
        &&& self.votes.dom().finite()
        &&& self.stakes.dom().finite()
        &&& total_lamports(self.stakes) <= u64::MAX
        &&& forall|v: Pubkey| #[trigger]
            self.votes.contains_key(v) ==> self.votes[v].0 == delegated_stake(self.stakes, v)
        &&& forall|v: Pubkey| #[trigger]
            self.votes.contains_key(v) ==> self.votes[v].1.lamports > 0 && is_vote_account(
                self.votes[v].1,
            )
        &&& forall|k: Pubkey| #[trigger]
            self.stakes.contains_key(k) ==> self.stakes[k].lamports > 0 && is_stake_account(
                self.stakes[k],
            )
    }
}

/// The stake table once `a` has been stored under `key`: a funded account
/// is kept, an empty one leaves.
pub open spec fn stake_table_after(
    stakes: Map<Pubkey, AccountView>,
    key: Pubkey,
    a: AccountView,
) -> Map<Pubkey, AccountView> {
    if a.lamports == 0 {
        stakes.remove(key)
    } else {
        stakes.insert(key, a)
    }
}

/// The vote table with each aggregate recomputed from `stakes`.
pub open spec fn restaked(
    votes: Map<Pubkey, (u64, AccountView)>,
    stakes: Map<Pubkey, AccountView>,
) -> Map<Pubkey, (u64, AccountView)> {
    Map::new(
        |v: Pubkey| votes.contains_key(v),
        |v: Pubkey| (delegated_stake(stakes, v) as u64, votes[v].1),
    )
}

/// The cache once account `a` has been stored under `key`.
pub open spec fn stored(m: StakesView, key: Pubkey, a: AccountView) -> StakesView {
    if is_vote_account(a) {
        if a.lamports == 0 {
            StakesView { votes: m.votes.remove(key), stakes: m.stakes }
        } else {
            let aggregate = if m.votes.contains_key(key) {
                m.votes[key].0
            } else {
                delegated_stake(m.stakes, key) as u64
            };
            StakesView { votes: m.votes.insert(key, (aggregate, a)), stakes: m.stakes }
        }
    } else if is_stake_account(a) {
        let stakes = stake_table_after(m.stakes, key, a);
        StakesView { votes: restaked(m.votes, stakes), stakes }
    } else {
        m
    }
}

/// What the stake account under `key` contributed to `voter` before a store.
pub open spec fn prior_contribution(
    stakes: Map<Pubkey, AccountView>,
    key: Pubkey,
    voter: Pubkey,
) -> nat {
    if stakes.contains_key(key) {
        contribution(stakes[key], voter)
    } else {
        0
    }
}

/// The delegation an account states: its lamports and its voter.
pub open spec fn delegation_of(a: AccountView) -> Option<(u64, Pubkey)> {
    match delegated_voter(a.data) {
        Some(v) => Some((a.lamports, v)),
        None => None,
    }
}

/// The lamports that a delegation adds to `voter`.
pub open spec fn weight_toward(d: Option<(u64, Pubkey)>, voter: Pubkey) -> nat {
    match d {
        Some((lamports, v)) => if v == voter {
            lamports as nat
        } else {
            0
        },
        None => 0,
    }
}

/// Storing stake account `a` under `key` moves each voter's delegated stake
/// by what the old account contributed and what `a` contributes.
pub proof fn lemma_restake_delta(stakes: Map<Pubkey, AccountView>, key: Pubkey, a: AccountView)
    requires
        stakes.dom().finite(),
        total_lamports(stake_table_after(stakes, key, a)) <= u64::MAX,
    ensures
        forall|v: Pubkey|
            #![trigger delegated_stake(stake_table_after(stakes, key, a), v)]
            delegated_stake(stake_table_after(stakes, key, a), v) + prior_contribution(
                stakes,
                key,
                v,
            ) == delegated_stake(stakes, v) + contribution(a, v) && delegated_stake(
                stake_table_after(stakes, key, a),
                v,
            ) <= u64::MAX && prior_contribution(stakes, key, v) <= delegated_stake(stakes, v),
{
    let s2 = stake_table_after(stakes, key, a);
    assert forall|v: Pubkey|
        #![trigger delegated_stake(stake_table_after(stakes, key, a), v)]
        delegated_stake(s2, v) + prior_contribution(stakes, key, v) == delegated_stake(stakes, v)
            + contribution(a, v) && delegated_stake(s2, v) <= u64::MAX && prior_contribution(
            stakes,
            key,
            v,
        ) <= delegated_stake(stakes, v) by {
        if a.lamports == 0 {
            lemma_sum_after_remove(stakes, key, toward(v));
        } else {
            lemma_sum_after_insert(stakes, key, a, toward(v));
        }
        lemma_delegated_within_total(s2, v);
        if stakes.contains_key(key) {
            lemma_sum_remove(stakes, stakes.dom(), toward(v), key);
        }
    }
}

/// Storing an account keeps the cache's invariant, as long as the stake
/// table's lamports still fit in a `u64`.
pub proof fn lemma_stored_consistent(m: StakesView, key: Pubkey, a: AccountView)
    requires
        m.consistent(),
        total_lamports(stored(m, key, a).stakes) <= u64::MAX,
    ensures
        stored(m, key, a).consistent(),
{
    let r = stored(m, key, a);
    if is_vote_account(a) {
        lemma_delegated_within_total(m.stakes, key);
    } else if is_stake_account(a) {
        let s2 = stake_table_after(m.stakes, key, a);
        lemma_restake_delta(m.stakes, key, a);
        assert(r.votes.dom() =~= m.votes.dom());
        assert forall|v: Pubkey| #[trigger] r.votes.contains_key(v) implies r.votes[v].0
            == delegated_stake(r.stakes, v) by {
            assert(delegated_stake(s2, v) <= u64::MAX);
        }
    }
}

/// The stake cache.
pub struct Stakes {
    /// Vote identity to (aggregate stake, vote account).
    vote_accounts: VoteTable,
    /// Stake-account key to stake account.
    stake_accounts: StakeTable,
}

impl View for Stakes {
    type V = StakesView;

    closed spec fn view(&self) -> StakesView {
        StakesView { votes: vote_table(self.vote_accounts), stakes: stake_table(self.stake_accounts) }
    }
}

impl Default for Stakes {
    fn default() -> (r: Stakes)
        ensures
            r@.votes == Map::<Pubkey, (u64, AccountView)>::empty(),
            r@.stakes == Map::<Pubkey, AccountView>::empty(),
            r.wf(),
    {
        Stakes::new()
    }
}

/// Whether two delegations are equal: both absent, or the same lamports to
/// the same voter.
fn same_delegation(a: &Option<(u64, Pubkey)>, b: &Option<(u64, Pubkey)>) -> (r: bool)
    ensures
        r == (*a == *b),
{
    match (a, b) {
        (None, None) => true,
        (Some((la, va)), Some((lb, vb))) => *la == *lb && same_pubkey(va, vb),
        _ => false,
    }
}

/// The delegation that `account` states, decoded from its data.
fn delegation_from(account: &Account) -> (r: Option<(u64, Pubkey)>)
    ensures
        r == delegation_of(account@),
{
    match decode_voter(account) {
        Some(v) => Some((account.lamports, v)),
        None => None,
    }
}

impl Stakes {
    /// The cache's invariant holds.
    pub open spec fn wf(&self) -> bool {
        self@.consistent()
    }

    /// An empty cache.
    pub fn new() -> (r: Stakes)
        ensures
            r@.votes == Map::<Pubkey, (u64, AccountView)>::empty(),
            r@.stakes == Map::<Pubkey, AccountView>::empty(),
            r.wf(),
    {
        let r = Stakes { vote_accounts: empty_vote_table(), stake_accounts: empty_stake_table() };
        proof {
            assert(r@.stakes.dom() =~= Set::empty());
            assert(total_lamports(r@.stakes) == 0);
        }
        r
    }

    /// The sum of the lamports of the stake accounts that delegate to
    /// `voter_id`, recomputed from the whole stake table.
    fn calculate_stake(&self, voter_id: &Pubkey) -> (r: u64)
        requires
            self.wf(),
        ensures
            r == delegated_stake(self@.stakes, *voter_id),
    {
        let ghost stakes = self@.stakes;
        let ghost w = toward(*voter_id);
        let keys = stake_keys(&self.stake_accounts);
        proof {
            lemma_delegated_within_total(stakes, *voter_id);
        }
        let mut sum: u64 = 0;
        let mut i: usize = 0;
        while i < keys.len()
            invariant
                0 <= i <= keys@.len(),
                keys@.no_duplicates(),
                keys@.to_set() == stakes.dom(),
                stakes == self@.stakes,
                self.wf(),
                w == toward(*voter_id),
                delegated_stake(stakes, *voter_id) <= u64::MAX,
                sum == sum_over(stakes, keys@.subrange(0, i as int).to_set(), w),
            decreases keys.len() - i,
        {
            let k = keys[i];
            let ghost seen = keys@.subrange(0, i as int).to_set();
            let ghost next = keys@.subrange(0, i + 1 as int).to_set();
            proof {
                assert(next =~= seen.insert(k)) by {
                    assert forall|x: Pubkey| next.contains(x) implies seen.insert(k).contains(x) by {
                        let j = choose|j: int| 0 <= j < i + 1 && #[trigger] keys@.subrange(0, i + 1 as int)[j] == x;
                        if j < i {
                            assert(keys@.subrange(0, i as int)[j] == x);
                        }
                    }
                    assert forall|x: Pubkey| seen.insert(k).contains(x) implies next.contains(x) by {
                        if x == k {
                            assert(keys@.subrange(0, i + 1 as int)[i as int] == x);
                        } else {
                            let j = choose|j: int| 0 <= j < i && #[trigger] keys@.subrange(0, i as int)[j] == x;
                            assert(keys@.subrange(0, i + 1 as int)[j] == x);
                        }
                    }
                }
                assert(!seen.contains(k)) by {
                    if seen.contains(k) {
                        let j = choose|j: int| 0 <= j < i && #[trigger] keys@.subrange(0, i as int)[j] == k;
                        assert(keys@[j] == keys@[i as int]);
                    }
                }
                assert(keys@.contains(k)) by {
                    assert(keys@[i as int] == k);
                }
                assert(stakes.dom().contains(k));
                vstd::seq_lib::seq_to_set_is_finite(keys@.subrange(0, i + 1 as int));
                lemma_sum_remove(stakes, next, w, k);
                assert(next.remove(k) =~= seen);
                assert(next.subset_of(stakes.dom())) by {
                    assert forall|x: Pubkey| next.contains(x) implies stakes.dom().contains(x) by {
                        let j = choose|j: int| 0 <= j < i + 1 && #[trigger] keys@.subrange(0, i + 1 as int)[j] == x;
                        assert(keys@[j] == x);
                        assert(keys@.contains(x));
                    }
                }
                lemma_sum_subset(stakes, next, stakes.dom(), w);
            }
            match stake_entry(&self.stake_accounts, &k) {
                Some(account) => {
                    match decode_voter(account) {
                        Some(v) => {
                            if same_pubkey(&v, voter_id) {
                                sum = sum + account.lamports;
                            }
                        },
                        None => {},
                    }
                },
                None => {},
            }
            i = i + 1;
        }
        proof {
            assert(keys@.subrange(0, keys@.len() as int) =~= keys@);
        }
        sum
    }

    /// Whether `account` belongs to the vote program or the stake program,
    /// that is whether the cache takes note of it.
    pub fn is_stake(account: &Account) -> (r: bool)
        ensures
            r == (is_vote_program(account.owner) || is_stake_program(account.owner)),
    {
        owned_by_vote_program(&account.owner) || owned_by_stake_program(&account.owner)
    }

    /// Takes note of `account` as now stored under `pubkey`.
    ///
    /// A vote account with no lamports leaves the vote table; one with
    /// lamports replaces its entry and keeps the entry's aggregate, or, when
    /// it had none, gets the aggregate recomputed from the stake table. A
    /// stake account moves its lamports from the voter it delegated to
    /// before to the voter it delegates to now, wherever those have an
    /// entry, and then replaces its own entry (or leaves, with no lamports).
    /// Any other account changes nothing.
    pub fn store(&mut self, pubkey: &Pubkey, account: &Account)
        requires
            old(self).wf(),
            total_lamports(stored(old(self)@, *pubkey, account@).stakes) <= u64::MAX,
        ensures
            final(self)@ == stored(old(self)@, *pubkey, account@),
            final(self).wf(),
            forall|v: Pubkey| #[trigger]
                final(self)@.votes.contains_key(v) ==> final(self)@.votes[v].0 == delegated_stake(
                    final(self)@.stakes,
                    v,
                ),
    {
        let ghost m = self@;
        proof {
            lemma_stored_consistent(m, *pubkey, account@);
        }
        if owned_by_vote_program(&account.owner) {
            if account.lamports == 0 {
                drop_vote(&mut self.vote_accounts, pubkey);
            } else {
                let stake = match vote_entry(&self.vote_accounts, pubkey) {
                    Some(e) => e.0,
                    None => self.calculate_stake(pubkey),
                };
                put_vote(&mut self.vote_accounts, *pubkey, (stake, account.duplicate()));
            }
        } else if owned_by_stake_program(&account.owner) {
            let ghost s2 = stake_table_after(m.stakes, *pubkey, account@);
            proof {
                lemma_restake_delta(m.stakes, *pubkey, account@);
            }
            let old_stake = match stake_entry(&self.stake_accounts, pubkey) {
                Some(old_account) => delegation_from(old_account),
                None => None,
            };
            let stake = delegation_from(account);
            proof {
                assert forall|v: Pubkey| #[trigger]
                    prior_contribution(m.stakes, *pubkey, v) == weight_toward(old_stake, v)
                        && contribution(account@, v) == weight_toward(stake, v) by {}
            }
            if !same_delegation(&stake, &old_stake) {
                if let Some((old_lamports, old_voter)) = old_stake {
                    if let Some(e) = vote_entry(&self.vote_accounts, &old_voter) {
                        let current = e.0;
                        assert(delegated_stake(s2, old_voter) + old_lamports == current
                            + contribution(account@, old_voter));
                        set_aggregate(&mut self.vote_accounts, &old_voter, current - old_lamports);
                    }
                }
                let ghost v1 = self@.votes;
                assert(v1.dom() =~= m.votes.dom());
                assert forall|v: Pubkey| #[trigger]
                    v1.contains_key(v) implies v1[v].0 + prior_contribution(m.stakes, *pubkey, v)
                    == m.votes[v].0 && v1[v].1 == m.votes[v].1 by {}
                if let Some((lamports, voter)) = stake {
                    if let Some(e) = vote_entry(&self.vote_accounts, &voter) {
                        let current = e.0;
                        assert(current + lamports == delegated_stake(s2, voter));
                        set_aggregate(&mut self.vote_accounts, &voter, current + lamports);
                    }
                }
                assert forall|v: Pubkey| #[trigger]
                    self@.votes.contains_key(v) implies self@.votes[v].0 == v1[v].0 + contribution(
                    account@,
                    v,
                ) && self@.votes[v].1 == v1[v].1 by {}
            }
            if account.lamports == 0 {
                drop_stake(&mut self.stake_accounts, pubkey);
            } else {
                put_stake(&mut self.stake_accounts, *pubkey, account.duplicate());
            }
            assert(self@.votes =~= restaked(m.votes, s2));
        }
    }

    /// The vote table: identity to (aggregate stake, vote account).
    pub fn vote_accounts(&self) -> (r: &VoteTable)
        ensures
            vote_table(*r) == self@.votes,
    {
        &self.vote_accounts
    }
}

} // verus!
