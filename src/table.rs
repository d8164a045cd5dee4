//! The two hash maps of the cache, each a `hashbrown::HashMap` held in a
//! table of its own, with what each map method that the cache calls does
//! to the table's contents.
use crate::account::{Account, AccountView};
use hashbrown::HashMap;
use solana_sdk::pubkey::Pubkey;
use vstd::prelude::*;

verus! {

/// Vote identity to (aggregate stake, vote account).
#[verifier::external_body]
pub struct VoteTable {
    map: HashMap<Pubkey, (u64, Account)>,
}

/// Stake-account key to stake account.
#[verifier::external_body]
pub struct StakeTable {
    map: HashMap<Pubkey, Account>,
}

/// What a vote table holds.
pub uninterp spec fn vote_table(m: VoteTable) -> Map<Pubkey, (u64, AccountView)>;

/// What a stake table holds.
pub uninterp spec fn stake_table(m: StakeTable) -> Map<Pubkey, AccountView>;

impl VoteTable {
    /// The entry stored under `k`, if any.
    pub fn get(&self, k: &Pubkey) -> (r: Option<&(u64, Account)>)
        ensures
            r is Some == vote_table(*self).contains_key(*k),
            r matches Some(e) ==> e.0 == vote_table(*self)[*k].0 && e.1@ == vote_table(
                *self,
            )[*k].1,
    {
        vote_entry(self, k)
    }
}

/// Relies on `HashMap::new`: an empty map.
#[verifier::external_body]
pub(crate) fn empty_vote_table() -> (r: VoteTable)
    ensures
        vote_table(r).dom() =~= Set::empty(),
{
    VoteTable { map: HashMap::new() }
}

/// Relies on `HashMap::get`: the entry stored under `k`, if any.
#[verifier::external_body]
pub(crate) fn vote_entry<'a>(m: &'a VoteTable, k: &Pubkey) -> (r: Option<&'a (u64, Account)>)
    ensures
        r is Some == vote_table(*m).contains_key(*k),
        r matches Some(e) ==> e.0 == vote_table(*m)[*k].0 && e.1@ == vote_table(*m)[*k].1,
{
    m.map.get(k)
}

/// Relies on `HashMap::insert`: `k` now maps to `v`, other keys keep theirs.
#[verifier::external_body]
pub(crate) fn put_vote(m: &mut VoteTable, k: Pubkey, v: (u64, Account))
    ensures
        vote_table(*final(m)) == vote_table(*old(m)).insert(k, (v.0, v.1@)),
{
    m.map.insert(k, v);
}

/// Relies on `HashMap::remove`: `k` is gone, other keys keep theirs.
#[verifier::external_body]
pub(crate) fn drop_vote(m: &mut VoteTable, k: &Pubkey)
    ensures
        vote_table(*final(m)) == vote_table(*old(m)).remove(*k),
{
    m.map.remove(k);
}

/// Sets the first component of an entry of the vote table.
pub(crate) fn assign_aggregate(e: &mut (u64, Account), stake: u64)
    ensures
        final(e).0 == stake,
        final(e).1@ == old(e).1@,
{
    e.0 = stake;
}

/// Relies on `HashMap::entry` and `Entry::and_modify`: where `k` is present
/// its aggregate becomes `stake` and its account stays; where it is absent
/// nothing changes.
#[verifier::external_body]
pub(crate) fn set_aggregate(m: &mut VoteTable, k: &Pubkey, stake: u64)
    ensures
        vote_table(*final(m)) == (if vote_table(*old(m)).contains_key(*k) {
            vote_table(*old(m)).insert(*k, (stake, vote_table(*old(m))[*k].1))
        } else {
            vote_table(*old(m))
        }),
{
    m.map.entry(*k).and_modify(|e| assign_aggregate(e, stake));
}

/// Relies on `HashMap::new`: an empty map.
#[verifier::external_body]
pub(crate) fn empty_stake_table() -> (r: StakeTable)
    ensures
        stake_table(r).dom() =~= Set::empty(),
{
    StakeTable { map: HashMap::new() }
}

/// Relies on `HashMap::get`: the account stored under `k`, if any.
#[verifier::external_body]
pub(crate) fn stake_entry<'a>(m: &'a StakeTable, k: &Pubkey) -> (r: Option<&'a Account>)
    ensures
        r is Some == stake_table(*m).contains_key(*k),
        r matches Some(a) ==> a@ == stake_table(*m)[*k],
{
    m.map.get(k)
}

/// Relies on `HashMap::insert`: `k` now maps to `v`, other keys keep theirs.
#[verifier::external_body]
pub(crate) fn put_stake(m: &mut StakeTable, k: Pubkey, v: Account)
    ensures
        stake_table(*final(m)) == stake_table(*old(m)).insert(k, v@),
{
    m.map.insert(k, v);
}

/// Relies on `HashMap::remove`: `k` is gone, other keys keep theirs.
#[verifier::external_body]
pub(crate) fn drop_stake(m: &mut StakeTable, k: &Pubkey)
    ensures
        stake_table(*final(m)) == stake_table(*old(m)).remove(*k),
{
    m.map.remove(k);
}

/// Relies on `HashMap::keys`: each key of the map once, in the map's own
/// order.
#[verifier::external_body]
pub(crate) fn stake_keys(m: &StakeTable) -> (r: Vec<Pubkey>)
    ensures
        r@.no_duplicates(),
        r@.to_set() == stake_table(*m).dom(),
{
    m.map.keys().cloned().collect()
}

} // verus!
