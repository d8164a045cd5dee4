//! Accounts as the cache sees them, and the facts it reads from the
//! Solana SDK about them: which program owns one, and whom a stake
//! account delegates to.
use solana_sdk::pubkey::Pubkey;
use solana_sdk::stake::state::StakeStateV2;
use vstd::prelude::*;

verus! {

#[verifier::external_type_specification]
#[verifier::external_body]
pub struct ExPubkey(Pubkey);

/// An account record: its balance, its data and the program that owns it.
pub struct Account {
    pub lamports: u64,
    pub data: Vec<u8>,
    pub owner: Pubkey,
    pub executable: bool,
    pub rent_epoch: u64,
}

/// The mathematical value of an [`Account`].
pub struct AccountView {
    pub lamports: u64,
    pub data: Seq<u8>,
    pub owner: Pubkey,
    pub executable: bool,
    pub rent_epoch: u64,
}

impl View for Account {
    type V = AccountView;

    open spec fn view(&self) -> AccountView {
        AccountView {
            lamports: self.lamports,
            data: self.data@,
            owner: self.owner,
            executable: self.executable,
            rent_epoch: self.rent_epoch,
        }
    }
}

impl Account {
    /// A copy of this account with equal contents.
    pub fn duplicate(&self) -> (r: Account)
        ensures
            r@ == self@,
    {
        let data = self.data.clone();
        proof {
            assert(data@ =~= self.data@);
        }
        Account {
            lamports: self.lamports,
            data,
            owner: self.owner,
            executable: self.executable,
            rent_epoch: self.rent_epoch,
        }
    }
}

/// Whether `owner` is the id of the vote program.
pub uninterp spec fn is_vote_program(owner: Pubkey) -> bool;

/// Whether `owner` is the id of the stake program.
pub uninterp spec fn is_stake_program(owner: Pubkey) -> bool;

/// The vote identity that stake-account data delegates to, if it decodes
/// to a delegation at all.
pub uninterp spec fn delegated_voter(data: Seq<u8>) -> Option<Pubkey>;

/// An account that the cache files under the vote table.
pub open spec fn is_vote_account(a: AccountView) -> bool {
    is_vote_program(a.owner)
}

/// An account that the cache files under the stake table: owned by the
/// stake program (and not by the vote program, which is looked at first).
pub open spec fn is_stake_account(a: AccountView) -> bool {
    !is_vote_program(a.owner) && is_stake_program(a.owner)
}

/// Relies on `solana_sdk::vote::program::check_id`, which compares `owner`
/// with the vote program's constant id.
#[verifier::external_body]
pub(crate) fn owned_by_vote_program(owner: &Pubkey) -> (r: bool)
    ensures
        r == is_vote_program(*owner),
{
    solana_sdk::vote::program::check_id(owner)
}

/// Relies on `solana_sdk::stake::program::check_id`, which compares `owner`
/// with the stake program's constant id.
#[verifier::external_body]
pub(crate) fn owned_by_stake_program(owner: &Pubkey) -> (r: bool)
    ensures
        r == is_stake_program(*owner),
{
    solana_sdk::stake::program::check_id(owner)
}

/// Relies on `Account::deserialize_data` (bincode over the data bytes alone)
/// into `StakeStateV2`, and on `StakeStateV2::delegation`: the voter of the
/// delegation, or `None` where the data decodes to no delegation.
#[verifier::external_body]
pub(crate) fn decode_voter(account: &Account) -> (r: Option<Pubkey>)
    ensures
        r == delegated_voter(account.data@),
{
    let raw = solana_sdk::account::Account {
        lamports: account.lamports,
        data: account.data.clone(),
        owner: account.owner,
        executable: account.executable,
        rent_epoch: account.rent_epoch,
    };
    raw.deserialize_data::<StakeStateV2>().ok().and_then(|s| s.delegation()).map(|d| d.voter_pubkey)
}

/// Relies on the derived `PartialEq` of `Pubkey`, which compares its bytes.
#[verifier::external_body]
pub(crate) fn same_pubkey(a: &Pubkey, b: &Pubkey) -> (r: bool)
    ensures
        r == (*a == *b),
{
    a == b
}

} // verus!
