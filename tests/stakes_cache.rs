use solana_sdk::pubkey::Pubkey;
use solana_sdk::stake::state::{Delegation, Meta, Stake, StakeStateV2};
use solana_sdk::stake::stake_flags::StakeFlags;
use solana_sdk::vote::state::VoteState;
use stake_cache::{Account, Stakes};

fn from_sdk(a: solana_sdk::account::Account) -> Account {
    Account {
        lamports: a.lamports,
        data: a.data,
        owner: a.owner,
        executable: a.executable,
        rent_epoch: a.rent_epoch,
    }
}

fn create_vote_account(lamports: u64) -> Account {
    from_sdk(solana_sdk::account::Account::new(
        lamports,
        VoteState::size_of(),
        &solana_sdk::vote::program::id(),
    ))
}

//   add stake to a vote_id                               (   stake    )
fn create_stake_account(stake: u64, vote_id: &Pubkey) -> (Pubkey, Account) {
    let state = StakeStateV2::Stake(
        Meta::default(),
        Stake {
            delegation: Delegation::new(vote_id, stake, 0),
            credits_observed: 0,
        },
        StakeFlags::empty(),
    );
    let account = solana_sdk::account::Account::new_data_with_space(
        stake,
        &state,
        StakeStateV2::size_of(),
        &solana_sdk::stake::program::id(),
    )
    .unwrap();
    (Pubkey::new_unique(), from_sdk(account))
}

//  set up some dummies  for a staked node    ((     vote      )  (     stake     ))
fn create_staked_node_accounts(stake: u64) -> ((Pubkey, Account), (Pubkey, Account)) {
    let vote_id = Pubkey::new_unique();
    let vote_account = create_vote_account(1);
    (
        (vote_id, vote_account),
        create_stake_account(stake, &vote_id),
    )
}

fn aggregate(stakes: &Stakes, vote_id: &Pubkey) -> Option<u64> {
    stakes.vote_accounts().get(vote_id).map(|e| e.0)
}

#[test]
fn test_stakes_basic() {
    let mut stakes = Stakes::default();

    let ((vote_id, vote_account), (stake_id, mut stake_account)) =
        create_staked_node_accounts(10);

    stakes.store(&vote_id, &vote_account);
    stakes.store(&stake_id, &stake_account);

    {
        let vote_accounts = stakes.vote_accounts();
        assert!(vote_accounts.get(&vote_id).is_some());
        assert_eq!(vote_accounts.get(&vote_id).unwrap().0, 10);
    }

    stake_account.lamports = 42;
    stakes.store(&stake_id, &stake_account);
    {
        let vote_accounts = stakes.vote_accounts();
        assert!(vote_accounts.get(&vote_id).is_some());
        assert_eq!(vote_accounts.get(&vote_id).unwrap().0, 42);
    }

    stake_account.lamports = 0;
    stakes.store(&stake_id, &stake_account);
    {
        let vote_accounts = stakes.vote_accounts();
        assert!(vote_accounts.get(&vote_id).is_some());
        assert_eq!(vote_accounts.get(&vote_id).unwrap().0, 0);
    }
}

#[test]
fn test_stakes_vote_account_disappear_reappear() {
    let mut stakes = Stakes::default();

    let ((vote_id, mut vote_account), (stake_id, stake_account)) =
        create_staked_node_accounts(10);

    stakes.store(&vote_id, &vote_account);
    stakes.store(&stake_id, &stake_account);

    {
        let vote_accounts = stakes.vote_accounts();
        assert!(vote_accounts.get(&vote_id).is_some());
        assert_eq!(vote_accounts.get(&vote_id).unwrap().0, 10);
    }

    vote_account.lamports = 0;
    stakes.store(&vote_id, &vote_account);

    {
        let vote_accounts = stakes.vote_accounts();
        assert!(vote_accounts.get(&vote_id).is_none());
    }
    vote_account.lamports = 1;
    stakes.store(&vote_id, &vote_account);

    {
        let vote_accounts = stakes.vote_accounts();
        assert!(vote_accounts.get(&vote_id).is_some());
        assert_eq!(vote_accounts.get(&vote_id).unwrap().0, 10);
    }
}

#[test]
fn test_stakes_change_delegate() {
    let mut stakes = Stakes::default();

    let ((vote_id, vote_account), (stake_id, stake_account)) = create_staked_node_accounts(10);

    let ((vote_id2, vote_account2), (_stake_id2, stake_account2)) =
        create_staked_node_accounts(10);

    stakes.store(&vote_id, &vote_account);
    stakes.store(&vote_id2, &vote_account2);

    // delegates to vote_id
    stakes.store(&stake_id, &stake_account);

    {
        let vote_accounts = stakes.vote_accounts();
        assert!(vote_accounts.get(&vote_id).is_some());
        assert_eq!(vote_accounts.get(&vote_id).unwrap().0, 10);
        assert!(vote_accounts.get(&vote_id2).is_some());
        assert_eq!(vote_accounts.get(&vote_id2).unwrap().0, 0);
    }

    // delegates to vote_id2
    stakes.store(&stake_id, &stake_account2);

    {
        let vote_accounts = stakes.vote_accounts();
        assert!(vote_accounts.get(&vote_id).is_some());
        assert_eq!(vote_accounts.get(&vote_id).unwrap().0, 0);
        assert!(vote_accounts.get(&vote_id2).is_some());
        assert_eq!(vote_accounts.get(&vote_id2).unwrap().0, 10);
    }
}

#[test]
fn test_stakes_multiple_stakers() {
    let mut stakes = Stakes::default();

    let ((vote_id, vote_account), (stake_id, stake_account)) = create_staked_node_accounts(10);

    let (stake_id2, stake_account2) = create_stake_account(10, &vote_id);

    stakes.store(&vote_id, &vote_account);

    // delegates to vote_id
    stakes.store(&stake_id, &stake_account);
    stakes.store(&stake_id2, &stake_account2);

    {
        let vote_accounts = stakes.vote_accounts();
        assert!(vote_accounts.get(&vote_id).is_some());
        assert_eq!(vote_accounts.get(&vote_id).unwrap().0, 20);
    }
}

#[test]
fn test_stakes_not_delegate() {
    let mut stakes = Stakes::default();

    let ((vote_id, vote_account), (stake_id, stake_account)) = create_staked_node_accounts(10);

    stakes.store(&vote_id, &vote_account);
    stakes.store(&stake_id, &stake_account);

    {
        let vote_accounts = stakes.vote_accounts();
        assert!(vote_accounts.get(&vote_id).is_some());
        assert_eq!(vote_accounts.get(&vote_id).unwrap().0, 10);
    }

    // not a stake account, and whacks above entry
    stakes.store(
        &stake_id,
        &from_sdk(solana_sdk::account::Account::new(
            1,
            0,
            &solana_sdk::stake::program::id(),
        )),
    );
    {
        let vote_accounts = stakes.vote_accounts();
        assert!(vote_accounts.get(&vote_id).is_some());
        assert_eq!(vote_accounts.get(&vote_id).unwrap().0, 0);
    }
}

#[test]
fn storing_the_same_stake_twice_counts_it_once() {
    let mut stakes = Stakes::new();
    let ((vote_id, vote_account), (stake_id, stake_account)) = create_staked_node_accounts(10);
    stakes.store(&vote_id, &vote_account);
    stakes.store(&stake_id, &stake_account);
    stakes.store(&stake_id, &stake_account);
    assert_eq!(aggregate(&stakes, &vote_id), Some(10));
    stakes.store(&vote_id, &vote_account);
    stakes.store(&vote_id, &vote_account);
    assert_eq!(aggregate(&stakes, &vote_id), Some(10));
}

#[test]
fn removing_one_staker_subtracts_only_its_lamports() {
    let mut stakes = Stakes::new();
    let ((vote_id, vote_account), (stake_id, mut stake_account)) = create_staked_node_accounts(7);
    let (stake_id2, stake_account2) = create_stake_account(5, &vote_id);
    let (stake_id3, stake_account3) = create_stake_account(11, &vote_id);
    stakes.store(&vote_id, &vote_account);
    stakes.store(&stake_id, &stake_account);
    stakes.store(&stake_id2, &stake_account2);
    stakes.store(&stake_id3, &stake_account3);
    assert_eq!(aggregate(&stakes, &vote_id), Some(23));
    stake_account.lamports = 0;
    stakes.store(&stake_id, &stake_account);
    assert_eq!(aggregate(&stakes, &vote_id), Some(16));
    // removing it again changes nothing
    stakes.store(&stake_id, &stake_account);
    assert_eq!(aggregate(&stakes, &vote_id), Some(16));
}

#[test]
fn redelegation_keeps_the_sum_of_both_voters() {
    let mut stakes = Stakes::new();
    let ((vote_a, vote_account_a), (stake_id, stake_to_a)) = create_staked_node_accounts(30);
    let ((vote_b, vote_account_b), (stake_id_b, stake_b)) = create_staked_node_accounts(4);
    stakes.store(&vote_a, &vote_account_a);
    stakes.store(&vote_b, &vote_account_b);
    stakes.store(&stake_id, &stake_to_a);
    stakes.store(&stake_id_b, &stake_b);
    assert_eq!(aggregate(&stakes, &vote_a), Some(30));
    assert_eq!(aggregate(&stakes, &vote_b), Some(4));
    let (_, stake_to_b) = create_stake_account(30, &vote_b);
    stakes.store(&stake_id, &stake_to_b);
    assert_eq!(aggregate(&stakes, &vote_a), Some(0));
    assert_eq!(aggregate(&stakes, &vote_b), Some(34));
}

#[test]
fn stake_before_vote_account_is_counted_when_the_vote_account_comes() {
    let mut stakes = Stakes::new();
    let vote_id = Pubkey::new_unique();
    let (stake_id, stake_account) = create_stake_account(10, &vote_id);
    stakes.store(&stake_id, &stake_account);
    // no entry is made for a voter that has no vote account
    assert_eq!(aggregate(&stakes, &vote_id), None);
    stakes.store(&vote_id, &create_vote_account(1));
    assert_eq!(aggregate(&stakes, &vote_id), Some(10));
}

#[test]
fn redelegation_to_an_unknown_voter_drops_the_stake() {
    let mut stakes = Stakes::new();
    let ((vote_id, vote_account), (stake_id, stake_account)) = create_staked_node_accounts(10);
    let unknown = Pubkey::new_unique();
    stakes.store(&vote_id, &vote_account);
    stakes.store(&stake_id, &stake_account);
    let (_, moved) = create_stake_account(10, &unknown);
    stakes.store(&stake_id, &moved);
    assert_eq!(aggregate(&stakes, &vote_id), Some(0));
    assert_eq!(aggregate(&stakes, &unknown), None);
    // the voter's vote account appears later: the recompute finds the stake
    stakes.store(&unknown, &create_vote_account(3));
    assert_eq!(aggregate(&stakes, &unknown), Some(10));
}

#[test]
fn accounts_of_other_programs_are_ignored() {
    let mut stakes = Stakes::new();
    let ((vote_id, vote_account), (stake_id, stake_account)) = create_staked_node_accounts(10);
    stakes.store(&vote_id, &vote_account);
    stakes.store(&stake_id, &stake_account);
    let mut other = stake_account.duplicate();
    other.owner = Pubkey::new_unique();
    other.lamports = 99;
    stakes.store(&stake_id, &other);
    stakes.store(&vote_id, &other);
    assert_eq!(aggregate(&stakes, &vote_id), Some(10));
    assert!(!Stakes::is_stake(&other));
}

#[test]
fn is_stake_knows_the_vote_and_stake_programs() {
    let (_, stake_account) = create_stake_account(1, &Pubkey::new_unique());
    assert!(Stakes::is_stake(&create_vote_account(1)));
    assert!(Stakes::is_stake(&stake_account));
    let plain = from_sdk(solana_sdk::account::Account::new(
        5,
        0,
        &solana_sdk::system_program::id(),
    ));
    assert!(!Stakes::is_stake(&plain));
}

#[test]
fn vote_account_store_replaces_the_payload_and_keeps_the_aggregate() {
    let mut stakes = Stakes::new();
    let ((vote_id, vote_account), (stake_id, stake_account)) = create_staked_node_accounts(10);
    stakes.store(&vote_id, &vote_account);
    stakes.store(&stake_id, &stake_account);
    let mut richer = vote_account.duplicate();
    richer.lamports = 500;
    stakes.store(&vote_id, &richer);
    let entry = stakes.vote_accounts().get(&vote_id).unwrap();
    assert_eq!(entry.0, 10);
    assert_eq!(entry.1.lamports, 500);
}

#[test]
fn duplicate_copies_every_field() {
    let (_, a) = create_stake_account(12, &Pubkey::new_unique());
    let b = a.duplicate();
    assert_eq!(b.lamports, a.lamports);
    assert_eq!(b.data, a.data);
    assert_eq!(b.owner, a.owner);
    assert_eq!(b.executable, a.executable);
    assert_eq!(b.rent_epoch, a.rent_epoch);
}

#[test]
fn an_empty_cache_has_no_vote_entries() {
    let stakes = Stakes::default();
    assert!(stakes.vote_accounts().get(&Pubkey::new_unique()).is_none());
}
