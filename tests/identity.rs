use dotflow::identity::{
    AddressAdded, AddressRemoved, AddressUpdated, ChainAdded, ChainRemoved, ChainUpdated, Error,
    Event, Identity, IdentityCreated, IdentityRemoved, OwnershipTransferred, RecoveryAccountSet,
};
use dotflow::identity_info::IdentityInfo;
use dotflow::types::{AccountId, AccountType, ChainId, ChainInfo, Network, ADDRESS_SIZE_LIMIT};

fn alice() -> AccountId {
    AccountId([1u8; 32])
}

fn bob() -> AccountId {
    AccountId([2u8; 32])
}

fn charlie() -> AccountId {
    AccountId([3u8; 32])
}

fn encode(account: AccountId) -> Vec<u8> {
    account.0.to_vec()
}

fn info(network: Network, account_type: AccountType) -> ChainInfo {
    ChainInfo { network, account_type }
}

fn addresses_of(identity: &Identity, identity_no: u32) -> Vec<(ChainId, Vec<u8>)> {
    identity.identity(identity_no).unwrap().addresses().clone()
}

#[test]
fn tests_constructor_works() {
    let identity = Identity::new(alice());

    assert_eq!(identity.latest_identity_no(), 0);
    assert_eq!(identity.admin(), alice());
    assert_eq!(identity.chain_ids(), &Vec::<ChainId>::new());
    assert_eq!(identity.available_chains(), Vec::default());
}

#[test]
fn create_identity_works() {
    let mut identity = Identity::new(alice());

    assert!(identity.create_identity(alice()).is_ok());

    assert_eq!(identity.events().len(), 1);
    assert_eq!(
        identity.events().last(),
        Some(&Event::IdentityCreated(IdentityCreated { owner: alice(), identity_no: 0 }))
    );

    assert_eq!(identity.identity_of(alice()), Some(0));
    assert_eq!(identity.owner_of(0), Some(alice()));
    assert_eq!(identity.identity(0).unwrap(), IdentityInfo::new());
    assert_eq!(identity.latest_identity_no(), 1);
}

#[test]
fn create_identity_already_exist() {
    let mut identity = Identity::new(alice());

    assert!(identity.create_identity(alice()).is_ok());

    // A user can create one identity only
    assert_eq!(identity.create_identity(alice()), Err(Error::AlreadyIdentityOwner));
}

#[test]
fn add_address_to_identity_works() {
    let mut identity = Identity::new(alice());

    assert!(identity.create_identity(alice()).is_ok());

    assert_eq!(identity.owner_of(0), Some(alice()));
    assert_eq!(identity.identity(0).unwrap(), IdentityInfo::new());

    let polkadot: ChainId = 0;
    let moonbeam: ChainId = 2004;

    assert!(identity
        .add_chain(alice(), polkadot, info(Network::Polkadot, AccountType::AccountId32))
        .is_ok());
    assert!(identity
        .add_chain(alice(), moonbeam, info(Network::Polkadot, AccountType::AccountId32))
        .is_ok());

    let encoded_address = encode(alice());

    assert!(identity.add_address(alice(), polkadot, encoded_address.clone()).is_ok());
    assert_eq!(addresses_of(&identity, 0), vec![(polkadot, encoded_address.clone())]);

    assert_eq!(identity.events().len(), 4);
    assert_eq!(
        identity.events().last(),
        Some(&Event::AddressAdded(AddressAdded {
            identity_no: 0,
            chain: polkadot,
            address: encoded_address.clone()
        }))
    );

    // Cannot add an address for the same chain twice.
    assert_eq!(
        identity.add_address(alice(), polkadot, encoded_address.clone()),
        Err(Error::AddressAlreadyAdded)
    );

    // Bob is not allowed to add an address to alice's identity.
    assert_eq!(identity.add_address(bob(), moonbeam, encoded_address), Err(Error::NotAllowed));
}

#[test]
fn update_address_works() {
    let mut identity = Identity::new(alice());

    let polkadot: ChainId = 0;
    let moonbeam: ChainId = 2004;

    assert!(identity.create_identity(alice()).is_ok());
    assert!(identity
        .add_chain(alice(), polkadot, info(Network::Polkadot, AccountType::AccountId32))
        .is_ok());
    assert!(identity
        .add_chain(alice(), moonbeam, info(Network::Polkadot, AccountType::AccountId32))
        .is_ok());

    assert_eq!(identity.owner_of(0), Some(alice()));
    assert_eq!(identity.identity(0).unwrap(), IdentityInfo::new());

    let polkadot_address = encode(alice());

    assert!(identity.add_address(alice(), polkadot, polkadot_address.clone()).is_ok());
    assert_eq!(addresses_of(&identity, 0), vec![(polkadot, polkadot_address)]);

    let new_polkadot_address = encode(bob());

    assert!(identity.update_address(alice(), polkadot, new_polkadot_address.clone()).is_ok());
    assert_eq!(addresses_of(&identity, 0), vec![(polkadot, new_polkadot_address.clone())]);

    assert_eq!(identity.events().len(), 5);
    assert_eq!(
        identity.events().last(),
        Some(&Event::AddressUpdated(AddressUpdated {
            identity_no: 0,
            chain: polkadot,
            updated_address: new_polkadot_address
        }))
    );

    // The identity has no address on Moonbeam.
    assert_eq!(
        identity.update_address(alice(), moonbeam, encode(alice())),
        Err(Error::InvalidChain)
    );

    // Charlie is not allowed to update alice's identity.
    assert_eq!(
        identity.update_address(charlie(), polkadot, encode(charlie())),
        Err(Error::NotAllowed)
    );
}

#[test]
fn remove_address_works() {
    let mut identity = Identity::new(alice());

    let polkadot: ChainId = 0;
    assert!(identity.create_identity(alice()).is_ok());
    assert!(identity
        .add_chain(alice(), polkadot, info(Network::Polkadot, AccountType::AccountId32))
        .is_ok());

    assert_eq!(identity.owner_of(0), Some(alice()));
    assert_eq!(identity.identity(0).unwrap(), IdentityInfo::new());

    let encoded_address = encode(alice());

    assert!(identity.add_address(alice(), polkadot, encoded_address.clone()).is_ok());
    assert_eq!(addresses_of(&identity, 0), vec![(polkadot, encoded_address)]);

    // Bob is not allowed to remove an address from alice's identity.
    assert_eq!(identity.remove_address(bob(), polkadot), Err(Error::NotAllowed));

    assert!(identity.remove_address(alice(), polkadot).is_ok());

    assert_eq!(identity.events().len(), 4);
    assert_eq!(
        identity.events().last(),
        Some(&Event::AddressRemoved(AddressRemoved { identity_no: 0, chain: polkadot }))
    );

    assert_eq!(addresses_of(&identity, 0), vec![]);

    // Cannot remove an address from a chain that is not part of the identity.
    assert_eq!(identity.remove_address(alice(), polkadot), Err(Error::InvalidChain));
}

#[test]
fn tests_remove_identity_works() {
    let mut identity = Identity::new(alice());

    assert!(identity.create_identity(alice()).is_ok());

    let polkadot: ChainId = 0;
    assert!(identity
        .add_chain(alice(), polkadot, info(Network::Polkadot, AccountType::AccountId32))
        .is_ok());

    assert_eq!(identity.owner_of(0), Some(alice()));
    assert_eq!(identity.identity(0).unwrap(), IdentityInfo::new());

    let encoded_address = encode(alice());

    assert!(identity.add_address(alice(), polkadot, encoded_address.clone()).is_ok());
    assert_eq!(addresses_of(&identity, 0), vec![(polkadot, encoded_address)]);

    // Bob is not allowed to remove alice's identity.
    assert_eq!(identity.remove_identity(bob()), Err(Error::NotAllowed));

    assert!(identity.remove_identity(alice()).is_ok());

    assert_eq!(identity.events().len(), 4);
    assert_eq!(
        identity.events().last(),
        Some(&Event::IdentityRemoved(IdentityRemoved { identity_no: 0 }))
    );

    // Make sure all of the state got removed.
    assert_eq!(identity.owner_of(0), None);
    assert_eq!(identity.identity_of(alice()), None);
    assert_eq!(identity.identity(0), None);
}

#[test]
fn address_size_limit_works() {
    let mut identity = Identity::new(alice());

    let polkadot: ChainId = 0;
    assert!(identity.create_identity(alice()).is_ok());
    assert!(identity
        .add_chain(alice(), polkadot, info(Network::Polkadot, AccountType::AccountId32))
        .is_ok());

    let mut polkadot_address: Vec<u8> = vec![];
    (0..150).for_each(|n| polkadot_address.push(n));

    assert_eq!(
        identity.add_address(alice(), polkadot, polkadot_address),
        Err(Error::AddressSizeExceeded)
    );
}

#[test]
fn add_chain_works() {
    let mut identity = Identity::new(alice());
    assert_eq!(identity.admin(), alice());

    let kusama_info = info(Network::Kusama, AccountType::AccountId32);
    assert!(identity.add_chain(alice(), 0, kusama_info).is_ok());

    assert_eq!(identity.events().len(), 1);
    assert_eq!(
        identity.events().last(),
        Some(&Event::ChainAdded(ChainAdded {
            chain_id: 0,
            network: Network::Kusama,
            account_type: AccountType::AccountId32
        }))
    );

    assert_eq!(identity.chain_info_of(0), Some(kusama_info));
    assert_eq!(identity.available_chains(), vec![(0, kusama_info)]);
    assert_eq!(identity.chain_ids(), &vec![0]);

    // Only the admin can add a new chain
    assert_eq!(identity.add_chain(bob(), 2004, kusama_info), Err(Error::NotAllowed));
}

#[test]
fn remove_chain_works() {
    let mut identity = Identity::new(alice());
    assert_eq!(identity.admin(), alice());

    let chain_id: ChainId = 0;
    assert!(
        identity
            .add_chain(alice(), chain_id, info(Network::Kusama, AccountType::AccountId32))
            .is_ok(),
        "Failed to add chain"
    );

    // The chain doesn't exist
    assert_eq!(identity.remove_chain(alice(), 1), Err(Error::InvalidChain));

    // Only the admin can remove a chain
    assert_eq!(identity.remove_chain(bob(), chain_id), Err(Error::NotAllowed));

    assert!(identity.remove_chain(alice(), chain_id).is_ok());

    assert!(identity.chain_info_of(chain_id).is_none());
    assert!(identity.available_chains().is_empty());

    assert_eq!(
        identity.events().last(),
        Some(&Event::ChainRemoved(ChainRemoved { chain_id }))
    );
}

#[test]
fn update_chain_works() {
    let mut identity = Identity::new(alice());
    assert_eq!(identity.admin(), alice());

    let polkadot_id: ChainId = 0;
    assert!(
        identity
            .add_chain(alice(), polkadot_id, info(Network::Polkadot, AccountType::AccountId32))
            .is_ok(),
        "Failed to add chain"
    );
    assert!(identity
        .add_chain(alice(), 2000, info(Network::Polkadot, AccountType::AccountId32))
        .is_ok());

    // Only the admin can update a chain
    assert_eq!(
        identity.update_chain(bob(), polkadot_id, Some(AccountType::AccountKey20)),
        Err(Error::NotAllowed)
    );

    // Must be an existing chain.
    assert_eq!(identity.update_chain(alice(), 3, None), Err(Error::InvalidChain));

    assert!(identity.update_chain(alice(), polkadot_id, Some(AccountType::AccountKey20)).is_ok());

    assert_eq!(identity.events().len(), 3);
    assert_eq!(
        identity.events().last(),
        Some(&Event::ChainUpdated(ChainUpdated {
            chain_id: polkadot_id,
            account_type: AccountType::AccountKey20
        }))
    );
    assert_eq!(
        identity.chain_info_of(polkadot_id),
        Some(info(Network::Polkadot, AccountType::AccountKey20))
    );
}

#[test]
fn set_recovery_account_works() {
    let mut identity = Identity::new(alice());

    assert!(identity.create_identity(alice()).is_ok());

    // Only alice is able to set the recovery account for her identity.
    assert_eq!(identity.set_recovery_account(bob(), bob()), Err(Error::NotAllowed));

    assert!(identity.set_recovery_account(alice(), bob()).is_ok());

    assert_eq!(identity.events().len(), 2);
    assert_eq!(
        identity.events().last(),
        Some(&Event::RecoveryAccountSet(RecoveryAccountSet {
            identity_no: 0,
            recovery_account: bob()
        }))
    );

    assert_eq!(identity.recovery_account_of(0), Some(bob()));
}

#[test]
fn transfer_ownership_works() {
    let identity_no = 0;

    let mut identity = Identity::new(alice());

    let polkadot_id: ChainId = 0;
    assert!(
        identity
            .add_chain(alice(), polkadot_id, info(Network::Polkadot, AccountType::AccountId32))
            .is_ok(),
        "Failed to add chain"
    );

    assert!(identity.create_identity(alice()).is_ok());

    assert_eq!(identity.owner_of(0), Some(alice()));
    assert_eq!(identity.identity(0).unwrap(), IdentityInfo::new());

    let encoded_address = encode(alice());

    assert!(identity.add_address(alice(), polkadot_id, encoded_address.clone()).is_ok());
    assert_eq!(addresses_of(&identity, 0), vec![(polkadot_id, encoded_address.clone())]);

    // Bob is neither the owner nor the recovery account.
    assert_eq!(identity.transfer_ownership(bob(), identity_no, bob()), Err(Error::NotAllowed));

    assert!(identity.transfer_ownership(alice(), identity_no, bob()).is_ok());

    // Bob is now the identity owner.
    assert_eq!(identity.owner_of(0), Some(bob()));
    assert_eq!(addresses_of(&identity, 0), vec![(polkadot_id, encoded_address.clone())]);
    assert_eq!(identity.identity_of(alice()), None);
    assert_eq!(identity.identity_of(bob()), Some(0));

    // He adds alice as a recovery account.
    assert!(identity.set_recovery_account(bob(), alice()).is_ok());

    // Alice transfers the ownership back to her account.
    assert!(identity.transfer_ownership(alice(), identity_no, alice()).is_ok());

    assert_eq!(identity.owner_of(0), Some(alice()));
    assert_eq!(addresses_of(&identity, 0), vec![(polkadot_id, encoded_address)]);
    assert_eq!(identity.identity_of(alice()), Some(0));
    assert_eq!(identity.identity_of(bob()), None);
}

#[test]
fn transfer_ownership_fails_when_new_owner_has_an_identity() {
    let identity_no = 0;

    let mut identity = Identity::new(alice());
    assert!(identity.create_identity(alice()).is_ok());
    assert!(identity.create_identity(bob()).is_ok());

    assert_eq!(
        identity.transfer_ownership(alice(), identity_no, bob()),
        Err(Error::AlreadyIdentityOwner)
    );
}

#[test]
fn init_with_chains_works() {
    let chains = vec![
        info(Network::Polkadot, AccountType::AccountId32),
        info(Network::Polkadot, AccountType::AccountId32),
        info(Network::Polkadot, AccountType::AccountKey20),
        info(Network::Polkadot, AccountType::AccountId32),
    ];
    let chain_ids: Vec<ChainId> = vec![0, 2000, 2004, 2006];
    let identity = Identity::init_with_chains(alice(), chains, chain_ids.clone());

    assert_eq!(
        identity.chain_info_of(0),
        Some(info(Network::Polkadot, AccountType::AccountId32))
    );
    assert_eq!(
        identity.chain_info_of(2000),
        Some(info(Network::Polkadot, AccountType::AccountId32))
    );
    assert_eq!(
        identity.chain_info_of(2004),
        Some(info(Network::Polkadot, AccountType::AccountKey20))
    );
    assert_eq!(
        identity.chain_info_of(2006),
        Some(info(Network::Polkadot, AccountType::AccountId32))
    );

    assert_eq!(identity.chain_ids(), &chain_ids);
    assert_eq!(
        identity.available_chains(),
        vec![
            (0, info(Network::Polkadot, AccountType::AccountId32)),
            (2000, info(Network::Polkadot, AccountType::AccountId32)),
            (2004, info(Network::Polkadot, AccountType::AccountKey20)),
            (2006, info(Network::Polkadot, AccountType::AccountId32)),
        ]
    );
}

#[test]
fn getting_transaction_destination_works() {
    let identity_no = 0;

    let mut identity = Identity::new(alice());

    let polkadot_id: ChainId = 0;
    assert!(
        identity
            .add_chain(alice(), polkadot_id, info(Network::Polkadot, AccountType::AccountId32))
            .is_ok(),
        "Failed to add chain"
    );

    assert!(identity.create_identity(alice()).is_ok());

    assert_eq!(identity.owner_of(0), Some(alice()));
    assert_eq!(identity.identity(0).unwrap(), IdentityInfo::new());

    let encoded_address = encode(alice());

    assert!(identity.add_address(alice(), polkadot_id, encoded_address.clone()).is_ok());
    assert_eq!(addresses_of(&identity, 0), vec![(polkadot_id, encoded_address.clone())]);

    assert_eq!(identity.transaction_destination(identity_no, polkadot_id), Ok(encoded_address));

    // The identity does not exist.
    assert_eq!(
        identity.transaction_destination(42, polkadot_id),
        Err(Error::IdentityDoesntExist)
    );

    let moonbeam_id: ChainId = 2004;
    assert!(
        identity
            .add_chain(alice(), moonbeam_id, info(Network::Polkadot, AccountType::AccountId32))
            .is_ok(),
        "Failed to add chain"
    );

    // Alice has no address on Moonbeam.
    assert_eq!(
        identity.transaction_destination(identity_no, moonbeam_id),
        Err(Error::InvalidChain)
    );
}

// Identity 0 for A, chain 0 on Polkadot, one address added, the second add refused.
#[test]
fn add_address_twice_is_refused() {
    let mut identity = Identity::new(alice());
    assert_eq!(identity.create_identity(alice()), Ok(0));
    assert!(identity
        .add_chain(alice(), 0, info(Network::Polkadot, AccountType::AccountId32))
        .is_ok());
    let addr_a = encode(alice());
    assert_eq!(identity.add_address(alice(), 0, addr_a.clone()), Ok(()));
    assert_eq!(identity.add_address(alice(), 0, addr_a.clone()), Err(Error::AddressAlreadyAdded));
    // Another address for the same chain is refused too, and nothing changes.
    assert_eq!(identity.add_address(alice(), 0, encode(bob())), Err(Error::AddressAlreadyAdded));
    assert_eq!(identity.transaction_destination(0, 0), Ok(addr_a));
    assert_eq!(identity.events().len(), 3);
}

// A creates identity 0 and makes B its recovery account; B hands it to C.
#[test]
fn recovery_account_transfers_ownership() {
    let mut identity = Identity::new(alice());
    assert_eq!(identity.create_identity(alice()), Ok(0));
    assert_eq!(identity.set_recovery_account(alice(), bob()), Ok(()));
    assert_eq!(identity.transfer_ownership(bob(), 0, charlie()), Ok(()));
    assert_eq!(
        identity.events().last(),
        Some(&Event::OwnershipTransferred(OwnershipTransferred {
            identity_no: 0,
            new_owner: charlie()
        }))
    );
    assert_eq!(identity.events().len(), 3);
    assert_eq!(identity.owner_of(0), Some(charlie()));
    assert_eq!(identity.identity_of(alice()), None);
    assert_eq!(identity.identity_of(charlie()), Some(0));
    // The recovery account stays in place.
    assert_eq!(identity.recovery_account_of(0), Some(bob()));
}

#[test]
fn third_account_cannot_transfer() {
    let dave = AccountId([4u8; 32]);
    let mut identity = Identity::new(alice());
    assert_eq!(identity.create_identity(alice()), Ok(0));
    assert_eq!(identity.set_recovery_account(alice(), bob()), Ok(()));
    assert_eq!(identity.transfer_ownership(charlie(), 0, dave), Err(Error::NotAllowed));
    // An identity that does not exist cannot be transferred either.
    assert_eq!(identity.transfer_ownership(alice(), 7, dave), Err(Error::NotAllowed));
    assert_eq!(identity.owner_of(0), Some(alice()));
}

#[test]
fn recovery_and_owner_transfers_agree() {
    let mut by_owner = Identity::new(alice());
    let mut by_recovery = Identity::new(alice());
    for registry in [&mut by_owner, &mut by_recovery] {
        assert_eq!(registry.create_identity(alice()), Ok(0));
        assert_eq!(registry.create_identity(charlie()), Ok(1));
        assert_eq!(registry.set_recovery_account(alice(), bob()), Ok(()));
    }
    // Both refuse a new owner that already owns an identity.
    assert_eq!(by_owner.transfer_ownership(alice(), 0, charlie()), Err(Error::AlreadyIdentityOwner));
    assert_eq!(
        by_recovery.transfer_ownership(bob(), 0, charlie()),
        Err(Error::AlreadyIdentityOwner)
    );
    let dave = AccountId([4u8; 32]);
    assert_eq!(by_owner.transfer_ownership(alice(), 0, dave), Ok(()));
    assert_eq!(by_recovery.transfer_ownership(bob(), 0, dave), Ok(()));
    assert_eq!(by_owner.owner_of(0), by_recovery.owner_of(0));
    assert_eq!(by_owner.identity_of(dave), Some(0));
    assert_eq!(by_recovery.identity_of(dave), Some(0));
}

#[test]
fn one_identity_per_account() {
    let mut identity = Identity::new(alice());
    assert_eq!(identity.create_identity(alice()), Ok(0));
    assert_eq!(identity.create_identity(bob()), Ok(1));
    assert_eq!(identity.create_identity(alice()), Err(Error::AlreadyIdentityOwner));
    assert_eq!(identity.transfer_ownership(alice(), 0, bob()), Err(Error::AlreadyIdentityOwner));
    assert_eq!(identity.remove_identity(bob()), Ok(()));
    assert_eq!(identity.transfer_ownership(alice(), 0, bob()), Ok(()));
    assert_eq!(identity.identity_of(bob()), Some(0));
    assert_eq!(identity.identity_of(alice()), None);
    // Numbers are never reused.
    assert_eq!(identity.create_identity(alice()), Ok(2));
    assert_eq!(identity.owner_of(1), None);
    assert_eq!(identity.owner_of(2), Some(alice()));
}

#[test]
fn address_round_trip() {
    let mut identity = Identity::new(alice());
    assert_eq!(identity.create_identity(alice()), Ok(0));
    assert_eq!(identity.add_address(alice(), 5, vec![1, 2, 3]), Ok(()));
    assert_eq!(identity.transaction_destination(0, 5), Ok(vec![1, 2, 3]));
    assert_eq!(identity.update_address(alice(), 5, vec![9]), Ok(()));
    assert_eq!(identity.transaction_destination(0, 5), Ok(vec![9]));
    assert_eq!(identity.remove_address(alice(), 5), Ok(()));
    assert_eq!(identity.transaction_destination(0, 5), Err(Error::InvalidChain));
}

#[test]
fn oversized_address_is_refused() {
    let mut identity = Identity::new(alice());
    assert_eq!(identity.create_identity(alice()), Ok(0));
    let largest = vec![7u8; ADDRESS_SIZE_LIMIT];
    let too_large = vec![7u8; ADDRESS_SIZE_LIMIT + 1];
    assert_eq!(identity.add_address(alice(), 1, too_large.clone()), Err(Error::AddressSizeExceeded));
    assert_eq!(identity.identity(0).unwrap(), IdentityInfo::new());
    assert_eq!(identity.add_address(alice(), 1, largest.clone()), Ok(()));
    assert_eq!(identity.update_address(alice(), 1, too_large), Err(Error::AddressSizeExceeded));
    assert_eq!(identity.transaction_destination(0, 1), Ok(largest));
    assert_eq!(identity.events().len(), 2);
}

#[test]
fn address_order_is_kept() {
    let mut identity = Identity::new(alice());
    assert_eq!(identity.create_identity(alice()), Ok(0));
    assert_eq!(identity.add_address(alice(), 3, vec![3]), Ok(()));
    assert_eq!(identity.add_address(alice(), 1, vec![1]), Ok(()));
    assert_eq!(identity.add_address(alice(), 2, vec![2]), Ok(()));
    assert_eq!(identity.update_address(alice(), 1, vec![10]), Ok(()));
    assert_eq!(addresses_of(&identity, 0), vec![(3, vec![3]), (1, vec![10]), (2, vec![2])]);
    assert_eq!(identity.remove_address(alice(), 3), Ok(()));
    assert_eq!(addresses_of(&identity, 0), vec![(1, vec![10]), (2, vec![2])]);
    assert_eq!(identity.get_identity_info_of_caller(alice()).unwrap().addresses(), &vec![
        (1, vec![10]),
        (2, vec![2])
    ]);
    assert_eq!(identity.get_identity_info_of_caller(bob()), Err(Error::IdentityDoesntExist));
}

#[test]
fn operations_without_identity_are_refused() {
    let mut identity = Identity::new(alice());
    assert_eq!(identity.add_address(bob(), 0, vec![1]), Err(Error::NotAllowed));
    assert_eq!(identity.update_address(bob(), 0, vec![1]), Err(Error::NotAllowed));
    assert_eq!(identity.remove_address(bob(), 0), Err(Error::NotAllowed));
    assert_eq!(identity.remove_identity(bob()), Err(Error::NotAllowed));
    assert_eq!(identity.set_recovery_account(bob(), alice()), Err(Error::NotAllowed));
    assert!(identity.events().is_empty());
}

#[test]
fn adding_a_chain_again_replaces_its_entry_in_place() {
    let mut identity = Identity::new(alice());
    let first = info(Network::Polkadot, AccountType::AccountId32);
    let second = info(Network::Kusama, AccountType::AccountKey20);
    assert_eq!(identity.add_chain(alice(), 7, first), Ok(()));
    assert_eq!(identity.add_chain(alice(), 8, first), Ok(()));
    assert_eq!(identity.add_chain(alice(), 7, second), Ok(()));
    assert_eq!(identity.chain_ids(), &vec![7, 8]);
    assert_eq!(identity.available_chains(), vec![(7, second), (8, first)]);
    assert_eq!(identity.update_chain(alice(), 8, None), Ok(()));
    assert_eq!(identity.chain_info_of(8), Some(first));
    assert_eq!(identity.remove_chain(alice(), 7), Ok(()));
    assert_eq!(identity.chain_ids(), &vec![8]);
    assert_eq!(identity.available_chains(), vec![(8, first)]);
}

#[test]
fn init_with_repeated_chain_keeps_the_last_entry() {
    let first = info(Network::Polkadot, AccountType::AccountId32);
    let second = info(Network::Kusama, AccountType::AccountKey20);
    let identity =
        Identity::init_with_chains(bob(), vec![first, second, first], vec![4, 6, 4]);
    assert_eq!(identity.admin(), bob());
    assert_eq!(identity.chain_info_of(4), Some(first));
    assert_eq!(identity.chain_ids(), &vec![4, 6]);
    assert_eq!(identity.available_chains(), vec![(4, first), (6, second)]);
    assert!(identity.events().is_empty());
}

#[test]
fn identity_info_operations() {
    let mut info = IdentityInfo::new();
    assert_eq!(info.add_address(1, vec![1]), Ok(()));
    assert_eq!(info.add_address(1, vec![2]), Err(Error::AddressAlreadyAdded));
    assert_eq!(info.add_address(2, vec![0u8; ADDRESS_SIZE_LIMIT + 1]), Err(Error::AddressSizeExceeded));
    assert_eq!(info.update_address(2, vec![2]), Err(Error::InvalidChain));
    assert_eq!(info.update_address(1, vec![3]), Ok(()));
    assert_eq!(info.addresses(), &vec![(1, vec![3])]);
    let copy = info.clone();
    assert_eq!(info.remove_address(1), Ok(()));
    assert_eq!(info.remove_address(1), Err(Error::InvalidChain));
    assert_eq!(copy.addresses(), &vec![(1, vec![3])]);
    assert_eq!(info, IdentityInfo::new());
}

#[test]
fn account_equality_and_conversion() {
    let a = AccountId::from([9u8; 32]);
    assert_eq!(a, AccountId([9u8; 32]));
    let mut bytes = [9u8; 32];
    bytes[31] = 8;
    assert_ne!(a, AccountId(bytes));
}
