//! The identity registry.

use crate::account_map::AccountMap;
use crate::identity_info::{chain_index, entry_view, has_chain, IdentityInfo};
use crate::identity_model::{
    directory_of, first_occurrences, lemma_directory_of_contains, lemma_first_occurrences,
    other_than, IdentityModel,
};
use crate::types::{
    AccountId, AccountType, ChainId, ChainInfo, EncryptedAddress, IdentityNo, Network,
};
use std::collections::HashMap;
use vstd::prelude::*;

verus! {

broadcast use vstd::std_specs::hash::group_hash_axioms;

/// The errors of the identity registry.
#[derive(Clone, Copy, Debug, PartialEq, Eq, Structural)]
pub enum Error {
    NotAllowed,
    IdentityDoesntExist,
    AddressAlreadyAdded,
    InvalidChain,
    AddressSizeExceeded,
    ChainNameTooLong,
    AlreadyIdentityOwner,
}

/// An identity was created.
#[derive(Debug, PartialEq)]
pub struct IdentityCreated {
    /// Owner of the created identity.
    pub owner: AccountId,
    /// The number of the created identity.
    pub identity_no: IdentityNo,
}

/// An address was added to an identity.
#[derive(Debug, PartialEq)]
pub struct AddressAdded {
    /// The identity that got updated.
    pub identity_no: IdentityNo,
    /// The chain on which a new address has been added.
    pub chain: ChainId,
    /// The newly added address.
    pub address: EncryptedAddress,
}

/// The address of an identity on a chain was replaced.
#[derive(Debug, PartialEq)]
pub struct AddressUpdated {
    /// The identity that got updated.
    pub identity_no: IdentityNo,
    /// The chain on which the address has been updated.
    pub chain: ChainId,
    /// The updated address value.
    pub updated_address: EncryptedAddress,
}

/// The address of an identity on a chain was removed.
#[derive(Debug, PartialEq)]
pub struct AddressRemoved {
    /// The identity that got updated.
    pub identity_no: IdentityNo,
    /// The chain on which the address has been removed.
    pub chain: ChainId,
}

/// An identity was removed.
#[derive(Debug, PartialEq)]
pub struct IdentityRemoved {
    /// The identity that got removed.
    pub identity_no: IdentityNo,
}

/// A chain was added to the directory.
#[derive(Debug, PartialEq)]
pub struct ChainAdded {
    /// The id of the newly added chain.
    pub chain_id: ChainId,
    /// The network to which the chain belongs.
    pub network: Network,
    /// The address type used on the chain.
    pub account_type: AccountType,
}

/// A chain of the directory was updated.
#[derive(Debug, PartialEq)]
pub struct ChainUpdated {
    /// The id of the updated chain.
    pub chain_id: ChainId,
    /// The address type now used on the chain.
    pub account_type: AccountType,
}

/// A chain was removed from the directory.
#[derive(Debug, PartialEq)]
pub struct ChainRemoved {
    /// The id of the removed chain.
    pub chain_id: ChainId,
}

/// An identity got a recovery account.
#[derive(Debug, PartialEq)]
pub struct RecoveryAccountSet {
    /// The identity that set a recovery account.
    pub identity_no: IdentityNo,
    /// The newly set recovery account.
    pub recovery_account: AccountId,
}

/// An identity got a new owner.
#[derive(Debug, PartialEq)]
pub struct OwnershipTransferred {
    /// The identity that changed hands.
    pub identity_no: IdentityNo,
    /// The account that owns it now.
    pub new_owner: AccountId,
}

/// The events that the registry emits, one for each successful change.
#[derive(Debug, PartialEq)]
pub enum Event {
    IdentityCreated(IdentityCreated),
    AddressAdded(AddressAdded),
    AddressUpdated(AddressUpdated),
    AddressRemoved(AddressRemoved),
    IdentityRemoved(IdentityRemoved),
    ChainAdded(ChainAdded),
    ChainUpdated(ChainUpdated),
    ChainRemoved(ChainRemoved),
    RecoveryAccountSet(RecoveryAccountSet),
    OwnershipTransferred(OwnershipTransferred),
}

/// The identity registry and its chain directory.
pub struct Identity {
    /// The addresses of each identity.
    number_to_identity: HashMap<IdentityNo, IdentityInfo>,
    /// The owner of each identity.
    owner_of: HashMap<IdentityNo, AccountId>,
    /// The identity of each owning account.
    identity_of: AccountMap<IdentityNo>,
    /// The account that may transfer an identity on its owner's behalf.
    recovery_account_of: HashMap<IdentityNo, AccountId>,
    /// The number that the next identity gets.
    latest_identity_no: IdentityNo,
    /// The chain directory; only the admin changes it.
    chain_info_of: HashMap<ChainId, ChainInfo>,
    /// The chains of the directory, in the order in which they were added.
    chain_ids: Vec<ChainId>,
    /// The account that curates the chain directory.
    admin: AccountId,
    /// The events emitted so far.
    events: Vec<Event>,
}

impl View for Identity {
    type V = IdentityModel;

    closed spec fn view(&self) -> IdentityModel {
        IdentityModel {
            identities: self.number_to_identity@.map_values(|info: IdentityInfo| info@),
            owner_of: self.owner_of@,
            identity_of: self.identity_of@,
            recovery_account_of: self.recovery_account_of@,
            latest_identity_no: self.latest_identity_no,
            chains: self.chain_info_of@,
            chain_ids: self.chain_ids@,
            admin: self.admin,
            events: self.events@,
        }
    }
}

impl Identity {
    pub closed spec fn wf(&self) -> bool {
        &&& self.identity_of.wf()
        &&& self@.valid()
    }

    /// A well-formed registry is valid: every law stated over valid models holds of it.
    pub proof fn lemma_wf_valid(&self)
        requires
            self.wf(),
        ensures
            self@.valid(),
    {
    }

    /// A registry without identities or chains, administered by `caller`.
    pub fn new(caller: AccountId) -> (r: Identity)
        ensures
            r.wf(),
            r@ == IdentityModel::empty(caller),
    {
        let r = Identity {
            number_to_identity: HashMap::new(),
            owner_of: HashMap::new(),
            identity_of: AccountMap::new(),
            recovery_account_of: HashMap::new(),
            latest_identity_no: 0,
            chain_info_of: HashMap::new(),
            chain_ids: Vec::new(),
            admin: caller,
            events: Vec::new(),
        };
        proof {
            assert(r@.identities =~= Map::empty());
            assert(r@ =~= IdentityModel::empty(caller));
        }
        r
    }

    /// A registry without identities whose directory lists `chain_ids[i] -> chains[i]`,
    /// administered by `caller`.
    pub fn init_with_chains(caller: AccountId, chains: Vec<ChainInfo>, chain_ids: Vec<ChainId>) -> (r:
        Identity)
        requires
            chains@.len() == chain_ids@.len(),
        ensures
            r.wf(),
            r@ == IdentityModel::with_chains(caller, chain_ids@, chains@),
    {
        let mut chain_info_of: HashMap<ChainId, ChainInfo> = HashMap::new();
        let mut listed: Vec<ChainId> = Vec::new();
        let mut i: usize = 0;
        while i < chain_ids.len()
            invariant
                chains@.len() == chain_ids@.len(),
                0 <= i <= chain_ids@.len(),
                chain_info_of@ == directory_of(
                    chain_ids@.subrange(0, i as int),
                    chains@.subrange(0, i as int),
                ),
                listed@ == first_occurrences(chain_ids@.subrange(0, i as int)),
            decreases chain_ids@.len() - i,
        {
            let id = chain_ids[i];
            proof {
                let prefix = chain_ids@.subrange(0, i as int);
                lemma_directory_of_contains(prefix, chains@.subrange(0, i as int), id);
                lemma_first_occurrences(prefix);
            }
            if !chain_info_of.contains_key(&id) {
                listed.push(id);
            }
            chain_info_of.insert(id, chains[i]);
            proof {
                let ids = chain_ids@.subrange(0, i + 1);
                let infos = chains@.subrange(0, i + 1);
                assert(ids.drop_last() =~= chain_ids@.subrange(0, i as int));
                assert(infos.drop_last() =~= chains@.subrange(0, i as int));
            }
            i = i + 1;
        }
        let r = Identity {
            number_to_identity: HashMap::new(),
            owner_of: HashMap::new(),
            identity_of: AccountMap::new(),
            recovery_account_of: HashMap::new(),
            latest_identity_no: 0,
            chain_info_of,
            chain_ids: listed,
            admin: caller,
            events: Vec::new(),
        };
        proof {
            assert(chain_ids@.subrange(0, chain_ids@.len() as int) =~= chain_ids@);
            assert(chains@.subrange(0, chains@.len() as int) =~= chains@);
            assert(r@.identities =~= Map::empty());
            assert(r@ =~= IdentityModel::with_chains(caller, chain_ids@, chains@));
            lemma_first_occurrences(chain_ids@);
            assert forall|k: int| 0 <= k < r@.chain_ids.len() implies r@.chains.contains_key(
                #[trigger] r@.chain_ids[k],
            ) by {
                lemma_directory_of_contains(chain_ids@, chains@, r@.chain_ids[k]);
                assert(r@.chain_ids.contains(r@.chain_ids[k]));
            }
            assert forall|c: ChainId| #[trigger] r@.chains.contains_key(c) implies r@.chain_ids.contains(c) by {
                lemma_directory_of_contains(chain_ids@, chains@, c);
            }
        }
        r
    }

    /// Creates an identity owned by `caller` and returns its number.
    pub fn create_identity(&mut self, caller: AccountId) -> (r: Result<IdentityNo, Error>)
        requires
            old(self).wf(),
            old(self)@.latest_identity_no < IdentityNo::MAX,
        ensures
            final(self).wf(),
            (final(self)@, r) == old(self)@.create_identity(caller),
    {
        if self.identity_of.contains_key(&caller) {
            return Err(Error::AlreadyIdentityOwner);
        }
        let ghost old_model = self@;
        let identity_no = self.latest_identity_no;
        let new_identity = IdentityInfo::new();
        self.number_to_identity.insert(identity_no, new_identity);
        self.identity_of.insert(caller, identity_no);
        self.owner_of.insert(identity_no, caller);
        self.latest_identity_no = self.latest_identity_no + 1;
        self.events.push(Event::IdentityCreated(IdentityCreated { owner: caller, identity_no }));
        proof {
            assert(self@.identities =~= old_model.identities.insert(identity_no, Seq::empty()));
            assert(self@ == old_model.create_identity(caller).0);
            old_model.lemma_create_identity_valid(caller);
        }
        Ok(identity_no)
    }

    /// Adds an address for `chain` to the identity of `caller`.
    pub fn add_address(&mut self, caller: AccountId, chain: ChainId, address: EncryptedAddress) -> (r:
        Result<(), Error>)
        requires
            old(self).wf(),
        ensures
            final(self).wf(),
            (final(self)@, r) == old(self)@.add_address(caller, chain, address),
    {
        let identity_no = match self.identity_of.get(&caller) {
            Some(n) => *n,
            None => return Err(Error::NotAllowed),
        };
        let ghost old_model = self@;
        proof {
            old_model.lemma_add_address_valid(caller, chain, address);
            assert(old_model.owner_of.contains_key(identity_no));
            assert(old_model.identities.contains_key(identity_no));
        }
        let mut identity_info = match self.number_to_identity.remove(&identity_no) {
            Some(info) => info,
            None => return Err(Error::IdentityDoesntExist),
        };
        proof {
            assert(identity_info@ == old_model.identities[identity_no]);
        }
        let stored = address.clone();
        proof {
            assert(stored@ =~= address@);
        }
        let result = identity_info.add_address(chain, stored);
        let ghost list = identity_info@;
        self.number_to_identity.insert(identity_no, identity_info);
        if result.is_ok() {
            self.events.push(Event::AddressAdded(AddressAdded { identity_no, chain, address }));
        }
        proof {
            assert(self@.identities =~= old_model.identities.insert(identity_no, list));
            if result.is_err() {
                assert(self@.identities =~= old_model.identities);
                assert(self@ == old_model);
            }
        }
        result
    }

    /// Replaces the address for `chain` of the identity of `caller`.
    pub fn update_address(&mut self, caller: AccountId, chain: ChainId, address: EncryptedAddress) -> (r:
        Result<(), Error>)
        requires
            old(self).wf(),
        ensures
            final(self).wf(),
            (final(self)@, r) == old(self)@.update_address(caller, chain, address),
    {
        let identity_no = match self.identity_of.get(&caller) {
            Some(n) => *n,
            None => return Err(Error::NotAllowed),
        };
        let ghost old_model = self@;
        proof {
            old_model.lemma_update_address_valid(caller, chain, address);
            assert(old_model.owner_of.contains_key(identity_no));
            assert(old_model.identities.contains_key(identity_no));
        }
        let mut identity_info = match self.number_to_identity.remove(&identity_no) {
            Some(info) => info,
            None => return Err(Error::IdentityDoesntExist),
        };
        proof {
            assert(identity_info@ == old_model.identities[identity_no]);
        }
        let stored = address.clone();
        proof {
            assert(stored@ =~= address@);
        }
        let result = identity_info.update_address(chain, stored);
        let ghost list = identity_info@;
        self.number_to_identity.insert(identity_no, identity_info);
        if result.is_ok() {
            self.events.push(
                Event::AddressUpdated(
                    AddressUpdated { identity_no, chain, updated_address: address },
                ),
            );
        }
        proof {
            assert(self@.identities =~= old_model.identities.insert(identity_no, list));
            if result.is_err() {
                assert(self@.identities =~= old_model.identities);
                assert(self@ == old_model);
            }
        }
        result
    }

    /// Removes the address for `chain` from the identity of `caller`.
    pub fn remove_address(&mut self, caller: AccountId, chain: ChainId) -> (r: Result<(), Error>)
        requires
            old(self).wf(),
        ensures
            final(self).wf(),
            (final(self)@, r) == old(self)@.remove_address(caller, chain),
    {
        let identity_no = match self.identity_of.get(&caller) {
            Some(n) => *n,
            None => return Err(Error::NotAllowed),
        };
        let ghost old_model = self@;
        proof {
            old_model.lemma_remove_address_valid(caller, chain);
            assert(old_model.owner_of.contains_key(identity_no));
            assert(old_model.identities.contains_key(identity_no));
        }
        let mut identity_info = match self.number_to_identity.remove(&identity_no) {
            Some(info) => info,
            None => return Err(Error::IdentityDoesntExist),
        };
        proof {
            assert(identity_info@ == old_model.identities[identity_no]);
        }
        let result = identity_info.remove_address(chain);
        let ghost list = identity_info@;
        self.number_to_identity.insert(identity_no, identity_info);
        if result.is_ok() {
            self.events.push(Event::AddressRemoved(AddressRemoved { identity_no, chain }));
        }
        proof {
            assert(self@.identities =~= old_model.identities.insert(identity_no, list));
            if result.is_err() {
                assert(self@.identities =~= old_model.identities);
                assert(self@ == old_model);
            }
        }
        result
    }

    /// Removes the identity of `caller`, with its owner and its addresses.
    pub fn remove_identity(&mut self, caller: AccountId) -> (r: Result<(), Error>)
        requires
            old(self).wf(),
        ensures
            final(self).wf(),
            (final(self)@, r) == old(self)@.remove_identity(caller),
    {
        let identity_no = match self.identity_of.get(&caller) {
            Some(n) => *n,
            None => return Err(Error::NotAllowed),
        };
        let ghost old_model = self@;
        self.identity_of.remove(&caller);
        self.owner_of.remove(&identity_no);
        self.number_to_identity.remove(&identity_no);
        self.events.push(Event::IdentityRemoved(IdentityRemoved { identity_no }));
        proof {
            assert(self@.identities =~= old_model.identities.remove(identity_no));
            assert(self@ == old_model.remove_identity(caller).0);
            old_model.lemma_remove_identity_valid(caller);
        }
        Ok(())
    }

    /// Makes `recovery_account` the recovery account of the identity of `caller`.
    pub fn set_recovery_account(&mut self, caller: AccountId, recovery_account: AccountId) -> (r:
        Result<(), Error>)
        requires
            old(self).wf(),
        ensures
            final(self).wf(),
            (final(self)@, r) == old(self)@.set_recovery_account(caller, recovery_account),
    {
        let identity_no = match self.identity_of.get(&caller) {
            Some(n) => *n,
            None => return Err(Error::NotAllowed),
        };
        let ghost old_model = self@;
        self.recovery_account_of.insert(identity_no, recovery_account);
        self.events.push(
            Event::RecoveryAccountSet(RecoveryAccountSet { identity_no, recovery_account }),
        );
        proof {
            assert(self@ == old_model.set_recovery_account(caller, recovery_account).0);
            old_model.lemma_set_recovery_account_valid(caller, recovery_account);
        }
        Ok(())
    }

    /// Hands identity `identity_no` to `new_owner`; `caller` must be its owner or its
    /// recovery account.
    pub fn transfer_ownership(&mut self, caller: AccountId, identity_no: IdentityNo, new_owner: AccountId) -> (r:
        Result<(), Error>)
        requires
            old(self).wf(),
        ensures
            final(self).wf(),
            (final(self)@, r) == old(self)@.transfer_ownership(caller, identity_no, new_owner),
    {
        let is_recovery_account = match self.recovery_account_of.get(&identity_no) {
            Some(account) => *account == caller,
            None => false,
        };
        let identity_owner = match self.owner_of.get(&identity_no) {
            Some(owner) => *owner,
            None => return Err(Error::NotAllowed),
        };
        if !(identity_owner == caller || is_recovery_account) {
            return Err(Error::NotAllowed);
        }
        if self.identity_of.contains_key(&new_owner) {
            return Err(Error::AlreadyIdentityOwner);
        }
        let ghost old_model = self@;
        self.identity_of.remove(&identity_owner);
        self.identity_of.insert(new_owner, identity_no);
        self.owner_of.insert(identity_no, new_owner);
        self.events.push(
            Event::OwnershipTransferred(OwnershipTransferred { identity_no, new_owner }),
        );
        proof {
            assert(self@ == old_model.transfer_ownership(caller, identity_no, new_owner).0);
            old_model.lemma_transfer_ownership_valid(caller, identity_no, new_owner);
        }
        Ok(())
    }
    /// Adds `chain_id` to the directory; only the admin may.
    pub fn add_chain(&mut self, caller: AccountId, chain_id: ChainId, info: ChainInfo) -> (r: Result<
        (),
        Error,
    >)
        requires
            old(self).wf(),
        ensures
            final(self).wf(),
            (final(self)@, r) == old(self)@.add_chain(caller, chain_id, info),
    {
        if !(caller == self.admin) {
            return Err(Error::NotAllowed);
        }
        let ghost old_model = self@;
        if !self.chain_info_of.contains_key(&chain_id) {
            self.chain_ids.push(chain_id);
        }
        self.chain_info_of.insert(chain_id, info);
        let ChainInfo { account_type, network } = info;
        self.events.push(Event::ChainAdded(ChainAdded { chain_id, network, account_type }));
        proof {
            assert(self@ == old_model.add_chain(caller, chain_id, info).0);
            old_model.lemma_add_chain_valid(caller, chain_id, info);
        }
        Ok(())
    }

    /// Sets the address type of a listed chain, when one is given; only the admin may.
    pub fn update_chain(
        &mut self,
        caller: AccountId,
        chain_id: ChainId,
        new_address_type: Option<AccountType>,
    ) -> (r: Result<(), Error>)
        requires
            old(self).wf(),
        ensures
            final(self).wf(),
            (final(self)@, r) == old(self)@.update_chain(caller, chain_id, new_address_type),
    {
        if !(caller == self.admin) {
            return Err(Error::NotAllowed);
        }
        let mut info = match self.chain_info_of.get(&chain_id) {
            Some(info) => *info,
            None => return Err(Error::InvalidChain),
        };
        if let Some(account_type) = new_address_type {
            info.account_type = account_type;
        }
        let ghost old_model = self@;
        self.chain_info_of.insert(chain_id, info);
        self.events.push(
            Event::ChainUpdated(ChainUpdated { chain_id, account_type: info.account_type }),
        );
        proof {
            assert(self@ == old_model.update_chain(caller, chain_id, new_address_type).0);
            old_model.lemma_update_chain_valid(caller, chain_id, new_address_type);
        }
        Ok(())
    }

    /// Removes a listed chain from the directory; only the admin may.
    pub fn remove_chain(&mut self, caller: AccountId, chain_id: ChainId) -> (r: Result<(), Error>)
        requires
            old(self).wf(),
        ensures
            final(self).wf(),
            (final(self)@, r) == old(self)@.remove_chain(caller, chain_id),
    {
        if !(caller == self.admin) {
            return Err(Error::NotAllowed);
        }
        if !self.chain_info_of.contains_key(&chain_id) {
            return Err(Error::InvalidChain);
        }
        let ghost old_model = self@;
        self.chain_info_of.remove(&chain_id);
        let mut kept: Vec<ChainId> = Vec::new();
        let mut i: usize = 0;
        while i < self.chain_ids.len()
            invariant
                0 <= i <= self.chain_ids@.len(),
                kept@ == self.chain_ids@.subrange(0, i as int).filter(other_than(chain_id)),
            decreases self.chain_ids@.len() - i,
        {
            proof {
                let prefix = self.chain_ids@.subrange(0, i + 1);
                assert(prefix.drop_last() =~= self.chain_ids@.subrange(0, i as int));
                reveal(Seq::filter);
            }
            if self.chain_ids[i] != chain_id {
                kept.push(self.chain_ids[i]);
            }
            i = i + 1;
        }
        proof {
            assert(self.chain_ids@.subrange(0, self.chain_ids@.len() as int) =~= self.chain_ids@);
        }
        self.chain_ids = kept;
        self.events.push(Event::ChainRemoved(ChainRemoved { chain_id }));
        proof {
            assert(self@ == old_model.remove_chain(caller, chain_id).0);
            old_model.lemma_remove_chain_valid(caller, chain_id);
        }
        Ok(())
    }

    /// The addresses of identity `identity_no`, if it exists.
    pub fn identity(&self, identity_no: IdentityNo) -> (r: Option<IdentityInfo>)
        requires
            self.wf(),
        ensures
            r matches Some(info) ==> info.wf() && info@ == self@.identities[identity_no],
            r is Some <==> self@.identities.contains_key(identity_no),
    {
        match self.number_to_identity.get(&identity_no) {
            Some(info) => {
                proof {
                    assert(self@.identities.contains_key(identity_no));
                }
                Some(info.clone())
            },
            None => None,
        }
    }

    /// The owner of identity `identity_no`.
    pub fn owner_of(&self, identity_no: IdentityNo) -> (r: Option<AccountId>)
        ensures
            r == self@.owner_of.get(identity_no),
    {
        match self.owner_of.get(&identity_no) {
            Some(owner) => Some(*owner),
            None => None,
        }
    }

    /// The identity that `owner` owns.
    pub fn identity_of(&self, owner: AccountId) -> (r: Option<IdentityNo>)
        requires
            self.wf(),
        ensures
            r == self@.identity_of.get(owner),
    {
        match self.identity_of.get(&owner) {
            Some(n) => Some(*n),
            None => None,
        }
    }

    /// What the directory records of `chain_id`.
    pub fn chain_info_of(&self, chain_id: ChainId) -> (r: Option<ChainInfo>)
        ensures
            r == self@.chains.get(chain_id),
    {
        match self.chain_info_of.get(&chain_id) {
            Some(info) => Some(*info),
            None => None,
        }
    }

    /// The recovery account of identity `identity_no`.
    pub fn recovery_account_of(&self, identity_no: IdentityNo) -> (r: Option<AccountId>)
        ensures
            r == self@.recovery_account_of.get(identity_no),
    {
        match self.recovery_account_of.get(&identity_no) {
            Some(account) => Some(*account),
            None => None,
        }
    }

    /// The address to which a transaction for identity `receiver` on `chain` goes.
    pub fn transaction_destination(&self, receiver: IdentityNo, chain: ChainId) -> (r: Result<
        EncryptedAddress,
        Error,
    >)
        requires
            self.wf(),
        ensures
            match r {
                Ok(address) => self@.transaction_destination(receiver, chain) == Ok::<
                    Seq<u8>,
                    Error,
                >(address@),
                Err(e) => self@.transaction_destination(receiver, chain) == Err::<Seq<u8>, Error>(e),
            },
    {
        let receiver_identity = match self.number_to_identity.get(&receiver) {
            Some(info) => info,
            None => return Err(Error::IdentityDoesntExist),
        };
        proof {
            assert(self@.identities.contains_key(receiver));
            assert(receiver_identity@ == self@.identities[receiver]);
        }
        let addresses = receiver_identity.addresses();
        let mut i: usize = 0;
        while i < addresses.len()
            invariant
                self@.identities.contains_key(receiver),
                receiver_identity@ == self@.identities[receiver],
                receiver_identity.wf(),
                addresses@.map_values(|entry: (ChainId, EncryptedAddress)| entry_view(entry))
                    == receiver_identity@,
                0 <= i <= addresses@.len(),
                forall|j: int| 0 <= j < i ==> receiver_identity@[j].0 != chain,
            decreases addresses@.len() - i,
        {
            if addresses[i].0 == chain {
                let address = addresses[i].1.clone();
                proof {
                    let list = receiver_identity@;
                    assert(list[i as int].0 == chain);
                    assert(has_chain(list, chain));
                    let k = chain_index(list, chain);
                    assert(list[k].0 == chain);
                    if k < i {
                        assert(list[k].0 != list[i as int].0);
                    } else if k > i {
                        assert(list[i as int].0 != list[k].0);
                    }
                    assert(list[i as int] == entry_view(addresses@[i as int]));
                    assert(address@ =~= list[i as int].1);
                }
                return Ok(address);
            }
            i = i + 1;
        }
        Err(Error::InvalidChain)
    }

    /// The directory as a list, in the order in which the chains were added.
    pub fn available_chains(&self) -> (r: Vec<(ChainId, ChainInfo)>)
        requires
            self.wf(),
        ensures
            r@ == self@.available_chains(),
    {
        let mut chains: Vec<(ChainId, ChainInfo)> = Vec::new();
        let mut i: usize = 0;
        while i < self.chain_ids.len()
            invariant
                self.wf(),
                0 <= i <= self.chain_ids@.len(),
                chains@ == self@.chain_ids.subrange(0, i as int).map_values(
                    |id: ChainId| (id, self@.chains[id]),
                ),
            decreases self.chain_ids@.len() - i,
        {
            let id = self.chain_ids[i];
            proof {
                assert(self@.chains.contains_key(self@.chain_ids[i as int]));
            }
            if let Some(info) = self.chain_info_of.get(&id) {
                chains.push((id, *info));
            }
            proof {
                assert(chains@ =~= self@.chain_ids.subrange(0, i + 1).map_values(
                    |id: ChainId| (id, self@.chains[id]),
                ));
            }
            i = i + 1;
        }
        proof {
            assert(self@.chain_ids.subrange(0, self@.chain_ids.len() as int) =~= self@.chain_ids);
        }
        chains
    }

    /// The addresses of the identity that `caller` owns.
    pub fn get_identity_info_of_caller(&self, caller: AccountId) -> (r: Result<IdentityInfo, Error>)
        requires
            self.wf(),
        ensures
            r matches Ok(info) ==> info.wf() && self@.identity_of.contains_key(caller)
                && self@.identities.contains_key(self@.identity_of[caller])
                && info@ == self@.identities[self@.identity_of[caller]],
            r matches Err(e) ==> e == Error::IdentityDoesntExist && !self@.identity_of.contains_key(
                caller,
            ),
    {
        let identity_no = match self.identity_of.get(&caller) {
            Some(n) => *n,
            None => return Err(Error::IdentityDoesntExist),
        };
        proof {
            assert(self@.identity_of.contains_key(caller));
            assert(self@.identity_of[caller] == identity_no);
            assert(self@.owner_of.contains_key(identity_no));
        }
        match self.identity(identity_no) {
            Some(info) => Ok(info),
            None => Err(Error::IdentityDoesntExist),
        }
    }

    /// The number that the next identity gets.
    pub fn latest_identity_no(&self) -> (r: IdentityNo)
        ensures
            r == self@.latest_identity_no,
    {
        self.latest_identity_no
    }

    /// The account that curates the chain directory.
    pub fn admin(&self) -> (r: AccountId)
        ensures
            r == self@.admin,
    {
        self.admin
    }

    /// The chains of the directory, in the order in which they were added.
    pub fn chain_ids(&self) -> (r: &Vec<ChainId>)
        ensures
            r@ == self@.chain_ids,
    {
        &self.chain_ids
    }

    /// The events emitted so far, oldest first.
    pub fn events(&self) -> (r: &Vec<Event>)
        ensures
            r@ == self@.events,
    {
        &self.events
    }
}

} // verus!