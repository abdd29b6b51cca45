//! The mathematical model of the identity registry, and what each operation does to it.

use crate::identity::{
    AddressAdded, AddressRemoved, AddressUpdated, ChainAdded, ChainRemoved, ChainUpdated, Error,
    Event, IdentityCreated, IdentityRemoved, OwnershipTransferred, RecoveryAccountSet,
};
use crate::identity_info::{
    add_address_step, address_on, chain_index, has_chain, remove_address_step, update_address_step,
    valid_address_list, AddressList,
};
use crate::types::{
    AccountId, AccountType, ChainAddress, ChainId, ChainInfo, IdentityNo, ADDRESS_SIZE_LIMIT,
};
use vstd::prelude::*;

verus! {

/// The state of the registry.
#[verifier::ext_equal]
pub struct IdentityModel {
    /// The addresses of each existing identity.
    pub identities: Map<IdentityNo, AddressList>,
    /// The owner of each existing identity.
    pub owner_of: Map<IdentityNo, AccountId>,
    /// The identity that each owning account owns.
    pub identity_of: Map<AccountId, IdentityNo>,
    /// The account that may transfer an identity on its owner's behalf.
    pub recovery_account_of: Map<IdentityNo, AccountId>,
    /// The number that the next identity gets.
    pub latest_identity_no: IdentityNo,
    /// The chain directory.
    pub chains: Map<ChainId, ChainInfo>,
    /// The chains of the directory, in the order in which they were added.
    pub chain_ids: Seq<ChainId>,
    /// The account that curates the chain directory.
    pub admin: AccountId,
    /// The events emitted so far, oldest first.
    pub events: Seq<Event>,
}

/// The chain directory made of `ids[i] -> infos[i]`, a later entry replacing an earlier one
/// with the same id.
pub open spec fn directory_of(ids: Seq<ChainId>, infos: Seq<ChainInfo>) -> Map<ChainId, ChainInfo>
    decreases ids.len(),
{
    if ids.len() == 0 {
        Map::empty()
    } else {
        directory_of(ids.drop_last(), infos.drop_last()).insert(ids.last(), infos.last())
    }
}

/// The test that keeps every chain but `chain_id`.
pub open spec fn other_than(chain_id: ChainId) -> spec_fn(ChainId) -> bool {
    |c: ChainId| c != chain_id
}

/// The ids of `ids`, each once, in the order of their first occurrence.
pub open spec fn first_occurrences(ids: Seq<ChainId>) -> Seq<ChainId>
    decreases ids.len(),
{
    if ids.len() == 0 {
        Seq::empty()
    } else {
        let earlier = first_occurrences(ids.drop_last());
        if earlier.contains(ids.last()) {
            earlier
        } else {
            earlier.push(ids.last())
        }
    }
}

/// `first_occurrences(ids)` holds the ids of `ids`, each once.
pub proof fn lemma_first_occurrences(ids: Seq<ChainId>)
    ensures
        first_occurrences(ids).no_duplicates(),
        forall|c: ChainId| #[trigger] first_occurrences(ids).contains(c) <==> ids.contains(c),
    decreases ids.len(),
{
    if ids.len() > 0 {
        let rest = ids.drop_last();
        lemma_first_occurrences(rest);
        let earlier = first_occurrences(rest);
        assert(ids[ids.len() - 1] == ids.last());
        assert forall|c: ChainId| #[trigger] first_occurrences(ids).contains(c) <==> ids.contains(c) by {
            if ids.contains(c) && c != ids.last() {
                let i = choose|i: int| 0 <= i < ids.len() && ids[i] == c;
                assert(rest[i] == c);
            }
            if rest.contains(c) {
                let i = choose|i: int| 0 <= i < rest.len() && rest[i] == c;
                assert(ids[i] == c);
            }
            if !earlier.contains(ids.last()) && first_occurrences(ids).contains(c) {
                let i = choose|i: int| 0 <= i < earlier.len() + 1 && earlier.push(ids.last())[i] == c;
                if i < earlier.len() {
                    assert(earlier[i] == c);
                }
            }
            if !earlier.contains(ids.last()) && earlier.contains(c) {
                let i = choose|i: int| 0 <= i < earlier.len() && earlier[i] == c;
                assert(earlier.push(ids.last())[i] == c);
            }
            if !earlier.contains(ids.last()) && c == ids.last() {
                assert(earlier.push(ids.last())[earlier.len() as int] == c);
            }
        }
    }
}

/// Filtering a list without repeats leaves a list without repeats.
pub proof fn lemma_filter_no_duplicates(ids: Seq<ChainId>, pred: spec_fn(ChainId) -> bool)
    requires
        ids.no_duplicates(),
    ensures
        ids.filter(pred).no_duplicates(),
    decreases ids.len(),
{
    reveal(Seq::filter);
    if ids.len() > 0 {
        let rest = ids.drop_last();
        assert(rest.no_duplicates());
        lemma_filter_no_duplicates(rest, pred);
        if rest.filter(pred).contains(ids.last()) {
            rest.lemma_filter_contains_rev(pred, ids.last());
            let i = choose|i: int| 0 <= i < rest.len() && rest[i] == ids.last();
            assert(ids[i] == ids[ids.len() - 1]);
        }
    }
}

/// A chain is in the directory built from `ids` exactly when `ids` lists it.
pub proof fn lemma_directory_of_contains(ids: Seq<ChainId>, infos: Seq<ChainInfo>, c: ChainId)
    ensures
        directory_of(ids, infos).contains_key(c) <==> ids.contains(c),
    decreases ids.len(),
{
    if ids.len() > 0 {
        lemma_directory_of_contains(ids.drop_last(), infos.drop_last(), c);
        if ids.drop_last().contains(c) {
            let i = choose|i: int| 0 <= i < ids.drop_last().len() && ids.drop_last()[i] == c;
            assert(ids[i] == c);
        }
        if ids.contains(c) && c != ids.last() {
            let i = choose|i: int| 0 <= i < ids.len() && ids[i] == c;
            assert(ids.drop_last()[i] == c);
        }
        assert(ids[ids.len() - 1] == ids.last());
    }
}

impl IdentityModel {
    /// A registry without identities or chains, administered by `admin`.
    pub open spec fn empty(admin: AccountId) -> IdentityModel {
        IdentityModel {
            identities: Map::empty(),
            owner_of: Map::empty(),
            identity_of: Map::empty(),
            recovery_account_of: Map::empty(),
            latest_identity_no: 0,
            chains: Map::empty(),
            chain_ids: Seq::empty(),
            admin,
            events: Seq::empty(),
        }
    }

    /// A registry without identities whose directory lists `ids[i] -> infos[i]`; an id
    /// given twice is listed once, where it first occurs, with its last entry.
    pub open spec fn with_chains(admin: AccountId, ids: Seq<ChainId>, infos: Seq<ChainInfo>) -> IdentityModel {
        IdentityModel {
            chains: directory_of(ids, infos),
            chain_ids: first_occurrences(ids),
            ..IdentityModel::empty(admin)
        }
    }

    /// What holds after every operation:
    /// - owners and owned identities are mutual inverses, so an account owns at most one
    ///   identity and an identity has exactly one owner;
    /// - every existing identity has an owner and a number below the next one to assign;
    /// - each identity's address list is valid;
    /// - the directory's list and map hold the same chains, the list each once.
    pub open spec fn valid(self) -> bool {
        &&& self.owner_of.dom() == self.identities.dom()
        &&& forall|n: IdentityNo| #[trigger]
            self.owner_of.contains_key(n) ==> {
                &&& self.identity_of.contains_key(self.owner_of[n])
                &&& self.identity_of[self.owner_of[n]] == n
            }
        &&& forall|a: AccountId| #[trigger]
            self.identity_of.contains_key(a) ==> {
                &&& self.owner_of.contains_key(self.identity_of[a])
                &&& self.owner_of[self.identity_of[a]] == a
            }
        &&& forall|n: IdentityNo| #[trigger]
            self.identities.contains_key(n) ==> {
                &&& n < self.latest_identity_no
                &&& valid_address_list(self.identities[n])
            }
        &&& forall|i: int|
            0 <= i < self.chain_ids.len() ==> self.chains.contains_key(#[trigger] self.chain_ids[i])
        &&& forall|c: ChainId| #[trigger] self.chains.contains_key(c) ==> self.chain_ids.contains(c)
        &&& self.chain_ids.no_duplicates()
    }

    /// `create_identity` by `caller`.
    pub open spec fn create_identity(self, caller: AccountId) -> (IdentityModel, Result<IdentityNo, Error>) {
        if self.identity_of.contains_key(caller) {
            (self, Err(Error::AlreadyIdentityOwner))
        } else {
            let n = self.latest_identity_no;
            (
                IdentityModel {
                    identities: self.identities.insert(n, Seq::empty()),
                    owner_of: self.owner_of.insert(n, caller),
                    identity_of: self.identity_of.insert(caller, n),
                    latest_identity_no: (n + 1) as IdentityNo,
                    events: self.events.push(
                        Event::IdentityCreated(IdentityCreated { owner: caller, identity_no: n }),
                    ),
                    ..self
                },
                Ok(n),
            )
        }
    }

    /// The model after the addresses of identity `n` became `list` and `event` was emitted.
    pub open spec fn with_addresses(self, n: IdentityNo, list: AddressList, event: Event) -> IdentityModel {
        IdentityModel {
            identities: self.identities.insert(n, list),
            events: self.events.push(event),
            ..self
        }
    }

    /// `add_address` by `caller`.
    pub open spec fn add_address(self, caller: AccountId, chain: ChainId, address: ChainAddress) -> (
        IdentityModel,
        Result<(), Error>,
    ) {
        if !self.identity_of.contains_key(caller) {
            (self, Err(Error::NotAllowed))
        } else {
            let n = self.identity_of[caller];
            let (list, r) = add_address_step(self.identities[n], chain, address@);
            if r is Ok {
                let event = Event::AddressAdded(AddressAdded { identity_no: n, chain, address });
                (self.with_addresses(n, list, event), r)
            } else {
                (self, r)
            }
        }
    }

    /// `update_address` by `caller`.
    pub open spec fn update_address(self, caller: AccountId, chain: ChainId, address: ChainAddress) -> (
        IdentityModel,
        Result<(), Error>,
    ) {
        if !self.identity_of.contains_key(caller) {
            (self, Err(Error::NotAllowed))
        } else {
            let n = self.identity_of[caller];
            let (list, r) = update_address_step(self.identities[n], chain, address@);
            if r is Ok {
                let event = Event::AddressUpdated(
                    AddressUpdated { identity_no: n, chain, updated_address: address },
                );
                (self.with_addresses(n, list, event), r)
            } else {
                (self, r)
            }
        }
    }

    /// `remove_address` by `caller`.
    pub open spec fn remove_address(self, caller: AccountId, chain: ChainId) -> (
        IdentityModel,
        Result<(), Error>,
    ) {
        if !self.identity_of.contains_key(caller) {
            (self, Err(Error::NotAllowed))
        } else {
            let n = self.identity_of[caller];
            let (list, r) = remove_address_step(self.identities[n], chain);
            if r is Ok {
                let event = Event::AddressRemoved(AddressRemoved { identity_no: n, chain });
                (self.with_addresses(n, list, event), r)
            } else {
                (self, r)
            }
        }
    }

    /// `remove_identity` by `caller`: the identity, its owner and its addresses go.
    pub open spec fn remove_identity(self, caller: AccountId) -> (IdentityModel, Result<(), Error>) {
        if !self.identity_of.contains_key(caller) {
            (self, Err(Error::NotAllowed))
        } else {
            let n = self.identity_of[caller];
            (
                IdentityModel {
                    identities: self.identities.remove(n),
                    owner_of: self.owner_of.remove(n),
                    identity_of: self.identity_of.remove(caller),
                    events: self.events.push(Event::IdentityRemoved(IdentityRemoved { identity_no: n })),
                    ..self
                },
                Ok(()),
            )
        }
    }

    /// `add_chain` by `caller`: only the admin may add a chain; a new id joins the end of
    /// the list, and the entry of a listed id is replaced in place.
    pub open spec fn add_chain(self, caller: AccountId, chain_id: ChainId, info: ChainInfo) -> (
        IdentityModel,
        Result<(), Error>,
    ) {
        if caller != self.admin {
            (self, Err(Error::NotAllowed))
        } else {
            (
                IdentityModel {
                    chains: self.chains.insert(chain_id, info),
                    chain_ids: if self.chains.contains_key(chain_id) {
                        self.chain_ids
                    } else {
                        self.chain_ids.push(chain_id)
                    },
                    events: self.events.push(
                        Event::ChainAdded(
                            ChainAdded {
                                chain_id,
                                network: info.network,
                                account_type: info.account_type,
                            },
                        ),
                    ),
                    ..self
                },
                Ok(()),
            )
        }
    }

    /// `update_chain` by `caller`: only the admin may change a listed chain's address type.
    pub open spec fn update_chain(
        self,
        caller: AccountId,
        chain_id: ChainId,
        new_address_type: Option<AccountType>,
    ) -> (IdentityModel, Result<(), Error>) {
        if caller != self.admin {
            (self, Err(Error::NotAllowed))
        } else if !self.chains.contains_key(chain_id) {
            (self, Err(Error::InvalidChain))
        } else {
            let old_info = self.chains[chain_id];
            let info = match new_address_type {
                Some(account_type) => ChainInfo { account_type, ..old_info },
                None => old_info,
            };
            (
                IdentityModel {
                    chains: self.chains.insert(chain_id, info),
                    events: self.events.push(
                        Event::ChainUpdated(
                            ChainUpdated { chain_id, account_type: info.account_type },
                        ),
                    ),
                    ..self
                },
                Ok(()),
            )
        }
    }

    /// `remove_chain` by `caller`: only the admin may remove a listed chain.
    pub open spec fn remove_chain(self, caller: AccountId, chain_id: ChainId) -> (
        IdentityModel,
        Result<(), Error>,
    ) {
        if caller != self.admin {
            (self, Err(Error::NotAllowed))
        } else if !self.chains.contains_key(chain_id) {
            (self, Err(Error::InvalidChain))
        } else {
            (
                IdentityModel {
                    chains: self.chains.remove(chain_id),
                    chain_ids: self.chain_ids.filter(other_than(chain_id)),
                    events: self.events.push(Event::ChainRemoved(ChainRemoved { chain_id })),
                    ..self
                },
                Ok(()),
            )
        }
    }

    /// `set_recovery_account` by `caller`, replacing any earlier recovery account.
    pub open spec fn set_recovery_account(self, caller: AccountId, recovery_account: AccountId) -> (
        IdentityModel,
        Result<(), Error>,
    ) {
        if !self.identity_of.contains_key(caller) {
            (self, Err(Error::NotAllowed))
        } else {
            let n = self.identity_of[caller];
            (
                IdentityModel {
                    recovery_account_of: self.recovery_account_of.insert(n, recovery_account),
                    events: self.events.push(
                        Event::RecoveryAccountSet(
                            RecoveryAccountSet { identity_no: n, recovery_account },
                        ),
                    ),
                    ..self
                },
                Ok(()),
            )
        }
    }

    /// Whether `account` is the recovery account of identity `n`.
    pub open spec fn is_recovery_account(self, n: IdentityNo, account: AccountId) -> bool {
        self.recovery_account_of.contains_key(n) && self.recovery_account_of[n] == account
    }

    /// `transfer_ownership` by `caller`: the owner or the recovery account of identity `n`
    /// hands it to `new_owner`, who must not own an identity yet. Addresses and recovery
    /// account stay.
    pub open spec fn transfer_ownership(self, caller: AccountId, n: IdentityNo, new_owner: AccountId) -> (
        IdentityModel,
        Result<(), Error>,
    ) {
        if !self.owner_of.contains_key(n) {
            (self, Err(Error::NotAllowed))
        } else if self.owner_of[n] != caller && !self.is_recovery_account(n, caller) {
            (self, Err(Error::NotAllowed))
        } else if self.identity_of.contains_key(new_owner) {
            (self, Err(Error::AlreadyIdentityOwner))
        } else {
            (
                IdentityModel {
                    owner_of: self.owner_of.insert(n, new_owner),
                    identity_of: self.identity_of.remove(self.owner_of[n]).insert(new_owner, n),
                    events: self.events.push(
                        Event::OwnershipTransferred(OwnershipTransferred { identity_no: n, new_owner }),
                    ),
                    ..self
                },
                Ok(()),
            )
        }
    }

    /// Creating an identity keeps the registry valid.
    pub proof fn lemma_create_identity_valid(self, caller: AccountId)
        requires
            self.valid(),
            self.latest_identity_no < IdentityNo::MAX,
        ensures
            self.create_identity(caller).0.valid(),
    {
        let next = self.create_identity(caller).0;
        if !self.identity_of.contains_key(caller) {
            let n = self.latest_identity_no;
            assert(!self.owner_of.contains_key(n));
            assert(next.owner_of.dom() =~= next.identities.dom());
            assert forall|a: AccountId| #[trigger] next.identity_of.contains_key(a) implies {
                &&& next.owner_of.contains_key(next.identity_of[a])
                &&& next.owner_of[next.identity_of[a]] == a
            } by {
                if a != caller {
                    assert(self.identity_of.contains_key(a));
                }
            }
        }
    }

    /// Replacing the addresses of an identity with a valid list keeps the registry valid.
    pub proof fn lemma_with_addresses_valid(self, n: IdentityNo, list: AddressList, event: Event)
        requires
            self.valid(),
            self.identities.contains_key(n),
            valid_address_list(list),
        ensures
            self.with_addresses(n, list, event).valid(),
    {
        let next = self.with_addresses(n, list, event);
        assert(next.owner_of.dom() =~= next.identities.dom());
    }

    /// Adding an address keeps the registry valid.
    pub proof fn lemma_add_address_valid(self, caller: AccountId, chain: ChainId, address: ChainAddress)
        requires
            self.valid(),
        ensures
            self.add_address(caller, chain, address).0.valid(),
    {
        if self.identity_of.contains_key(caller) {
            let n = self.identity_of[caller];
            let old_list = self.identities[n];
            assert(self.identities.contains_key(n));
            let (list, r) = add_address_step(old_list, chain, address@);
            if r is Ok {
                assert forall|i: int, j: int| 0 <= i < j < list.len() implies list[i].0 != list[j].0 by {
                    if j == old_list.len() {
                        assert(old_list[i].0 == list[i].0);
                    }
                }
                assert(valid_address_list(list));
                let event = Event::AddressAdded(AddressAdded { identity_no: n, chain, address });
                self.lemma_with_addresses_valid(n, list, event);
            }
        }
    }

    /// Updating an address keeps the registry valid.
    pub proof fn lemma_update_address_valid(self, caller: AccountId, chain: ChainId, address: ChainAddress)
        requires
            self.valid(),
        ensures
            self.update_address(caller, chain, address).0.valid(),
    {
        if self.identity_of.contains_key(caller) {
            let n = self.identity_of[caller];
            let old_list = self.identities[n];
            assert(self.identities.contains_key(n));
            let (list, r) = update_address_step(old_list, chain, address@);
            if r is Ok {
                let k = chain_index(old_list, chain);
                assert(old_list[k].0 == chain);
                assert forall|i: int, j: int| 0 <= i < j < list.len() implies list[i].0 != list[j].0 by {
                    assert(old_list[i].0 == list[i].0);
                    assert(old_list[j].0 == list[j].0);
                }
                assert forall|i: int| 0 <= i < list.len() implies (#[trigger] list[i]).1.len()
                    <= ADDRESS_SIZE_LIMIT by {
                    if i != k {
                        assert(list[i] == old_list[i]);
                    }
                }
                let event = Event::AddressUpdated(
                    AddressUpdated { identity_no: n, chain, updated_address: address },
                );
                self.lemma_with_addresses_valid(n, list, event);
            }
        }
    }

    /// Removing an address keeps the registry valid.
    pub proof fn lemma_remove_address_valid(self, caller: AccountId, chain: ChainId)
        requires
            self.valid(),
        ensures
            self.remove_address(caller, chain).0.valid(),
    {
        if self.identity_of.contains_key(caller) {
            let n = self.identity_of[caller];
            let old_list = self.identities[n];
            assert(self.identities.contains_key(n));
            let (list, r) = remove_address_step(old_list, chain);
            if r is Ok {
                let k = chain_index(old_list, chain);
                assert forall|i: int| 0 <= i < list.len() implies #[trigger] list[i] == (if i < k {
                    old_list[i]
                } else {
                    old_list[i + 1]
                }) by {}
                assert forall|i: int, j: int| 0 <= i < j < list.len() implies list[i].0 != list[j].0 by {
                    assert(list[i] == (if i < k { old_list[i] } else { old_list[i + 1] }));
                    assert(list[j] == (if j < k { old_list[j] } else { old_list[j + 1] }));
                }
                assert forall|i: int| 0 <= i < list.len() implies (#[trigger] list[i]).1.len()
                    <= ADDRESS_SIZE_LIMIT by {
                    assert(list[i] == (if i < k { old_list[i] } else { old_list[i + 1] }));
                }
                let event = Event::AddressRemoved(AddressRemoved { identity_no: n, chain });
                self.lemma_with_addresses_valid(n, list, event);
            }
        }
    }

    /// Removing an identity keeps the registry valid.
    pub proof fn lemma_remove_identity_valid(self, caller: AccountId)
        requires
            self.valid(),
        ensures
            self.remove_identity(caller).0.valid(),
    {
        let next = self.remove_identity(caller).0;
        if self.identity_of.contains_key(caller) {
            let n = self.identity_of[caller];
            assert(next.owner_of.dom() =~= next.identities.dom());
            assert forall|m: IdentityNo| #[trigger] next.owner_of.contains_key(m) implies {
                &&& next.identity_of.contains_key(next.owner_of[m])
                &&& next.identity_of[next.owner_of[m]] == m
            } by {
                assert(self.owner_of.contains_key(m));
                assert(self.identity_of.contains_key(self.owner_of[m]));
            }
        }
    }

    /// Setting a recovery account keeps the registry valid.
    pub proof fn lemma_set_recovery_account_valid(self, caller: AccountId, recovery_account: AccountId)
        requires
            self.valid(),
        ensures
            self.set_recovery_account(caller, recovery_account).0.valid(),
    {
    }

    /// Transferring an identity keeps the registry valid.
    pub proof fn lemma_transfer_ownership_valid(self, caller: AccountId, n: IdentityNo, new_owner: AccountId)
        requires
            self.valid(),
        ensures
            self.transfer_ownership(caller, n, new_owner).0.valid(),
    {
        let next = self.transfer_ownership(caller, n, new_owner).0;
        if self.transfer_ownership(caller, n, new_owner).1 is Ok {
            let old_owner = self.owner_of[n];
            assert(self.identity_of.contains_key(old_owner));
            assert(next.owner_of.dom() =~= next.identities.dom());
            assert forall|m: IdentityNo| #[trigger] next.owner_of.contains_key(m) implies {
                &&& next.identity_of.contains_key(next.owner_of[m])
                &&& next.identity_of[next.owner_of[m]] == m
            } by {
                if m != n {
                    assert(self.owner_of.contains_key(m));
                    assert(self.identity_of.contains_key(self.owner_of[m]));
                    assert(self.owner_of[m] != old_owner);
                }
            }
            assert forall|a: AccountId| #[trigger] next.identity_of.contains_key(a) implies {
                &&& next.owner_of.contains_key(next.identity_of[a])
                &&& next.owner_of[next.identity_of[a]] == a
            } by {
                if a != new_owner {
                    assert(self.identity_of.contains_key(a));
                }
            }
        }
    }

    /// Adding a chain keeps the registry valid.
    pub proof fn lemma_add_chain_valid(self, caller: AccountId, chain_id: ChainId, info: ChainInfo)
        requires
            self.valid(),
        ensures
            self.add_chain(caller, chain_id, info).0.valid(),
    {
        let next = self.add_chain(caller, chain_id, info).0;
        if caller == self.admin && !self.chains.contains_key(chain_id) {
            assert(!self.chain_ids.contains(chain_id)) by {
                if self.chain_ids.contains(chain_id) {
                    let i = choose|i: int| 0 <= i < self.chain_ids.len() && self.chain_ids[i] == chain_id;
                    assert(self.chains.contains_key(self.chain_ids[i]));
                }
            }
            assert forall|i: int| 0 <= i < next.chain_ids.len() implies next.chains.contains_key(
                #[trigger] next.chain_ids[i],
            ) by {
                if i < self.chain_ids.len() {
                    assert(next.chain_ids[i] == self.chain_ids[i]);
                }
            }
            assert forall|c: ChainId| #[trigger] next.chains.contains_key(c) implies next.chain_ids.contains(c) by {
                if c == chain_id {
                    assert(next.chain_ids[self.chain_ids.len() as int] == c);
                } else {
                    assert(self.chain_ids.contains(c));
                    let i = choose|i: int| 0 <= i < self.chain_ids.len() && self.chain_ids[i] == c;
                    assert(next.chain_ids[i] == c);
                }
            }
            assert forall|i: int, j: int|
                0 <= i < next.chain_ids.len() && 0 <= j < next.chain_ids.len() && i != j implies next.chain_ids[i]
                != next.chain_ids[j] by {
                if i == self.chain_ids.len() {
                    assert(self.chain_ids[j] == next.chain_ids[j]);
                } else if j == self.chain_ids.len() {
                    assert(self.chain_ids[i] == next.chain_ids[i]);
                }
            }
        }
    }

    /// Updating a chain keeps the registry valid.
    pub proof fn lemma_update_chain_valid(
        self,
        caller: AccountId,
        chain_id: ChainId,
        new_address_type: Option<AccountType>,
    )
        requires
            self.valid(),
        ensures
            self.update_chain(caller, chain_id, new_address_type).0.valid(),
    {
    }

    /// Removing a chain keeps the registry valid.
    pub proof fn lemma_remove_chain_valid(self, caller: AccountId, chain_id: ChainId)
        requires
            self.valid(),
        ensures
            self.remove_chain(caller, chain_id).0.valid(),
    {
        let next = self.remove_chain(caller, chain_id).0;
        if self.remove_chain(caller, chain_id).1 is Ok {
            let pred = other_than(chain_id);
            lemma_filter_no_duplicates(self.chain_ids, pred);
            assert forall|i: int| 0 <= i < next.chain_ids.len() implies next.chains.contains_key(
                #[trigger] next.chain_ids[i],
            ) by {
                let c = next.chain_ids[i];
                self.chain_ids.lemma_filter_pred(pred, i);
                assert(next.chain_ids.contains(c));
                self.chain_ids.lemma_filter_contains_rev(pred, c);
                let j = choose|j: int| 0 <= j < self.chain_ids.len() && self.chain_ids[j] == c;
                assert(self.chains.contains_key(self.chain_ids[j]));
            }
            assert forall|c: ChainId| #[trigger] next.chains.contains_key(c) implies next.chain_ids.contains(c) by {
                assert(self.chain_ids.contains(c));
                let j = choose|j: int| 0 <= j < self.chain_ids.len() && self.chain_ids[j] == c;
                self.chain_ids.lemma_filter_contains(pred, j);
            }
        }
    }

    /// In a valid registry an account owns at most one identity and an identity has one
    /// owner: the owner and identity relations are inverse to each other. Every operation
    /// keeps the registry valid, so this holds after any sequence of operations.
    pub proof fn lemma_one_identity_per_account(self, n1: IdentityNo, n2: IdentityNo, a: AccountId)
        requires
            self.valid(),
        ensures
            self.owner_of.contains_key(n1) && self.owner_of.contains_key(n2) && self.owner_of[n1]
                == self.owner_of[n2] ==> n1 == n2,
            self.identity_of.contains_key(a) && self.identity_of[a] == n1 <==> self.owner_of.contains_key(
                n1,
            ) && self.owner_of[n1] == a,
    {
        if self.owner_of.contains_key(n1) && self.owner_of.contains_key(n2) {
            assert(self.identity_of[self.owner_of[n1]] == n1);
            assert(self.identity_of[self.owner_of[n2]] == n2);
        }
        if self.owner_of.contains_key(n1) {
            assert(self.identity_of.contains_key(self.owner_of[n1]));
        }
        if self.identity_of.contains_key(a) {
            assert(self.owner_of.contains_key(self.identity_of[a]));
        }
    }

    /// Once an address for `chain` was added, adding another one for the same chain fails
    /// with `AddressAlreadyAdded` (for an address within the size limit; a larger one is
    /// refused for its size first).
    pub proof fn lemma_add_address_twice(
        self,
        caller: AccountId,
        chain: ChainId,
        first: ChainAddress,
        second: ChainAddress,
    )
        requires
            self.valid(),
            self.add_address(caller, chain, first).1 is Ok,
            second@.len() <= ADDRESS_SIZE_LIMIT,
        ensures
            self.add_address(caller, chain, first).0.add_address(caller, chain, second) == (
                self.add_address(caller, chain, first).0,
                Err::<(), Error>(Error::AddressAlreadyAdded),
            ),
    {
        let n = self.identity_of[caller];
        let next = self.add_address(caller, chain, first).0;
        let list = next.identities[n];
        assert(list[list.len() - 1].0 == chain);
        assert(has_chain(list, chain));
    }

    /// Reading back: after `add_address` or `update_address` succeeds the identity's
    /// destination on `chain` is the new address; after `remove_address` succeeds it has
    /// none.
    pub proof fn lemma_address_round_trip(
        self,
        caller: AccountId,
        chain: ChainId,
        address: ChainAddress,
    )
        requires
            self.valid(),
        ensures
            self.add_address(caller, chain, address).1 is Ok ==> self.add_address(
                caller,
                chain,
                address,
            ).0.transaction_destination(self.identity_of[caller], chain) == Ok::<Seq<u8>, Error>(
                address@,
            ),
            self.update_address(caller, chain, address).1 is Ok ==> self.update_address(
                caller,
                chain,
                address,
            ).0.transaction_destination(self.identity_of[caller], chain) == Ok::<Seq<u8>, Error>(
                address@,
            ),
            self.remove_address(caller, chain).1 is Ok ==> self.remove_address(
                caller,
                chain,
            ).0.transaction_destination(self.identity_of[caller], chain) == Err::<Seq<u8>, Error>(
                Error::InvalidChain,
            ),
    {
        if self.identity_of.contains_key(caller) {
            let n = self.identity_of[caller];
            assert(self.identities.contains_key(n));
            let old_list = self.identities[n];
            if self.add_address(caller, chain, address).1 is Ok {
                let list = self.add_address(caller, chain, address).0.identities[n];
                let last = list.len() - 1;
                assert(list[last].0 == chain);
                let k = chain_index(list, chain);
                if k != last {
                    assert(list[k] == old_list[k]);
                    assert(has_chain(old_list, chain));
                }
            }
            if self.update_address(caller, chain, address).1 is Ok {
                let list = self.update_address(caller, chain, address).0.identities[n];
                let i = chain_index(old_list, chain);
                assert(list[i].0 == chain);
                let k = chain_index(list, chain);
                if k != i {
                    assert(list[k] == old_list[k]);
                    assert(old_list[i].0 == chain);
                }
            }
            if self.remove_address(caller, chain).1 is Ok {
                let list = self.remove_address(caller, chain).0.identities[n];
                let i = chain_index(old_list, chain);
                assert(old_list[i].0 == chain);
                if has_chain(list, chain) {
                    let k = choose|k: int| 0 <= k < list.len() && list[k].0 == chain;
                    if k < i {
                        assert(list[k] == old_list[k]);
                    } else {
                        assert(list[k] == old_list[k + 1]);
                    }
                }
            }
        }
    }

    /// Once the owner of an identity made `recovery` its recovery account, a transfer by
    /// `recovery` does exactly what the same transfer by the owner does, and a transfer by
    /// any third account fails with `NotAllowed`.
    pub proof fn lemma_recovery_account_may_transfer(
        self,
        owner: AccountId,
        recovery: AccountId,
        other: AccountId,
        new_owner: AccountId,
    )
        requires
            self.valid(),
            self.identity_of.contains_key(owner),
            other != owner,
            other != recovery,
        ensures
            ({
                let (next, r) = self.set_recovery_account(owner, recovery);
                let n = self.identity_of[owner];
                &&& r is Ok
                &&& next.transfer_ownership(recovery, n, new_owner) == next.transfer_ownership(
                    owner,
                    n,
                    new_owner,
                )
                &&& next.transfer_ownership(other, n, new_owner) == (
                    next,
                    Err::<(), Error>(Error::NotAllowed),
                )
            }),
    {
        let n = self.identity_of[owner];
        assert(self.owner_of.contains_key(n));
        assert(self.owner_of[n] == owner);
    }

    /// An address above the size limit is refused with `AddressSizeExceeded` and changes
    /// nothing, for any caller that owns an identity.
    pub proof fn lemma_oversized_address_refused(self, caller: AccountId, chain: ChainId, address: ChainAddress)
        requires
            self.identity_of.contains_key(caller),
            address@.len() > ADDRESS_SIZE_LIMIT,
        ensures
            self.add_address(caller, chain, address) == (
                self,
                Err::<(), Error>(Error::AddressSizeExceeded),
            ),
    {
    }

    /// Where a transaction to identity `receiver` on `chain` goes.
    pub open spec fn transaction_destination(self, receiver: IdentityNo, chain: ChainId) -> Result<
        Seq<u8>,
        Error,
    > {
        if !self.identities.contains_key(receiver) {
            Err(Error::IdentityDoesntExist)
        } else {
            match address_on(self.identities[receiver], chain) {
                Some(address) => Ok(address),
                None => Err(Error::InvalidChain),
            }
        }
    }

    /// The directory as a list, in the order of `chain_ids`.
    pub open spec fn available_chains(self) -> Seq<(ChainId, ChainInfo)> {
        self.chain_ids.map_values(|id: ChainId| (id, self.chains[id]))
    }
}

} // verus!
