//! The addresses that one identity registers, at most one per chain.

use crate::identity::Error;
use crate::types::{ChainAddress, ChainId, ADDRESS_SIZE_LIMIT};
use vstd::prelude::*;

verus! {

/// The model of an identity's addresses: (chain, address bytes) pairs in the order in
/// which they were added.
pub type AddressList = Seq<(ChainId, Seq<u8>)>;

/// Whether `list` holds an address for `chain`.
pub open spec fn has_chain(list: AddressList, chain: ChainId) -> bool {
    exists|i: int| 0 <= i < list.len() && list[i].0 == chain
}

/// The position of the address for `chain` in `list` (meaningful when there is one).
pub open spec fn chain_index(list: AddressList, chain: ChainId) -> int {
    choose|i: int| 0 <= i < list.len() && list[i].0 == chain
}

/// The address that `list` registers for `chain`.
pub open spec fn address_on(list: AddressList, chain: ChainId) -> Option<Seq<u8>> {
    if has_chain(list, chain) {
        Some(list[chain_index(list, chain)].1)
    } else {
        None
    }
}

/// No chain occurs twice, and no address exceeds the size limit.
pub open spec fn valid_address_list(list: AddressList) -> bool {
    &&& forall|i: int, j: int| 0 <= i < j < list.len() ==> list[i].0 != list[j].0
    &&& forall|i: int| 0 <= i < list.len() ==> (#[trigger] list[i]).1.len() <= ADDRESS_SIZE_LIMIT
}

/// Adding an address for `chain`: refused when the address is too large or the chain
/// already has one; appended otherwise.
pub open spec fn add_address_step(list: AddressList, chain: ChainId, address: Seq<u8>) -> (
    AddressList,
    Result<(), Error>,
) {
    if address.len() > ADDRESS_SIZE_LIMIT {
        (list, Err(Error::AddressSizeExceeded))
    } else if has_chain(list, chain) {
        (list, Err(Error::AddressAlreadyAdded))
    } else {
        (list.push((chain, address)), Ok(()))
    }
}

/// Replacing the address of `chain` in place: refused when the address is too large or
/// the chain has none.
pub open spec fn update_address_step(list: AddressList, chain: ChainId, address: Seq<u8>) -> (
    AddressList,
    Result<(), Error>,
) {
    if address.len() > ADDRESS_SIZE_LIMIT {
        (list, Err(Error::AddressSizeExceeded))
    } else if has_chain(list, chain) {
        (list.update(chain_index(list, chain), (chain, address)), Ok(()))
    } else {
        (list, Err(Error::InvalidChain))
    }
}

/// Removing the address of `chain`: refused when the chain has none.
pub open spec fn remove_address_step(list: AddressList, chain: ChainId) -> (
    AddressList,
    Result<(), Error>,
) {
    if has_chain(list, chain) {
        (list.remove(chain_index(list, chain)), Ok(()))
    } else {
        (list, Err(Error::InvalidChain))
    }
}

/// The view of a stored address entry.
pub open spec fn entry_view(entry: (ChainId, ChainAddress)) -> (ChainId, Seq<u8>) {
    (entry.0, entry.1@)
}

/// The addresses of one identity.
#[derive(Debug, PartialEq)]
pub struct IdentityInfo {
    addresses: Vec<(ChainId, ChainAddress)>,
}

impl View for IdentityInfo {
    type V = AddressList;

    closed spec fn view(&self) -> AddressList {
        self.addresses@.map_values(|entry: (ChainId, ChainAddress)| entry_view(entry))
    }
}

impl IdentityInfo {
    pub open spec fn wf(&self) -> bool {
        valid_address_list(self@)
    }

    /// An identity without addresses.
    pub fn new() -> (r: IdentityInfo)
        ensures
            r@ == Seq::<(ChainId, Seq<u8>)>::empty(),
            r.wf(),
    {
        let r = IdentityInfo { addresses: Vec::new() };
        proof {
            assert(r@ =~= Seq::<(ChainId, Seq<u8>)>::empty());
        }
        r
    }

    /// The registered addresses, in the order in which they were added.
    pub fn addresses(&self) -> (r: &Vec<(ChainId, ChainAddress)>)
        ensures
            r@.map_values(|entry: (ChainId, ChainAddress)| entry_view(entry)) == self@,
    {
        &self.addresses
    }

    /// The position of the address for `chain`, if there is one.
    fn find_chain(&self, chain: ChainId) -> (r: Option<usize>)
        requires
            self.wf(),
        ensures
            match r {
                Some(i) => has_chain(self@, chain) && i as int == chain_index(self@, chain)
                    && i < self.addresses@.len(),
                None => !has_chain(self@, chain),
            },
    {
        let mut i: usize = 0;
        while i < self.addresses.len()
            invariant
                self.wf(),
                0 <= i <= self.addresses@.len(),
                forall|j: int| 0 <= j < i ==> self@[j].0 != chain,
            decreases self.addresses@.len() - i,
        {
            if self.addresses[i].0 == chain {
                proof {
                    assert(self@[i as int].0 == chain);
                    let k = chain_index(self@, chain);
                    assert(self@[k].0 == chain);
                }
                return Some(i);
            }
            i = i + 1;
        }
        None
    }

    /// Adds an address for the given chain.
    pub fn add_address(&mut self, chain: ChainId, address: ChainAddress) -> (r: Result<(), Error>)
        requires
            old(self).wf(),
        ensures
            final(self).wf(),
            (final(self)@, r) == add_address_step(old(self)@, chain, address@),
    {
        if address.len() > ADDRESS_SIZE_LIMIT {
            return Err(Error::AddressSizeExceeded);
        }
        if self.find_chain(chain).is_some() {
            return Err(Error::AddressAlreadyAdded);
        }
        let ghost old_view = self@;
        self.addresses.push((chain, address));
        proof {
            assert(self@ =~= old_view.push((chain, address@)));
        }
        Ok(())
    }

    /// Updates the address of the given chain.
    pub fn update_address(&mut self, chain: ChainId, new_address: ChainAddress) -> (r: Result<
        (),
        Error,
    >)
        requires
            old(self).wf(),
        ensures
            final(self).wf(),
            (final(self)@, r) == update_address_step(old(self)@, chain, new_address@),
    {
        if new_address.len() > ADDRESS_SIZE_LIMIT {
            return Err(Error::AddressSizeExceeded);
        }
        match self.find_chain(chain) {
            Some(position) => {
                let ghost old_view = self@;
                self.addresses.set(position, (chain, new_address));
                proof {
                    assert(self@ =~= old_view.update(position as int, (chain, new_address@)));
                }
                Ok(())
            },
            None => Err(Error::InvalidChain),
        }
    }

    /// Removes the address of the given chain.
    pub fn remove_address(&mut self, chain: ChainId) -> (r: Result<(), Error>)
        requires
            old(self).wf(),
        ensures
            final(self).wf(),
            (final(self)@, r) == remove_address_step(old(self)@, chain),
    {
        match self.find_chain(chain) {
            Some(position) => {
                let ghost old_view = self@;
                self.addresses.remove(position);
                proof {
                    assert(self@ =~= old_view.remove(position as int));
                }
                Ok(())
            },
            None => Err(Error::InvalidChain),
        }
    }
}

impl Clone for IdentityInfo {
    fn clone(&self) -> (r: IdentityInfo)
        ensures
            r@ == self@,
    {
        let mut addresses: Vec<(ChainId, ChainAddress)> = Vec::new();
        let mut i: usize = 0;
        while i < self.addresses.len()
            invariant
                0 <= i <= self.addresses@.len(),
                addresses@.len() == i,
                forall|j: int| 0 <= j < i ==> entry_view(#[trigger] addresses@[j]) == entry_view(self.addresses@[j]),
            decreases self.addresses@.len() - i,
        {
            let address = self.addresses[i].1.clone();
            proof {
                assert(address@ =~= self.addresses@[i as int].1@);
            }
            addresses.push((self.addresses[i].0, address));
            i = i + 1;
        }
        let r = IdentityInfo { addresses };
        proof {
            assert(r@ =~= self@);
        }
        r
    }
}

} // verus!
