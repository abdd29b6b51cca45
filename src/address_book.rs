//! Per-account address books whose contacts are identities of the registry.

use crate::account_map::AccountMap;
use crate::address_book_info::{
    nickname_within_limit, AddressBookInfo, IdentityRecord, Nickname,
};
use crate::address_book_model::AddressBookModel;
use crate::identity::Identity;
use crate::types::{AccountId, IdentityNo};
use vstd::prelude::*;

verus! {

/// The errors of the address book.
#[derive(Clone, Copy, Debug, PartialEq, Eq, Structural)]
pub enum Error {
    /// The user already has an address book.
    AddressBookAlreadyCreated,
    /// The user doesn't have an address book yet.
    AddressBookDoesntExist,
    /// The given identity does not exist in the registry.
    IdentityDoesntExist,
    /// The given identity is not in the address book.
    IdentityNotAdded,
    /// The given identity is already in the address book.
    IdentityAlreadyAdded,
    /// The given nickname is too long.
    NickNameTooLong,
}

/// An address book was created.
#[derive(Debug, PartialEq)]
pub struct AddressBookCreated {
    /// The owner of the newly created address book.
    pub owner: AccountId,
}

/// An address book was removed.
#[derive(Debug, PartialEq)]
pub struct AddressBookRemoved {
    /// The owner of the removed address book.
    pub owner: AccountId,
}

/// An identity was added to an address book.
#[derive(Debug, PartialEq)]
pub struct IdentityAdded {
    /// The owner of the address book.
    pub owner: AccountId,
    /// The identity added to the address book.
    pub identity: IdentityNo,
}

/// The nickname of a contact changed.
#[derive(Debug, PartialEq)]
pub struct NickNameUpdated {
    /// The owner of the address book.
    pub owner: AccountId,
    /// The identity that received a new nickname.
    pub identity_no: IdentityNo,
    /// The new nickname.
    pub new_nickname: Option<Nickname>,
}

/// An identity was removed from an address book.
#[derive(Debug, PartialEq)]
pub struct IdentityRemoved {
    /// The owner of the address book.
    pub owner: AccountId,
    /// The identity removed from the address book.
    pub identity: IdentityNo,
}

/// The events that the address books emit, one for each successful change.
#[derive(Debug, PartialEq)]
pub enum Event {
    AddressBookCreated(AddressBookCreated),
    AddressBookRemoved(AddressBookRemoved),
    IdentityAdded(IdentityAdded),
    NickNameUpdated(NickNameUpdated),
    IdentityRemoved(IdentityRemoved),
}

/// The address books of all accounts.
pub struct AddressBook {
    /// The address book of each account that has one.
    address_book_of: AccountMap<AddressBookInfo>,
    /// The identity registry that new contacts are checked against.
    identity_contract: AccountId,
    /// The events emitted so far.
    events: Vec<Event>,
}

impl View for AddressBook {
    type V = AddressBookModel;

    closed spec fn view(&self) -> AddressBookModel {
        AddressBookModel {
            books: self.address_book_of@.map_values(|book: AddressBookInfo| book@),
            identity_contract: self.identity_contract,
            events: self.events@,
        }
    }
}

impl AddressBook {
    pub closed spec fn wf(&self) -> bool {
        &&& self.address_book_of.wf()
        &&& self@.valid()
    }

    /// Well-formed address books are valid.
    pub proof fn lemma_wf_valid(&self)
        requires
            self.wf(),
        ensures
            self@.valid(),
    {
    }

    /// No address books yet; new contacts are checked against `identity_contract`.
    pub fn new(identity_contract: AccountId) -> (r: AddressBook)
        ensures
            r.wf(),
            r@ == AddressBookModel::empty(identity_contract),
    {
        let r = AddressBook {
            address_book_of: AccountMap::new(),
            identity_contract,
            events: Vec::new(),
        };
        proof {
            assert(r@.books =~= Map::empty());
        }
        r
    }

    /// The identity registry that new contacts are checked against.
    pub fn identity_contract(&self) -> (r: AccountId)
        ensures
            r == self@.identity_contract,
    {
        self.identity_contract
    }

    /// Creates an empty address book for `caller`.
    pub fn create_address_book(&mut self, caller: AccountId) -> (r: Result<(), Error>)
        requires
            old(self).wf(),
        ensures
            final(self).wf(),
            (final(self)@, r) == old(self)@.create_address_book(caller),
    {
        if self.address_book_of.contains_key(&caller) {
            return Err(Error::AddressBookAlreadyCreated);
        }
        let ghost old_model = self@;
        let book = AddressBookInfo::new();
        self.address_book_of.insert(caller, book);
        self.events.push(Event::AddressBookCreated(AddressBookCreated { owner: caller }));
        proof {
            assert(self@.books =~= old_model.books.insert(caller, Seq::empty()));
        }
        Ok(())
    }

    /// Removes the address book of `caller`.
    pub fn remove_address_book(&mut self, caller: AccountId) -> (r: Result<(), Error>)
        requires
            old(self).wf(),
        ensures
            final(self).wf(),
            (final(self)@, r) == old(self)@.remove_address_book(caller),
    {
        if !self.address_book_of.contains_key(&caller) {
            return Err(Error::AddressBookDoesntExist);
        }
        let ghost old_model = self@;
        self.address_book_of.remove(&caller);
        self.events.push(Event::AddressBookRemoved(AddressBookRemoved { owner: caller }));
        proof {
            assert(self@.books =~= old_model.books.remove(caller));
        }
        Ok(())
    }

    /// Adds identity `identity_no`, with an optional nickname, to the address book of
    /// `caller`, once `registry` confirms that the identity exists.
    pub fn add_identity(
        &mut self,
        caller: AccountId,
        identity_no: IdentityNo,
        nickname: Option<Nickname>,
        registry: &Identity,
    ) -> (r: Result<(), Error>)
        requires
            old(self).wf(),
            registry.wf(),
        ensures
            final(self).wf(),
            (final(self)@, r) == old(self)@.add_identity(caller, identity_no, nickname, registry@),
    {
        let ghost old_model = self@;
        let mut address_book = match self.address_book_of.get(&caller) {
            Some(book) => book.clone(),
            None => return Err(Error::AddressBookDoesntExist),
        };
        proof {
            assert(old_model.books.contains_key(caller));
            assert(address_book@ == old_model.books[caller]);
        }
        if !nickname_within_limit(&nickname) {
            return Err(Error::NickNameTooLong);
        }
        // Ensure that the identity exists in the registry.
        let identity = registry.identity(identity_no);
        if identity.is_none() {
            return Err(Error::IdentityDoesntExist);
        }
        match address_book.add_identity(identity_no, nickname) {
            Ok(()) => {},
            Err(e) => return Err(e),
        }
        let ghost list = address_book@;
        self.address_book_of.insert(caller, address_book);
        self.events.push(
            Event::IdentityAdded(IdentityAdded { owner: caller, identity: identity_no }),
        );
        proof {
            assert(self@.books =~= old_model.books.insert(caller, list));
        }
        Ok(())
    }

    /// Removes identity `identity_no` from the address book of `caller`.
    pub fn remove_identity(&mut self, caller: AccountId, identity_no: IdentityNo) -> (r: Result<
        (),
        Error,
    >)
        requires
            old(self).wf(),
        ensures
            final(self).wf(),
            (final(self)@, r) == old(self)@.remove_identity(caller, identity_no),
    {
        let ghost old_model = self@;
        let mut address_book = match self.address_book_of.get(&caller) {
            Some(book) => book.clone(),
            None => return Err(Error::AddressBookDoesntExist),
        };
        proof {
            assert(old_model.books.contains_key(caller));
            assert(address_book@ == old_model.books[caller]);
        }
        match address_book.remove_identity(identity_no) {
            Ok(()) => {},
            Err(e) => return Err(e),
        }
        let ghost list = address_book@;
        self.address_book_of.insert(caller, address_book);
        self.events.push(
            Event::IdentityRemoved(IdentityRemoved { owner: caller, identity: identity_no }),
        );
        proof {
            assert(self@.books =~= old_model.books.insert(caller, list));
        }
        Ok(())
    }

    /// Replaces the nickname of identity `identity_no` in the address book of `caller`.
    pub fn update_nickname(
        &mut self,
        caller: AccountId,
        identity_no: IdentityNo,
        new_nickname: Option<Nickname>,
    ) -> (r: Result<(), Error>)
        requires
            old(self).wf(),
        ensures
            final(self).wf(),
            (final(self)@, r) == old(self)@.update_nickname(caller, identity_no, new_nickname),
    {
        let ghost old_model = self@;
        let mut address_book = match self.address_book_of.get(&caller) {
            Some(book) => book.clone(),
            None => return Err(Error::AddressBookDoesntExist),
        };
        proof {
            assert(old_model.books.contains_key(caller));
            assert(address_book@ == old_model.books[caller]);
        }
        let stored = match &new_nickname {
            Some(name) => Some(name.clone()),
            None => None,
        };
        match address_book.update_nickname(identity_no, stored) {
            Ok(()) => {},
            Err(e) => return Err(e),
        }
        let ghost list = address_book@;
        self.address_book_of.insert(caller, address_book);
        self.events.push(
            Event::NickNameUpdated(NickNameUpdated { owner: caller, identity_no, new_nickname }),
        );
        proof {
            assert(self@.books =~= old_model.books.insert(caller, list));
        }
        Ok(())
    }

    /// The contacts of `account`, in the order in which they were added; none when it has
    /// no address book.
    pub fn identities_of(&self, account: AccountId) -> (r: Vec<IdentityRecord>)
        requires
            self.wf(),
        ensures
            r@ == self@.identities_of(account),
    {
        match self.address_book_of.get(&account) {
            Some(book) => {
                let copy = book.clone();
                proof {
                    assert(self@.books.contains_key(account));
                }
                copy.into_identities()
            },
            None => Vec::new(),
        }
    }

    /// Whether `caller` has an address book.
    pub fn has_address_book(&self, caller: AccountId) -> (r: bool)
        requires
            self.wf(),
        ensures
            r == self@.books.contains_key(caller),
    {
        self.address_book_of.contains_key(&caller)
    }

    /// The events emitted so far, oldest first.
    pub fn events(&self) -> (r: &Vec<Event>)
        ensures
            r@ == self@.events,
    {
        &self.events
    }
}

} // verus!
