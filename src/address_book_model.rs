//! The mathematical model of the address books, and what each operation does to it.

use crate::address_book::{
    AddressBookCreated, AddressBookRemoved, Error, Event, IdentityAdded, IdentityRemoved,
    NickNameUpdated,
};
use crate::address_book_info::{
    add_identity_step, has_identity, nickname_fits, remove_identity_step, update_nickname_step,
    valid_record_list, Nickname, RecordList,
};
use crate::identity_model::IdentityModel;
use crate::types::{AccountId, IdentityNo};
use vstd::prelude::*;

verus! {

/// The state of the address books.
#[verifier::ext_equal]
pub struct AddressBookModel {
    /// The contacts of each account that has an address book.
    pub books: Map<AccountId, RecordList>,
    /// The identity registry that new contacts are checked against.
    pub identity_contract: AccountId,
    /// The events emitted so far, oldest first.
    pub events: Seq<Event>,
}

impl AddressBookModel {
    /// No address books yet.
    pub open spec fn empty(identity_contract: AccountId) -> AddressBookModel {
        AddressBookModel { books: Map::empty(), identity_contract, events: Seq::empty() }
    }

    /// Every book's contact list is valid.
    pub open spec fn valid(self) -> bool {
        forall|a: AccountId| #[trigger]
            self.books.contains_key(a) ==> valid_record_list(self.books[a])
    }

    /// The model after the book of `owner` became `list` and `event` was emitted.
    pub open spec fn with_book(self, owner: AccountId, list: RecordList, event: Event) -> AddressBookModel {
        AddressBookModel {
            books: self.books.insert(owner, list),
            events: self.events.push(event),
            ..self
        }
    }

    /// `create_address_book` by `caller`.
    pub open spec fn create_address_book(self, caller: AccountId) -> (AddressBookModel, Result<(), Error>) {
        if self.books.contains_key(caller) {
            (self, Err(Error::AddressBookAlreadyCreated))
        } else {
            let event = Event::AddressBookCreated(AddressBookCreated { owner: caller });
            (self.with_book(caller, Seq::empty(), event), Ok(()))
        }
    }

    /// `remove_address_book` by `caller`.
    pub open spec fn remove_address_book(self, caller: AccountId) -> (AddressBookModel, Result<(), Error>) {
        if !self.books.contains_key(caller) {
            (self, Err(Error::AddressBookDoesntExist))
        } else {
            (
                AddressBookModel {
                    books: self.books.remove(caller),
                    events: self.events.push(
                        Event::AddressBookRemoved(AddressBookRemoved { owner: caller }),
                    ),
                    ..self
                },
                Ok(()),
            )
        }
    }

    /// `add_identity` by `caller`, checked against the registry `registry`: the book must
    /// exist, the nickname must fit, the identity must exist in the registry and must not
    /// be in the book yet.
    pub open spec fn add_identity(
        self,
        caller: AccountId,
        n: IdentityNo,
        nickname: Option<Nickname>,
        registry: IdentityModel,
    ) -> (AddressBookModel, Result<(), Error>) {
        if !self.books.contains_key(caller) {
            (self, Err(Error::AddressBookDoesntExist))
        } else if !nickname_fits(nickname) {
            (self, Err(Error::NickNameTooLong))
        } else if !registry.identities.contains_key(n) {
            (self, Err(Error::IdentityDoesntExist))
        } else {
            let (list, r) = add_identity_step(self.books[caller], n, nickname);
            if r is Ok {
                let event = Event::IdentityAdded(IdentityAdded { owner: caller, identity: n });
                (self.with_book(caller, list, event), r)
            } else {
                (self, r)
            }
        }
    }

    /// `remove_identity` by `caller`.
    pub open spec fn remove_identity(self, caller: AccountId, n: IdentityNo) -> (
        AddressBookModel,
        Result<(), Error>,
    ) {
        if !self.books.contains_key(caller) {
            (self, Err(Error::AddressBookDoesntExist))
        } else {
            let (list, r) = remove_identity_step(self.books[caller], n);
            if r is Ok {
                let event = Event::IdentityRemoved(IdentityRemoved { owner: caller, identity: n });
                (self.with_book(caller, list, event), r)
            } else {
                (self, r)
            }
        }
    }

    /// `update_nickname` by `caller`.
    pub open spec fn update_nickname(
        self,
        caller: AccountId,
        n: IdentityNo,
        new_nickname: Option<Nickname>,
    ) -> (AddressBookModel, Result<(), Error>) {
        if !self.books.contains_key(caller) {
            (self, Err(Error::AddressBookDoesntExist))
        } else {
            let (list, r) = update_nickname_step(self.books[caller], n, new_nickname);
            if r is Ok {
                let event = Event::NickNameUpdated(
                    NickNameUpdated { owner: caller, identity_no: n, new_nickname },
                );
                (self.with_book(caller, list, event), r)
            } else {
                (self, r)
            }
        }
    }

    /// The contacts of `account`: none when it has no book.
    pub open spec fn identities_of(self, account: AccountId) -> RecordList {
        if self.books.contains_key(account) {
            self.books[account]
        } else {
            Seq::empty()
        }
    }

    /// Adding a contact is decided by the registry at the time of the call: with the book
    /// in place, a fitting nickname and the identity not yet among the contacts, it
    /// succeeds exactly when the registry holds the identity, and otherwise fails with
    /// `IdentityDoesntExist` and leaves everything unchanged.
    pub proof fn lemma_add_identity_follows_registry(
        self,
        caller: AccountId,
        n: IdentityNo,
        nickname: Option<Nickname>,
        registry: IdentityModel,
    )
        requires
            self.books.contains_key(caller),
            nickname_fits(nickname),
            !has_identity(self.books[caller], n),
        ensures
            self.add_identity(caller, n, nickname, registry).1 is Ok <==> registry.identities.contains_key(
                n,
            ),
            !registry.identities.contains_key(n) ==> self.add_identity(caller, n, nickname, registry)
                == (self, Err::<(), Error>(Error::IdentityDoesntExist)),
    {
    }
}

} // verus!
