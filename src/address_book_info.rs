//! The contacts of one address book: identities with optional nicknames.

use crate::address_book::Error;
use crate::types::IdentityNo;
use vstd::prelude::*;
use vstd::utf8::encode_utf8;

verus! {

/// The most bytes a nickname may hold.
pub const NICKNAME_LENGTH_LIMIT: u8 = 16;

/// A human-readable name for a contact.
pub type Nickname = String;

/// A contact: an identity and its optional nickname.
pub type IdentityRecord = (IdentityNo, Option<Nickname>);

/// The model of an address book: its contacts in the order in which they were added.
pub type RecordList = Seq<IdentityRecord>;

/// Whether `list` holds identity `n`.
pub open spec fn has_identity(list: RecordList, n: IdentityNo) -> bool {
    exists|i: int| 0 <= i < list.len() && list[i].0 == n
}

/// The position of identity `n` in `list` (meaningful when it is there).
pub open spec fn identity_index(list: RecordList, n: IdentityNo) -> int {
    choose|i: int| 0 <= i < list.len() && list[i].0 == n
}

/// Whether a nickname, if any, is within the length limit, counted in UTF-8 bytes.
pub open spec fn nickname_fits(nickname: Option<Nickname>) -> bool {
    match nickname {
        Some(name) => encode_utf8(name@).len() <= NICKNAME_LENGTH_LIMIT,
        None => true,
    }
}

/// No identity occurs twice, and every nickname fits.
pub open spec fn valid_record_list(list: RecordList) -> bool {
    &&& forall|i: int, j: int| 0 <= i < j < list.len() ==> list[i].0 != list[j].0
    &&& forall|i: int| 0 <= i < list.len() ==> nickname_fits((#[trigger] list[i]).1)
}

/// Adding identity `n`: refused when it is already there or the nickname is too long;
/// appended otherwise.
pub open spec fn add_identity_step(list: RecordList, n: IdentityNo, nickname: Option<Nickname>) -> (
    RecordList,
    Result<(), Error>,
) {
    if has_identity(list, n) {
        (list, Err(Error::IdentityAlreadyAdded))
    } else if !nickname_fits(nickname) {
        (list, Err(Error::NickNameTooLong))
    } else {
        (list.push((n, nickname)), Ok(()))
    }
}

/// Removing identity `n`: refused when it is not there.
pub open spec fn remove_identity_step(list: RecordList, n: IdentityNo) -> (
    RecordList,
    Result<(), Error>,
) {
    if has_identity(list, n) {
        (list.remove(identity_index(list, n)), Ok(()))
    } else {
        (list, Err(Error::IdentityNotAdded))
    }
}

/// Replacing the nickname of identity `n` in place: refused when the nickname is too long
/// or the identity is not there.
pub open spec fn update_nickname_step(list: RecordList, n: IdentityNo, nickname: Option<Nickname>) -> (
    RecordList,
    Result<(), Error>,
) {
    if !nickname_fits(nickname) {
        (list, Err(Error::NickNameTooLong))
    } else if has_identity(list, n) {
        (list.update(identity_index(list, n), (n, nickname)), Ok(()))
    } else {
        (list, Err(Error::IdentityNotAdded))
    }
}

/// Whether a nickname, if any, is within the length limit.
pub fn nickname_within_limit(nickname: &Option<Nickname>) -> (r: bool)
    ensures
        r == nickname_fits(*nickname),
{
    match nickname {
        Some(name) => name.as_str().as_bytes().len() <= NICKNAME_LENGTH_LIMIT as usize,
        None => true,
    }
}

/// The contacts of one address book.
#[derive(Debug, PartialEq)]
pub struct AddressBookInfo {
    identities: Vec<IdentityRecord>,
}

impl View for AddressBookInfo {
    type V = RecordList;

    closed spec fn view(&self) -> RecordList {
        self.identities@
    }
}

impl AddressBookInfo {
    pub open spec fn wf(&self) -> bool {
        valid_record_list(self@)
    }

    /// An address book without contacts.
    pub fn new() -> (r: AddressBookInfo)
        ensures
            r@ == Seq::<IdentityRecord>::empty(),
            r.wf(),
    {
        AddressBookInfo { identities: Vec::new() }
    }

    /// The contacts, in the order in which they were added.
    pub fn identities(&self) -> (r: &Vec<IdentityRecord>)
        ensures
            r@ == self@,
    {
        &self.identities
    }

    /// The contacts, taken out of the address book.
    pub fn into_identities(self) -> (r: Vec<IdentityRecord>)
        ensures
            r@ == self@,
    {
        self.identities
    }

    /// The position of identity `n`, if it is there.
    fn find_identity(&self, n: IdentityNo) -> (r: Option<usize>)
        requires
            self.wf(),
        ensures
            match r {
                Some(i) => has_identity(self@, n) && i as int == identity_index(self@, n) && i
                    < self@.len(),
                None => !has_identity(self@, n),
            },
    {
        let mut i: usize = 0;
        while i < self.identities.len()
            invariant
                self.wf(),
                0 <= i <= self@.len(),
                forall|j: int| 0 <= j < i ==> self@[j].0 != n,
            decreases self@.len() - i,
        {
            if self.identities[i].0 == n {
                proof {
                    assert(self@[i as int].0 == n);
                    let k = identity_index(self@, n);
                    assert(self@[k].0 == n);
                }
                return Some(i);
            }
            i = i + 1;
        }
        None
    }

    /// Adds identity `identity_no` with an optional nickname.
    pub fn add_identity(&mut self, identity_no: IdentityNo, nickname: Option<Nickname>) -> (r: Result<
        (),
        Error,
    >)
        requires
            old(self).wf(),
        ensures
            final(self).wf(),
            (final(self)@, r) == add_identity_step(old(self)@, identity_no, nickname),
    {
        if self.find_identity(identity_no).is_some() {
            return Err(Error::IdentityAlreadyAdded);
        }
        if !nickname_within_limit(&nickname) {
            return Err(Error::NickNameTooLong);
        }
        let ghost old_view = self@;
        self.identities.push((identity_no, nickname));
        proof {
            let list = self@;
            assert forall|i: int, j: int| 0 <= i < j < list.len() implies list[i].0 != list[j].0 by {
                if j == old_view.len() {
                    assert(old_view[i].0 == list[i].0);
                }
            }
        }
        Ok(())
    }

    /// Removes identity `identity_no`.
    pub fn remove_identity(&mut self, identity_no: IdentityNo) -> (r: Result<(), Error>)
        requires
            old(self).wf(),
        ensures
            final(self).wf(),
            (final(self)@, r) == remove_identity_step(old(self)@, identity_no),
    {
        match self.find_identity(identity_no) {
            Some(position) => {
                let ghost old_view = self@;
                self.identities.remove(position);
                proof {
                    let list = self@;
                    let k = position as int;
                    assert forall|i: int| 0 <= i < list.len() implies #[trigger] list[i] == (if i
                        < k {
                        old_view[i]
                    } else {
                        old_view[i + 1]
                    }) by {}
                    assert forall|i: int, j: int| 0 <= i < j < list.len() implies list[i].0
                        != list[j].0 by {
                        assert(list[i] == (if i < k { old_view[i] } else { old_view[i + 1] }));
                        assert(list[j] == (if j < k { old_view[j] } else { old_view[j + 1] }));
                    }
                }
                Ok(())
            },
            None => Err(Error::IdentityNotAdded),
        }
    }

    /// Replaces the nickname of identity `identity_no`.
    pub fn update_nickname(&mut self, identity_no: IdentityNo, new_nickname: Option<Nickname>) -> (r:
        Result<(), Error>)
        requires
            old(self).wf(),
        ensures
            final(self).wf(),
            (final(self)@, r) == update_nickname_step(old(self)@, identity_no, new_nickname),
    {
        if !nickname_within_limit(&new_nickname) {
            return Err(Error::NickNameTooLong);
        }
        match self.find_identity(identity_no) {
            Some(index) => {
                let ghost old_view = self@;
                self.identities.set(index, (identity_no, new_nickname));
                proof {
                    let list = self@;
                    assert forall|i: int, j: int| 0 <= i < j < list.len() implies list[i].0
                        != list[j].0 by {
                        assert(old_view[i].0 == list[i].0);
                        assert(old_view[j].0 == list[j].0);
                    }
                    assert forall|i: int| 0 <= i < list.len() implies nickname_fits(
                        (#[trigger] list[i]).1,
                    ) by {
                        if i != index {
                            assert(list[i] == old_view[i]);
                        }
                    }
                }
                Ok(())
            },
            None => Err(Error::IdentityNotAdded),
        }
    }
}

impl Clone for AddressBookInfo {
    fn clone(&self) -> (r: AddressBookInfo)
        ensures
            r@ == self@,
    {
        let mut identities: Vec<IdentityRecord> = Vec::new();
        let mut i: usize = 0;
        while i < self.identities.len()
            invariant
                0 <= i <= self@.len(),
                identities@ == self@.subrange(0, i as int),
            decreases self@.len() - i,
        {
            let nickname = match &self.identities[i].1 {
                Some(name) => Some(name.clone()),
                None => None,
            };
            identities.push((self.identities[i].0, nickname));
            proof {
                assert(identities@ =~= self@.subrange(0, i + 1));
            }
            i = i + 1;
        }
        proof {
            assert(self@.subrange(0, self@.len() as int) =~= self@);
        }
        AddressBookInfo { identities }
    }
}

} // verus!
