//! Types shared by the identity registry and the address book.

use vstd::prelude::*;

verus! {

/// Each identity is associated with a unique identifier.
pub type IdentityNo = u32;

/// Identifies a chain in the chain directory.
pub type ChainId = u32;

/// An address on some chain, kept as opaque bytes: addresses are encrypted before they
/// reach the registry.
pub type EncryptedAddress = Vec<u8>;

/// The address that an identity registers for one chain.
pub type ChainAddress = EncryptedAddress;

/// Encrypted addresses never exceed this many bytes.
pub const ADDRESS_SIZE_LIMIT: usize = 128;

/// A 32-byte account, the caller of every operation.
#[derive(Clone, Copy, Debug)]
pub struct AccountId(pub [u8; 32]);

impl PartialEq for AccountId {
    fn eq(&self, other: &AccountId) -> (r: bool)
        ensures
            r == (*self == *other),
    {
        let mut i: usize = 0;
        while i < 32
            invariant
                0 <= i <= 32,
                forall|j: int| 0 <= j < i ==> self.0[j] == other.0[j],
            decreases 32 - i,
        {
            if self.0[i] != other.0[i] {
                return false;
            }
            i = i + 1;
        }
        proof {
            assert(self.0 =~= other.0);
        }
        true
    }
}

impl Eq for AccountId {}

impl vstd::std_specs::cmp::PartialEqSpecImpl for AccountId {
    open spec fn obeys_eq_spec() -> bool {
        true
    }

    open spec fn eq_spec(&self, other: &AccountId) -> bool {
        *self == *other
    }
}

impl From<[u8; 32]> for AccountId {
    fn from(bytes: [u8; 32]) -> (r: AccountId) {
        AccountId(bytes)
    }
}

impl vstd::std_specs::convert::FromSpecImpl<[u8; 32]> for AccountId {
    open spec fn obeys_from_spec() -> bool {
        true
    }

    open spec fn from_spec(bytes: [u8; 32]) -> AccountId {
        AccountId(bytes)
    }
}

/// The address format used on a chain.
#[derive(Clone, Copy, Debug, PartialEq, Eq, Structural)]
pub enum AccountType {
    AccountId32,
    AccountKey20,
}

/// The relay network that a chain belongs to.
#[derive(Clone, Copy, Debug, PartialEq, Eq, Structural)]
pub enum Network {
    Polkadot,
    Kusama,
}

/// What the chain directory records of a chain.
#[derive(Clone, Copy, Debug, PartialEq, Eq, Structural)]
pub struct ChainInfo {
    /// The network to which the chain belongs.
    pub network: Network,
    /// The address type used on the chain.
    pub account_type: AccountType,
}

} // verus!
