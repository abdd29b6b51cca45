//! A cross-chain identity registry and a per-account address book layered on it.
//!
//! The registry ([`identity::Identity`]) lets an account own one identity, attach one
//! address per chain to it, hand it over through a recovery account, and resolve the
//! destination address of an identity on a chain. An admin account curates the list of
//! supported chains. The address book ([`address_book::AddressBook`]) keeps, for each
//! account, a list of identities with optional nicknames, and checks with the registry
//! that an identity exists before it accepts it.
//!
//! Every operation states its effect through a mathematical model of the state: see
//! [`identity_model`] and [`address_book_model`].

pub mod account_map;
pub mod address_book;
pub mod address_book_info;
pub mod address_book_model;
pub mod identity;
pub mod identity_info;
pub mod identity_model;
pub mod types;
