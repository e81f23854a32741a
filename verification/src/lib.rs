//! The verified core of a permissioned-ledger application: the status and
//! message records that a smart contract keeps on the ledger, and the
//! projection that a daemon derives from the ledger's state-change events.
//!
//! On the ledger side, [`address`] says where a record lives, [`bucket`] and
//! [`record`] say how the records that share an address are written as bytes,
//! [`state`] reads and writes them through a [`ledger`] with a cache, and
//! [`handler`] decides what a transaction does. Off the ledger,
//! [`state_delta`] applies each event to a [`projection`] as a whole or not
//! at all. [`laws`] states what holds of all of it.
//!
//! Every function is proved by Verus to meet its contract, with two
//! exceptions that are marked as such: the computation of SHA-512 digests
//! and the test for UTF-8 text, which are left to the crates that provide
//! them.

pub mod address;
pub mod bucket;
pub mod bytemap;
pub mod bytes;
pub mod decimal;
pub mod error;
pub mod event;
pub mod handler;
pub mod laws;
pub mod ledger;
pub mod message;
pub mod order;
pub mod payload;
pub mod projection;
pub mod proposed_node;
pub mod record;
pub mod state;
pub mod state_delta;
pub mod status;
pub mod utf8;
