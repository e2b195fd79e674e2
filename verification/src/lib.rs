//! Reliable broadcast for asynchronous Byzantine fault tolerant consensus,
//! together with the message routing that connects network links to the
//! protocol instances.

pub mod broadcast;
pub mod erasure;
pub mod hashing;
pub mod merkle_tree;
pub mod messaging;
pub mod proto;
