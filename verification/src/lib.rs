//! A decentralized news bulletin peer: articles are broadcast over a
//! gossip topic and persisted into a Kademlia-style distributed store,
//! so any peer can later retrieve them by id, title or author.
//!
//! This crate holds the verified behaviour layer: the data model, the
//! wire codec, the local record store, the composed peer behaviour that
//! routes gossip and DHT events, and the command parser of the
//! application loop. Transport, cryptography and the async runtime live
//! outside, behind small trusted wrappers.

pub mod behaviour;
pub mod codec;
pub mod command;
pub mod news;
pub mod store;
pub mod text;
