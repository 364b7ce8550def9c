//! Section membership and join core of a prefix-addressed peer-to-peer overlay.
//!
//! Peers are grouped into sections by the leading bits of their names. Each section is run by
//! a small group of elders who share a threshold BLS key; what they sign, and the chain of
//! keys that leads from the network's first key to the current one, is what every other peer
//! checks before it believes anything about a section.

pub mod aggregator;
pub mod bls;
pub mod chain;
pub mod client;
pub mod codec;
pub mod consensus;
pub mod elders;
pub mod error;
pub mod join;
pub mod knowledge;
pub mod membership;
pub mod messages;
pub mod name;
pub mod name_map;
pub mod node_state;
pub mod prefix_map;
pub mod resource;
pub mod sap;
pub mod section_peers;
pub mod seq_util;
pub mod service;
pub mod signed;
