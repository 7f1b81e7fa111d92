//! Verified core of a peer-to-peer data availability light client that keeps
//! block cells and rows in a Kademlia DHT: classification of addresses as
//! globally reachable, the cells and rows a bulk fetch yields, the records
//! and PUT batches that store them, per-block PUT accounting, the in-memory
//! record store with explicit expiry, the providers index, the Kademlia mode
//! controller, the startup bootstrap sequence, and the summaries of the
//! routing table reported to callers.
pub mod address;
pub mod cells;
pub mod info;
pub mod keys;
pub mod mode;
pub mod peers;
pub mod providers;
pub mod records;
pub mod startup;
pub mod stats;
pub mod store;
