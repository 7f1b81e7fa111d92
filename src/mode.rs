//! The Kademlia mode controller: whether this node serves the DHT or only
//! uses it.
use vstd::prelude::*;

verus! {

/// The Kademlia role of this node.
#[derive(Debug, Clone, Copy, PartialEq, Eq, Structural)]
pub enum Mode {
    /// Uses the DHT without storing records for others.
    Client,
    /// Stores records for others and answers routing queries.
    Server,
}

/// What the host offers, as read when the mode is reconsidered.
#[derive(Debug, Clone, Copy, PartialEq, Eq, Structural)]
pub struct HostResources {
    /// Total physical memory, in bytes.
    pub total_memory_bytes: u64,
    /// Number of logical CPUs.
    pub cpu_count: usize,
}

/// The mode that follows `current`: a reachable client on a host with more
/// memory and more CPUs than the thresholds becomes a server; a server with
/// no external address becomes a client; otherwise nothing changes.
pub open spec fn spec_next_mode(
    current: Mode,
    has_external_address: bool,
    host: HostResources,
    memory_threshold_bytes: u64,
    cpus_threshold: usize,
) -> Mode {
    if current == Mode::Client && has_external_address && host.total_memory_bytes
        > memory_threshold_bytes && host.cpu_count > cpus_threshold {
        Mode::Server
    } else if current == Mode::Server && !has_external_address {
        Mode::Client
    } else {
        current
    }
}

/// Whether deciding the next mode depends on the host's resources: only a
/// client with an external address may be promoted.
pub fn needs_host_resources(current: Mode, has_external_address: bool) -> (r: bool)
    ensures
        r == (current == Mode::Client && has_external_address),
        !r ==> forall|h1: HostResources, h2: HostResources, m: u64, c: usize|
            spec_next_mode(current, has_external_address, h1, m, c) == spec_next_mode(
                current,
                has_external_address,
                h2,
                m,
                c,
            ),
{
    match current {
        Mode::Client => has_external_address,
        Mode::Server => false,
    }
}

/// Decides the Kademlia mode that follows `current`. A memory threshold
/// given in gigabytes is passed here as the number of bytes below which the
/// host's memory does not exceed it.
pub fn next_mode(
    current: Mode,
    has_external_address: bool,
    host: HostResources,
    memory_threshold_bytes: u64,
    cpus_threshold: usize,
) -> (r: Mode)
    ensures
        r == spec_next_mode(
            current,
            has_external_address,
            host,
            memory_threshold_bytes,
            cpus_threshold,
        ),
{
    match current {
        Mode::Client => {
            if has_external_address && host.total_memory_bytes > memory_threshold_bytes
                && host.cpu_count > cpus_threshold {
                Mode::Server
            } else {
                Mode::Client
            }
        },
        Mode::Server => {
            if !has_external_address {
                Mode::Client
            } else {
                Mode::Server
            }
        },
    }
}

} // verus!
