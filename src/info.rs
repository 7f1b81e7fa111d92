//! Descriptions of this node and of other peers, as reported to callers.
use crate::address::{spec_is_multiaddr_global, MultiAddress};
use crate::mode::Mode;
use crate::peers::{global_addresses, global_positions};
use vstd::prelude::*;

verus! {

/// What this node reports about itself.
#[derive(Debug)]
pub struct PeerInfo {
    pub peer_id: String,
    pub operation_mode: String,
    pub peer_multiaddr: Option<Vec<String>>,
    pub local_listeners: Vec<String>,
    pub external_listeners: Vec<String>,
    pub public_listeners: Vec<String>,
}

/// The addresses that the routing table holds for a peer.
#[derive(Debug)]
pub struct MultiAddressInfo {
    pub multiaddresses: Vec<String>,
    pub peer_id: String,
}

/// The name of a mode, as reported.
pub open spec fn spec_mode_name(mode: Mode) -> Seq<char> {
    match mode {
        Mode::Client => "client"@,
        Mode::Server => "server"@,
    }
}

/// The name of a mode, as reported.
pub fn mode_name(mode: Mode) -> (r: String)
    ensures
        r@ == spec_mode_name(mode),
{
    match mode {
        Mode::Client => "client".to_string(),
        Mode::Server => "server".to_string(),
    }
}

/// The texts at the given positions, in order.
pub open spec fn pick(texts: Seq<String>, positions: Seq<usize>) -> Seq<String> {
    positions.map_values(|p: usize| texts[p as int])
}

/// Describes this node: its identity, its mode, where it listens, its
/// external addresses (`external[k]` is the text of `external_addresses[k]`)
/// and, among those, the globally reachable ones.
pub fn local_info(
    peer_id: String,
    mode: Mode,
    local_listeners: Vec<String>,
    external: Vec<String>,
    external_addresses: &Vec<MultiAddress>,
) -> (r: PeerInfo)
    requires
        external@.len() == external_addresses@.len(),
    ensures
        r.peer_id == peer_id,
        r.operation_mode@ == spec_mode_name(mode),
        r.peer_multiaddr is None,
        r.local_listeners == local_listeners,
        r.external_listeners == external,
        r.public_listeners@ == pick(
            external@,
            global_positions(external_addresses@, external_addresses@.len() as int),
        ),
{
    let positions = global_addresses(external_addresses);
    let ghost ps = positions@;
    let mut public: Vec<String> = Vec::new();
    let mut k: usize = 0;
    let count = external_addresses.len();
    proof {
        assert(count == external_addresses@.len());
        lemma_global_positions_bound(external_addresses@, external_addresses@.len() as int);
    }
    while k < positions.len()
        invariant
            positions@ == ps,
            forall|q: int| 0 <= q < ps.len() ==> (#[trigger] ps[q] as int) < external@.len(),
            k <= ps.len(),
            public@ == pick(external@, ps.subrange(0, k as int)),
        decreases ps.len() - k,
    {
        let p = positions[k];
        assert(p < external@.len());
        public.push(external[p].clone());
        assert(public@ =~= pick(external@, ps.subrange(0, k + 1)));
        k += 1;
    }
    assert(ps.subrange(0, ps.len() as int) =~= ps);
    PeerInfo {
        peer_id,
        operation_mode: mode_name(mode),
        peer_multiaddr: None,
        local_listeners,
        external_listeners: external,
        public_listeners: public,
    }
}

proof fn lemma_global_positions_bound(addresses: Seq<MultiAddress>, n: int)
    requires
        0 <= n <= addresses.len(),
        addresses.len() <= usize::MAX,
    ensures
        forall|q: int|
            0 <= q < global_positions(addresses, n).len() ==> (#[trigger] global_positions(
                addresses,
                n,
            )[q] as int) < n,
    decreases n,
{
    if n > 0 {
        lemma_global_positions_bound(addresses, n - 1);
        let prev = global_positions(addresses, n - 1);
        if spec_is_multiaddr_global(addresses[n - 1].protocols@) {
            assert forall|q: int| 0 <= q < prev.len() + 1 implies (#[trigger] prev.push(
                (n - 1) as usize,
            )[q] as int) < n by {
                if q < prev.len() {
                    assert(prev.push((n - 1) as usize)[q] == prev[q]);
                }
            }
        }
    }
}

} // verus!
