//! Summaries of the routing table and of this node's addresses.
use crate::address::{is_multiaddr_global, spec_is_multiaddr_global, MultiAddress};
use vstd::prelude::*;

verus! {

/// A peer of the routing table with the addresses known for it.
pub struct PeerEntry {
    /// The peer's identity, in its binary encoding.
    pub peer_id: Vec<u8>,
    pub addresses: Vec<MultiAddress>,
}

/// Some address of the peer is globally reachable.
pub open spec fn has_global_address(addresses: Seq<MultiAddress>) -> bool {
    exists|j: int|
        0 <= j < addresses.len() && #[trigger] spec_is_multiaddr_global(addresses[j].protocols@)
}

/// How many of the first `n` peers have a globally reachable address.
pub open spec fn count_public(peers: Seq<PeerEntry>, n: int) -> nat
    decreases n,
{
    if n <= 0 {
        0
    } else {
        count_public(peers, n - 1) + if has_global_address(peers[n - 1].addresses@) {
            1nat
        } else {
            0nat
        }
    }
}

proof fn lemma_count_public_bound(peers: Seq<PeerEntry>, n: int)
    requires
        0 <= n,
    ensures
        count_public(peers, n) <= n,
    decreases n,
{
    if n > 0 {
        lemma_count_public_bound(peers, n - 1);
    }
}

/// Whether some address in the list is globally reachable.
fn any_global(addresses: &Vec<MultiAddress>) -> (r: bool)
    ensures
        r == has_global_address(addresses@),
{
    let n = addresses.len();
    let mut j: usize = 0;
    while j < n
        invariant
            n == addresses@.len(),
            j <= n,
            forall|k: int|
                0 <= k < j ==> !#[trigger] spec_is_multiaddr_global(addresses@[k].protocols@),
        decreases n - j,
    {
        if is_multiaddr_global(&addresses[j]) {
            return true;
        }
        j += 1;
    }
    false
}

/// Counts the peers of the routing table: all of them, and those with at
/// least one globally reachable address.
pub fn count_peers(peers: &Vec<PeerEntry>) -> (r: (usize, usize))
    ensures
        r.0 == peers@.len(),
        r.1 == count_public(peers@, peers@.len() as int),
{
    let n = peers.len();
    let mut total: usize = 0;
    let mut public: usize = 0;
    while total < n
        invariant
            n == peers@.len(),
            total <= n,
            public == count_public(peers@, total as int),
        decreases n - total,
    {
        proof {
            lemma_count_public_bound(peers@, total as int);
        }
        if any_global(&peers[total].addresses) {
            public += 1;
        }
        total += 1;
    }
    (total, public)
}

/// The positions, in order, of the globally reachable addresses among the
/// first `n` of `addresses`.
pub open spec fn global_positions(addresses: Seq<MultiAddress>, n: int) -> Seq<usize>
    decreases n,
{
    if n <= 0 {
        Seq::empty()
    } else if spec_is_multiaddr_global(addresses[n - 1].protocols@) {
        global_positions(addresses, n - 1).push((n - 1) as usize)
    } else {
        global_positions(addresses, n - 1)
    }
}

/// The positions of the globally reachable addresses, in order: those of
/// this node's external addresses that it lists as public.
pub fn global_addresses(addresses: &Vec<MultiAddress>) -> (r: Vec<usize>)
    ensures
        r@ == global_positions(addresses@, addresses@.len() as int),
{
    let n = addresses.len();
    let mut r: Vec<usize> = Vec::new();
    let mut i: usize = 0;
    while i < n
        invariant
            n == addresses@.len(),
            i <= n,
            r@ == global_positions(addresses@, i as int),
        decreases n - i,
    {
        if is_multiaddr_global(&addresses[i]) {
            r.push(i);
        }
        i += 1;
    }
    r
}

/// Whether two byte strings are equal.
pub fn bytes_equal(a: &[u8], b: &[u8]) -> (r: bool)
    ensures
        r == (a@ == b@),
{
    if a.len() != b.len() {
        return false;
    }
    let mut i: usize = 0;
    while i < a.len()
        invariant
            a@.len() == b@.len(),
            i <= a@.len(),
            forall|k: int| 0 <= k < i ==> a@[k] == b@[k],
        decreases a@.len() - i,
    {
        if a[i] != b[i] {
            return false;
        }
        i += 1;
    }
    assert(a@ =~= b@);
    true
}

/// The textual addresses, in routing-table order, of every entry for `peer`.
pub open spec fn addresses_for(entries: Seq<(Seq<u8>, Seq<String>)>, peer: Seq<u8>, n: int) -> Seq<
    String,
>
    decreases n,
{
    if n <= 0 {
        Seq::empty()
    } else if entries[n - 1].0 == peer {
        addresses_for(entries, peer, n - 1) + entries[n - 1].1
    } else {
        addresses_for(entries, peer, n - 1)
    }
}

pub open spec fn entries_view(entries: Seq<(Vec<u8>, Vec<String>)>) -> Seq<(Seq<u8>, Seq<String>)> {
    entries.map_values(|e: (Vec<u8>, Vec<String>)| (e.0@, e.1@))
}

/// Collects the addresses that the routing table holds for `peer`, given the
/// table's entries as peer identities with their textual addresses.
pub fn addresses_of_peer(entries: &Vec<(Vec<u8>, Vec<String>)>, peer: &Vec<u8>) -> (r: Vec<String>)
    ensures
        r@ == addresses_for(entries_view(entries@), peer@, entries@.len() as int),
{
    let ghost view = entries_view(entries@);
    let n = entries.len();
    let mut r: Vec<String> = Vec::new();
    let mut i: usize = 0;
    while i < n
        invariant
            n == entries@.len(),
            view == entries_view(entries@),
            i <= n,
            r@ == addresses_for(view, peer@, i as int),
        decreases n - i,
    {
        let entry = &entries[i];
        assert(view[i as int] == (entry.0@, entry.1@));
        if bytes_equal(entry.0.as_slice(), peer.as_slice()) {
            let addrs = &entry.1;
            let m = addrs.len();
            let mut j: usize = 0;
            let ghost before = r@;
            while j < m
                invariant
                    m == addrs@.len(),
                    j <= m,
                    r@ == before + addrs@.subrange(0, j as int),
                decreases m - j,
            {
                r.push(addrs[j].clone());
                assert(r@ =~= before + addrs@.subrange(0, j + 1));
                j += 1;
            }
            assert(addrs@.subrange(0, m as int) =~= addrs@);
        }
        i += 1;
    }
    r
}

} // verus!
