//! Classification of IPv4 addresses and multi-addresses as globally reachable.
use vstd::prelude::*;

verus! {

/// `0.0.0.0/8`: "this network".
pub open spec fn is_this_network(o: [u8; 4]) -> bool {
    o[0] == 0
}

/// `10/8`, `172.16/12` and `192.168/16`.
pub open spec fn is_private(o: [u8; 4]) -> bool {
    o[0] == 10 || (o[0] == 172 && 16 <= o[1] <= 31) || (o[0] == 192 && o[1] == 168)
}

/// `127/8`.
pub open spec fn is_loopback(o: [u8; 4]) -> bool {
    o[0] == 127
}

/// `169.254/16`.
pub open spec fn is_link_local(o: [u8; 4]) -> bool {
    o[0] == 169 && o[1] == 254
}

/// `192.0.0/24`, reserved for future protocols, but for `.9` and `.10`,
/// which are globally reachable.
pub open spec fn is_future_protocol(o: [u8; 4]) -> bool {
    o[0] == 192 && o[1] == 0 && o[2] == 0 && o[3] != 9 && o[3] != 10
}

/// `192.0.2/24`, `198.51.100/24` and `203.0.113/24`.
pub open spec fn is_documentation(o: [u8; 4]) -> bool {
    (o[0] == 192 && o[1] == 0 && o[2] == 2) || (o[0] == 198 && o[1] == 51 && o[2] == 100) || (
    o[0] == 203 && o[1] == 0 && o[2] == 113)
}

/// `255.255.255.255`.
pub open spec fn is_broadcast(o: [u8; 4]) -> bool {
    o[0] == 255 && o[1] == 255 && o[2] == 255 && o[3] == 255
}

/// An IPv4 address, given by its four octets, is globally reachable when it
/// lies in none of the special-purpose ranges.
pub open spec fn spec_is_global(o: [u8; 4]) -> bool {
    !(is_this_network(o) || is_private(o) || is_loopback(o) || is_link_local(o)
        || is_future_protocol(o) || is_documentation(o) || is_broadcast(o))
}

/// No address of a special-purpose range is global: this network
/// (`0.0.0.0/8`), the private ranges (`10/8`, `172.16/12`, `192.168/16`),
/// loopback (`127/8`), link-local (`169.254/16`), `192.0.0/24` but for `.9`
/// and `.10`, the documentation ranges (`192.0.2/24`, `198.51.100/24`,
/// `203.0.113/24`) and the broadcast address.
pub proof fn lemma_special_ranges_not_global(o: [u8; 4])
    requires
        o[0] == 0 || o[0] == 10 || o[0] == 127 || (o[0] == 169 && o[1] == 254) || (o[0] == 172
            && o[1] / 16 == 1) || (o[0] == 192 && o[1] == 168) || (o[0] == 192 && o[1] == 0
            && o[2] == 0 && o[3] != 9 && o[3] != 10) || (o[0] == 192 && o[1] == 0 && o[2] == 2)
            || (o[0] == 198 && o[1] == 51 && o[2] == 100) || (o[0] == 203 && o[1] == 0 && o[2]
            == 113) || (o[0] == 255 && o[1] == 255 && o[2] == 255 && o[3] == 255),
    ensures
        !spec_is_global(o),
{
}

/// Returns `true` if the IPv4 address with octets `ip` appears to be
/// globally reachable.
pub fn is_global(ip: [u8; 4]) -> (r: bool)
    ensures
        r == spec_is_global(ip),
{
    let a = ip[0];
    let b = ip[1];
    let c = ip[2];
    let d = ip[3];
    let private = a == 10 || (a == 172 && 16 <= b && b <= 31) || (a == 192 && b == 168);
    let future = a == 192 && b == 0 && c == 0 && d != 9 && d != 10;
    let documentation = (a == 192 && b == 0 && c == 2) || (a == 198 && b == 51 && c == 100) || (a
        == 203 && b == 0 && c == 113);
    let broadcast = a == 255 && b == 255 && c == 255 && d == 255;
    !(a == 0 || private || a == 127 || (a == 169 && b == 254) || future || documentation
        || broadcast)
}

/// One component of a multi-address.
#[derive(Debug, Clone, PartialEq, Eq)]
pub enum Protocol {
    Ip4([u8; 4]),
    Ip6([u8; 16]),
    Tcp(u16),
    Udp(u16),
    Dns(String),
    PeerId(Vec<u8>),
    /// Any other component, by its textual form.
    Other(String),
}

/// A multi-address as the sequence of its components.
#[derive(Debug, Clone)]
pub struct MultiAddress {
    pub protocols: Vec<Protocol>,
}

/// Some component of `a` is an IPv4 address that is globally reachable.
pub open spec fn spec_is_multiaddr_global(a: Seq<Protocol>) -> bool {
    exists|i: int| 0 <= i < a.len() && #[trigger] ip4_global_at(a, i)
}

pub open spec fn ip4_global_at(a: Seq<Protocol>, i: int) -> bool {
    match a[i] {
        Protocol::Ip4(o) => spec_is_global(o),
        _ => false,
    }
}

impl MultiAddress {
    /// The empty multi-address.
    pub fn empty() -> (r: MultiAddress)
        ensures
            r.protocols@.len() == 0,
    {
        MultiAddress { protocols: Vec::new() }
    }

    /// A multi-address made of the given components.
    pub fn new(protocols: Vec<Protocol>) -> (r: MultiAddress)
        ensures
            r.protocols@ == protocols@,
    {
        MultiAddress { protocols }
    }
}

/// Returns `true` if some IPv4 component of the multi-address appears to be
/// globally reachable.
pub fn is_multiaddr_global(address: &MultiAddress) -> (r: bool)
    ensures
        r == spec_is_multiaddr_global(address.protocols@),
{
    let n = address.protocols.len();
    let mut i: usize = 0;
    while i < n
        invariant
            n == address.protocols@.len(),
            i <= n,
            forall|j: int| 0 <= j < i ==> !#[trigger] ip4_global_at(address.protocols@, j),
        decreases n - i,
    {
        match &address.protocols[i] {
            Protocol::Ip4(ip) => {
                if is_global(*ip) {
                    assert(ip4_global_at(address.protocols@, i as int));
                    return true;
                }
            },
            _ => {},
        }
        i += 1;
    }
    false
}

} // verus!
