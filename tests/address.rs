use avail_light_p2p::address::{is_global, is_multiaddr_global, MultiAddress, Protocol};

fn ip4_tcp(ip: [u8; 4], port: u16) -> MultiAddress {
    MultiAddress::new(vec![Protocol::Ip4(ip), Protocol::Tcp(port)])
}

#[test]
fn global_ipv4_multiaddr_is_global() {
    assert!(is_multiaddr_global(&ip4_tcp([159, 73, 143, 3], 37000)));
}

#[test]
fn private_192_168_multiaddr_is_not_global() {
    assert!(!is_multiaddr_global(&ip4_tcp([192, 168, 0, 1], 37000)));
}

#[test]
fn private_172_16_multiaddr_is_not_global() {
    assert!(!is_multiaddr_global(&ip4_tcp([172, 16, 10, 11], 37000)));
}

#[test]
fn loopback_multiaddr_is_not_global() {
    assert!(!is_multiaddr_global(&ip4_tcp([127, 0, 0, 1], 37000)));
}

#[test]
fn empty_multiaddr_is_not_global() {
    assert!(!is_multiaddr_global(&MultiAddress::empty()));
}

#[test]
fn multiaddr_without_ipv4_is_not_global() {
    let a = MultiAddress::new(vec![Protocol::Dns("example.com".to_string()), Protocol::Tcp(1)]);
    assert!(!is_multiaddr_global(&a));
}

#[test]
fn multiaddr_with_a_later_global_ipv4_is_global() {
    let a = MultiAddress::new(vec![
        Protocol::Ip4([10, 0, 0, 1]),
        Protocol::Udp(9),
        Protocol::Ip4([8, 8, 8, 8]),
    ]);
    assert!(is_multiaddr_global(&a));
}

#[test]
fn special_ranges_are_not_global() {
    let special: [[u8; 4]; 16] = [
        [0, 1, 2, 3],
        [10, 20, 30, 40],
        [127, 0, 0, 1],
        [169, 254, 1, 1],
        [172, 16, 0, 1],
        [172, 31, 255, 255],
        [192, 168, 1, 1],
        [192, 0, 0, 1],
        [192, 0, 0, 255],
        [192, 0, 2, 1],
        [198, 51, 100, 7],
        [203, 0, 113, 9],
        [255, 255, 255, 255],
        [0, 0, 0, 0],
        [10, 255, 255, 255],
        [169, 254, 0, 0],
    ];
    for ip in special {
        assert!(!is_global(ip), "{:?}", ip);
    }
}

#[test]
fn reserved_block_exceptions_and_neighbours_are_global() {
    assert!(is_global([192, 0, 0, 9]));
    assert!(is_global([192, 0, 0, 10]));
    assert!(is_global([172, 15, 0, 1]));
    assert!(is_global([172, 32, 0, 1]));
    assert!(is_global([169, 253, 0, 1]));
    assert!(is_global([1, 1, 1, 1]));
    assert!(is_global([255, 255, 255, 254]));
    assert!(is_global([192, 0, 1, 1]));
}
