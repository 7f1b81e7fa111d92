use avail_light_p2p::address::{MultiAddress, Protocol};
use avail_light_p2p::info::{local_info, mode_name};
use avail_light_p2p::keys::{decode_secret_key, KeyError};
use avail_light_p2p::mode::Mode;
use avail_light_p2p::peers::{addresses_of_peer, count_peers, global_addresses, PeerEntry};

fn ip4(ip: [u8; 4]) -> MultiAddress {
    MultiAddress::new(vec![Protocol::Ip4(ip), Protocol::Tcp(37000)])
}

#[test]
fn peers_with_public_addresses_are_counted() {
    let peers = vec![
        PeerEntry { peer_id: vec![1], addresses: vec![ip4([10, 0, 0, 1]), ip4([8, 8, 4, 4])] },
        PeerEntry { peer_id: vec![2], addresses: vec![ip4([192, 168, 1, 2])] },
        PeerEntry { peer_id: vec![3], addresses: vec![] },
        PeerEntry { peer_id: vec![4], addresses: vec![ip4([1, 2, 3, 4]), ip4([5, 6, 7, 8])] },
    ];
    assert_eq!(count_peers(&peers), (4, 2));
    assert_eq!(count_peers(&vec![]), (0, 0));
}

#[test]
fn addresses_of_a_peer_are_collected() {
    let entries = vec![
        (vec![1u8], vec!["/ip4/1.1.1.1".to_string()]),
        (vec![2u8], vec!["/ip4/2.2.2.2".to_string()]),
        (vec![1u8], vec!["/ip4/3.3.3.3".to_string(), "/dns/x".to_string()]),
    ];
    assert_eq!(
        addresses_of_peer(&entries, &vec![1u8]),
        vec!["/ip4/1.1.1.1".to_string(), "/ip4/3.3.3.3".to_string(), "/dns/x".to_string()]
    );
    assert!(addresses_of_peer(&entries, &vec![9u8]).is_empty());
}

#[test]
fn local_info_lists_public_listeners() {
    let addrs = vec![ip4([192, 168, 0, 1]), ip4([159, 73, 143, 3])];
    let texts = vec!["/ip4/192.168.0.1/tcp/37000".to_string(), "/ip4/159.73.143.3/tcp/37000".to_string()];
    assert_eq!(global_addresses(&addrs), vec![1]);
    let info = local_info("peer".to_string(), Mode::Server, vec!["/ip4/0.0.0.0/tcp/37000".to_string()], texts.clone(), &addrs);
    assert_eq!(info.operation_mode, "server");
    assert_eq!(info.public_listeners, vec!["/ip4/159.73.143.3/tcp/37000".to_string()]);
    assert_eq!(info.external_listeners, texts);
    assert!(info.peer_multiaddr.is_none());
    assert_eq!(mode_name(Mode::Client), "client");
}

#[test]
fn secret_key_is_decoded_from_hex() {
    let text = "0123456789abcdefABCDEF0123456789abcdef0123456789abcdef0123456789";
    let key = decode_secret_key(text.as_bytes()).unwrap();
    assert_eq!(key[0], 0x01);
    assert_eq!(key[1], 0x23);
    assert_eq!(key[7], 0xef);
    assert_eq!(key[8], 0xab);
    assert_eq!(key[31], 0x89);
}

#[test]
fn malformed_secret_key_is_refused() {
    assert_eq!(decode_secret_key(b"abc"), Err(KeyError::InvalidHex));
    assert_eq!(decode_secret_key(&[b'0'; 62]), Err(KeyError::InvalidHex));
    let mut bad = [b'0'; 64];
    bad[10] = b'g';
    assert_eq!(decode_secret_key(&bad), Err(KeyError::InvalidHex));
}
