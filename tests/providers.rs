use avail_light_p2p::providers::ProvidersIndex;

fn peers(index: &ProvidersIndex, key: &[u8]) -> Vec<Vec<u8>> {
    index.providers(key).to_vec()
}

#[test]
fn providers_are_kept_oldest_first_without_duplicates() {
    let mut index = ProvidersIndex::new(4, 3);
    assert!(index.add_provider(b"k", b"a").is_empty());
    assert!(index.add_provider(b"k", b"b").is_empty());
    assert!(index.add_provider(b"k", b"a").is_empty());
    assert_eq!(peers(&index, b"k"), vec![b"a".to_vec(), b"b".to_vec()]);
    assert!(peers(&index, b"other").is_empty());
}

#[test]
fn full_key_evicts_its_oldest_provider() {
    let mut index = ProvidersIndex::new(4, 2);
    index.add_provider(b"k", b"a");
    index.add_provider(b"k", b"b");
    let evicted = index.add_provider(b"k", b"c");
    assert_eq!(evicted, vec![(b"k".to_vec(), b"a".to_vec())]);
    assert_eq!(peers(&index, b"k"), vec![b"b".to_vec(), b"c".to_vec()]);
}

#[test]
fn full_index_evicts_its_oldest_key() {
    let mut index = ProvidersIndex::new(2, 4);
    index.add_provider(b"k1", b"a");
    index.add_provider(b"k1", b"b");
    index.add_provider(b"k2", b"a");
    let evicted = index.add_provider(b"k3", b"c");
    assert_eq!(evicted, vec![(b"k1".to_vec(), b"a".to_vec()), (b"k1".to_vec(), b"b".to_vec())]);
    assert!(peers(&index, b"k1").is_empty());
    assert_eq!(peers(&index, b"k3"), vec![b"c".to_vec()]);
    assert_eq!(index.len(), 2);
}

#[test]
fn removing_the_last_provider_drops_the_key() {
    let mut index = ProvidersIndex::new(2, 2);
    index.add_provider(b"k", b"a");
    index.add_provider(b"k", b"b");
    index.remove_provider(b"k", b"a");
    assert_eq!(peers(&index, b"k"), vec![b"b".to_vec()]);
    index.remove_provider(b"k", b"zzz");
    index.remove_provider(b"k", b"b");
    assert_eq!(index.len(), 0);
}

#[test]
fn zero_capacity_index_stores_nothing() {
    let mut index = ProvidersIndex::new(0, 5);
    assert!(index.add_provider(b"k", b"a").is_empty());
    assert_eq!(index.len(), 0);
}
