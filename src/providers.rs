//! Per-key sets of the peers that claim to provide a key, with capacity
//! caps; on overflow the oldest entry goes first.
use crate::cells::copy_bytes;
use crate::peers::bytes_equal;
use vstd::prelude::*;

verus! {

/// A key with its providers, oldest first.
pub struct ProviderEntry {
    pub key: Vec<u8>,
    pub providers: Vec<Vec<u8>>,
}

pub open spec fn peers_view(peers: Seq<Vec<u8>>) -> Seq<Seq<u8>> {
    peers.map_values(|p: Vec<u8>| p@)
}

pub open spec fn entry_view(e: ProviderEntry) -> (Seq<u8>, Seq<Seq<u8>>) {
    (e.key@, peers_view(e.providers@))
}

/// The place of `key` among the entries, if it has one.
pub open spec fn key_index(s: Seq<(Seq<u8>, Seq<Seq<u8>>)>, key: Seq<u8>) -> Option<int> {
    if exists|i: int| 0 <= i < s.len() && s[i].0 == key {
        Some(choose|i: int| 0 <= i < s.len() && s[i].0 == key)
    } else {
        None
    }
}

/// The entries after `peer` announced that it provides `key`: a known
/// provider changes nothing; a new one joins the key's providers, pushing
/// out the oldest when the key has `max_per_key` already; a new key joins
/// the entries, pushing out the oldest key when there are `max_keys`.
pub open spec fn spec_add(
    s: Seq<(Seq<u8>, Seq<Seq<u8>>)>,
    key: Seq<u8>,
    peer: Seq<u8>,
    max_keys: usize,
    max_per_key: usize,
) -> Seq<(Seq<u8>, Seq<Seq<u8>>)> {
    if max_keys == 0 || max_per_key == 0 {
        s
    } else {
        match key_index(s, key) {
            Some(i) => {
                let ps = s[i].1;
                if ps.contains(peer) {
                    s
                } else if ps.len() >= max_per_key {
                    s.update(i, (key, ps.drop_first().push(peer)))
                } else {
                    s.update(i, (key, ps.push(peer)))
                }
            },
            None => if s.len() >= max_keys {
                s.drop_first().push((key, seq![peer]))
            } else {
                s.push((key, seq![peer]))
            },
        }
    }
}

/// The place of `peer` among a key's providers, if it has one.
pub open spec fn peer_index(ps: Seq<Seq<u8>>, peer: Seq<u8>) -> Option<int> {
    if exists|j: int| 0 <= j < ps.len() && ps[j] == peer {
        Some(choose|j: int| 0 <= j < ps.len() && ps[j] == peer)
    } else {
        None
    }
}

/// The entries after `peer` stopped providing `key`; a key left without
/// providers is dropped.
pub open spec fn spec_remove(
    s: Seq<(Seq<u8>, Seq<Seq<u8>>)>,
    key: Seq<u8>,
    peer: Seq<u8>,
) -> Seq<(Seq<u8>, Seq<Seq<u8>>)> {
    match key_index(s, key) {
        Some(i) => match peer_index(s[i].1, peer) {
            Some(j) => if s[i].1.len() == 1 {
                s.remove(i)
            } else {
                s.update(i, (key, s[i].1.remove(j)))
            },
            None => s,
        },
        None => s,
    }
}

pub open spec fn pairs_view(pairs: Seq<(Vec<u8>, Vec<u8>)>) -> Seq<(Seq<u8>, Seq<u8>)> {
    pairs.map_values(|p: (Vec<u8>, Vec<u8>)| (p.0@, p.1@))
}

/// The pairs of key and provider that `spec_add` pushes out.
pub open spec fn spec_evicted(
    s: Seq<(Seq<u8>, Seq<Seq<u8>>)>,
    key: Seq<u8>,
    peer: Seq<u8>,
    max_keys: usize,
    max_per_key: usize,
) -> Seq<(Seq<u8>, Seq<u8>)> {
    if max_keys == 0 || max_per_key == 0 {
        Seq::empty()
    } else {
        match key_index(s, key) {
            Some(i) => if !s[i].1.contains(peer) && s[i].1.len() >= max_per_key {
                seq![(key, s[i].1[0])]
            } else {
                Seq::empty()
            },
            None => if s.len() >= max_keys {
                s[0].1.map_values(|p: Seq<u8>| (s[0].0, p))
            } else {
                Seq::empty()
            },
        }
    }
}

/// Providers of keys, bounded per key and in the number of keys.
pub struct ProvidersIndex {
    entries: Vec<ProviderEntry>,
    max_keys: usize,
    max_per_key: usize,
}

impl View for ProvidersIndex {
    type V = Seq<(Seq<u8>, Seq<Seq<u8>>)>;

    closed spec fn view(&self) -> Seq<(Seq<u8>, Seq<Seq<u8>>)> {
        self.entries@.map_values(|e: ProviderEntry| entry_view(e))
    }
}

impl ProvidersIndex {
    pub closed spec fn max_keys(&self) -> usize {
        self.max_keys
    }

    pub closed spec fn max_per_key(&self) -> usize {
        self.max_per_key
    }

    /// Keys are unique and within the cap; each key has providers, unique
    /// and within the cap.
    pub open spec fn wf(&self) -> bool {
        let s = self@;
        &&& s.len() <= self.max_keys()
        &&& forall|i: int, j: int| 0 <= i < j < s.len() ==> s[i].0 != s[j].0
        &&& forall|i: int|
            0 <= i < s.len() ==> {
                &&& 0 < #[trigger] s[i].1.len() <= self.max_per_key()
                &&& s[i].1.no_duplicates()
            }
    }

    /// An empty index with the given caps.
    pub fn new(max_keys: usize, max_per_key: usize) -> (r: ProvidersIndex)
        ensures
            r.wf(),
            r@.len() == 0,
            r.max_keys() == max_keys,
            r.max_per_key() == max_per_key,
    {
        ProvidersIndex { entries: Vec::new(), max_keys, max_per_key }
    }

    /// The number of keys with providers.
    pub fn len(&self) -> (r: usize)
        ensures
            r == self@.len(),
    {
        self.entries.len()
    }

    fn find(&self, key: &[u8]) -> (r: Option<usize>)
        requires
            self.wf(),
        ensures
            match r {
                Some(i) => key_index(self@, key@) == Some(i as int),
                None => key_index(self@, key@) is None,
            },
    {
        let n = self.entries.len();
        let mut i: usize = 0;
        while i < n
            invariant
                self.wf(),
                n == self@.len(),
                i <= n,
                forall|j: int| 0 <= j < i ==> self@[j].0 != key@,
            decreases n - i,
        {
            assert(self@[i as int] == entry_view(self.entries@[i as int]));
            if bytes_equal(self.entries[i].key.as_slice(), key) {
                assert(self@[i as int].0 == key@);
                return Some(i);
            }
            i += 1;
        }
        None
    }

    fn has_provider(providers: &Vec<Vec<u8>>, peer: &[u8]) -> (r: bool)
        ensures
            r == peers_view(providers@).contains(peer@),
    {
        let ghost ps = peers_view(providers@);
        let n = providers.len();
        let mut j: usize = 0;
        while j < n
            invariant
                n == providers@.len(),
                ps == peers_view(providers@),
                j <= n,
                forall|k: int| 0 <= k < j ==> ps[k] != peer@,
            decreases n - j,
        {
            if bytes_equal(providers[j].as_slice(), peer) {
                assert(ps[j as int] == peer@);
                return true;
            }
            j += 1;
        }
        false
    }

    /// Records that `peer` provides `key`, and returns the pairs of key and
    /// provider that made room for it.
    pub fn add_provider(&mut self, key: &[u8], peer: &[u8]) -> (r: Vec<(Vec<u8>, Vec<u8>)>)
        requires
            old(self).wf(),
        ensures
            final(self).wf(),
            final(self).max_keys() == old(self).max_keys(),
            final(self).max_per_key() == old(self).max_per_key(),
            final(self)@ == spec_add(
                old(self)@,
                key@,
                peer@,
                old(self).max_keys(),
                old(self).max_per_key(),
            ),
            pairs_view(r@) == spec_evicted(
                old(self)@,
                key@,
                peer@,
                old(self).max_keys(),
                old(self).max_per_key(),
            ),
    {
        let ghost s0 = self@;
        let mut evicted: Vec<(Vec<u8>, Vec<u8>)> = Vec::new();
        if self.max_keys == 0 || self.max_per_key == 0 {
            assert(pairs_view(evicted@) =~= Seq::empty());
            return evicted;
        }
        match self.find(key) {
            Some(i) => {
                assert(s0[i as int] == entry_view(self.entries@[i as int]));
                if Self::has_provider(&self.entries[i].providers, peer) {
                    assert(pairs_view(evicted@) =~= Seq::empty());
                    return evicted;
                }
                let mut entry = self.entries.remove(i);
                let ghost ps = peers_view(entry.providers@);
                assert(entry_view(entry) == s0[i as int]);
                if entry.providers.len() >= self.max_per_key {
                    let oldest = entry.providers.remove(0);
                    evicted.push((copy_bytes(key), oldest));
                    assert(peers_view(entry.providers@) =~= ps.drop_first());
                } else {
                    assert(pairs_view(evicted@) =~= Seq::empty());
                }
                let ghost kept = peers_view(entry.providers@);
                entry.providers.push(copy_bytes(peer));
                assert(peers_view(entry.providers@) =~= kept.push(peer@));
                assert(entry.key@ == key@);
                let ghost new_entry = entry_view(entry);
                self.entries.insert(i, entry);
                proof {
                    assert(self@ =~= s0.update(i as int, new_entry));
                    assert(pairs_view(evicted@) =~= spec_evicted(
                        s0,
                        key@,
                        peer@,
                        self.max_keys,
                        self.max_per_key,
                    ));
                    assert forall|a: int, b: int|
                        0 <= a < b < kept.len() + 1 implies kept.push(peer@)[a] != kept.push(
                            peer@,
                        )[b] by {
                        if b == kept.len() {
                            assert(kept.contains(kept[a]));
                            assert(ps.contains(kept[a]));
                        } else {
                            if ps.len() >= self.max_per_key {
                                assert(kept[a] == ps[a + 1] && kept[b] == ps[b + 1]);
                            }
                        }
                    }
                }
                evicted
            },
            None => {
                if self.entries.len() >= self.max_keys {
                    let oldest = self.entries.remove(0);
                    assert(entry_view(oldest) == s0[0]);
                    let m = oldest.providers.len();
                    let mut j: usize = 0;
                    while j < m
                        invariant
                            m == oldest.providers@.len(),
                            entry_view(oldest) == s0[0],
                            j <= m,
                            pairs_view(evicted@) == s0[0].1.subrange(0, j as int).map_values(
                                |p: Seq<u8>| (s0[0].0, p),
                            ),
                        decreases m - j,
                    {
                        let ghost before = evicted@;
                        evicted.push(
                            (copy_bytes(oldest.key.as_slice()), copy_bytes(oldest.providers[j].as_slice())),
                        );
                        assert(pairs_view(evicted@) =~= s0[0].1.subrange(0, j + 1).map_values(
                            |p: Seq<u8>| (s0[0].0, p),
                        )) by {
                            assert(pairs_view(evicted@) =~= pairs_view(before).push(
                                (s0[0].0, s0[0].1[j as int]),
                            ));
                        }
                        j += 1;
                    }
                    assert(s0[0].1.subrange(0, m as int) =~= s0[0].1);
                    assert(self@ =~= s0.drop_first());
                } else {
                    assert(pairs_view(evicted@) =~= Seq::empty());
                }
                let ghost mid = self@;
                let mut providers: Vec<Vec<u8>> = Vec::new();
                providers.push(copy_bytes(peer));
                let entry = ProviderEntry { key: copy_bytes(key), providers };
                assert(entry_view(entry) == (key@, seq![peer@])) by {
                    assert(peers_view(entry.providers@) =~= seq![peer@]);
                }
                self.entries.push(entry);
                proof {
                    assert(self@ =~= mid.push((key@, seq![peer@])));
                    assert(seq![peer@].no_duplicates());
                }
                evicted
            },
        }
    }

    /// Records that `peer` no longer provides `key`.
    pub fn remove_provider(&mut self, key: &[u8], peer: &[u8])
        requires
            old(self).wf(),
        ensures
            final(self).wf(),
            final(self).max_keys() == old(self).max_keys(),
            final(self).max_per_key() == old(self).max_per_key(),
            final(self)@ == spec_remove(old(self)@, key@, peer@),
    {
        let ghost s0 = self@;
        match self.find(key) {
            None => {},
            Some(i) => {
                assert(s0[i as int] == entry_view(self.entries@[i as int]));
                let ghost ps = s0[i as int].1;
                let n = self.entries[i].providers.len();
                let mut j: usize = 0;
                while j < n
                    invariant
                        self@ == s0,
                        i < s0.len(),
                        ps == s0[i as int].1,
                        ps == peers_view(self.entries@[i as int].providers@),
                        n == ps.len(),
                        j <= n,
                        forall|k: int| 0 <= k < j ==> ps[k] != peer@,
                    ensures
                        self@ == s0,
                        j <= n,
                        j < n ==> ps[j as int] == peer@,
                        forall|k: int| 0 <= k < j ==> ps[k] != peer@,
                    decreases n - j,
                {
                    if bytes_equal(self.entries[i].providers[j].as_slice(), peer) {
                        assert(ps[j as int] == self.entries@[i as int].providers@[j as int]@);
                        break;
                    }
                    j += 1;
                }
                if j == n {
                    return ;
                }
                assert(ps[j as int] == peer@);
                assert(peer_index(ps, peer@) == Some(j as int)) by {
                    let c = peer_index(ps, peer@)->Some_0;
                    assert(ps.no_duplicates());
                    assert(ps[c] == ps[j as int]);
                }
                let mut entry = self.entries.remove(i);
                assert(self@ =~= s0.remove(i as int));
                entry.providers.remove(j);
                assert(peers_view(entry.providers@) =~= ps.remove(j as int));
                if entry.providers.len() > 0 {
                    let ghost e = entry_view(entry);
                    let ghost removed = self@;
                    self.entries.insert(i, entry);
                    assert(self@ =~= s0.update(i as int, (key@, ps.remove(j as int))));
                    assert(ps.remove(j as int).no_duplicates()) by {
                        assert forall|a: int, b: int|
                            0 <= a < b < ps.len() - 1 implies ps.remove(j as int)[a] != ps.remove(
                                j as int,
                            )[b] by {
                            let a2 = if a < j { a } else { a + 1 };
                            let b2 = if b < j { b } else { b + 1 };
                            assert(ps.remove(j as int)[a] == ps[a2]);
                            assert(ps.remove(j as int)[b] == ps[b2]);
                        }
                    }
                }
            },
        }
    }

    /// The providers of `key`, oldest first; empty for an unknown key.
    pub fn providers(&self, key: &[u8]) -> (r: &[Vec<u8>])
        requires
            self.wf(),
        ensures
            peers_view(r@) == match key_index(self@, key@) {
                Some(i) => self@[i].1,
                None => Seq::empty(),
            },
    {
        match self.find(key) {
            Some(i) => {
                assert(self@[i as int] == entry_view(self.entries@[i as int]));
                self.entries[i].providers.as_slice()
            },
            None => {
                let r: &[Vec<u8>] = &[];
                assert(peers_view(r@) =~= Seq::empty());
                r
            },
        }
    }
}

} // verus!
