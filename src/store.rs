//! The in-memory DHT record store, with explicit expiry.
use crate::peers::bytes_equal;
use vstd::prelude::*;

verus! {

/// A DHT record. Times are milliseconds on the node's monotonic clock.
#[derive(Debug, Clone)]
pub struct Record {
    pub key: Vec<u8>,
    pub value: Vec<u8>,
    /// The identity of the peer that published the record, if known.
    pub publisher: Option<Vec<u8>>,
    /// The instant at which the record expires; `None` for never.
    pub expires: Option<u64>,
}

/// A record as plain values.
pub struct RecordView {
    pub key: Seq<u8>,
    pub value: Seq<u8>,
    pub publisher: Option<Seq<u8>>,
    pub expires: Option<u64>,
}

impl View for Record {
    type V = RecordView;

    open spec fn view(&self) -> RecordView {
        RecordView {
            key: self.key@,
            value: self.value@,
            publisher: match self.publisher {
                Some(p) => Some(p@),
                None => None,
            },
            expires: self.expires,
        }
    }
}

/// A record has expired once `now` has reached its expiry instant.
pub open spec fn spec_is_expired(r: RecordView, now: u64) -> bool {
    match r.expires {
        Some(t) => now >= t,
        None => false,
    }
}

impl Record {
    /// Whether the record has expired at `now`.
    pub fn is_expired(&self, now: u64) -> (r: bool)
        ensures
            r == spec_is_expired(self@, now),
    {
        match self.expires {
            Some(t) => now >= t,
            None => false,
        }
    }
}

/// The record stored under `key`, if any.
pub open spec fn lookup(s: Seq<RecordView>, key: Seq<u8>) -> Option<RecordView>
    decreases s.len(),
{
    if s.len() == 0 {
        None
    } else if s.last().key == key {
        Some(s.last())
    } else {
        lookup(s.drop_last(), key)
    }
}

/// No two records share a key.
pub open spec fn keys_unique(s: Seq<RecordView>) -> bool {
    forall|i: int, j: int| 0 <= i < j < s.len() ==> s[i].key != s[j].key
}

/// The records that have not expired at `now`, in order.
pub open spec fn retain_live(s: Seq<RecordView>, now: u64) -> Seq<RecordView>
    decreases s.len(),
{
    if s.len() == 0 {
        s
    } else if spec_is_expired(s.last(), now) {
        retain_live(s.drop_last(), now)
    } else {
        retain_live(s.drop_last(), now).push(s.last())
    }
}

proof fn lemma_lookup_at(s: Seq<RecordView>, i: int)
    requires
        keys_unique(s),
        0 <= i < s.len(),
    ensures
        lookup(s, s[i].key) == Some(s[i]),
    decreases s.len(),
{
    if i < s.len() - 1 {
        lemma_lookup_at(s.drop_last(), i);
    }
}

proof fn lemma_lookup_absent(s: Seq<RecordView>, key: Seq<u8>)
    requires
        forall|i: int| 0 <= i < s.len() ==> s[i].key != key,
    ensures
        lookup(s, key) is None,
    decreases s.len(),
{
    if s.len() > 0 {
        lemma_lookup_absent(s.drop_last(), key);
    }
}

pub proof fn lemma_retain_live(s: Seq<RecordView>, now: u64, key: Seq<u8>)
    ensures
        lookup(retain_live(s, now), key) == (match lookup(s, key) {
            Some(r) => if spec_is_expired(r, now) {
                None
            } else {
                Some(r)
            },
            None => None,
        }) || (keys_unique(s) == false),
        keys_unique(s) ==> keys_unique(retain_live(s, now)),
        retain_live(s, now).len() <= s.len(),
        forall|i: int|
            0 <= i < retain_live(s, now).len() ==> exists|j: int|
                0 <= j < s.len() && #[trigger] retain_live(s, now)[i] == s[j],
    decreases s.len(),
{
    if s.len() > 0 {
        let p = s.drop_last();
        lemma_retain_live(p, now, key);
        let rp = retain_live(p, now);
        assert(rp.push(s.last()).drop_last() =~= rp);
        assert forall|i: int| 0 <= i < retain_live(s, now).len() implies exists|j: int|
            0 <= j < s.len() && #[trigger] retain_live(s, now)[i] == s[j] by {
            if i < rp.len() {
                let j = choose|j: int| 0 <= j < p.len() && rp[i] == p[j];
                assert(s[j] == p[j]);
            } else {
                assert(retain_live(s, now)[i] == s[s.len() - 1]);
            }
        }
        if keys_unique(s) {
            assert(keys_unique(p));
            if !spec_is_expired(s.last(), now) {
                let rs = retain_live(s, now);
                assert forall|i: int, j: int| 0 <= i < j < rs.len() implies rs[i].key
                    != rs[j].key by {
                    if j == rs.len() - 1 {
                        let jj = choose|jj: int| 0 <= jj < p.len() && #[trigger] rp[i] == p[jj];
                        assert(rp[i] == s[jj]);
                    } else {
                        assert(rs[i] == rp[i] && rs[j] == rp[j]);
                    }
                }
            }
            if s.last().key == key {
                assert forall|i: int| 0 <= i < rp.len() implies rp[i].key != key by {
                    let jj = choose|jj: int| 0 <= jj < p.len() && #[trigger] rp[i] == p[jj];
                    assert(p[jj] == s[jj]);
                }
                lemma_lookup_absent(rp, key);
            }
        }
    }
}

/// Relies on Vec::shrink_to_fit: it releases spare capacity and leaves the
/// elements as they are.
#[verifier::external_body]
fn shrink_records(records: &mut Vec<Record>)
    ensures
        final(records)@ == old(records)@,
{
    records.shrink_to_fit();
}

/// Why a record could not be stored.
#[derive(Debug, Clone, Copy, PartialEq, Eq, Structural)]
pub enum StoreError {
    /// The store is full and the record's key is new.
    MaxRecords,
}

/// Records keyed by their key, held in memory. Expiry is not automatic:
/// expired records stay until a prune pass removes them.
pub struct MemoryStore {
    records: Vec<Record>,
    max_records: usize,
}

impl View for MemoryStore {
    type V = Seq<RecordView>;

    closed spec fn view(&self) -> Seq<RecordView> {
        self.records@.map_values(|r: Record| r@)
    }
}

impl MemoryStore {
    pub open spec fn wf(&self) -> bool {
        keys_unique(self@) && self@.len() <= self.capacity()
    }

    pub closed spec fn capacity(&self) -> usize {
        self.max_records
    }

    /// An empty store that holds at most `max_records` records.
    pub fn new(max_records: usize) -> (r: MemoryStore)
        ensures
            r.wf(),
            r@.len() == 0,
            r.capacity() == max_records,
    {
        MemoryStore { records: Vec::new(), max_records }
    }

    /// The number of records held, expired ones included.
    pub fn len(&self) -> (r: usize)
        ensures
            r == self@.len(),
    {
        self.records.len()
    }

    /// The record at place `i`, in the store's order.
    pub fn record_at(&self, i: usize) -> (r: &Record)
        requires
            i < self@.len(),
        ensures
            r@ == self@[i as int],
    {
        &self.records[i]
    }

    fn position(&self, key: &[u8]) -> (r: Option<usize>)
        requires
            self.wf(),
        ensures
            match r {
                Some(i) => i < self@.len() && self@[i as int].key == key@ && lookup(self@, key@)
                    == Some(self@[i as int]),
                None => lookup(self@, key@) is None,
            },
    {
        let n = self.records.len();
        let mut i: usize = 0;
        while i < n
            invariant
                self.wf(),
                n == self@.len(),
                i <= n,
                forall|j: int| 0 <= j < i ==> self@[j].key != key@,
            decreases n - i,
        {
            assert(self@[i as int] == self.records@[i as int]@);
            if bytes_equal(self.records[i].key.as_slice(), key) {
                proof {
                    lemma_lookup_at(self@, i as int);
                }
                return Some(i);
            }
            i += 1;
        }
        proof {
            lemma_lookup_absent(self@, key@);
        }
        None
    }

    /// The record stored under `key`, if any.
    pub fn get(&self, key: &[u8]) -> (r: Option<&Record>)
        requires
            self.wf(),
        ensures
            match r {
                Some(x) => lookup(self@, key@) == Some(x@),
                None => lookup(self@, key@) is None,
            },
    {
        match self.position(key) {
            Some(i) => Some(&self.records[i]),
            None => None,
        }
    }

    /// Releases memory left over by removed records; the records stay.
    pub fn shrink(&mut self)
        requires
            old(self).wf(),
        ensures
            final(self).wf(),
            final(self)@ == old(self)@,
            final(self).capacity() == old(self).capacity(),
    {
        shrink_records(&mut self.records);
    }

    /// Stores `record`, replacing the record under the same key. Fails, and
    /// changes nothing, when the key is new and the store is full.
    pub fn put(&mut self, record: Record) -> (r: Result<(), StoreError>)
        requires
            old(self).wf(),
        ensures
            final(self).wf(),
            final(self).capacity() == old(self).capacity(),
            r is Ok <==> (lookup(old(self)@, record.key@) is Some || old(self)@.len()
                < old(self).capacity()),
            r is Ok ==> forall|k: Seq<u8>|
                #[trigger] lookup(final(self)@, k) == if k == record.key@ {
                    Some(record@)
                } else {
                    lookup(old(self)@, k)
                },
            r is Err ==> final(self)@ == old(self)@,
    {
        let ghost s0 = self@;
        let ghost rv = record@;
        match self.position(record.key.as_slice()) {
            Some(i) => {
                self.records.set(i, record);
                proof {
                    assert(self@ =~= s0.update(i as int, rv));
                    assert forall|k: Seq<u8>|
                        #[trigger] lookup(self@, k) == if k == rv.key {
                            Some(rv)
                        } else {
                            lookup(s0, k)
                        } by {
                        lemma_store_update(s0, i as int, rv, k);
                    }
                }
                Ok(())
            },
            None => {
                if self.records.len() >= self.max_records {
                    return Err(StoreError::MaxRecords);
                }
                self.records.push(record);
                proof {
                    assert(self@ =~= s0.push(rv));
                    assert(self@.drop_last() =~= s0);
                    assert forall|i: int| 0 <= i < s0.len() implies s0[i].key != rv.key by {
                        if s0[i].key == rv.key {
                            lemma_lookup_at(s0, i);
                        }
                    }
                }
                Ok(())
            },
        }
    }

    /// Removes the record stored under `key`, and returns it.
    pub fn remove(&mut self, key: &[u8]) -> (r: Option<Record>)
        requires
            old(self).wf(),
        ensures
            final(self).wf(),
            final(self).capacity() == old(self).capacity(),
            match r {
                Some(x) => lookup(old(self)@, key@) == Some(x@),
                None => lookup(old(self)@, key@) is None,
            },
            forall|k: Seq<u8>|
                #[trigger] lookup(final(self)@, k) == if k == key@ {
                    None
                } else {
                    lookup(old(self)@, k)
                },
    {
        let ghost s0 = self@;
        match self.position(key) {
            Some(i) => {
                let x = self.records.remove(i);
                proof {
                    assert(self@ =~= s0.remove(i as int));
                    assert forall|k: Seq<u8>|
                        #[trigger] lookup(self@, k) == if k == key@ {
                            None
                        } else {
                            lookup(s0, k)
                        } by {
                        lemma_store_remove(s0, i as int, k);
                    }
                }
                Some(x)
            },
            None => {
                proof {
                    assert forall|k: Seq<u8>|
                        #[trigger] lookup(self@, k) == if k == key@ {
                            None
                        } else {
                            lookup(s0, k)
                        } by {}
                }
                None
            },
        }
    }

    /// Removes every record that has expired at `now`, keeping the order of
    /// the others, and returns how many were removed.
    pub fn prune_expired(&mut self, now: u64) -> (r: usize)
        requires
            old(self).wf(),
        ensures
            final(self).wf(),
            final(self).capacity() == old(self).capacity(),
            final(self)@ == retain_live(old(self)@, now),
            r == old(self)@.len() - final(self)@.len(),
    {
        let ghost s0 = self@;
        let n0 = self.records.len();
        let mut i: usize = 0;
        let ghost mut done: int = 0;
        while i < self.records.len()
            invariant
                s0.len() == n0,
                keys_unique(s0),
                s0.len() <= self.capacity(),
                self.capacity() == old(self).capacity(),
                0 <= done <= n0,
                self@ == retain_live(s0.subrange(0, done), now) + s0.subrange(done, n0 as int),
                i == retain_live(s0.subrange(0, done), now).len(),
                i <= done,
            decreases n0 - done,
        {
            let ghost live = retain_live(s0.subrange(0, done), now);
            proof {
                assert(s0.subrange(0, done + 1).drop_last() =~= s0.subrange(0, done));
                assert(s0.subrange(0, done + 1).last() == s0[done]);
                assert(self@[i as int] == s0[done]);
                assert(self@[i as int] == self.records@[i as int]@);
            }
            let ghost before = self@;
            if self.records[i].is_expired(now) {
                self.records.remove(i);
                assert(self@ =~= before.remove(i as int));
                proof {
                    assert(self@ =~= live + s0.subrange(done + 1, n0 as int));
                }
            } else {
                proof {
                    assert(self@ =~= live.push(s0[done]) + s0.subrange(done + 1, n0 as int));
                }
                i += 1;
            }
            proof {
                done = done + 1;
            }
        }
        proof {
            assert(s0.subrange(done, n0 as int).len() == 0);
            assert(s0.subrange(0, done) =~= s0);
            assert(self@ =~= retain_live(s0, now));
            lemma_retain_live(s0, now, Seq::empty());
            assert(self.wf());
        }
        n0 - self.records.len()
    }
}

proof fn lemma_store_update(s: Seq<RecordView>, i: int, r: RecordView, k: Seq<u8>)
    requires
        keys_unique(s),
        0 <= i < s.len(),
        s[i].key == r.key,
    ensures
        keys_unique(s.update(i, r)),
        lookup(s.update(i, r), k) == if k == r.key {
            Some(r)
        } else {
            lookup(s, k)
        },
    decreases s.len(),
{
    let t = s.update(i, r);
    if i == s.len() - 1 {
        assert(t.drop_last() =~= s.drop_last());
        if k != r.key {
        }
    } else {
        lemma_store_update(s.drop_last(), i, r, k);
        assert(t.drop_last() =~= s.drop_last().update(i, r));
    }
}

proof fn lemma_store_remove(s: Seq<RecordView>, i: int, k: Seq<u8>)
    requires
        keys_unique(s),
        0 <= i < s.len(),
    ensures
        keys_unique(s.remove(i)),
        lookup(s.remove(i), k) == if k == s[i].key {
            None
        } else {
            lookup(s, k)
        },
    decreases s.len(),
{
    let t = s.remove(i);
    if i == s.len() - 1 {
        assert(t =~= s.drop_last());
        if k == s[i].key {
            lemma_lookup_absent(t, k);
        }
    } else {
        lemma_store_remove(s.drop_last(), i, k);
        assert(t.drop_last() =~= s.drop_last().remove(i));
        assert(t.last() == s.last());
    }
}

/// A record stored with a time to live is gone once that time has passed:
/// after a prune pass at any instant past its expiry, looking its key up
/// finds nothing.
pub proof fn lemma_expired_record_not_found(
    s: Seq<RecordView>,
    key: Seq<u8>,
    stored_at: u64,
    ttl: u64,
    now: u64,
)
    requires
        keys_unique(s),
        lookup(s, key) is Some,
        stored_at + ttl <= u64::MAX,
        lookup(s, key)->Some_0.expires == Some((stored_at + ttl) as u64),
        now > stored_at + ttl,
    ensures
        lookup(retain_live(s, now), key) is None,
{
    lemma_retain_live(s, now, key);
}

} // verus!
