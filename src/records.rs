//! Building the DHT records that store cells and rows, and the batch of PUTs
//! that inserts them.
use crate::cells::{copy_bytes, decode_cell, fetched_cells, unfetched_positions, Cell, Position, CELL_SIZE};
use crate::store::{keys_unique, lookup, retain_live, Record, RecordView};
use vstd::prelude::*;

verus! {

/// Milliseconds in a second.
pub const MILLIS_PER_SECOND: u64 = 1000;

/// The instant `ttl_secs` seconds after `now_ms`, in milliseconds; `None`
/// where it cannot be represented.
pub open spec fn spec_expiry(now_ms: u64, ttl_secs: u64) -> Option<u64> {
    if now_ms + ttl_secs * MILLIS_PER_SECOND <= u64::MAX {
        Some((now_ms + ttl_secs * MILLIS_PER_SECOND) as u64)
    } else {
        None
    }
}

/// The expiry instant of a record stored at `now_ms` to live `ttl_secs`
/// seconds.
pub fn expiry(now_ms: u64, ttl_secs: u64) -> (r: Option<u64>)
    ensures
        r == spec_expiry(now_ms, ttl_secs),
{
    match ttl_secs.checked_mul(MILLIS_PER_SECOND) {
        Some(ttl_ms) => now_ms.checked_add(ttl_ms),
        None => None,
    }
}

/// The record that stores `value` under `key` from `now_ms` for `ttl_secs`
/// seconds, with no publisher.
pub open spec fn spec_record(key: Seq<u8>, value: Seq<u8>, now_ms: u64, ttl_secs: u64) -> RecordView {
    RecordView { key, value, publisher: None, expires: spec_expiry(now_ms, ttl_secs) }
}

/// The record that stores a cell under its key: its value is the cell's
/// content.
pub fn cell_record(key: &[u8], cell: &Cell, now_ms: u64, ttl_secs: u64) -> (r: Record)
    ensures
        r@ == spec_record(key@, cell.content@, now_ms, ttl_secs),
{
    Record {
        key: copy_bytes(key),
        value: copy_bytes(&cell.content),
        publisher: None,
        expires: expiry(now_ms, ttl_secs),
    }
}

/// The record that stores a row's bytes under its key.
pub fn row_record(key: &[u8], row: &[u8], now_ms: u64, ttl_secs: u64) -> (r: Record)
    ensures
        r@ == spec_record(key@, row@, now_ms, ttl_secs),
{
    Record { key: copy_bytes(key), value: copy_bytes(row), publisher: None, expires: expiry(now_ms, ttl_secs) }
}

/// How many peers must acknowledge a PUT.
#[derive(Debug, Clone, Copy, PartialEq, Eq, Structural)]
pub enum Quorum {
    One,
    Majority,
    All,
}

/// The PUT operations of one insertion, tagged with their block.
pub struct PutBatch {
    pub records: Vec<Record>,
    pub quorum: Quorum,
    pub block: u32,
}

/// Why an insertion was refused.
#[derive(Debug, Clone, Copy, PartialEq, Eq, Structural)]
pub enum InsertError {
    /// There was nothing to insert.
    EmptyRecordList,
}

pub open spec fn records_view(records: Seq<Record>) -> Seq<RecordView> {
    records.map_values(|r: Record| r@)
}

/// The records that store `cells[k]` under `keys[k]`, in order.
pub open spec fn spec_cell_records(
    keys: Seq<Seq<u8>>,
    cells: Seq<Cell>,
    now_ms: u64,
    ttl_secs: u64,
) -> Seq<RecordView> {
    Seq::new(cells.len(), |k: int| spec_record(keys[k], cells[k].content@, now_ms, ttl_secs))
}

/// The records that store `rows[k]` under `keys[k]`, in order.
pub open spec fn spec_row_records(
    keys: Seq<Seq<u8>>,
    rows: Seq<Seq<u8>>,
    now_ms: u64,
    ttl_secs: u64,
) -> Seq<RecordView> {
    Seq::new(rows.len(), |k: int| spec_record(keys[k], rows[k], now_ms, ttl_secs))
}

pub open spec fn keys_view(keys: Seq<Vec<u8>>) -> Seq<Seq<u8>> {
    keys.map_values(|k: Vec<u8>| k@)
}

/// The batch that inserts `records` for `block` with a quorum of one; an
/// empty list is refused.
pub fn put_batch(records: Vec<Record>, block: u32) -> (r: Result<PutBatch, InsertError>)
    ensures
        records@.len() == 0 <==> r is Err,
        r matches Ok(b) ==> b.records@ == records@ && b.quorum == Quorum::One && b.block == block,
        r matches Err(e) ==> e == InsertError::EmptyRecordList,
{
    if records.len() == 0 {
        return Err(InsertError::EmptyRecordList);
    }
    Ok(PutBatch { records, quorum: Quorum::One, block })
}

/// The batch that inserts the cells of `block` into the DHT, `cells[k]`
/// under the key `keys[k]`, each to live `ttl_secs` seconds from `now_ms`.
pub fn cells_put_batch(
    block: u32,
    keys: &Vec<Vec<u8>>,
    cells: &Vec<Cell>,
    now_ms: u64,
    ttl_secs: u64,
) -> (r: Result<PutBatch, InsertError>)
    requires
        keys@.len() == cells@.len(),
    ensures
        cells@.len() == 0 <==> r is Err,
        r matches Ok(b) ==> records_view(b.records@) == spec_cell_records(
            keys_view(keys@),
            cells@,
            now_ms,
            ttl_secs,
        ) && b.quorum == Quorum::One && b.block == block,
        r matches Err(e) ==> e == InsertError::EmptyRecordList,
{
    let ghost ks = keys_view(keys@);
    let n = cells.len();
    let mut records: Vec<Record> = Vec::new();
    let mut k: usize = 0;
    while k < n
        invariant
            n == cells@.len(),
            n == keys@.len(),
            ks == keys_view(keys@),
            k <= n,
            records_view(records@) == spec_cell_records(ks, cells@, now_ms, ttl_secs).subrange(
                0,
                k as int,
            ),
        decreases n - k,
    {
        let record = cell_record(keys[k].as_slice(), &cells[k], now_ms, ttl_secs);
        let ghost before = records@;
        records.push(record);
        assert(records_view(records@) =~= spec_cell_records(ks, cells@, now_ms, ttl_secs).subrange(
            0,
            k + 1,
        )) by {
            assert(records_view(records@) =~= records_view(before).push(record@));
        }
        k += 1;
    }
    assert(spec_cell_records(ks, cells@, now_ms, ttl_secs).subrange(0, n as int) =~= spec_cell_records(
        ks,
        cells@,
        now_ms,
        ttl_secs,
    ));
    put_batch(records, block)
}

/// The batch that inserts the rows of `block` into the DHT, `rows[k]` under
/// the key `keys[k]`, each to live `ttl_secs` seconds from `now_ms`.
pub fn rows_put_batch(
    block: u32,
    keys: &Vec<Vec<u8>>,
    rows: &Vec<Vec<u8>>,
    now_ms: u64,
    ttl_secs: u64,
) -> (r: Result<PutBatch, InsertError>)
    requires
        keys@.len() == rows@.len(),
    ensures
        rows@.len() == 0 <==> r is Err,
        r matches Ok(b) ==> records_view(b.records@) == spec_row_records(
            keys_view(keys@),
            keys_view(rows@),
            now_ms,
            ttl_secs,
        ) && b.quorum == Quorum::One && b.block == block,
        r matches Err(e) ==> e == InsertError::EmptyRecordList,
{
    let ghost ks = keys_view(keys@);
    let ghost rs = keys_view(rows@);
    let n = rows.len();
    let mut records: Vec<Record> = Vec::new();
    let mut k: usize = 0;
    while k < n
        invariant
            n == rows@.len(),
            n == keys@.len(),
            ks == keys_view(keys@),
            rs == keys_view(rows@),
            k <= n,
            records_view(records@) == spec_row_records(ks, rs, now_ms, ttl_secs).subrange(
                0,
                k as int,
            ),
        decreases n - k,
    {
        let record = row_record(keys[k].as_slice(), rows[k].as_slice(), now_ms, ttl_secs);
        let ghost before = records@;
        records.push(record);
        assert(records_view(records@) =~= spec_row_records(ks, rs, now_ms, ttl_secs).subrange(
            0,
            k + 1,
        )) by {
            assert(records_view(records@) =~= records_view(before).push(record@));
        }
        k += 1;
    }
    assert(spec_row_records(ks, rs, now_ms, ttl_secs).subrange(0, n as int) =~= spec_row_records(
        ks,
        rs,
        now_ms,
        ttl_secs,
    ));
    put_batch(records, block)
}

/// A cell stored in the DHT comes back unchanged: once the record built for
/// it is in the store, a fetch of its position before the record expires,
/// even after a prune pass, yields exactly that cell and leaves nothing
/// unfetched.
pub proof fn lemma_cell_round_trip(
    s: Seq<RecordView>,
    key: Seq<u8>,
    cell: Cell,
    stored_at: u64,
    ttl_secs: u64,
    now: u64,
)
    requires
        keys_unique(s),
        lookup(s, key) == Some(spec_record(key, cell.content@, stored_at, ttl_secs)),
        now < stored_at + ttl_secs * MILLIS_PER_SECOND,
    ensures
        lookup(retain_live(s, now), key) == Some(spec_record(key, cell.content@, stored_at, ttl_secs)),
        fetched_cells(seq![cell.position], seq![Some(cell.content@)], 1) == seq![cell@],
        unfetched_positions(seq![cell.position], seq![Some(cell.content@)], 1).len() == 0,
{
    crate::store::lemma_retain_live(s, now, key);
    assert(cell.content@.len() == CELL_SIZE);
    assert(decode_cell(cell.position, cell.content@) == Some(cell@));
    assert(fetched_cells(seq![cell.position], seq![Some(cell.content@)], 0) =~= Seq::<(Position, Seq<u8>)>::empty());
    assert(seq![cell@] =~= Seq::<(Position, Seq<u8>)>::empty().push(cell@));
    assert(unfetched_positions(seq![cell.position], seq![Some(cell.content@)], 0) =~= Seq::<
        Position,
    >::empty());
    assert(seq![Some(cell.content@)][0] == Some(cell.content@));
    assert(seq![cell.position][0] == cell.position);
}

} // verus!
