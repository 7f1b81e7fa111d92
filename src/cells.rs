//! Cells and rows as the DHT holds them, and the assembly of bulk fetches.
use vstd::prelude::*;

verus! {

broadcast use vstd::seq_lib::group_to_multiset_ensures;

/// Bytes of a cell's commitment.
pub const COMMITMENT_SIZE: usize = 48;

/// Bytes of a cell's data chunk.
pub const CHUNK_SIZE: usize = 32;

/// Bytes of a cell's content: its commitment followed by its chunk.
pub const CELL_SIZE: usize = COMMITMENT_SIZE + CHUNK_SIZE;

/// The location of a cell in a block's data matrix.
#[derive(Debug, Clone, Copy, PartialEq, Eq, Structural)]
pub struct Position {
    pub row: u32,
    pub col: u16,
}

/// A cell of a block's data matrix with its content.
#[derive(Debug, Clone, Copy, PartialEq, Eq)]
pub struct Cell {
    pub position: Position,
    pub content: [u8; CELL_SIZE],
}

impl View for Cell {
    type V = (Position, Seq<u8>);

    open spec fn view(&self) -> (Position, Seq<u8>) {
        (self.position, self.content@)
    }
}

/// The cell at `position` that a DHT value encodes: the value must hold
/// exactly the bytes of a cell.
pub open spec fn decode_cell(position: Position, value: Seq<u8>) -> Option<(Position, Seq<u8>)> {
    if value.len() == CELL_SIZE {
        Some((position, value))
    } else {
        None
    }
}

/// Reads the cell at `position` from a DHT value; `None` where the value is
/// not exactly the size of a cell.
pub fn cell_from_value(position: Position, value: &[u8]) -> (r: Option<Cell>)
    ensures
        match r {
            Some(c) => decode_cell(position, value@) == Some(c@),
            None => decode_cell(position, value@) is None,
        },
{
    if value.len() != CELL_SIZE {
        return None;
    }
    let mut content = [0u8; CELL_SIZE];
    let mut i: usize = 0;
    while i < CELL_SIZE
        invariant
            value@.len() == CELL_SIZE,
            i <= CELL_SIZE,
            forall|k: int| 0 <= k < i ==> content@[k] == value@[k],
        decreases CELL_SIZE - i,
    {
        content[i] = value[i];
        i += 1;
    }
    assert(content@ =~= value@);
    Some(Cell { position, content })
}

/// The bytes of each fetched value; `None` for a lookup that failed.
pub open spec fn values_view(values: Seq<Option<Vec<u8>>>) -> Seq<Option<Seq<u8>>> {
    values.map_values(
        |o: Option<Vec<u8>>|
            match o {
                Some(v) => Some(v@),
                None => None,
            },
    )
}

/// The cells read from the first `n` lookups: lookup `k` was for
/// `positions[k]` and found `values[k]`.
pub open spec fn fetched_cells(
    positions: Seq<Position>,
    values: Seq<Option<Seq<u8>>>,
    n: int,
) -> Seq<(Position, Seq<u8>)>
    decreases n,
{
    if n <= 0 {
        Seq::empty()
    } else {
        let prev = fetched_cells(positions, values, n - 1);
        match values[n - 1] {
            Some(v) => match decode_cell(positions[n - 1], v) {
                Some(c) => prev.push(c),
                None => prev,
            },
            None => prev,
        }
    }
}

/// The positions among the first `n` whose lookup found no cell.
pub open spec fn unfetched_positions(
    positions: Seq<Position>,
    values: Seq<Option<Seq<u8>>>,
    n: int,
) -> Seq<Position>
    decreases n,
{
    if n <= 0 {
        Seq::empty()
    } else {
        let prev = unfetched_positions(positions, values, n - 1);
        match values[n - 1] {
            Some(v) => match decode_cell(positions[n - 1], v) {
                Some(c) => prev,
                None => prev.push(positions[n - 1]),
            },
            None => prev.push(positions[n - 1]),
        }
    }
}

/// Splits the outcome of a bulk cell fetch into the cells found, in order,
/// and the positions left unfetched, in order. `values[k]` is what the
/// lookup for `positions[k]` returned; a missing or malformed value leaves
/// the position unfetched.
pub fn cells_from_records(positions: &Vec<Position>, values: &Vec<Option<Vec<u8>>>) -> (r: (
    Vec<Cell>,
    Vec<Position>,
))
    requires
        positions@.len() == values@.len(),
    ensures
        r.0@.map_values(|c: Cell| c@) == fetched_cells(
            positions@,
            values_view(values@),
            positions@.len() as int,
        ),
        r.1@ == unfetched_positions(positions@, values_view(values@), positions@.len() as int),
{
    let ghost vs = values_view(values@);
    let n = positions.len();
    let mut fetched: Vec<Cell> = Vec::new();
    let mut unfetched: Vec<Position> = Vec::new();
    let mut i: usize = 0;
    while i < n
        invariant
            n == positions@.len(),
            n == values@.len(),
            vs == values_view(values@),
            i <= n,
            fetched@.map_values(|c: Cell| c@) == fetched_cells(positions@, vs, i as int),
            unfetched@ == unfetched_positions(positions@, vs, i as int),
        decreases n - i,
    {
        let position = positions[i];
        let ghost before = fetched@;
        match &values[i] {
            Some(v) => {
                assert(vs[i as int] == Some(v@));
                match cell_from_value(position, v.as_slice()) {
                    Some(cell) => {
                        fetched.push(cell);
                        assert(fetched@.map_values(|c: Cell| c@) =~= before.map_values(
                            |c: Cell| c@,
                        ).push(cell@));
                    },
                    None => {
                        unfetched.push(position);
                    },
                }
            },
            None => {
                assert(vs[i as int] is None);
                unfetched.push(position);
            },
        }
        i += 1;
    }
    (fetched, unfetched)
}

/// A bulk cell fetch accounts for every requested position exactly once:
/// the cells found and the positions left unfetched are as many as the
/// positions asked for, and their positions together are the requested
/// positions as a multiset.
pub proof fn lemma_fetch_accounts_every_position(
    positions: Seq<Position>,
    values: Seq<Option<Seq<u8>>>,
    n: int,
)
    requires
        0 <= n <= positions.len(),
        positions.len() == values.len(),
    ensures
        fetched_cells(positions, values, n).len() + unfetched_positions(positions, values, n).len()
            == n,
        fetched_cells(positions, values, n).map_values(|c: (Position, Seq<u8>)| c.0).to_multiset().add(
            unfetched_positions(positions, values, n).to_multiset(),
        ) == positions.subrange(0, n).to_multiset(),
    decreases n,
{
    let f = |c: (Position, Seq<u8>)| c.0;
    if n == 0 {
        assert(fetched_cells(positions, values, n).map_values(f) =~= Seq::<Position>::empty());
        assert(positions.subrange(0, n) =~= Seq::<Position>::empty());
        assert(Seq::<Position>::empty().to_multiset().add(Seq::<Position>::empty().to_multiset())
            =~= Seq::<Position>::empty().to_multiset());
    } else {
        lemma_fetch_accounts_every_position(positions, values, n - 1);
        let pf = fetched_cells(positions, values, n - 1);
        let pu = unfetched_positions(positions, values, n - 1);
        let p = positions[n - 1];
        assert(positions.subrange(0, n) =~= positions.subrange(0, n - 1).push(p));
        let found = match values[n - 1] {
            Some(v) => decode_cell(p, v) is Some,
            None => false,
        };
        if found {
            let c = decode_cell(p, values[n - 1]->Some_0)->Some_0;
            assert(fetched_cells(positions, values, n) == pf.push(c));
            assert(pf.push(c).map_values(f) =~= pf.map_values(f).push(p));
            assert(pf.map_values(f).push(p).to_multiset() =~= pf.map_values(f).to_multiset().insert(
                p,
            ));
            assert(pf.map_values(f).to_multiset().insert(p).add(pu.to_multiset()) =~= pf.map_values(
                f,
            ).to_multiset().add(pu.to_multiset()).insert(p));
        } else {
            assert(unfetched_positions(positions, values, n) == pu.push(p));
            assert(fetched_cells(positions, values, n) == pf);
            assert(pf.map_values(f).to_multiset().add(pu.push(p).to_multiset()) =~= pf.map_values(
                f,
            ).to_multiset().add(pu.to_multiset()).insert(p));
        }
    }
}

/// A copy of the bytes.
pub fn copy_bytes(v: &[u8]) -> (r: Vec<u8>)
    ensures
        r@ == v@,
{
    let mut r: Vec<u8> = Vec::new();
    let mut i: usize = 0;
    while i < v.len()
        invariant
            i <= v@.len(),
            r@ == v@.subrange(0, i as int),
        decreases v@.len() - i,
    {
        r.push(v[i]);
        assert(r@ =~= v@.subrange(0, i + 1));
        i += 1;
    }
    assert(v@.subrange(0, v@.len() as int) =~= v@);
    r
}

/// The row that the first `n` lookups found for row index `row`: the value
/// of the last lookup for that index that found one.
pub open spec fn fetched_row(
    row_indexes: Seq<u32>,
    values: Seq<Option<Seq<u8>>>,
    n: int,
    row: int,
) -> Option<Seq<u8>>
    decreases n,
{
    if n <= 0 {
        None
    } else if row_indexes[n - 1] == row && values[n - 1] is Some {
        values[n - 1]
    } else {
        fetched_row(row_indexes, values, n - 1, row)
    }
}

/// Lays the rows of a bulk row fetch out by index: the result has one slot
/// for each of the block's `extended_rows` rows, holding the row fetched for
/// that index, if any. `values[k]` is what the lookup for `row_indexes[k]`
/// returned.
pub fn rows_from_records(
    extended_rows: usize,
    row_indexes: &Vec<u32>,
    values: &Vec<Option<Vec<u8>>>,
) -> (r: Vec<Option<Vec<u8>>>)
    requires
        row_indexes@.len() == values@.len(),
        forall|k: int|
            0 <= k < values@.len() && #[trigger] values@[k] is Some ==> row_indexes@[k]
                < extended_rows,
    ensures
        r@.len() == extended_rows,
        forall|j: int|
            0 <= j < extended_rows ==> #[trigger] values_view(r@)[j] == fetched_row(
                row_indexes@,
                values_view(values@),
                values@.len() as int,
                j,
            ),
{
    let ghost vs = values_view(values@);
    let mut rows: Vec<Option<Vec<u8>>> = Vec::new();
    let mut j: usize = 0;
    while j < extended_rows
        invariant
            j <= extended_rows,
            rows@.len() == j,
            forall|q: int| 0 <= q < j ==> #[trigger] rows@[q] is None,
        decreases extended_rows - j,
    {
        rows.push(None);
        j += 1;
    }
    let n = values.len();
    let mut k: usize = 0;
    while k < n
        invariant
            n == values@.len(),
            n == row_indexes@.len(),
            vs == values_view(values@),
            forall|q: int|
                0 <= q < values@.len() && #[trigger] values@[q] is Some ==> row_indexes@[q]
                    < extended_rows,
            k <= n,
            rows@.len() == extended_rows,
            forall|q: int|
                0 <= q < extended_rows ==> #[trigger] values_view(rows@)[q] == fetched_row(
                    row_indexes@,
                    vs,
                    k as int,
                    q,
                ),
        decreases n - k,
    {
        match &values[k] {
            Some(v) => {
                let index = row_indexes[k] as usize;
                assert(values@[k as int] is Some);
                let copy = copy_bytes(v.as_slice());
                let ghost before = rows@;
                rows.set(index, Some(copy));
                assert(vs[k as int] == Some(v@));
                assert forall|q: int| 0 <= q < extended_rows implies #[trigger] values_view(
                    rows@,
                )[q] == fetched_row(row_indexes@, vs, k + 1, q) by {
                    assert(values_view(before)[q] == fetched_row(row_indexes@, vs, k as int, q));
                    if q == index as int {
                        assert(rows@[q] == Some(copy));
                    } else {
                        assert(rows@[q] == before[q]);
                    }
                }
            },
            None => {
                assert(vs[k as int] is None);
            },
        }
        k += 1;
    }
    rows
}

/// Splits `len` items into consecutive chunks of `limit` items, the last
/// one possibly shorter: each chunk is a half-open range of indices. Bulk
/// lookups run one chunk at a time, so that at most `limit` of them are
/// pending together.
pub fn chunk_bounds(len: usize, limit: usize) -> (r: Vec<(usize, usize)>)
    requires
        limit > 0,
    ensures
        r@.len() == 0 <==> len == 0,
        r@.len() > 0 ==> r@[0].0 == 0 && r@.last().1 == len,
        forall|i: int|
            0 <= i < r@.len() ==> #[trigger] r@[i].0 < r@[i].1 && r@[i].1 <= r@[i].0 + limit,
        forall|i: int|
            0 <= i < r@.len() - 1 ==> #[trigger] r@[i].1 == r@[i + 1].0 && r@[i].1 - r@[i].0
                == limit,
{
    let mut r: Vec<(usize, usize)> = Vec::new();
    let mut start: usize = 0;
    while start < len
        invariant
            limit > 0,
            start <= len,
            r@.len() == 0 <==> start == 0,
            r@.len() > 0 ==> r@[0].0 == 0 && r@.last().1 == start,
            forall|i: int|
                0 <= i < r@.len() ==> #[trigger] r@[i].0 < r@[i].1 && r@[i].1 <= r@[i].0 + limit,
            forall|i: int|
                0 <= i < r@.len() - 1 ==> #[trigger] r@[i].1 == r@[i + 1].0 && r@[i].1 - r@[i].0
                    == limit,
            r@.len() > 0 && start < len ==> r@.last().1 - r@.last().0 == limit,
        decreases len - start,
    {
        let end = if len - start > limit {
            start + limit
        } else {
            len
        };
        r.push((start, end));
        start = end;
    }
    r
}

} // verus!
