use avail_light_p2p::cells::{
    cell_from_value, cells_from_records, chunk_bounds, rows_from_records, Position, CELL_SIZE,
};

fn pos(row: u32, col: u16) -> Position {
    Position { row, col }
}

#[test]
fn cell_of_eighty_bytes_is_read() {
    let value: Vec<u8> = (0..80).map(|b| b as u8).collect();
    let cell = cell_from_value(pos(1, 2), &value).unwrap();
    assert_eq!(cell.position, pos(1, 2));
    assert_eq!(cell.content.to_vec(), value);
    assert_eq!(CELL_SIZE, 80);
}

#[test]
fn malformed_cell_is_unfetched() {
    let positions = vec![pos(0, 0)];
    let values = vec![Some(vec![7u8; 79])];
    assert!(cell_from_value(pos(0, 0), &[7u8; 79]).is_none());
    let (fetched, unfetched) = cells_from_records(&positions, &values);
    assert!(fetched.is_empty());
    assert_eq!(unfetched, vec![pos(0, 0)]);
}

#[test]
fn oversized_value_is_not_a_cell() {
    assert!(cell_from_value(pos(0, 0), &[1u8; 81]).is_none());
}

#[test]
fn fetched_and_unfetched_cover_positions() {
    let positions = vec![pos(0, 0), pos(0, 1), pos(1, 0), pos(0, 1)];
    let values = vec![Some(vec![1u8; 80]), None, Some(vec![2u8; 3]), Some(vec![3u8; 80])];
    let (fetched, unfetched) = cells_from_records(&positions, &values);
    assert_eq!(fetched.len() + unfetched.len(), positions.len());
    assert_eq!(fetched.len(), 2);
    assert_eq!(fetched[0].position, pos(0, 0));
    assert_eq!(fetched[0].content, [1u8; 80]);
    assert_eq!(fetched[1].position, pos(0, 1));
    assert_eq!(fetched[1].content, [3u8; 80]);
    assert_eq!(unfetched, vec![pos(0, 1), pos(1, 0)]);
}

#[test]
fn empty_fetch_gives_nothing() {
    let (fetched, unfetched) = cells_from_records(&vec![], &vec![]);
    assert!(fetched.is_empty() && unfetched.is_empty());
}

#[test]
fn rows_are_laid_out_by_index() {
    let indexes = vec![3u32, 0, 1];
    let values = vec![Some(vec![3u8, 3]), Some(vec![0u8]), None];
    let rows = rows_from_records(4, &indexes, &values);
    assert_eq!(rows, vec![Some(vec![0u8]), None, None, Some(vec![3u8, 3])]);
}

#[test]
fn chunks_split_at_the_limit() {
    assert_eq!(chunk_bounds(7, 3), vec![(0, 3), (3, 6), (6, 7)]);
    assert_eq!(chunk_bounds(6, 3), vec![(0, 3), (3, 6)]);
    assert_eq!(chunk_bounds(2, 5), vec![(0, 2)]);
    assert!(chunk_bounds(0, 4).is_empty());
}
