use avail_light_p2p::stats::{ActiveBlocks, BlockStat, PutProgress};

#[test]
fn increase_block_stat_counters_adds_to_total_and_remaining() {
    let mut s = BlockStat {
        total_count: 3,
        remaining_counter: 1,
        success_counter: 1,
        error_counter: 1,
        time_stat: 5,
    };
    s.increase_block_stat_counters(4);
    assert_eq!(
        s,
        BlockStat {
            total_count: 7,
            remaining_counter: 5,
            success_counter: 1,
            error_counter: 1,
            time_stat: 5,
        }
    );
}

#[test]
fn put_accounting_for_three_cells() {
    let mut blocks = ActiveBlocks::new();
    blocks.register_puts(42, 3);
    assert_eq!(blocks.get(42).unwrap().total_count, 3);
    let first = blocks.record_put_result(42, true, 10);
    assert!(matches!(first, PutProgress::Pending(s) if s.remaining_counter == 2 && s.success_counter == 1));
    let second = blocks.record_put_result(42, true, 20);
    assert!(matches!(second, PutProgress::Pending(s) if s.remaining_counter == 1));
    let third = blocks.record_put_result(42, false, 30);
    assert_eq!(
        third,
        PutProgress::Completed(BlockStat {
            total_count: 3,
            remaining_counter: 0,
            success_counter: 2,
            error_counter: 1,
            time_stat: 30,
        })
    );
    assert!(blocks.get(42).is_none());
}

#[test]
fn further_puts_for_a_block_grow_its_counters() {
    let mut blocks = ActiveBlocks::new();
    blocks.register_puts(7, 2);
    blocks.record_put_result(7, false, 1);
    blocks.register_puts(7, 3);
    assert_eq!(
        blocks.get(7),
        Some(BlockStat {
            total_count: 5,
            remaining_counter: 4,
            success_counter: 0,
            error_counter: 1,
            time_stat: 1,
        })
    );
}

#[test]
fn report_for_unknown_block_is_ignored() {
    let mut blocks = ActiveBlocks::new();
    blocks.register_puts(1, 1);
    assert_eq!(blocks.record_put_result(2, true, 0), PutProgress::UnknownBlock);
    assert_eq!(blocks.get(1).unwrap().remaining_counter, 1);
}

#[test]
fn registering_no_puts_monitors_nothing() {
    let mut blocks = ActiveBlocks::new();
    blocks.register_puts(9, 0);
    assert!(blocks.get(9).is_none());
}

#[test]
fn all_reported_puts_add_up_to_total() {
    let outcomes = [true, false, false, true, true];
    let mut blocks = ActiveBlocks::new();
    blocks.register_puts(5, outcomes.len());
    let mut last = PutProgress::UnknownBlock;
    for (t, ok) in outcomes.iter().enumerate() {
        last = blocks.record_put_result(5, *ok, t as u64);
    }
    match last {
        PutProgress::Completed(s) => {
            assert_eq!(s.success_counter + s.error_counter, s.total_count);
            assert_eq!(s.remaining_counter, 0);
            assert_eq!(s.success_counter, 3);
        },
        other => panic!("unexpected {:?}", other),
    }
    assert!(blocks.get(5).is_none());
}
