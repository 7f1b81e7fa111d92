//! Per-block accounting of DHT PUT operations.
use std::collections::HashMap;
use vstd::prelude::*;

verus! {

broadcast use vstd::std_specs::hash::group_hash_axioms;

/// Counters of the PUT operations issued for one block.
#[derive(Debug, Clone, Copy, PartialEq, Eq, Structural)]
pub struct BlockStat {
    pub total_count: usize,
    pub remaining_counter: usize,
    pub success_counter: usize,
    pub error_counter: usize,
    pub time_stat: u64,
}

impl BlockStat {
    /// Every PUT is either still pending, or has succeeded or failed.
    pub open spec fn wf(self) -> bool {
        self.success_counter + self.error_counter + self.remaining_counter == self.total_count
    }

    /// Counts `cell_number` more PUTs for the block.
    pub fn increase_block_stat_counters(&mut self, cell_number: usize)
        requires
            old(self).total_count + cell_number <= usize::MAX,
            old(self).remaining_counter + cell_number <= usize::MAX,
        ensures
            final(self).total_count == old(self).total_count + cell_number,
            final(self).remaining_counter == old(self).remaining_counter + cell_number,
            final(self).success_counter == old(self).success_counter,
            final(self).error_counter == old(self).error_counter,
            final(self).time_stat == old(self).time_stat,
            old(self).wf() ==> final(self).wf(),
    {
        self.total_count += cell_number;
        self.remaining_counter += cell_number;
    }
}

/// The counters of a block after one of its PUTs reported, `elapsed` after
/// the first PUT for the block.
pub open spec fn after_result(s: BlockStat, success: bool, elapsed: u64) -> BlockStat {
    BlockStat {
        total_count: s.total_count,
        remaining_counter: (s.remaining_counter - 1) as usize,
        success_counter: if success {
            (s.success_counter + 1) as usize
        } else {
            s.success_counter
        },
        error_counter: if success {
            s.error_counter
        } else {
            (s.error_counter + 1) as usize
        },
        time_stat: elapsed,
    }
}

/// The table after `count` more PUTs were issued for `block`.
pub open spec fn after_register(m: Map<u32, BlockStat>, block: u32, count: usize) -> Map<
    u32,
    BlockStat,
> {
    if count == 0 {
        m
    } else if m.contains_key(block) {
        let s = m[block];
        m.insert(
            block,
            BlockStat {
                total_count: (s.total_count + count) as usize,
                remaining_counter: (s.remaining_counter + count) as usize,
                ..s
            },
        )
    } else {
        m.insert(
            block,
            BlockStat {
                total_count: count,
                remaining_counter: count,
                success_counter: 0,
                error_counter: 0,
                time_stat: 0,
            },
        )
    }
}

/// The table after one PUT for `block` reported.
pub open spec fn after_report(m: Map<u32, BlockStat>, block: u32, success: bool, elapsed: u64) -> Map<
    u32,
    BlockStat,
> {
    if !m.contains_key(block) {
        m
    } else {
        let s = after_result(m[block], success, elapsed);
        if s.remaining_counter == 0 {
            m.remove(block)
        } else {
            m.insert(block, s)
        }
    }
}

/// What a reported PUT did to the accounting of its block.
#[derive(Debug, Clone, Copy, PartialEq, Eq, Structural)]
pub enum PutProgress {
    /// No PUT is pending for the block: the report is ignored.
    UnknownBlock,
    /// More PUTs of the block are pending; the block's counters now.
    Pending(BlockStat),
    /// This was the last pending PUT of the block, whose entry is removed;
    /// its final counters.
    Completed(BlockStat),
}

/// The blocks whose PUT operations are being monitored.
pub struct ActiveBlocks {
    pub blocks: HashMap<u32, BlockStat>,
}

impl View for ActiveBlocks {
    type V = Map<u32, BlockStat>;

    open spec fn view(&self) -> Map<u32, BlockStat> {
        self.blocks@
    }
}

/// Each monitored block has PUTs pending, and its counters add up.
pub open spec fn table_wf(m: Map<u32, BlockStat>) -> bool {
    forall|b: u32| #[trigger]
        m.contains_key(b) ==> m[b].wf() && m[b].remaining_counter > 0
}

impl ActiveBlocks {
    pub open spec fn wf(&self) -> bool {
        table_wf(self@)
    }

    /// An empty table.
    pub fn new() -> (r: ActiveBlocks)
        ensures
            r@ == Map::<u32, BlockStat>::empty(),
            r.wf(),
    {
        ActiveBlocks { blocks: HashMap::new() }
    }

    /// The counters of `block`, if it is monitored.
    pub fn get(&self, block: u32) -> (r: Option<BlockStat>)
        ensures
            r == (if self@.contains_key(block) {
                Some(self@[block])
            } else {
                None
            }),
    {
        match self.blocks.get(&block) {
            Some(s) => Some(*s),
            None => None,
        }
    }

    /// Starts monitoring `count` more PUTs of `block`: the counters of a
    /// monitored block grow, a new block starts at zero successes and errors.
    pub fn register_puts(&mut self, block: u32, count: usize)
        requires
            old(self).wf(),
            old(self)@.contains_key(block) ==> old(self)@[block].total_count + count
                <= usize::MAX,
        ensures
            final(self).wf(),
            final(self)@ == after_register(old(self)@, block, count),
    {
        if count == 0 {
            return ;
        }
        match self.blocks.remove(&block) {
            Some(s) => {
                let mut s = s;
                s.increase_block_stat_counters(count);
                self.blocks.insert(block, s);
            },
            None => {
                self.blocks.insert(
                    block,
                    BlockStat {
                        total_count: count,
                        remaining_counter: count,
                        success_counter: 0,
                        error_counter: 0,
                        time_stat: 0,
                    },
                );
            },
        }
        assert(self@ =~= after_register(old(self)@, block, count));
    }

    /// Accounts one reported PUT of `block`, `elapsed` after the block's
    /// first PUT. The block's entry is removed with its last pending PUT.
    pub fn record_put_result(&mut self, block: u32, success: bool, elapsed: u64) -> (r:
        PutProgress)
        requires
            old(self).wf(),
        ensures
            final(self).wf(),
            final(self)@ == after_report(old(self)@, block, success, elapsed),
            r == (if !old(self)@.contains_key(block) {
                PutProgress::UnknownBlock
            } else {
                let s = after_result(old(self)@[block], success, elapsed);
                if s.remaining_counter == 0 {
                    PutProgress::Completed(s)
                } else {
                    PutProgress::Pending(s)
                }
            }),
    {
        match self.blocks.remove(&block) {
            None => PutProgress::UnknownBlock,
            Some(s) => {
                let mut s = s;
                s.remaining_counter = s.remaining_counter - 1;
                if success {
                    s.success_counter = s.success_counter + 1;
                } else {
                    s.error_counter = s.error_counter + 1;
                }
                s.time_stat = elapsed;
                if s.remaining_counter == 0 {
                    assert(self@ =~= after_report(old(self)@, block, success, elapsed));
                    PutProgress::Completed(s)
                } else {
                    self.blocks.insert(block, s);
                    assert(self@ =~= after_report(old(self)@, block, success, elapsed));
                    PutProgress::Pending(s)
                }
            },
        }
    }
}

/// The number of successes among `oks`.
pub open spec fn count_successes(oks: Seq<bool>) -> nat
    decreases oks.len(),
{
    if oks.len() == 0 {
        0
    } else {
        count_successes(oks.drop_last()) + if oks.last() {
            1nat
        } else {
            0nat
        }
    }
}

/// The table after the PUTs of `block` reported with outcomes `oks`, the
/// `k`-th at time `times[k]`.
pub open spec fn after_reports(
    m: Map<u32, BlockStat>,
    block: u32,
    oks: Seq<bool>,
    times: Seq<u64>,
) -> Map<u32, BlockStat>
    decreases oks.len(),
{
    if oks.len() == 0 || times.len() != oks.len() {
        m
    } else {
        after_report(
            after_reports(m, block, oks.drop_last(), times.drop_last()),
            block,
            oks.last(),
            times.last(),
        )
    }
}

/// The counters of one block after a run of reports, entry removal aside.
pub open spec fn after_results(s: BlockStat, oks: Seq<bool>, times: Seq<u64>) -> BlockStat
    decreases oks.len(),
{
    if oks.len() == 0 || times.len() != oks.len() {
        s
    } else {
        after_result(after_results(s, oks.drop_last(), times.drop_last()), oks.last(), times.last())
    }
}

proof fn lemma_reports_prefix(
    m: Map<u32, BlockStat>,
    block: u32,
    oks: Seq<bool>,
    times: Seq<u64>,
)
    requires
        table_wf(m),
        m.contains_key(block),
        oks.len() == times.len(),
        oks.len() < m[block].remaining_counter,
    ensures
        after_reports(m, block, oks, times) == m.insert(block, after_results(m[block], oks, times)),
        after_results(m[block], oks, times).wf(),
        after_results(m[block], oks, times).total_count == m[block].total_count,
        after_results(m[block], oks, times).remaining_counter == m[block].remaining_counter
            - oks.len(),
        after_results(m[block], oks, times).success_counter == m[block].success_counter
            + count_successes(oks),
        after_results(m[block], oks, times).error_counter == m[block].error_counter + oks.len()
            - count_successes(oks),
    decreases oks.len(),
{
    if oks.len() == 0 {
        assert(m.insert(block, m[block]) =~= m);
    } else {
        lemma_reports_prefix(m, block, oks.drop_last(), times.drop_last());
        let prev = after_reports(m, block, oks.drop_last(), times.drop_last());
        assert(prev.insert(block, after_results(m[block], oks, times)) =~= m.insert(
            block,
            after_results(m[block], oks, times),
        ));
    }
}

/// Once every PUT pending for a block has reported, whatever the outcomes,
/// the block has left the table, and its final counters hold no pending PUT
/// and as many successes and errors together as PUTs in all.
pub proof fn lemma_all_puts_reported(
    m: Map<u32, BlockStat>,
    block: u32,
    oks: Seq<bool>,
    times: Seq<u64>,
)
    requires
        table_wf(m),
        m.contains_key(block),
        oks.len() == times.len(),
        oks.len() == m[block].remaining_counter,
    ensures
        after_reports(m, block, oks, times) == m.remove(block),
        table_wf(after_reports(m, block, oks, times)),
        ({
            let f = after_results(m[block], oks, times);
            &&& f.remaining_counter == 0
            &&& f.success_counter + f.error_counter == f.total_count
            &&& f.total_count == m[block].total_count
            &&& f.success_counter == m[block].success_counter + count_successes(oks)
        }),
{
    let n = oks.len();
    let pre_oks = oks.drop_last();
    let pre_times = times.drop_last();
    lemma_reports_prefix(m, block, pre_oks, pre_times);
    let prev = after_reports(m, block, pre_oks, pre_times);
    assert(prev.remove(block) =~= m.remove(block));
}

} // verus!
