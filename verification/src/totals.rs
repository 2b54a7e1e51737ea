//! Sums that stop at the largest number a count can hold.

use crate::db::{Block, BlockRunView, BlockView};
use vstd::prelude::*;

verus! {

/// A sum, or the largest count where the sum is larger.
pub open spec fn saturated(n: nat) -> u64 {
    if n > u64::MAX {
        u64::MAX
    } else {
        n as u64
    }
}

/// The number of transactions in blocks.
pub open spec fn block_txs(blocks: Seq<BlockView>) -> nat
    decreases blocks.len(),
{
    if blocks.len() == 0 {
        0
    } else {
        block_txs(blocks.drop_last()) + blocks.last().num_txs as nat
    }
}

/// The number of transactions in runs.
pub open spec fn run_txs(runs: Seq<BlockRunView>) -> nat
    decreases runs.len(),
{
    if runs.len() == 0 {
        0
    } else {
        run_txs(runs.drop_last()) + runs.last().num_txs as nat
    }
}

/// The number of blocks in runs.
pub open spec fn run_blocks(runs: Seq<BlockRunView>) -> nat
    decreases runs.len(),
{
    if runs.len() == 0 {
        0
    } else {
        run_blocks(runs.drop_last()) + runs.last().num_blocks as nat
    }
}

/// The number of transactions in blocks, saturated.
pub fn sum_block_txs(blocks: &Vec<Block>) -> (sum: u64)
    ensures
        sum == saturated(block_txs(crate::db::block_views(blocks@))),
{
    let mut sum: u64 = 0;
    let mut i: usize = 0;
    let ghost views = crate::db::block_views(blocks@);
    while i < blocks.len()
        invariant
            i <= blocks.len(),
            views == crate::db::block_views(blocks@),
            sum == saturated(block_txs(views.take(i as int))),
        decreases blocks.len() - i,
    {
        sum = sum.saturating_add(blocks[i].num_txs);
        i += 1;
        assert(views.take(i as int).drop_last() =~= views.take(i - 1));
    }
    assert(views.take(i as int) =~= views);
    sum
}

/// The transactions of two stretches of blocks add up.
pub proof fn lemma_block_txs_concat(a: Seq<BlockView>, b: Seq<BlockView>)
    ensures
        block_txs(a + b) == block_txs(a) + block_txs(b),
    decreases b.len(),
{
    if b.len() == 0 {
        assert(a + b =~= a);
    } else {
        assert((a + b).drop_last() =~= a + b.drop_last());
        lemma_block_txs_concat(a, b.drop_last());
    }
}

/// The counts of two stretches of runs add up.
pub proof fn lemma_run_counts_concat(a: Seq<BlockRunView>, b: Seq<BlockRunView>)
    ensures
        run_txs(a + b) == run_txs(a) + run_txs(b),
        run_blocks(a + b) == run_blocks(a) + run_blocks(b),
    decreases b.len(),
{
    if b.len() == 0 {
        assert(a + b =~= a);
    } else {
        assert((a + b).drop_last() =~= a + b.drop_last());
        lemma_run_counts_concat(a, b.drop_last());
    }
}

/// A count that fits 64 bits is kept as it is, and a larger one is the largest that does.
pub proof fn law_counts_saturate(n: nat)
    ensures
        n <= 0xffff_ffff_ffff_ffff ==> saturated(n) == n,
        n > 0xffff_ffff_ffff_ffff ==> saturated(n) == 0xffff_ffff_ffff_ffff,
{
}

/// No blocks have no transactions; one block more adds its own; and it does not matter
/// in how many parts blocks are counted.
pub proof fn law_block_txs_add_up(a: Seq<BlockView>, b: Seq<BlockView>, block: BlockView)
    ensures
        block_txs(Seq::empty()) == 0,
        block_txs(a.push(block)) == block_txs(a) + block.num_txs,
        block_txs(a + b) == block_txs(a) + block_txs(b),
        block_txs(a) == a.fold_left(0nat, |sum: nat, x: BlockView| sum + x.num_txs as nat),
{
    assert(a.push(block).drop_last() =~= a);
    lemma_block_txs_concat(a, b);
    lemma_block_txs_fold(a);
}

proof fn lemma_block_txs_fold(a: Seq<BlockView>)
    ensures
        block_txs(a) == a.fold_left(0nat, |sum: nat, x: BlockView| sum + x.num_txs as nat),
    decreases a.len(),
{
    if a.len() > 0 {
        lemma_block_txs_fold(a.drop_last());
    }
}

/// No runs have no transactions and no blocks; one run more adds its own; and it does
/// not matter in how many parts runs are counted.
pub proof fn law_run_counts_add_up(a: Seq<BlockRunView>, b: Seq<BlockRunView>, run: BlockRunView)
    ensures
        run_txs(Seq::empty()) == 0,
        run_blocks(Seq::empty()) == 0,
        run_txs(a.push(run)) == run_txs(a) + run.num_txs,
        run_blocks(a.push(run)) == run_blocks(a) + run.num_blocks,
        run_txs(a + b) == run_txs(a) + run_txs(b),
        run_blocks(a + b) == run_blocks(a) + run_blocks(b),
{
    assert(a.push(run).drop_last() =~= a);
    lemma_run_counts_concat(a, b);
}

} // verus!
