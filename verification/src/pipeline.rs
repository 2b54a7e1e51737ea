//! What comes of a chain's blocks once their runs are built, merged, tallied and cached.

use crate::agreement::{
    cut, law_merging_regroups_blocks, law_runs_and_blocks_agree, law_tally_saves_what_it_looked_at,
    limit_at, merged_stretches, stream_of, tail_counts, tally_result, tally_saves, times_go_back,
    walk_result,
};
use crate::blockrun::summary;
use crate::blockrun_laws::{
    apart, cached_runs, cut_up, law_cached_runs_follow_the_built_ones, law_runs_partition_the_walk,
    linked, none_empty, runs_of_stretches, sent_from, survivors,
};
use crate::calculate::{RunTallyView, TallyPhase, TxWalkView};
use crate::db::{BlockRunView, BlockView};
use crate::error::Failure;
use crate::merge::{merged, runs_of};
use vstd::prelude::*;
use vstd::seq_lib::lemma_flatten_concat;

verus! {

/// The runs that are tallied where the given ones are sent: those merged.
pub open spec fn streamed<E>(sent: Seq<BlockRunView>) -> Seq<BlockRunView> {
    runs_of(merged(None, stream_of::<E>(sent)))
}

/// A tally and a walk start at the same block and go back equally far. The blocks, of
/// which that one is the first, go back in time, and the window's limit is reached
/// among them after the first. `tail` is what a walk counts from a block on.
pub open spec fn same_window(
    tally: RunTallyView,
    walk: TxWalkView,
    blocks: Seq<BlockView>,
    tail: spec_fn(u64, Seq<char>) -> (u64, u64),
    limit: int,
) -> bool {
    &&& tally.phase == TallyPhase::Counting
    &&& tally.runs.len() == 0
    &&& walk.walked.len() == 0
    &&& tally.min_timestamp == walk.min_timestamp
    &&& tally.highest_block_hash == walk.highest_block_hash
    &&& 0 < blocks.len() <= u64::MAX
    &&& blocks.first().hash == walk.highest_block_hash
    &&& times_go_back(blocks)
    &&& 0 < limit
    &&& limit_at(blocks, walk.min_timestamp, limit)
    &&& tail_counts(tail, blocks, walk.min_timestamp, limit)
}

/// A tally of the runs that are streamed comes to what the walk over the blocks does.
pub open spec fn agrees<E>(
    tally: RunTallyView,
    walk: TxWalkView,
    sent: Seq<BlockRunView>,
    blocks: Seq<BlockView>,
    tail: spec_fn(u64, Seq<char>) -> (u64, u64),
) -> bool {
    let found = tally_result::<E>(tally, streamed::<E>(sent), tail);
    &&& found is Some
    &&& walk_result::<E>(walk, blocks) == Ok::<(u64, u64), Failure<E>>(found->Some_0)
}

proof fn lemma_runs_of_stream<E>(runs: Seq<BlockRunView>)
    ensures
        runs_of(stream_of::<E>(runs)) == runs,
    decreases runs.len(),
{
    let items = stream_of::<E>(runs);
    if runs.len() > 0 {
        assert(items.first() == Ok::<BlockRunView, E>(runs.first()));
        assert(items.drop_first() =~= stream_of::<E>(runs.drop_first()));
        lemma_runs_of_stream::<E>(runs.drop_first());
    }
    assert(runs_of(items) =~= runs);
}

/// The runs of stretches of the blocks agree with them once they are merged.
proof fn lemma_stretches_agree<E>(
    tally: RunTallyView,
    walk: TxWalkView,
    stretches: Seq<Seq<BlockView>>,
    tail: spec_fn(u64, Seq<char>) -> (u64, u64),
    limit: int,
)
    requires
        none_empty(stretches),
        same_window(tally, walk, stretches.flatten(), tail, limit),
    ensures
        agrees::<E>(tally, walk, runs_of_stretches(stretches), stretches.flatten(), tail),
{
    let longer = merged_stretches(None, stretches);
    let runs = runs_of_stretches(longer);
    law_merging_regroups_blocks::<E>(stretches);
    lemma_runs_of_stream::<E>(runs);
    assert(longer.len() > 0);
    assert(longer[0].len() > 0);
    assert(longer.flatten() == longer.first() + longer.drop_first().flatten());
    assert(longer.flatten()[0] == longer.first()[0]);
    law_runs_and_blocks_agree::<E>(tally, walk, longer, seq![], tail, limit);
    assert(runs + Seq::<BlockRunView>::empty() =~= runs);
}

/// The runs that are built of a chain count the same as its blocks. Where a walk over
/// the blocks joins no cached runs, what a new sender sends, merged, is tallied to the
/// same transactions, from the same time on, as a walk over the blocks counts.
pub proof fn law_built_runs_agree_with_blocks<E>(
    tally: RunTallyView,
    walk: TxWalkView,
    start: u64,
    cached: Option<Seq<BlockRunView>>,
    blocks: Seq<BlockView>,
    tail: spec_fn(u64, Seq<char>) -> (u64, u64),
    limit: int,
)
    requires
        linked(blocks),
        apart(blocks, cached_runs(cached)),
        same_window(tally, walk, blocks, tail, limit),
    ensures
        agrees::<E>(tally, walk, sent_from::<E>(start, cached, blocks), blocks, tail),
{
    law_runs_partition_the_walk::<E>(start, cached, blocks);
    lemma_stretches_agree::<E>(
        tally,
        walk,
        cut_up(seq![], blocks, blocks.first().timestamp),
        tail,
        limit,
    );
}

/// Cached runs stand for the blocks that they were built of. Where a walk over the
/// blocks above them joins the cached runs that are left, and those are the runs of
/// stretches of the blocks from there on, what a new sender sends, merged, is tallied to
/// the same transactions, from the same time on, as a walk over all these blocks counts.
pub proof fn law_joined_runs_agree_with_blocks<E>(
    tally: RunTallyView,
    walk: TxWalkView,
    start: u64,
    cached: Option<Seq<BlockRunView>>,
    above: Seq<BlockView>,
    old: Seq<Seq<BlockView>>,
    tail: spec_fn(u64, Seq<char>) -> (u64, u64),
    limit: int,
)
    requires
        old.len() > 0,
        none_empty(old),
        linked(above.push(old.first().first())),
        apart(above, cached_runs(cached)),
        survivors(above, cached_runs(cached)) == runs_of_stretches(old),
        same_window(tally, walk, above + old.flatten(), tail, limit),
    ensures
        agrees::<E>(
            tally,
            walk,
            sent_from::<E>(start, cached, above.push(old.first().first())),
            above + old.flatten(),
            tail,
        ),
{
    let joint = old.first().first();
    let new = cut_up(seq![], above, above.push(joint).first().timestamp);
    assert(runs_of_stretches(old).first() == summary(old.first()));
    law_cached_runs_follow_the_built_ones::<E>(start, cached, above, joint);
    assert(runs_of_stretches(new) + runs_of_stretches(old) =~= runs_of_stretches(new + old));
    lemma_flatten_concat(new, old);
    lemma_stretches_agree::<E>(tally, walk, new + old, tail, limit);
}

/// The stretches whose runs a tally of the given window looks at.
pub open spec fn looked_at(stretches: Seq<Seq<BlockView>>, min_timestamp: u64) -> Seq<
    Seq<BlockView>,
> {
    let end = cut(runs_of_stretches(stretches), min_timestamp, 0);
    if end < stretches.len() {
        stretches.take(end + 1)
    } else {
        stretches
    }
}

/// What is cut off lies within the runs.
proof fn lemma_cut(runs: Seq<BlockRunView>, min_timestamp: u64, from: int)
    requires
        0 <= from <= runs.len(),
    ensures
        ({
            let end = cut(runs, min_timestamp, from);
            &&& from <= end <= runs.len()
            &&& end < runs.len() ==> runs[end].newest_block_timestamp <= min_timestamp
                || runs[end].oldest_block_timestamp <= min_timestamp
        }),
    decreases runs.len() - from,
{
    if from < runs.len() {
        lemma_cut(runs, min_timestamp, from + 1);
    }
}

/// Blocks above the newest one of the cached runs neither join nor replace them.
proof fn lemma_above(above: Seq<BlockView>, runs: Seq<BlockRunView>)
    requires
        runs.len() > 0,
        forall|i: int|
            0 <= i < above.len() ==> (#[trigger] above[i]).block_number
                > runs.first().newest_block_number,
    ensures
        apart(above, runs),
        survivors(above, runs) == runs,
    decreases above.len(),
{
    if above.len() > 0 {
        assert(above[0].block_number > runs.first().newest_block_number);
        assert forall|i: int| 0 <= i < above.drop_first().len() implies (
        #[trigger] above.drop_first()[i]).block_number > runs.first().newest_block_number by {
            assert(above.drop_first()[i] == above[i + 1]);
        }
        lemma_above(above.drop_first(), runs);
    }
}

/// What one calculation saves reaches back as far as its window does, so it reaches back
/// as far as a later one's: where the earlier tally came to its limit, the last block
/// that the saved runs stand for lies outside of the window.
pub proof fn law_saved_runs_cover_the_window(stretches: Seq<Seq<BlockView>>, min_timestamp: u64)
    requires
        none_empty(stretches),
        times_go_back(stretches.flatten()),
        cut(runs_of_stretches(stretches), min_timestamp, 0) < stretches.len(),
    ensures
        looked_at(stretches, min_timestamp).len() > 0,
        looked_at(stretches, min_timestamp).flatten().len() > 0,
        looked_at(stretches, min_timestamp).flatten().last().timestamp <= min_timestamp,
{
    let runs = runs_of_stretches(stretches);
    let end = cut(runs, min_timestamp, 0);
    lemma_cut(runs, min_timestamp, 0);
    let (before, last) = (stretches.take(end), stretches[end]);
    let kept = looked_at(stretches, min_timestamp);
    assert(kept =~= before.push(last));
    before.lemma_flatten_push(last);
    lemma_flatten_concat(kept, stretches.skip(end + 1));
    assert(kept + stretches.skip(end + 1) =~= stretches);
    let blocks = stretches.flatten();
    let (i, j) = (before.flatten().len() as int, kept.flatten().len() - 1);
    assert(last.len() > 0);
    assert(blocks[i] == last.first());
    assert(blocks[j] == last.last());
    assert(blocks[i].timestamp >= blocks[j].timestamp);
}

/// Cached runs serve the next calculation. Let a tally of the runs of stretches of
/// blocks save what it looked at, and let blocks with higher numbers come above them.
/// A sender that is given the saved runs sends the runs of the new blocks alone, and
/// then the saved ones; a tally of those, merged, comes to what a walk over the new
/// blocks and the old ones comes to.
pub proof fn law_saved_runs_serve_the_next_calculation<E>(
    earlier: RunTallyView,
    old: Seq<Seq<BlockView>>,
    counted_before: (u64, u64),
    tally: RunTallyView,
    walk: TxWalkView,
    start: u64,
    above: Seq<BlockView>,
    tail: spec_fn(u64, Seq<char>) -> (u64, u64),
    limit: int,
)
    requires
        earlier.phase == TallyPhase::Counting,
        earlier.runs.len() == 0,
        old.len() > 0,
        none_empty(old),
        old.first().first().hash == earlier.highest_block_hash,
        linked(above.push(old.first().first())),
        forall|i: int|
            0 <= i < above.len() ==> (#[trigger] above[i]).block_number
                > old.first().first().block_number,
        same_window(
            tally,
            walk,
            above + looked_at(old, earlier.min_timestamp).flatten(),
            tail,
            limit,
        ),
    ensures
        ({
            let kept = looked_at(old, earlier.min_timestamp);
            let saved = tally_saves::<E>(earlier, runs_of_stretches(old), counted_before);
            let blocks = above.push(old.first().first());
            let sent = sent_from::<E>(start, saved, blocks);
            &&& saved == Some(runs_of_stretches(kept))
            &&& sent == runs_of_stretches(cut_up(seq![], above, blocks.first().timestamp))
                + runs_of_stretches(kept)
            &&& agrees::<E>(tally, walk, sent, above + kept.flatten(), tail)
        }),
{
    let runs = runs_of_stretches(old);
    let kept = looked_at(old, earlier.min_timestamp);
    let joint = old.first().first();
    lemma_cut(runs, earlier.min_timestamp, 0);
    law_tally_saves_what_it_looked_at::<E>(earlier, runs, counted_before);
    let saved = runs_of_stretches(kept);
    let end = cut(runs, earlier.min_timestamp, 0);
    if end < old.len() {
        assert(runs.take(end + 1) =~= saved);
    }
    assert(kept.first() == old.first());
    assert(saved.first() == summary(old.first()));
    lemma_above(above, saved);
    law_cached_runs_follow_the_built_ones::<E>(start, Some(saved), above, joint);
    law_joined_runs_agree_with_blocks::<E>(
        tally,
        walk,
        start,
        Some(saved),
        above,
        kept,
        tail,
        limit,
    );
}

} // verus!
