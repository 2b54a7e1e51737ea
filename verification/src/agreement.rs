//! What walks over blocks and tallies of runs count, and that both count the same.

use crate::blockrun::summary;
use crate::blockrun_laws::{none_empty, preceded, runs_of_stretches};
use crate::calculate::{
    rate_of, walk_ends, RunTallyView, TallyEventView, TallyPhase, TallyStepView, Tps,
    TxWalkView, WalkStep,
};
use crate::db::{BlockRunView, BlockView};
use crate::error::{Failure, FigureError};
use crate::merge::{law_joined_run_sums_up_both, merged, two_short_runs};
use crate::totals::{block_txs, lemma_block_txs_concat, run_txs, saturated};
use vstd::prelude::*;

verus! {

/// What a walk comes to where the blocks that it asks for are, in turn, the given
/// ones, and the one after them is not stored.
pub open spec fn walk_result<E>(walk: TxWalkView, blocks: Seq<BlockView>) -> Result<
    (u64, u64),
    Failure<E>,
>
    decreases blocks.len(),
{
    let (next, step) = if blocks.len() == 0 {
        walk.next::<E>(Ok(None))
    } else {
        walk.next::<E>(Ok(Some(blocks.first())))
    };
    match step {
        WalkStep::Finished(result) => result,
        WalkStep::LoadBlock(_) => if blocks.len() == 0 {
            arbitrary()
        } else {
            walk_result(next, blocks.drop_first())
        },
    }
}

/// The first place, from `from` on, at which a walk over the given blocks ends.
pub open spec fn walk_end(blocks: Seq<BlockView>, min_timestamp: u64, from: int) -> int
    decreases blocks.len() - from,
{
    if from + 1 >= blocks.len() || walk_ends(blocks.take(from + 1), min_timestamp) {
        from
    } else {
        walk_end(blocks, min_timestamp, from + 1)
    }
}

/// What a walk over the given blocks counts: the transactions of the blocks before
/// the one that it ends at, and the time of that one.
pub open spec fn counted(blocks: Seq<BlockView>, min_timestamp: u64) -> (u64, u64) {
    let end = walk_end(blocks, min_timestamp, 0);
    (saturated(block_txs(blocks.take(end))), blocks[end].timestamp)
}

proof fn lemma_walk_result<E>(walk: TxWalkView, blocks: Seq<BlockView>, at: int)
    requires
        0 <= at <= blocks.len(),
        blocks.len() > 0,
        walk.walked == blocks.take(at),
        at == 0 ==> blocks.first().hash == walk.highest_block_hash,
        at > 0 ==> !walk_ends(blocks.take(at), walk.min_timestamp),
    ensures
        ({
            let end = if at < blocks.len() {
                walk_end(blocks, walk.min_timestamp, at)
            } else {
                at - 1
            };
            &&& 0 <= end < blocks.len()
            &&& walk_result::<E>(walk, blocks.skip(at)) == Ok::<(u64, u64), Failure<E>>(
                (saturated(block_txs(blocks.take(end))), blocks[end].timestamp),
            )
        }),
    decreases blocks.len() - at,
{
    let rest = blocks.skip(at);
    if at < blocks.len() {
        assert(rest.first() == blocks[at]);
        assert(rest.drop_first() =~= blocks.skip(at + 1));
        assert(walk.walked.push(blocks[at]) =~= blocks.take(at + 1));
        assert(blocks.take(at + 1).drop_last() =~= blocks.take(at));
        let next = walk.next::<E>(Ok(Some(blocks[at]))).0;
        if !walk_ends(blocks.take(at + 1), walk.min_timestamp) {
            lemma_walk_result::<E>(next, blocks, at + 1);
        }
    } else {
        assert(blocks.take(at) =~= blocks);
        assert(blocks.drop_last() =~= blocks.take(at - 1));
    }
}

/// A walk along stored blocks, from one of the right hash, counts the transactions
/// of all blocks before the one that it ends at: the first one that lies as far
/// back as the walk should go, or is the chain's first, or has no stored
/// predecessor.
pub proof fn law_walk_counts_its_blocks<E>(walk: TxWalkView, blocks: Seq<BlockView>)
    requires
        walk.walked.len() == 0,
        blocks.len() > 0,
        blocks.first().hash == walk.highest_block_hash,
    ensures
        walk_result::<E>(walk, blocks) == Ok::<(u64, u64), Failure<E>>(
            counted(blocks, walk.min_timestamp),
        ),
{
    assert(walk.walked =~= blocks.take(0));
    assert(blocks.skip(0) =~= blocks);
    lemma_walk_result::<E>(walk, blocks, 0);
}

/// A walk from a block that is not stored, or that has another hash, counts nothing.
pub proof fn law_walk_needs_its_first_block<E>(walk: TxWalkView, blocks: Seq<BlockView>)
    requires
        walk.walked.len() == 0,
        blocks.len() > 0 ==> blocks.first().hash != walk.highest_block_hash,
    ensures
        walk_result::<E>(walk, blocks) == Err::<(u64, u64), Failure<E>>(
            Failure::Own(
                if blocks.len() == 0 {
                    FigureError::MissingFirstBlock
                } else {
                    FigureError::IncorrectFirstBlockHash
                },
            ),
        ),
{
}

/// The window's limit is reached at the block at `limit`: that one lies outside of
/// the window and all before it lie in it, have predecessors, and are not the
/// chain's first.
pub open spec fn limit_at(blocks: Seq<BlockView>, min_timestamp: u64, limit: int) -> bool {
    &&& 0 <= limit < blocks.len()
    &&& blocks[limit].timestamp <= min_timestamp
    &&& forall|i: int|
        #![trigger blocks[i]]
        0 <= i < limit ==> {
            &&& blocks[i].timestamp > min_timestamp
            &&& blocks[i].prev_block_number is Some
            &&& i > 0 ==> blocks[i].block_number != 0
        }
}

/// Where the window's limit is reached after the first block, that is where a walk ends.
proof fn lemma_counted_to_limit(
    blocks: Seq<BlockView>,
    min_timestamp: u64,
    limit: int,
    from: int,
)
    requires
        limit_at(blocks, min_timestamp, limit),
        0 <= from <= limit,
        limit > 0,
    ensures
        walk_end(blocks, min_timestamp, from) == limit,
    decreases limit - from,
{
    if from < limit {
        assert(blocks.take(from + 1).last() == blocks[from]);
        lemma_counted_to_limit(blocks, min_timestamp, limit, from + 1);
    } else {
        assert(blocks.take(from + 1).last() == blocks[from]);
    }
}

/// What a tally comes to where the stream gives the given runs and then ends, and
/// `tail` is what is counted from the block of a given number and hash on: the
/// transactions counted and the time they are counted from, or nothing where the
/// tally fails.
pub open spec fn tally_result<E>(
    tally: RunTallyView,
    runs: Seq<BlockRunView>,
    tail: spec_fn(u64, Seq<char>) -> (u64, u64),
) -> Option<(u64, u64)>
    decreases runs.len(),
{
    let (next, step) = if runs.len() == 0 {
        tally.next::<E>(TallyEventView::Run(None))
    } else {
        tally.next::<E>(TallyEventView::Run(Some(Ok(runs.first()))))
    };
    let last = match step {
        TallyStepView::CountTail(number, hash) => next.next::<E>(
            TallyEventView::Tail(Ok(tail(number, hash))),
        ).0,
        _ => next,
    };
    match last.phase {
        TallyPhase::Saving(num_txs, init_timestamp) => Some((num_txs, init_timestamp)),
        TallyPhase::Counting => if runs.len() == 0 {
            None
        } else {
            tally_result::<E>(next, runs.drop_first(), tail)
        },
        _ => None,
    }
}

/// The first place, from `from` on, of a run that does not lie in the window as a whole.
pub open spec fn cut(runs: Seq<BlockRunView>, min_timestamp: u64, from: int) -> int
    decreases runs.len() - from,
{
    if from >= runs.len() || runs[from].newest_block_timestamp <= min_timestamp
        || runs[from].oldest_block_timestamp <= min_timestamp {
        from
    } else {
        cut(runs, min_timestamp, from + 1)
    }
}

/// The runs that a tally saves, where the stream gives the given runs and then ends
/// and the count of the last run's blocks is `tail`; nothing where the tally fails.
pub open spec fn tally_saves<E>(
    tally: RunTallyView,
    runs: Seq<BlockRunView>,
    tail: (u64, u64),
) -> Option<Seq<BlockRunView>>
    decreases runs.len(),
{
    let (next, step) = if runs.len() == 0 {
        tally.next::<E>(TallyEventView::Run(None))
    } else {
        tally.next::<E>(TallyEventView::Run(Some(Ok(runs.first()))))
    };
    let last = match step {
        TallyStepView::CountTail(_, _) => next.next::<E>(TallyEventView::Tail(Ok(tail))).1,
        _ => step,
    };
    match last {
        TallyStepView::Save(saved) => Some(saved),
        TallyStepView::NextRun => if runs.len() == 0 {
            None
        } else {
            tally_saves::<E>(next, runs.drop_first(), tail)
        },
        _ => None,
    }
}

proof fn lemma_tally_saves<E>(
    tally: RunTallyView,
    runs: Seq<BlockRunView>,
    tail: (u64, u64),
    at: int,
)
    requires
        tally.phase == TallyPhase::Counting,
        0 <= at <= runs.len(),
        tally.runs == runs.take(at),
        runs.len() > 0 ==> runs.first().newest_block_hash == tally.highest_block_hash,
    ensures
        ({
            let end = cut(runs, tally.min_timestamp, at);
            tally_saves::<E>(tally, runs.skip(at), tail) == Some(
                if end < runs.len() {
                    runs.take(end + 1)
                } else {
                    runs
                },
            )
        }),
    decreases runs.len() - at,
{
    let rest = runs.skip(at);
    if at < runs.len() {
        assert(rest.first() == runs[at]);
        assert(rest.drop_first() =~= runs.skip(at + 1));
        assert(runs.take(at).push(runs[at]) =~= runs.take(at + 1));
        let next = tally.next::<E>(TallyEventView::Run(Some(Ok(runs[at])))).0;
        if next.phase == TallyPhase::Counting {
            lemma_tally_saves::<E>(next, runs, tail, at + 1);
        }
    } else {
        assert(runs.take(at) =~= runs);
    }
}

/// A tally of a stream whose first run is the right one saves the runs of the
/// stream, in order, up to the first one that does not lie in the window as a
/// whole, that one included; all of them where there is none.
pub proof fn law_tally_saves_what_it_looked_at<E>(
    tally: RunTallyView,
    runs: Seq<BlockRunView>,
    tail: (u64, u64),
)
    requires
        tally.phase == TallyPhase::Counting,
        tally.runs.len() == 0,
        runs.len() > 0 ==> runs.first().newest_block_hash == tally.highest_block_hash,
    ensures
        ({
            let end = cut(runs, tally.min_timestamp, 0);
            tally_saves::<E>(tally, runs, tail) == Some(
                if end < runs.len() {
                    runs.take(end + 1)
                } else {
                    runs
                },
            )
        }),
{
    assert(tally.runs =~= runs.take(0));
    assert(runs.skip(0) =~= runs);
    lemma_tally_saves::<E>(tally, runs, tail, 0);
}

/// A tally of a stream whose first run starts at another block than the highest one
/// fails.
pub proof fn law_tally_needs_its_first_run<E>(tally: RunTallyView, run: BlockRunView)
    requires
        tally.phase == TallyPhase::Counting,
        tally.runs.len() == 0,
        run.newest_block_hash != tally.highest_block_hash,
    ensures
        tally.next::<E>(TallyEventView::Run(Some(Ok(run)))).1 == TallyStepView::Finished(
            Err::<Tps, Failure<E>>(Failure::Own(FigureError::IncorrectFirstBlockHash)),
        ),
{
}

/// The times of the blocks go back.
pub open spec fn times_go_back(blocks: Seq<BlockView>) -> bool {
    forall|i: int, j: int|
        0 <= i <= j < blocks.len() ==> #[trigger] blocks[i].timestamp >= #[trigger] blocks[j].timestamp
}

/// `tail` counts what a walk from any of the blocks above the limit counts.
pub open spec fn tail_counts(
    tail: spec_fn(u64, Seq<char>) -> (u64, u64),
    blocks: Seq<BlockView>,
    min_timestamp: u64,
    limit: int,
) -> bool {
    forall|i: int|
        #![trigger blocks[i]]
        0 <= i < limit ==> tail(blocks[i].block_number, blocks[i].hash) == counted(
            blocks.skip(i),
            min_timestamp,
        )
}

proof fn lemma_tally<E>(
    tally: RunTallyView,
    stretches: Seq<Seq<BlockView>>,
    beyond: Seq<BlockRunView>,
    tail: spec_fn(u64, Seq<char>) -> (u64, u64),
    limit: int,
)
    requires
        tally.phase == TallyPhase::Counting,
        stretches.len() > 0,
        tally.runs.len() == 0 ==> stretches.first().first().hash == tally.highest_block_hash,
        none_empty(stretches),
        times_go_back(stretches.flatten()),
        limit_at(stretches.flatten(), tally.min_timestamp, limit),
        tail_counts(tail, stretches.flatten(), tally.min_timestamp, limit),
    ensures
        tally_result::<E>(tally, runs_of_stretches(stretches) + beyond, tail) == Some(
            (
                saturated(run_txs(tally.runs) + block_txs(stretches.flatten().take(limit))),
                stretches.flatten()[limit].timestamp,
            ),
        ),
    decreases stretches.len(),
{
    let min = tally.min_timestamp;
    let blocks = stretches.flatten();
    let first = stretches.first();
    let rest = stretches.drop_first();
    assert(stretches[0].len() > 0);
    assert(blocks == first + rest.flatten());
    let runs = runs_of_stretches(stretches) + beyond;
    let run = summary(first);
    assert(runs.first() == run);
    assert(runs.drop_first() =~= runs_of_stretches(rest) + beyond);
    assert(blocks[0] == first[0]);
    let taken = tally.runs.push(run);
    assert(taken.drop_last() =~= tally.runs);
    if limit == 0 {
        assert(blocks.take(0) =~= seq![]);
    } else if limit < first.len() {
        assert(blocks[limit] == first[limit]);
        assert(blocks[first.len() - 1] == first.last());
        assert(first.last().timestamp <= min);
        assert(blocks.skip(0) =~= blocks);
        lemma_counted_to_limit(blocks, min, limit, 0);
        assert(tail(blocks[0].block_number, blocks[0].hash) == counted(blocks.skip(0), min));
    } else {
        let later = rest.flatten();
        assert(blocks[first.len() - 1] == first.last());
        assert(first.last().timestamp > min);
        assert(later.len() > 0);
        assert(rest.len() > 0);
        let next = tally.next::<E>(TallyEventView::Run(Some(Ok(run)))).0;
        assert(next.runs == taken);
        assert forall|i: int, j: int| 0 <= i <= j < later.len() implies #[trigger] later[i].timestamp
            >= #[trigger] later[j].timestamp by {
            assert(later[i] == blocks[i + first.len()]);
            assert(later[j] == blocks[j + first.len()]);
        }
        let left: int = limit - first.len();
        assert(later[left] == blocks[limit]);
        assert forall|i: int| #![trigger later[i]] 0 <= i < left implies {
            &&& later[i].timestamp > min
            &&& later[i].prev_block_number is Some
            &&& i > 0 ==> later[i].block_number != 0
        } by {
            assert(later[i] == blocks[i + first.len()]);
        }
        assert forall|i: int| #![trigger later[i]] 0 <= i < left implies tail(
            later[i].block_number,
            later[i].hash,
        ) == counted(later.skip(i), min) by {
            assert(later[i] == blocks[i + first.len()]);
            assert(later.skip(i) =~= blocks.skip(i + first.len()));
        }
        assert forall|i: int| 0 <= i < rest.len() implies (#[trigger] rest[i]).len() > 0 by {
            assert(rest[i] == stretches[i + 1]);
        }
        lemma_tally::<E>(next, rest, beyond, tail, left);
        assert(blocks.take(limit) =~= first + later.take(left));
        lemma_block_txs_concat(first, later.take(left));
        assert(run_txs(taken) == run_txs(tally.runs) + run.num_txs as nat);
    }
}

/// Runs and blocks count the same. Let the stored blocks, the newest first, go back
/// in time, and let the window's limit be reached among them. Where the first runs
/// of a stream stand for stretches of those blocks that follow each other without a
/// gap, a tally of the stream counts the same transactions, from the same time on,
/// as a walk over the blocks, whatever runs come after them.
pub proof fn law_runs_and_blocks_agree<E>(
    tally: RunTallyView,
    walk: TxWalkView,
    stretches: Seq<Seq<BlockView>>,
    beyond: Seq<BlockRunView>,
    tail: spec_fn(u64, Seq<char>) -> (u64, u64),
    limit: int,
)
    requires
        tally.phase == TallyPhase::Counting,
        tally.runs.len() == 0,
        walk.walked.len() == 0,
        tally.min_timestamp == walk.min_timestamp,
        tally.highest_block_hash == walk.highest_block_hash,
        stretches.len() > 0,
        stretches.first().first().hash == walk.highest_block_hash,
        none_empty(stretches),
        times_go_back(stretches.flatten()),
        limit > 0,
        limit_at(stretches.flatten(), walk.min_timestamp, limit),
        tail_counts(tail, stretches.flatten(), walk.min_timestamp, limit),
    ensures
        tally_result::<E>(tally, runs_of_stretches(stretches) + beyond, tail) is Some,
        walk_result::<E>(walk, stretches.flatten()) == Ok::<(u64, u64), Failure<E>>(
            tally_result::<E>(tally, runs_of_stretches(stretches) + beyond, tail)->Some_0,
        ),
{
    let blocks = stretches.flatten();
    lemma_tally::<E>(tally, stretches, beyond, tail, limit);
    assert(stretches[0].len() > 0);
    assert(blocks == stretches.first() + stretches.drop_first().flatten());
    law_walk_counts_its_blocks::<E>(walk, blocks);
    lemma_counted_to_limit(blocks, walk.min_timestamp, limit, 0);
}

/// The stretches that runs stand for once a merger that holds the run of `held` has
/// merged the runs of the given stretches.
pub open spec fn merged_stretches(
    held: Option<Seq<BlockView>>,
    stretches: Seq<Seq<BlockView>>,
) -> Seq<Seq<BlockView>>
    decreases stretches.len(),
{
    if stretches.len() == 0 {
        match held {
            Some(blocks) => seq![blocks],
            None => seq![],
        }
    } else {
        let (older, rest) = (stretches.first(), stretches.drop_first());
        match held {
            None => merged_stretches(Some(older), rest),
            Some(newer) => if two_short_runs(summary(newer), summary(older)) {
                merged_stretches(Some(newer + older), rest)
            } else {
                seq![newer] + merged_stretches(Some(older), rest)
            },
        }
    }
}

/// A stream of the given runs, without an error.
pub open spec fn stream_of<E>(runs: Seq<BlockRunView>) -> Seq<Result<BlockRunView, E>> {
    runs.map_values(|run: BlockRunView| Ok::<BlockRunView, E>(run))
}

proof fn lemma_merged_stretches<E>(
    held: Option<Seq<BlockView>>,
    stretches: Seq<Seq<BlockView>>,
)
    requires
        none_empty(stretches),
        held matches Some(blocks) ==> blocks.len() > 0,
        stretches.flatten().len() + match held {
            Some(blocks) => blocks.len(),
            None => 0,
        } <= u64::MAX,
    ensures
        ({
            let held_run = match held {
                Some(blocks) => Some(summary(blocks)),
                None => None,
            };
            let held_blocks = match held {
                Some(blocks) => blocks,
                None => seq![],
            };
            let out = merged_stretches(held, stretches);
            &&& merged(held_run, stream_of::<E>(runs_of_stretches(stretches))) == stream_of::<E>(
                runs_of_stretches(out),
            )
            &&& out.flatten() == held_blocks + stretches.flatten()
            &&& none_empty(out)
        }),
    decreases stretches.len(),
{
    let held_run = match held {
        Some(blocks) => Some(summary(blocks)),
        None => None,
    };
    let items = stream_of::<E>(runs_of_stretches(stretches));
    let out = merged_stretches(held, stretches);
    reveal_with_fuel(Seq::flatten, 2);
    if stretches.len() == 0 {
        assert(merged(held_run, items) =~= stream_of::<E>(runs_of_stretches(out)));
        if let Some(blocks) = held {
            assert(out.drop_first() =~= seq![]);
            assert(out.flatten() =~= blocks + stretches.flatten());
        } else {
            assert(out.flatten() =~= Seq::<BlockView>::empty() + stretches.flatten());
        }
    } else {
        let (older, rest) = (stretches.first(), stretches.drop_first());
        assert(stretches[0].len() > 0);
        assert(stretches.flatten() == older + rest.flatten());
        assert(items.first() == Ok::<BlockRunView, E>(summary(older)));
        assert(items.drop_first() =~= stream_of::<E>(runs_of_stretches(rest)));
        assert forall|i: int| 0 <= i < rest.len() implies (#[trigger] rest[i]).len() > 0 by {
            assert(rest[i] == stretches[i + 1]);
        }
        match held {
            None => {
                lemma_merged_stretches::<E>(Some(older), rest);
                assert(out.flatten() =~= Seq::<BlockView>::empty() + stretches.flatten());
            },
            Some(newer) => {
                if two_short_runs(summary(newer), summary(older)) {
                    law_joined_run_sums_up_both(newer, older);
                    lemma_merged_stretches::<E>(Some(newer + older), rest);
                    assert(out.flatten() =~= newer + stretches.flatten());
                } else {
                    lemma_merged_stretches::<E>(Some(older), rest);
                    assert(out.drop_first() =~= merged_stretches(Some(older), rest));
                    assert(out.flatten() =~= newer + stretches.flatten());
                }
            },
        }
        assert(merged(held_run, items) =~= stream_of::<E>(runs_of_stretches(out)));
    }
}

/// Merging regroups blocks and no more: the runs of stretches of blocks, merged, are
/// the runs of longer stretches of the same blocks in the same order. So runs that
/// agree with the blocks still do once they are merged.
pub proof fn law_merging_regroups_blocks<E>(stretches: Seq<Seq<BlockView>>)
    requires
        none_empty(stretches),
        stretches.flatten().len() <= u64::MAX,
    ensures
        merged(None, stream_of::<E>(runs_of_stretches(stretches))) == stream_of::<E>(
            runs_of_stretches(merged_stretches(None, stretches)),
        ),
        merged_stretches(None, stretches).flatten() == stretches.flatten(),
        none_empty(merged_stretches(None, stretches)),
{
    lemma_merged_stretches::<E>(None, stretches);
    assert(Seq::<BlockView>::empty() + stretches.flatten() =~= stretches.flatten());
}

/// What a walk comes to where each block that it asks for, from the given step on, is looked
/// up in a store; nothing where it does not come to its end in so many steps.
pub open spec fn walk_served<E>(
    walk: TxWalkView,
    step: WalkStep<E>,
    stored: Map<u64, BlockView>,
    steps: nat,
) -> Option<Result<(u64, u64), Failure<E>>>
    decreases steps,
{
    match step {
        WalkStep::Finished(result) => Some(result),
        WalkStep::LoadBlock(number) => if steps == 0 {
            None
        } else {
            let (next, then) = walk.next::<E>(
                Ok(
                    if stored.contains_key(number) {
                        Some(stored[number])
                    } else {
                        None
                    },
                ),
            );
            walk_served(next, then, stored, (steps - 1) as nat)
        },
    }
}

proof fn lemma_walk_served<E>(
    walk: TxWalkView,
    number: u64,
    stored: Map<u64, BlockView>,
    blocks: Seq<BlockView>,
    at: int,
    end: int,
    steps: nat,
)
    requires
        0 <= at <= end < blocks.len(),
        walk.walked == blocks.take(at),
        blocks[0].hash == walk.highest_block_hash,
        stored.contains_key(number),
        stored[number] == blocks[at],
        forall|i: int| 0 <= i < end ==> #[trigger] preceded(stored, blocks, i),
        forall|i: int|
            0 < i < end ==> (#[trigger] blocks[i]).timestamp > walk.min_timestamp
                && blocks[i].block_number != 0,
        blocks[end].prev_block_number is None || !stored.contains_key(
            blocks[end].prev_block_number->Some_0,
        ) || (end > 0 && (blocks[end].timestamp <= walk.min_timestamp || blocks[end].block_number
            == 0)),
        steps >= end - at + 2,
    ensures
        walk_served(walk, WalkStep::<E>::LoadBlock(number), stored, steps) == Some(
            Ok::<(u64, u64), Failure<E>>(
                (saturated(block_txs(blocks.take(end))), blocks[end].timestamp),
            ),
        ),
    decreases end - at,
{
    let block = blocks[at];
    let (next, then) = walk.next::<E>(Ok(Some(block)));
    let fewer = (steps - 1) as nat;
    assert(walk.walked.push(block) =~= blocks.take(at + 1));
    assert(blocks.take(at + 1).drop_last() =~= blocks.take(at));
    assert(walk_served(walk, WalkStep::<E>::LoadBlock(number), stored, steps) == walk_served(
        next,
        then,
        stored,
        fewer,
    ));
    if at < end {
        assert(preceded(stored, blocks, at));
        lemma_walk_served::<E>(
            next,
            block.prev_block_number->Some_0,
            stored,
            blocks,
            at + 1,
            end,
            fewer,
        );
    } else if let WalkStep::LoadBlock(before) = then {
        let (last, result) = next.next::<E>(Ok(None));
        assert(walk_served(next, then, stored, fewer) == walk_served(
            last,
            result,
            stored,
            (fewer - 1) as nat,
        ));
    }
}

/// A walk that looks up each block that it asks for in a store counts the chain of stored
/// predecessors, whatever their numbers are. Let the given blocks be those found from the
/// start on by looking up, of each, the predecessor that it names, and let the one at `end`
/// be the first where the walk has to stop: it names no predecessor, or one that is not
/// stored, or it lies, after the first, as far back as the walk should go, or is number
/// zero. The walk gives the transactions of the blocks before it, and its time.
pub proof fn law_walk_counts_the_stored_predecessors<E>(
    walk: TxWalkView,
    start: u64,
    stored: Map<u64, BlockView>,
    blocks: Seq<BlockView>,
    end: int,
    steps: nat,
)
    requires
        walk.walked.len() == 0,
        0 <= end < blocks.len(),
        stored.contains_key(start),
        stored[start] == blocks[0],
        blocks[0].hash == walk.highest_block_hash,
        forall|i: int| 0 <= i < end ==> #[trigger] preceded(stored, blocks, i),
        forall|i: int|
            0 < i < end ==> (#[trigger] blocks[i]).timestamp > walk.min_timestamp
                && blocks[i].block_number != 0,
        blocks[end].prev_block_number is None || !stored.contains_key(
            blocks[end].prev_block_number->Some_0,
        ) || (end > 0 && (blocks[end].timestamp <= walk.min_timestamp || blocks[end].block_number
            == 0)),
        steps >= end + 2,
    ensures
        walk_served(walk, WalkStep::<E>::LoadBlock(start), stored, steps) == Some(
            Ok::<(u64, u64), Failure<E>>(
                (saturated(block_txs(blocks.take(end))), blocks[end].timestamp),
            ),
        ),
{
    assert(walk.walked =~= blocks.take(0));
    lemma_walk_served::<E>(walk, start, stored, blocks, 0, end, steps);
}

/// A walk by the fields of the block that it comes to. From its first block it goes on to
/// the predecessor named, if there is one; from a later one too, unless that one lies as
/// far back as the walk should go, or is number zero. Where it stops it gives the
/// transactions of the blocks before, and the time of that one.
pub proof fn law_walk_by_its_blocks<E>(walk: TxWalkView, block: BlockView)
    ensures
        ({
            let (next, step) = walk.next::<E>(Ok(Some(block)));
            let first = walk.walked.len() == 0;
            let stops = block.prev_block_number is None || (!first && (block.timestamp
                <= walk.min_timestamp || block.block_number == 0));
            if first && block.hash != walk.highest_block_hash {
                step == WalkStep::Finished(
                    Err::<(u64, u64), Failure<E>>(
                        Failure::Own(FigureError::IncorrectFirstBlockHash),
                    ),
                )
            } else {
                &&& next.walked == walk.walked.push(block)
                &&& next.min_timestamp == walk.min_timestamp
                &&& next.highest_block_hash == walk.highest_block_hash
                &&& stops ==> step == WalkStep::Finished(
                    Ok::<(u64, u64), Failure<E>>(
                        (saturated(block_txs(walk.walked)), block.timestamp),
                    ),
                )
                &&& !stops ==> step == WalkStep::<E>::LoadBlock(block.prev_block_number->Some_0)
            }
        }),
{
    assert(walk.walked.push(block).drop_last() =~= walk.walked);
}

/// A walk whose next block is not stored gives the transactions of the blocks before the
/// last, and the time of the last; without a first block it fails. What fails outside is
/// handed on.
pub proof fn law_walk_without_a_block<E>(walk: TxWalkView, e: E)
    ensures
        walk.walked.len() > 0 ==> walk.next::<E>(Ok(None)).1 == WalkStep::Finished(
            Ok::<(u64, u64), Failure<E>>(
                (
                    saturated(block_txs(walk.walked.take(walk.walked.len() - 1))),
                    walk.walked[walk.walked.len() - 1].timestamp,
                ),
            ),
        ),
        walk.walked.len() == 0 ==> walk.next::<E>(Ok(None)).1 == WalkStep::Finished(
            Err::<(u64, u64), Failure<E>>(Failure::Own(FigureError::MissingFirstBlock)),
        ),
        walk.next::<E>(Err(e)).1 == WalkStep::Finished(
            Err::<(u64, u64), Failure<E>>(Failure::Outside(e)),
        ),
{
    assert(walk.walked.len() > 0 ==> walk.walked.drop_last() =~= walk.walked.take(
        walk.walked.len() - 1,
    ));
}

/// A tally by the times of the run that comes. One whose oldest block lies in the window is
/// counted whole and the next one is asked for. One that starts outside of the window is
/// not counted: its newest block's time is what is counted from. Of one that starts in the
/// window and ends outside, the blocks are counted from its newest one on. The runs that
/// came, that one included, are what is saved. The first run must start at the right block.
pub proof fn law_tally_by_its_runs<E>(tally: RunTallyView, run: BlockRunView)
    requires
        tally.phase == TallyPhase::Counting,
    ensures
        ({
            let (next, step) = tally.next::<E>(TallyEventView::Run(Some(Ok(run))));
            let min = tally.min_timestamp;
            if tally.runs.len() == 0 && run.newest_block_hash != tally.highest_block_hash {
                &&& step == TallyStepView::Finished(
                    Err::<Tps, Failure<E>>(Failure::Own(FigureError::IncorrectFirstBlockHash)),
                )
                &&& next.phase == TallyPhase::Done
            } else {
                &&& next.min_timestamp == min
                &&& next.highest_block_timestamp == tally.highest_block_timestamp
                &&& next.highest_block_hash == tally.highest_block_hash
                &&& run.newest_block_timestamp <= min ==> {
                    &&& step == TallyStepView::<E>::Save(tally.runs.push(run))
                    &&& next.phase == TallyPhase::Saving(
                        saturated(run_txs(tally.runs)),
                        run.newest_block_timestamp,
                    )
                }
                &&& run.newest_block_timestamp > min && run.oldest_block_timestamp <= min ==> {
                    &&& step == TallyStepView::<E>::CountTail(
                        run.newest_block_number,
                        run.newest_block_hash,
                    )
                    &&& next.phase == TallyPhase::Tail
                    &&& next.runs == tally.runs.push(run)
                }
                &&& run.newest_block_timestamp > min && run.oldest_block_timestamp > min ==> {
                    &&& step == TallyStepView::<E>::NextRun
                    &&& next.phase == TallyPhase::Counting
                    &&& next.runs == tally.runs.push(run)
                }
            }
        }),
{
}

/// A tally at its end. Where the stream ends in the window, all runs are counted, from time
/// zero on. Where the blocks of the last run were counted, they are added to the runs before
/// it. Once the runs were saved, the rate is that of the count, from the time counted from
/// to the window's end. Whatever fails outside is handed on, and nothing is done after it.
pub proof fn law_tally_at_its_end<E>(
    tally: RunTallyView,
    more_txs: u64,
    init_timestamp: u64,
    num_txs: u64,
    e: E,
)
    ensures
        tally.phase == TallyPhase::Counting ==> {
            let (next, step) = tally.next::<E>(TallyEventView::Run(None));
            &&& step == TallyStepView::<E>::Save(tally.runs)
            &&& next.phase == TallyPhase::Saving(saturated(run_txs(tally.runs)), 0)
            &&& next.highest_block_timestamp == tally.highest_block_timestamp
        },
        tally.phase == TallyPhase::Tail && tally.runs.len() > 0 ==> {
            let (next, step) = tally.next::<E>(TallyEventView::Tail(Ok((more_txs, init_timestamp))));
            let before = tally.runs.take(tally.runs.len() - 1);
            &&& step == TallyStepView::<E>::Save(tally.runs)
            &&& next.phase == TallyPhase::Saving(
                saturated(run_txs(before) + more_txs as nat),
                init_timestamp,
            )
            &&& next.highest_block_timestamp == tally.highest_block_timestamp
        },
        tally.phase == TallyPhase::Saving(num_txs, init_timestamp) ==> {
            let (next, step) = tally.next::<E>(TallyEventView::Saved(Ok(())));
            &&& next.phase == TallyPhase::Done
            &&& step == TallyStepView::Finished(
                rate_of::<E>(Ok((num_txs, init_timestamp)), tally.highest_block_timestamp),
            )
        },
        tally.phase == TallyPhase::Counting ==> tally.next::<E>(
            TallyEventView::Run(Some(Err(e))),
        ).1 == TallyStepView::Finished(Err::<Tps, Failure<E>>(Failure::Outside(e))),
        tally.phase == TallyPhase::Tail ==> tally.next::<E>(TallyEventView::Tail(Err(e))).1
            == TallyStepView::Finished(Err::<Tps, Failure<E>>(Failure::Outside(e))),
        tally.phase is Saving ==> tally.next::<E>(TallyEventView::Saved(Err(e))).1
            == TallyStepView::Finished(Err::<Tps, Failure<E>>(Failure::Outside(e))),
{
    assert(tally.runs.len() > 0 ==> tally.runs.drop_last() =~= tally.runs.take(
        tally.runs.len() - 1,
    ));
}

/// What a tally waits for: runs while it counts, then, where it asked for it, the count of
/// blocks, then that the runs were saved.
pub proof fn law_what_a_tally_waits_for<E>(tally: RunTallyView, event: TallyEventView<E>)
    ensures
        tally.phase == TallyPhase::Counting ==> (tally.waits_for(event) <==> event is Run),
        tally.phase == TallyPhase::Tail ==> (tally.waits_for(event) <==> event is Tail),
        tally.phase is Saving ==> (tally.waits_for(event) <==> event is Saved),
        tally.phase == TallyPhase::Done ==> !tally.waits_for(event),
{
}

} // verus!
