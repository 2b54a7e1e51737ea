//! What holds of a sender of block runs over its whole course.

use crate::blockrun::{
    aged, descending, joins, summary, surviving, BlockRunSenderView, Phase, RunEvent, RunEventView,
    RunStep, RunStepView, BLOCK_RUN_MIN_SECS,
};
use crate::db::{run_views, Block, BlockRun, BlockRunSummary, BlockRunView, BlockView};
use crate::error::{Failure, FigureError};
use crate::totals::{block_txs, lemma_run_counts_concat, run_blocks};
use vstd::prelude::*;

verus! {

/// The block after the one at `i` is that one's stored predecessor.
pub open spec fn preceded(stored: Map<u64, BlockView>, blocks: Seq<BlockView>, i: int) -> bool {
    &&& blocks[i].prev_block_number is Some
    &&& stored.contains_key(blocks[i].prev_block_number->Some_0)
    &&& blocks[i + 1] == stored[blocks[i].prev_block_number->Some_0]
}

/// The blocks are what is found in a store by walking back from the block `start`:
/// each is the stored predecessor of the one before it.
pub open spec fn walked_from(
    stored: Map<u64, BlockView>,
    start: u64,
    blocks: Seq<BlockView>,
) -> bool {
    &&& blocks.len() > 0 ==> stored.contains_key(start) && blocks[0] == stored[start]
    &&& forall|i: int| 0 <= i < blocks.len() - 1 ==> #[trigger] preceded(stored, blocks, i)
}

/// All stretches hold a block.
pub open spec fn none_empty(stretches: Seq<Seq<BlockView>>) -> bool {
    forall|i: int| 0 <= i < stretches.len() ==> (#[trigger] stretches[i]).len() > 0
}

/// The sender has walked in the given store and asks for the block that comes next.
/// The blocks walked are those of the stretches whose runs it has sent, one stretch
/// after the other, and then those in its buffer.
pub open spec fn follows(
    sender: BlockRunSenderView,
    stored: Map<u64, BlockView>,
    sent: Seq<Seq<BlockView>>,
) -> bool {
    let walked = sent.flatten() + sender.buffer;
    &&& none_empty(sent)
    &&& walked_from(stored, sender.start, walked)
    &&& match sender.phase {
        Phase::Summary | Phase::FirstBlock => walked.len() == 0,
        Phase::Walking => if walked.len() == 0 {
            sender.block_number == sender.start
        } else {
            walked.last().prev_block_number == Some(sender.block_number)
        },
        Phase::Aged(number) => {
            &&& sender.buffer.len() == 0
            &&& walked.len() > 0
            &&& walked.last().prev_block_number == number
        },
        Phase::Last | Phase::Joined | Phase::Cached => sender.buffer.len() == 0,
        _ => true,
    }
}

/// The event tells, of a block asked for, what is stored.
pub open spec fn truthful<E>(
    sender: BlockRunSenderView,
    event: RunEventView<E>,
    stored: Map<u64, BlockView>,
) -> bool {
    match (sender.phase, event) {
        (Phase::Walking, RunEventView::Block(Ok(Some(block)))) => {
            &&& stored.contains_key(sender.block_number)
            &&& block == stored[sender.block_number]
        },
        (Phase::Walking, RunEventView::Block(Ok(None))) => !stored.contains_key(
            sender.block_number,
        ),
        (_, _) => true,
    }
}

/// A sender that has not started yet follows any store.
pub proof fn law_new_sender_follows(start: u64, stored: Map<u64, BlockView>)
    ensures
        follows(BlockRunSenderView::initial(start), stored, seq![]),
{
}

/// Runs are contiguous and share no block: a sender that is told the truth of a store
/// keeps walking it from block to predecessor, and every run that it builds sums up
/// exactly the blocks walked since the run before, of which there is at least one. The
/// only other runs that it sends are cached ones, in their order.
pub proof fn law_runs_are_contiguous<E>(
    sender: BlockRunSenderView,
    event: RunEventView<E>,
    stored: Map<u64, BlockView>,
    sent: Seq<Seq<BlockView>>,
)
    requires
        follows(sender, stored, sent),
        sender.accepts(event),
        truthful(sender, event, stored),
    ensures
        ({
            let (next, step) = sender.next(event);
            let built = sender.gathered(event);
            &&& next.start == sender.start
            &&& if next.sends_built() {
                &&& built.len() > 0
                &&& step == RunStepView::<E>::Send(Ok(summary(built)))
                &&& follows(next, stored, sent.push(built))
            } else {
                &&& follows(next, stored, sent)
                &&& step matches RunStepView::Send(Ok(run)) ==> {
                    &&& sender.runs.len() > 0
                    &&& run == sender.runs.first()
                    &&& next.runs == sender.runs.drop_first()
                }
            }
        }),
{
    let next = sender.next(event).0;
    let built = sender.gathered(event);
    let walked = sent.flatten() + sender.buffer;
    if built != sender.buffer {
        lemma_walk_extends(stored, sender.start, walked, sender.block_number);
        assert(sent.flatten() + built =~= walked.push(built.last()));
    }
    if next.sends_built() {
        sent.lemma_flatten_push(built);
        assert(sent.push(built).flatten() + next.buffer =~= sent.flatten() + built);
    } else {
        assert(next.buffer == built);
    }
}

/// A walk goes on with the stored predecessor of its last block.
proof fn lemma_walk_extends(
    stored: Map<u64, BlockView>,
    start: u64,
    blocks: Seq<BlockView>,
    number: u64,
)
    requires
        walked_from(stored, start, blocks),
        stored.contains_key(number),
        if blocks.len() == 0 {
            number == start
        } else {
            blocks.last().prev_block_number == Some(number)
        },
    ensures
        walked_from(stored, start, blocks.push(stored[number])),
{
    let longer = blocks.push(stored[number]);
    assert(blocks.len() > 0 ==> longer[0] == blocks[0]);
    assert forall|i: int| 0 <= i < longer.len() - 1 implies #[trigger] preceded(
        stored,
        longer,
        i,
    ) by {
        if i + 1 < blocks.len() {
            assert(preceded(stored, blocks, i));
        }
    }
}

/// A run is sent in the midst of a walk exactly when its oldest block is at least
/// as much older as a run should span than the oldest block sent before, or than
/// the first block where none was; a block of time zero always ends a run. What
/// comes next is then measured from that block.
pub proof fn law_runs_span_the_minimum<E>(sender: BlockRunSenderView, block: BlockView)
    requires
        sender.phase == Phase::Walking,
        !joins(block, sender.runs),
    ensures
        ({
            let (next, step) = sender.next::<E>(RunEventView::Block(Ok(Some(block))));
            &&& next.phase is Aged <==> block.timestamp == 0 || sender.last_timestamp
                - block.timestamp >= BLOCK_RUN_MIN_SECS
            &&& next.phase is Aged ==> {
                &&& step matches RunStepView::Send(Ok(run)) && run.oldest_block_timestamp
                    == block.timestamp
                &&& next.last_timestamp == block.timestamp
            }
        }),
{
}

/// Cached runs are lost only from the front, at most one for each block walked,
/// and only where that block stands in the place of the run's newest block, with
/// another hash, or below it.
pub proof fn law_only_replaced_runs_are_dropped<E>(sender: BlockRunSenderView, block: BlockView)
    requires
        sender.phase == Phase::Walking,
        !joins(block, sender.runs),
    ensures
        ({
            let next = sender.next::<E>(RunEventView::Block(Ok(Some(block)))).0;
            ||| next.runs == sender.runs
            ||| {
                let run = sender.runs.first();
                &&& sender.runs.len() > 0
                &&& next.runs == sender.runs.drop_first()
                &&& block.block_number < run.newest_block_number || (block.block_number
                    == run.newest_block_number && block.hash != run.newest_block_hash)
            }
        }),
{
}

/// A failure ends the stream: it is sent, once, and nothing after it. There is one
/// exactly when outside work fails or the first block is not stored.
pub proof fn law_failures_end_the_stream<E>(
    sender: BlockRunSenderView,
    event: RunEventView<E>,
    after: RunEventView<E>,
)
    requires
        sender.waits_for(event),
        sender.phase != Phase::Failed,
    ensures
        ({
            let (next, step) = sender.next(event);
            let failure = match event {
                RunEventView::Summary(Err(e)) => Some(Failure::Outside(e)),
                RunEventView::Block(Err(e)) => Some(Failure::Outside(e)),
                RunEventView::Sent(Err(e)) => Some(Failure::Outside(e)),
                RunEventView::Block(Ok(None)) => if sender.phase is FirstBlock {
                    Some(Failure::Own(FigureError::MissingFirstBlock))
                } else {
                    None
                },
                _ => None,
            };
            match failure {
                Some(f) => {
                    &&& step == RunStepView::Send(Err::<BlockRunView, Failure<E>>(f))
                    &&& next.next(after).1 == RunStepView::<E>::Finished
                    &&& next.next(after).0.phase == Phase::Done
                },
                None => !(step matches RunStepView::Send(Err(_))),
            }
        }),
{
}

/// The numbers of the blocks in the buffer do not rise, and there are none where they
/// have just been sent.
pub open spec fn falling(sender: BlockRunSenderView) -> bool {
    &&& forall|i: int, j: int|
        0 <= i <= j < sender.buffer.len() ==> #[trigger] sender.buffer[i].block_number
            >= #[trigger] sender.buffer[j].block_number
    &&& sender.sends_built() || sender.phase is Cached ==> sender.buffer.len() == 0
}

/// A chain whose numbers do not rise from a block to its predecessor can be walked: a
/// sender can then be told whatever it waits for.
pub proof fn law_walks_back_are_accepted<E>(sender: BlockRunSenderView, event: RunEventView<E>)
    requires
        falling(sender),
        sender.waits_for(event),
        sender.phase is Walking && sender.buffer.len() > 0 ==> (event matches RunEventView::Block(
            Ok(Some(block)),
        ) ==> block.block_number <= sender.buffer.last().block_number),
    ensures
        sender.accepts(event),
        falling(sender.next(event).0),
{
}

/// A sender that has not started yet has no block.
pub proof fn law_new_sender_is_falling(start: u64)
    ensures
        falling(BlockRunSenderView::initial(start)),
{
}

/// The runs that a sender sends from now on where all that it sends arrives and no
/// block is asked for any more.
pub open spec fn sent_on<E>(sender: BlockRunSenderView) -> Seq<BlockRunView>
    decreases sender.runs.len(),
{
    let (next, step) = sender.next::<E>(RunEventView::Sent(Ok(())));
    match step {
        RunStepView::Send(Ok(run)) => if next.runs.len() < sender.runs.len() {
            seq![run] + sent_on::<E>(next)
        } else {
            seq![run]
        },
        _ => seq![],
    }
}

/// The runs that a sender sends where the blocks that it asks for are, in turn, the
/// given ones, the one after them is not stored, and all that it sends arrives.
pub open spec fn sent_over<E>(sender: BlockRunSenderView, blocks: Seq<BlockView>) -> Seq<
    BlockRunView,
>
    decreases blocks.len(),
{
    let (next, step) = if blocks.len() == 0 {
        sender.next::<E>(RunEventView::Block(Ok(None)))
    } else {
        sender.next::<E>(RunEventView::Block(Ok(Some(blocks.first()))))
    };
    let now = match step {
        RunStepView::Send(Ok(run)) => seq![run],
        _ => seq![],
    };
    let later = match next.phase {
        Phase::Aged(Some(_)) => next.next::<E>(RunEventView::Sent(Ok(()))).0,
        _ => next,
    };
    if later.phase is Walking && blocks.len() > 0 {
        now + sent_over::<E>(later, blocks.drop_first())
    } else {
        now + sent_on::<E>(next)
    }
}

/// The cached runs, if any were stored.
pub open spec fn cached_runs(cached: Option<Seq<BlockRunView>>) -> Seq<BlockRunView> {
    match cached {
        Some(runs) => runs,
        None => seq![],
    }
}

/// The runs that a new sender sends in all, where the cached runs are the given ones,
/// the stored blocks are the given ones from the first on, and all that it sends
/// arrives.
pub open spec fn sent_from<E>(
    start: u64,
    cached: Option<Seq<BlockRunView>>,
    blocks: Seq<BlockView>,
) -> Seq<BlockRunView> {
    let loaded = BlockRunSenderView::initial(start).next::<E>(RunEventView::Summary(Ok(cached))).0;
    let walking = loaded.next::<E>(RunEventView::Block(Ok(Some(blocks.first())))).0;
    sent_over::<E>(walking, blocks)
}

/// The runs of stretches of blocks, each stretch with its newest block first.
pub open spec fn runs_of_stretches(stretches: Seq<Seq<BlockView>>) -> Seq<BlockRunView> {
    stretches.map_values(|blocks: Seq<BlockView>| summary(blocks))
}

/// The stretches that blocks are cut into, with `held` the blocks before them and `last`
/// the time of the block before those: a stretch ends at the first block that is old
/// enough, and the blocks that are left at the end are a stretch too.
pub open spec fn cut_up(held: Seq<BlockView>, blocks: Seq<BlockView>, last: u64) -> Seq<
    Seq<BlockView>,
>
    decreases blocks.len(),
{
    if blocks.len() == 0 {
        if held.len() == 0 {
            seq![]
        } else {
            seq![held]
        }
    } else {
        let (block, rest) = (blocks.first(), blocks.drop_first());
        if aged(block.timestamp, last) {
            seq![held.push(block)] + cut_up(seq![], rest, block.timestamp)
        } else {
            cut_up(held.push(block), rest, last)
        }
    }
}

/// All blocks but the last name a predecessor.
pub open spec fn linked(blocks: Seq<BlockView>) -> bool {
    forall|i: int|
        0 <= i < blocks.len() - 1 ==> (#[trigger] blocks[i]).prev_block_number is Some
}

/// The cached runs that are left once blocks that do not join them were seen.
pub open spec fn survivors(blocks: Seq<BlockView>, runs: Seq<BlockRunView>) -> Seq<BlockRunView>
    decreases blocks.len(),
{
    if blocks.len() == 0 {
        runs
    } else {
        survivors(blocks.drop_first(), surviving(blocks.first(), runs))
    }
}

/// None of the blocks joins the cached runs that are left when it is walked to.
pub open spec fn apart(blocks: Seq<BlockView>, runs: Seq<BlockRunView>) -> bool
    decreases blocks.len(),
{
    blocks.len() > 0 ==> {
        &&& !joins(blocks.first(), runs)
        &&& apart(blocks.drop_first(), surviving(blocks.first(), runs))
    }
}

/// Cutting blocks up leaves none out, keeps their order, and leaves no stretch empty.
proof fn lemma_cut_up(held: Seq<BlockView>, blocks: Seq<BlockView>, last: u64)
    ensures
        cut_up(held, blocks, last).flatten() == held + blocks,
        none_empty(cut_up(held, blocks, last)),
    decreases blocks.len(),
{
    let out = cut_up(held, blocks, last);
    if blocks.len() == 0 {
        out.lemma_flatten_one_element();
        assert(held + blocks =~= held);
    } else {
        let (block, rest) = (blocks.first(), blocks.drop_first());
        assert(held.push(block) + rest =~= held + blocks);
        if aged(block.timestamp, last) {
            let later = cut_up(seq![], rest, block.timestamp);
            lemma_cut_up(seq![], rest, block.timestamp);
            assert(out.drop_first() =~= later);
            assert(out.flatten() =~= held + blocks);
        } else {
            lemma_cut_up(held.push(block), rest, last);
        }
    }
}

/// The runs of stretches hold as many blocks as the stretches do.
proof fn lemma_run_blocks_of_stretches(stretches: Seq<Seq<BlockView>>)
    requires
        stretches.flatten().len() <= u64::MAX,
    ensures
        run_blocks(runs_of_stretches(stretches)) == stretches.flatten().len(),
    decreases stretches.len(),
{
    if stretches.len() > 0 {
        let (first, rest) = (stretches.first(), stretches.drop_first());
        let one = seq![summary(first)];
        lemma_run_blocks_of_stretches(rest);
        lemma_run_counts_concat(one, runs_of_stretches(rest));
        assert(one + runs_of_stretches(rest) =~= runs_of_stretches(stretches));
        reveal_with_fuel(run_blocks, 2);
        assert(one.drop_last() =~= seq![]);
    }
}

/// What is sent of a walk that comes to its end.
proof fn lemma_sent_over<E>(sender: BlockRunSenderView, blocks: Seq<BlockView>)
    requires
        sender.phase == Phase::Walking,
        linked(blocks),
        apart(blocks, sender.runs),
    ensures
        sent_over::<E>(sender, blocks) == runs_of_stretches(
            cut_up(sender.buffer, blocks, sender.last_timestamp),
        ),
    decreases blocks.len(),
{
    if blocks.len() > 0 {
        let (block, rest) = (blocks.first(), blocks.drop_first());
        let next = sender.next::<E>(RunEventView::Block(Ok(Some(block)))).0;
        if block.prev_block_number is Some {
            let later = if aged(block.timestamp, sender.last_timestamp) {
                next.next::<E>(RunEventView::Sent(Ok(()))).0
            } else {
                next
            };
            lemma_sent_over::<E>(later, rest);
        } else {
            assert(blocks[0] == block);
            assert(rest.len() == 0);
            reveal_with_fuel(cut_up, 2);
        }
    }
    assert(sent_over::<E>(sender, blocks) =~= runs_of_stretches(
        cut_up(sender.buffer, blocks, sender.last_timestamp),
    ));
}

/// The runs that a sender builds are those of stretches of the blocks walked that
/// follow each other without a gap, share no block, and together are all of them.
/// A stretch ends at the first block that is old enough, and at the end of the walk.
/// Each block is counted in one run. Cached runs that are never joined are not sent.
pub proof fn law_runs_partition_the_walk<E>(
    start: u64,
    cached: Option<Seq<BlockRunView>>,
    blocks: Seq<BlockView>,
)
    requires
        blocks.len() > 0,
        linked(blocks),
        apart(blocks, cached_runs(cached)),
    ensures
        ({
            let stretches = cut_up(seq![], blocks, blocks.first().timestamp);
            let sent = sent_from::<E>(start, cached, blocks);
            &&& sent == runs_of_stretches(stretches)
            &&& stretches.flatten() == blocks
            &&& none_empty(stretches)
            &&& blocks.len() <= u64::MAX ==> run_blocks(sent) == blocks.len()
        }),
{
    let loaded = BlockRunSenderView::initial(start).next::<E>(RunEventView::Summary(Ok(cached))).0;
    let walking = loaded.next::<E>(RunEventView::Block(Ok(Some(blocks.first())))).0;
    let stretches = cut_up(seq![], blocks, blocks.first().timestamp);
    lemma_sent_over::<E>(walking, blocks);
    lemma_cut_up(seq![], blocks, blocks.first().timestamp);
    assert(Seq::<BlockView>::empty() + blocks =~= blocks);
    if blocks.len() <= u64::MAX {
        lemma_run_blocks_of_stretches(stretches);
    }
}

/// Once the walk has joined them, all cached runs that are left are sent.
proof fn lemma_cached_sent<E>(sender: BlockRunSenderView)
    requires
        sender.phase == Phase::Cached || sender.phase == Phase::Joined,
    ensures
        sent_on::<E>(sender) == sender.runs,
    decreases sender.runs.len(),
{
    if sender.runs.len() > 0 {
        let next = sender.next::<E>(RunEventView::Sent(Ok(()))).0;
        lemma_cached_sent::<E>(next);
        assert(seq![sender.runs.first()] + sender.runs.drop_first() =~= sender.runs);
    } else {
        assert(sent_on::<E>(sender) =~= sender.runs);
    }
}

/// What is sent of a walk that joins the cached runs.
proof fn lemma_sent_over_to_join<E>(
    sender: BlockRunSenderView,
    above: Seq<BlockView>,
    joint: BlockView,
)
    requires
        sender.phase == Phase::Walking,
        linked(above.push(joint)),
        apart(above, sender.runs),
        joins(joint, survivors(above, sender.runs)),
    ensures
        sent_over::<E>(sender, above.push(joint)) == runs_of_stretches(
            cut_up(sender.buffer, above, sender.last_timestamp),
        ) + survivors(above, sender.runs),
    decreases above.len(),
{
    let blocks = above.push(joint);
    let block = blocks.first();
    let next = sender.next::<E>(RunEventView::Block(Ok(Some(block)))).0;
    if above.len() > 0 {
        let rest = above.drop_first();
        assert(blocks[0] == block);
        assert(blocks.drop_first() =~= rest.push(joint));
        let later = if aged(block.timestamp, sender.last_timestamp) {
            next.next::<E>(RunEventView::Sent(Ok(()))).0
        } else {
            next
        };
        lemma_sent_over_to_join::<E>(later, rest, joint);
    } else {
        lemma_cached_sent::<E>(next);
        assert(seq![sender.runs.first()] + sender.runs.drop_first() =~= sender.runs);
    }
    assert(sent_over::<E>(sender, blocks) =~= runs_of_stretches(
        cut_up(sender.buffer, above, sender.last_timestamp),
    ) + survivors(above, sender.runs));
}

/// A walk that comes to the newest block of the cached runs stops there: it sends the
/// runs of the blocks above that one, and then all cached runs that are left, unchanged
/// and in order. Where the first block is that one already, it sends the cached runs
/// alone.
pub proof fn law_cached_runs_follow_the_built_ones<E>(
    start: u64,
    cached: Option<Seq<BlockRunView>>,
    above: Seq<BlockView>,
    joint: BlockView,
)
    requires
        linked(above.push(joint)),
        apart(above, cached_runs(cached)),
        joins(joint, survivors(above, cached_runs(cached))),
    ensures
        ({
            let stretches = cut_up(seq![], above, above.push(joint).first().timestamp);
            &&& sent_from::<E>(start, cached, above.push(joint)) == runs_of_stretches(stretches)
                + survivors(above, cached_runs(cached))
            &&& stretches.flatten() == above
            &&& none_empty(stretches)
        }),
{
    let blocks = above.push(joint);
    let loaded = BlockRunSenderView::initial(start).next::<E>(RunEventView::Summary(Ok(cached))).0;
    let walking = loaded.next::<E>(RunEventView::Block(Ok(Some(blocks.first())))).0;
    lemma_sent_over_to_join::<E>(walking, above, joint);
    lemma_cut_up(seq![], above, blocks.first().timestamp);
    assert(Seq::<BlockView>::empty() + above =~= above);
}

/// A run tells of its blocks: the number, hash and time of the first, the time and the
/// predecessor of the last, and how many blocks and transactions there are.
pub proof fn law_run_tells_of_its_blocks(blocks: Seq<BlockView>)
    requires
        0 < blocks.len() <= 0xffff_ffff_ffff_ffff,
    ensures
        ({
            let run = summary(blocks);
            let (first, last) = (blocks[0], blocks[blocks.len() - 1]);
            &&& run.newest_block_number == first.block_number
            &&& run.newest_block_hash == first.hash
            &&& run.newest_block_timestamp == first.timestamp
            &&& run.oldest_block_timestamp == last.timestamp
            &&& run.prev_block is None <==> last.prev_block_number is None
            &&& run.prev_block matches Some(prev) ==> {
                &&& Some(prev.prev_block_number) == last.prev_block_number
                &&& prev.prev_block_hash == last.parent_hash
            }
            &&& run.num_blocks == blocks.len()
            &&& block_txs(blocks) <= 0xffff_ffff_ffff_ffff ==> run.num_txs == block_txs(blocks)
            &&& block_txs(blocks) > 0xffff_ffff_ffff_ffff ==> run.num_txs == 0xffff_ffff_ffff_ffff
        }),
        descending(blocks) <==> blocks[0].block_number >= blocks[blocks.len() - 1].block_number,
{
}

/// A new sender first asks for the cached runs, then for the block that it starts from, to
/// measure times from, and then walks from that block on.
pub proof fn law_sender_starts_at_its_block<E>(
    start: u64,
    cached: Option<Seq<BlockRunView>>,
    block: BlockView,
)
    ensures
        ({
            let (loaded, first) = BlockRunSenderView::initial(start).next::<E>(
                RunEventView::Summary(Ok(cached)),
            );
            let (walking, second) = loaded.next::<E>(RunEventView::Block(Ok(Some(block))));
            let (failed, third) = loaded.next::<E>(RunEventView::Block(Ok(None)));
            &&& BlockRunSenderView::initial(start).phase == Phase::Summary
            &&& first == RunStepView::<E>::LoadBlock(start)
            &&& loaded.phase == Phase::FirstBlock
            &&& second == RunStepView::<E>::LoadBlock(start)
            &&& walking.phase == Phase::Walking
            &&& walking.start == start
            &&& walking.block_number == start
            &&& walking.last_timestamp == block.timestamp
            &&& walking.buffer.len() == 0
            &&& cached is None ==> walking.runs.len() == 0
            &&& cached matches Some(runs) ==> walking.runs == runs
            &&& third == RunStepView::Send(
                Err::<BlockRunView, Failure<E>>(Failure::Own(FigureError::MissingFirstBlock)),
            )
            &&& failed.phase == Phase::Failed
        }),
{
}

/// A walk goes on to the predecessor that a block names, whatever its number is. It does
/// so unless the block joins the cached runs, names no predecessor, or ends a run by its
/// age; in that last case it goes on to the predecessor once the run was sent. The number
/// asked for is the one that the sender remembers.
pub proof fn law_walk_asks_for_the_predecessor<E>(
    sender: BlockRunSenderView,
    block: BlockView,
    number: u64,
)
    requires
        sender.phase == Phase::Walking,
        block.prev_block_number == Some(number),
        sender.runs.len() == 0 || block.block_number != sender.runs[0].newest_block_number
            || block.hash != sender.runs[0].newest_block_hash,
    ensures
        ({
            let (next, step) = sender.next::<E>(RunEventView::Block(Ok(Some(block))));
            let (later, then) = next.next::<E>(RunEventView::Sent(Ok(())));
            if block.timestamp == 0 || block.timestamp + 3600 <= sender.last_timestamp {
                &&& step is Send
                &&& then == RunStepView::<E>::LoadBlock(number)
                &&& later.phase == Phase::Walking
                &&& later.block_number == number
            } else {
                &&& step == RunStepView::<E>::LoadBlock(number)
                &&& next.phase == Phase::Walking
                &&& next.block_number == number
            }
        }),
{
}

/// Whatever a sender is told, a block that it asks for while it walks is the one whose
/// number it remembers: the start, or the predecessor of the block walked to last.
pub proof fn law_sender_asks_for_the_number_it_remembers<E>(
    sender: BlockRunSenderView,
    event: RunEventView<E>,
    stored: Map<u64, BlockView>,
    sent: Seq<Seq<BlockView>>,
)
    requires
        follows(sender, stored, sent),
        sender.accepts(event),
        truthful(sender, event, stored),
    ensures
        ({
            let (next, step) = sender.next(event);
            let built = sender.gathered(event);
            let walked = sent.flatten() + built;
            step matches RunStepView::LoadBlock(number) ==> if next.phase is Walking {
                &&& number == next.block_number
                &&& walked.len() == 0 ==> number == sender.start
                &&& walked.len() > 0 ==> walked[walked.len() - 1].prev_block_number == Some(number)
            } else {
                &&& next.phase == Phase::FirstBlock
                &&& number == sender.start
            }
        }),
{
    law_runs_are_contiguous(sender, event, stored, sent);
}

/// The block that a walk comes to by its fields. Cached runs are joined exactly where it
/// has both the number and the hash of the newest block of the first of them: the blocks
/// gathered are then sent, if there are any, and the cached runs are kept to be sent. Any
/// other block is gathered; the first cached run is then dropped where the block's number
/// is the same or lower.
pub proof fn law_walk_joins_by_number_and_hash<E>(sender: BlockRunSenderView, block: BlockView)
    requires
        sender.phase == Phase::Walking,
    ensures
        ({
            let (next, step) = sender.next::<E>(RunEventView::Block(Ok(Some(block))));
            let same = sender.runs.len() > 0 && block.block_number
                == sender.runs[0].newest_block_number && block.hash
                == sender.runs[0].newest_block_hash;
            let gathered = sender.buffer.push(block);
            &&& same && sender.buffer.len() == 0 ==> {
                &&& step == RunStepView::<E>::Send(Ok(sender.runs[0]))
                &&& next.phase == Phase::Cached
                &&& next.runs == sender.runs.skip(1)
                &&& next.buffer.len() == 0
            }
            &&& same && sender.buffer.len() > 0 ==> {
                &&& step == RunStepView::<E>::Send(Ok(summary(sender.buffer)))
                &&& next.phase == Phase::Joined
                &&& next.runs == sender.runs
                &&& next.buffer.len() == 0
            }
            &&& !same ==> {
                &&& next.phase is Walking || next.phase is Aged || next.phase is Last
                &&& sender.runs.len() > 0 && block.block_number
                    <= sender.runs[0].newest_block_number ==> next.runs == sender.runs.skip(1)
                &&& sender.runs.len() > 0 && block.block_number
                    > sender.runs[0].newest_block_number ==> next.runs == sender.runs
                &&& sender.runs.len() == 0 ==> next.runs == sender.runs
                &&& next.phase is Walking ==> {
                    &&& next.buffer == gathered
                    &&& next.last_timestamp == sender.last_timestamp
                }
                &&& !(next.phase is Walking) ==> {
                    &&& step == RunStepView::<E>::Send(Ok(summary(gathered)))
                    &&& next.buffer.len() == 0
                    &&& next.last_timestamp == block.timestamp
                }
            }
        }),
{
    assert(sender.runs.len() > 0 ==> sender.runs.drop_first() =~= sender.runs.skip(1));
}

/// A gathered block ends a run exactly where its time is zero, or an hour or more before
/// the time measured from, or it names no predecessor; in the first two cases the walk goes
/// on to the predecessor once the run was sent.
pub proof fn law_runs_end_by_age_or_at_the_end<E>(sender: BlockRunSenderView, block: BlockView)
    requires
        sender.phase == Phase::Walking,
        sender.runs.len() == 0 || block.block_number != sender.runs[0].newest_block_number
            || block.hash != sender.runs[0].newest_block_hash,
    ensures
        ({
            let next = sender.next::<E>(RunEventView::Block(Ok(Some(block)))).0;
            let old = block.timestamp == 0 || block.timestamp + 3600 <= sender.last_timestamp;
            &&& old ==> next.phase == Phase::Aged(block.prev_block_number)
            &&& !old && block.prev_block_number is None ==> next.phase == Phase::Last
            &&& !old && block.prev_block_number is Some ==> next.phase == Phase::Walking
        }),
{
}

/// Where the block asked for is not stored, the walk ends: what was gathered is sent, if
/// there is any.
pub proof fn law_walk_ends_where_nothing_is_stored<E>(sender: BlockRunSenderView)
    requires
        sender.phase == Phase::Walking,
    ensures
        ({
            let (next, step) = sender.next::<E>(RunEventView::Block(Ok(None)));
            &&& sender.buffer.len() == 0 ==> step is Finished && next.phase == Phase::Done
            &&& sender.buffer.len() > 0 ==> {
                &&& step == RunStepView::<E>::Send(Ok(summary(sender.buffer)))
                &&& next.phase == Phase::Last
                &&& next.buffer.len() == 0
            }
        }),
{
}

/// Once something was sent: after a run that ended by age the walk goes on, or ends where
/// there is no predecessor; after the last run there is nothing more; after a run that
/// joins the cached ones, and after each of those, the next cached run is sent, while there
/// is one; after a failure there is nothing more.
pub proof fn law_what_follows_a_run<E>(sender: BlockRunSenderView)
    requires
        sender.buffer.len() == 0,
    ensures
        ({
            let (next, step) = sender.next::<E>(RunEventView::Sent(Ok(())));
            &&& sender.phase matches Phase::Aged(Some(number)) ==> {
                &&& step == RunStepView::<E>::LoadBlock(number)
                &&& next.phase == Phase::Walking
                &&& next.block_number == number
                &&& next.buffer.len() == 0
                &&& next.runs == sender.runs
                &&& next.last_timestamp == sender.last_timestamp
            }
            &&& sender.phase == Phase::Aged(None) || sender.phase is Last || sender.phase is Failed
                ==> step is Finished && next.phase == Phase::Done
            &&& sender.phase is Joined || sender.phase is Cached ==> if sender.runs.len() == 0 {
                step is Finished && next.phase == Phase::Done
            } else {
                &&& step == RunStepView::<E>::Send(Ok(sender.runs[0]))
                &&& next.phase == Phase::Cached
                &&& next.runs == sender.runs.skip(1)
            }
        }),
{
    assert(sender.runs.len() > 0 ==> sender.runs.drop_first() =~= sender.runs.skip(1));
}

/// What a sender waits for, and which of it is refused: only a block, or the end of a walk,
/// after which a run would be sent whose first block has a lower number than its last.
pub proof fn law_what_a_sender_accepts<E>(
    sender: BlockRunSenderView,
    event: RunEventView<E>,
    block: BlockView,
)
    ensures
        sender.waits_for(event) <==> match sender.phase {
            Phase::Summary => event is Summary,
            Phase::FirstBlock | Phase::Walking => event is Block,
            Phase::Done => false,
            _ => event is Sent,
        },
        sender.phase is Walking ==> {
            let first = if sender.buffer.len() == 0 {
                block.block_number
            } else {
                sender.buffer[0].block_number
            };
            let same = sender.runs.len() > 0 && block.block_number
                == sender.runs[0].newest_block_number && block.hash
                == sender.runs[0].newest_block_hash;
            let in_order = sender.buffer.len() == 0 || first >= sender.buffer[sender.buffer.len()
                - 1].block_number;
            let ends = block.timestamp == 0 || block.timestamp + 3600 <= sender.last_timestamp
                || block.prev_block_number is None;
            &&& sender.accepts::<E>(RunEventView::Block(Ok(None))) <==> in_order
            &&& same ==> (sender.accepts::<E>(RunEventView::Block(Ok(Some(block)))) <==> in_order)
            &&& !same ==> (sender.accepts::<E>(RunEventView::Block(Ok(Some(block)))) <==> !ends
                || first >= block.block_number)
        },
        !(sender.phase is Walking) && sender.buffer.len() == 0 ==> (sender.accepts(event)
            <==> sender.waits_for(event)),
        sender.phase is Walking && event is Block && event->Block_0 is Err ==> sender.accepts(event),
{
}

/// The views of what a sender is told and of what it wants done show their parts as they
/// are.
pub proof fn law_sender_views_show_the_parts<E>(
    cached: BlockRunSummary,
    block: Block,
    run: BlockRun,
    failure: Failure<E>,
    result: Result<(), E>,
    e: E,
    number: u64,
)
    ensures
        RunEvent::<E>::Summary(Ok(Some(cached)))@ == RunEventView::<E>::Summary(
            Ok(Some(run_views(cached.block_runs@))),
        ),
        RunEvent::<E>::Summary(Ok(None))@ == RunEventView::<E>::Summary(Ok(None)),
        RunEvent::<E>::Summary(Err(e))@ == RunEventView::<E>::Summary(Err(e)),
        RunEvent::<E>::Block(Ok(Some(block)))@ == RunEventView::<E>::Block(Ok(Some(block@))),
        RunEvent::<E>::Block(Ok(None))@ == RunEventView::<E>::Block(Ok(None)),
        RunEvent::<E>::Block(Err(e))@ == RunEventView::<E>::Block(Err(e)),
        RunEvent::Sent(result)@ == RunEventView::Sent(result),
        RunStep::<E>::LoadSummary@ == RunStepView::<E>::LoadSummary,
        RunStep::<E>::LoadBlock(number)@ == RunStepView::<E>::LoadBlock(number),
        RunStep::<E>::Send(Ok(run))@ == RunStepView::<E>::Send(Ok(run@)),
        RunStep::Send(Err(failure))@ == RunStepView::Send(Err(failure)),
        RunStep::<E>::Finished@ == RunStepView::<E>::Finished,
{
}

/// What a step is answered from a store of blocks with the given cached runs, where all
/// that is sent arrives.
pub open spec fn answer<E>(
    step: RunStepView<E>,
    cached: Option<Seq<BlockRunView>>,
    stored: Map<u64, BlockView>,
) -> RunEventView<E> {
    match step {
        RunStepView::LoadSummary => RunEventView::Summary(Ok(cached)),
        RunStepView::LoadBlock(number) => RunEventView::Block(
            Ok(
                if stored.contains_key(number) {
                    Some(stored[number])
                } else {
                    None
                },
            ),
        ),
        _ => RunEventView::Sent(Ok(())),
    }
}

/// The runs that a sender sends where each of its steps, from the given one on, is answered
/// from a store; nothing where it fails or does not come to its end in so many steps.
pub open spec fn served<E>(
    sender: BlockRunSenderView,
    step: RunStepView<E>,
    cached: Option<Seq<BlockRunView>>,
    stored: Map<u64, BlockView>,
    steps: nat,
) -> Option<Seq<BlockRunView>>
    decreases steps,
{
    match step {
        RunStepView::Finished => Some(seq![]),
        RunStepView::Send(Err(_)) => None,
        _ => if steps == 0 {
            None
        } else {
            let (next, then) = sender.next::<E>(answer(step, cached, stored));
            match served(next, then, cached, stored, (steps - 1) as nat) {
                Some(later) => match step {
                    RunStepView::Send(Ok(run)) => Some(seq![run] + later),
                    _ => Some(later),
                },
                None => None,
            }
        },
    }
}

/// What is served once a run was handed out after which no block is asked for any more.
proof fn lemma_served_on<E>(
    sender: BlockRunSenderView,
    run: BlockRunView,
    cached: Option<Seq<BlockRunView>>,
    stored: Map<u64, BlockView>,
    steps: nat,
)
    requires
        sender.buffer.len() == 0,
        sender.phase == Phase::Aged(None) || sender.phase is Last || sender.phase is Joined
            || sender.phase is Cached,
        steps >= sender.runs.len() + 1,
    ensures
        served(sender, RunStepView::<E>::Send(Ok(run)), cached, stored, steps) == Some(
            seq![run] + sent_on::<E>(sender),
        ),
    decreases sender.runs.len(),
{
    let (next, then) = sender.next::<E>(RunEventView::Sent(Ok(())));
    if (sender.phase is Joined || sender.phase is Cached) && sender.runs.len() > 0 {
        lemma_served_on::<E>(next, sender.runs.first(), cached, stored, (steps - 1) as nat);
    } else {
        assert(served(next, then, cached, stored, (steps - 1) as nat) == Some(
            sent_on::<E>(sender),
        ));
    }
}

/// What is served of a walk whose next block is the one of the given number.
proof fn lemma_served<E>(
    sender: BlockRunSenderView,
    number: u64,
    blocks: Seq<BlockView>,
    cached: Option<Seq<BlockRunView>>,
    stored: Map<u64, BlockView>,
    steps: nat,
)
    requires
        sender.phase == Phase::Walking,
        if blocks.len() == 0 {
            !stored.contains_key(number)
        } else {
            &&& stored.contains_key(number)
            &&& stored[number] == blocks[0]
            &&& apart(blocks.drop_last(), sender.runs)
            &&& {
                ||| blocks.last().prev_block_number is None
                ||| !stored.contains_key(blocks.last().prev_block_number->Some_0)
                ||| joins(blocks.last(), survivors(blocks.drop_last(), sender.runs))
            }
        },
        forall|i: int| 0 <= i < blocks.len() - 1 ==> #[trigger] preceded(stored, blocks, i),
        steps >= 2 * blocks.len() + sender.runs.len() + 3,
    ensures
        served(sender, RunStepView::<E>::LoadBlock(number), cached, stored, steps) == Some(
            sent_over::<E>(sender, blocks),
        ),
    decreases blocks.len(),
{
    let event = answer(RunStepView::<E>::LoadBlock(number), cached, stored);
    let (next, then) = sender.next::<E>(event);
    let fewer = (steps - 1) as nat;
    let all = served(sender, RunStepView::<E>::LoadBlock(number), cached, stored, steps);
    assert(all == served(next, then, cached, stored, fewer));
    if blocks.len() == 0 {
        if sender.buffer.len() > 0 {
            lemma_served_on::<E>(next, summary(sender.buffer), cached, stored, fewer);
        } else {
            assert(all == Some(Seq::<BlockRunView>::empty()));
            assert(sent_over::<E>(sender, blocks) =~= Seq::<BlockRunView>::empty());
        }
    } else {
        let (block, rest) = (blocks.first(), blocks.drop_first());
        assert(block == blocks[0]);
        let ends = blocks.len() == 1 && joins(block, sender.runs);
        if blocks.len() == 1 {
            assert(blocks.drop_last() =~= seq![]);
            assert(blocks.last() == block);
        } else {
            assert(blocks.drop_last().first() == block);
            assert(blocks.drop_last().drop_first() =~= rest.drop_last());
            assert(rest.last() == blocks.last());
            assert(preceded(stored, blocks, 0));
            assert(rest[0] == blocks[1]);
        }
        if ends {
            if sender.buffer.len() == 0 {
                lemma_served_on::<E>(next, sender.runs.first(), cached, stored, fewer);
            } else {
                lemma_served_on::<E>(next, summary(sender.buffer), cached, stored, fewer);
            }
        } else {
            let gathered = sender.buffer.push(block);
            assert forall|i: int| 0 <= i < rest.len() - 1 implies #[trigger] preceded(
                stored,
                rest,
                i,
            ) by {
                assert(preceded(stored, blocks, i + 1));
            }
            match block.prev_block_number {
                Some(before) => {
                    if aged(block.timestamp, sender.last_timestamp) {
                        let later = next.next::<E>(RunEventView::Sent(Ok(()))).0;
                        lemma_served::<E>(
                            later,
                            before,
                            rest,
                            cached,
                            stored,
                            (steps - 2) as nat,
                        );
                        assert(then == RunStepView::<E>::Send(Ok(summary(gathered))));
                    } else {
                        lemma_served::<E>(next, before, rest, cached, stored, fewer);
                        assert(sent_over::<E>(sender, blocks) =~= sent_over::<E>(next, rest));
                    }
                },
                None => {
                    assert(blocks.len() == 1);
                    lemma_served_on::<E>(next, summary(gathered), cached, stored, fewer);
                },
            }
        }
    }
}

/// A sender that is served from a store walks from block to stored predecessor. Let the
/// given blocks be those found from the start on by looking up, of each, the predecessor
/// that it names, to the first that names none, or one that is not stored, or that joins
/// the cached runs left by then. The runs sent in all are those sent over these blocks.
pub proof fn law_sender_walks_the_stored_predecessors<E>(
    start: u64,
    cached: Option<Seq<BlockRunView>>,
    stored: Map<u64, BlockView>,
    blocks: Seq<BlockView>,
    steps: nat,
)
    requires
        blocks.len() > 0,
        walked_from(stored, start, blocks),
        apart(blocks.drop_last(), cached_runs(cached)),
        blocks.last().prev_block_number is None || !stored.contains_key(
            blocks.last().prev_block_number->Some_0,
        ) || joins(blocks.last(), survivors(blocks.drop_last(), cached_runs(cached))),
        steps >= 2 * blocks.len() + cached_runs(cached).len() + 5,
    ensures
        served(
            BlockRunSenderView::initial(start),
            RunStepView::<E>::LoadSummary,
            cached,
            stored,
            steps,
        ) == Some(sent_from::<E>(start, cached, blocks)),
{
    let initial = BlockRunSenderView::initial(start);
    let loaded = initial.next::<E>(RunEventView::Summary(Ok(cached))).0;
    let walking = loaded.next::<E>(RunEventView::Block(Ok(Some(blocks.first())))).0;
    lemma_served::<E>(walking, start, blocks, cached, stored, (steps - 2) as nat);
    reveal_with_fuel(served, 3);
    assert(blocks.first() == stored[start]);
}

/// How blocks are cut up: each stretch but the last ends at a block that is old enough,
/// and no block before the end of a stretch is. Ages are measured from the end of the
/// stretch before, and at first from the time given.
pub proof fn law_stretches_end_at_old_blocks(
    blocks: Seq<BlockView>,
    last: u64,
    at: int,
    place: int,
)
    requires
        0 <= at < cut_up(seq![], blocks, last).len(),
        0 <= place < cut_up(seq![], blocks, last)[at].len(),
    ensures
        ({
            let stretches = cut_up(seq![], blocks, last);
            let from = if at == 0 {
                last
            } else {
                stretches[at - 1].last().timestamp
            };
            let time = stretches[at][place].timestamp;
            let old = time == 0 || time + 3600 <= from;
            &&& place < stretches[at].len() - 1 ==> !old
            &&& place == stretches[at].len() - 1 && at < stretches.len() - 1 ==> old
        }),
{
    lemma_stretches_end(seq![], blocks, last, at, place);
}

proof fn lemma_stretches_end(
    held: Seq<BlockView>,
    blocks: Seq<BlockView>,
    last: u64,
    at: int,
    place: int,
)
    requires
        forall|i: int|
            0 <= i < held.len() ==> (#[trigger] held[i]).timestamp != 0 && held[i].timestamp + 3600
                > last,
        0 <= at < cut_up(held, blocks, last).len(),
        0 <= place < cut_up(held, blocks, last)[at].len(),
    ensures
        ({
            let stretches = cut_up(held, blocks, last);
            let from = if at == 0 {
                last
            } else {
                stretches[at - 1].last().timestamp
            };
            let time = stretches[at][place].timestamp;
            let old = time == 0 || time + 3600 <= from;
            &&& place < stretches[at].len() - 1 ==> !old
            &&& place == stretches[at].len() - 1 && at < stretches.len() - 1 ==> old
        }),
    decreases blocks.len(),
{
    let stretches = cut_up(held, blocks, last);
    if blocks.len() > 0 {
        let (block, rest) = (blocks.first(), blocks.drop_first());
        let taken = held.push(block);
        if aged(block.timestamp, last) {
            let later = cut_up(seq![], rest, block.timestamp);
            assert(stretches =~= seq![taken] + later);
            if at > 0 {
                assert(stretches[at] == later[at - 1]);
                assert(at > 1 ==> stretches[at - 1] == later[at - 2]);
                assert(at == 1 ==> stretches[at - 1].last() == block);
                lemma_stretches_end(seq![], rest, block.timestamp, at - 1, place);
            } else if place < held.len() {
                assert(stretches[at][place] == held[place]);
            }
        } else {
            lemma_stretches_end(taken, rest, last, at, place);
        }
    }
}

} // verus!
