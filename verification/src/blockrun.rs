//! Block runs, and the sender that builds them from blocks.

use crate::db::{
    block_views, run_views, Block, BlockRun, BlockRunSummary, BlockRunView, BlockView,
    PreviousBlock, PreviousBlockView,
};
use crate::error::{Failure, FigureError};
use crate::totals::{block_txs, saturated, sum_block_txs};
use vstd::prelude::*;

verus! {

/// The seconds that a run should span at least.
pub const BLOCK_RUN_MIN_SECS: u64 = 3600;

/// The run of the given blocks, the newest first.
pub open spec fn summary(blocks: Seq<BlockView>) -> BlockRunView
    recommends
        blocks.len() > 0,
{
    BlockRunView {
        newest_block_number: blocks.first().block_number,
        newest_block_hash: blocks.first().hash,
        newest_block_timestamp: blocks.first().timestamp,
        oldest_block_timestamp: blocks.last().timestamp,
        prev_block: match blocks.last().prev_block_number {
            Some(number) => Some(
                PreviousBlockView {
                    prev_block_number: number,
                    prev_block_hash: blocks.last().parent_hash,
                },
            ),
            None => None,
        },
        num_blocks: blocks.len() as u64,
        num_txs: saturated(block_txs(blocks)),
    }
}

/// The number of the first block is not below that of the last.
pub open spec fn descending(blocks: Seq<BlockView>) -> bool {
    blocks.first().block_number >= blocks.last().block_number
}

/// The run of the given blocks, the newest first.
pub fn summarize(blocks: &Vec<Block>) -> (run: BlockRun)
    requires
        blocks.len() > 0,
        descending(block_views(blocks@)),
    ensures
        run@ == summary(block_views(blocks@)),
{
    let newest = &blocks[0];
    let oldest = &blocks[blocks.len() - 1];
    BlockRun {
        newest_block_number: newest.block_number,
        newest_block_hash: newest.hash.clone(),
        newest_block_timestamp: newest.timestamp,
        oldest_block_timestamp: oldest.timestamp,
        prev_block: match oldest.prev_block_number {
            Some(prev_block_number) => Some(
                PreviousBlock { prev_block_number, prev_block_hash: oldest.parent_hash.clone() },
            ),
            None => None,
        },
        num_blocks: blocks.len() as u64,
        num_txs: sum_block_txs(blocks),
    }
}

/// Where a sender of block runs stands.
#[derive(Debug, Clone, Copy, PartialEq, Eq, Structural)]
pub enum Phase {
    /// The cached runs are being loaded.
    Summary,
    /// The first block is being loaded, for its time.
    FirstBlock,
    /// A block is being loaded, to be added to the buffer.
    Walking,
    /// A run is being sent because it is old enough. The walk goes on at the number given.
    Aged(Option<u64>),
    /// A run is being sent because the walk has come to its end.
    Last,
    /// A run is being sent because the walk has come to the cached runs.
    Joined,
    /// A cached run is being sent.
    Cached,
    /// A failure is being sent.
    Failed,
    /// There is nothing left to do.
    Done,
}

/// What a sender of block runs is told.
pub enum RunEvent<E> {
    /// The cached runs were loaded.
    Summary(Result<Option<BlockRunSummary>, E>),
    /// A block was loaded.
    Block(Result<Option<Block>, E>),
    /// A run, or a failure, was sent.
    Sent(Result<(), E>),
}

/// What a sender of block runs wants done.
pub enum RunStep<E> {
    /// Load the cached runs.
    LoadSummary,
    /// Load the block of the given number.
    LoadBlock(u64),
    /// Send a run, or the failure that ends the stream.
    Send(Result<BlockRun, Failure<E>>),
    /// Nothing more.
    Finished,
}

/// The view of what a sender is told.
pub enum RunEventView<E> {
    Summary(Result<Option<Seq<BlockRunView>>, E>),
    Block(Result<Option<BlockView>, E>),
    Sent(Result<(), E>),
}

/// The view of what a sender wants done.
pub enum RunStepView<E> {
    LoadSummary,
    LoadBlock(u64),
    Send(Result<BlockRunView, Failure<E>>),
    Finished,
}

impl<E> View for RunEvent<E> {
    type V = RunEventView<E>;

    open spec fn view(&self) -> RunEventView<E> {
        match *self {
            RunEvent::Summary(Ok(Some(summary))) => RunEventView::Summary(Ok(Some(summary@))),
            RunEvent::Summary(Ok(None)) => RunEventView::Summary(Ok(None)),
            RunEvent::Summary(Err(e)) => RunEventView::Summary(Err(e)),
            RunEvent::Block(Ok(Some(block))) => RunEventView::Block(Ok(Some(block@))),
            RunEvent::Block(Ok(None)) => RunEventView::Block(Ok(None)),
            RunEvent::Block(Err(e)) => RunEventView::Block(Err(e)),
            RunEvent::Sent(result) => RunEventView::Sent(result),
        }
    }
}

impl<E> View for RunStep<E> {
    type V = RunStepView<E>;

    open spec fn view(&self) -> RunStepView<E> {
        match *self {
            RunStep::LoadSummary => RunStepView::LoadSummary,
            RunStep::LoadBlock(number) => RunStepView::LoadBlock(number),
            RunStep::Send(Ok(run)) => RunStepView::Send(Ok(run@)),
            RunStep::Send(Err(failure)) => RunStepView::Send(Err(failure)),
            RunStep::Finished => RunStepView::Finished,
        }
    }
}

/// Builds the runs of a chain from a given block back to the runs that are cached
/// of it, or to the chain's end, and sends them followed by the cached ones.
///
/// The blocks walked gather in a buffer until they are sent as a run; the next run
/// starts at the block after them.
pub struct BlockRunSender {
    start: u64,
    block_number: u64,
    last_timestamp: u64,
    buffer: Vec<Block>,
    runs: Vec<BlockRun>,
    phase: Phase,
}

/// The view of a sender.
#[verifier::ext_equal]
pub struct BlockRunSenderView {
    /// The number of the block that the walk starts from.
    pub start: u64,
    /// The number of the block that is asked for while walking.
    pub block_number: u64,
    /// The time of the oldest block of the run sent last, or of the first block.
    pub last_timestamp: u64,
    /// The blocks walked that no run was sent of yet, the newest first.
    pub buffer: Seq<BlockView>,
    /// The cached runs that may still be joined or sent, the newest first.
    pub runs: Seq<BlockRunView>,
    pub phase: Phase,
}

impl View for BlockRunSender {
    type V = BlockRunSenderView;

    closed spec fn view(&self) -> BlockRunSenderView {
        BlockRunSenderView {
            start: self.start,
            block_number: self.block_number,
            last_timestamp: self.last_timestamp,
            buffer: block_views(self.buffer@),
            runs: run_views(self.runs@),
            phase: self.phase,
        }
    }
}

/// The block is the newest one of the first of the cached runs.
pub open spec fn joins(block: BlockView, runs: Seq<BlockRunView>) -> bool {
    &&& runs.len() > 0
    &&& block.block_number == runs.first().newest_block_number
    &&& block.hash == runs.first().newest_block_hash
}

/// The cached runs that are left once a block that does not join them was seen:
/// the first one goes where the block stands in its place or below it.
pub open spec fn surviving(block: BlockView, runs: Seq<BlockRunView>) -> Seq<BlockRunView> {
    if runs.len() > 0 && block.block_number <= runs.first().newest_block_number {
        runs.drop_first()
    } else {
        runs
    }
}

/// A block this old ends a run, after one whose oldest block has the time `last`.
pub open spec fn aged(timestamp: u64, last: u64) -> bool {
    timestamp == 0 || timestamp + BLOCK_RUN_MIN_SECS <= last
}

impl BlockRunSenderView {
    /// A sender that has not started yet.
    pub open spec fn initial(start: u64) -> BlockRunSenderView {
        BlockRunSenderView {
            start,
            block_number: start,
            last_timestamp: 0,
            buffer: Seq::empty(),
            runs: Seq::empty(),
            phase: Phase::Summary,
        }
    }

    /// Sends the run of all blocks in the buffer, and empties it.
    pub open spec fn send_buffer<E>(self, phase: Phase) -> (BlockRunSenderView, RunStepView<E>) {
        (
            BlockRunSenderView {
                last_timestamp: self.buffer.last().timestamp,
                buffer: Seq::empty(),
                phase,
                ..self
            },
            RunStepView::Send(Ok(summary(self.buffer))),
        )
    }

    /// Ends the walk, with a run of the blocks in the buffer if there are any.
    pub open spec fn end<E>(self) -> (BlockRunSenderView, RunStepView<E>) {
        if self.buffer.len() == 0 {
            (BlockRunSenderView { phase: Phase::Done, ..self }, RunStepView::Finished)
        } else {
            self.send_buffer(Phase::Last)
        }
    }

    /// Walks on to the block of the given number, if there is one.
    pub open spec fn go_on<E>(self, number: Option<u64>) -> (BlockRunSenderView, RunStepView<E>) {
        match number {
            Some(block_number) => (
                BlockRunSenderView { block_number, phase: Phase::Walking, ..self },
                RunStepView::LoadBlock(block_number),
            ),
            None => self.end(),
        }
    }

    /// Sends the next of the cached runs.
    pub open spec fn send_cached<E>(self) -> (BlockRunSenderView, RunStepView<E>) {
        if self.runs.len() == 0 {
            (BlockRunSenderView { phase: Phase::Done, ..self }, RunStepView::Finished)
        } else {
            (
                BlockRunSenderView { runs: self.runs.drop_first(), phase: Phase::Cached, ..self },
                RunStepView::Send(Ok(self.runs.first())),
            )
        }
    }

    /// Sends a failure, which ends the stream.
    pub open spec fn fail<E>(self, failure: Failure<E>) -> (BlockRunSenderView, RunStepView<E>) {
        (BlockRunSenderView { phase: Phase::Failed, ..self }, RunStepView::Send(Err(failure)))
    }

    /// Takes a block that was walked to.
    pub open spec fn walk_to<E>(self, block: BlockView) -> (BlockRunSenderView, RunStepView<E>) {
        if joins(block, self.runs) {
            if self.buffer.len() == 0 {
                self.send_cached()
            } else {
                self.send_buffer(Phase::Joined)
            }
        } else {
            let taken = BlockRunSenderView {
                buffer: self.buffer.push(block),
                runs: surviving(block, self.runs),
                ..self
            };
            if aged(block.timestamp, self.last_timestamp) {
                taken.send_buffer(Phase::Aged(block.prev_block_number))
            } else {
                taken.go_on(block.prev_block_number)
            }
        }
    }

    /// The sender after it was told something, and what it then wants done.
    pub open spec fn next<E>(self, event: RunEventView<E>) -> (BlockRunSenderView, RunStepView<E>) {
        match (self.phase, event) {
            (Phase::Failed, _) => {
                (BlockRunSenderView { phase: Phase::Done, ..self }, RunStepView::Finished)
            },
            (_, RunEventView::Summary(Err(e))) => self.fail(Failure::Outside(e)),
            (_, RunEventView::Block(Err(e))) => self.fail(Failure::Outside(e)),
            (_, RunEventView::Sent(Err(e))) => self.fail(Failure::Outside(e)),
            (Phase::Summary, RunEventView::Summary(Ok(cached))) => (
                BlockRunSenderView {
                    runs: match cached {
                        Some(runs) => runs,
                        None => Seq::empty(),
                    },
                    phase: Phase::FirstBlock,
                    ..self
                },
                RunStepView::LoadBlock(self.start),
            ),
            (Phase::FirstBlock, RunEventView::Block(Ok(Some(block)))) => {
                BlockRunSenderView { last_timestamp: block.timestamp, ..self }.go_on(
                    Some(self.start),
                )
            },
            (Phase::FirstBlock, RunEventView::Block(Ok(None))) => {
                self.fail(Failure::Own(FigureError::MissingFirstBlock))
            },
            (Phase::Walking, RunEventView::Block(Ok(Some(block)))) => self.walk_to(block),
            (Phase::Walking, RunEventView::Block(Ok(None))) => self.end(),
            (Phase::Aged(number), RunEventView::Sent(Ok(_))) => self.go_on(number),
            (Phase::Joined, RunEventView::Sent(Ok(_))) => self.send_cached(),
            (Phase::Cached, RunEventView::Sent(Ok(_))) => self.send_cached(),
            (_, _) => (BlockRunSenderView { phase: Phase::Done, ..self }, RunStepView::Finished),
        }
    }

    /// The sender waits for this kind of event.
    pub open spec fn waits_for<E>(self, event: RunEventView<E>) -> bool {
        match self.phase {
            Phase::Summary => event is Summary,
            Phase::FirstBlock | Phase::Walking => event is Block,
            Phase::Done => false,
            _ => event is Sent,
        }
    }

    /// The blocks of which no run was sent before the sender is told this: those in
    /// the buffer, and the block that was walked to where it does not join the cached
    /// runs.
    pub open spec fn gathered<E>(self, event: RunEventView<E>) -> Seq<BlockView> {
        match (self.phase, event) {
            (Phase::Walking, RunEventView::Block(Ok(Some(block)))) => if joins(block, self.runs) {
                self.buffer
            } else {
                self.buffer.push(block)
            },
            (_, _) => self.buffer,
        }
    }

    /// The run that was built last is being sent.
    pub open spec fn sends_built(self) -> bool {
        self.phase is Aged || self.phase is Last || self.phase is Joined
    }

    /// The sender can be told this. It cannot be told what it does not wait for, nor
    /// anything after which it would send a run whose first block has a lower number
    /// than its last.
    pub open spec fn accepts<E>(self, event: RunEventView<E>) -> bool {
        &&& self.waits_for(event)
        &&& self.next(event).0.sends_built() ==> descending(self.gathered(event))
    }
}

impl BlockRunSender {
    /// A sender of the runs of a chain from the given block on, and the first thing
    /// that it wants done.
    pub fn new<E>(starting_block_number: u64) -> (result: (Self, RunStep<E>))
        ensures
            result.0@ == BlockRunSenderView::initial(starting_block_number),
            result.1@ == RunStepView::<E>::LoadSummary,
    {
        let sender = BlockRunSender {
            start: starting_block_number,
            block_number: starting_block_number,
            last_timestamp: 0,
            buffer: Vec::new(),
            runs: Vec::new(),
            phase: Phase::Summary,
        };
        assert(sender@.buffer =~= Seq::empty());
        assert(sender@.runs =~= Seq::empty());
        (sender, RunStep::LoadSummary)
    }

    /// Where the sender stands.
    pub fn phase(&self) -> (phase: Phase)
        ensures
            phase == self@.phase,
    {
        self.phase
    }

    /// Sends the run of all blocks in the buffer, and empties it.
    fn send_buffer<E>(&mut self, phase: Phase) -> (step: RunStep<E>)
        requires
            old(self)@.buffer.len() > 0,
            descending(old(self)@.buffer),
        ensures
            (final(self)@, step@) == old(self)@.send_buffer::<E>(phase),
    {
        let run = summarize(&self.buffer);
        self.last_timestamp = run.oldest_block_timestamp;
        self.buffer.clear();
        self.phase = phase;
        assert(self@.buffer =~= Seq::empty());
        RunStep::Send(Ok(run))
    }

    /// Ends the walk.
    fn end<E>(&mut self) -> (step: RunStep<E>)
        requires
            old(self)@.buffer.len() > 0 ==> descending(old(self)@.buffer),
        ensures
            (final(self)@, step@) == old(self)@.end::<E>(),
    {
        if self.buffer.len() == 0 {
            self.phase = Phase::Done;
            RunStep::Finished
        } else {
            self.send_buffer(Phase::Last)
        }
    }

    /// Walks on to the block of the given number, if there is one.
    fn go_on<E>(&mut self, number: Option<u64>) -> (step: RunStep<E>)
        requires
            number is None && old(self)@.buffer.len() > 0 ==> descending(old(self)@.buffer),
        ensures
            (final(self)@, step@) == old(self)@.go_on::<E>(number),
    {
        match number {
            Some(block_number) => {
                self.block_number = block_number;
                self.phase = Phase::Walking;
                RunStep::LoadBlock(block_number)
            },
            None => self.end(),
        }
    }

    /// Sends the next of the cached runs.
    fn send_cached<E>(&mut self) -> (step: RunStep<E>)
        ensures
            (final(self)@, step@) == old(self)@.send_cached::<E>(),
    {
        if self.runs.len() == 0 {
            self.phase = Phase::Done;
            RunStep::Finished
        } else {
            let run = self.runs.remove(0);
            self.phase = Phase::Cached;
            assert(self@.runs =~= old(self)@.runs.drop_first());
            RunStep::Send(Ok(run))
        }
    }

    /// Sends a failure.
    fn fail<E>(&mut self, failure: Failure<E>) -> (step: RunStep<E>)
        ensures
            (final(self)@, step@) == old(self)@.fail::<E>(failure),
    {
        self.phase = Phase::Failed;
        RunStep::Send(Err(failure))
    }

    /// The block is the newest one of the first of the cached runs.
    fn joins(&self, block: &Block) -> (yes: bool)
        ensures
            yes == joins(block@, self@.runs),
    {
        self.runs.len() > 0 && block.block_number == self.runs[0].newest_block_number
            && block.hash == self.runs[0].newest_block_hash
    }

    /// Takes a block that was walked to.
    fn walk_to<E>(&mut self, block: Block) -> (step: RunStep<E>)
        requires
            old(self)@.walk_to::<E>(block@).0.sends_built() ==> descending(
                if joins(block@, old(self)@.runs) {
                    old(self)@.buffer
                } else {
                    old(self)@.buffer.push(block@)
                },
            ),
        ensures
            (final(self)@, step@) == old(self)@.walk_to::<E>(block@),
    {
        if self.joins(&block) {
            if self.buffer.len() == 0 {
                return self.send_cached();
            }
            return self.send_buffer(Phase::Joined);
        }
        if self.runs.len() > 0 && block.block_number <= self.runs[0].newest_block_number {
            self.runs.remove(0);
            assert(self@.runs =~= old(self)@.runs.drop_first());
        }
        let timestamp: u64 = block.timestamp;
        let prev_block_number = block.prev_block_number;
        self.buffer.push(block);
        assert(self@.buffer =~= old(self)@.buffer.push(block@));
        if timestamp <= self.last_timestamp.saturating_sub(BLOCK_RUN_MIN_SECS) {
            self.send_buffer(Phase::Aged(prev_block_number))
        } else {
            self.go_on(prev_block_number)
        }
    }

    /// Tells the sender what it waits for; returns what it wants done then.
    pub fn advance<E>(&mut self, event: RunEvent<E>) -> (step: RunStep<E>)
        requires
            old(self)@.accepts(event@),
        ensures
            (final(self)@, step@) == old(self)@.next(event@),
    {
        match (self.phase, event) {
            (Phase::Failed, _) => {
                self.phase = Phase::Done;
                RunStep::Finished
            },
            (_, RunEvent::Summary(Err(e))) => self.fail(Failure::Outside(e)),
            (_, RunEvent::Block(Err(e))) => self.fail(Failure::Outside(e)),
            (_, RunEvent::Sent(Err(e))) => self.fail(Failure::Outside(e)),
            (Phase::Summary, RunEvent::Summary(Ok(cached))) => {
                self.runs = match cached {
                    Some(summary) => summary.block_runs,
                    None => Vec::new(),
                };
                assert(cached is None ==> self@.runs =~= Seq::empty());
                self.phase = Phase::FirstBlock;
                RunStep::LoadBlock(self.start)
            },
            (Phase::FirstBlock, RunEvent::Block(Ok(Some(block)))) => {
                self.last_timestamp = block.timestamp;
                let start: u64 = self.start;
                self.go_on(Some(start))
            },
            (Phase::FirstBlock, RunEvent::Block(Ok(None))) => {
                self.fail(Failure::Own(FigureError::MissingFirstBlock))
            },
            (Phase::Walking, RunEvent::Block(Ok(Some(block)))) => self.walk_to(block),
            (Phase::Walking, RunEvent::Block(Ok(None))) => self.end(),
            (Phase::Aged(number), RunEvent::Sent(Ok(_))) => self.go_on(number),
            (Phase::Joined, RunEvent::Sent(Ok(_))) => self.send_cached(),
            (Phase::Cached, RunEvent::Sent(Ok(_))) => self.send_cached(),
            (_, _) => {
                self.phase = Phase::Done;
                RunStep::Finished
            },
        }
    }

    /// A run from the first block in the buffer, if there is one, to a block of the
    /// given number would not ascend.
    fn descends_to(&self, last: u64) -> (yes: bool)
        ensures
            yes == (self@.buffer.len() > 0 ==> self@.buffer.first().block_number >= last),
    {
        self.buffer.len() == 0 || self.buffer[0].block_number >= last
    }

    /// The run of all blocks in the buffer, if there are any, can be sent.
    fn can_end(&self) -> (yes: bool)
        ensures
            yes == (self@.buffer.len() > 0 ==> descending(self@.buffer)),
    {
        self.buffer.len() == 0 || self.descends_to(self.buffer[self.buffer.len() - 1].block_number)
    }

    /// Whether the sender can be told this.
    pub fn can_advance<E>(&self, event: &RunEvent<E>) -> (yes: bool)
        ensures
            yes == self@.accepts(event@),
    {
        match (self.phase, event) {
            (Phase::Summary, RunEvent::Summary(_)) => true,
            (Phase::FirstBlock, RunEvent::Block(_)) => true,
            (Phase::Walking, RunEvent::Block(Err(_))) => true,
            (Phase::Walking, RunEvent::Block(Ok(None))) => self.can_end(),
            (Phase::Walking, RunEvent::Block(Ok(Some(block)))) => {
                if self.joins(block) {
                    self.can_end()
                } else {
                    let ends = block.timestamp <= self.last_timestamp.saturating_sub(
                        BLOCK_RUN_MIN_SECS,
                    ) || block.prev_block_number.is_none();
                    !ends || self.descends_to(block.block_number)
                }
            },
            (Phase::Aged(None), RunEvent::Sent(Ok(_))) => self.can_end(),
            (Phase::Aged(_), RunEvent::Sent(_)) => true,
            (Phase::Last, RunEvent::Sent(_)) => true,
            (Phase::Joined, RunEvent::Sent(_)) => true,
            (Phase::Cached, RunEvent::Sent(_)) => true,
            (Phase::Failed, RunEvent::Sent(_)) => true,
            (_, _) => false,
        }
    }
}

} // verus!
