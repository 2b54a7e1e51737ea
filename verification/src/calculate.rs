//! Transaction counts and rates, from blocks and from block runs.

use crate::db::{run_views, Block, BlockRun, BlockRunSummary, BlockRunView, BlockView};
use crate::error::{Failure, FigureError};
use crate::totals::{block_txs, run_txs, saturated};
use vstd::prelude::*;

verus! {

/// The seconds that a rate is taken over.
pub const SECONDS_PER_WEEK: u64 = 604_800;

/// A transaction rate, as a count and the seconds it was reached in.
#[derive(Debug, Clone, Copy, PartialEq, Eq, Structural)]
pub struct Tps {
    pub num_txs: u32,
    pub total_seconds: u32,
}

impl Tps {
    /// The rate is zero: there was no transaction, or no second has passed.
    pub open spec fn is_zero(self) -> bool {
        self.num_txs == 0 || self.total_seconds == 0
    }

    /// The rate as a fraction: the count over the seconds, and zero where no second
    /// has passed.
    pub open spec fn fraction(self) -> (u32, u32) {
        if self.total_seconds == 0 {
            (0, 1)
        } else {
            (self.num_txs, self.total_seconds)
        }
    }

    /// The numerator and the denominator of the rate. The denominator is never zero, and
    /// the numerator is zero exactly where the rate is.
    pub fn to_fraction(&self) -> (fraction: (u32, u32))
        ensures
            fraction == self.fraction(),
            fraction.1 > 0,
            fraction.0 == 0 <==> self.is_zero(),
            self.total_seconds > 0 ==> fraction.0 * self.total_seconds == self.num_txs * fraction.1,
            self.total_seconds == 0 ==> fraction.0 == 0,
    {
        if self.total_seconds == 0 {
            (0, 1)
        } else {
            (self.num_txs, self.total_seconds)
        }
    }
}

/// The rate of `num_txs` transactions between two times.
pub open spec fn tps(init_timestamp: u64, latest_timestamp: u64, num_txs: u64) -> Result<
    Tps,
    FigureError,
> {
    let seconds = if latest_timestamp > init_timestamp {
        latest_timestamp - init_timestamp
    } else {
        0
    };
    if seconds > u32::MAX {
        Err(FigureError::SecondsOverflow)
    } else if num_txs > u32::MAX {
        Err(FigureError::NumTxsOverflow)
    } else {
        Ok(Tps { num_txs: num_txs as u32, total_seconds: seconds as u32 })
    }
}

/// The rate of `num_txs` transactions between two times.
pub fn calculate_tps(init_timestamp: u64, latest_timestamp: u64, num_txs: u64) -> (result: Result<
    Tps,
    FigureError,
>)
    ensures
        result == tps(init_timestamp, latest_timestamp, num_txs),
        result matches Ok(rate) ==> rate.num_txs == num_txs,
        result matches Ok(rate) ==> if init_timestamp <= latest_timestamp {
            init_timestamp + rate.total_seconds == latest_timestamp
        } else {
            rate.total_seconds == 0
        },
        result is Ok <==> latest_timestamp - init_timestamp <= 0xffff_ffff && num_txs
            <= 0xffff_ffff,
        result matches Err(e) ==> e == if latest_timestamp - init_timestamp > 0xffff_ffff {
            FigureError::SecondsOverflow
        } else {
            FigureError::NumTxsOverflow
        },
{
    let total_seconds: u64 = latest_timestamp.saturating_sub(init_timestamp);
    if total_seconds > u32::MAX as u64 {
        return Err(FigureError::SecondsOverflow);
    }
    if num_txs > u32::MAX as u64 {
        return Err(FigureError::NumTxsOverflow);
    }
    Ok(Tps { num_txs: num_txs as u32, total_seconds: total_seconds as u32 })
}

/// The number of the highest block of a chain, where one is known.
pub fn highest_known_block(highest_block_number: Option<u64>) -> (result: Result<u64, FigureError>)
    ensures
        result == match highest_block_number {
            Some(number) => Ok::<u64, FigureError>(number),
            None => Err::<u64, FigureError>(FigureError::NoData),
        },
{
    match highest_block_number {
        Some(number) => Ok(number),
        None => Err(FigureError::NoData),
    }
}

/// What a rate is calculated of: the blocks from the highest one back for a week.
#[derive(Debug, PartialEq, Eq)]
pub struct Window {
    pub highest_block_number: u64,
    pub highest_block_hash: String,
    pub highest_block_timestamp: u64,
    pub min_timestamp: u64,
}

impl Clone for Window {
    fn clone(&self) -> (window: Self)
        ensures
            window == *self,
    {
        Window {
            highest_block_number: self.highest_block_number,
            highest_block_hash: self.highest_block_hash.clone(),
            highest_block_timestamp: self.highest_block_timestamp,
            min_timestamp: self.min_timestamp,
        }
    }
}

/// The view of a window.
#[verifier::ext_equal]
pub struct WindowView {
    pub highest_block_number: u64,
    pub highest_block_hash: Seq<char>,
    pub highest_block_timestamp: u64,
    pub min_timestamp: u64,
}

impl View for Window {
    type V = WindowView;

    open spec fn view(&self) -> WindowView {
        WindowView {
            highest_block_number: self.highest_block_number,
            highest_block_hash: self.highest_block_hash@,
            highest_block_timestamp: self.highest_block_timestamp,
            min_timestamp: self.min_timestamp,
        }
    }
}

/// The window that ends at the given block.
pub open spec fn window_of(highest_block_number: u64, block: BlockView) -> WindowView {
    WindowView {
        highest_block_number,
        highest_block_hash: block.hash,
        highest_block_timestamp: block.timestamp,
        min_timestamp: (block.timestamp - SECONDS_PER_WEEK) as u64,
    }
}

/// The window that ends at the highest block, as it was loaded.
pub fn calculation_window(highest_block_number: u64, highest_block: Option<Block>) -> (result:
    Result<Window, FigureError>)
    requires
        highest_block matches Some(block) ==> block.timestamp >= SECONDS_PER_WEEK,
    ensures
        match (highest_block, result) {
            (Some(block), Ok(window)) => {
                &&& window.highest_block_number == highest_block_number
                &&& window.highest_block_hash@ == block@.hash
                &&& window.highest_block_timestamp == block@.timestamp
                &&& window.min_timestamp == block@.timestamp - SECONDS_PER_WEEK
                &&& window@ == window_of(highest_block_number, block@)
            },
            (None, Err(e)) => e == FigureError::MissingFirstBlock,
            (_, _) => false,
        },
{
    match highest_block {
        Some(block) => Ok(
            Window {
                highest_block_number,
                highest_block_hash: block.hash,
                highest_block_timestamp: block.timestamp,
                min_timestamp: block.timestamp - SECONDS_PER_WEEK,
            },
        ),
        None => Err(FigureError::MissingFirstBlock),
    }
}

/// What a walk that came to its end counted: the transactions of all its blocks
/// but the last, and the time of the last.
pub open spec fn walk_figure(walked: Seq<BlockView>) -> (u64, u64) {
    (saturated(block_txs(walked.drop_last())), walked.last().timestamp)
}

/// The last block of a walk ends it: it has no predecessor, or it lies, after the
/// first, as far back as the walk should go, or is the chain's first.
pub open spec fn walk_ends(walked: Seq<BlockView>, min_timestamp: u64) -> bool {
    let last = walked.last();
    ||| last.prev_block_number is None
    ||| walked.len() > 1 && (last.timestamp <= min_timestamp || last.block_number == 0)
}

/// What a walk wants done.
pub enum WalkStep<E> {
    /// Load the block of the given number.
    LoadBlock(u64),
    /// Nothing more: these are the transactions counted and the time they are
    /// counted from.
    Finished(Result<(u64, u64), Failure<E>>),
}

/// Counts transactions from a given block back to a given time.
pub struct TxWalk {
    highest_block_hash: String,
    min_timestamp: u64,
    num_txs: u64,
    current: Option<Block>,
    walked: Ghost<Seq<BlockView>>,
}

/// The view of a walk.
#[verifier::ext_equal]
pub struct TxWalkView {
    /// The hash that the first block should have.
    pub highest_block_hash: Seq<char>,
    /// How far back the walk goes.
    pub min_timestamp: u64,
    /// The blocks walked, the newest first.
    pub walked: Seq<BlockView>,
}

impl View for TxWalk {
    type V = TxWalkView;

    closed spec fn view(&self) -> TxWalkView {
        TxWalkView {
            highest_block_hash: self.highest_block_hash@,
            min_timestamp: self.min_timestamp,
            walked: self.walked@,
        }
    }
}

/// What comes of loading a block, for a walk.
pub open spec fn loaded_view<E>(event: Result<Option<Block>, E>) -> Result<Option<BlockView>, E> {
    match event {
        Ok(Some(block)) => Ok(Some(block@)),
        Ok(None) => Ok(None),
        Err(e) => Err(e),
    }
}

impl TxWalkView {
    /// A walk that has not started yet.
    pub open spec fn initial(highest_block_hash: Seq<char>, min_timestamp: u64) -> TxWalkView {
        TxWalkView { highest_block_hash, min_timestamp, walked: Seq::empty() }
    }

    /// The walk after a block was loaded, and what it then wants done.
    pub open spec fn next<E>(self, event: Result<Option<BlockView>, E>) -> (
        TxWalkView,
        WalkStep<E>,
    ) {
        match event {
            Err(e) => (self, WalkStep::Finished(Err(Failure::Outside(e)))),
            Ok(None) => if self.walked.len() == 0 {
                (self, WalkStep::Finished(Err(Failure::Own(FigureError::MissingFirstBlock))))
            } else {
                (self, WalkStep::Finished(Ok(walk_figure(self.walked))))
            },
            Ok(Some(block)) => if self.walked.len() == 0 && block.hash != self.highest_block_hash {
                (self, WalkStep::Finished(Err(Failure::Own(FigureError::IncorrectFirstBlockHash))))
            } else {
                let walked = self.walked.push(block);
                (
                    TxWalkView { walked, ..self },
                    if walk_ends(walked, self.min_timestamp) {
                        WalkStep::Finished(Ok(walk_figure(walked)))
                    } else {
                        WalkStep::LoadBlock(block.prev_block_number->Some_0)
                    },
                )
            },
        }
    }
}

impl TxWalk {
    /// What is counted so far is what the blocks walked hold.
    pub closed spec fn wf(self) -> bool {
        match self.current {
            Some(block) => {
                &&& self.walked@.len() > 0
                &&& block@ == self.walked@.last()
                &&& self.num_txs == saturated(block_txs(self.walked@.drop_last()))
            },
            None => self.walked@.len() == 0 && self.num_txs == 0,
        }
    }

    /// A walk from the block of the given number and hash, and the first thing that
    /// it wants done.
    pub fn new<E>(
        highest_block_number: u64,
        highest_block_hash: String,
        min_timestamp: u64,
    ) -> (result: (Self, WalkStep<E>))
        ensures
            result.0.wf(),
            result.0@ == (TxWalkView {
                highest_block_hash: highest_block_hash@,
                min_timestamp,
                walked: Seq::empty(),
            }),
            result.0@ == TxWalkView::initial(highest_block_hash@, min_timestamp),
            result.1 == WalkStep::<E>::LoadBlock(highest_block_number),
    {
        let walk = TxWalk {
            highest_block_hash,
            min_timestamp,
            num_txs: 0,
            current: None,
            walked: Ghost(Seq::empty()),
        };
        (walk, WalkStep::LoadBlock(highest_block_number))
    }

    /// Tells the walk what came of loading the block that it asked for; returns what
    /// it wants done then.
    pub fn advance<E>(&mut self, event: Result<Option<Block>, E>) -> (step: WalkStep<E>)
        requires
            old(self).wf(),
        ensures
            final(self).wf(),
            (final(self)@, step) == old(self)@.next(loaded_view(event)),
    {
        let block = match event {
            Err(e) => {
                return WalkStep::Finished(Err(Failure::Outside(e)));
            },
            Ok(None) => {
                return match &self.current {
                    Some(current) => WalkStep::Finished(Ok((self.num_txs, current.timestamp))),
                    None => WalkStep::Finished(Err(Failure::Own(FigureError::MissingFirstBlock))),
                };
            },
            Ok(Some(block)) => block,
        };
        let mut ends: bool = false;
        match &self.current {
            None => {
                if block.hash != self.highest_block_hash {
                    return WalkStep::Finished(Err(Failure::Own(FigureError::IncorrectFirstBlockHash)));
                }
            },
            Some(current) => {
                self.num_txs = self.num_txs.saturating_add(current.num_txs);
                ends = block.timestamp <= self.min_timestamp || block.block_number == 0;
            },
        }
        let timestamp: u64 = block.timestamp;
        let prev_block_number = block.prev_block_number;
        proof {
            let walked = self.walked@.push(block@);
            assert(walked.drop_last() =~= self.walked@);
            self.walked@ = walked;
        }
        self.current = Some(block);
        match prev_block_number {
            Some(number) => if ends {
                WalkStep::Finished(Ok((self.num_txs, timestamp)))
            } else {
                WalkStep::LoadBlock(number)
            },
            None => WalkStep::Finished(Ok((self.num_txs, timestamp))),
        }
    }
}

/// The rate up to the given time of what was counted.
pub open spec fn rate_of<E>(
    counted: Result<(u64, u64), Failure<E>>,
    highest_block_timestamp: u64,
) -> Result<Tps, Failure<E>> {
    match counted {
        Ok((num_txs, init_timestamp)) => match tps(
            init_timestamp,
            highest_block_timestamp,
            num_txs,
        ) {
            Ok(tps) => Ok(tps),
            Err(e) => Err(Failure::Own(e)),
        },
        Err(failure) => Err(failure),
    }
}

/// The rate up to the given time, from what a walk over blocks counted.
pub fn calculate_from_blocks<E>(
    counted: Result<(u64, u64), Failure<E>>,
    highest_block_timestamp: u64,
) -> (result: Result<Tps, Failure<E>>)
    ensures
        result == match counted {
            Ok((num_txs, init_timestamp)) => match tps(
                init_timestamp,
                highest_block_timestamp,
                num_txs,
            ) {
                Ok(tps) => Ok::<Tps, Failure<E>>(tps),
                Err(e) => Err::<Tps, Failure<E>>(Failure::Own(e)),
            },
            Err(failure) => Err::<Tps, Failure<E>>(failure),
        },
        result == rate_of(counted, highest_block_timestamp),
{
    let (num_txs, init_timestamp) = match counted {
        Ok(counted) => counted,
        Err(failure) => {
            return Err(failure);
        },
    };
    match calculate_tps(init_timestamp, highest_block_timestamp, num_txs) {
        Ok(tps) => Ok(tps),
        Err(e) => Err(Failure::Own(e)),
    }
}

/// Where a tally of runs stands.
#[derive(Debug, Clone, Copy, PartialEq, Eq, Structural)]
pub enum TallyPhase {
    /// Whole runs are counted.
    Counting,
    /// The blocks of the last run are counted, as far as they lie in the window.
    Tail,
    /// The runs are being saved. These are the transactions counted and the time
    /// they are counted from.
    Saving(u64, u64),
    /// There is nothing left to do.
    Done,
}

/// What a tally of runs is told.
pub enum TallyEvent<E> {
    /// The next run came, or the stream has ended.
    Run(Option<Result<BlockRun, E>>),
    /// The blocks from the newest one of the last run on were counted: their
    /// transactions, and the time they are counted from.
    Tail(Result<(u64, u64), E>),
    /// The runs were saved.
    Saved(Result<(), E>),
}

/// What a tally of runs wants done.
pub enum TallyStep<E> {
    /// Take the next run of the stream.
    NextRun,
    /// Count the transactions from the block of the given number and hash on.
    CountTail(u64, String),
    /// Save the runs that were looked at.
    Save(BlockRunSummary),
    /// Nothing more: this is the rate.
    Finished(Result<Tps, Failure<E>>),
}

/// The view of what a tally is told.
pub enum TallyEventView<E> {
    Run(Option<Result<BlockRunView, E>>),
    Tail(Result<(u64, u64), E>),
    Saved(Result<(), E>),
}

/// The view of what a tally wants done.
pub enum TallyStepView<E> {
    NextRun,
    CountTail(u64, Seq<char>),
    Save(Seq<BlockRunView>),
    Finished(Result<Tps, Failure<E>>),
}

impl<E> View for TallyEvent<E> {
    type V = TallyEventView<E>;

    open spec fn view(&self) -> TallyEventView<E> {
        match *self {
            TallyEvent::Run(Some(Ok(run))) => TallyEventView::Run(Some(Ok(run@))),
            TallyEvent::Run(Some(Err(e))) => TallyEventView::Run(Some(Err(e))),
            TallyEvent::Run(None) => TallyEventView::Run(None),
            TallyEvent::Tail(result) => TallyEventView::Tail(result),
            TallyEvent::Saved(result) => TallyEventView::Saved(result),
        }
    }
}

impl<E> View for TallyStep<E> {
    type V = TallyStepView<E>;

    open spec fn view(&self) -> TallyStepView<E> {
        match *self {
            TallyStep::NextRun => TallyStepView::NextRun,
            TallyStep::CountTail(number, hash) => TallyStepView::CountTail(number, hash@),
            TallyStep::Save(summary) => TallyStepView::Save(summary@),
            TallyStep::Finished(result) => TallyStepView::Finished(result),
        }
    }
}

/// Counts the transactions of a window from block runs.
pub struct RunTally {
    window: Window,
    num_txs: u64,
    block_runs: Vec<BlockRun>,
    phase: TallyPhase,
}

/// The view of a tally.
#[verifier::ext_equal]
pub struct RunTallyView {
    /// The hash that the newest block of the first run should have.
    pub highest_block_hash: Seq<char>,
    /// The time that the rate is taken up to.
    pub highest_block_timestamp: u64,
    /// How far back the rate is taken.
    pub min_timestamp: u64,
    /// The runs looked at, the newest first.
    pub runs: Seq<BlockRunView>,
    pub phase: TallyPhase,
}

impl View for RunTally {
    type V = RunTallyView;

    closed spec fn view(&self) -> RunTallyView {
        RunTallyView {
            highest_block_hash: self.window.highest_block_hash@,
            highest_block_timestamp: self.window.highest_block_timestamp,
            min_timestamp: self.window.min_timestamp,
            runs: run_views(self.block_runs@),
            phase: self.phase,
        }
    }
}

impl RunTallyView {
    /// A tally that has not started yet.
    pub open spec fn initial(window: WindowView) -> RunTallyView {
        RunTallyView {
            highest_block_hash: window.highest_block_hash,
            highest_block_timestamp: window.highest_block_timestamp,
            min_timestamp: window.min_timestamp,
            runs: Seq::empty(),
            phase: TallyPhase::Counting,
        }
    }

    /// Saves the runs once the count is complete.
    pub open spec fn save<E>(self, num_txs: u64, init_timestamp: u64) -> (
        RunTallyView,
        TallyStepView<E>,
    ) {
        (
            RunTallyView {
                runs: Seq::empty(),
                phase: TallyPhase::Saving(num_txs, init_timestamp),
                ..self
            },
            TallyStepView::Save(self.runs),
        )
    }

    /// Ends with the given result.
    pub open spec fn finish<E>(self, result: Result<Tps, Failure<E>>) -> (
        RunTallyView,
        TallyStepView<E>,
    ) {
        (RunTallyView { phase: TallyPhase::Done, ..self }, TallyStepView::Finished(result))
    }

    /// Takes the next run. A run that ends in the window is counted whole. The
    /// first one that does not is the last: it is not counted where it starts
    /// outside of the window too, else its blocks are counted.
    pub open spec fn take<E>(self, run: BlockRunView) -> (RunTallyView, TallyStepView<E>) {
        if self.runs.len() == 0 && run.newest_block_hash != self.highest_block_hash {
            self.finish(Err(Failure::Own(FigureError::IncorrectFirstBlockHash)))
        } else {
            let taken = RunTallyView { runs: self.runs.push(run), ..self };
            if run.newest_block_timestamp <= self.min_timestamp {
                taken.save(saturated(run_txs(self.runs)), run.newest_block_timestamp)
            } else if run.oldest_block_timestamp <= self.min_timestamp {
                (
                    RunTallyView { phase: TallyPhase::Tail, ..taken },
                    TallyStepView::CountTail(run.newest_block_number, run.newest_block_hash),
                )
            } else {
                (taken, TallyStepView::NextRun)
            }
        }
    }

    /// The tally after it was told something, and what it then wants done.
    pub open spec fn next<E>(self, event: TallyEventView<E>) -> (RunTallyView, TallyStepView<E>) {
        match (self.phase, event) {
            (TallyPhase::Counting, TallyEventView::Run(Some(Ok(run)))) => self.take(run),
            (TallyPhase::Counting, TallyEventView::Run(Some(Err(e)))) => {
                self.finish(Err(Failure::Outside(e)))
            },
            (TallyPhase::Counting, TallyEventView::Run(None)) => {
                self.save(saturated(run_txs(self.runs)), 0)
            },
            (TallyPhase::Tail, TallyEventView::Tail(Ok((more_txs, init_timestamp)))) => {
                self.save(
                    saturated(run_txs(self.runs.drop_last()) + more_txs as nat),
                    init_timestamp,
                )
            },
            (TallyPhase::Tail, TallyEventView::Tail(Err(e))) => {
                self.finish(Err(Failure::Outside(e)))
            },
            (TallyPhase::Saving(num_txs, init_timestamp), TallyEventView::Saved(Ok(_))) => {
                self.finish(
                    match tps(init_timestamp, self.highest_block_timestamp, num_txs) {
                        Ok(tps) => Ok(tps),
                        Err(e) => Err(Failure::Own(e)),
                    },
                )
            },
            (TallyPhase::Saving(_, _), TallyEventView::Saved(Err(e))) => {
                self.finish(Err(Failure::Outside(e)))
            },
            (_, _) => arbitrary(),
        }
    }

    /// The tally waits for this kind of event.
    pub open spec fn waits_for<E>(self, event: TallyEventView<E>) -> bool {
        match self.phase {
            TallyPhase::Counting => event is Run,
            TallyPhase::Tail => event is Tail,
            TallyPhase::Saving(_, _) => event is Saved,
            TallyPhase::Done => false,
        }
    }
}

impl RunTally {
    /// What is counted so far is what the whole runs hold.
    pub closed spec fn wf(self) -> bool {
        match self.phase {
            TallyPhase::Counting => self.num_txs == saturated(run_txs(self@.runs)),
            TallyPhase::Tail => {
                &&& self@.runs.len() > 0
                &&& self.num_txs == saturated(run_txs(self@.runs.drop_last()))
            },
            _ => true,
        }
    }

    /// A tally of the runs of the given window, and the first thing that it wants done.
    pub fn new<E>(window: Window) -> (result: (Self, TallyStep<E>))
        ensures
            result.0.wf(),
            result.0@ == (RunTallyView {
                highest_block_hash: window.highest_block_hash@,
                highest_block_timestamp: window.highest_block_timestamp,
                min_timestamp: window.min_timestamp,
                runs: Seq::empty(),
                phase: TallyPhase::Counting,
            }),
            result.0@ == RunTallyView::initial(window@),
            result.1@ == TallyStepView::<E>::NextRun,
    {
        let tally = RunTally {
            window,
            num_txs: 0,
            block_runs: Vec::new(),
            phase: TallyPhase::Counting,
        };
        assert(tally@.runs =~= Seq::empty());
        (tally, TallyStep::NextRun)
    }

    /// Where the tally stands.
    pub fn phase(&self) -> (phase: TallyPhase)
        ensures
            phase == self@.phase,
    {
        self.phase
    }

    /// Saves the runs.
    fn save<E>(&mut self, init_timestamp: u64) -> (step: TallyStep<E>)
        ensures
            final(self).wf(),
            (final(self)@, step@) == old(self)@.save::<E>(old(self).num_txs, init_timestamp),
    {
        let mut block_runs: Vec<BlockRun> = Vec::new();
        std::mem::swap(&mut block_runs, &mut self.block_runs);
        self.phase = TallyPhase::Saving(self.num_txs, init_timestamp);
        assert(self@.runs =~= Seq::empty());
        TallyStep::Save(BlockRunSummary { block_runs })
    }

    /// Takes the next run.
    fn take<E>(&mut self, run: BlockRun) -> (step: TallyStep<E>)
        requires
            old(self).wf(),
            old(self)@.phase == TallyPhase::Counting,
        ensures
            final(self).wf(),
            (final(self)@, step@) == old(self)@.take::<E>(run@),
    {
        if self.block_runs.len() == 0 && run.newest_block_hash != self.window.highest_block_hash {
            self.phase = TallyPhase::Done;
            return TallyStep::Finished(Err(Failure::Own(FigureError::IncorrectFirstBlockHash)));
        }
        let number: u64 = run.newest_block_number;
        let hash = run.newest_block_hash.clone();
        let newest: u64 = run.newest_block_timestamp;
        let oldest: u64 = run.oldest_block_timestamp;
        let num_txs: u64 = run.num_txs;
        self.block_runs.push(run);
        assert(self@.runs =~= old(self)@.runs.push(run@));
        assert(self@.runs.drop_last() =~= old(self)@.runs);
        if newest <= self.window.min_timestamp {
            self.save(newest)
        } else if oldest <= self.window.min_timestamp {
            self.phase = TallyPhase::Tail;
            TallyStep::CountTail(number, hash)
        } else {
            self.num_txs = self.num_txs.saturating_add(num_txs);
            TallyStep::NextRun
        }
    }

    /// Tells the tally what it waits for; returns what it wants done then.
    pub fn advance<E>(&mut self, event: TallyEvent<E>) -> (step: TallyStep<E>)
        requires
            old(self).wf(),
            old(self)@.waits_for(event@),
        ensures
            final(self).wf(),
            (final(self)@, step@) == old(self)@.next(event@),
    {
        match (self.phase, event) {
            (TallyPhase::Counting, TallyEvent::Run(Some(Ok(run)))) => self.take(run),
            (TallyPhase::Counting, TallyEvent::Run(None)) => self.save(0),
            (TallyPhase::Tail, TallyEvent::Tail(Ok((more_txs, init_timestamp)))) => {
                self.num_txs = self.num_txs.saturating_add(more_txs);
                self.save(init_timestamp)
            },
            (TallyPhase::Saving(num_txs, init_timestamp), TallyEvent::Saved(Ok(_))) => {
                self.phase = TallyPhase::Done;
                TallyStep::Finished(
                    calculate_from_blocks(
                        Ok((num_txs, init_timestamp)),
                        self.window.highest_block_timestamp,
                    ),
                )
            },
            (_, TallyEvent::Run(Some(Err(e)))) => {
                self.phase = TallyPhase::Done;
                TallyStep::Finished(Err(Failure::Outside(e)))
            },
            (_, TallyEvent::Tail(Err(e))) => {
                self.phase = TallyPhase::Done;
                TallyStep::Finished(Err(Failure::Outside(e)))
            },
            (_, TallyEvent::Saved(Err(e))) => {
                self.phase = TallyPhase::Done;
                TallyStep::Finished(Err(Failure::Outside(e)))
            },
            (_, _) => {
                // Nothing else is waited for.
                assert(false);
                TallyStep::NextRun
            },
        }
    }
}

/// The rate, times the seconds it was reached in, is the count: `numerator * seconds ==
/// count * denominator`. Over no second it is zero. Of two rates over the same seconds the
/// one with more transactions is the higher.
pub proof fn law_rate_times_seconds_is_the_count(rate: Tps, other: Tps)
    ensures
        rate.fraction().1 > 0,
        rate.total_seconds > 0 ==> rate.fraction().0 * rate.total_seconds == rate.num_txs
            * rate.fraction().1,
        rate.total_seconds == 0 ==> rate.fraction().0 == 0,
        rate.fraction().0 == 0 <==> rate.num_txs == 0 || rate.total_seconds == 0,
        rate.is_zero() <==> rate.num_txs == 0 || rate.total_seconds == 0,
        rate.total_seconds > 0 && rate.total_seconds == other.total_seconds && rate.num_txs
            < other.num_txs ==> rate.fraction().0 * other.fraction().1 < other.fraction().0
            * rate.fraction().1,
{
    let seconds = rate.total_seconds as int;
    let (fewer, more) = (rate.num_txs as int, other.num_txs as int);
    if seconds > 0 && seconds == other.total_seconds && fewer < more {
        assert(fewer * seconds < more * seconds) by (nonlinear_arith)
            requires
                seconds > 0,
                fewer < more,
        ;
    }
}

/// A rate holds the count and the seconds between the two times, none where the later
/// time is not later. There is none exactly where one of both does not fit 32 bits, and
/// the error tells which, the seconds first.
pub proof fn law_rate_of_a_count_between_two_times(
    init_timestamp: u64,
    latest_timestamp: u64,
    num_txs: u64,
)
    ensures
        ({
            let result = tps(init_timestamp, latest_timestamp, num_txs);
            &&& result is Ok <==> latest_timestamp - init_timestamp <= 0xffff_ffff && num_txs
                <= 0xffff_ffff
            &&& result matches Ok(rate) ==> {
                &&& rate.num_txs == num_txs
                &&& init_timestamp <= latest_timestamp ==> init_timestamp + rate.total_seconds
                    == latest_timestamp
                &&& init_timestamp > latest_timestamp ==> rate.total_seconds == 0
            }
            &&& result matches Err(e) ==> {
                &&& e == FigureError::SecondsOverflow || e == FigureError::NumTxsOverflow
                &&& e == FigureError::SecondsOverflow <==> latest_timestamp - init_timestamp
                    > 0xffff_ffff
            }
        }),
{
}

/// The views of what a tally is told and of what it wants done show their parts as they
/// are, and so does that of a loaded block.
pub proof fn law_tally_views_show_the_parts<E>(
    run: BlockRun,
    counted: Result<(u64, u64), E>,
    saved: Result<(), E>,
    e: E,
    number: u64,
    hash: String,
    summary: BlockRunSummary,
    rate: Result<Tps, Failure<E>>,
    block: Block,
)
    ensures
        TallyEvent::<E>::Run(None)@ == TallyEventView::<E>::Run(None),
        TallyEvent::<E>::Run(Some(Ok(run)))@ == TallyEventView::<E>::Run(Some(Ok(run@))),
        TallyEvent::<E>::Run(Some(Err(e)))@ == TallyEventView::<E>::Run(Some(Err(e))),
        TallyEvent::Tail(counted)@ == TallyEventView::Tail(counted),
        TallyEvent::Saved(saved)@ == TallyEventView::Saved(saved),
        TallyStep::<E>::NextRun@ == TallyStepView::<E>::NextRun,
        TallyStep::<E>::CountTail(number, hash)@ == TallyStepView::<E>::CountTail(number, hash@),
        TallyStep::<E>::Save(summary)@ == TallyStepView::<E>::Save(run_views(summary.block_runs@)),
        TallyStep::Finished(rate)@ == TallyStepView::Finished(rate),
        loaded_view::<E>(Ok(Some(block))) == Ok::<Option<BlockView>, E>(Some(block@)),
        loaded_view::<E>(Ok(None)) == Ok::<Option<BlockView>, E>(None),
        loaded_view::<E>(Err(e)) == Err::<Option<BlockView>, E>(e),
{
}

/// A window reaches back a week of seven days from its highest block; a walk and a tally
/// that start with it look for that block's hash, go back as far as it does, and have
/// counted nothing.
pub proof fn law_window_is_a_week(highest_block_number: u64, block: BlockView)
    requires
        block.timestamp >= 604_800,
    ensures
        ({
            let window = window_of(highest_block_number, block);
            let walk = TxWalkView::initial(window.highest_block_hash, window.min_timestamp);
            let tally = RunTallyView::initial(window);
            &&& window.highest_block_number == highest_block_number
            &&& window.highest_block_hash == block.hash
            &&& window.highest_block_timestamp == block.timestamp
            &&& window.min_timestamp + 7 * 24 * 60 * 60 == block.timestamp
            &&& walk.highest_block_hash == block.hash
            &&& walk.min_timestamp == window.min_timestamp
            &&& walk.walked.len() == 0
            &&& tally.highest_block_hash == block.hash
            &&& tally.highest_block_timestamp == block.timestamp
            &&& tally.min_timestamp == window.min_timestamp
            &&& tally.runs.len() == 0
            &&& tally.phase == TallyPhase::Counting
        }),
{
}

/// The view of a window shows its fields as they are.
pub proof fn law_window_views_show_the_fields(window: Window)
    ensures
        window@.highest_block_number == window.highest_block_number,
        window@.highest_block_hash == window.highest_block_hash@,
        window@.highest_block_timestamp == window.highest_block_timestamp,
        window@.min_timestamp == window.min_timestamp,
{
}

/// The rate of what was counted holds the count and the seconds from the time counted from
/// to the time given; a failure to count is handed on.
pub proof fn law_rate_of_what_was_counted<E>(
    num_txs: u64,
    init_timestamp: u64,
    highest_block_timestamp: u64,
    failure: Failure<E>,
)
    ensures
        rate_of(Err(failure), highest_block_timestamp) == Err::<Tps, Failure<E>>(failure),
        ({
            let result = rate_of::<E>(Ok((num_txs, init_timestamp)), highest_block_timestamp);
            &&& result is Ok <==> highest_block_timestamp - init_timestamp <= 0xffff_ffff && num_txs
                <= 0xffff_ffff
            &&& result matches Ok(rate) ==> {
                &&& rate.num_txs == num_txs
                &&& init_timestamp <= highest_block_timestamp ==> init_timestamp
                    + rate.total_seconds == highest_block_timestamp
                &&& init_timestamp > highest_block_timestamp ==> rate.total_seconds == 0
            }
            &&& result matches Err(e) ==> {
                &&& e is Own
                &&& highest_block_timestamp - init_timestamp > 0xffff_ffff ==> e->Own_0
                    == FigureError::SecondsOverflow
                &&& highest_block_timestamp - init_timestamp <= 0xffff_ffff ==> e->Own_0
                    == FigureError::NumTxsOverflow
            }
        }),
{
}

} // verus!
