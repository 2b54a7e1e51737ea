use realtps::calculate::{
    calculate_from_blocks, calculate_tps, calculation_window, highest_known_block, RunTally, TallyEvent, TallyPhase,
    TallyStep, Tps, TxWalk, WalkStep, Window, SECONDS_PER_WEEK,
};
use realtps::blockrun::summarize;
use realtps::chain::Chain;
use realtps::db::{Block, BlockRun, BlockRunSummary};
use realtps::error::{Failure, FigureError};

fn block(number: u64, timestamp: u64, num_txs: u64) -> Block {
    Block {
        chain: Chain::near(),
        block_number: number,
        prev_block_number: number.checked_sub(1),
        timestamp,
        num_txs,
        hash: format!("h{}", number),
        parent_hash: "p".to_string(),
    }
}

type Counted = Result<(u64, u64), Failure<&'static str>>;

/// Walks over blocks in memory.
fn walk(blocks: &[(u64, u64, u64)], number: u64, hash: &str, min_timestamp: u64) -> Counted {
    let (mut walk, mut step) =
        TxWalk::new::<&'static str>(number, hash.to_string(), min_timestamp);
    loop {
        match step {
            WalkStep::LoadBlock(number) => {
                let found = blocks.iter().find(|b| b.0 == number);
                step = walk.advance(Ok(found.map(|b| block(b.0, b.1, b.2))));
            }
            WalkStep::Finished(result) => return result,
        }
    }
}

fn window(number: u64, timestamp: u64, min_timestamp: u64) -> Window {
    Window {
        highest_block_number: number,
        highest_block_hash: format!("h{}", number),
        highest_block_timestamp: timestamp,
        min_timestamp,
    }
}

type Rate = Result<Tps, Failure<&'static str>>;

/// Tallies runs, counting tails over blocks in memory.
fn tally(
    blocks: &[(u64, u64, u64)],
    window: Window,
    runs: Vec<Result<BlockRun, &'static str>>,
) -> (Option<BlockRunSummary>, Rate) {
    let min_timestamp = window.min_timestamp;
    let mut runs = runs.into_iter();
    let mut saved = None;
    let (mut tally, mut step) = RunTally::new::<&'static str>(window);
    loop {
        step = match step {
            TallyStep::NextRun => tally.advance(TallyEvent::Run(runs.next())),
            TallyStep::CountTail(number, hash) => {
                let counted = walk(blocks, number, &hash, min_timestamp);
                tally.advance(TallyEvent::Tail(Ok(counted.unwrap())))
            }
            TallyStep::Save(summary) => {
                saved = Some(summary);
                tally.advance(TallyEvent::Saved(Ok(())))
            }
            TallyStep::Finished(result) => {
                assert_eq!(tally.phase(), TallyPhase::Done);
                return (saved, result);
            }
        }
    }
}

fn rate(num_txs: u32, total_seconds: u32) -> Tps {
    Tps { num_txs, total_seconds }
}

const BLOCKS: [(u64, u64, u64); 6] =
    [(15, 900, 10), (14, 800, 20), (13, 700, 30), (12, 600, 40), (11, 500, 50), (10, 400, 60)];

fn run_of(from: usize, to: usize) -> BlockRun {
    summarize(&BLOCKS[from..to].iter().map(|b| block(b.0, b.1, b.2)).collect())
}

#[test]
fn rates() {
    assert_eq!(calculate_tps(100, 160, 30), Ok(rate(30, 60)));
    assert_eq!(calculate_tps(160, 100, 30), Ok(rate(30, 0)));
    assert_eq!(calculate_tps(5, 5, 0), Ok(rate(0, 0)));
    let most = u64::from(u32::MAX);
    assert_eq!(calculate_tps(0, most, most), Ok(rate(u32::MAX, u32::MAX)));
    assert_eq!(calculate_tps(0, most + 1, most + 1), Err(FigureError::SecondsOverflow));
    assert_eq!(calculate_tps(0, most, most + 1), Err(FigureError::NumTxsOverflow));
}

#[test]
fn a_rate_over_no_second_is_zero() {
    assert_eq!(rate(30, 60).to_fraction(), (30, 60));
    assert_eq!(rate(30, 0).to_fraction(), (0, 1));
    assert_eq!(rate(0, 0).to_fraction(), (0, 1));
    assert_eq!(rate(0, 60).to_fraction(), (0, 60));
}

#[test]
fn rates_of_walks() {
    let counted: Counted = Ok((30, 100));
    assert_eq!(calculate_from_blocks(counted, 160), Ok(rate(30, 60)));
    let counted: Counted = Ok((u64::MAX, 100));
    assert_eq!(calculate_from_blocks(counted, 160), Err(Failure::Own(FigureError::NumTxsOverflow)));
    let counted: Counted = Err(Failure::Outside("disk"));
    assert_eq!(calculate_from_blocks(counted, 160), Err(Failure::Outside("disk")));
}

#[test]
fn windows() {
    assert_eq!(SECONDS_PER_WEEK, 60 * 60 * 24 * 7);
    assert_eq!(highest_known_block(Some(15)), Ok(15));
    assert_eq!(highest_known_block(None), Err(FigureError::NoData));
    let highest = block(15, 1_000_000, 1);
    assert_eq!(calculation_window(15, Some(highest)), Ok(window(15, 1_000_000, 395_200)));
    assert_eq!(calculation_window(15, None), Err(FigureError::MissingFirstBlock));
}

#[test]
fn a_walk_counts_down_to_its_limit() {
    assert_eq!(walk(&BLOCKS, 15, "h15", 600), Ok((60, 600)));
    assert_eq!(walk(&BLOCKS, 15, "h15", 650), Ok((60, 600)));
    assert_eq!(walk(&BLOCKS, 13, "h13", 600), Ok((30, 600)));
}

#[test]
fn the_first_block_of_a_walk_is_never_its_limit() {
    assert_eq!(walk(&BLOCKS, 15, "h15", 900), Ok((10, 800)));
}

#[test]
fn a_walk_ends_where_nothing_is_stored() {
    assert_eq!(walk(&BLOCKS, 15, "h15", 0), Ok((150, 400)));
    assert_eq!(walk(&[(0, 70, 5)], 0, "h0", 0), Ok((0, 70)));
    assert_eq!(walk(&[(1, 80, 5), (0, 70, 5)], 1, "h1", 0), Ok((5, 70)));
}

#[test]
fn a_walk_saturates() {
    let blocks = [(3, 30, u64::MAX), (2, 20, 9), (1, 10, 9), (0, 5, 9)];
    assert_eq!(walk(&blocks, 3, "h3", 0), Ok((u64::MAX, 5)));
}

#[test]
fn a_walk_needs_its_first_block() {
    assert_eq!(walk(&BLOCKS, 99, "h99", 0), Err(Failure::Own(FigureError::MissingFirstBlock)));
    let wrong = walk(&BLOCKS, 15, "h16", 0);
    assert_eq!(wrong, Err(Failure::Own(FigureError::IncorrectFirstBlockHash)));
    let (mut walk, _) = TxWalk::new::<&'static str>(15, "h15".to_string(), 0);
    let step = walk.advance(Err("disk"));
    assert!(matches!(step, WalkStep::Finished(Err(Failure::Outside("disk")))));
}

#[test]
fn runs_and_blocks_agree() {
    let cuts: [&[usize]; 4] = [&[0, 2, 4, 6], &[0, 6], &[0, 1, 3, 6], &[0, 3, 4, 5, 6]];
    for min_timestamp in [400, 450, 500, 600, 700, 799, 800] {
        let (num_txs, init) = walk(&BLOCKS, 15, "h15", min_timestamp).unwrap();
        for cut in cuts {
            let runs = cut.windows(2).map(|w| Ok(run_of(w[0], w[1]))).collect();
            let (saved, result) = tally(&BLOCKS, window(15, 900, min_timestamp), runs);
            assert!(saved.is_some());
            assert_eq!(result, Ok(calculate_tps(init, 900, num_txs).unwrap()));
        }
    }
}

#[test]
fn a_tally_saves_the_runs_up_to_its_limit() {
    let runs = vec![Ok(run_of(0, 2)), Ok(run_of(2, 4)), Ok(run_of(4, 6))];
    let (saved, result) = tally(&BLOCKS, window(15, 900, 650), runs);
    assert_eq!(saved.unwrap().block_runs, vec![run_of(0, 2), run_of(2, 4)]);
    assert_eq!(result, Ok(rate(60, 300)));

    let runs = vec![Ok(run_of(0, 2)), Ok(run_of(2, 4)), Ok(run_of(4, 6))];
    let (saved, result) = tally(&BLOCKS, window(15, 900, 750), runs);
    assert_eq!(saved.unwrap().block_runs, vec![run_of(0, 2), run_of(2, 4)]);
    assert_eq!(result, Ok(rate(30, 200)));
}

#[test]
fn a_tally_of_a_young_chain_counts_from_the_epoch() {
    let runs = vec![Ok(run_of(0, 2)), Ok(run_of(2, 6))];
    let (saved, result) = tally(&BLOCKS, window(15, 900, 100), runs);
    assert_eq!(saved.unwrap().block_runs.len(), 2);
    assert_eq!(result, Ok(rate(210, 900)));
    let (saved, result) = tally(&BLOCKS, window(15, 900, 100), vec![]);
    assert_eq!(saved.unwrap().block_runs.len(), 0);
    assert_eq!(result, Ok(rate(0, 900)));
}

#[test]
fn a_tally_fails_before_it_saves() {
    let (saved, result) = tally(&BLOCKS, window(14, 900, 100), vec![Ok(run_of(0, 2))]);
    assert!(saved.is_none());
    assert_eq!(result, Err(Failure::Own(FigureError::IncorrectFirstBlockHash)));
    let (saved, result) = tally(&BLOCKS, window(14, 900, 100), vec![Err("db")]);
    assert!(saved.is_none());
    assert_eq!(result, Err(Failure::Outside("db")));
    let runs = vec![Ok(run_of(0, 2)), Err("db")];
    let (saved, result) = tally(&BLOCKS, window(15, 900, 100), runs);
    assert!(saved.is_none());
    assert_eq!(result, Err(Failure::Outside("db")));
}

#[test]
fn later_failures_of_a_tally() {
    let (mut counting, _) = RunTally::new::<&'static str>(window(15, 900, 750));
    let step = counting.advance(TallyEvent::<&'static str>::Run(Some(Ok(run_of(0, 3)))));
    assert!(matches!(step, TallyStep::CountTail(15, ref hash) if hash == "h15"));
    assert_eq!(counting.phase(), TallyPhase::Tail);
    let step = counting.advance(TallyEvent::Tail(Err("gone")));
    assert!(matches!(step, TallyStep::Finished(Err(Failure::Outside("gone")))));

    let (mut saving, _) = RunTally::new::<&'static str>(window(15, 900, 750));
    saving.advance(TallyEvent::<&'static str>::Run(None));
    assert_eq!(saving.phase(), TallyPhase::Saving(0, 0));
    let step = saving.advance(TallyEvent::Saved(Err("full")));
    assert!(matches!(step, TallyStep::Finished(Err(Failure::Outside("full")))));

    let (mut long, _) = RunTally::new::<&'static str>(window(15, 5_000_000_000, 750));
    long.advance(TallyEvent::<&'static str>::Run(None));
    let step = long.advance(TallyEvent::<&'static str>::Saved(Ok(())));
    assert!(matches!(step, TallyStep::Finished(Err(Failure::Own(FigureError::SecondsOverflow)))));
}

#[test]
fn messages() {
    let chain = Chain::new("celo").unwrap();
    let said = |error: FigureError| error.message(&chain);
    assert_eq!(said(FigureError::NoData), "no data for chain celo");
    assert_eq!(said(FigureError::MissingFirstBlock), "missing first block");
    assert_eq!(
        said(FigureError::IncorrectFirstBlockHash),
        "incorrect first block hash for calculation of celo"
    );
    assert_eq!(said(FigureError::SecondsOverflow), "seconds overflows u32");
    assert_eq!(said(FigureError::NumTxsOverflow), "num txs overflows u32");
    assert_eq!(said(FigureError::EmptyLedgerSet), "request returned empty set of ledgers");
    assert_eq!(said(FigureError::LedgerOutOfRange), "ledger number out of range");
    assert_eq!(said(FigureError::MissingParentHash), "missing parent hash");
    assert_eq!(
        said(FigureError::BlockTimeUnavailable { slot: 120 }),
        "block time unavailable for solana slot 120"
    );
    assert_eq!(said(FigureError::NoPreviousBlockId), "no previous block id");
    assert_eq!(said(FigureError::OutOfRange), u64::try_from(-1i64).unwrap_err().to_string());
    assert_eq!(said(FigureError::WideOverflow), "integer overflow when casting to u64");
}
