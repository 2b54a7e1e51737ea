use realtps::blockrun::{
    summarize, BlockRunSender, Phase, RunEvent, RunStep, BLOCK_RUN_MIN_SECS,
};
use realtps::chain::Chain;
use realtps::db::{Block, BlockRun, BlockRunSummary, PreviousBlock};
use realtps::error::{Failure, FigureError};

fn hash(number: u64) -> String {
    format!("h{}", number)
}

fn block(number: u64, timestamp: u64, num_txs: u64) -> Block {
    Block {
        chain: Chain::near(),
        block_number: number,
        prev_block_number: number.checked_sub(1),
        timestamp,
        num_txs,
        hash: hash(number),
        parent_hash: if number > 0 { hash(number - 1) } else { "none".to_string() },
    }
}

fn run(newest: u64, newest_time: u64, oldest_time: u64, num_blocks: u64, num_txs: u64) -> BlockRun {
    let prev = (newest + 1).checked_sub(num_blocks + 1);
    BlockRun {
        newest_block_number: newest,
        newest_block_hash: hash(newest),
        newest_block_timestamp: newest_time,
        oldest_block_timestamp: oldest_time,
        prev_block: prev.map(|number| PreviousBlock {
            prev_block_number: number,
            prev_block_hash: hash(number),
        }),
        num_blocks,
        num_txs,
    }
}

#[derive(Debug, PartialEq)]
enum End {
    Finished,
    Refused(Phase),
}

type Sent = Vec<Result<BlockRun, Failure<&'static str>>>;

/// Serves a sender from blocks in memory.
fn serve(blocks: &[(u64, u64, u64)], cached: Option<Vec<BlockRun>>, start: u64) -> (Sent, End) {
    let mut sent = Vec::new();
    let mut cached = cached;
    let (mut sender, mut step) = BlockRunSender::new::<&'static str>(start);
    loop {
        let event = match step {
            RunStep::LoadSummary => RunEvent::Summary(Ok(cached
                .take()
                .map(|block_runs| BlockRunSummary { block_runs }))),
            RunStep::LoadBlock(number) => RunEvent::Block(Ok(blocks
                .iter()
                .find(|b| b.0 == number)
                .map(|b| block(b.0, b.1, b.2)))),
            RunStep::Send(item) => {
                sent.push(item);
                RunEvent::Sent(Ok(()))
            }
            RunStep::Finished => return (sent, End::Finished),
        };
        if !sender.can_advance(&event) {
            return (sent, End::Refused(sender.phase()));
        }
        step = sender.advance(event);
    }
}

#[test]
fn a_run_sums_up_its_blocks() {
    assert_eq!(BLOCK_RUN_MIN_SECS, 60 * 60);
    let blocks = vec![block(9, 1000, 4), block(8, 950, 0), block(7, 900, 3)];
    assert_eq!(summarize(&blocks), run(9, 1000, 900, 3, 7));
    assert_eq!(summarize(&vec![block(0, 5, u64::MAX)]), run(0, 5, 5, 1, u64::MAX));
    let many = vec![block(2, 5, u64::MAX), block(1, 4, 1)];
    assert_eq!(summarize(&many).num_txs, u64::MAX);
}

#[test]
fn a_short_chain_is_one_run() {
    let blocks = [(2, 5000, 3), (1, 4900, 2), (0, 4800, 1)];
    let (sent, end) = serve(&blocks, None, 2);
    assert_eq!(sent, vec![Ok(run(2, 5000, 4800, 3, 6))]);
    assert_eq!(end, End::Finished);
}

#[test]
fn a_walk_ends_at_a_block_that_is_not_stored() {
    let blocks = [(2, 5000, 3), (1, 4900, 2)];
    let (sent, end) = serve(&blocks, Some(vec![]), 2);
    assert_eq!(sent, vec![Ok(run(2, 5000, 4900, 2, 5))]);
    assert_eq!(end, End::Finished);
}

#[test]
fn a_long_walk_is_cut_into_runs_that_share_no_block() {
    let blocks = [(4, 20_000, 1), (3, 18_000, 1), (2, 16_400, 1), (1, 15_000, 1), (0, 12_800, 1)];
    let (sent, end) = serve(&blocks, None, 4);
    assert_eq!(
        sent,
        vec![
            Ok(run(4, 20_000, 16_400, 3, 3)),
            Ok(run(1, 15_000, 12_800, 2, 2)),
        ]
    );
    assert_eq!(end, End::Finished);
}

#[test]
fn the_blocks_left_at_the_end_are_a_run() {
    let blocks = [(3, 10_000, 5), (2, 6400, 4), (1, 6000, 2)];
    let (sent, end) = serve(&blocks, None, 3);
    assert_eq!(sent, vec![Ok(run(3, 10_000, 6400, 2, 9)), Ok(run(1, 6000, 6000, 1, 2))]);
    assert_eq!(end, End::Finished);
}

#[test]
fn each_block_is_in_one_run() {
    let blocks: Vec<(u64, u64, u64)> =
        (0..60).rev().map(|n| (n, 100_000 + 700 * n, n + 1)).collect();
    let (sent, end) = serve(&blocks, None, 59);
    assert_eq!(end, End::Finished);
    let runs: Vec<BlockRun> = sent.into_iter().map(|item| item.unwrap()).collect();
    assert_eq!(runs.len(), 10);
    assert_eq!(runs.iter().map(|run| run.num_blocks).sum::<u64>(), 60);
    assert_eq!(runs.iter().map(|run| run.num_txs).sum::<u64>(), 60 * 61 / 2);
    for pair in runs.windows(2) {
        let prev = pair[0].prev_block.clone().unwrap();
        assert_eq!(prev.prev_block_number, pair[1].newest_block_number);
        assert_eq!(prev.prev_block_hash, pair[1].newest_block_hash);
    }
}

#[test]
fn a_block_one_second_too_young_ends_no_run() {
    let blocks = [(1, 20_000, 1), (0, 16_401, 1)];
    assert_eq!(serve(&blocks, None, 1).0, vec![Ok(run(1, 20_000, 16_401, 2, 2))]);
}

#[test]
fn times_below_the_minimum_saturate() {
    let blocks = [(2, 100, 1), (1, 50, 1), (0, 0, 1)];
    let (sent, _) = serve(&blocks, None, 2);
    assert_eq!(sent, vec![Ok(run(2, 100, 0, 3, 3))]);
    let blocks = [(2, 0, 1), (1, 0, 2), (0, 0, 4)];
    let (sent, _) = serve(&blocks, None, 2);
    assert_eq!(sent, vec![Ok(run(2, 0, 0, 1, 1)), Ok(run(1, 0, 0, 1, 2)), Ok(run(0, 0, 0, 1, 4))]);
}

#[test]
fn an_unchanged_chain_sends_its_cached_runs() {
    let blocks = [(5, 9000, 1), (4, 8000, 1)];
    let cached = vec![run(5, 9000, 5000, 3, 3), run(2, 4900, 100, 2, 8)];
    let (sent, end) = serve(&blocks, Some(cached.clone()), 5);
    let cached: Sent = cached.into_iter().map(Ok).collect();
    assert_eq!(sent, cached);
    assert_eq!(end, End::Finished);
}

#[test]
fn cached_runs_follow_the_new_ones() {
    let blocks = [(6, 200, 4), (5, 100, 1)];
    let mut last = run(5, 100, 50, 3, 9);
    last.prev_block = None;
    let (sent, end) = serve(&blocks, Some(vec![last.clone()]), 6);
    assert_eq!(sent, vec![Ok(run(6, 200, 200, 1, 4)), Ok(last)]);
    assert_eq!(end, End::Finished);

    let blocks = [(6, 9100, 2), (5, 9000, 1), (4, 8000, 1)];
    let cached = vec![run(5, 9000, 5000, 3, 3), run(2, 4900, 100, 2, 8)];
    let (sent, end) = serve(&blocks, Some(cached.clone()), 6);
    let mut expected: Sent = vec![Ok(run(6, 9100, 9100, 1, 2))];
    expected.extend(cached.into_iter().map(Ok));
    assert_eq!(sent, expected);
    assert_eq!(end, End::Finished);
}

#[test]
fn replaced_cached_runs_are_dropped() {
    let mut replaced = run(5, 9000, 5000, 3, 3);
    replaced.newest_block_hash = "other".to_string();
    let blocks = [(5, 9000, 1), (4, 8900, 1)];
    let (sent, end) = serve(&blocks, Some(vec![replaced]), 5);
    assert_eq!(sent, vec![Ok(run(5, 9000, 8900, 2, 2))]);
    assert_eq!(end, End::Finished);

    let above = run(9, 9900, 9800, 3, 3);
    let (sent, end) = serve(&blocks, Some(vec![above, run(4, 8900, 8000, 2, 9)]), 5);
    assert_eq!(sent, vec![Ok(run(5, 9000, 9000, 1, 1)), Ok(run(4, 8900, 8000, 2, 9))]);
    assert_eq!(end, End::Finished);
}

#[test]
fn a_missing_first_block_is_a_failure() {
    let (sent, end) = serve(&[], None, 3);
    assert_eq!(sent, vec![Err(Failure::Own(FigureError::MissingFirstBlock))]);
    assert_eq!(end, End::Finished);
}

#[test]
fn outside_failures_are_sent_once() {
    let (mut sender, step) = BlockRunSender::new::<&'static str>(3);
    assert!(matches!(step, RunStep::LoadSummary));
    let step = sender.advance(RunEvent::Summary(Err("disk")));
    assert!(matches!(step, RunStep::Send(Err(Failure::Outside("disk")))));
    let step = sender.advance(RunEvent::Sent(Err("closed")));
    assert!(matches!(step, RunStep::Finished));
    assert_eq!(sender.phase(), Phase::Done);
    assert!(!sender.can_advance(&RunEvent::<&'static str>::Sent(Ok(()))));
}

#[test]
fn a_run_that_ascends_is_refused() {
    let (mut sender, _) = BlockRunSender::new::<&'static str>(3);
    sender.advance(RunEvent::<&'static str>::Summary(Ok(None)));
    sender.advance(RunEvent::<&'static str>::Block(Ok(Some(block(3, 500, 1)))));
    sender.advance(RunEvent::<&'static str>::Block(Ok(Some(block(3, 500, 1)))));
    assert_eq!(sender.phase(), Phase::Walking);
    let mut later = block(8, 400, 1);
    later.prev_block_number = None;
    assert!(!sender.can_advance(&RunEvent::<&'static str>::Block(Ok(Some(later)))));
    assert!(sender.can_advance(&RunEvent::<&'static str>::Block(Ok(Some(block(2, 400, 1))))));
    assert!(sender.can_advance(&RunEvent::<&'static str>::Block(Ok(None))));
    assert!(!sender.can_advance(&RunEvent::<&'static str>::Sent(Ok(()))));
}

#[test]
fn old_runs_are_sent_on_the_way_to_the_cached_ones() {
    let blocks = [(7, 20_000, 1), (6, 16_000, 2), (5, 15_000, 4), (4, 14_000, 8)];
    let cached = vec![run(4, 14_000, 9000, 2, 9)];
    let (sent, end) = serve(&blocks, Some(cached), 7);
    assert_eq!(
        sent,
        vec![
            Ok(run(7, 20_000, 16_000, 2, 3)),
            Ok(run(5, 15_000, 15_000, 1, 4)),
            Ok(run(4, 14_000, 9000, 2, 9)),
        ]
    );
    assert_eq!(end, End::Finished);
}

#[test]
fn an_ascending_chain_is_refused_where_its_run_would_end() {
    let linked = |number: u64, timestamp: u64, prev: u64| {
        let mut linked = block(number, timestamp, 1);
        linked.prev_block_number = Some(prev);
        RunEvent::<&'static str>::Block(Ok(Some(linked)))
    };
    let (mut sender, _) = BlockRunSender::new::<&'static str>(3);
    sender.advance(RunEvent::<&'static str>::Summary(Ok(None)));
    sender.advance(linked(3, 500, 8));
    sender.advance(linked(3, 500, 8));
    assert_eq!(sender.phase(), Phase::Walking);
    assert!(sender.can_advance(&linked(8, 400, 7)));
    sender.advance(linked(8, 400, 7));
    assert!(!sender.can_advance(&RunEvent::<&'static str>::Block(Ok(None))));
    assert!(sender.can_advance(&RunEvent::Block(Err("disk"))));
    assert!(sender.can_advance(&linked(3, 300, 2)));
}
