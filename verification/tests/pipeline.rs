use realtps::blockrun::{BlockRunSender, RunEvent, RunStep};
use realtps::calculate::{
    calculate_tps, RunTally, TallyEvent, TallyStep, Tps, TxWalk, WalkStep, Window,
};
use realtps::chain::Chain;
use realtps::db::{Block, BlockRun, BlockRunSummary};
use realtps::error::Failure;
use realtps::merge::merge_short_runs;

fn block(number: u64) -> Block {
    Block {
        chain: Chain::near(),
        block_number: number,
        prev_block_number: number.checked_sub(1),
        timestamp: 1_000_000 + 700 * number,
        num_txs: 3 + number % 7,
        hash: format!("h{}", number),
        parent_hash: number.checked_sub(1).map(|n| format!("h{}", n)).unwrap_or_default(),
    }
}

type Items = Vec<Result<BlockRun, &'static str>>;

/// What is sent of the chain up to the given block, and how many blocks are asked for.
fn send(highest: u64, cached: Option<BlockRunSummary>) -> (Items, usize) {
    let mut cached = cached;
    let (mut sent, mut loads) = (Vec::new(), 0);
    let (mut sender, mut step) = BlockRunSender::new::<&'static str>(highest);
    loop {
        let event = match step {
            RunStep::LoadSummary => RunEvent::Summary(Ok(cached.take())),
            RunStep::LoadBlock(number) => {
                loads += 1;
                RunEvent::Block(Ok(Some(block(number))))
            }
            RunStep::Send(item) => {
                sent.push(Ok(item.unwrap()));
                RunEvent::Sent(Ok(()))
            }
            RunStep::Finished => return (sent, loads),
        };
        assert!(sender.can_advance(&event));
        step = sender.advance(event);
    }
}

fn walk(number: u64, hash: String, min_timestamp: u64) -> (u64, u64) {
    let (mut walk, mut step) = TxWalk::new::<&'static str>(number, hash, min_timestamp);
    loop {
        step = match step {
            WalkStep::LoadBlock(number) => walk.advance(Ok(Some(block(number)))),
            WalkStep::Finished(result) => return result.unwrap(),
        }
    }
}

type Rate = Result<Tps, Failure<&'static str>>;

/// Tallies a stream of runs over the given number of seconds.
fn tally(highest: u64, seconds: u64, runs: Items) -> (BlockRunSummary, Rate) {
    let newest = block(highest);
    let min_timestamp = newest.timestamp - seconds;
    let window = Window {
        highest_block_number: highest,
        highest_block_hash: newest.hash,
        highest_block_timestamp: newest.timestamp,
        min_timestamp,
    };
    let mut runs = runs.into_iter();
    let mut saved = BlockRunSummary { block_runs: Vec::new() };
    let (mut tally, mut step) = RunTally::new::<&'static str>(window);
    loop {
        step = match step {
            TallyStep::NextRun => tally.advance(TallyEvent::Run(runs.next())),
            TallyStep::CountTail(number, hash) => {
                tally.advance(TallyEvent::Tail(Ok(walk(number, hash, min_timestamp))))
            }
            TallyStep::Save(summary) => {
                saved = summary;
                tally.advance(TallyEvent::Saved(Ok(())))
            }
            TallyStep::Finished(result) => return (saved, result),
        }
    }
}

fn rate_of_blocks(highest: u64, seconds: u64) -> Rate {
    let newest = block(highest);
    let (num_txs, init) = walk(highest, newest.hash.clone(), newest.timestamp - seconds);
    Ok(calculate_tps(init, newest.timestamp, num_txs).unwrap())
}

#[test]
fn built_runs_agree_with_the_blocks() {
    for seconds in [700, 3599, 3600, 4200, 10_000, 42_000] {
        let (sent, _) = send(100, None);
        assert_eq!(sent.len(), 17);
        let (saved, rate) = tally(100, seconds, merge_short_runs(sent));
        assert_eq!(rate, rate_of_blocks(100, seconds));
        assert!(!saved.block_runs.is_empty());
    }
}

#[test]
fn saved_runs_serve_the_next_calculation() {
    let seconds = 42_000;
    let (saved, _) = tally(100, seconds, merge_short_runs(send(100, None).0));
    let kept = saved.block_runs.clone();
    assert!(kept.last().unwrap().oldest_block_timestamp <= block(100).timestamp - seconds);

    for highest in [100, 101, 104, 107, 120] {
        let cached = BlockRunSummary { block_runs: kept.clone() };
        let (sent, loads) = send(highest, Some(cached));
        let new = sent.len() - kept.len();
        let runs: Vec<BlockRun> = sent.iter().map(|item| item.clone().unwrap()).collect();
        assert_eq!(runs[new..].to_vec(), kept);
        let new_blocks: u64 = runs[..new].iter().map(|run| run.num_blocks).sum();
        assert_eq!(new_blocks, highest - 100);
        assert_eq!(loads, (highest - 100) as usize + 2);
        let (_, rate) = tally(highest, seconds, merge_short_runs(sent));
        assert_eq!(rate, rate_of_blocks(highest, seconds));
    }
}
