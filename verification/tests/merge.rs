use realtps::blockrun::summarize;
use realtps::chain::Chain;
use realtps::db::{Block, BlockRun, PreviousBlock};
use realtps::merge::{merge_short_runs, RunMerger};

fn run(newest: u64, newest_time: u64, oldest_time: u64, num_blocks: u64, num_txs: u64) -> BlockRun {
    BlockRun {
        newest_block_number: newest,
        newest_block_hash: format!("h{}", newest),
        newest_block_timestamp: newest_time,
        oldest_block_timestamp: oldest_time,
        prev_block: newest.checked_sub(num_blocks).map(|number| PreviousBlock {
            prev_block_number: number,
            prev_block_hash: format!("h{}", number),
        }),
        num_blocks,
        num_txs,
    }
}

type Items = Vec<Result<BlockRun, &'static str>>;

#[test]
fn short_neighbours_are_merged() {
    let items: Items = vec![Ok(run(9, 9000, 8000, 3, 5)), Ok(run(6, 7900, 5401, 2, 4))];
    let out = merge_short_runs(items);
    assert_eq!(out, vec![Ok(run(9, 9000, 5401, 5, 9))]);
}

#[test]
fn runs_that_span_the_minimum_together_stay_apart() {
    let items: Items = vec![Ok(run(9, 9000, 8000, 3, 5)), Ok(run(6, 7900, 5400, 2, 4))];
    assert_eq!(merge_short_runs(items.clone()), items);
}

#[test]
fn merging_goes_on_with_the_merged_run() {
    let items: Items = vec![
        Ok(run(9, 9000, 8000, 1, 1)),
        Ok(run(8, 7000, 6000, 1, 2)),
        Ok(run(7, 5900, 5800, 1, 4)),
        Ok(run(6, 5300, 5200, 1, 8)),
        Ok(run(5, 5100, 2000, 2, 16)),
    ];
    let out = merge_short_runs(items);
    assert_eq!(
        out,
        vec![
            Ok(run(9, 9000, 5800, 3, 7)),
            Ok(run(6, 5300, 2000, 3, 24)),
        ]
    );
}

#[test]
fn merging_twice_changes_nothing_more() {
    let items: Items = vec![
        Ok(run(9, 9000, 8000, 1, 1)),
        Ok(run(8, 7000, 6000, 1, 2)),
        Ok(run(7, 5300, 1000, 1, 4)),
        Ok(run(6, 900, 800, 1, 8)),
    ];
    let once = merge_short_runs(items);
    assert_eq!(once.len(), 3);
    assert_eq!(merge_short_runs(once.clone()), once);
}

#[test]
fn newest_times_do_not_matter_to_merging_twice() {
    let items: Items = vec![
        Ok(run(9, 9000, 8000, 1, 1)),
        Ok(run(8, 500, 7000, 1, 2)),
        Ok(run(7, 20_000, 6900, 1, 4)),
        Ok(run(6, 400, 300, 1, 8)),
    ];
    let once = merge_short_runs(items);
    assert_eq!(once, vec![Ok(run(9, 9000, 6900, 3, 7)), Ok(run(6, 400, 300, 1, 8))]);
    assert_eq!(merge_short_runs(once.clone()), once);
}

#[test]
fn times_that_rise_can_leave_short_neighbours() {
    let items: Items = vec![
        Ok(run(9, 9000, 8000, 1, 1)),
        Ok(run(8, 6000, 5000, 1, 2)),
        Ok(run(7, 5500, 5450, 1, 4)),
    ];
    let once = merge_short_runs(items);
    assert_eq!(once, vec![Ok(run(9, 9000, 8000, 1, 1)), Ok(run(8, 6000, 5450, 2, 6))]);
    assert_eq!(merge_short_runs(once), vec![Ok(run(9, 9000, 5450, 3, 7))]);
}

#[test]
fn errors_pass_and_part_runs() {
    let items: Items = vec![
        Err("a"),
        Ok(run(9, 9000, 8900, 1, 1)),
        Err("b"),
        Ok(run(8, 8800, 8700, 1, 1)),
    ];
    assert_eq!(merge_short_runs(items.clone()), items);
    assert_eq!(merge_short_runs(Items::new()), Items::new());
}

#[test]
fn counts_saturate() {
    let items: Items =
        vec![Ok(run(9, 9000, 8900, u64::MAX, u64::MAX)), Ok(run(8, 8800, 8700, 1, 1))];
    let out = merge_short_runs(items);
    assert_eq!(out.len(), 1);
    let merged = out[0].clone().unwrap();
    assert_eq!((merged.num_blocks, merged.num_txs), (u64::MAX, u64::MAX));
}

#[test]
fn times_out_of_order_count_as_short() {
    let items: Items = vec![Ok(run(9, 100, 90, 1, 1)), Ok(run(8, 9000, 8000, 1, 1))];
    assert_eq!(merge_short_runs(items), vec![Ok(run(9, 100, 8000, 2, 2))]);
}

#[test]
fn a_merger_holds_the_last_run_back() {
    let mut merger = RunMerger::new();
    assert_eq!(merger.offer::<&'static str>(Ok(run(9, 9000, 8000, 1, 1))), vec![]);
    let ready = merger.offer::<&'static str>(Ok(run(8, 5000, 4000, 1, 1)));
    assert_eq!(ready, vec![Ok(run(9, 9000, 8000, 1, 1))]);
    assert_eq!(merger.finish(), Some(run(8, 5000, 4000, 1, 1)));
    assert_eq!(RunMerger::new().finish(), None);
}

fn blocks(numbers: &[u64]) -> Vec<Block> {
    let block = |number: &u64| Block {
        chain: Chain::near(),
        block_number: *number,
        prev_block_number: number.checked_sub(1),
        timestamp: 1000 + 100 * number,
        num_txs: 10 + number,
        hash: format!("h{}", number),
        parent_hash: format!("p{}", number),
    };
    numbers.iter().map(block).collect()
}

#[test]
fn a_joined_run_is_that_of_all_its_blocks() {
    let items: Items = vec![
        Ok(summarize(&blocks(&[90, 89, 88]))),
        Ok(summarize(&blocks(&[87]))),
        Ok(summarize(&blocks(&[86, 85, 54]))),
        Ok(summarize(&blocks(&[53, 0]))),
    ];
    assert_eq!(
        merge_short_runs(items),
        vec![
            Ok(summarize(&blocks(&[90, 89, 88, 87]))),
            Ok(summarize(&blocks(&[86, 85, 54]))),
            Ok(summarize(&blocks(&[53, 0]))),
        ]
    );
}

#[test]
fn merging_keeps_counts_and_ends() {
    let items: Items = (0..40).rev().map(|n| Ok(summarize(&blocks(&[3 * n + 1, 3 * n])))).collect();
    let total = |items: &Items| {
        let runs = items.iter().map(|item| item.as_ref().unwrap());
        runs.fold((0, 0), |sum, run| (sum.0 + run.num_txs, sum.1 + run.num_blocks))
    };
    let out = merge_short_runs(items.clone());
    assert!(out.len() < items.len());
    assert_eq!(total(&out), total(&items));
    let (first, last) = (out[0].clone().unwrap(), out[out.len() - 1].clone().unwrap());
    assert_eq!(first.newest_block_number, 118);
    assert_eq!(last.oldest_block_timestamp, 1000);
    assert_eq!(last.prev_block, None);
    for pair in out.windows(2) {
        let (newer, older) = (pair[0].clone().unwrap(), pair[1].clone().unwrap());
        assert!(newer.newest_block_timestamp - older.oldest_block_timestamp >= 3600);
    }
}
