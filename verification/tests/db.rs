use realtps::chain::Chain;
use realtps::db::{
    next_write_step, read_json_db, read_result, write_json_db, write_json_db_with, Block, BlockRun,
    BlockRunSummary, JsonDb, PreviousBlock, ReadOutcome, WriteStep, BLOCK_RUN_SUMMARY,
    HIGHEST_BLOCK_NUMBER, JSON_DB_DIR, TRANSACTIONS_PER_SECOND,
};

fn block(chain: Chain, number: u64) -> Block {
    Block {
        chain,
        block_number: number,
        prev_block_number: number.checked_sub(1),
        timestamp: 1_640_995_200,
        num_txs: 12,
        hash: "aa".to_string(),
        parent_hash: "bb".to_string(),
    }
}

fn suffix_of(path: &str, file: &str) -> u32 {
    let rest = path.strip_prefix(file).unwrap();
    let rest = rest.strip_prefix('.').unwrap();
    rest.strip_suffix(".temp").unwrap().parse().unwrap()
}

#[test]
fn names_of_the_store() {
    assert_eq!(JSON_DB_DIR, "db");
    assert_eq!(HIGHEST_BLOCK_NUMBER, "highest_block_number");
    assert_eq!(TRANSACTIONS_PER_SECOND, "tps");
    assert_eq!(BLOCK_RUN_SUMMARY, "block_runs");
}

#[test]
fn chain_names() {
    assert_eq!(Chain::near().name(), "near");
    assert_eq!(Chain::solana().name(), "solana");
    assert_eq!(Chain::stellar().name(), "stellar");
    assert_eq!(Chain::new("ethereum").unwrap().name(), "ethereum");
    assert!(Chain::new("").is_none());
    assert!(Chain::new("a/b").is_none());
    assert!(Chain::new(".").is_none());
    assert!(Chain::new("..").is_none());
    for name in ["...", ".a", "a.", "..a", "a"] {
        assert_eq!(Chain::new(name).unwrap().name(), name);
    }
    assert_eq!(Chain::near().clone(), Chain::near());
}

#[test]
fn a_block_is_loaded_from_where_it_was_stored() {
    let write = JsonDb.store_block(block(Chain::near(), 61_000_123));
    assert_eq!(write.file_dir, "db/near");
    assert_eq!(write.file_path, "db/near/61000123");
    assert_eq!(write.data, block(Chain::near(), 61_000_123));
    suffix_of(&write.temp_file_path, &write.file_path);
    assert_eq!(JsonDb.load_block(&Chain::near(), 61_000_123), write.file_path);
    assert_ne!(JsonDb.load_block(&Chain::near(), 61_000_124), write.file_path);
    assert_ne!(JsonDb.load_block(&Chain::solana(), 61_000_123), write.file_path);
}

#[test]
fn every_record_has_its_own_path() {
    let chain = Chain::stellar();
    let highest = JsonDb.store_highest_block_number(&chain, 40);
    assert_eq!(highest.file_path, "db/stellar/highest_block_number");
    assert_eq!(highest.data, 40);
    assert_eq!(JsonDb.load_highest_block_number(&chain), highest.file_path);

    let tps = JsonDb.store_tps(&chain, 2.5f64);
    assert_eq!(tps.file_path, "db/stellar/tps");
    assert_eq!(tps.data, 2.5);
    assert_eq!(JsonDb.load_tps(&chain), tps.file_path);

    let runs = JsonDb.store_block_run_summary(&chain, BlockRunSummary { block_runs: vec![] });
    assert_eq!(runs.file_path, "db/stellar/block_runs");
    assert_eq!(runs.data.block_runs.len(), 0);
    assert_eq!(JsonDb.load_block_run_summary(&chain), runs.file_path);
}

#[test]
fn temporary_names_are_apart_from_records() {
    let write = write_json_db_with("near", "7", (), 4_294_967_295);
    assert_eq!(write.file_dir, "db/near");
    assert_eq!(write.file_path, "db/near/7");
    assert_eq!(write.temp_file_path, "db/near/7.4294967295.temp");
    assert_eq!(read_json_db("near", "7"), "db/near/7");
}

#[test]
fn temporary_names_are_drawn_at_random() {
    let mut suffixes: Vec<u32> = Vec::new();
    for _ in 0..8 {
        let write = write_json_db("near", "tps", 1u8);
        suffixes.push(suffix_of(&write.temp_file_path, "db/near/tps"));
    }
    suffixes.sort();
    suffixes.dedup();
    assert!(suffixes.len() > 1);
}

fn finish(outcomes: &[Result<(), &'static str>]) -> (Vec<&'static str>, Result<(), &'static str>) {
    let mut step: WriteStep<&'static str> = WriteStep::CreateDir;
    let mut seen = Vec::new();
    for outcome in outcomes {
        seen.push(match step {
            WriteStep::CreateDir => "dir",
            WriteStep::CreateTemp => "temp",
            WriteStep::Serialize => "data",
            WriteStep::Rename => "move",
            WriteStep::Remove(_) => "remove",
            WriteStep::Finished(_) => panic!("goes on after its end"),
        });
        step = next_write_step(step, *outcome);
    }
    match step {
        WriteStep::Finished(result) => (seen, result),
        _ => panic!("not finished"),
    }
}

#[test]
fn a_write_moves_its_file_last() {
    let all = finish(&[Ok(()), Ok(()), Ok(()), Ok(())]);
    assert_eq!(all, (vec!["dir", "temp", "data", "move"], Ok(())));
    assert_eq!(finish(&[Err("d")]), (vec!["dir"], Err("d")));
    assert_eq!(finish(&[Ok(()), Err("t")]), (vec!["dir", "temp"], Err("t")));
    let moved = finish(&[Ok(()), Ok(()), Ok(()), Err("m")]);
    assert_eq!(moved, (vec!["dir", "temp", "data", "move"], Err("m")));
}

#[test]
fn a_write_that_fails_removes_its_file() {
    let removed = finish(&[Ok(()), Ok(()), Err("s"), Ok(())]);
    assert_eq!(removed, (vec!["dir", "temp", "data", "remove"], Err("s")));
    let stuck = finish(&[Ok(()), Ok(()), Err("s"), Err("r")]);
    assert_eq!(stuck, (vec!["dir", "temp", "data", "remove"], Err("r")));
}

#[test]
fn reads_tell_missing_files_from_failures() {
    assert_eq!(read_result::<u8, &str>(ReadOutcome::NotFound), Ok(None));
    assert_eq!(read_result::<u8, &str>(ReadOutcome::Failed("denied")), Err("denied"));
    assert_eq!(read_result::<u8, &str>(ReadOutcome::Opened(Ok(3))), Ok(Some(3)));
    assert_eq!(read_result::<u8, &str>(ReadOutcome::Opened(Err("json"))), Err("json"));
}

#[test]
fn runs_can_be_copied() {
    let run = BlockRun {
        newest_block_number: 9,
        newest_block_hash: "h9".to_string(),
        newest_block_timestamp: 90,
        oldest_block_timestamp: 80,
        prev_block: Some(PreviousBlock { prev_block_number: 7, prev_block_hash: "h7".to_string() }),
        num_blocks: 2,
        num_txs: 5,
    };
    assert_eq!(run.clone(), run);
}
