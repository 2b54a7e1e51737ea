use realtps::chain::Chain;
use realtps::client::{
    ethers_block_to_block, near_block_to_block, near_num_txs, stellar_latest_ledger,
    stellar_ledger_number, stellar_ledger_to_block, tendermint_block_to_block, tendermint_height,
    EthersBlock, NearBlock, StellarLedger, TendermintBlock,
};
use realtps::db::Block;
use realtps::error::{Failure, FigureError};

fn counting_bytes() -> [u8; 32] {
    let mut bytes = [0u8; 32];
    for i in 0..32u8 {
        bytes[usize::from(i)] = i;
    }
    bytes
}

#[test]
fn ethers_blocks() {
    let block = EthersBlock {
        number: Some(14_000_000),
        timestamp: [1_642_114_795, 0, 0, 0],
        num_txs: 112,
        hash: Some(counting_bytes()),
        parent_hash: [0xab; 32],
    };
    let kept = ethers_block_to_block(Chain::new("ethereum").unwrap(), block).unwrap();
    assert_eq!(
        kept,
        Block {
            chain: Chain::new("ethereum").unwrap(),
            block_number: 14_000_000,
            prev_block_number: Some(13_999_999),
            timestamp: 1_642_114_795,
            num_txs: 112,
            hash: "000102030405060708090a0b0c0d0e0f101112131415161718191a1b1c1d1e1f".to_string(),
            parent_hash: "ab".repeat(32),
        }
    );
}

#[test]
fn ethers_first_block_and_late_times() {
    let genesis = EthersBlock {
        number: Some(0),
        timestamp: [u64::MAX, 0, 0, 0],
        num_txs: 0,
        hash: Some([0; 32]),
        parent_hash: [0; 32],
    };
    let kept = ethers_block_to_block(Chain::near(), genesis).unwrap();
    assert_eq!((kept.block_number, kept.prev_block_number), (0, None));
    assert_eq!(kept.timestamp, u64::MAX);
    for word in 1..4 {
        let mut timestamp = [5, 0, 0, 0];
        timestamp[word] = 1;
        let late = EthersBlock {
            number: Some(1),
            timestamp,
            num_txs: 0,
            hash: None,
            parent_hash: [0; 32],
        };
        assert_eq!(ethers_block_to_block(Chain::near(), late), Err(FigureError::WideOverflow));
    }
}

#[test]
fn near_blocks() {
    let block = NearBlock {
        prev_height: Some(61_000_120),
        timestamp_nanosec: 1_647_000_000_999_999_999,
        hash: counting_bytes(),
        prev_hash: [0xff; 32],
    };
    let kept = near_block_to_block(block, 61_000_123, near_num_txs(&vec![3, 0, 4]).unwrap()).unwrap();
    assert_eq!(
        kept,
        Block {
            chain: Chain::near(),
            block_number: 61_000_123,
            prev_block_number: Some(61_000_120),
            timestamp: 1_647_000_000,
            num_txs: 7,
            hash: "1thX6LZfHDZZKUs92febYZhYRcXddmzfzF2NvTkPNE".to_string(),
            parent_hash: "JEKNVnkbo3jma5nREBBJCDoXFVeKkD56V3xKrvRmWxFG".to_string(),
        }
    );
    assert_eq!(near_num_txs(&vec![]), Some(0));
    assert_eq!(near_num_txs(&vec![usize::MAX - 2, 2]), Some(usize::MAX as u64));
    assert_eq!(near_num_txs(&vec![usize::MAX - 2, 2, 1]), None);
    assert_eq!(near_num_txs(&vec![1, usize::MAX, 0]), None);
}

#[test]
fn near_hashes_with_leading_zeros() {
    let mut last = [0u8; 32];
    last[31] = 58;
    let block = NearBlock { prev_height: None, timestamp_nanosec: 0, hash: [0; 32], prev_hash: last };
    let kept = near_block_to_block(block, 0, 0).unwrap();
    assert_eq!(kept.prev_block_number, None);
    assert_eq!(kept.hash, "1".repeat(32));
    assert_eq!(kept.parent_hash, "111111111111111111111111111111121");
}

fn ledger(previous_hash: Option<&str>, closed_at: i64, operation_count: i32) -> StellarLedger {
    StellarLedger {
        hash: "aa".to_string(),
        previous_hash: previous_hash.map(|h| h.to_string()),
        closed_at,
        operation_count,
    }
}

#[test]
fn stellar_ledgers() {
    let kept = stellar_ledger_to_block(ledger(Some("bb"), 1_640_000_000, 250), 39_000_000).unwrap();
    assert_eq!(
        kept,
        Block {
            chain: Chain::stellar(),
            block_number: 39_000_000,
            prev_block_number: Some(38_999_999),
            timestamp: 1_640_000_000,
            num_txs: 250,
            hash: "aa".to_string(),
            parent_hash: "bb".to_string(),
        }
    );
    let first = stellar_ledger_to_block(ledger(Some("bb"), -1, -2), 0).unwrap();
    assert_eq!(first.prev_block_number, None);
    assert_eq!(first.timestamp, u64::MAX);
    assert_eq!(first.num_txs, u64::MAX - 1);
    assert_eq!(
        stellar_ledger_to_block(ledger(None, 1, 1), 5),
        Err(FigureError::MissingParentHash)
    );
}

#[test]
fn stellar_numbers() {
    assert_eq!(stellar_ledger_number(0), Ok(0));
    assert_eq!(stellar_ledger_number(2_147_483_647), Ok(i32::MAX));
    assert_eq!(stellar_ledger_number(2_147_483_648), Err(FigureError::LedgerOutOfRange));
    assert_eq!(stellar_latest_ledger(&vec![]), Err(FigureError::EmptyLedgerSet));
    assert_eq!(stellar_latest_ledger(&vec![39_000_001]), Ok(39_000_001));
    assert_eq!(stellar_latest_ledger(&vec![7, 8]), Ok(8));
    assert_eq!(stellar_latest_ledger(&vec![-1]), Ok(u64::MAX));
}

#[test]
fn tendermint_blocks() {
    let block = TendermintBlock {
        time_seconds: 1_645_000_000,
        num_txs: 9,
        hash: Some(counting_bytes()),
        last_block_hash: Some(Some([0xab; 32])),
    };
    let chain = Chain::new("terra").unwrap();
    let kept = tendermint_block_to_block(chain, block, 6_500_000).unwrap();
    assert_eq!(
        kept,
        Block {
            chain: Chain::new("terra").unwrap(),
            block_number: 6_500_000,
            prev_block_number: Some(6_499_999),
            timestamp: 1_645_000_000,
            num_txs: 9,
            hash: "000102030405060708090A0B0C0D0E0F101112131415161718191A1B1C1D1E1F".to_string(),
            parent_hash: "AB".repeat(32),
        }
    );
}

#[test]
fn tendermint_empty_hashes_and_errors() {
    let block = |time_seconds: i64, last_block_hash: Option<Option<[u8; 32]>>| TendermintBlock {
        time_seconds,
        num_txs: 0,
        hash: None,
        last_block_hash,
    };
    let kept = tendermint_block_to_block(Chain::near(), block(0, Some(None)), 0).unwrap();
    assert_eq!((kept.hash.as_str(), kept.parent_hash.as_str()), ("", ""));
    assert_eq!(kept.prev_block_number, None);
    assert_eq!(
        tendermint_block_to_block(Chain::near(), block(0, None), 1),
        Err(FigureError::NoPreviousBlockId)
    );
    assert_eq!(
        tendermint_block_to_block(Chain::near(), block(-1, None), 1),
        Err(FigureError::OutOfRange)
    );
}

#[test]
fn tendermint_heights() {
    for number in [0, 6_500_000, 9_223_372_036_854_775_807] {
        assert_eq!(tendermint_height(number).unwrap(), number);
    }
    for number in [9_223_372_036_854_775_808, u64::MAX] {
        match tendermint_height(number) {
            Err(Failure::Outside(e)) => {
                assert_eq!(e.detail().to_string(), "integer overflow");
                assert!(e.to_string().starts_with("integer overflow"));
            }
            other => panic!("{:?}", other),
        }
    }
}

#[test]
fn hash_texts_tell_hashes_apart() {
    let mut texts = Vec::new();
    for i in 0..32 {
        for value in [1u8, 57, 58, 255] {
            let mut hash = [0u8; 32];
            hash[i] = value;
            let block = NearBlock { prev_height: None, timestamp_nanosec: 0, hash, prev_hash: hash };
            texts.push(near_block_to_block(block, 1, 1).unwrap().hash);
        }
    }
    let count = texts.len();
    texts.sort();
    texts.dedup();
    assert_eq!(texts.len(), count);
}

#[test]
fn hexadecimal_texts_tell_hashes_apart() {
    let mut lower = Vec::new();
    let mut upper = vec![String::new()];
    for i in 0..32 {
        for value in [1u8, 16, 160] {
            let mut hash = [0u8; 32];
            hash[i] = value;
            let block = EthersBlock {
                number: Some(1),
                timestamp: [0; 4],
                num_txs: 0,
                hash: Some(hash),
                parent_hash: hash,
            };
            lower.push(ethers_block_to_block(Chain::near(), block).unwrap().hash);
            let block = TendermintBlock {
                time_seconds: 0,
                num_txs: 0,
                hash: Some(hash),
                last_block_hash: Some(None),
            };
            upper.push(tendermint_block_to_block(Chain::near(), block, 1).unwrap().hash);
        }
    }
    for mut texts in [lower, upper] {
        let count = texts.len();
        texts.sort();
        texts.dedup();
        assert_eq!(texts.len(), count);
    }
}
