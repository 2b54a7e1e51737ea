use realtps::chain::Chain;
use realtps::db::Block;
use realtps::error::FigureError;
use realtps::solana::{
    calc_user_txs, decode_transactions, solana_block_of, solana_block_to_block,
    try_solana_block_to_block, SolanaBlock, SolanaTransaction, TransactionText,
};
use solana_sdk::instruction::Instruction;
use solana_sdk::message::Message;
use solana_sdk::pubkey::Pubkey;
use solana_sdk::transaction::Transaction;
use solana_transaction_status::{EncodedTransaction, UiTransactionEncoding};

fn key(n: u8) -> Pubkey {
    Pubkey::new_from_array([n; 32])
}

/// A transaction with an instruction for each of the programs.
fn transaction(programs: &[Pubkey]) -> Transaction {
    let instructions: Vec<Instruction> = programs
        .iter()
        .map(|program| Instruction { program_id: *program, accounts: vec![], data: vec![1, 2] })
        .collect();
    Transaction::new_unsigned(Message::new(&instructions, Some(&key(9))))
}

fn base64(programs: &[Pubkey]) -> Option<TransactionText> {
    match EncodedTransaction::encode(transaction(programs), UiTransactionEncoding::Base64) {
        EncodedTransaction::Binary(blob, _) => Some(TransactionText::Base64(blob)),
        _ => panic!("not encoded"),
    }
}

fn vote() -> Pubkey {
    solana_sdk::vote::program::id()
}

fn block(transactions: Vec<Option<TransactionText>>, block_time: Option<i64>) -> SolanaBlock {
    SolanaBlock {
        previous_blockhash: "prev".to_string(),
        blockhash: "hash".to_string(),
        parent_slot: 118,
        transactions,
        block_time,
    }
}

#[test]
fn votes_are_not_counted() {
    let transactions = vec![
        base64(&[vote()]),
        base64(&[key(1)]),
        base64(&[vote(), vote()]),
        base64(&[vote(), key(2)]),
        base64(&[]),
    ];
    let kept = solana_block_to_block(block(transactions, Some(1_640_000_000)), 120).unwrap();
    assert_eq!(
        kept,
        Block {
            chain: Chain::solana(),
            block_number: 120,
            prev_block_number: Some(118),
            timestamp: 1_640_000_000,
            num_txs: 2,
            hash: "hash".to_string(),
            parent_hash: "prev".to_string(),
        }
    );
}

#[test]
fn transactions_decode_to_keys_and_programs() {
    let decoded = decode_transactions(&block(vec![base64(&[key(1), vote()])], None)).unwrap();
    assert_eq!(decoded.len(), 1);
    let tx = &decoded[0];
    assert_eq!(tx.account_keys[0], [9; 32]);
    assert_eq!(tx.program_id_indexes.len(), 2);
    let program = |i: usize| tx.account_keys[usize::from(tx.program_id_indexes[i])];
    assert_eq!(program(0), [1; 32]);
    assert_eq!(program(1), vote().to_bytes());
}

#[test]
fn all_encodings_decode() {
    let legacy =
        match EncodedTransaction::encode(transaction(&[key(1)]), UiTransactionEncoding::Binary) {
            EncodedTransaction::LegacyBinary(blob) => Some(TransactionText::LegacyBinary(blob)),
            _ => panic!("not encoded"),
        };
    let base58 =
        match EncodedTransaction::encode(transaction(&[key(1)]), UiTransactionEncoding::Base58) {
            EncodedTransaction::Binary(blob, _) => Some(TransactionText::Base58(blob)),
            _ => panic!("not encoded"),
        };
    let decoded = decode_transactions(&block(vec![legacy, base58, base64(&[key(1)])], None));
    let decoded = decoded.unwrap();
    for tx in &decoded {
        assert_eq!(tx.account_keys, decoded[0].account_keys);
        assert_eq!(tx.program_id_indexes, decoded[0].program_id_indexes);
    }
}

#[test]
fn times_come_before_transactions() {
    let garbage = || vec![Some(TransactionText::Base64("!".to_string()))];
    assert!(decode_transactions(&block(garbage(), None)).is_none());
    assert_eq!(
        try_solana_block_to_block(block(garbage(), None), 7),
        Some(Err(FigureError::BlockTimeUnavailable { slot: 7 }))
    );
    assert_eq!(
        try_solana_block_to_block(block(garbage(), Some(-1)), 7),
        Some(Err(FigureError::OutOfRange))
    );
    assert_eq!(try_solana_block_to_block(block(garbage(), Some(0)), 7), None);
    assert_eq!(try_solana_block_to_block(block(vec![None], Some(0)), 7), None);
}

#[test]
fn unsound_transactions_do_not_decode() {
    let mut tx = transaction(&[key(1)]);
    tx.message.instructions[0].program_id_index = 200;
    let text = match EncodedTransaction::encode(tx, UiTransactionEncoding::Base64) {
        EncodedTransaction::Binary(blob, _) => TransactionText::Base64(blob),
        _ => panic!("not encoded"),
    };
    assert!(decode_transactions(&block(vec![Some(text)], None)).is_none());
}

#[test]
fn a_block_of_given_transactions() {
    let vote_key: [u8; 32] = [
        0x07, 0x61, 0x48, 0x1d, 0x35, 0x74, 0x74, 0xbb, 0x7c, 0x4d, 0x76, 0x24, 0xeb, 0xd3, 0xbd,
        0xb3, 0xd8, 0x35, 0x5e, 0x73, 0xd1, 0x10, 0x43, 0xfc, 0x0d, 0xa3, 0x53, 0x80, 0x00, 0x00,
        0x00, 0x00,
    ];
    assert_eq!(vote_key, vote().to_bytes());
    let tx = |programs: Vec<u8>| SolanaTransaction {
        account_keys: vec![[1; 32], vote_key, [2; 32]],
        program_id_indexes: programs,
    };
    let txs = vec![tx(vec![1]), tx(vec![2]), tx(vec![1, 1, 0]), tx(vec![]), tx(vec![1, 1])];
    assert_eq!(calc_user_txs(&txs), 2);
    assert_eq!(calc_user_txs(&vec![]), 0);
    let kept = solana_block_of(block(vec![], Some(5)), 121, &txs).unwrap();
    assert_eq!((kept.block_number, kept.timestamp, kept.num_txs), (121, 5, 2));
    let kept = try_solana_block_to_block(block(vec![], Some(5)), 121).unwrap().unwrap();
    assert_eq!(kept.num_txs, 0);
}
