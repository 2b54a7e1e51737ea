//! Blocks of Solana, and which of their transactions are not mere votes.

use crate::chain::Chain;
use crate::client::block_result;
use crate::db::{Block, BlockView};
use crate::error::FigureError;
use crate::hashes::HashBytes;
use solana_transaction_status::{EncodedTransaction, UiTransactionEncoding};
use vstd::prelude::*;

verus! {

/// A transaction as a node gives it, encoded as text.
pub enum TransactionText {
    /// In base 58, in the form that older nodes use.
    LegacyBinary(String),
    /// In base 58.
    Base58(String),
    /// In base 64.
    Base64(String),
}

/// The view of an encoded transaction.
pub enum TransactionTextView {
    LegacyBinary(Seq<char>),
    Base58(Seq<char>),
    Base64(Seq<char>),
}

impl View for TransactionText {
    type V = TransactionTextView;

    open spec fn view(&self) -> TransactionTextView {
        match *self {
            TransactionText::LegacyBinary(blob) => TransactionTextView::LegacyBinary(blob@),
            TransactionText::Base58(blob) => TransactionTextView::Base58(blob@),
            TransactionText::Base64(blob) => TransactionTextView::Base64(blob@),
        }
    }
}

/// A transaction, as far as the figures need it.
pub struct SolanaTransaction {
    /// The keys of all accounts that the transaction uses.
    pub account_keys: Vec<HashBytes>,
    /// Of each instruction, the place of its program among those keys.
    pub program_id_indexes: Vec<u8>,
}

/// The view of a transaction.
#[verifier::ext_equal]
pub struct SolanaTransactionView {
    pub account_keys: Seq<Seq<u8>>,
    pub program_id_indexes: Seq<u8>,
}

impl View for SolanaTransaction {
    type V = SolanaTransactionView;

    open spec fn view(&self) -> SolanaTransactionView {
        SolanaTransactionView {
            account_keys: self.account_keys@.map_values(|key: HashBytes| key@),
            program_id_indexes: self.program_id_indexes@,
        }
    }
}

impl SolanaTransactionView {
    /// The program of every instruction is among the accounts.
    pub open spec fn well_indexed(self) -> bool {
        forall|i: int|
            0 <= i < self.program_id_indexes.len() ==> (#[trigger] self.program_id_indexes[i])
                < self.account_keys.len()
    }

    /// The key of an instruction's program.
    pub open spec fn program(self, i: int) -> Seq<u8> {
        self.account_keys[self.program_id_indexes[i] as int]
    }

    /// The transaction has an instruction that is not for the vote program.
    pub open spec fn is_user_transaction(self) -> bool {
        exists|i: int|
            0 <= i < self.program_id_indexes.len() && #[trigger] self.program(i)
                != vote_program()
    }
}

/// The views of transactions, in order.
pub open spec fn transaction_views(txs: Seq<SolanaTransaction>) -> Seq<SolanaTransactionView> {
    txs.map_values(|tx: SolanaTransaction| tx@)
}

/// The key of the vote program.
pub open spec fn vote_program() -> Seq<u8> {
    seq![
        0x07,
        0x61,
        0x48,
        0x1d,
        0x35,
        0x74,
        0x74,
        0xbb,
        0x7c,
        0x4d,
        0x76,
        0x24,
        0xeb,
        0xd3,
        0xbd,
        0xb3,
        0xd8,
        0x35,
        0x5e,
        0x73,
        0xd1,
        0x10,
        0x43,
        0xfc,
        0x0d,
        0xa3,
        0x53,
        0x80,
        0x00,
        0x00,
        0x00,
        0x00,
    ]
}

/// Calls `solana_sdk::vote::program::id`. By its source it is the key written
/// `Vote111111111111111111111111111111111111111` in base 58, which these bytes are.
#[verifier::external_body]
fn vote_program_key() -> (key: HashBytes)
    ensures
        key@ == vote_program(),
{
    solana_sdk::vote::program::id().to_bytes()
}

/// What an encoded transaction decodes to, if it does.
pub uninterp spec fn decoded_transaction(text: TransactionTextView) -> Option<
    SolanaTransactionView,
>;

/// Calls `solana_transaction_status::EncodedTransaction::decode`, and picks the keys
/// of the accounts and the places of the programs from the message that it gives.
/// What it gives depends on the text alone. By its source it gives a transaction
/// only where that passes `sanitize`, which asks that the program of every
/// instruction is among the accounts.
#[verifier::external_body]
fn decode_text(text: &TransactionText) -> (tx: Option<SolanaTransaction>)
    ensures
        decoded_transaction(text@) == match tx {
            Some(tx) => Some(tx@),
            None => None,
        },
        tx matches Some(tx) ==> tx@.well_indexed(),
{
    let encoded = match text {
        TransactionText::LegacyBinary(blob) => EncodedTransaction::LegacyBinary(blob.clone()),
        TransactionText::Base58(blob) => {
            EncodedTransaction::Binary(blob.clone(), UiTransactionEncoding::Base58)
        },
        TransactionText::Base64(blob) => {
            EncodedTransaction::Binary(blob.clone(), UiTransactionEncoding::Base64)
        },
    };
    let message = encoded.decode()?.message;
    Some(SolanaTransaction {
        account_keys: message.account_keys.iter().map(|key| key.to_bytes()).collect(),
        program_id_indexes: message.instructions.iter().map(|i| i.program_id_index).collect(),
    })
}

/// A block of Solana.
pub struct SolanaBlock {
    pub previous_blockhash: String,
    pub blockhash: String,
    pub parent_slot: u64,
    /// The block's transactions. Nothing stands for one that came in a form that has
    /// no encoded text.
    pub transactions: Vec<Option<TransactionText>>,
    /// Seconds since the Unix epoch.
    pub block_time: Option<i64>,
}

/// What a block's transaction decodes to, if it does.
pub open spec fn decoded(tx: Option<TransactionText>) -> Option<SolanaTransactionView> {
    match tx {
        Some(text) => decoded_transaction(text@),
        None => None,
    }
}

/// All transactions of a block decode.
pub open spec fn decodes(block: SolanaBlock) -> bool {
    forall|i: int|
        0 <= i < block.transactions.len() ==> decoded(#[trigger] block.transactions[i]) is Some
}

/// What the transactions of a block decode to.
pub open spec fn decoded_transactions(block: SolanaBlock) -> Seq<SolanaTransactionView> {
    block.transactions@.map_values(|tx: Option<TransactionText>| decoded(tx)->Some_0)
}

/// How many of the transactions are not mere votes.
pub open spec fn num_user_transactions(txs: Seq<SolanaTransactionView>) -> nat {
    txs.filter(|tx: SolanaTransactionView| tx.is_user_transaction()).len()
}

/// The block kept of one of Solana with the given transactions, or why there is none.
pub open spec fn solana_result(
    block: SolanaBlock,
    slot_number: u64,
    txs: Seq<SolanaTransactionView>,
) -> Result<BlockView, FigureError> {
    match block.block_time {
        None => Err(FigureError::BlockTimeUnavailable { slot: slot_number }),
        Some(time) => if time < 0 {
            Err(FigureError::OutOfRange)
        } else {
            Ok(
                BlockView {
                    chain: "solana"@,
                    block_number: slot_number,
                    prev_block_number: Some(block.parent_slot),
                    timestamp: time as u64,
                    num_txs: num_user_transactions(txs) as u64,
                    hash: block.blockhash@,
                    parent_hash: block.previous_blockhash@,
                },
            )
        },
    }
}

/// The block has a time that can be kept.
pub open spec fn has_time(block: SolanaBlock) -> bool {
    block.block_time matches Some(time) && time >= 0
}

/// Whether two keys are the same.
fn same_key(a: &HashBytes, b: &HashBytes) -> (same: bool)
    ensures
        same == (a@ == b@),
{
    let mut i: usize = 0;
    while i < 32
        invariant
            i <= 32,
            forall|j: int| 0 <= j < i ==> a@[j] == b@[j],
        decreases 32 - i,
    {
        if a[i] != b[i] {
            return false;
        }
        i += 1;
    }
    assert(a@ =~= b@);
    true
}

/// Whether a transaction has an instruction that is not for the vote program.
fn is_user_transaction(tx: &SolanaTransaction, vote_program_key: &HashBytes) -> (yes: bool)
    requires
        tx@.well_indexed(),
        vote_program_key@ == vote_program(),
    ensures
        yes == tx@.is_user_transaction(),
        yes <==> exists|i: int|
            0 <= i < tx.program_id_indexes.len() && tx.account_keys[(
            #[trigger] tx.program_id_indexes[i]) as int]@ != vote_program(),
{
    let mut i: usize = 0;
    while i < tx.program_id_indexes.len()
        invariant
            i <= tx.program_id_indexes.len(),
            tx@.well_indexed(),
            vote_program_key@ == vote_program(),
            forall|j: int| 0 <= j < i ==> #[trigger] tx@.program(j) == vote_program(),
        decreases tx.program_id_indexes.len() - i,
    {
        let index: usize = tx.program_id_indexes[i] as usize;
        assert(tx@.program_id_indexes[i as int] < tx@.account_keys.len());
        assert(tx@.program(i as int) == tx.account_keys[index as int]@);
        if !same_key(&tx.account_keys[index], vote_program_key) {
            assert(tx.account_keys[tx.program_id_indexes[i as int] as int]@ != vote_program());
            return true;
        }
        i += 1;
    }
    assert forall|j: int| 0 <= j < tx.program_id_indexes.len() implies tx.account_keys[(
    #[trigger] tx.program_id_indexes[j]) as int]@ == vote_program() by {
        assert(tx@.program(j) == vote_program());
        assert(tx@.program_id_indexes[j] < tx@.account_keys.len());
    }
    false
}

/// How many of the transactions are not mere votes: those with an instruction that
/// is not for the vote program.
pub fn calc_user_txs(txs: &Vec<SolanaTransaction>) -> (num_user_txs: u64)
    requires
        forall|i: int| 0 <= i < txs.len() ==> (#[trigger] txs[i])@.well_indexed(),
    ensures
        num_user_txs == num_user_transactions(transaction_views(txs@)),
        num_user_txs <= txs.len(),
        num_user_txs == 0 <==> forall|t: int, i: int|
            0 <= t < txs.len() && 0 <= i < txs[t].program_id_indexes.len() ==> txs[t].account_keys[(
            #[trigger] txs[t].program_id_indexes[i]) as int]@ == vote_program(),
{
    let vote_program_key = vote_program_key();
    let ghost views = transaction_views(txs@);
    let ghost is_user = |tx: SolanaTransactionView| tx.is_user_transaction();
    let mut num_user_txs: usize = 0;
    let mut i: usize = 0;
    while i < txs.len()
        invariant
            i <= txs.len(),
            forall|i: int| 0 <= i < txs.len() ==> (#[trigger] txs[i])@.well_indexed(),
            vote_program_key@ == vote_program(),
            views == transaction_views(txs@),
            is_user == (|tx: SolanaTransactionView| tx.is_user_transaction()),
            num_user_txs == views.take(i as int).filter(is_user).len(),
            num_user_txs <= i,
        decreases txs.len() - i,
    {
        proof {
            assert(views.take(i + 1).drop_last() =~= views.take(i as int));
            reveal(Seq::filter);
        }
        if is_user_transaction(&txs[i], &vote_program_key) {
            num_user_txs += 1;
        }
        i += 1;
    }
    assert(views.take(i as int) =~= views);
    proof {
        lemma_no_user_transactions(txs@);
    }
    num_user_txs as u64
}

/// The block kept of one of Solana, in the given slot, with the given transactions.
/// Its time must be known and not before the epoch.
pub fn solana_block_of(block: SolanaBlock, slot_number: u64, txs: &Vec<SolanaTransaction>) -> (result:
    Result<Block, FigureError>)
    requires
        forall|i: int| 0 <= i < txs.len() ==> (#[trigger] txs[i])@.well_indexed(),
    ensures
        block_result(result) == solana_result(block, slot_number, transaction_views(txs@)),
        result is Ok <==> block.block_time is Some && block.block_time->Some_0 >= 0,
        result matches Ok(kept) ==> {
            &&& kept.chain@ == "solana"@
            &&& kept.block_number == slot_number
            &&& kept.prev_block_number == Some(block.parent_slot)
            &&& kept.timestamp == block.block_time->Some_0
            &&& kept.num_txs == num_user_transactions(transaction_views(txs@))
            &&& kept.hash@ == block.blockhash@
            &&& kept.parent_hash@ == block.previous_blockhash@
        },
        result matches Err(e) ==> e == if block.block_time is None {
            FigureError::BlockTimeUnavailable { slot: slot_number }
        } else {
            FigureError::OutOfRange
        },
{
    let time: i64 = match block.block_time {
        None => {
            return Err(FigureError::BlockTimeUnavailable { slot: slot_number });
        },
        Some(time) => time,
    };
    if time < 0 {
        return Err(FigureError::OutOfRange);
    }
    Ok(
        Block {
            chain: Chain::solana(),
            block_number: slot_number,
            prev_block_number: Some(block.parent_slot),
            timestamp: time as u64,
            num_txs: calc_user_txs(txs),
            hash: block.blockhash,
            parent_hash: block.previous_blockhash,
        },
    )
}

/// The transactions of a block, decoded, where all of them decode.
pub fn decode_transactions(block: &SolanaBlock) -> (txs: Option<Vec<SolanaTransaction>>)
    ensures
        txs is Some <==> decodes(*block),
        txs matches Some(txs) ==> {
            &&& transaction_views(txs@) == decoded_transactions(*block)
            &&& forall|i: int| 0 <= i < txs.len() ==> (#[trigger] txs[i])@.well_indexed()
        },
{
    let mut txs: Vec<SolanaTransaction> = Vec::new();
    let mut i: usize = 0;
    while i < block.transactions.len()
        invariant
            i <= block.transactions.len(),
            txs.len() == i,
            forall|j: int|
                0 <= j < i ==> decoded(#[trigger] block.transactions[j]) == Some(txs[j]@),
            forall|j: int| 0 <= j < i ==> (#[trigger] txs[j])@.well_indexed(),
        decreases block.transactions.len() - i,
    {
        let decoded_tx = match &block.transactions[i] {
            Some(text) => decode_text(text),
            None => None,
        };
        match decoded_tx {
            Some(tx) => {
                txs.push(tx);
            },
            None => {
                assert(decoded(block.transactions[i as int]) is None);
                return None;
            },
        }
        i += 1;
    }
    assert(transaction_views(txs@) =~= decoded_transactions(*block));
    Some(txs)
}

/// The block kept of one of Solana, in the given slot. Its time must be known and
/// not before the epoch; its transactions must then decode.
pub fn solana_block_to_block(block: SolanaBlock, slot_number: u64) -> (result: Result<Block, FigureError>)
    requires
        has_time(block) ==> decodes(block),
    ensures
        block_result(result) == solana_result(block, slot_number, decoded_transactions(block)),
{
    match decode_transactions(&block) {
        Some(txs) => solana_block_of(block, slot_number, &txs),
        None => solana_block_of(block, slot_number, &Vec::new()),
    }
}

/// The block kept of one of Solana, in the given slot; nothing where its time can be
/// kept but its transactions do not decode.
pub fn try_solana_block_to_block(block: SolanaBlock, slot_number: u64) -> (result: Option<
    Result<Block, FigureError>,
>)
    ensures
        result is None <==> has_time(block) && !decodes(block),
        result matches Some(result) ==> block_result(result) == solana_result(
            block,
            slot_number,
            decoded_transactions(block),
        ),
{
    let has_time = match block.block_time {
        Some(time) => time >= 0,
        None => false,
    };
    if has_time && decode_transactions(&block).is_none() {
        return None;
    }
    Some(solana_block_to_block(block, slot_number))
}

/// A transaction is a user's exactly where the key at the place that one of its
/// instructions gives is not that of the vote program. So one whose instructions all give
/// places of that key, whichever places they are, is not; nor is one without instructions.
pub proof fn law_user_transactions_run_another_program(tx: SolanaTransactionView)
    ensures
        tx.is_user_transaction() <==> exists|i: int|
            0 <= i < tx.program_id_indexes.len() && tx.account_keys[(
            #[trigger] tx.program_id_indexes[i]) as int] != vote_program(),
        tx.well_indexed() <==> forall|i: int|
            0 <= i < tx.program_id_indexes.len() ==> (#[trigger] tx.program_id_indexes[i])
                < tx.account_keys.len(),
{
    if tx.is_user_transaction() {
        let i = choose|i: int|
            0 <= i < tx.program_id_indexes.len() && #[trigger] tx.program(i) != vote_program();
        assert(tx.account_keys[tx.program_id_indexes[i] as int] != vote_program());
    }
    if exists|i: int|
        0 <= i < tx.program_id_indexes.len() && tx.account_keys[(
        #[trigger] tx.program_id_indexes[i]) as int] != vote_program() {
        let i = choose|i: int|
            0 <= i < tx.program_id_indexes.len() && tx.account_keys[(
            #[trigger] tx.program_id_indexes[i]) as int] != vote_program();
        assert(tx.program(i) != vote_program());
    }
}

/// Each transaction counts for itself: none are counted of none, one more adds one where
/// an instruction of it is not for the vote program and else nothing, and it does not
/// matter in how many parts transactions are counted.
pub proof fn law_user_transactions_add_up(
    a: Seq<SolanaTransactionView>,
    b: Seq<SolanaTransactionView>,
    tx: SolanaTransactionView,
)
    ensures
        num_user_transactions(Seq::empty()) == 0,
        num_user_transactions(a + b) == num_user_transactions(a) + num_user_transactions(b),
        num_user_transactions(a.push(tx)) == num_user_transactions(a) + if exists|i: int|
            0 <= i < tx.program_id_indexes.len() && tx.account_keys[(
            #[trigger] tx.program_id_indexes[i]) as int] != vote_program() {
            1int
        } else {
            0int
        },
{
    let is_user = |tx: SolanaTransactionView| tx.is_user_transaction();
    Seq::filter_distributes_over_add(a, b, is_user);
    a.lemma_filter_len_push(is_user, tx);
    law_user_transactions_run_another_program(tx);
    reveal(Seq::filter);
}

/// The view of a transaction shows its keys and places as they are, in order.
pub proof fn law_transaction_views_show_the_fields(
    tx: SolanaTransaction,
    txs: Seq<SolanaTransaction>,
    i: int,
)
    ensures
        tx@.account_keys.len() == tx.account_keys.len(),
        0 <= i < tx.account_keys.len() ==> tx@.account_keys[i] == tx.account_keys[i]@,
        tx@.program_id_indexes == tx.program_id_indexes@,
        transaction_views(txs).len() == txs.len(),
        0 <= i < txs.len() ==> transaction_views(txs)[i] == txs[i]@,
{
}

/// No transaction is a user's exactly where all instructions are for the vote program.
proof fn lemma_no_user_transactions(txs: Seq<SolanaTransaction>)
    requires
        forall|i: int| 0 <= i < txs.len() ==> (#[trigger] txs[i])@.well_indexed(),
    ensures
        num_user_transactions(transaction_views(txs)) == 0 <==> forall|t: int, i: int|
            0 <= t < txs.len() && 0 <= i < txs[t].program_id_indexes.len() ==> txs[t].account_keys[(
            #[trigger] txs[t].program_id_indexes[i]) as int]@ == vote_program(),
    decreases txs.len(),
{
    let views = transaction_views(txs);
    if txs.len() == 0 {
        assert(views =~= Seq::empty());
        law_user_transactions_add_up(views, views, arbitrary());
    } else {
        let (before, last) = (txs.drop_last(), txs.last());
        let n = txs.len() - 1;
        assert forall|i: int| 0 <= i < before.len() implies (
        #[trigger] before[i])@.well_indexed() by {
            assert(before[i] == txs[i]);
        }
        lemma_no_user_transactions(before);
        assert(views =~= transaction_views(before).push(last@));
        law_user_transactions_add_up(transaction_views(before), views, last@);
        assert(txs[n]@.well_indexed());
        assert forall|i: int| 0 <= i < last.program_id_indexes.len() implies last@.account_keys[(
        #[trigger] last@.program_id_indexes[i]) as int]
            == last.account_keys[last.program_id_indexes[i] as int]@ by {}
        let all_before = forall|t: int, i: int|
            0 <= t < before.len() && 0 <= i < before[t].program_id_indexes.len()
                ==> before[t].account_keys[(#[trigger] before[t].program_id_indexes[i]) as int]@
                == vote_program();
        let all = forall|t: int, i: int|
            0 <= t < txs.len() && 0 <= i < txs[t].program_id_indexes.len() ==> txs[t].account_keys[(
            #[trigger] txs[t].program_id_indexes[i]) as int]@ == vote_program();
        if all {
            assert forall|t: int, i: int|
                0 <= t < before.len() && 0 <= i
                    < before[t].program_id_indexes.len() implies before[t].account_keys[(
            #[trigger] before[t].program_id_indexes[i]) as int]@ == vote_program() by {
                assert(before[t] == txs[t]);
                assert(txs[t].account_keys[txs[t].program_id_indexes[i] as int]@ == vote_program());
            }
            assert forall|i: int|
                0 <= i < last@.program_id_indexes.len() implies last@.account_keys[(
            #[trigger] last@.program_id_indexes[i]) as int] == vote_program() by {
                assert(txs[n].account_keys[txs[n].program_id_indexes[i] as int]@ == vote_program());
            }
        }
        if num_user_transactions(views) == 0 {
            assert(all_before);
            assert forall|t: int, i: int|
                0 <= t < txs.len() && 0 <= i
                    < txs[t].program_id_indexes.len() implies txs[t].account_keys[(
            #[trigger] txs[t].program_id_indexes[i]) as int]@ == vote_program() by {
                if t < n {
                    assert(before[t] == txs[t]);
                    assert(before[t].account_keys[before[t].program_id_indexes[i] as int]@
                        == vote_program());
                } else {
                    assert(last@.account_keys[last@.program_id_indexes[i] as int]
                        == vote_program());
                }
            }
        }
    }
}

/// A block's transactions decode where each is there and its text decodes; what they
/// decode to stands in their order. The block can be kept exactly where its time is known
/// and not before the epoch, and then shows the slot as its number, the parent's slot as
/// its predecessor's, and the count of users' transactions.
pub proof fn law_solana_blocks(
    block: SolanaBlock,
    slot_number: u64,
    txs: Seq<SolanaTransactionView>,
    i: int,
)
    requires
        txs.len() <= u64::MAX,
    ensures
        decodes(block) <==> forall|k: int|
            0 <= k < block.transactions.len() ==> (#[trigger] block.transactions[k]) is Some
                && decoded_transaction(block.transactions[k]->Some_0@) is Some,
        decoded_transactions(block).len() == block.transactions.len(),
        0 <= i < block.transactions.len() && block.transactions[i] is Some ==> decoded_transactions(
            block,
        )[i] == decoded_transaction(block.transactions[i]->Some_0@)->Some_0,
        has_time(block) <==> block.block_time is Some && block.block_time->Some_0 >= 0,
        ({
            let result = solana_result(block, slot_number, txs);
            &&& result is Ok <==> block.block_time is Some && block.block_time->Some_0 >= 0
            &&& result matches Ok(kept) ==> {
                &&& kept.chain == "solana"@
                &&& kept.block_number == slot_number
                &&& kept.prev_block_number == Some(block.parent_slot)
                &&& kept.timestamp == block.block_time->Some_0
                &&& kept.num_txs == num_user_transactions(txs)
                &&& kept.hash == block.blockhash@
                &&& kept.parent_hash == block.previous_blockhash@
            }
            &&& block.block_time is None ==> result == Err::<BlockView, FigureError>(
                FigureError::BlockTimeUnavailable { slot: slot_number },
            )
            &&& block.block_time is Some && block.block_time->Some_0 < 0 ==> result == Err::<
                BlockView,
                FigureError,
            >(FigureError::OutOfRange)
        }),
{
    let is_user = |tx: SolanaTransactionView| tx.is_user_transaction();
    broadcast use vstd::seq_lib::group_filter_ensures;

    assert(txs.filter(is_user).len() <= txs.len());
    assert(decodes(block) ==> forall|k: int|
        0 <= k < block.transactions.len() ==> (#[trigger] block.transactions[k]) is Some
            && decoded_transaction(block.transactions[k]->Some_0@) is Some) by {
        if decodes(block) {
            assert forall|k: int| 0 <= k < block.transactions.len() implies (
            #[trigger] block.transactions[k]) is Some && decoded_transaction(
                block.transactions[k]->Some_0@,
            ) is Some by {
                assert(decoded(block.transactions[k]) is Some);
            }
        }
    }
}

} // verus!
