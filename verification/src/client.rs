//! Blocks as the nodes of each kind of chain give them, and what is kept of them.

use crate::chain::Chain;
use crate::db::{Block, BlockView};
use crate::error::{Failure, FigureError};
use crate::hashes::{
    base58, near_hash_text, tendermint_hash, tendermint_hash_text, HashBytes,
};
use crate::text::{lower_hex, lower_hex_text};
use vstd::prelude::*;

verus! {

/// What a conversion to a block gives, by view.
pub open spec fn block_result(result: Result<Block, FigureError>) -> Result<BlockView, FigureError> {
    match result {
        Ok(block) => Ok(block@),
        Err(e) => Err(e),
    }
}

/// The number before a block's, where there is one.
pub open spec fn number_before(block_number: u64) -> Option<u64> {
    if block_number > 0 {
        Some((block_number - 1) as u64)
    } else {
        None
    }
}

/// The number before a block's, where there is one.
fn previous_number(block_number: u64) -> (previous: Option<u64>)
    ensures
        previous == number_before(block_number),
{
    if block_number > 0 {
        Some(block_number - 1)
    } else {
        None
    }
}

/// A block of an Ethereum-like chain.
pub struct EthersBlock {
    /// Missing while the block is pending.
    pub number: Option<u64>,
    /// A number of 256 bits, as four words, the lowest first.
    pub timestamp: [u64; 4],
    /// How many transactions the block has.
    pub num_txs: usize,
    /// Missing while the block is pending.
    pub hash: Option<HashBytes>,
    pub parent_hash: HashBytes,
}

/// The number that four words stand for, the lowest first.
pub open spec fn wide(words: Seq<u64>) -> nat {
    (words[0] + 0x1_0000_0000_0000_0000 * words[1] + 0x1_0000_0000_0000_0000_0000_0000_0000_0000
        * words[2] + 0x1_0000_0000_0000_0000_0000_0000_0000_0000_0000_0000_0000_0000
        * words[3]) as nat
}

/// The block kept of one of an Ethereum-like chain, or why there is none.
pub open spec fn ethers_kept(chain: Seq<char>, block: EthersBlock) -> Result<BlockView, FigureError> {
    if wide(block.timestamp@) > u64::MAX {
        Err(FigureError::WideOverflow)
    } else {
        Ok(
            BlockView {
                chain,
                block_number: block.number->Some_0,
                prev_block_number: number_before(block.number->Some_0),
                timestamp: wide(block.timestamp@) as u64,
                num_txs: block.num_txs as u64,
                hash: lower_hex(block.hash->Some_0@),
                parent_hash: lower_hex(block.parent_hash@),
            },
        )
    }
}

/// The block kept of one of an Ethereum-like chain. Its time must fit 64 bits.
pub fn ethers_block_to_block(chain: Chain, block: EthersBlock) -> (result: Result<Block, FigureError>)
    requires
        block.number is Some,
        wide(block.timestamp@) <= u64::MAX ==> block.hash is Some,
    ensures
        block_result(result) == if wide(block.timestamp@) > u64::MAX {
            Err::<BlockView, FigureError>(FigureError::WideOverflow)
        } else {
            Ok::<BlockView, FigureError>(
                BlockView {
                    chain: chain@,
                    block_number: block.number->Some_0,
                    prev_block_number: number_before(block.number->Some_0),
                    timestamp: wide(block.timestamp@) as u64,
                    num_txs: block.num_txs as u64,
                    hash: lower_hex(block.hash->Some_0@),
                    parent_hash: lower_hex(block.parent_hash@),
                },
            )
        },
        block_result(result) == ethers_kept(chain@, block),
        result is Ok <==> block.timestamp[1] == 0 && block.timestamp[2] == 0 && block.timestamp[3]
            == 0,
        result matches Ok(kept) ==> {
            &&& kept.timestamp == block.timestamp[0]
            &&& kept.prev_block_number is None <==> kept.block_number == 0
            &&& kept.prev_block_number matches Some(number) ==> number + 1 == kept.block_number
        },
{
    let block_number: u64 = block.number.unwrap();
    if block.timestamp[1] != 0 || block.timestamp[2] != 0 || block.timestamp[3] != 0 {
        return Err(FigureError::WideOverflow);
    }
    Ok(
        Block {
            chain,
            block_number,
            prev_block_number: previous_number(block_number),
            timestamp: block.timestamp[0],
            num_txs: block.num_txs as u64,
            hash: lower_hex_text(block.hash.unwrap().as_slice()),
            parent_hash: lower_hex_text(block.parent_hash.as_slice()),
        },
    )
}

/// A block of NEAR.
pub struct NearBlock {
    pub prev_height: Option<u64>,
    pub timestamp_nanosec: u64,
    pub hash: HashBytes,
    pub prev_hash: HashBytes,
}

/// The sum of numbers.
pub open spec fn sum(numbers: Seq<usize>) -> nat
    decreases numbers.len(),
{
    if numbers.len() == 0 {
        0
    } else {
        sum(numbers.drop_last()) + numbers.last() as nat
    }
}

/// How many transactions a block of NEAR has, from those of its chunks; nothing where
/// they are too many to count.
pub fn near_num_txs(chunk_txs: &Vec<usize>) -> (num_txs: Option<u64>)
    ensures
        num_txs == if sum(chunk_txs@) <= usize::MAX {
            Some(sum(chunk_txs@) as u64)
        } else {
            None
        },
{
    let mut num_txs: usize = 0;
    let mut i: usize = 0;
    while i < chunk_txs.len()
        invariant
            i <= chunk_txs.len(),
            num_txs == sum(chunk_txs@.take(i as int)),
        decreases chunk_txs.len() - i,
    {
        proof {
            assert(chunk_txs@.take(i + 1).drop_last() =~= chunk_txs@.take(i as int));
            lemma_sum_prefix(chunk_txs@, i + 1);
        }
        match num_txs.checked_add(chunk_txs[i]) {
            Some(more_txs) => {
                num_txs = more_txs;
            },
            None => {
                return None;
            },
        }
        i += 1;
    }
    assert(chunk_txs@.take(i as int) =~= chunk_txs@);
    Some(num_txs as u64)
}

proof fn lemma_sum_prefix(numbers: Seq<usize>, n: int)
    requires
        0 <= n <= numbers.len(),
    ensures
        sum(numbers.take(n)) <= sum(numbers),
    decreases numbers.len() - n,
{
    if n < numbers.len() {
        assert(numbers.take(n + 1).drop_last() =~= numbers.take(n));
        lemma_sum_prefix(numbers, n + 1);
    } else {
        assert(numbers.take(n) =~= numbers);
    }
}

/// The block kept of one of NEAR, at the given height.
pub open spec fn near_kept(block: NearBlock, block_number: u64, num_txs: u64) -> BlockView {
    BlockView {
        chain: "near"@,
        block_number,
        prev_block_number: block.prev_height,
        timestamp: block.timestamp_nanosec / 1_000_000_000,
        num_txs,
        hash: base58(block.hash@),
        parent_hash: base58(block.prev_hash@),
    }
}

/// The block kept of one of NEAR, at the given height.
pub fn near_block_to_block(block: NearBlock, block_number: u64, num_txs: u64) -> (result: Result<
    Block,
    FigureError,
>)
    ensures
        block_result(result) == Ok::<BlockView, FigureError>(
            BlockView {
                chain: "near"@,
                block_number,
                prev_block_number: block.prev_height,
                timestamp: (block.timestamp_nanosec / 1_000_000_000) as u64,
                num_txs,
                hash: base58(block.hash@),
                parent_hash: base58(block.prev_hash@),
            },
        ),
        block_result(result) == Ok::<BlockView, FigureError>(
            near_kept(block, block_number, num_txs),
        ),
{
    Ok(
        Block {
            chain: Chain::near(),
            block_number,
            prev_block_number: block.prev_height,
            timestamp: block.timestamp_nanosec / 1_000_000_000,
            num_txs,
            hash: near_hash_text(block.hash),
            parent_hash: near_hash_text(block.prev_hash),
        },
    )
}

/// A ledger of Stellar.
pub struct StellarLedger {
    pub hash: String,
    pub previous_hash: Option<String>,
    /// Seconds since the Unix epoch.
    pub closed_at: i64,
    /// Operations are closest to what is usually meant by transactions; what the
    /// ledger calls a transaction bundles operations that take effect together.
    pub operation_count: i32,
}

/// A signed number in 64 bits without sign, as a conversion with wrap-around gives it.
pub open spec fn unsigned(n: int) -> u64 {
    if n >= 0 {
        n as u64
    } else {
        (n + 0x1_0000_0000_0000_0000) as u64
    }
}

/// The number that a ledger is asked for by.
pub fn stellar_ledger_number(block_number: u64) -> (result: Result<i32, FigureError>)
    ensures
        result == if block_number > i32::MAX {
            Err::<i32, FigureError>(FigureError::LedgerOutOfRange)
        } else {
            Ok::<i32, FigureError>(block_number as i32)
        },
{
    if block_number > i32::MAX as u64 {
        return Err(FigureError::LedgerOutOfRange);
    }
    Ok(block_number as i32)
}

/// The number of the latest ledger, which is the last of a list.
pub fn stellar_latest_ledger(sequences: &Vec<i32>) -> (result: Result<u64, FigureError>)
    ensures
        result == if sequences@.len() == 0 {
            Err::<u64, FigureError>(FigureError::EmptyLedgerSet)
        } else {
            Ok::<u64, FigureError>(unsigned(sequences@.last() as int))
        },
{
    if sequences.len() == 0 {
        return Err(FigureError::EmptyLedgerSet);
    }
    let sequence: i32 = sequences[sequences.len() - 1];
    Ok(unsigned_from_i32(sequence))
}

/// The conversion of 32 bits with sign to 64 bits without.
fn unsigned_from_i32(n: i32) -> (m: u64)
    ensures
        m == unsigned(n as int),
{
    assert(n < 0i32 ==> n as u64 == n + 0x1_0000_0000_0000_0000) by (bit_vector);
    n as u64
}

/// The conversion of 64 bits with sign to 64 bits without.
fn unsigned_from_i64(n: i64) -> (m: u64)
    ensures
        m == unsigned(n as int),
{
    assert(n < 0i64 ==> n as u64 == n + 0x1_0000_0000_0000_0000) by (bit_vector);
    n as u64
}

/// The block kept of a ledger of Stellar, of the given number, or why there is none.
pub open spec fn stellar_kept(ledger: StellarLedger, block_number: u64) -> Result<
    BlockView,
    FigureError,
> {
    match ledger.previous_hash {
        None => Err(FigureError::MissingParentHash),
        Some(previous_hash) => Ok(
            BlockView {
                chain: "stellar"@,
                block_number,
                prev_block_number: number_before(block_number),
                timestamp: unsigned(ledger.closed_at as int),
                num_txs: unsigned(ledger.operation_count as int),
                hash: ledger.hash@,
                parent_hash: previous_hash@,
            },
        ),
    }
}

/// The block kept of a ledger of Stellar, of the given number.
pub fn stellar_ledger_to_block(ledger: StellarLedger, block_number: u64) -> (result: Result<
    Block,
    FigureError,
>)
    ensures
        block_result(result) == match ledger.previous_hash {
            None => Err::<BlockView, FigureError>(FigureError::MissingParentHash),
            Some(previous_hash) => Ok::<BlockView, FigureError>(
                BlockView {
                    chain: "stellar"@,
                    block_number,
                    prev_block_number: number_before(block_number),
                    timestamp: unsigned(ledger.closed_at as int),
                    num_txs: unsigned(ledger.operation_count as int),
                    hash: ledger.hash@,
                    parent_hash: previous_hash@,
                },
            ),
        },
        block_result(result) == stellar_kept(ledger, block_number),
{
    match ledger.previous_hash {
        None => Err(FigureError::MissingParentHash),
        Some(parent_hash) => Ok(
            Block {
                chain: Chain::stellar(),
                block_number,
                prev_block_number: previous_number(block_number),
                timestamp: unsigned_from_i64(ledger.closed_at),
                num_txs: unsigned_from_i32(ledger.operation_count),
                hash: ledger.hash,
                parent_hash,
            },
        ),
    }
}

/// A block of a Tendermint chain.
pub struct TendermintBlock {
    /// Seconds since the Unix epoch.
    pub time_seconds: i64,
    /// How many transactions the block has.
    pub num_txs: usize,
    /// The block's hash, which may be the empty one.
    pub hash: Option<HashBytes>,
    /// The hash of the previous block, which may be the empty one, where the block
    /// names its predecessor.
    pub last_block_hash: Option<Option<HashBytes>>,
}

/// Declares `tendermint::Error`, which is handed on as it is.
#[verifier::external_type_specification]
#[verifier::external_body]
pub struct ExTendermintError(tendermint::Error);

/// Calls `tendermint::block::Height::try_from` of a `u64`, and `value` of what it
/// gives. By its source it fails for numbers that do not fit 63 bits, and else
/// holds the number. What the error says is left unsaid: it is a report that also
/// tells where it was made and, where the environment asks for it, by which calls.
#[verifier::external_body]
fn height_value(block_number: u64) -> (height: Result<u64, tendermint::Error>)
    ensures
        height matches Ok(value) ==> value == block_number,
        height is Ok <==> block_number <= i64::MAX,
{
    tendermint::block::Height::try_from(block_number).map(|height| height.value())
}

/// The height that a block is asked for by, or the error of the outside type where the
/// number is no height.
pub fn tendermint_height(block_number: u64) -> (result: Result<u64, Failure<tendermint::Error>>)
    ensures
        match result {
            Ok(height) => height == block_number && block_number <= i64::MAX,
            Err(failure) => failure is Outside && block_number > i64::MAX,
        },
{
    match height_value(block_number) {
        Ok(height) => Ok(height),
        Err(e) => Err(Failure::Outside(e)),
    }
}

/// The block kept of one of a Tendermint chain, at the given height, or why there is none.
pub open spec fn tendermint_kept(
    chain: Seq<char>,
    block: TendermintBlock,
    block_number: u64,
) -> Result<BlockView, FigureError> {
    if block.time_seconds < 0 {
        Err(FigureError::OutOfRange)
    } else {
        match block.last_block_hash {
            None => Err(FigureError::NoPreviousBlockId),
            Some(last_block_hash) => Ok(
                BlockView {
                    chain,
                    block_number,
                    prev_block_number: number_before(block_number),
                    timestamp: block.time_seconds as u64,
                    num_txs: block.num_txs as u64,
                    hash: tendermint_hash(block.hash),
                    parent_hash: tendermint_hash(last_block_hash),
                },
            ),
        }
    }
}

/// The block kept of one of a Tendermint chain, at the given height. Its time must
/// not be before the epoch, and it must name its predecessor.
pub fn tendermint_block_to_block(
    chain: Chain,
    block: TendermintBlock,
    block_number: u64,
) -> (result: Result<Block, FigureError>)
    ensures
        block_result(result) == if block.time_seconds < 0 {
            Err::<BlockView, FigureError>(FigureError::OutOfRange)
        } else if block.last_block_hash is None {
            Err::<BlockView, FigureError>(FigureError::NoPreviousBlockId)
        } else {
            Ok::<BlockView, FigureError>(
                BlockView {
                    chain: chain@,
                    block_number,
                    prev_block_number: number_before(block_number),
                    timestamp: block.time_seconds as u64,
                    num_txs: block.num_txs as u64,
                    hash: tendermint_hash(block.hash),
                    parent_hash: tendermint_hash(block.last_block_hash->Some_0),
                },
            )
        },
        block_result(result) == tendermint_kept(chain@, block, block_number),
{
    if block.time_seconds < 0 {
        return Err(FigureError::OutOfRange);
    }
    match block.last_block_hash {
        None => Err(FigureError::NoPreviousBlockId),
        Some(last_block_hash) => Ok(
            Block {
                chain,
                block_number,
                prev_block_number: previous_number(block_number),
                timestamp: block.time_seconds as u64,
                num_txs: block.num_txs as u64,
                hash: tendermint_hash_text(block.hash),
                parent_hash: tendermint_hash_text(last_block_hash),
            },
        ),
    }
}

/// The number before a block's is one less, and only zero has none.
pub proof fn law_number_before(block_number: u64)
    ensures
        number_before(block_number) is None <==> block_number == 0,
        number_before(block_number) matches Some(number) ==> number + 1 == block_number,
{
}

/// Four words are digits of base two to the sixty-fourth, the lowest first: the number
/// that they stand for fits one word exactly where the three higher ones are zero, and is
/// then the lowest.
pub proof fn law_wide_numbers(words: Seq<u64>)
    requires
        words.len() == 4,
    ensures
        wide(words) == words[0] + 0x1_0000_0000_0000_0000 * (words[1] + 0x1_0000_0000_0000_0000 * (
        words[2] + 0x1_0000_0000_0000_0000 * words[3])),
        wide(words) <= 0xffff_ffff_ffff_ffff <==> words[1] == 0 && words[2] == 0 && words[3] == 0,
        words[1] == 0 && words[2] == 0 && words[3] == 0 ==> wide(words) == words[0],
{
}

/// No numbers sum up to zero, one more adds itself, and it does not matter in how many
/// parts they are summed up.
pub proof fn law_sums_add_up(a: Seq<usize>, b: Seq<usize>, number: usize)
    ensures
        sum(Seq::empty()) == 0,
        sum(a.push(number)) == sum(a) + number,
        sum(a + b) == sum(a) + sum(b),
    decreases b.len(),
{
    assert(a.push(number).drop_last() =~= a);
    if b.len() > 0 {
        law_sums_add_up(a, b.drop_last(), number);
        assert((a + b).drop_last() =~= a + b.drop_last());
    } else {
        assert(a + b =~= a);
    }
}

/// A number without a minus stays as it is; one with a minus goes up by two to the
/// sixty-fourth.
pub proof fn law_unsigned_numbers(n: int)
    requires
        -0x8000_0000_0000_0000 <= n <= 0x7fff_ffff_ffff_ffff,
    ensures
        n >= 0 ==> unsigned(n) == n,
        n < 0 ==> unsigned(n) == n + 0x1_0000_0000_0000_0000,
{
}

/// What a conversion gives, by view, is the view of its block, or its error.
pub proof fn law_block_results_show_what_they_hold(block: Block, e: FigureError)
    ensures
        block_result(Ok(block)) == Ok::<BlockView, FigureError>(block@),
        block_result(Err(e)) == Err::<BlockView, FigureError>(e),
{
}

/// Of a block of an Ethereum-like chain the number, the time and the count of transactions
/// are kept, with both hashes in lower-case hexadecimal. There is none to keep exactly
/// where the time does not fit one word.
pub proof fn law_ethers_blocks(chain: Seq<char>, block: EthersBlock)
    requires
        block.number is Some,
    ensures
        ({
            let result = ethers_kept(chain, block);
            &&& result is Ok <==> block.timestamp[1] == 0 && block.timestamp[2] == 0
                && block.timestamp[3] == 0
            &&& result matches Err(e) ==> e == FigureError::WideOverflow
            &&& result matches Ok(kept) ==> {
                &&& kept.chain == chain
                &&& kept.block_number == block.number->Some_0
                &&& kept.prev_block_number is None <==> kept.block_number == 0
                &&& kept.prev_block_number matches Some(number) ==> number + 1 == kept.block_number
                &&& kept.timestamp == block.timestamp[0]
                &&& kept.num_txs == block.num_txs
                &&& kept.hash == lower_hex(block.hash->Some_0@)
                &&& kept.parent_hash == lower_hex(block.parent_hash@)
            }
        }),
{
}

/// Of a block of NEAR the height asked for, the predecessor's height as the block names
/// it, and the time in whole seconds are kept, with both hashes in base 58.
pub proof fn law_near_blocks(block: NearBlock, block_number: u64, num_txs: u64)
    ensures
        ({
            let kept = near_kept(block, block_number, num_txs);
            &&& kept.chain == "near"@
            &&& kept.block_number == block_number
            &&& kept.prev_block_number == block.prev_height
            &&& kept.timestamp * 1_000_000_000 <= block.timestamp_nanosec < kept.timestamp
                * 1_000_000_000 + 1_000_000_000
            &&& kept.num_txs == num_txs
            &&& kept.hash == base58(block.hash@)
            &&& kept.parent_hash == base58(block.prev_hash@)
        }),
{
}

/// Of a ledger of Stellar the number asked for, the time, the count of operations and both
/// hashes are kept. There is none to keep exactly where it names no predecessor.
pub proof fn law_stellar_ledgers(ledger: StellarLedger, block_number: u64)
    ensures
        ({
            let result = stellar_kept(ledger, block_number);
            &&& result is Ok <==> ledger.previous_hash is Some
            &&& result matches Err(e) ==> e == FigureError::MissingParentHash
            &&& result matches Ok(kept) ==> {
                &&& kept.chain == "stellar"@
                &&& kept.block_number == block_number
                &&& kept.prev_block_number is None <==> block_number == 0
                &&& kept.prev_block_number matches Some(number) ==> number + 1 == block_number
                &&& ledger.closed_at >= 0 ==> kept.timestamp == ledger.closed_at
                &&& ledger.closed_at < 0 ==> kept.timestamp == ledger.closed_at
                    + 0x1_0000_0000_0000_0000
                &&& ledger.operation_count >= 0 ==> kept.num_txs == ledger.operation_count
                &&& ledger.operation_count < 0 ==> kept.num_txs == ledger.operation_count
                    + 0x1_0000_0000_0000_0000
                &&& kept.hash == ledger.hash@
                &&& kept.parent_hash == ledger.previous_hash->Some_0@
            }
        }),
{
}

/// Of a block of a Tendermint chain the height asked for, the time and the count of
/// transactions are kept, with both hashes in upper-case hexadecimal. There is none to keep
/// exactly where the time is before the epoch, or the block names no predecessor.
pub proof fn law_tendermint_blocks(chain: Seq<char>, block: TendermintBlock, block_number: u64)
    ensures
        ({
            let result = tendermint_kept(chain, block, block_number);
            &&& result is Ok <==> block.time_seconds >= 0 && block.last_block_hash is Some
            &&& result matches Err(e) ==> {
                &&& block.time_seconds < 0 ==> e == FigureError::OutOfRange
                &&& block.time_seconds >= 0 ==> e == FigureError::NoPreviousBlockId
            }
            &&& result matches Ok(kept) ==> {
                &&& kept.chain == chain
                &&& kept.block_number == block_number
                &&& kept.prev_block_number is None <==> block_number == 0
                &&& kept.prev_block_number matches Some(number) ==> number + 1 == block_number
                &&& kept.timestamp == block.time_seconds
                &&& kept.num_txs == block.num_txs
                &&& kept.hash == tendermint_hash(block.hash)
                &&& kept.parent_hash == tendermint_hash(block.last_block_hash->Some_0)
            }
        }),
{
}

} // verus!
