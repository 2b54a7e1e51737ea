//! The errors of the figures.

use crate::chain::Chain;
use crate::text::{decimal, decimal_text};
use vstd::prelude::*;
use vstd::string::StringExecFns;

verus! {

/// Why a figure or a block cannot be given.
#[derive(Debug, Clone, Copy, PartialEq, Eq, Structural)]
pub enum FigureError {
    /// No block of the chain is known.
    NoData,
    /// The block that a walk starts from is not stored.
    MissingFirstBlock,
    /// The block that a calculation starts from was replaced meanwhile.
    IncorrectFirstBlockHash,
    /// The seconds that a figure spans are too many.
    SecondsOverflow,
    /// The transactions that a figure counts are too many.
    NumTxsOverflow,
    /// A list of ledgers is empty.
    EmptyLedgerSet,
    /// A ledger's number is too large.
    LedgerOutOfRange,
    /// A ledger names no predecessor.
    MissingParentHash,
    /// The time of a slot is not known.
    BlockTimeUnavailable { slot: u64 },
    /// A block names no predecessor.
    NoPreviousBlockId,
    /// A number does not fit its type.
    OutOfRange,
    /// A wide number does not fit 64 bits.
    WideOverflow,
}

impl FigureError {
    /// What the error is said to be, on the given chain.
    pub open spec fn text(self, chain: Seq<char>) -> Seq<char> {
        match self {
            FigureError::NoData => "no data for chain "@ + chain,
            FigureError::MissingFirstBlock => "missing first block"@,
            FigureError::IncorrectFirstBlockHash => {
                "incorrect first block hash for calculation of "@ + chain
            },
            FigureError::SecondsOverflow => "seconds overflows u32"@,
            FigureError::NumTxsOverflow => "num txs overflows u32"@,
            FigureError::EmptyLedgerSet => "request returned empty set of ledgers"@,
            FigureError::LedgerOutOfRange => "ledger number out of range"@,
            FigureError::MissingParentHash => "missing parent hash"@,
            FigureError::BlockTimeUnavailable { slot } => {
                "block time unavailable for solana slot "@ + decimal(slot as nat)
            },
            FigureError::NoPreviousBlockId => "no previous block id"@,
            FigureError::OutOfRange => "out of range integral type conversion attempted"@,
            FigureError::WideOverflow => "integer overflow when casting to u64"@,
        }
    }

    /// What the error is said to be, on the given chain.
    pub fn message(&self, chain: &Chain) -> (message: String)
        ensures
            message@ == self.text(chain@),
    {
        match self {
            FigureError::NoData => "no data for chain ".to_owned().concat(chain.name()),
            FigureError::MissingFirstBlock => "missing first block".to_owned(),
            FigureError::IncorrectFirstBlockHash => {
                "incorrect first block hash for calculation of ".to_owned().concat(chain.name())
            },
            FigureError::SecondsOverflow => "seconds overflows u32".to_owned(),
            FigureError::NumTxsOverflow => "num txs overflows u32".to_owned(),
            FigureError::EmptyLedgerSet => "request returned empty set of ledgers".to_owned(),
            FigureError::LedgerOutOfRange => "ledger number out of range".to_owned(),
            FigureError::MissingParentHash => "missing parent hash".to_owned(),
            FigureError::BlockTimeUnavailable { slot } => {
                "block time unavailable for solana slot ".to_owned().concat(
                    decimal_text(*slot).as_str(),
                )
            },
            FigureError::NoPreviousBlockId => "no previous block id".to_owned(),
            FigureError::OutOfRange => "out of range integral type conversion attempted".to_owned(),
            FigureError::WideOverflow => "integer overflow when casting to u64".to_owned(),
        }
    }
}

/// Why something that also does outside work failed: that work, or one of the
/// errors above.
#[derive(Debug, PartialEq, Eq)]
pub enum Failure<E> {
    /// The outside work failed.
    Outside(E),
    /// This crate found the error.
    Own(FigureError),
}

/// The texts that name the chain end with its name, and the one that names a slot ends
/// with the slot's number; no other text depends on the chain.
pub proof fn law_texts_name_what_they_are_about(
    error: FigureError,
    chain: Seq<char>,
    other: Seq<char>,
    slot: u64,
)
    ensures
        FigureError::NoData.text(chain) == "no data for chain "@ + chain,
        FigureError::IncorrectFirstBlockHash.text(chain)
            == "incorrect first block hash for calculation of "@ + chain,
        (FigureError::BlockTimeUnavailable { slot }).text(chain)
            == "block time unavailable for solana slot "@ + decimal(slot as nat),
        error != FigureError::NoData && error != FigureError::IncorrectFirstBlockHash ==> error.text(
            chain,
        ) == error.text(other),
{
}

} // verus!
