//! Error kinds of the block codec and of the chain engine.
use vstd::prelude::*;

verus! {

/// Failures of the block and entry codecs and of signature checks.
#[derive(Clone, Copy, Debug, PartialEq, Eq, Structural)]
pub enum BlockErrorKind {
    NoPublicKeyFound,
    InvalidSignature,
    TooManyCoinfileHashes,
    PoWTooLong,
    NoEntries,
    Other,
}

/// A block-level error: its kind and, for `Other`, the wrapped cause.
#[derive(Clone, Debug, PartialEq, Eq, Structural)]
pub struct BlockError {
    pub kind: BlockErrorKind,
    pub source: Option<Cause>,
}

/// The outside subsystem that a wrapped error came from.
#[derive(Clone, Copy, Debug, PartialEq, Eq, Structural)]
pub enum Cause {
    Store,
    Codec,
    ProofOfWork,
    Signature,
    Block(BlockErrorKind),
}

impl BlockError {
    pub fn new(kind: BlockErrorKind) -> (r: Self)
        ensures
            r == Self::new_spec(kind),
    {
        BlockError { kind, source: None }
    }

    pub open spec fn new_spec(kind: BlockErrorKind) -> Self {
        BlockError { kind, source: None }
    }

    pub fn from_source(cause: Cause) -> (r: Self)
        ensures
            r == Self::from_source_spec(cause),
    {
        BlockError { kind: BlockErrorKind::Other, source: Some(cause) }
    }

    pub open spec fn from_source_spec(cause: Cause) -> Self {
        BlockError { kind: BlockErrorKind::Other, source: Some(cause) }
    }
}

/// Failures of the chain engine.
#[derive(Clone, Copy, Debug, PartialEq, Eq, Structural)]
pub enum BlockchainErrorKind {
    BlockDoesntExist,
    SkippedBlock,
    BlockNotAtTop,
    BlockTimestampTooEarly,
    BlockTooBig,
    BlockAlreadyExists,
    BlockNotEnoughWork,
    InvalidHash,
    BlockPreviousHashWrong,
    BlockTargetDifficultyWrong,
    BlockInFuture,
    InvalidMerkleRoot,
    CantFindHashFromHeight,
    BlockHeaderDoesntExist,
    BlockEntryDifficultyWrong,
    BlockMaxAllowedEntryDifficultyWrong,
    InvalidSignature,
    NoPublicKeyFound,
    Other,
}

/// An engine error: its kind and, for `Other`, the wrapped cause.
#[derive(Clone, Debug, PartialEq, Eq, Structural)]
pub struct BlockchainError {
    pub kind: BlockchainErrorKind,
    pub source: Option<Cause>,
}

impl BlockchainError {
    pub fn new(kind: BlockchainErrorKind) -> (r: Self)
        ensures
            r == Self::new_spec(kind),
    {
        BlockchainError { kind, source: None }
    }

    pub open spec fn new_spec(kind: BlockchainErrorKind) -> Self {
        BlockchainError { kind, source: None }
    }

    pub fn from_source(cause: Cause) -> (r: Self)
        ensures
            r == Self::from_source_spec(cause),
    {
        BlockchainError { kind: BlockchainErrorKind::Other, source: Some(cause) }
    }

    pub open spec fn from_source_spec(cause: Cause) -> Self {
        BlockchainError { kind: BlockchainErrorKind::Other, source: Some(cause) }
    }

    /// The engine error that carries a block-level error.
    pub fn from_block_error(e: BlockError) -> (r: Self)
        ensures
            r == Self::from_block_error_spec(e),
    {
        match e.kind {
            BlockErrorKind::InvalidSignature => BlockchainError::new(BlockchainErrorKind::InvalidSignature),
            BlockErrorKind::NoPublicKeyFound => BlockchainError::new(BlockchainErrorKind::NoPublicKeyFound),
            BlockErrorKind::Other => match e.source {
                Some(c) => BlockchainError::from_source(c),
                None => BlockchainError::from_source(Cause::Block(BlockErrorKind::Other)),
            },
            k => BlockchainError::from_source(Cause::Block(k)),
        }
    }

    pub open spec fn from_block_error_spec(e: BlockError) -> Self {
        match e.kind {
            BlockErrorKind::InvalidSignature => BlockchainError { kind: BlockchainErrorKind::InvalidSignature, source: None },
            BlockErrorKind::NoPublicKeyFound => BlockchainError { kind: BlockchainErrorKind::NoPublicKeyFound, source: None },
            BlockErrorKind::Other => match e.source {
                Some(c) => BlockchainError { kind: BlockchainErrorKind::Other, source: Some(c) },
                None => BlockchainError { kind: BlockchainErrorKind::Other, source: Some(Cause::Block(BlockErrorKind::Other)) },
            },
            k => BlockchainError { kind: BlockchainErrorKind::Other, source: Some(Cause::Block(k)) },
        }
    }
}

} // verus!
