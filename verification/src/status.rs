//! Pool status reports for a tracked transaction.

use vstd::prelude::*;

verus! {

/// The status of a submitted transaction, as the transaction pool reports it
/// on the per-submission status stream. Block identity is carried as a plain
/// header number; an inclusion report also carries the index of the
/// transaction inside that block.
#[derive(Clone, Copy, Debug, PartialEq, Eq, Structural)]
pub enum PoolStatus {
    /// Valid, but not yet ready to be included (for example, a gap in the
    /// sender's nonce sequence).
    Future,
    /// Ready for inclusion in a block.
    Ready,
    /// Included in the given block at the given index.
    InBlock(u64, u64),
    /// Included in a finalized block at the given index. Terminal.
    Finalized(u64, u64),
    /// The pool gave up waiting for finality. Terminal.
    FinalityTimeout,
    /// Rejected as invalid. Terminal.
    Invalid,
    /// Dropped from the pool. Terminal.
    Dropped,
    /// Replaced by another transaction with the same identity. Terminal.
    Usurped,
    /// Included earlier, but the including block was retracted.
    Retracted,
}

impl PoolStatus {
    /// A terminal status ends the lifecycle of the operation: no further
    /// progress is possible once one is observed.
    pub open spec fn spec_is_terminal(self) -> bool {
        match self {
            PoolStatus::Finalized(_, _) => true,
            PoolStatus::FinalityTimeout => true,
            PoolStatus::Invalid => true,
            PoolStatus::Dropped => true,
            PoolStatus::Usurped => true,
            PoolStatus::Future => false,
            PoolStatus::Ready => false,
            PoolStatus::InBlock(_, _) => false,
            PoolStatus::Retracted => false,
        }
    }

    /// Whether this status is terminal.
    pub fn is_terminal(&self) -> (r: bool)
        ensures
            r == self.spec_is_terminal(),
    {
        match self {
            PoolStatus::Finalized(_, _) => true,
            PoolStatus::FinalityTimeout => true,
            PoolStatus::Invalid => true,
            PoolStatus::Dropped => true,
            PoolStatus::Usurped => true,
            _ => false,
        }
    }
}

} // verus!
