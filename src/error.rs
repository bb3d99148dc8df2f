use vstd::prelude::*;

verus! {

/// Why an operation of the pool was refused. A refused operation leaves the
/// state as it was.
#[derive(Debug, Clone, Copy, PartialEq, Eq, Structural)]
pub enum Error {
    /// The Merkle tree holds as many leaves as it can.
    TreeFull,
    /// A value handed to the tree hash is not a field element.
    HashError,
    /// No further chain can be linked.
    EdgeListFull,
    /// An edge update does not advance the leaf index, or advances it too far.
    StaleOrReplayedEdge,
    /// No record exists for the chain asked for.
    ItemNotFound,
    /// The number of roots differs from the number of linked trees.
    UnmatchedEdges,
    /// The root of the local tree is not among its recent roots.
    UnknownRoot,
    /// A root of a linked chain is not among its recent roots.
    InvalidMerkleRoots,
    /// A nullifier was already spent.
    AlreadyRevealedNullifier,
    /// The hash of the external data differs from the one bound in the proof.
    InvalidExtData,
    /// The fee exceeds the configured maximum.
    InvalidFeeAmount,
    /// The external amount exceeds the configured maximum in absolute value.
    InvalidExtAmount,
    /// The public amount is not the field encoding of amount minus fee.
    InvalidPublicAmount,
    /// The proof was rejected, or no circuit has its shape.
    InvalidTxProof,
    /// A deposit carries a negative amount, or a withdrawal a positive one.
    InvalidExecutionEntry,
    /// A deposit exceeds the configured maximum.
    InvalidDepositAmount,
    /// A withdrawal is below the configured minimum.
    InvalidWithdrawAmount,
    /// The amount received differs from the amount deposited.
    InsufficientFunds,
    /// The verifier could not reach a verdict.
    VerifyError,
    /// The withdrawal proof was rejected.
    InvalidWithdrawProof,
    /// The caller or the token is not the one the pool accepts.
    Unauthorized,
    /// The token wrapper could not say how much a deposit must bring.
    WrappingError,
}

} // verus!
