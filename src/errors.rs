use vstd::prelude::*;

use miden_objects::crypto::merkle::MerkleError;

use crate::digest::{AccountId, Nullifier};

verus! {

/// Why the nullifier tracker refused to be built or changed.
#[derive(Debug)]
pub enum NullifierTreeError {
    /// An initial entry records the genesis height, which consumes no notes.
    GenesisBlockNumber { nullifier: Nullifier },
    /// The map refused the initial entries (a nullifier occurs twice).
    CreationFailed(MerkleError),
    /// The changes were computed for another version of the tracker.
    StaleMutations,
    /// The map refused the changes (they were computed against another root).
    MutationFailed(MerkleError),
}

/// Why a wire message does not decode into the domain model.
#[derive(Debug, Clone, PartialEq, Eq)]
pub enum ConversionError {
    TooMuchData { expected: usize, got: usize },
    InsufficientData { expected: usize, got: usize },
    /// A value is not in the range `0..MODULUS`.
    NotAValidFelt,
    /// A field that the message must carry is absent.
    MissingFieldInProtobufRepresentation { entity: &'static str, field_name: &'static str },
}

/// The error that names a missing field of the message type `Self`.
pub trait MissingFieldHelper {
    /// The name of the message type.
    spec fn entity_name() -> &'static str;

    fn missing_field(field_name: &'static str) -> (r: ConversionError)
        ensures
            r == (ConversionError::MissingFieldInProtobufRepresentation {
                entity: Self::entity_name(),
                field_name,
            }),
    ;
}

/// Failure to obtain the inputs of one transaction.
#[derive(Debug, Clone, PartialEq, Eq)]
pub enum TxInputsError {
    /// The remote call failed; the store's message.
    GrpcClientError(String),
    /// The answer is well formed but belongs to another account.
    MalformedResponse { expected: AccountId, got: AccountId },
    /// The answer does not decode.
    ConversionError(ConversionError),
}

/// Failure to obtain the inputs of a block.
#[derive(Debug, Clone, PartialEq, Eq)]
pub enum BlockInputsError {
    GrpcClientError(String),
    ConversionError(ConversionError),
}

/// Failure to obtain note authentication paths.
#[derive(Debug, Clone, PartialEq, Eq)]
pub enum NotePathsError {
    GrpcClientError(String),
    ConversionError(ConversionError),
}

/// Failure to commit a block.
#[derive(Debug, Clone, PartialEq, Eq)]
pub enum ApplyBlockError {
    GrpcClientError(String),
}

} // verus!
