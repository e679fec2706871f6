//! What the registry reports when it declines an operation.

use vstd::prelude::*;

verus! {

/// Why a token could not be minted.
#[derive(Clone, Copy, Debug, PartialEq, Eq, Structural)]
pub enum MintError {
    /// The supply counter has reached its largest value.
    SupplyExhausted,
    /// The identifier asked for already names a token.
    DuplicateId,
    /// Every identifier that could still be derived already names a token.
    IdSpaceExhausted,
}

/// Why a token could not be transferred.
#[derive(Clone, Copy, Debug, PartialEq, Eq, Structural)]
pub enum TransferError {
    /// No token has the identifier given.
    NotFound,
    /// The token already belongs to the owner it was to be passed to.
    InvalidTransfer,
}

impl MintError {
    /// A sentence that says what went wrong.
    pub fn message(&self) -> (text: &'static str)
        ensures
            text@ == match *self {
                MintError::SupplyExhausted => "The supply of NFTs is exhausted"@,
                MintError::DuplicateId => "The NFT already exists"@,
                MintError::IdSpaceExhausted => "No identifier is left for the NFT"@,
            },
    {
        match self {
            MintError::SupplyExhausted => "The supply of NFTs is exhausted",
            MintError::DuplicateId => "The NFT already exists",
            MintError::IdSpaceExhausted => "No identifier is left for the NFT",
        }
    }
}

impl TransferError {
    /// A sentence that says what went wrong.
    pub fn message(&self) -> (text: &'static str)
        ensures
            text@ == match *self {
                TransferError::NotFound => "The NFT doesn't exist"@,
                TransferError::InvalidTransfer => "The sender is already the owner of the NFT"@,
            },
    {
        match self {
            TransferError::NotFound => "The NFT doesn't exist",
            TransferError::InvalidTransfer => "The sender is already the owner of the NFT",
        }
    }
}

} // verus!
