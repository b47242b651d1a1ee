//! The reasons for which an operation is turned down.
use vstd::prelude::*;

verus! {

/// Why an operation was rejected. A rejected operation leaves the state as
/// it found it.
#[derive(Clone, Copy, Debug, PartialEq, Eq, Structural)]
pub enum MintError {
    /// A draw was asked of an empty pool.
    PoolExhausted,
    /// The new size is smaller than what the pool has already given out or
    /// promised.
    InvalidResize,
    /// During the premint: the signer holds tokens and is not on the list.
    NotAllowListed,
    /// During the premint: the signer would hold more than the limit.
    PerAccountLimitExceeded,
    /// During the premint: the premint's share has been issued.
    RestrictedCapExceeded,
    /// The premint has not begun.
    SaleNotOpen,
    /// Only the owner may mint: the sale is switched off.
    SaleUnavailable,
    /// The attached deposit does not cover what is due.
    InsufficientFunds,
    /// Fewer tokens are left than were asked for.
    InsufficientSupply,
    /// The state exists already.
    AlreadyInitialized,
    /// The premint is running.
    AlreadyStarted,
    /// The premint is over.
    AlreadyFinished,
    /// No open reservation has this handle.
    UnknownReservation,
    /// The signer is not the owner.
    NotOwner,
}

impl MintError {
    /// The text that goes with each kind.
    pub open spec fn spec_reason(self) -> Seq<char> {
        match self {
            MintError::PoolExhausted => "Nothing left to draw"@,
            MintError::InvalidResize => "New size is below what is already taken"@,
            MintError::NotAllowListed => "Account is not in whitelist"@,
            MintError::PerAccountLimitExceeded => "cant mint more than 2 nfts"@,
            MintError::RestrictedCapExceeded => "cant mint more than 1500 nfts during premint"@,
            MintError::SaleNotOpen => "Premint period must be over"@,
            MintError::SaleUnavailable => "Minting is not available"@,
            MintError::InsufficientFunds => "Not enough attached deposit to buy"@,
            MintError::InsufficientSupply => "No NFTs left to mint"@,
            MintError::AlreadyInitialized => "The contract has already been initialized"@,
            MintError::AlreadyStarted => "premint has already started"@,
            MintError::AlreadyFinished => "premint has already been done"@,
            MintError::UnknownReservation => "Promise before Linkdrop callback failed"@,
            MintError::NotOwner => "Method is private to owner"@,
        }
    }

    /// A sentence for the caller.
    pub fn reason(&self) -> (text: String)
        ensures
            text@ == self.spec_reason(),
    {
        match self {
            MintError::PoolExhausted => "Nothing left to draw".to_owned(),
            MintError::InvalidResize => "New size is below what is already taken".to_owned(),
            MintError::NotAllowListed => "Account is not in whitelist".to_owned(),
            MintError::PerAccountLimitExceeded => "cant mint more than 2 nfts".to_owned(),
            MintError::RestrictedCapExceeded => {
                "cant mint more than 1500 nfts during premint".to_owned()
            },
            MintError::SaleNotOpen => "Premint period must be over".to_owned(),
            MintError::SaleUnavailable => "Minting is not available".to_owned(),
            MintError::InsufficientFunds => "Not enough attached deposit to buy".to_owned(),
            MintError::InsufficientSupply => "No NFTs left to mint".to_owned(),
            MintError::AlreadyInitialized => {
                "The contract has already been initialized".to_owned()
            },
            MintError::AlreadyStarted => "premint has already started".to_owned(),
            MintError::AlreadyFinished => "premint has already been done".to_owned(),
            MintError::UnknownReservation => "Promise before Linkdrop callback failed".to_owned(),
            MintError::NotOwner => "Method is private to owner".to_owned(),
        }
    }
}

} // verus!
