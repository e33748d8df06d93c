//! The errors that the bridge answers with.

use vstd::prelude::*;

verus! {

/// Why a call was refused.
#[derive(Clone, Copy, Eq, PartialEq, Debug, Structural)]
pub enum Error {
    /// Caller is not the admin or a whitelisted updater.
    Unauthorized,
    /// ABI decoding of the input failed.
    Decode,
    /// The price's timestamp is older than the feed's `max_staleness` allows.
    StalePriceFeed,
    /// No price is stored for the asset.
    AssetNotFound,
    /// The price is zero, negative, or outside the feed's sanity bounds.
    InvalidPrice,
    /// The decimal precision exceeds 18.
    InvalidDecimals,
    /// The asset's feed has already been registered.
    FeedAlreadyExists,
    /// The asset's feed has not been registered, or is inactive.
    FeedNotRegistered,
    /// The price deviated beyond the threshold, or the feed is circuit broken since one did.
    CircuitBreakerTripped,
    /// Fewer than two snapshots are available.
    InsufficientHistory,
}

impl Error {
    /// The number under which the error is reported on chain.
    pub open spec fn number(self) -> u32 {
        match self {
            Error::Unauthorized => 1,
            Error::Decode => 2,
            Error::StalePriceFeed => 3,
            Error::AssetNotFound => 4,
            Error::InvalidPrice => 5,
            Error::InvalidDecimals => 6,
            Error::FeedAlreadyExists => 7,
            Error::FeedNotRegistered => 8,
            Error::CircuitBreakerTripped => 9,
            Error::InsufficientHistory => 10,
        }
    }

    /// The number under which the error is reported on chain.
    pub fn code(self) -> (code: u32)
        ensures
            code == self.number(),
    {
        match self {
            Error::Unauthorized => 1,
            Error::Decode => 2,
            Error::StalePriceFeed => 3,
            Error::AssetNotFound => 4,
            Error::InvalidPrice => 5,
            Error::InvalidDecimals => 6,
            Error::FeedAlreadyExists => 7,
            Error::FeedNotRegistered => 8,
            Error::CircuitBreakerTripped => 9,
            Error::InsufficientHistory => 10,
        }
    }
}

} // verus!
