//! What the bridge answers and what it changes, stated over the stored values.
//!
//! Each `..._step` gives the answer of a call together with the values stored after it.

use vstd::prelude::*;

use crate::abi::{decoded, output_words, PriceFeedInputView};
use crate::arith::{
    averageable, comparable, exceeds, normalizable, normalized, twap, TARGET_DECIMALS,
};
use crate::error::Error;
use crate::history::PriceSnapshot;
use crate::storage::{DefiStateView, FeedConfig, PriceEntryView, StorageView};

verus! {

/// The largest number of snapshots that a feed keeps.
pub const MAX_TWAP_WINDOW: u32 = 10;

/// The number of snapshots that a feed keeps where `requested` were asked for.
pub open spec fn granted_window(requested: u32) -> u32 {
    if requested < 1 {
        1
    } else if requested > MAX_TWAP_WINDOW {
        MAX_TWAP_WINDOW
    } else {
        requested
    }
}

/// The rules of a newly registered feed.
pub open spec fn new_config(
    max_staleness: u64,
    min_price: i128,
    max_price: i128,
    max_deviation_bps: u32,
    twap_window: u32,
) -> FeedConfig {
    FeedConfig {
        max_staleness,
        min_price,
        max_price,
        active: true,
        max_deviation_bps,
        twap_window: granted_window(twap_window),
    }
}

/// Whether a price lies within the rules of a feed: positive, and within the bounds that apply.
pub open spec fn within_bounds(config: FeedConfig, price: int) -> bool {
    &&& 0 < price <= i128::MAX
    &&& config.min_price > 0 ==> price >= config.min_price
    &&& config.max_price > 0 ==> price <= config.max_price
}

/// Whether a price observed at `timestamp` is older than `max_staleness` at `now`.
pub open spec fn stale(now: u64, timestamp: int, max_staleness: u64) -> bool {
    now - timestamp > max_staleness
}

/// What is stored of an update that `caller` submits at `now`.
pub open spec fn entry_of(now: u64, caller: Seq<u8>, update: PriceFeedInputView) -> PriceEntryView {
    PriceEntryView {
        asset: update.asset,
        price: update.price as i128,
        timestamp: update.timestamp as u64,
        decimals: update.decimals as u32,
        updated_at: now,
        updater: caller,
        normalized: normalized(update.price, update.decimals) as i128,
    }
}

/// The history with one more snapshot, without the oldest one where the window is exceeded.
pub open spec fn rolled(
    history: Seq<PriceSnapshot>,
    snapshot: PriceSnapshot,
    window: u32,
) -> Seq<PriceSnapshot> {
    let pushed = history.push(snapshot);
    if pushed.len() > window {
        pushed.drop_first()
    } else {
        pushed
    }
}

impl StorageView {
    /// Whether `who` manages feeds and updaters.
    pub open spec fn may_manage(self, who: Seq<u8>) -> bool {
        self.admin == Some(who)
    }

    /// Whether `who` may submit prices.
    pub open spec fn may_submit(self, who: Seq<u8>) -> bool {
        self.updaters.contains_key(who) && self.updaters[who]
    }

    /// The values after `admin` has taken over.
    pub open spec fn initialize_step(self, admin: Seq<u8>) -> StorageView {
        StorageView { admin: Some(admin), ..self }
    }

    /// Registering a feed.
    pub open spec fn register_feed_step(
        self,
        caller: Seq<u8>,
        asset: Seq<u8>,
        config: FeedConfig,
    ) -> (Result<(), Error>, StorageView) {
        if !self.may_manage(caller) {
            (Err(Error::Unauthorized), self)
        } else if self.configs.contains_key(asset) {
            (Err(Error::FeedAlreadyExists), self)
        } else {
            let state = DefiStateView {
                circuit_broken: false,
                last_price: 0,
                history: Seq::empty(),
            };
            (
                Ok(()),
                StorageView {
                    configs: self.configs.insert(asset, config),
                    states: self.states.insert(asset, state),
                    ..self
                },
            )
        }
    }

    /// Granting or revoking the right to submit prices.
    pub open spec fn set_updater_step(
        self,
        caller: Seq<u8>,
        updater: Seq<u8>,
        allowed: bool,
    ) -> (Result<(), Error>, StorageView) {
        if !self.may_manage(caller) {
            (Err(Error::Unauthorized), self)
        } else {
            (Ok(()), StorageView { updaters: self.updaters.insert(updater, allowed), ..self })
        }
    }

    /// Pausing or resuming a feed.
    pub open spec fn set_feed_active_step(
        self,
        caller: Seq<u8>,
        asset: Seq<u8>,
        active: bool,
    ) -> (Result<(), Error>, StorageView) {
        if !self.may_manage(caller) {
            (Err(Error::Unauthorized), self)
        } else if !self.configs.contains_key(asset) {
            (Err(Error::FeedNotRegistered), self)
        } else {
            let config = FeedConfig { active, ..self.configs[asset] };
            (Ok(()), StorageView { configs: self.configs.insert(asset, config), ..self })
        }
    }

    /// The values with the circuit breaker of a feed set.
    pub open spec fn with_breaker(self, asset: Seq<u8>, broken: bool) -> StorageView {
        let state = DefiStateView { circuit_broken: broken, ..self.states[asset] };
        StorageView { states: self.states.insert(asset, state), ..self }
    }

    /// Resetting the circuit breaker of a feed.
    pub open spec fn reset_circuit_breaker_step(
        self,
        caller: Seq<u8>,
        asset: Seq<u8>,
    ) -> (Result<(), Error>, StorageView) {
        if !self.may_manage(caller) {
            (Err(Error::Unauthorized), self)
        } else if !self.states.contains_key(asset) {
            (Err(Error::FeedNotRegistered), self)
        } else {
            (Ok(()), self.with_breaker(asset, false))
        }
    }

    /// The submitted update, if who submits it and what it says pass the checks that do not
    /// depend on time; else the first check that fails.
    pub open spec fn screened(self, caller: Seq<u8>, input: Seq<u8>) -> Result<
        PriceFeedInputView,
        Error,
    > {
        if !self.may_submit(caller) {
            Err(Error::Unauthorized)
        } else {
            match decoded(input) {
                None => Err(Error::Decode),
                Some(update) => if !self.configs.contains_key(update.asset)
                    || !self.configs[update.asset].active {
                    Err(Error::FeedNotRegistered)
                } else if !within_bounds(self.configs[update.asset], update.price) {
                    Err(Error::InvalidPrice)
                } else if update.decimals > TARGET_DECIMALS {
                    Err(Error::InvalidDecimals)
                } else {
                    Ok(update)
                },
            }
        }
    }

    /// The submitted update, if it passes every check but the one on deviation; else the first
    /// check that fails.
    pub open spec fn admitted(self, now: u64, caller: Seq<u8>, input: Seq<u8>) -> Result<
        PriceFeedInputView,
        Error,
    > {
        match self.screened(caller, input) {
            Err(error) => Err(error),
            Ok(update) => if stale(
                now,
                update.timestamp as int,
                self.configs[update.asset].max_staleness,
            ) {
                Err(Error::StalePriceFeed)
            } else if !self.states.contains_key(update.asset) {
                Err(Error::FeedNotRegistered)
            } else if self.states[update.asset].circuit_broken {
                Err(Error::CircuitBreakerTripped)
            } else {
                Ok(update)
            },
        }
    }

    /// Whether a feed has an accepted price, against which the next one is held.
    pub open spec fn compares(self, asset: Seq<u8>) -> bool {
        self.states[asset].last_price > 0
    }

    /// Whether a price is too far from the one before it.
    pub open spec fn deviates(self, asset: Seq<u8>, price: int) -> bool {
        &&& self.compares(asset)
        &&& exceeds(
            price,
            self.states[asset].last_price as int,
            self.configs[asset].max_deviation_bps,
        )
    }

    /// The values after an update has been accepted.
    pub open spec fn accepted(
        self,
        now: u64,
        caller: Seq<u8>,
        update: PriceFeedInputView,
    ) -> StorageView {
        let asset = update.asset;
        let price = update.price as i128;
        let timestamp = update.timestamp as u64;
        let state = DefiStateView {
            circuit_broken: self.states[asset].circuit_broken,
            last_price: price,
            history: rolled(
                self.states[asset].history,
                PriceSnapshot { price, timestamp },
                self.configs[asset].twap_window,
            ),
        };
        StorageView {
            states: self.states.insert(asset, state),
            prices: self.prices.insert(asset, entry_of(now, caller, update)),
            ..self
        }
    }

    /// Submitting an update. One that deviates too far trips the feed's circuit breaker.
    pub open spec fn submit_step(self, now: u64, caller: Seq<u8>, input: Seq<u8>) -> (
        Result<(), Error>,
        StorageView,
    ) {
        match self.admitted(now, caller, input) {
            Err(error) => (Err(error), self),
            Ok(update) => if self.deviates(update.asset, update.price) {
                (Err(Error::CircuitBreakerTripped), self.with_breaker(update.asset, true))
            } else {
                (Ok(()), self.accepted(now, caller, update))
            },
        }
    }

    /// Whether submitting an update stays within the machine's numbers: a timestamp that is looked
    /// at fits 64 bits, and the deviation and the scaled price, where they are computed, fit 128
    /// bits.
    pub open spec fn submit_fits(self, now: u64, caller: Seq<u8>, input: Seq<u8>) -> bool {
        &&& self.screened(caller, input) matches Ok(update) ==> update.timestamp <= u64::MAX
        &&& self.admitted(now, caller, input) matches Ok(update) ==> {
            let state = self.states[update.asset];
            &&& self.compares(update.asset) ==> comparable(
                update.price,
                state.last_price as int,
                self.configs[update.asset].max_deviation_bps,
            )
            &&& !self.deviates(update.asset, update.price) ==> {
                &&& normalizable(update.price, update.decimals)
                &&& state.history.len() < u32::MAX
            }
        }
    }

    /// The latest price of an asset, unless its feed is circuit broken or the price is stale.
    pub open spec fn price(self, now: u64, asset: Seq<u8>) -> Result<PriceEntryView, Error> {
        if !self.states.contains_key(asset) {
            Err(Error::FeedNotRegistered)
        } else if self.states[asset].circuit_broken {
            Err(Error::CircuitBreakerTripped)
        } else if !self.prices.contains_key(asset) {
            Err(Error::AssetNotFound)
        } else if !self.configs.contains_key(asset) {
            Err(Error::FeedNotRegistered)
        } else if stale(
            now,
            self.prices[asset].timestamp as int,
            self.configs[asset].max_staleness,
        ) {
            Err(Error::StalePriceFeed)
        } else {
            Ok(self.prices[asset])
        }
    }

    /// Whether an asset has a feed with enough history for an average.
    pub open spec fn has_average(self, asset: Seq<u8>) -> bool {
        &&& self.states.contains_key(asset)
        &&& self.configs.contains_key(asset)
        &&& self.states[asset].history.len() >= 2
    }

    /// The time-weighted average price of an asset.
    pub open spec fn average(self, asset: Seq<u8>) -> Result<int, Error> {
        if !self.states.contains_key(asset) || !self.configs.contains_key(asset) {
            Err(Error::FeedNotRegistered)
        } else if self.states[asset].history.len() < 2 {
            Err(Error::InsufficientHistory)
        } else {
            Ok(twap(self.states[asset].history))
        }
    }

    /// Whether computing the average of an asset stays within the machine's numbers.
    pub open spec fn average_fits(self, asset: Seq<u8>) -> bool {
        self.has_average(asset) ==> averageable(self.states[asset].history)
    }

    /// The snapshots of an asset.
    pub open spec fn snapshots(self, asset: Seq<u8>) -> Result<Seq<PriceSnapshot>, Error> {
        if self.states.contains_key(asset) {
            Ok(self.states[asset].history)
        } else {
            Err(Error::FeedNotRegistered)
        }
    }

    /// The rules of an asset's feed.
    pub open spec fn config(self, asset: Seq<u8>) -> Result<FeedConfig, Error> {
        if self.configs.contains_key(asset) {
            Ok(self.configs[asset])
        } else {
            Err(Error::FeedNotRegistered)
        }
    }

    /// Whether an asset has a feed whose circuit breaker has tripped.
    pub open spec fn broken(self, asset: Seq<u8>) -> bool {
        self.states.contains_key(asset) && self.states[asset].circuit_broken
    }

    /// The ABI encoding of the latest price of an asset, with the average in place of which the
    /// price itself stands where there is none.
    pub open spec fn price_abi(self, now: u64, asset: Seq<u8>) -> Result<Seq<u8>, Error> {
        match self.price(now, asset) {
            Err(error) => Err(error),
            Ok(entry) => {
                let average = match self.average(asset) {
                    Ok(average) => average,
                    Err(_) => entry.price as int,
                };
                Ok(
                    output_words(
                        padded(entry.asset),
                        entry.price,
                        entry.timestamp,
                        (entry.decimals % 256) as u8,
                        now,
                        average as i128,
                        entry.normalized,
                    ),
                )
            },
        }
    }

    /// Whether `price_abi` stays within the machine's numbers.
    pub open spec fn price_abi_fits(self, now: u64, asset: Seq<u8>) -> bool {
        self.price(now, asset) is Ok ==> self.average_fits(asset)
    }
}

/// The first 32 bytes of an asset identifier, with zeros behind it where it is shorter.
pub open spec fn padded(asset: Seq<u8>) -> Seq<u8> {
    Seq::new(
        32,
        |i: int|
            if i < asset.len() {
                asset[i]
            } else {
                0
            },
    )
}

} // verus!
