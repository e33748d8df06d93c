//! The calls of the bridge.

use vstd::array::array_as_slice;
use vstd::prelude::*;
use vstd::slice::slice_to_vec;

use crate::abi::{PriceFeedInput, PriceFeedOutput};
use crate::arith::{
    checked_exceeds, checked_normalize, checked_twap, normalizable, normalized,
    TARGET_DECIMALS,
};
use crate::error::Error;
use crate::history::{History, PriceSnapshot};
use crate::rules::{new_config, padded, rolled, MAX_TWAP_WINDOW};
use crate::storage::{
    Address, DefiState, DefiStateView, Env, EnvView, FeedConfig, PriceEntry, PriceEntryView,
    StorageKey, StorageView,
};
use crate::table::copy_bytes;

verus! {

/// The bridge.
///
/// A caller must have authorized the calls that are made in its name, and the admin must be set
/// before a call that only the admin may make: without that there is no answer. The same holds of
/// `submit`, `get_twap`, `get_price_abi` and `normalize` on numbers that do not fit the machine's;
/// `submit_checked`, `get_twap_checked` and `get_price_abi_checked` answer `None` there.
pub struct PriceBridge;

impl PriceBridge {
    /// Makes `admin` the admin.
    pub fn initialize(e: &mut Env, admin: Address, _max_staleness: u64)
        requires
            old(e)@.signers.contains(admin@),
        ensures
            final(e)@ == (EnvView {
                storage: old(e)@.storage.initialize_step(admin@),
                ..old(e)@
            }),
    {
        e.storage.admin = Some(admin);
    }

    /// Registers a new price feed. Admin only.
    pub fn register_feed(
        e: &mut Env,
        caller: Address,
        asset: Vec<u8>,
        max_staleness: u64,
        min_price: i128,
        max_price: i128,
        max_deviation_bps: u32,
        twap_window: u32,
    ) -> (result: Result<(), Error>)
        requires
            old(e)@.signers.contains(caller@),
            old(e)@.storage.admin is Some,
        ensures
            (result, final(e)@.storage) == old(e)@.storage.register_feed_step(
                caller@,
                asset@,
                new_config(max_staleness, min_price, max_price, max_deviation_bps, twap_window),
            ),
            final(e)@ == (EnvView { storage: final(e)@.storage, ..old(e)@ }),
    {
        if let Err(error) = Self::require_admin(e, &caller) {
            return Err(error);
        }
        if e.storage.has(&StorageKey::FeedConfig(copy_bytes(&asset))) {
            return Err(Error::FeedAlreadyExists);
        }
        let window: u32 = if twap_window < 1 {
            1
        } else if twap_window > MAX_TWAP_WINDOW {
            MAX_TWAP_WINDOW
        } else {
            twap_window
        };
        let config = FeedConfig {
            max_staleness,
            min_price,
            max_price,
            active: true,
            max_deviation_bps,
            twap_window: window,
        };
        let state = DefiState {
            circuit_broken: false,
            last_price: 0,
            history: History::new(&e.host),
        };
        e.storage.configs.set(copy_bytes(&asset), config);
        e.storage.states.set(asset, state);
        Ok(())
    }

    /// Grants or revokes the right to submit prices. Admin only.
    pub fn set_updater(e: &mut Env, caller: Address, updater: Address, allowed: bool) -> (result:
        Result<(), Error>)
        requires
            old(e)@.signers.contains(caller@),
            old(e)@.storage.admin is Some,
        ensures
            (result, final(e)@.storage) == old(e)@.storage.set_updater_step(
                caller@,
                updater@,
                allowed,
            ),
            final(e)@ == (EnvView { storage: final(e)@.storage, ..old(e)@ }),
    {
        if let Err(error) = Self::require_admin(e, &caller) {
            return Err(error);
        }
        e.storage.updaters.set(updater.text, allowed);
        Ok(())
    }

    /// Pauses or resumes a feed without deleting its configuration. Admin only.
    pub fn set_feed_active(e: &mut Env, caller: Address, asset: Vec<u8>, active: bool) -> (result:
        Result<(), Error>)
        requires
            old(e)@.signers.contains(caller@),
            old(e)@.storage.admin is Some,
        ensures
            (result, final(e)@.storage) == old(e)@.storage.set_feed_active_step(
                caller@,
                asset@,
                active,
            ),
            final(e)@ == (EnvView { storage: final(e)@.storage, ..old(e)@ }),
    {
        if let Err(error) = Self::require_admin(e, &caller) {
            return Err(error);
        }
        let mut config: FeedConfig = match e.storage.configs.get(&asset) {
            Some(config) => *config,
            None => return Err(Error::FeedNotRegistered),
        };
        config.active = active;
        e.storage.configs.set(asset, config);
        Ok(())
    }

    /// Resets a tripped circuit breaker. Admin only.
    pub fn reset_circuit_breaker(e: &mut Env, caller: Address, asset: Vec<u8>) -> (result: Result<
        (),
        Error,
    >)
        requires
            old(e)@.signers.contains(caller@),
            old(e)@.storage.admin is Some,
        ensures
            (result, final(e)@.storage) == old(e)@.storage.reset_circuit_breaker_step(
                caller@,
                asset@,
            ),
            final(e)@ == (EnvView { storage: final(e)@.storage, ..old(e)@ }),
    {
        if let Err(error) = Self::require_admin(e, &caller) {
            return Err(error);
        }
        let mut state: DefiState = match e.storage.states.take(&asset) {
            Some(state) => state,
            None => {
                assert(e@ =~= old(e)@);
                return Err(Error::FeedNotRegistered);
            },
        };
        state.circuit_broken = false;
        e.storage.states.set(asset, state);
        proof {
            let states = old(e)@.storage.states;
            let state = e@.storage.states[asset@];
            assert(states.remove(asset@).insert(asset@, state) =~= states.insert(asset@, state));
        }
        Ok(())
    }

    /// Submits an ABI-encoded price update. Whitelisted updaters only. Where the numbers of the
    /// update do not fit the machine's, nothing changes and there is no answer.
    pub fn submit_checked(e: &mut Env, caller: Address, input: Vec<u8>) -> (answer: Option<
        Result<(), Error>,
    >)
        requires
            old(e)@.signers.contains(caller@),
        ensures
            answer is Some <==> old(e)@.storage.submit_fits(old(e)@.now, caller@, input@),
            answer matches Some(result) ==> (result, final(e)@.storage)
                == old(e)@.storage.submit_step(old(e)@.now, caller@, input@),
            answer is None ==> final(e)@.storage == old(e)@.storage,
            final(e)@ == (EnvView { storage: final(e)@.storage, ..old(e)@ }),
    {
        if let Err(error) = Self::require_updater(e, &caller) {
            return Some(Err(error));
        }
        let decoded = match PriceFeedInput::abi_decode(input.as_slice()) {
            Ok(decoded) => decoded,
            Err(error) => return Some(Err(error)),
        };
        let asset = slice_to_vec(array_as_slice(&decoded.asset));
        let config: FeedConfig = match e.storage.configs.get(&asset) {
            Some(config) => *config,
            None => return Some(Err(Error::FeedNotRegistered)),
        };
        if !config.active {
            return Some(Err(Error::FeedNotRegistered));
        }
        let price: i128 = match decoded.price() {
            Ok(price) => price,
            Err(error) => return Some(Err(error)),
        };
        if price <= 0 {
            return Some(Err(Error::InvalidPrice));
        }
        if config.min_price > 0 && price < config.min_price {
            return Some(Err(Error::InvalidPrice));
        }
        if config.max_price > 0 && price > config.max_price {
            return Some(Err(Error::InvalidPrice));
        }
        if decoded.decimals > TARGET_DECIMALS {
            return Some(Err(Error::InvalidDecimals));
        }
        let now: u64 = e.timestamp;
        let timestamp: u64 = match decoded.timestamp() {
            Some(timestamp) => timestamp,
            None => return None,
        };
        if now > timestamp && now - timestamp > config.max_staleness {
            return Some(Err(Error::StalePriceFeed));
        }
        let (circuit_broken, last_price, len): (bool, i128, u32) = match e.storage.states.get(
            &asset,
        ) {
            Some(state) => (state.circuit_broken, state.last_price, state.history.len()),
            None => return Some(Err(Error::FeedNotRegistered)),
        };
        if circuit_broken {
            return Some(Err(Error::CircuitBreakerTripped));
        }
        if last_price > 0 {
            let exceeded: bool = match checked_exceeds(
                price,
                last_price,
                config.max_deviation_bps,
            ) {
                Some(exceeded) => exceeded,
                None => return None,
            };
            if exceeded {
                Self::trip(e, asset);
                return Some(Err(Error::CircuitBreakerTripped));
            }
        }
        let normalized: i128 = match checked_normalize(price, decoded.decimals) {
            Some(normalized) => normalized,
            None => return None,
        };
        if len == u32::MAX {
            return None;
        }
        let snapshot = PriceSnapshot { price, timestamp };
        Self::record(e, &asset, snapshot, config.twap_window);
        let entry = PriceEntry {
            asset: copy_bytes(&asset),
            price,
            timestamp,
            decimals: decoded.decimals as u32,
            updated_at: now,
            updater: caller,
            normalized,
        };
        e.storage.prices.set(asset, entry);
        Some(Ok(()))
    }

    /// Trips the circuit breaker of a feed.
    fn trip(e: &mut Env, asset: Vec<u8>)
        requires
            old(e)@.storage.states.contains_key(asset@),
        ensures
            final(e)@ == (EnvView {
                storage: old(e)@.storage.with_breaker(asset@, true),
                ..old(e)@
            }),
    {
        if let Some(mut state) = e.storage.states.take(&asset) {
            state.circuit_broken = true;
            e.storage.states.set(asset, state);
            proof {
                let states = old(e)@.storage.states;
                let state = e@.storage.states[asset@];
                assert(states.remove(asset@).insert(asset@, state) =~= states.insert(
                    asset@,
                    state,
                ));
            }
        }
    }

    /// Puts a snapshot into the history of a feed, which keeps `window` of them.
    fn record(e: &mut Env, asset: &Vec<u8>, snapshot: PriceSnapshot, window: u32)
        requires
            old(e)@.storage.states.contains_key(asset@),
            old(e)@.storage.states[asset@].history.len() < u32::MAX,
        ensures
            final(e)@ == (EnvView {
                storage: StorageView {
                    states: old(e)@.storage.states.insert(
                        asset@,
                        DefiStateView {
                            circuit_broken: old(e)@.storage.states[asset@].circuit_broken,
                            last_price: snapshot.price,
                            history: rolled(
                                old(e)@.storage.states[asset@].history,
                                snapshot,
                                window,
                            ),
                        },
                    ),
                    ..old(e)@.storage
                },
                ..old(e)@
            }),
    {
        if let Some(state) = e.storage.states.take(asset) {
            let mut history = state.history.push_back(snapshot);
            if history.len() > window {
                history = history.pop_front();
            }
            let state = DefiState {
                circuit_broken: state.circuit_broken,
                last_price: snapshot.price,
                history,
            };
            e.storage.states.set(copy_bytes(asset), state);
            proof {
                let states = old(e)@.storage.states;
                assert(states.remove(asset@).insert(asset@, state@) =~= states.insert(
                    asset@,
                    state@,
                ));
            }
        }
    }

    /// Submits an ABI-encoded price update. Whitelisted updaters only.
    pub fn submit(e: &mut Env, caller: Address, input: Vec<u8>) -> (result: Result<(), Error>)
        requires
            old(e)@.signers.contains(caller@),
            old(e)@.storage.submit_fits(old(e)@.now, caller@, input@),
        ensures
            (result, final(e)@.storage) == old(e)@.storage.submit_step(
                old(e)@.now,
                caller@,
                input@,
            ),
            final(e)@ == (EnvView { storage: final(e)@.storage, ..old(e)@ }),
    {
        Self::submit_checked(e, caller, input).unwrap()
    }

    /// The latest price entry of an asset, unless it is stale or its feed is circuit broken.
    pub fn get_price(e: &Env, asset: Vec<u8>) -> (result: Result<PriceEntry, Error>)
        ensures
            result matches Ok(entry) ==> e@.storage.price(e@.now, asset@) == Ok::<_, Error>(
                entry@,
            ),
            result matches Err(error) ==> e@.storage.price(e@.now, asset@) == Err::<
                PriceEntryView,
                _,
            >(error),
    {
        let state: &DefiState = match e.storage.states.get(&asset) {
            Some(state) => state,
            None => return Err(Error::FeedNotRegistered),
        };
        if state.circuit_broken {
            return Err(Error::CircuitBreakerTripped);
        }
        let entry: &PriceEntry = match e.storage.prices.get(&asset) {
            Some(entry) => entry,
            None => return Err(Error::AssetNotFound),
        };
        let config: &FeedConfig = match e.storage.configs.get(&asset) {
            Some(config) => config,
            None => return Err(Error::FeedNotRegistered),
        };
        let now: u64 = e.timestamp;
        if now > entry.timestamp && now - entry.timestamp > config.max_staleness {
            return Err(Error::StalePriceFeed);
        }
        Ok(entry.clone())
    }

    /// The time-weighted average price of an asset across its snapshots. Where it does not fit
    /// the machine's numbers, there is no answer.
    pub fn get_twap_checked(e: &Env, asset: Vec<u8>) -> (answer: Option<Result<i128, Error>>)
        ensures
            answer is Some <==> e@.storage.average_fits(asset@),
            answer matches Some(Ok(average)) ==> e@.storage.average(asset@) == Ok::<_, Error>(
                average as int,
            ),
            answer matches Some(Err(error)) ==> e@.storage.average(asset@) == Err::<int, _>(error),
    {
        let state: &DefiState = match e.storage.states.get(&asset) {
            Some(state) => state,
            None => return Some(Err(Error::FeedNotRegistered)),
        };
        if !e.storage.configs.has(&asset) {
            return Some(Err(Error::FeedNotRegistered));
        }
        if state.history.len() < 2 {
            return Some(Err(Error::InsufficientHistory));
        }
        match checked_twap(&state.history) {
            Some(average) => Some(Ok(average)),
            None => None,
        }
    }

    /// The time-weighted average price of an asset across its snapshots.
    pub fn get_twap(e: &Env, asset: Vec<u8>) -> (result: Result<i128, Error>)
        requires
            e@.storage.average_fits(asset@),
        ensures
            result matches Ok(average) ==> e@.storage.average(asset@) == Ok::<_, Error>(
                average as int,
            ),
            result matches Err(error) ==> e@.storage.average(asset@) == Err::<int, _>(error),
    {
        Self::get_twap_checked(e, asset).unwrap()
    }

    /// The stored snapshots of an asset, oldest first.
    pub fn get_history(e: &Env, asset: Vec<u8>) -> (result: Result<Vec<PriceSnapshot>, Error>)
        ensures
            result matches Ok(snapshots) ==> e@.storage.snapshots(asset@) == Ok::<_, Error>(
                snapshots@,
            ),
            result matches Err(error) ==> e@.storage.snapshots(asset@) == Err::<
                Seq<PriceSnapshot>,
                _,
            >(error),
    {
        match e.storage.states.get(&asset) {
            Some(state) => Ok(state.history.to_vec()),
            None => Err(Error::FeedNotRegistered),
        }
    }

    /// The latest price of an asset, scaled to 18 decimals.
    pub fn get_normalized_price(e: &Env, asset: Vec<u8>) -> (result: Result<i128, Error>)
        ensures
            result == (match e@.storage.price(e@.now, asset@) {
                Ok(entry) => Ok(entry.normalized),
                Err(error) => Err(error),
            }),
    {
        match Self::get_price(e, asset) {
            Ok(entry) => Ok(entry.normalized),
            Err(error) => Err(error),
        }
    }

    /// The latest price of an asset as ABI-encoded bytes, with its average and its normalized
    /// value. Where the average does not fit the machine's numbers, there is no answer.
    pub fn get_price_abi_checked(e: &Env, asset: Vec<u8>) -> (answer: Option<
        Result<Vec<u8>, Error>,
    >)
        ensures
            answer is Some <==> e@.storage.price_abi_fits(e@.now, asset@),
            answer matches Some(Ok(data)) ==> e@.storage.price_abi(e@.now, asset@) == Ok::<
                _,
                Error,
            >(data@),
            answer matches Some(Err(error)) ==> e@.storage.price_abi(e@.now, asset@) == Err::<
                Seq<u8>,
                _,
            >(error),
    {
        let entry = match Self::get_price(e, copy_bytes(&asset)) {
            Ok(entry) => entry,
            Err(error) => return Some(Err(error)),
        };
        let twap: i128 = match Self::get_twap_checked(e, asset) {
            Some(Ok(average)) => average,
            Some(Err(_)) => entry.price,
            None => return None,
        };
        let output = PriceFeedOutput {
            asset: Self::padded_asset(&entry.asset),
            price: entry.price,
            timestamp: entry.timestamp,
            decimals: Self::low_byte(entry.decimals),
            queried_at: e.timestamp,
            twap,
            normalized: entry.normalized,
        };
        Some(Ok(output.abi_encode()))
    }

    /// The latest price of an asset as ABI-encoded bytes, with its average and its normalized
    /// value.
    pub fn get_price_abi(e: &Env, asset: Vec<u8>) -> (result: Result<Vec<u8>, Error>)
        requires
            e@.storage.price_abi_fits(e@.now, asset@),
        ensures
            result matches Ok(data) ==> e@.storage.price_abi(e@.now, asset@) == Ok::<_, Error>(
                data@,
            ),
            result matches Err(error) ==> e@.storage.price_abi(e@.now, asset@) == Err::<
                Seq<u8>,
                _,
            >(error),
    {
        Self::get_price_abi_checked(e, asset).unwrap()
    }

    /// The least significant byte of a number.
    fn low_byte(n: u32) -> (byte: u8)
        ensures
            byte == n % 256,
    {
        assert(n as u8 == n % 256) by (bit_vector);
        #[verifier::truncate]
        (n as u8)
    }

    /// An asset identifier in 32 bytes.
    fn padded_asset(asset: &Vec<u8>) -> (bytes: [u8; 32])
        ensures
            bytes@ == padded(asset@),
    {
        let mut bytes: [u8; 32] = [0;32];
        let len: usize = if asset.len() < 32 {
            asset.len()
        } else {
            32
        };
        let mut i: usize = 0;
        while i < len
            invariant
                i <= len <= 32,
                len <= asset@.len(),
                bytes@.len() == 32,
                forall|j: int| 0 <= j < i ==> bytes@[j] == asset@[j],
                forall|j: int| i <= j < 32 ==> bytes@[j] == 0,
            decreases len - i,
        {
            bytes[i] = asset[i];
            i = i + 1;
        }
        assert(bytes@ =~= padded(asset@));
        bytes
    }

    /// The rules of an asset's feed.
    pub fn get_feed_config(e: &Env, asset: Vec<u8>) -> (result: Result<FeedConfig, Error>)
        ensures
            result == e@.storage.config(asset@),
    {
        match e.storage.configs.get(&asset) {
            Some(config) => Ok(*config),
            None => Err(Error::FeedNotRegistered),
        }
    }

    /// Whether an asset has a valid price: neither stale nor circuit broken.
    pub fn is_fresh(e: &Env, asset: Vec<u8>) -> (fresh: bool)
        ensures
            fresh == e@.storage.price(e@.now, asset@) is Ok,
    {
        Self::get_price(e, asset).is_ok()
    }

    /// Whether the circuit breaker of an asset's feed has tripped.
    pub fn is_circuit_broken(e: &Env, asset: Vec<u8>) -> (broken: bool)
        ensures
            broken == e@.storage.broken(asset@),
    {
        match e.storage.states.get(&asset) {
            Some(state) => state.circuit_broken,
            None => false,
        }
    }

    /// The caller must be the admin.
    fn require_admin(e: &Env, caller: &Address) -> (result: Result<(), Error>)
        requires
            e@.storage.admin is Some,
        ensures
            result == (if e@.storage.may_manage(caller@) {
                Ok(())
            } else {
                Err(Error::Unauthorized)
            }),
    {
        match &e.storage.admin {
            Some(admin) if caller.same(admin) => Ok(()),
            _ => Err(Error::Unauthorized),
        }
    }

    /// The caller must be allowed to submit prices.
    fn require_updater(e: &Env, caller: &Address) -> (result: Result<(), Error>)
        ensures
            result == (if e@.storage.may_submit(caller@) {
                Ok(())
            } else {
                Err(Error::Unauthorized)
            }),
    {
        let allowed: bool = match e.storage.updaters.get(&caller.text) {
            Some(allowed) => *allowed,
            None => false,
        };
        if !allowed {
            return Err(Error::Unauthorized);
        }
        Ok(())
    }

    /// Scales a price of precision `decimals` to 18 decimals.
    pub fn normalize(price: i128, decimals: u8) -> (result: i128)
        requires
            normalizable(price as int, decimals),
        ensures
            result == normalized(price as int, decimals),
    {
        checked_normalize(price, decimals).unwrap()
    }
}

} // verus!
