//! What holds of the bridge across calls.

use vstd::prelude::*;

use crate::abi::{
    be_value, decoded, law_output_reads_back, signed_value, PriceFeedInputView,
};
use crate::arith::{
    law_ordered_history_is_averageable, law_twap_between_prices, magnitude, normalized,
};
use crate::error::Error;
use crate::history::PriceSnapshot;
use crate::rules::{
    entry_of, granted_window, new_config, padded, rolled, MAX_TWAP_WINDOW,
};
use crate::storage::{FeedConfig, PriceEntryView, StorageView};

verus! {

/// A call that can change what is stored.
pub enum Call {
    Initialize { admin: Seq<u8> },
    RegisterFeed {
        caller: Seq<u8>,
        asset: Seq<u8>,
        max_staleness: u64,
        min_price: i128,
        max_price: i128,
        max_deviation_bps: u32,
        twap_window: u32,
    },
    SetUpdater { caller: Seq<u8>, updater: Seq<u8>, allowed: bool },
    SetFeedActive { caller: Seq<u8>, asset: Seq<u8>, active: bool },
    ResetCircuitBreaker { caller: Seq<u8>, asset: Seq<u8> },
    Submit { now: u64, caller: Seq<u8>, input: Seq<u8> },
}

impl StorageView {
    /// The answer to a call and the values stored after it.
    pub open spec fn step(self, call: Call) -> (Result<(), Error>, StorageView) {
        match call {
            Call::Initialize { admin } => (Ok(()), self.initialize_step(admin)),
            Call::RegisterFeed {
                caller,
                asset,
                max_staleness,
                min_price,
                max_price,
                max_deviation_bps,
                twap_window,
            } => self.register_feed_step(
                caller,
                asset,
                new_config(max_staleness, min_price, max_price, max_deviation_bps, twap_window),
            ),
            Call::SetUpdater { caller, updater, allowed } => self.set_updater_step(
                caller,
                updater,
                allowed,
            ),
            Call::SetFeedActive { caller, asset, active } => self.set_feed_active_step(
                caller,
                asset,
                active,
            ),
            Call::ResetCircuitBreaker { caller, asset } => self.reset_circuit_breaker_step(
                caller,
                asset,
            ),
            Call::Submit { now, caller, input } => self.submit_step(now, caller, input),
        }
    }

    /// Whether a call stays within the machine's numbers.
    pub open spec fn step_fits(self, call: Call) -> bool {
        call matches Call::Submit { now, caller, input } ==> self.submit_fits(now, caller, input)
    }

    /// Whether what is stored of a feed belongs together.
    ///
    /// The window has a size from 1 to 10 and is not exceeded. Every price in it keeps the feed's
    /// bounds, and each one keeps the feed's distance from the one before it. The latest one is
    /// the one that is served, and that deviations are measured from; it was not stale when it was
    /// stored.
    pub open spec fn feed_consistent(self, asset: Seq<u8>) -> bool {
        let config = self.configs[asset];
        let state = self.states[asset];
        let history = state.history;
        &&& 1 <= config.twap_window <= MAX_TWAP_WINDOW
        &&& history.len() <= config.twap_window
        &&& forall|i: int|
            0 <= i < history.len() ==> bounded(config, (#[trigger] history[i]).price as int)
        &&& forall|i: int, j: int|
            0 <= i && j == i + 1 && j < history.len() ==> close(
                config,
                (#[trigger] history[i]).price,
                (#[trigger] history[j]).price,
            )
        &&& self.prices.contains_key(asset) <==> history.len() > 0
        &&& history.len() == 0 ==> state.last_price == 0
        &&& history.len() > 0 ==> {
            let entry = self.prices[asset];
            &&& state.last_price == history.last().price
            &&& entry.price == history.last().price
            &&& entry.timestamp == history.last().timestamp
            &&& entry.asset == asset
            &&& asset.len() == 32
            &&& entry.decimals <= 18
            &&& entry.normalized == normalized(entry.price as int, entry.decimals as u8)
            &&& entry.updated_at - entry.timestamp <= config.max_staleness
        }
    }

    /// Whether what is stored belongs together: rules, state and price of each feed.
    pub open spec fn consistent(self) -> bool {
        &&& self.configs.dom() == self.states.dom()
        &&& self.prices.dom().subset_of(self.configs.dom())
        &&& forall|asset: Seq<u8>| #[trigger]
            self.configs.contains_key(asset) ==> self.feed_consistent(asset)
    }
}

/// Whether a price is within the feed's distance from the one before it.
pub open spec fn close(config: FeedConfig, before: i128, price: i128) -> bool {
    10_000 * magnitude(price - before) <= config.max_deviation_bps * before
}

/// Whether a price is positive and keeps the bounds of a feed, each of which applies where it is
/// positive.
pub open spec fn bounded(config: FeedConfig, price: int) -> bool {
    &&& 0 < price <= i128::MAX
    &&& config.min_price <= 0 || config.min_price <= price
    &&& config.max_price <= 0 || price <= config.max_price
}

/// Nothing stored is consistent.
pub proof fn law_empty_is_consistent()
    ensures
        StorageView::empty().consistent(),
{
    let s = StorageView::empty();
    assert(s.configs.dom() =~= s.states.dom());
}

/// An accepted update keeps its feed consistent.
proof fn lemma_accepted_consistent(
    s: StorageView,
    now: u64,
    caller: Seq<u8>,
    input: Seq<u8>,
    update: PriceFeedInputView,
)
    requires
        s.consistent(),
        s.submit_fits(now, caller, input),
        s.admitted(now, caller, input) == Ok::<_, Error>(update),
        !s.deviates(update.asset, update.price),
    ensures
        s.accepted(now, caller, update).feed_consistent(update.asset),
{
    let t = s.accepted(now, caller, update);
    let asset = update.asset;
    assert(s.configs.contains_key(asset));
    assert(s.feed_consistent(asset));
    let config = s.configs[asset];
    let old_history = s.states[asset].history;
    let snapshot = PriceSnapshot { price: update.price as i128, timestamp: update.timestamp as u64 };
    let pushed = old_history.push(snapshot);
    let history = t.states[asset].history;
    assert(history == rolled(old_history, snapshot, config.twap_window));
    let shift: int = if pushed.len() > config.twap_window {
        1
    } else {
        0
    };
    assert(history.len() == pushed.len() - shift);
    assert(forall|i: int| 0 <= i < history.len() ==> history[i] == pushed[i + shift]);
    assert forall|i: int| 0 <= i < history.len() implies bounded(
        config,
        (#[trigger] history[i]).price as int,
    ) by {
        if i + shift < old_history.len() {
            assert(history[i] == old_history[i + shift]);
        }
    }
    assert forall|i: int, j: int|
        0 <= i && j == i + 1 && j < history.len() implies close(
        config,
        (#[trigger] history[i]).price,
        (#[trigger] history[j]).price,
    ) by {
        assert(history[i] == old_history[i + shift]);
        if j + shift < old_history.len() {
            assert(history[j] == old_history[j + shift]);
        } else {
            assert(history[i] == old_history.last());
            assert(bounded(config, old_history.last().price as int));
        }
    }
}

/// Every call keeps what is stored consistent.
pub proof fn law_calls_keep_consistency(s: StorageView, call: Call)
    requires
        s.consistent(),
        s.step_fits(call),
    ensures
        s.step(call).1.consistent(),
{
    let t = s.step(call).1;
    assert(t.configs.dom() =~= t.states.dom());
    assert(t.prices.dom().subset_of(t.configs.dom()));
    assert forall|asset: Seq<u8>| #[trigger] t.configs.contains_key(asset) implies
        t.feed_consistent(asset) by {
        if s.configs.contains_key(asset) {
            assert(s.feed_consistent(asset));
        }
        if let Call::Submit { now, caller, input } = call {
            if let Ok(update) = s.admitted(now, caller, input) {
                if !s.deviates(update.asset, update.price) && asset == update.asset {
                    lemma_accepted_consistent(s, now, caller, input, update);
                }
            }
        }
    }
}

impl StorageView {
    /// The values stored after some calls, one after the other.
    pub open spec fn run(self, calls: Seq<Call>) -> StorageView
        decreases calls.len(),
    {
        if calls.len() == 0 {
            self
        } else {
            self.run(calls.drop_last()).step(calls.last()).1
        }
    }

    /// Whether each of some calls, one after the other, stays within the machine's numbers.
    pub open spec fn run_fits(self, calls: Seq<Call>) -> bool
        decreases calls.len(),
    {
        calls.len() > 0 ==> {
            &&& self.run_fits(calls.drop_last())
            &&& self.run(calls.drop_last()).step_fits(calls.last())
        }
    }
}

/// Any calls, one after the other, keep what is stored consistent.
pub proof fn law_runs_keep_consistency(s: StorageView, calls: Seq<Call>)
    requires
        s.consistent(),
        s.run_fits(calls),
    ensures
        s.run(calls).consistent(),
    decreases calls.len(),
{
    if calls.len() > 0 {
        law_runs_keep_consistency(s, calls.drop_last());
        law_calls_keep_consistency(s.run(calls.drop_last()), calls.last());
    }
}

/// Whatever calls are made, what is stored stays consistent from the beginning on.
pub proof fn law_every_run_is_consistent(calls: Seq<Call>)
    requires
        StorageView::empty().run_fits(calls),
    ensures
        StorageView::empty().run(calls).consistent(),
{
    law_empty_is_consistent();
    law_runs_keep_consistency(StorageView::empty(), calls);
}

/// A feed keeps at most as many snapshots as its window has, and never more than ten.
pub proof fn law_history_fits_window(s: StorageView, asset: Seq<u8>)
    requires
        s.consistent(),
        s.configs.contains_key(asset),
    ensures
        s.states.contains_key(asset),
        s.states[asset].history.len() <= s.configs[asset].twap_window <= 10,
{
    assert(s.feed_consistent(asset));
    assert(s.states.dom().contains(asset));
}

/// The last `n` items of a sequence, or all of them where it is shorter.
pub open spec fn latest<T>(items: Seq<T>, n: int) -> Seq<T> {
    if items.len() > n {
        items.skip(items.len() - n)
    } else {
        items
    }
}

/// The history holds the latest snapshots: if it held the latest ones of all that were accepted,
/// it does so after one more.
pub proof fn law_history_is_the_latest(
    all: Seq<PriceSnapshot>,
    snapshot: PriceSnapshot,
    window: u32,
)
    requires
        window >= 1,
    ensures
        rolled(latest(all, window as int), snapshot, window) == latest(
            all.push(snapshot),
            window as int,
        ),
{
    assert(rolled(latest(all, window as int), snapshot, window) =~= latest(
        all.push(snapshot),
        window as int,
    ));
}

impl StorageView {
    /// The snapshots of an asset that some calls, one after the other, bring in: those of the
    /// updates that are accepted.
    pub open spec fn collected(self, calls: Seq<Call>, asset: Seq<u8>) -> Seq<PriceSnapshot>
        decreases calls.len(),
    {
        if calls.len() == 0 {
            Seq::empty()
        } else {
            let rest = self.collected(calls.drop_last(), asset);
            match calls.last() {
                Call::Submit { now, caller, input } => {
                    let update = decoded(input)->0;
                    let answer = self.run(calls.drop_last()).submit_step(now, caller, input).0;
                    if answer is Ok && update.asset == asset {
                        rest.push(
                            PriceSnapshot {
                                price: update.price as i128,
                                timestamp: update.timestamp as u64,
                            },
                        )
                    } else {
                        rest
                    }
                },
                _ => rest,
            }
        }
    }
}

/// Whatever calls are made, the history that is read of a registered feed is the last snapshots of
/// all its accepted updates, oldest first, as many as its window has; of any other asset none is
/// read.
pub proof fn law_history_is_the_last_accepted(calls: Seq<Call>, asset: Seq<u8>)
    requires
        StorageView::empty().run_fits(calls),
    ensures
        ({
            let s = StorageView::empty().run(calls);
            let all = StorageView::empty().collected(calls, asset);
            if s.configs.contains_key(asset) {
                let window = s.configs[asset].twap_window as int;
                &&& s.states[asset].history == latest(all, window)
                &&& s.snapshots(asset) == Ok::<_, Error>(
                    if all.len() > window {
                        all.skip(all.len() - window)
                    } else {
                        all
                    },
                )
            } else {
                &&& all.len() == 0
                &&& s.snapshots(asset) == Err::<Seq<PriceSnapshot>, _>(Error::FeedNotRegistered)
            }
        }),
    decreases calls.len(),
{
    let s = StorageView::empty().run(calls);
    law_every_run_is_consistent(calls);
    assert(s.configs.dom().contains(asset) <==> s.states.dom().contains(asset));
    if calls.len() > 0 {
        let before = StorageView::empty().run(calls.drop_last());
        let all = StorageView::empty().collected(calls.drop_last(), asset);
        law_history_is_the_last_accepted(calls.drop_last(), asset);
        law_every_run_is_consistent(calls.drop_last());
        if before.configs.contains_key(asset) {
            assert(before.feed_consistent(asset));
        }
        if let Call::Submit { now, caller, input } = calls.last() {
            let update = decoded(input)->0;
            if before.submit_step(now, caller, input).0 is Ok && update.asset == asset {
                let snapshot = PriceSnapshot {
                    price: update.price as i128,
                    timestamp: update.timestamp as u64,
                };
                law_history_is_the_latest(all, snapshot, before.configs[asset].twap_window);
            }
        }
    }
}

/// An accepted price is what is read afterwards, as long as it is not stale.
pub proof fn law_accepted_price_is_read(
    s: StorageView,
    now: u64,
    caller: Seq<u8>,
    input: Seq<u8>,
    later: u64,
)
    requires
        s.submit_fits(now, caller, input),
        s.submit_step(now, caller, input).0 is Ok,
    ensures
        ({
            let t = s.submit_step(now, caller, input).1;
            let update = decoded(input)->0;
            let asset = update.asset;
            let entry = entry_of(now, caller, update);
            &&& decoded(input) is Some
            &&& entry.price == update.price
            &&& entry.timestamp == update.timestamp
            &&& entry.normalized == normalized(update.price, update.decimals)
            &&& t.price(later, asset) == (if later - update.timestamp <= s.configs[asset].max_staleness {
                Ok::<_, Error>(entry)
            } else {
                Err(Error::StalePriceFeed)
            })
            &&& t.price(now, asset) == Ok::<_, Error>(entry)
        }),
{
}

/// Whether a call submits an update of an asset.
pub open spec fn submits_to(call: Call, asset: Seq<u8>) -> bool {
    call is Submit && subject(call) == Some(asset)
}

/// An accepted price, with all that is stored of it, is what is read after any further calls that
/// do not submit an update of the same asset, as long as it is not stale.
pub proof fn law_accepted_price_stays_readable(
    s: StorageView,
    now: u64,
    caller: Seq<u8>,
    input: Seq<u8>,
    calls: Seq<Call>,
    later: u64,
)
    requires
        s.submit_fits(now, caller, input),
        s.submit_step(now, caller, input).0 is Ok,
        forall|i: int|
            0 <= i < calls.len() ==> !submits_to(
                #[trigger] calls[i],
                (decoded(input)->0).asset,
            ),
    ensures
        ({
            let t = s.submit_step(now, caller, input).1.run(calls);
            let update = decoded(input)->0;
            let asset = update.asset;
            let entry = entry_of(now, caller, update);
            &&& entry.price == update.price
            &&& entry.timestamp == update.timestamp
            &&& entry.normalized == normalized(update.price, update.decimals)
            &&& t.price(later, asset) == (if later - update.timestamp <= s.configs[asset].max_staleness {
                Ok::<_, Error>(entry)
            } else {
                Err(Error::StalePriceFeed)
            })
        }),
{
    let asset = (decoded(input)->0).asset;
    let t = s.submit_step(now, caller, input).1;
    lemma_price_untouched(t, calls, asset);
}

/// Calls that do not submit an update of an asset keep its price and its staleness rule, and do
/// not trip its circuit breaker.
proof fn lemma_price_untouched(s: StorageView, calls: Seq<Call>, asset: Seq<u8>)
    requires
        s.configs.contains_key(asset),
        s.states.contains_key(asset),
        s.prices.contains_key(asset),
        !s.broken(asset),
        forall|i: int| 0 <= i < calls.len() ==> !submits_to(#[trigger] calls[i], asset),
    ensures
        ({
            let t = s.run(calls);
            &&& t.configs.contains_key(asset)
            &&& t.configs[asset].max_staleness == s.configs[asset].max_staleness
            &&& t.states.contains_key(asset)
            &&& !t.broken(asset)
            &&& t.prices.contains_key(asset)
            &&& t.prices[asset] == s.prices[asset]
        }),
    decreases calls.len(),
{
    if calls.len() > 0 {
        let rest = calls.drop_last();
        assert forall|i: int| 0 <= i < rest.len() implies !submits_to(#[trigger] rest[i], asset) by {
            assert(rest[i] == calls[i]);
        }
        lemma_price_untouched(s, rest, asset);
        assert(!submits_to(calls[calls.len() - 1], asset));
    }
}

/// Once a feed is registered, no calls change its rules, but for whether it takes updates.
pub proof fn law_rules_are_kept(s: StorageView, calls: Seq<Call>, asset: Seq<u8>)
    requires
        s.configs.contains_key(asset),
    ensures
        ({
            let (before, after) = (s.configs[asset], s.run(calls).configs[asset]);
            &&& s.run(calls).configs.contains_key(asset)
            &&& after.max_staleness == before.max_staleness
            &&& after.min_price == before.min_price
            &&& after.max_price == before.max_price
            &&& after.max_deviation_bps == before.max_deviation_bps
            &&& after.twap_window == before.twap_window
        }),
    decreases calls.len(),
{
    if calls.len() > 0 {
        law_rules_are_kept(s, calls.drop_last(), asset);
    }
}

/// An accepted price is served at every later time at which it is no older than the age that its
/// feed was registered with, and only at those, whatever is called between the registration and
/// the update, and whatever but an update of the same asset after it.
pub proof fn law_registered_age_rules_reading(
    s: StorageView,
    admin: Seq<u8>,
    asset: Seq<u8>,
    max_staleness: u64,
    min_price: i128,
    max_price: i128,
    max_deviation_bps: u32,
    twap_window: u32,
    between: Seq<Call>,
    now: u64,
    caller: Seq<u8>,
    input: Seq<u8>,
    after: Seq<Call>,
    later: u64,
)
    requires
        ({
            let config = new_config(
                max_staleness,
                min_price,
                max_price,
                max_deviation_bps,
                twap_window,
            );
            let (answer, t) = s.register_feed_step(admin, asset, config);
            let u = t.run(between);
            &&& answer is Ok
            &&& u.submit_fits(now, caller, input)
            &&& u.submit_step(now, caller, input).0 is Ok
        }),
        decoded(input) is Some && (decoded(input)->0).asset == asset,
        forall|i: int| 0 <= i < after.len() ==> !submits_to(#[trigger] after[i], asset),
    ensures
        ({
            let config = new_config(
                max_staleness,
                min_price,
                max_price,
                max_deviation_bps,
                twap_window,
            );
            let u = s.register_feed_step(admin, asset, config).1.run(between);
            let read = u.submit_step(now, caller, input).1.run(after).price(later, asset);
            let update = decoded(input)->0;
            &&& read is Ok <==> later - update.timestamp <= max_staleness
            &&& read matches Ok(entry) ==> {
                &&& entry.price == update.price
                &&& entry.timestamp == update.timestamp
                &&& entry.updated_at == now
                &&& entry.updater == caller
            }
            &&& read matches Err(error) ==> error == Error::StalePriceFeed
        }),
{
    let config = new_config(max_staleness, min_price, max_price, max_deviation_bps, twap_window);
    let t = s.register_feed_step(admin, asset, config).1;
    law_rules_are_kept(t, between, asset);
    law_accepted_price_stays_readable(t.run(between), now, caller, input, after, later);
}

/// An update of a feed that passes every other check trips the circuit breaker exactly where ten
/// thousand times its distance from the price accepted last is more than the threshold times that
/// price, up or down; else it is accepted.
pub proof fn law_breaker_trips_beyond_threshold(
    s: StorageView,
    now: u64,
    caller: Seq<u8>,
    input: Seq<u8>,
)
    requires
        s.admitted(now, caller, input) is Ok,
        s.states[(decoded(input)->0).asset].last_price > 0,
    ensures
        ({
            let update = decoded(input)->0;
            let last = s.states[update.asset].last_price;
            let max = s.configs[update.asset].max_deviation_bps;
            let (answer, t) = s.submit_step(now, caller, input);
            &&& answer is Ok <==> 10_000 * (update.price - last) <= max * last && 10_000 * (last
                - update.price) <= max * last
            &&& answer is Ok ==> !t.broken(update.asset)
            &&& answer matches Err(error) ==> error == Error::CircuitBreakerTripped && t.broken(
                update.asset,
            )
        }),
{
}

impl StorageView {
    /// What is stored of the last update of an asset that some calls, one after the other, bring
    /// in.
    pub open spec fn last_accepted(self, calls: Seq<Call>, asset: Seq<u8>) -> Option<PriceEntryView>
        decreases calls.len(),
    {
        if calls.len() == 0 {
            None
        } else {
            let rest = self.last_accepted(calls.drop_last(), asset);
            match calls.last() {
                Call::Submit { now, caller, input } => {
                    let update = decoded(input)->0;
                    let answer = self.run(calls.drop_last()).submit_step(now, caller, input).0;
                    if answer is Ok && update.asset == asset {
                        Some(entry_of(now, caller, update))
                    } else {
                        rest
                    }
                },
                _ => rest,
            }
        }
    }
}

/// Whatever calls are made, the price of a registered feed is the last update of it that was
/// accepted, with all that is stored of it, unless the feed is circuit broken or the price is
/// stale.
pub proof fn law_price_is_the_last_accepted(calls: Seq<Call>, asset: Seq<u8>, now: u64)
    requires
        StorageView::empty().run_fits(calls),
    ensures
        ({
            let s = StorageView::empty().run(calls);
            s.price(now, asset) == (if !s.configs.contains_key(asset) {
                Err::<_, Error>(Error::FeedNotRegistered)
            } else if s.broken(asset) {
                Err(Error::CircuitBreakerTripped)
            } else {
                match StorageView::empty().last_accepted(calls, asset) {
                    None => Err(Error::AssetNotFound),
                    Some(entry) => if now - entry.timestamp <= s.configs[asset].max_staleness {
                        Ok(entry)
                    } else {
                        Err(Error::StalePriceFeed)
                    },
                }
            })
        }),
{
    let s = StorageView::empty().run(calls);
    law_every_run_is_consistent(calls);
    assert(s.configs.dom().contains(asset) <==> s.states.dom().contains(asset));
    lemma_stored_is_last_accepted(calls, asset);
}

/// What is stored of an asset's price is the last update of it that was accepted.
proof fn lemma_stored_is_last_accepted(calls: Seq<Call>, asset: Seq<u8>)
    ensures
        ({
            let s = StorageView::empty().run(calls);
            match StorageView::empty().last_accepted(calls, asset) {
                None => !s.prices.contains_key(asset),
                Some(entry) => s.prices.contains_key(asset) && s.prices[asset] == entry,
            }
        }),
    decreases calls.len(),
{
    if calls.len() > 0 {
        lemma_stored_is_last_accepted(calls.drop_last(), asset);
    }
}

/// An accepted price is the latest snapshot of its feed's history, behind the older ones that the
/// window leaves.
pub proof fn law_accepted_price_enters_history(
    s: StorageView,
    now: u64,
    caller: Seq<u8>,
    input: Seq<u8>,
)
    requires
        s.consistent(),
        s.submit_fits(now, caller, input),
        s.submit_step(now, caller, input).0 is Ok,
    ensures
        ({
            let t = s.submit_step(now, caller, input).1;
            let update = decoded(input)->0;
            let window = s.configs[update.asset].twap_window as int;
            let snapshot = PriceSnapshot {
                price: update.price as i128,
                timestamp: update.timestamp as u64,
            };
            &&& t.states[update.asset].history == latest(
                s.states[update.asset].history.push(snapshot),
                window,
            )
            &&& t.states[update.asset].history.last() == snapshot
        }),
{
    let update = decoded(input)->0;
    let window = s.configs[update.asset].twap_window;
    let history = s.states[update.asset].history;
    let snapshot = PriceSnapshot { price: update.price as i128, timestamp: update.timestamp as u64 };
    assert(s.configs.contains_key(update.asset));
    assert(s.feed_consistent(update.asset));
    assert(latest(history, window as int) == history);
    law_history_is_the_latest(history, snapshot, window);
}

/// A price that is served is never older than its feed allows, keeps the feed's bounds, and comes
/// from a feed that is not circuit broken.
pub proof fn law_served_price_is_fresh(s: StorageView, now: u64, asset: Seq<u8>)
    requires
        s.consistent(),
        s.price(now, asset) is Ok,
    ensures
        now - (s.price(now, asset)->Ok_0).timestamp <= s.configs[asset].max_staleness,
        bounded(s.configs[asset], (s.price(now, asset)->Ok_0).price as int),
        !s.broken(asset),
{
    assert(s.feed_consistent(asset));
    assert(bounded(s.configs[asset], s.states[asset].history.last().price as int));
}

/// A price that has become stale stays stale while only time passes.
pub proof fn law_stale_stays_stale(s: StorageView, now: u64, later: u64, asset: Seq<u8>)
    requires
        now <= later,
        s.price(now, asset) == Err::<PriceEntryView, _>(Error::StalePriceFeed),
    ensures
        s.price(later, asset) == Err::<PriceEntryView, _>(Error::StalePriceFeed),
{
}

/// An update that is stale when it is submitted is not accepted and changes nothing.
pub proof fn law_stale_update_is_refused(
    s: StorageView,
    now: u64,
    caller: Seq<u8>,
    input: Seq<u8>,
)
    requires
        decoded(input) is Some,
        s.configs.contains_key((decoded(input)->0).asset),
        now - (decoded(input)->0).timestamp > s.configs[(decoded(input)->0).asset].max_staleness,
    ensures
        s.submit_step(now, caller, input).0 is Err,
        s.submit_step(now, caller, input).1 == s,
        s.screened(caller, input) is Ok ==> s.submit_step(now, caller, input).0 == Err::<(), _>(
            Error::StalePriceFeed,
        ),
{
}

/// A tripped circuit breaker stays tripped, whatever is called, until the admin resets it.
pub proof fn law_breaker_is_one_way(s: StorageView, call: Call, asset: Seq<u8>)
    requires
        s.consistent(),
        s.broken(asset),
    ensures
        s.step(call).1.broken(asset) || (call matches Call::ResetCircuitBreaker {
            caller,
            asset: reset,
        } && reset == asset && s.may_manage(caller)),
{
    assert(s.configs.dom().contains(asset));
}

impl StorageView {
    /// Whether one of some calls, one after the other, resets the circuit breaker of an asset.
    pub open spec fn resets(self, calls: Seq<Call>, asset: Seq<u8>) -> bool
        decreases calls.len(),
    {
        calls.len() > 0 && {
            ||| self.resets(calls.drop_last(), asset)
            ||| calls.last() matches Call::ResetCircuitBreaker { caller, asset: reset } && reset
                == asset && self.run(calls.drop_last()).may_manage(caller)
        }
    }
}

/// A tripped circuit breaker stays tripped through any calls among which the admin does not reset
/// it.
pub proof fn law_breaker_stays_tripped(s: StorageView, calls: Seq<Call>, asset: Seq<u8>)
    requires
        s.consistent(),
        s.run_fits(calls),
        s.broken(asset),
        !s.resets(calls, asset),
    ensures
        s.run(calls).broken(asset),
    decreases calls.len(),
{
    if calls.len() > 0 {
        law_breaker_stays_tripped(s, calls.drop_last(), asset);
        law_runs_keep_consistency(s, calls.drop_last());
        law_breaker_is_one_way(s.run(calls.drop_last()), calls.last(), asset);
    }
}

/// While the circuit breaker of a feed is tripped, no update of it is accepted, nothing changes on
/// submission, and no price of it is served.
pub proof fn law_broken_feed_is_halted(
    s: StorageView,
    now: u64,
    caller: Seq<u8>,
    input: Seq<u8>,
    asset: Seq<u8>,
)
    requires
        s.broken(asset),
    ensures
        s.price(now, asset) == Err::<PriceEntryView, _>(Error::CircuitBreakerTripped),
        decoded(input) is Some && (decoded(input)->0).asset == asset ==> {
            &&& s.submit_step(now, caller, input).0 is Err
            &&& s.submit_step(now, caller, input).1 == s
        },
{
}

/// An update that deviates too far trips the circuit breaker of its feed and changes nothing else;
/// once the admin has reset it, all is as it was before the update.
pub proof fn law_reset_undoes_trip(
    s: StorageView,
    now: u64,
    caller: Seq<u8>,
    input: Seq<u8>,
    admin: Seq<u8>,
)
    requires
        s.may_manage(admin),
        s.admitted(now, caller, input) is Ok,
        s.deviates(
            (s.admitted(now, caller, input)->Ok_0).asset,
            (s.admitted(now, caller, input)->Ok_0).price,
        ),
    ensures
        ({
            let asset = (s.admitted(now, caller, input)->Ok_0).asset;
            let (answer, tripped) = s.submit_step(now, caller, input);
            &&& answer == Err::<(), _>(Error::CircuitBreakerTripped)
            &&& tripped.broken(asset)
            &&& tripped.reset_circuit_breaker_step(admin, asset) == (Ok::<(), Error>(()), s)
        }),
{
    let asset = (s.admitted(now, caller, input)->Ok_0).asset;
    let tripped = s.submit_step(now, caller, input).1;
    let reset = tripped.reset_circuit_breaker_step(admin, asset).1;
    assert(reset.states[asset] == s.states[asset]);
    assert(reset.states =~= s.states);
}

/// Resetting the circuit breaker of a feed resumes it and keeps its history.
pub proof fn law_reset_resumes_feed(s: StorageView, admin: Seq<u8>, asset: Seq<u8>)
    requires
        s.may_manage(admin),
        s.states.contains_key(asset),
    ensures
        ({
            let (answer, t) = s.reset_circuit_breaker_step(admin, asset);
            &&& answer is Ok
            &&& !t.broken(asset)
            &&& t.snapshots(asset) == s.snapshots(asset)
            &&& t.states[asset].last_price == s.states[asset].last_price
        }),
{
}

/// Accepted prices that follow each other in a history are within the feed's distance.
pub proof fn law_neighbours_are_close(s: StorageView, asset: Seq<u8>, i: int)
    requires
        s.consistent(),
        s.configs.contains_key(asset),
        0 <= i,
        i + 1 < s.states[asset].history.len(),
    ensures
        close(
            s.configs[asset],
            s.states[asset].history[i].price,
            s.states[asset].history[i + 1].price,
        ),
{
    assert(s.feed_consistent(asset));
}

/// Who makes a call that only the admin may make.
pub open spec fn manager(call: Call) -> Option<Seq<u8>> {
    match call {
        Call::Initialize { .. } => None,
        Call::Submit { .. } => None,
        Call::RegisterFeed { caller, .. } => Some(caller),
        Call::SetUpdater { caller, .. } => Some(caller),
        Call::SetFeedActive { caller, .. } => Some(caller),
        Call::ResetCircuitBreaker { caller, .. } => Some(caller),
    }
}

/// Without the admin's rights, no admin call is answered or changes anything.
pub proof fn law_only_admin_manages(s: StorageView, call: Call, caller: Seq<u8>)
    requires
        !s.may_manage(caller),
        manager(call) == Some(caller),
    ensures
        s.step(call) == (Err::<(), _>(Error::Unauthorized), s),
{
}

/// Without the right to submit, a submission is refused and changes nothing.
pub proof fn law_only_updaters_submit(s: StorageView, now: u64, caller: Seq<u8>, input: Seq<u8>)
    requires
        !s.may_submit(caller),
    ensures
        s.submit_step(now, caller, input) == (Err::<(), _>(Error::Unauthorized), s),
{
}

/// The admin's last word on an updater holds: granted, it may submit; revoked, it may not. Nobody
/// else's right changes.
pub proof fn law_updater_is_as_set(
    s: StorageView,
    admin: Seq<u8>,
    updater: Seq<u8>,
    allowed: bool,
    other: Seq<u8>,
)
    requires
        s.may_manage(admin),
    ensures
        ({
            let (answer, t) = s.set_updater_step(admin, updater, allowed);
            &&& answer is Ok
            &&& t.may_submit(updater) == allowed
            &&& other != updater ==> t.may_submit(other) == s.may_submit(other)
        }),
{
}

impl StorageView {
    /// What the last of some calls that set the right of `who` to submit made of it; none where
    /// there was no such call.
    pub open spec fn last_grant(self, calls: Seq<Call>, who: Seq<u8>) -> bool
        decreases calls.len(),
    {
        if calls.len() == 0 {
            false
        } else {
            let rest = self.last_grant(calls.drop_last(), who);
            match calls.last() {
                Call::SetUpdater { caller, updater, allowed } => {
                    let before = self.run(calls.drop_last());
                    if updater == who && before.set_updater_step(caller, updater, allowed).0 is Ok {
                        allowed
                    } else {
                        rest
                    }
                },
                _ => rest,
            }
        }
    }
}

/// Whatever calls are made, the right of an address to submit is what the last successful
/// `set_updater` for it said, and none where there was none. Without it a submission is refused as
/// unauthorized, and with it never; being the admin makes no difference.
pub proof fn law_updater_is_as_last_set(
    calls: Seq<Call>,
    who: Seq<u8>,
    now: u64,
    input: Seq<u8>,
)
    ensures
        ({
            let s = StorageView::empty().run(calls);
            let allowed = StorageView::empty().last_grant(calls, who);
            &&& s.may_submit(who) == allowed
            &&& s.submit_step(now, who, input).0 == Err::<(), _>(Error::Unauthorized) <==> !allowed
            &&& !allowed ==> s.submit_step(now, who, input).1 == s
        }),
    decreases calls.len(),
{
    if calls.len() > 0 {
        law_updater_is_as_last_set(calls.drop_last(), who, now, input);
    }
}

/// The admin that the last `Initialize` of some calls named.
pub open spec fn last_admin(calls: Seq<Call>) -> Option<Seq<u8>>
    decreases calls.len(),
{
    if calls.len() == 0 {
        None
    } else {
        match calls.last() {
            Call::Initialize { admin } => Some(admin),
            _ => last_admin(calls.drop_last()),
        }
    }
}

/// Whatever calls are made, the admin is the address that the last `initialize` named. A call that
/// only the admin may make is refused as unauthorized for everybody else, and for the admin never;
/// being an updater makes no difference.
pub proof fn law_admin_is_as_last_initialized(calls: Seq<Call>, call: Call)
    ensures
        ({
            let s = StorageView::empty().run(calls);
            &&& s.admin == last_admin(calls)
            &&& manager(call) matches Some(caller) ==> {
                &&& s.step(call).0 == Err::<(), _>(Error::Unauthorized) <==> last_admin(calls)
                    != Some(caller)
                &&& last_admin(calls) != Some(caller) ==> s.step(call).1 == s
            }
        }),
    decreases calls.len(),
{
    if calls.len() > 0 {
        law_admin_is_as_last_initialized(calls.drop_last(), call);
    }
}

/// A refused call changes nothing, but for an update that trips its feed's circuit breaker.
pub proof fn law_refused_call_changes_nothing(s: StorageView, call: Call)
    requires
        s.step(call).0 is Err,
    ensures
        s.step(call).1 == s || (call matches Call::Submit { now, caller, input } && {
            &&& s.step(call).0 == Err::<(), _>(Error::CircuitBreakerTripped)
            &&& s.step(call).1 == s.with_breaker((decoded(input)->0).asset, true)
        }),
{
}

/// The asset that a call is about.
pub open spec fn subject(call: Call) -> Option<Seq<u8>> {
    match call {
        Call::Initialize { .. } => None,
        Call::SetUpdater { .. } => None,
        Call::RegisterFeed { asset, .. } => Some(asset),
        Call::SetFeedActive { asset, .. } => Some(asset),
        Call::ResetCircuitBreaker { asset, .. } => Some(asset),
        Call::Submit { input, .. } => match decoded(input) {
            Some(update) => Some(update.asset),
            None => None,
        },
    }
}

/// A call leaves every asset alone that it is not about: its rules, its history, its circuit
/// breaker and its price, at any time.
pub proof fn law_feeds_are_independent(s: StorageView, call: Call, asset: Seq<u8>, now: u64)
    requires
        subject(call) != Some(asset),
    ensures
        s.step(call).1.config(asset) == s.config(asset),
        s.step(call).1.snapshots(asset) == s.snapshots(asset),
        s.step(call).1.broken(asset) == s.broken(asset),
        s.step(call).1.price(now, asset) == s.price(now, asset),
        s.step(call).1.average(asset) == s.average(asset),
{
}

/// A feed can be registered once. It starts active, with no price and an untripped breaker.
pub proof fn law_registered_feed_is_fresh_start(
    s: StorageView,
    admin: Seq<u8>,
    asset: Seq<u8>,
    config: FeedConfig,
    other: FeedConfig,
    now: u64,
)
    requires
        s.consistent(),
        s.may_manage(admin),
        !s.configs.contains_key(asset),
    ensures
        ({
            let (answer, t) = s.register_feed_step(admin, asset, config);
            &&& answer is Ok
            &&& t.config(asset) == Ok::<_, Error>(config)
            &&& !t.broken(asset)
            &&& t.snapshots(asset) == Ok::<_, Error>(Seq::<PriceSnapshot>::empty())
            &&& t.price(now, asset) == Err::<PriceEntryView, _>(Error::AssetNotFound)
            &&& t.average(asset) == Err::<int, _>(Error::InsufficientHistory)
            &&& t.register_feed_step(admin, asset, other) == (Err::<(), _>(
                Error::FeedAlreadyExists,
            ), t)
        }),
{
    assert(!s.prices.dom().contains(asset));
}

/// The window that is granted is the one that was asked for, brought within 1 and 10.
pub proof fn law_window_is_clamped(requested: u32)
    ensures
        requested < 1 ==> granted_window(requested) == 1,
        1 <= requested <= 10 ==> granted_window(requested) == requested,
        requested > 10 ==> granted_window(requested) == 10,
{
}

/// A paused feed accepts no update and keeps its rules, history and price; resuming it puts
/// everything back.
pub proof fn law_pausing_is_undone_by_resuming(
    s: StorageView,
    admin: Seq<u8>,
    asset: Seq<u8>,
    now: u64,
    caller: Seq<u8>,
    input: Seq<u8>,
)
    requires
        s.may_manage(admin),
        s.configs.contains_key(asset),
        s.configs[asset].active,
    ensures
        ({
            let (answer, paused) = s.set_feed_active_step(admin, asset, false);
            &&& answer is Ok
            &&& paused.price(now, asset) == s.price(now, asset)
            &&& paused.average(asset) == s.average(asset)
            &&& paused.snapshots(asset) == s.snapshots(asset)
            &&& paused.set_feed_active_step(admin, asset, true) == (Ok::<(), Error>(()), s)
            &&& paused.may_submit(caller) && decoded(input) is Some && (decoded(input)->0).asset
                == asset ==> paused.submit_step(now, caller, input) == (Err::<(), _>(
                Error::FeedNotRegistered,
            ), paused)
        }),
{
    let paused = s.set_feed_active_step(admin, asset, false).1;
    let resumed = paused.set_feed_active_step(admin, asset, true).1;
    assert(resumed.configs[asset] == s.configs[asset]);
    assert(resumed.configs =~= s.configs);
}

/// The ABI encoding of a price is served exactly where the price is, and refused as the price is.
pub proof fn law_price_abi_follows_price(s: StorageView, now: u64, asset: Seq<u8>)
    ensures
        s.price_abi(now, asset) is Ok <==> s.price(now, asset) is Ok,
        s.price(now, asset) matches Err(error) ==> s.price_abi(now, asset) == Err::<Seq<u8>, _>(
            error,
        ),
{
}

/// From the ABI encoding of a price, everything that is served of it can be read back: the entry,
/// the time of the query, and the average, in place of which the price stands where there is none.
pub proof fn law_price_abi_reads_back(s: StorageView, now: u64, asset: Seq<u8>)
    requires
        s.consistent(),
        s.price_abi(now, asset) is Ok,
    ensures
        s.price(now, asset) is Ok,
        ({
            let data = s.price_abi(now, asset)->Ok_0;
            let entry = s.price(now, asset)->Ok_0;
            &&& data.len() == 224
            &&& data.subrange(0, 32) == asset
            &&& signed_value(data.subrange(32, 64)) == entry.price
            &&& be_value(data.subrange(64, 96)) == entry.timestamp
            &&& be_value(data.subrange(96, 128)) == entry.decimals
            &&& be_value(data.subrange(128, 160)) == now
            &&& signed_value(data.subrange(160, 192)) == (match s.average(asset) {
                Ok(average) => average,
                Err(_) => entry.price as int,
            })
            &&& signed_value(data.subrange(192, 224)) == entry.normalized
        }),
{
    let entry = s.price(now, asset)->Ok_0;
    assert(s.feed_consistent(asset));
    assert(padded(asset) =~= asset);
    if s.average(asset) is Ok {
        law_average_keeps_bounds(s, asset);
    }
    let average = match s.average(asset) {
        Ok(average) => average,
        Err(_) => entry.price as int,
    };
    law_output_reads_back(
        asset,
        entry.price,
        entry.timestamp,
        entry.decimals as u8,
        now,
        average as i128,
        entry.normalized,
    );
}

/// The average of a feed keeps the feed's bounds.
pub proof fn law_average_keeps_bounds(s: StorageView, asset: Seq<u8>)
    requires
        s.consistent(),
        s.average(asset) is Ok,
    ensures
        bounded(s.configs[asset], s.average(asset)->Ok_0),
{
    let config = s.configs[asset];
    let history = s.states[asset].history;
    assert(s.feed_consistent(asset));
    let low: int = if config.min_price > 0 {
        config.min_price as int
    } else {
        1
    };
    let high: int = if config.max_price > 0 {
        config.max_price as int
    } else {
        i128::MAX as int
    };
    assert forall|i: int| 0 <= i < history.len() implies low <= (#[trigger] history[i]).price
        <= high by {
        assert(bounded(config, history[i].price as int));
    }
    law_twap_between_prices(history, low, high);
}

/// The average of a feed whose prices are below 2^63 and whose timestamps do not go back can
/// always be computed.
pub proof fn law_ordered_feed_has_average(s: StorageView, asset: Seq<u8>)
    requires
        s.consistent(),
        s.states.contains_key(asset) ==> {
            let history = s.states[asset].history;
            &&& forall|i: int| 0 <= i < history.len() ==> (#[trigger] history[i]).price <= i64::MAX
            &&& forall|i: int, j: int|
                0 <= i <= j < history.len() ==> (#[trigger] history[i]).timestamp <= (
                #[trigger] history[j]).timestamp
        },
    ensures
        s.average_fits(asset),
{
    if s.has_average(asset) {
        let history = s.states[asset].history;
        assert(s.feed_consistent(asset));
        assert forall|i: int| 0 <= i < history.len() implies 0 <= (#[trigger] history[i]).price
            <= i64::MAX by {
            assert(bounded(s.configs[asset], history[i].price as int));
        }
        law_ordered_history_is_averageable(history);
    }
}

/// No two errors share a number.
pub proof fn law_error_numbers_are_distinct(a: Error, b: Error)
    requires
        a.number() == b.number(),
    ensures
        a == b,
{
}

} // verus!
