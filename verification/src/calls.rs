//! What each call answers and changes, in plain numbers and stored values.
//!
//! Every law here starts from the contract of the call itself.

use vstd::arithmetic::power::{lemma_pow_positive, pow};
use vstd::prelude::*;

use crate::abi::{be_value, law_output_reads_back, signed_value};
use crate::arith::{
    checked_twap, laid_out, law_average_divides_sums, law_average_fits, law_normalization_fits,
    law_normalization_truncates, magnitude, total,
};
use crate::bridge::PriceBridge;
use crate::error::Error;
use crate::history::{History, PriceSnapshot};
use crate::rules::padded;
use crate::storage::{
    Address, DefiState, Env, FeedConfig, PriceEntry, Storage, StorageKey,
    StorageView,
};

verus! {

/// Whether an answer is the given refusal.
pub open spec fn refused<T>(result: Result<T, Error>, with: Error) -> bool {
    result matches Err(error) && error == with
}

/// What is said of stored values is said of the fields that hold them.
pub proof fn law_views_show_fields(e: Env, entry: PriceEntry, state: DefiState, config: FeedConfig)
    ensures
        e@.now == e.timestamp,
        forall|who: Seq<u8>| #[trigger]
            e@.signers.contains(who) <==> exists|i: int|
                0 <= i < e.signers@.len() && (#[trigger] e.signers@[i]).text@ == who,
        e.storage.admin is None <==> e@.storage.admin is None,
        e.storage.admin matches Some(admin) ==> e@.storage.admin == Some(admin.text@),
        e@.storage.prices == e.storage.prices@,
        e@.storage.configs == e.storage.configs@,
        e@.storage.states == e.storage.states@,
        e@.storage.updaters == e.storage.updaters@,
        entry@.asset == entry.asset@,
        entry@.price == entry.price,
        entry@.timestamp == entry.timestamp,
        entry@.decimals == entry.decimals,
        entry@.updated_at == entry.updated_at,
        entry@.updater == entry.updater.text@,
        entry@.normalized == entry.normalized,
        state@.circuit_broken == state.circuit_broken,
        state@.last_price == state.last_price,
        state@.history == state.history@,
        config@ == config,
{
}

/// A new environment holds nothing but its time, and an authorization adds one signer.
pub proof fn law_environment(
    host: soroban_sdk::Env,
    timestamp: u64,
    fresh: Env,
    e: &mut Env,
    who: Address,
)
    requires
        call_ensures(Env::new, (host, timestamp), fresh),
        call_ensures(Env::authorize, (e, who), ()),
    ensures
        fresh@.now == timestamp,
        forall|w: Seq<u8>| !fresh@.signers.contains(w),
        fresh@.storage.admin is None,
        forall|k: Seq<u8>| !fresh@.storage.prices.contains_key(k),
        forall|k: Seq<u8>| !fresh@.storage.configs.contains_key(k),
        forall|k: Seq<u8>| !fresh@.storage.states.contains_key(k),
        forall|k: Seq<u8>| !fresh@.storage.updaters.contains_key(k),
        forall|w: Seq<u8>| #[trigger]
            final(e)@.signers.contains(w) <==> old(e)@.signers.contains(w) || w == who@,
        final(e)@.now == old(e)@.now,
        final(e)@.storage == old(e)@.storage,
{
}

/// Two addresses are the same where their texts are; copies hold what they are copies of.
pub proof fn law_copies_are_the_same(
    a: &Address,
    b: &Address,
    same: bool,
    copy: Address,
    entry: &PriceEntry,
    other: PriceEntry,
)
    requires
        call_ensures(Address::same, (a, b), same),
        call_ensures(<Address as Clone>::clone, (a,), copy),
        call_ensures(<PriceEntry as Clone>::clone, (entry,), other),
    ensures
        same <==> a.text@ == b.text@,
        copy.text@ == a.text@,
        other.asset@ == entry.asset@,
        other.price == entry.price,
        other.timestamp == entry.timestamp,
        other.decimals == entry.decimals,
        other.updated_at == entry.updated_at,
        other.updater.text@ == entry.updater.text@,
        other.normalized == entry.normalized,
{
}

/// A value is found under exactly the keys under which one is stored.
pub proof fn law_storage_has(storage: &Storage, key: &StorageKey, found: bool)
    requires
        call_ensures(Storage::has, (storage, key), found),
    ensures
        key is Admin ==> found == storage.admin is Some,
        *key matches StorageKey::Price(asset) ==> found == storage.prices@.contains_key(asset@),
        *key matches StorageKey::FeedConfig(asset) ==> found == storage.configs@.contains_key(
            asset@,
        ),
        *key matches StorageKey::DefiState(asset) ==> found == storage.states@.contains_key(asset@),
        *key matches StorageKey::Updater(who) ==> found == storage.updaters@.contains_key(
            who.text@,
        ),
{
}

/// Errors are reported under the numbers 1 to 10.
pub proof fn law_error_code(error: Error, code: u32)
    requires
        call_ensures(Error::code, (error,), code),
    ensures
        error is Unauthorized <==> code == 1,
        error is Decode <==> code == 2,
        error is StalePriceFeed <==> code == 3,
        error is AssetNotFound <==> code == 4,
        error is InvalidPrice <==> code == 5,
        error is InvalidDecimals <==> code == 6,
        error is FeedAlreadyExists <==> code == 7,
        error is FeedNotRegistered <==> code == 8,
        error is CircuitBreakerTripped <==> code == 9,
        error is InsufficientHistory <==> code == 10,
{
}

/// Whoever is made admin is the admin, and nothing else changes.
pub proof fn law_initialize(e: &mut Env, admin: Address, max_staleness: u64)
    requires
        call_ensures(PriceBridge::initialize, (e, admin, max_staleness), ()),
    ensures
        old(e)@.signers.contains(admin@) ==> call_requires(
            PriceBridge::initialize,
            (e, admin, max_staleness),
        ),
        final(e)@.storage.admin == Some(admin@),
        final(e)@.storage.prices == old(e)@.storage.prices,
        final(e)@.storage.configs == old(e)@.storage.configs,
        final(e)@.storage.states == old(e)@.storage.states,
        final(e)@.storage.updaters == old(e)@.storage.updaters,
        final(e)@.now == old(e)@.now,
        final(e)@.signers == old(e)@.signers,
{
}

/// A feed is registered for the admin alone and only once. It has the rules that were asked for,
/// with a window of at least one and at most ten, and starts active, unbroken and empty.
pub proof fn law_register_feed(
    e: &mut Env,
    caller: Address,
    asset: Vec<u8>,
    max_staleness: u64,
    min_price: i128,
    max_price: i128,
    max_deviation_bps: u32,
    twap_window: u32,
    result: Result<(), Error>,
)
    requires
        call_ensures(
            PriceBridge::register_feed,
            (
                e,
                caller,
                asset,
                max_staleness,
                min_price,
                max_price,
                max_deviation_bps,
                twap_window,
            ),
            result,
        ),
    ensures
        old(e)@.signers.contains(caller@) && old(e)@.storage.admin is Some ==> call_requires(
            PriceBridge::register_feed,
            (
                e,
                caller,
                asset,
                max_staleness,
                min_price,
                max_price,
                max_deviation_bps,
                twap_window,
            ),
        ),
        ({
            let (s, t) = (old(e)@.storage, final(e)@.storage);
            let config = t.configs[asset@];
            let state = t.states[asset@];
            &&& refused(result, Error::Unauthorized) <==> s.admin != Some(caller@)
            &&& refused(result, Error::FeedAlreadyExists) <==> s.admin == Some(caller@)
                && s.configs.contains_key(asset@)
            &&& result is Ok <==> s.admin == Some(caller@) && !s.configs.contains_key(asset@)
            &&& result is Err ==> t == s
            &&& result is Ok ==> {
                &&& config.max_staleness == max_staleness
                &&& config.min_price == min_price
                &&& config.max_price == max_price
                &&& config.active
                &&& config.max_deviation_bps == max_deviation_bps
                &&& 1 <= config.twap_window <= 10
                &&& 1 <= twap_window <= 10 ==> config.twap_window == twap_window
                &&& twap_window > 10 ==> config.twap_window == 10
                &&& twap_window < 1 ==> config.twap_window == 1
                &&& !state.circuit_broken
                &&& state.last_price == 0
                &&& state.history.len() == 0
                &&& t.configs == s.configs.insert(asset@, config)
                &&& t.states == s.states.insert(asset@, state)
                &&& t.admin == s.admin
                &&& t.prices == s.prices
                &&& t.updaters == s.updaters
            }
        }),
        final(e)@.now == old(e)@.now,
        final(e)@.signers == old(e)@.signers,
{
}

/// The right to submit is set as asked, for the admin alone, and nothing else changes.
pub proof fn law_set_updater(
    e: &mut Env,
    caller: Address,
    updater: Address,
    allowed: bool,
    result: Result<(), Error>,
)
    requires
        call_ensures(PriceBridge::set_updater, (e, caller, updater, allowed), result),
    ensures
        old(e)@.signers.contains(caller@) && old(e)@.storage.admin is Some ==> call_requires(
            PriceBridge::set_updater,
            (e, caller, updater, allowed),
        ),
        ({
            let (s, t) = (old(e)@.storage, final(e)@.storage);
            &&& result is Ok <==> s.admin == Some(caller@)
            &&& result is Err ==> refused(result, Error::Unauthorized) && t == s
            &&& result is Ok ==> {
                &&& t.updaters == s.updaters.insert(updater@, allowed)
                &&& t.admin == s.admin
                &&& t.prices == s.prices
                &&& t.configs == s.configs
                &&& t.states == s.states
            }
        }),
        final(e)@.now == old(e)@.now,
        final(e)@.signers == old(e)@.signers,
{
}

/// A registered feed is paused or resumed as asked, for the admin alone, and nothing else changes.
pub proof fn law_set_feed_active(
    e: &mut Env,
    caller: Address,
    asset: Vec<u8>,
    active: bool,
    result: Result<(), Error>,
)
    requires
        call_ensures(PriceBridge::set_feed_active, (e, caller, asset, active), result),
    ensures
        old(e)@.signers.contains(caller@) && old(e)@.storage.admin is Some ==> call_requires(
            PriceBridge::set_feed_active,
            (e, caller, asset, active),
        ),
        ({
            let (s, t) = (old(e)@.storage, final(e)@.storage);
            let (before, after) = (s.configs[asset@], t.configs[asset@]);
            &&& refused(result, Error::Unauthorized) <==> s.admin != Some(caller@)
            &&& refused(result, Error::FeedNotRegistered) <==> s.admin == Some(caller@)
                && !s.configs.contains_key(asset@)
            &&& result is Ok <==> s.admin == Some(caller@) && s.configs.contains_key(asset@)
            &&& result is Err ==> t == s
            &&& result is Ok ==> {
                &&& after.active == active
                &&& after.max_staleness == before.max_staleness
                &&& after.min_price == before.min_price
                &&& after.max_price == before.max_price
                &&& after.max_deviation_bps == before.max_deviation_bps
                &&& after.twap_window == before.twap_window
                &&& t.configs == s.configs.insert(asset@, after)
                &&& t.admin == s.admin
                &&& t.prices == s.prices
                &&& t.states == s.states
                &&& t.updaters == s.updaters
            }
        }),
        final(e)@.now == old(e)@.now,
        final(e)@.signers == old(e)@.signers,
{
}

/// The circuit breaker of a registered feed is reset for the admin alone, and nothing else
/// changes.
pub proof fn law_reset_circuit_breaker(
    e: &mut Env,
    caller: Address,
    asset: Vec<u8>,
    result: Result<(), Error>,
)
    requires
        call_ensures(PriceBridge::reset_circuit_breaker, (e, caller, asset), result),
    ensures
        old(e)@.signers.contains(caller@) && old(e)@.storage.admin is Some ==> call_requires(
            PriceBridge::reset_circuit_breaker,
            (e, caller, asset),
        ),
        ({
            let (s, t) = (old(e)@.storage, final(e)@.storage);
            let (before, after) = (s.states[asset@], t.states[asset@]);
            &&& refused(result, Error::Unauthorized) <==> s.admin != Some(caller@)
            &&& refused(result, Error::FeedNotRegistered) <==> s.admin == Some(caller@)
                && !s.states.contains_key(asset@)
            &&& result is Ok <==> s.admin == Some(caller@) && s.states.contains_key(asset@)
            &&& result is Err ==> t == s
            &&& result is Ok ==> {
                &&& !after.circuit_broken
                &&& after.last_price == before.last_price
                &&& after.history == before.history
                &&& t.states == s.states.insert(asset@, after)
                &&& t.admin == s.admin
                &&& t.prices == s.prices
                &&& t.configs == s.configs
                &&& t.updaters == s.updaters
            }
        }),
        final(e)@.now == old(e)@.now,
        final(e)@.signers == old(e)@.signers,
{
}

/// What a message of four words says, and how the feed that it is about stands to it.
pub struct Submission {
    /// Whether the caller may submit.
    pub allowed: bool,
    /// Whether the message is a price update.
    pub readable: bool,
    pub asset: Seq<u8>,
    pub price: int,
    pub timestamp: int,
    pub decimals: u8,
    /// Whether the asset has a feed that takes updates.
    pub taken: bool,
    /// Whether the price is positive and keeps the bounds that apply.
    pub sane: bool,
    /// Whether the price is no older than the feed allows.
    pub fresh: bool,
    /// Whether there is an accepted price from which this one is too far.
    pub far: bool,
}

/// What a message says, read at the places of its words.
pub open spec fn submission(s: StorageView, now: u64, caller: Seq<u8>, input: Seq<u8>) -> Submission {
    let asset = input.subrange(0, 32);
    let price = signed_value(input.subrange(32, 64));
    let timestamp = be_value(input.subrange(64, 96)) as int;
    let config = s.configs[asset];
    let last = s.states[asset].last_price as int;
    Submission {
        allowed: s.updaters.contains_key(caller) && s.updaters[caller],
        readable: input.len() == 128 && forall|i: int| 96 <= i < 127 ==> input[i] == 0,
        asset,
        price,
        timestamp,
        decimals: input[127],
        taken: s.configs.contains_key(asset) && config.active,
        sane: {
            &&& 0 < price <= i128::MAX
            &&& config.min_price <= 0 || config.min_price <= price
            &&& config.max_price <= 0 || price <= config.max_price
        },
        fresh: now - timestamp <= config.max_staleness,
        far: last > 0 && (10_000 * (price - last) > config.max_deviation_bps * last || 10_000 * (last
            - price) > config.max_deviation_bps * last),
    }
}

/// What is answered to a submission: the first of its faults, in this order, or success.
pub open spec fn answered(s: StorageView, m: Submission, result: Result<(), Error>) -> bool {
    let checked = m.allowed && m.readable && m.taken && m.sane && m.decimals <= 18;
    let kept = s.states.contains_key(m.asset);
    let broken = s.states[m.asset].circuit_broken;
    &&& refused(result, Error::Unauthorized) <==> !m.allowed
    &&& refused(result, Error::Decode) <==> m.allowed && !m.readable
    &&& refused(result, Error::FeedNotRegistered) <==> {
        ||| m.allowed && m.readable && !m.taken
        ||| checked && m.fresh && !kept
    }
    &&& refused(result, Error::InvalidPrice) <==> m.allowed && m.readable && m.taken && !m.sane
    &&& refused(result, Error::InvalidDecimals) <==> m.allowed && m.readable && m.taken && m.sane
        && m.decimals > 18
    &&& refused(result, Error::StalePriceFeed) <==> checked && !m.fresh
    &&& refused(result, Error::CircuitBreakerTripped) <==> checked && m.fresh && kept && (broken
        || m.far)
    &&& result is Ok <==> checked && m.fresh && kept && !broken && !m.far
}

/// What a submission changes. One that is accepted is stored whole and enters the history, from
/// which the oldest snapshot leaves where the window is full. One that passes every check but goes
/// too far trips the circuit breaker. Any other changes nothing.
pub open spec fn changed(
    s: StorageView,
    now: u64,
    caller: Seq<u8>,
    m: Submission,
    result: Result<(), Error>,
    t: StorageView,
) -> bool {
    let (before, after) = (s.states[m.asset], t.states[m.asset]);
    let entry = t.prices[m.asset];
    let snapshot = PriceSnapshot { price: m.price as i128, timestamp: m.timestamp as u64 };
    let all = before.history.push(snapshot);
    &&& t.admin == s.admin
    &&& t.configs == s.configs
    &&& t.updaters == s.updaters
    &&& result is Ok ==> {
        &&& t.prices == s.prices.insert(m.asset, entry)
        &&& entry.asset == m.asset
        &&& entry.price == m.price
        &&& entry.timestamp == m.timestamp
        &&& entry.decimals == m.decimals
        &&& entry.updated_at == now
        &&& entry.updater == caller
        &&& entry.normalized == m.price * pow(10, (18 - m.decimals) as nat)
        &&& t.states == s.states.insert(m.asset, after)
        &&& !after.circuit_broken
        &&& after.last_price == m.price
        &&& snapshot.price == m.price
        &&& snapshot.timestamp == m.timestamp
        &&& after.history == (if before.history.len() < s.configs[m.asset].twap_window {
            all
        } else {
            all.skip(1)
        })
    }
    &&& refused(result, Error::CircuitBreakerTripped) && !before.circuit_broken ==> {
        &&& t.prices == s.prices
        &&& t.states == s.states.insert(m.asset, after)
        &&& after.circuit_broken
        &&& after.last_price == before.last_price
        &&& after.history == before.history
    }
    &&& result is Err && !(refused(result, Error::CircuitBreakerTripped) && !before.circuit_broken)
        ==> t == s
}

/// Whether a number on the way of a submission leaves its bits: the timestamp 64, ten thousand
/// times the move 128 where there is a threshold to hold it against, the scaled price 128, or the
/// number of snapshots 32.
pub open spec fn too_large(s: StorageView, m: Submission) -> bool {
    let config = s.configs[m.asset];
    let state = s.states[m.asset];
    let checked = m.allowed && m.readable && m.taken && m.sane && m.decimals <= 18;
    let open = checked && m.fresh && s.states.contains_key(m.asset) && !state.circuit_broken;
    ||| checked && m.timestamp > u64::MAX
    ||| open && state.last_price > 0 && config.max_deviation_bps > 0 && 10_000 * magnitude(
        m.price - state.last_price,
    ) > i128::MAX
    ||| open && !m.far && m.price * pow(10, (18 - m.decimals) as nat) > i128::MAX
    ||| open && !m.far && state.history.len() >= u32::MAX
}

/// A submission is answered by the first of its faults and changes what `changed` says. There is
/// no answer, and no change, exactly where a number on the way is too large.
pub proof fn law_submit_checked(
    e: &mut Env,
    caller: Address,
    input: Vec<u8>,
    answer: Option<Result<(), Error>>,
)
    requires
        call_ensures(PriceBridge::submit_checked, (e, caller, input), answer),
    ensures
        old(e)@.signers.contains(caller@) ==> call_requires(
            PriceBridge::submit_checked,
            (e, caller, input),
        ),
        ({
            let (s, t, now) = (old(e)@.storage, final(e)@.storage, old(e)@.now);
            let m = submission(s, now, caller@, input@);
            &&& answer is None <==> too_large(s, m)
            &&& answer is None ==> t == s
            &&& answer matches Some(result) ==> {
                &&& answered(s, m, result)
                &&& changed(s, now, caller@, m, result, t)
            }
        }),
        final(e)@.now == old(e)@.now,
        final(e)@.signers == old(e)@.signers,
{
    law_submission_step(old(e)@.storage, old(e)@.now, caller@, input@);
}

/// A submission can be made with the caller's authorization, unless a number on the way is too
/// large, and is then answered and changes what is stored as the checked one.
pub proof fn law_submit(e: &mut Env, caller: Address, input: Vec<u8>, result: Result<(), Error>)
    requires
        old(e)@.signers.contains(caller@),
        !too_large(
            old(e)@.storage,
            submission(old(e)@.storage, old(e)@.now, caller@, input@),
        ),
        call_ensures(PriceBridge::submit, (e, caller, input), result),
    ensures
        call_requires(PriceBridge::submit, (e, caller, input)),
        ({
            let (s, t, now) = (old(e)@.storage, final(e)@.storage, old(e)@.now);
            let m = submission(s, now, caller@, input@);
            &&& answered(s, m, result)
            &&& changed(s, now, caller@, m, result, t)
        }),
        final(e)@.now == old(e)@.now,
        final(e)@.signers == old(e)@.signers,
{
    law_submission_step(old(e)@.storage, old(e)@.now, caller@, input@);
}

/// What a submission answers and changes, and where it stays within the machine's numbers.
pub proof fn law_submission_step(s: StorageView, now: u64, caller: Seq<u8>, input: Seq<u8>)
    ensures
        ({
            let m = submission(s, now, caller, input);
            let (result, t) = s.submit_step(now, caller, input);
            &&& s.submit_fits(now, caller, input) <==> !too_large(s, m)
            &&& !too_large(s, m) ==> answered(s, m, result) && changed(
                s,
                now,
                caller,
                m,
                result,
                t,
            )
        }),
{
    let m = submission(s, now, caller, input);
    let all = s.states[m.asset].history.push(
        PriceSnapshot { price: m.price as i128, timestamp: m.timestamp as u64 },
    );
    assert(all.drop_first() =~= all.skip(1));
    lemma_pow_positive(10, (18 - m.decimals) as nat);
    if m.decimals <= 18 && m.price > 0 {
        let scale = pow(10, (18 - m.decimals) as nat);
        assert(m.price * scale > 0) by (nonlinear_arith)
            requires
                m.price > 0,
                scale > 0,
        ;
    }
    if s.states.contains_key(m.asset) {
        assert(s.states.insert(m.asset, s.states[m.asset]) =~= s.states);
    }
}

/// A price is served whole while its feed is not broken and it is no older than the feed allows,
/// and else refused by the first of the reasons.
pub proof fn law_get_price(e: &Env, asset: Vec<u8>, result: Result<PriceEntry, Error>)
    requires
        call_ensures(PriceBridge::get_price, (e, asset), result),
    ensures
        ({
            let s = e@.storage;
            let kept = s.states.contains_key(asset@);
            let broken = s.states[asset@].circuit_broken;
            let priced = s.prices.contains_key(asset@);
            let ruled = s.configs.contains_key(asset@);
            let entry = s.prices[asset@];
            let age = e@.now - entry.timestamp;
            let max_age = s.configs[asset@].max_staleness;
            &&& result is Ok <==> kept && !broken && priced && ruled && age <= max_age
            &&& result matches Ok(found) ==> {
                &&& found.asset@ == entry.asset
                &&& found.price == entry.price
                &&& found.timestamp == entry.timestamp
                &&& found.decimals == entry.decimals
                &&& found.updated_at == entry.updated_at
                &&& found.updater@ == entry.updater
                &&& found.normalized == entry.normalized
            }
            &&& refused(result, Error::CircuitBreakerTripped) <==> kept && broken
            &&& refused(result, Error::AssetNotFound) <==> kept && !broken && !priced
            &&& refused(result, Error::StalePriceFeed) <==> kept && !broken && priced && ruled && age
                > max_age
            &&& refused(result, Error::FeedNotRegistered) <==> !kept || (!broken && priced
                && !ruled)
        }),
{
}

/// What is fresh, the normalized price and the ABI encoding are of the price that is served: there
/// is one of them exactly where there is one of the others, and the same refusal.
pub proof fn law_reads_agree(
    e: &Env,
    asset: Vec<u8>,
    served: Result<PriceEntry, Error>,
    fresh: bool,
    normalized: Result<i128, Error>,
    encoded: Option<Result<Vec<u8>, Error>>,
)
    requires
        call_ensures(PriceBridge::get_price, (e, asset), served),
        call_ensures(PriceBridge::is_fresh, (e, asset), fresh),
        call_ensures(PriceBridge::get_normalized_price, (e, asset), normalized),
        call_ensures(PriceBridge::get_price_abi_checked, (e, asset), encoded),
    ensures
        call_requires(PriceBridge::get_price, (e, asset)),
        call_requires(PriceBridge::is_fresh, (e, asset)),
        call_requires(PriceBridge::get_normalized_price, (e, asset)),
        call_requires(PriceBridge::get_price_abi_checked, (e, asset)),
        fresh == served is Ok,
        normalized is Ok == served is Ok,
        served matches Ok(entry) ==> normalized == Ok::<_, Error>(entry.normalized),
        served matches Err(error) ==> normalized == Err::<i128, _>(error),
        encoded is None ==> served is Ok,
        encoded matches Some(answer) ==> answer is Ok == served is Ok,
        served matches Err(error) ==> encoded matches Some(answer) && refused(answer, error),
{
}

/// What is stored of a feed is read as it is stored: its rules, its breaker and its history.
pub proof fn law_feed_reads(
    e: &Env,
    asset: Vec<u8>,
    config: Result<FeedConfig, Error>,
    broken: bool,
    history: Result<Vec<PriceSnapshot>, Error>,
)
    requires
        call_ensures(PriceBridge::get_feed_config, (e, asset), config),
        call_ensures(PriceBridge::is_circuit_broken, (e, asset), broken),
        call_ensures(PriceBridge::get_history, (e, asset), history),
    ensures
        call_requires(PriceBridge::get_feed_config, (e, asset)),
        call_requires(PriceBridge::is_circuit_broken, (e, asset)),
        call_requires(PriceBridge::get_history, (e, asset)),
        ({
            let s = e@.storage;
            let state = s.states[asset@];
            &&& config is Ok <==> s.configs.contains_key(asset@)
            &&& config matches Ok(found) ==> found == s.configs[asset@]
            &&& config is Err ==> refused(config, Error::FeedNotRegistered)
            &&& broken <==> s.states.contains_key(asset@) && state.circuit_broken
            &&& history is Ok <==> s.states.contains_key(asset@)
            &&& history matches Ok(found) ==> {
                &&& found@.len() == state.history.len()
                &&& forall|i: int| 0 <= i < found@.len() ==> #[trigger] found@[i] == state.history[i]
            }
            &&& history is Err ==> refused(history, Error::FeedNotRegistered)
        }),
{
}

/// Whether `average` is the average of a history, as its sums say: of the prices times the times
/// for which they stayed over the time that passed, or of all prices over their number where none
/// passed; rounded toward zero.
pub open spec fn averages(
    spans: Seq<int>,
    terms: Seq<int>,
    prices: Seq<int>,
    average: int,
) -> bool {
    let (sum, parts) = if total(spans) > 0 {
        (total(terms), total(spans))
    } else {
        (total(prices), prices.len() as int)
    };
    &&& magnitude(average) * parts <= magnitude(sum) < (magnitude(average) + 1) * parts
    &&& average > 0 ==> sum > 0
    &&& average < 0 ==> sum < 0
}

/// Whether no number on the way to an average leaves its bits.
pub open spec fn summable(spans: Seq<int>, terms: Seq<int>, prices: Seq<int>) -> bool {
    &&& forall|i: int|
        0 <= i < terms.len() ==> {
            &&& i128::MIN <= #[trigger] terms[i] <= i128::MAX
            &&& i128::MIN <= total(terms.take(i + 1)) <= i128::MAX
            &&& total(spans.take(i + 1)) <= u64::MAX
        }
    &&& total(spans) == 0 ==> forall|n: int|
        0 <= n <= prices.len() ==> i128::MIN <= total(#[trigger] prices.take(n)) <= i128::MAX
}

/// The average that is computed of a history is the one that its sums say, and is missing exactly
/// where one of them is too large.
pub proof fn law_checked_twap(
    history: &History,
    spans: Seq<int>,
    terms: Seq<int>,
    prices: Seq<int>,
    result: Option<i128>,
)
    requires
        history@.len() >= 2,
        laid_out(history@, spans, terms, prices),
        call_ensures(checked_twap, (history,), result),
    ensures
        result is Some <==> summable(spans, terms, prices),
        result matches Some(average) ==> averages(spans, terms, prices, average as int),
{
    law_average_fits(history@, spans, terms, prices);
    law_average_divides_sums(history@, spans, terms, prices);
}

/// The average of a feed is that of its history, from two snapshots on; there is no answer exactly
/// where a number on the way is too large.
pub proof fn law_get_twap_checked(
    e: &Env,
    asset: Vec<u8>,
    spans: Seq<int>,
    terms: Seq<int>,
    prices: Seq<int>,
    answer: Option<Result<i128, Error>>,
)
    requires
        e@.storage.states[asset@].history.len() >= 2 ==> laid_out(
            e@.storage.states[asset@].history,
            spans,
            terms,
            prices,
        ),
        call_ensures(PriceBridge::get_twap_checked, (e, asset), answer),
    ensures
        call_requires(PriceBridge::get_twap_checked, (e, asset)),
        ({
            let s = e@.storage;
            let feed = s.states.contains_key(asset@) && s.configs.contains_key(asset@);
            let enough = s.states[asset@].history.len() >= 2;
            &&& answer is None <==> feed && enough && !summable(spans, terms, prices)
            &&& answer matches Some(result) ==> {
                &&& refused(result, Error::FeedNotRegistered) <==> !feed
                &&& refused(result, Error::InsufficientHistory) <==> feed && !enough
                &&& result is Ok <==> feed && enough
                &&& result matches Ok(average) ==> averages(spans, terms, prices, average as int)
            }
        }),
{
    let history = e@.storage.states[asset@].history;
    if history.len() >= 2 {
        law_average_fits(history, spans, terms, prices);
        law_average_divides_sums(history, spans, terms, prices);
    }
}

/// The average can be asked for wherever the checked one answers, and gives the same answer.
pub proof fn law_get_twap(
    e: &Env,
    asset: Vec<u8>,
    answer: Option<Result<i128, Error>>,
    result: Result<i128, Error>,
)
    requires
        answer is Some,
        call_ensures(PriceBridge::get_twap_checked, (e, asset), answer),
        call_ensures(PriceBridge::get_twap, (e, asset), result),
    ensures
        call_requires(PriceBridge::get_twap, (e, asset)),
        answer == Some(result),
{
}

/// The ABI encoding of a price has the entry that is served, the time of the query, and the
/// average, or the price where there is no average. It is missing exactly where a price is served
/// and its average cannot be computed.
pub proof fn law_get_price_abi_checked(
    e: &Env,
    asset: Vec<u8>,
    served: Result<PriceEntry, Error>,
    average: Option<Result<i128, Error>>,
    answer: Option<Result<Vec<u8>, Error>>,
)
    requires
        call_ensures(PriceBridge::get_price, (e, asset), served),
        call_ensures(PriceBridge::get_twap_checked, (e, asset), average),
        call_ensures(PriceBridge::get_price_abi_checked, (e, asset), answer),
    ensures
        answer is None <==> served is Ok && average is None,
        served matches Err(error) ==> answer matches Some(result) && refused(result, error),
        served matches Ok(entry) ==> average matches Some(average) ==> {
            &&& answer matches Some(Ok(data))
            &&& data@.len() == 224
            &&& forall|i: int|
                0 <= i < 32 ==> #[trigger] data@[i] == (if i < entry.asset@.len() {
                    entry.asset@[i]
                } else {
                    0
                })
            &&& signed_value(data@.subrange(32, 64)) == entry.price
            &&& be_value(data@.subrange(64, 96)) == entry.timestamp
            &&& be_value(data@.subrange(96, 128)) == entry.decimals % 256
            &&& be_value(data@.subrange(128, 160)) == e@.now
            &&& signed_value(data@.subrange(160, 192)) == (match average {
                Ok(average) => average,
                Err(_) => entry.price,
            })
            &&& signed_value(data@.subrange(192, 224)) == entry.normalized
        },
{
    if let Ok(entry) = served {
        if let Some(average) = average {
            let mean = match average {
                Ok(average) => average,
                Err(_) => entry.price,
            };
            let decimals = (entry.decimals % 256) as u8;
            law_output_reads_back(
                padded(entry.asset@),
                entry.price,
                entry.timestamp,
                decimals,
                e@.now,
                mean,
                entry.normalized,
            );
            let data = answer->0->Ok_0@;
            assert(data.subrange(0, 32) == padded(entry.asset@));
            assert forall|i: int| 0 <= i < 32 implies #[trigger] data[i] == (if i
                < entry.asset@.len() {
                entry.asset@[i]
            } else {
                0
            }) by {
                assert(data[i] == data.subrange(0, 32)[i]);
            }
        }
    }
}

/// The ABI encoding can be asked for wherever the checked one answers, and gives the same answer.
pub proof fn law_get_price_abi(
    e: &Env,
    asset: Vec<u8>,
    answer: Option<Result<Vec<u8>, Error>>,
    result: Result<Vec<u8>, Error>,
)
    requires
        answer is Some,
        call_ensures(PriceBridge::get_price_abi_checked, (e, asset), answer),
        call_ensures(PriceBridge::get_price_abi, (e, asset), result),
    ensures
        call_requires(PriceBridge::get_price_abi, (e, asset)),
        result is Ok == answer->0 is Ok,
        result matches Ok(data) ==> answer->0->Ok_0@ == data@,
        result matches Err(error) ==> refused(answer->0, error),
{
}

/// A price can be normalized wherever the power of ten and the result stay within 128 bits: up to
/// 18 decimals it is multiplied, above them its surplus digits are dropped.
pub proof fn law_normalize(price: i128, decimals: u8, n: i128)
    requires
        call_ensures(PriceBridge::normalize, (price, decimals), n),
    ensures
        decimals <= 18 && i128::MIN <= price * pow(10, (18 - decimals) as nat) <= i128::MAX ==> {
            &&& call_requires(PriceBridge::normalize, (price, decimals))
            &&& n == price * pow(10, (18 - decimals) as nat)
        },
        decimals > 18 && pow(10, (decimals - 18) as nat) <= i128::MAX ==> {
            let scale = pow(10, (decimals - 18) as nat);
            &&& call_requires(PriceBridge::normalize, (price, decimals))
            &&& magnitude(n as int) * scale <= magnitude(price as int) < (magnitude(n as int) + 1)
                * scale
            &&& n > 0 ==> price > 0
            &&& n < 0 ==> price < 0
        },
{
    law_normalization_fits(price, decimals);
    if decimals > 18 {
        law_normalization_truncates(price as int, decimals);
    }
}

} // verus!
