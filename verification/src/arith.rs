//! The arithmetic on prices: scaling, deviation and time-weighted averages.
//!
//! Every function here works in 128-bit numbers and tells when a step of it does not fit.

use vstd::arithmetic::power::{
    lemma_pow0, lemma_pow1, lemma_pow_adds, lemma_pow_increases, lemma_pow_positive, pow,
};
use vstd::prelude::*;

use crate::history::{History, PriceSnapshot};

verus! {

/// The precision to which prices are normalized.
pub const TARGET_DECIMALS: u8 = 18;

/// How many basis points make a whole.
pub const BASIS_POINTS: i128 = 10_000;

/// `a` divided by the positive `b`, rounded toward zero.
pub open spec fn quotient(a: int, b: int) -> int {
    if a >= 0 {
        a / b
    } else {
        -((-a) / b)
    }
}

/// Whether a number fits an `i128`.
pub open spec fn fits(n: int) -> bool {
    i128::MIN <= n <= i128::MAX
}

/// A price of precision `decimals`, scaled to the target precision.
pub open spec fn normalized(price: int, decimals: u8) -> int {
    if decimals <= TARGET_DECIMALS {
        price * pow(10, (TARGET_DECIMALS - decimals) as nat)
    } else {
        quotient(price, pow(10, (decimals - TARGET_DECIMALS) as nat))
    }
}

/// Whether `normalized` is reached without leaving 128 bits: the power of ten fits, and so does
/// the scaled price.
pub open spec fn normalizable(price: int, decimals: u8) -> bool {
    &&& decimals <= 56
    &&& fits(normalized(price, decimals))
}

/// The powers of ten up to the 38th fit an `i128`.
proof fn lemma_pow10_fits(n: nat)
    requires
        n <= 38,
    ensures
        0 < pow(10, n) <= i128::MAX,
{
    lemma_pow_positive(10, n);
    lemma_pow_increases(10, n, 38);
    lemma_pow10_38();
}

/// The 38th power of ten.
proof fn lemma_pow10_38()
    ensures
        pow(10, 38) == 100_000_000_000_000_000_000_000_000_000_000_000_000,
{
    lemma_pow1(10);
    lemma_pow_adds(10, 1, 1);
    assert(pow(10, 2) == 100);
    lemma_pow_adds(10, 2, 2);
    assert(pow(10, 4) == 10_000);
    lemma_pow_adds(10, 4, 2);
    assert(pow(10, 6) == 1_000_000);
    lemma_pow_adds(10, 4, 4);
    assert(pow(10, 8) == 100_000_000);
    lemma_pow_adds(10, 8, 8);
    assert(pow(10, 16) == 10_000_000_000_000_000);
    lemma_pow_adds(10, 16, 16);
    assert(pow(10, 32) == 100_000_000_000_000_000_000_000_000_000_000);
    lemma_pow_adds(10, 32, 6);
}

/// Ten to the power of `n`.
fn pow10(n: u8) -> (power: i128)
    requires
        n <= 38,
    ensures
        power == pow(10, n as nat),
        power > 0,
{
    let mut power: i128 = 1;
    let mut i: u8 = 0;
    proof {
        reveal(pow);
    }
    while i < n
        invariant
            i <= n <= 38,
            power == pow(10, i as nat),
        decreases n - i,
    {
        proof {
            lemma_pow10_fits((i + 1) as nat);
            reveal(pow);
            assert(pow(10, (i + 1) as nat) == 10 * pow(10, i as nat));
        }
        power = power * 10;
        i = i + 1;
    }
    proof {
        lemma_pow10_fits(n as nat);
    }
    power
}

/// `a` divided by `b`, rounded toward zero.
fn divide(a: i128, b: i128) -> (result: i128)
    requires
        b > 0,
    ensures
        result == quotient(a as int, b as int),
{
    proof {
        assert(a >= 0 ==> 0 <= a as int / b as int <= a) by (nonlinear_arith)
            requires
                b > 0,
        ;
        assert(a < 0 ==> 0 <= (-(a as int)) / (b as int) <= -(a as int)) by (nonlinear_arith)
            requires
                b > 0,
        ;
    }
    match a.checked_div(b) {
        Some(result) => result,
        None => 0,
    }
}

/// `price` of precision `decimals` scaled to the target precision, or `None` where the result
/// does not fit.
pub fn checked_normalize(price: i128, decimals: u8) -> (result: Option<i128>)
    ensures
        result is Some <==> normalizable(price as int, decimals),
        result matches Some(value) ==> value == normalized(price as int, decimals),
{
    if decimals < TARGET_DECIMALS {
        let scale = pow10(TARGET_DECIMALS - decimals);
        price.checked_mul(scale)
    } else if decimals > TARGET_DECIMALS {
        if decimals - TARGET_DECIMALS > 38 {
            return None;
        }
        let scale = pow10(decimals - TARGET_DECIMALS);
        Some(divide(price, scale))
    } else {
        proof {
            lemma_pow0(10);
            assert(price * pow(10, 0) == price);
        }
        Some(price)
    }
}

/// How far two prices lie from each other.
pub open spec fn distance(price: int, last: int) -> int {
    if price >= last {
        price - last
    } else {
        last - price
    }
}

/// Whether `price` lies more than `max_bps` basis points of `last` from it.
pub open spec fn exceeds(price: int, last: int, max_bps: u32) -> bool {
    distance(price, last) * BASIS_POINTS > max_bps * last
}

/// Whether `exceeds` is decided without leaving 128 bits. Any move is more than zero basis points,
/// which takes no arithmetic.
pub open spec fn comparable(price: int, last: int, max_bps: u32) -> bool {
    max_bps > 0 ==> fits(distance(price, last) * BASIS_POINTS)
}

/// Whether `price` lies more than `max_bps` basis points of `last` from it, or `None` where a step
/// on the way does not fit.
pub fn checked_exceeds(price: i128, last: i128, max_bps: u32) -> (result: Option<bool>)
    requires
        price > 0,
        last > 0,
    ensures
        result is Some <==> comparable(price as int, last as int, max_bps),
        result matches Some(exceeded) ==> exceeded == exceeds(price as int, last as int, max_bps),
{
    if max_bps == 0 {
        assert(max_bps * last == 0) by (nonlinear_arith)
            requires
                max_bps == 0,
        ;
        return Some(price != last);
    }
    let diff: i128 = if price >= last {
        price - last
    } else {
        last - price
    };
    let scaled: i128 = match diff.checked_mul(BASIS_POINTS) {
        Some(scaled) => scaled,
        None => return None,
    };
    let whole: i128 = divide(scaled, last);
    proof {
        let (a, b, q, m) = (scaled as int, last as int, whole as int, max_bps as int);
        assert(q * b <= a < q * b + b) by (nonlinear_arith)
            requires
                a >= 0,
                b > 0,
                q == a / b,
        ;
        assert(q > m ==> a > m * b) by (nonlinear_arith)
            requires
                b > 0,
                q * b <= a,
        ;
        assert(q < m ==> a <= m * b) by (nonlinear_arith)
            requires
                b > 0,
                a < q * b + b,
        ;
        assert(q >= 0) by (nonlinear_arith)
            requires
                a >= 0,
                b > 0,
                q == a / b,
        ;
        assert(q * b >= 0) by (nonlinear_arith)
            requires
                b > 0,
                q >= 0,
        ;
    }
    let max: i128 = max_bps as i128;
    Some(whole > max || (whole == max && whole * last < scaled))
}

/// For how long the snapshot at `i` was the latest one: until the next one's timestamp, and not
/// at all where that lies before its own.
pub open spec fn duration(history: Seq<PriceSnapshot>, i: int) -> int {
    if history[i + 1].timestamp >= history[i].timestamp {
        history[i + 1].timestamp - history[i].timestamp
    } else {
        0
    }
}

/// The time for which the first `n` snapshots were the latest ones.
pub open spec fn total_time(history: Seq<PriceSnapshot>, n: nat) -> int
    decreases n,
{
    if n == 0 {
        0
    } else {
        total_time(history, (n - 1) as nat) + duration(history, n - 1)
    }
}

/// The sum of the first `n` prices, each times its duration.
pub open spec fn weighted_sum(history: Seq<PriceSnapshot>, n: nat) -> int
    decreases n,
{
    if n == 0 {
        0
    } else {
        weighted_sum(history, (n - 1) as nat) + history[n - 1].price * duration(history, n - 1)
    }
}

/// The sum of the first `n` prices.
pub open spec fn price_sum(history: Seq<PriceSnapshot>, n: nat) -> int
    decreases n,
{
    if n == 0 {
        0
    } else {
        price_sum(history, (n - 1) as nat) + history[n - 1].price
    }
}

/// The time-weighted average price of at least two snapshots; the simple average where no time
/// passed between them.
pub open spec fn twap(history: Seq<PriceSnapshot>) -> int {
    let spans = (history.len() - 1) as nat;
    if total_time(history, spans) == 0 {
        quotient(price_sum(history, history.len()), history.len() as int)
    } else {
        quotient(weighted_sum(history, spans), total_time(history, spans))
    }
}

/// Whether `twap` is reached without leaving 128 bits for prices and 64 bits for times.
pub open spec fn averageable(history: Seq<PriceSnapshot>) -> bool {
    let spans = (history.len() - 1) as nat;
    &&& forall|i: nat|
        i < spans ==> {
            &&& fits(history[i as int].price * #[trigger] duration(history, i as int))
            &&& fits(weighted_sum(history, i + 1))
            &&& total_time(history, i + 1) <= u64::MAX
        }
    &&& total_time(history, spans) == 0 ==> forall|n: nat|
        n <= history.len() ==> fits(#[trigger] price_sum(history, n))
}

/// The time-weighted average price, or `None` where a step on the way does not fit.
pub fn checked_twap(history: &History) -> (result: Option<i128>)
    requires
        history@.len() >= 2,
    ensures
        result is Some <==> averageable(history@),
        result matches Some(average) ==> average == twap(history@),
{
    let ghost h = history@;
    let len = history.len();
    let spans: u32 = len - 1;
    let mut sum: i128 = 0;
    let mut time: u64 = 0;
    let mut i: u32 = 0;
    while i < spans
        invariant
            h == history@,
            i <= spans,
            spans + 1 == len,
            len == h.len(),
            sum == weighted_sum(h, i as nat),
            time == total_time(h, i as nat),
            forall|j: nat|
                j < i ==> {
                    &&& fits(h[j as int].price * #[trigger] duration(h, j as int))
                    &&& fits(weighted_sum(h, j + 1))
                    &&& total_time(h, j + 1) <= u64::MAX
                },
        decreases spans - i,
    {
        let current = history.get(i).unwrap();
        let next = history.get(i + 1).unwrap();
        let span: u64 = next.timestamp.saturating_sub(current.timestamp);
        assert(span == duration(h, i as nat as int));
        let weighted = match current.price.checked_mul(span as i128) {
            Some(weighted) => weighted,
            None => return None,
        };
        sum = match sum.checked_add(weighted) {
            Some(sum) => sum,
            None => return None,
        };
        time = match time.checked_add(span) {
            Some(time) => time,
            None => return None,
        };
        i = i + 1;
    }
    if time == 0 {
        let mut total: i128 = 0;
        let mut n: u32 = 0;
        while n < len
            invariant
                h == history@,
                n <= len,
                len == h.len(),
                len >= 2,
                total_time(h, (len - 1) as nat) == 0,
                total == price_sum(h, n as nat),
                forall|m: nat| m <= n ==> fits(#[trigger] price_sum(h, m)),
            decreases len - n,
        {
            let snapshot = history.get(n).unwrap();
            total = match total.checked_add(snapshot.price) {
                Some(total) => total,
                None => {
                    assert(!fits(price_sum(h, (n + 1) as nat)));
                    return None;
                },
            };
            n = n + 1;
        }
        return Some(divide(total, len as i128));
    }
    Some(divide(sum, time as i128))
}

/// A quotient lies between two numbers, if the dividend lies between their products with the
/// divisor.
proof fn lemma_quotient_between(a: int, b: int, low: int, high: int)
    requires
        b > 0,
        low * b <= a <= high * b,
    ensures
        low <= quotient(a, b) <= high,
{
    if a >= 0 {
        assert(low <= a / b <= high) by (nonlinear_arith)
            requires
                b > 0,
                a >= 0,
                low * b <= a <= high * b,
        ;
    } else {
        let n = -a;
        assert(-high * b <= n <= -low * b) by (nonlinear_arith)
            requires
                n == -a,
                low * b <= a <= high * b,
        ;
        assert(-high <= n / b <= -low) by (nonlinear_arith)
            requires
                b > 0,
                n > 0,
                -high * b <= n <= -low * b,
        ;
    }
}

/// Durations are not negative, nor are their sums.
proof fn lemma_total_time_nonneg(history: Seq<PriceSnapshot>, n: nat)
    ensures
        total_time(history, n) >= 0,
    decreases n,
{
    if n > 0 {
        lemma_total_time_nonneg(history, (n - 1) as nat);
    }
}

/// Sums of prices between two numbers.
proof fn lemma_sums_between(history: Seq<PriceSnapshot>, n: nat, low: int, high: int)
    requires
        n <= history.len(),
        forall|i: int| 0 <= i < n ==> low <= (#[trigger] history[i]).price <= high,
    ensures
        low * n <= price_sum(history, n) <= high * n,
        n < history.len() ==> low * total_time(history, n) <= weighted_sum(history, n) <= high
            * total_time(history, n),
    decreases n,
{
    if n > 0 {
        let m = (n - 1) as nat;
        lemma_sums_between(history, m, low, high);
        let price = history[m as int].price as int;
        let time = total_time(history, m);
        let span = duration(history, m as int);
        assert(low * n == low * m + low && high * n == high * m + high) by (nonlinear_arith)
            requires
                n == m + 1,
        ;
        assert(low * (time + span) == low * time + low * span) by (nonlinear_arith);
        assert(high * (time + span) == high * time + high * span) by (nonlinear_arith);
        assert(low * span <= price * span <= high * span) by (nonlinear_arith)
            requires
                span >= 0,
                low <= price <= high,
        ;
    } else {
        assert(low * n == 0 && high * n == 0) by (nonlinear_arith)
            requires
                n == 0,
        ;
    }
}

/// The time-weighted average price lies between the lowest and the highest price of the history.
pub proof fn law_twap_between_prices(history: Seq<PriceSnapshot>, low: int, high: int)
    requires
        history.len() >= 2,
        forall|i: int| 0 <= i < history.len() ==> low <= (#[trigger] history[i]).price <= high,
    ensures
        low <= twap(history) <= high,
{
    let spans = (history.len() - 1) as nat;
    lemma_total_time_nonneg(history, spans);
    lemma_sums_between(history, spans, low, high);
    lemma_sums_between(history, history.len(), low, high);
    if total_time(history, spans) == 0 {
        lemma_quotient_between(
            price_sum(history, history.len()),
            history.len() as int,
            low,
            high,
        );
    } else {
        lemma_quotient_between(
            weighted_sum(history, spans),
            total_time(history, spans),
            low,
            high,
        );
    }
}

/// The time-weighted average of a price that did not change is that price.
pub proof fn law_twap_of_constant_price(history: Seq<PriceSnapshot>, price: i128)
    requires
        history.len() >= 2,
        forall|i: int| 0 <= i < history.len() ==> (#[trigger] history[i]).price == price,
    ensures
        twap(history) == price,
{
    law_twap_between_prices(history, price as int, price as int);
}

/// The simple average stands in where all snapshots share one timestamp.
pub proof fn law_twap_of_one_timestamp(history: Seq<PriceSnapshot>, timestamp: u64)
    requires
        history.len() >= 2,
        forall|i: int| 0 <= i < history.len() ==> (#[trigger] history[i]).timestamp == timestamp,
    ensures
        twap(history) == quotient(price_sum(history, history.len()), history.len() as int),
{
    lemma_no_time(history, (history.len() - 1) as nat, timestamp);
}

/// No time passes between snapshots of one timestamp.
proof fn lemma_no_time(history: Seq<PriceSnapshot>, n: nat, timestamp: u64)
    requires
        n < history.len(),
        forall|i: int| 0 <= i < history.len() ==> (#[trigger] history[i]).timestamp == timestamp,
    ensures
        total_time(history, n) == 0,
    decreases n,
{
    if n > 0 {
        lemma_no_time(history, (n - 1) as nat, timestamp);
    }
}

/// The sums over the first spans depend on the prices at their starts and on timestamps alone.
proof fn lemma_sums_same(a: Seq<PriceSnapshot>, b: Seq<PriceSnapshot>, n: nat)
    requires
        n < a.len() == b.len(),
        forall|i: int| 0 <= i < n ==> a[i] == b[i],
        a[n as int].timestamp == b[n as int].timestamp,
    ensures
        total_time(a, n) == total_time(b, n),
        weighted_sum(a, n) == weighted_sum(b, n),
    decreases n,
{
    if n > 0 {
        assert(a[n - 1] == b[n - 1]);
        lemma_sums_same(a, b, (n - 1) as nat);
    }
}

/// Once time has passed in the history, the average does not depend on the price of the latest
/// snapshot: a price moves the average only by the time for which it stays.
pub proof fn law_latest_price_has_no_weight(
    history: Seq<PriceSnapshot>,
    latest: PriceSnapshot,
    other_price: i128,
)
    requires
        history.len() >= 1,
        total_time(history.push(latest), history.len()) > 0,
    ensures
        twap(history.push(latest)) == twap(
            history.push(PriceSnapshot { price: other_price, timestamp: latest.timestamp }),
        ),
{
    let a = history.push(latest);
    let b = history.push(PriceSnapshot { price: other_price, timestamp: latest.timestamp });
    lemma_sums_same(a, b, history.len());
}

/// Changing one price, but not its time, moves the sum of which the average is taken by the change
/// times the price's duration, and leaves the time unchanged.
pub proof fn law_price_weighs_its_duration(
    history: Seq<PriceSnapshot>,
    i: int,
    price: i128,
    n: nat,
)
    requires
        0 <= i < n < history.len(),
    ensures
        total_time(
            history.update(i, PriceSnapshot { price, timestamp: history[i].timestamp }),
            n,
        ) == total_time(history, n),
        weighted_sum(
            history.update(i, PriceSnapshot { price, timestamp: history[i].timestamp }),
            n,
        ) == weighted_sum(history, n) + (price - history[i].price) * duration(history, i),
    decreases n,
{
    let changed = history.update(i, PriceSnapshot { price, timestamp: history[i].timestamp });
    assert(duration(changed, n - 1) == duration(history, n - 1));
    if i < n - 1 {
        law_price_weighs_its_duration(history, i, price, (n - 1) as nat);
    } else {
        lemma_sums_same(changed, history, (n - 1) as nat);
        let span = duration(history, i);
        let old_price = history[i].price as int;
        assert(price * span == old_price * span + (price - old_price) * span)
            by (nonlinear_arith);
    }
}

/// Between timestamps that do not go back, the time that passed is that between the ends.
proof fn lemma_total_time_telescopes(history: Seq<PriceSnapshot>, n: nat)
    requires
        n < history.len(),
        forall|i: int, j: int|
            0 <= i <= j < history.len() ==> (#[trigger] history[i]).timestamp <= (
            #[trigger] history[j]).timestamp,
    ensures
        total_time(history, n) == history[n as int].timestamp - history[0].timestamp,
    decreases n,
{
    if n > 0 {
        lemma_total_time_telescopes(history, (n - 1) as nat);
    }
}

/// The average of prices below 2^63, at most 2^63 of them, always fits the machine's numbers, if
/// timestamps do not go back.
pub proof fn law_ordered_history_is_averageable(history: Seq<PriceSnapshot>)
    requires
        2 <= history.len() <= i64::MAX,
        forall|i: int| 0 <= i < history.len() ==> 0 <= (#[trigger] history[i]).price <= i64::MAX,
        forall|i: int, j: int|
            0 <= i <= j < history.len() ==> (#[trigger] history[i]).timestamp <= (
            #[trigger] history[j]).timestamp,
    ensures
        averageable(history),
{
    let spans = (history.len() - 1) as nat;
    assert forall|i: nat| i < spans implies {
        &&& fits(history[i as int].price * #[trigger] duration(history, i as int))
        &&& fits(weighted_sum(history, i + 1))
        &&& total_time(history, i + 1) <= u64::MAX
    } by {
        lemma_total_time_telescopes(history, i + 1);
        lemma_sums_between(history, i + 1, 0, i64::MAX as int);
        let price = history[i as int].price as int;
        let span = duration(history, i as int);
        assert(0 <= price * span <= 0x7fff_ffff_ffff_ffff * 0xffff_ffff_ffff_ffff)
            by (nonlinear_arith)
            requires
                0 <= price <= 0x7fff_ffff_ffff_ffff,
                0 <= span <= 0xffff_ffff_ffff_ffff,
        ;
    }
    assert forall|n: nat| n <= history.len() implies fits(#[trigger] price_sum(history, n)) by {
        lemma_sums_between(history, n, 0, i64::MAX as int);
        assert(i64::MAX * n <= 0x7fff_ffff_ffff_ffff * 0x7fff_ffff_ffff_ffff);
    }
}

/// A normalized price is the same number at 18 decimals: nothing is lost for a precision of at
/// most 18.
pub proof fn law_normalization_is_exact(price: int, decimals: u8)
    requires
        decimals <= TARGET_DECIMALS,
    ensures
        normalized(price, decimals) * pow(10, decimals as nat) == price * pow(
            10,
            TARGET_DECIMALS as nat,
        ),
{
    let scale = pow(10, (TARGET_DECIMALS - decimals) as nat);
    let unit = pow(10, decimals as nat);
    lemma_pow_adds(10, (TARGET_DECIMALS - decimals) as nat, decimals as nat);
    assert((price * scale) * unit == price * (scale * unit)) by (nonlinear_arith);
}

/// Normalized prices compare as the prices do, whatever their precision.
pub proof fn law_normalized_prices_compare(
    price: int,
    decimals: u8,
    other: int,
    other_decimals: u8,
)
    requires
        decimals <= TARGET_DECIMALS,
        other_decimals <= TARGET_DECIMALS,
    ensures
        normalized(price, decimals) <= normalized(other, other_decimals) <==> price * pow(
            10,
            other_decimals as nat,
        ) <= other * pow(10, decimals as nat),
{
    let n = normalized(price, decimals);
    let m = normalized(other, other_decimals);
    let unit = pow(10, decimals as nat);
    let other_unit = pow(10, other_decimals as nat);
    let whole = pow(10, TARGET_DECIMALS as nat);
    law_normalization_is_exact(price, decimals);
    law_normalization_is_exact(other, other_decimals);
    lemma_pow_positive(10, decimals as nat);
    lemma_pow_positive(10, other_decimals as nat);
    lemma_pow_positive(10, TARGET_DECIMALS as nat);
    let both = unit * other_unit;
    assert(both > 0) by (nonlinear_arith)
        requires
            both == unit * other_unit,
            unit > 0,
            other_unit > 0,
    ;
    assert(n * both == (price * other_unit) * whole) by (nonlinear_arith)
        requires
            both == unit * other_unit,
            n * unit == price * whole,
    ;
    assert(m * both == (other * unit) * whole) by (nonlinear_arith)
        requires
            both == unit * other_unit,
            m * other_unit == other * whole,
    ;
    assert(n <= m <==> n * both <= m * both) by (nonlinear_arith)
        requires
            both > 0,
    ;
    let x = price * other_unit;
    let y = other * unit;
    assert(x <= y <==> x * whole <= y * whole) by (nonlinear_arith)
        requires
            whole > 0,
    ;
}

/// A number without its sign.
pub open spec fn magnitude(n: int) -> int {
    if n >= 0 {
        n
    } else {
        -n
    }
}

/// Above 18 decimals normalizing drops what is less than one unit of the target precision, toward
/// zero: of the price's magnitude, and without changing its sign.
pub proof fn law_normalization_truncates(price: int, decimals: u8)
    requires
        decimals > TARGET_DECIMALS,
    ensures
        ({
            let n = normalized(price, decimals);
            let scale = pow(10, (decimals - TARGET_DECIMALS) as nat);
            &&& magnitude(n) * scale <= magnitude(price) < (magnitude(n) + 1) * scale
            &&& n > 0 ==> price > 0
            &&& n < 0 ==> price < 0
        }),
{
    let scale = pow(10, (decimals - TARGET_DECIMALS) as nat);
    lemma_pow_positive(10, (decimals - TARGET_DECIMALS) as nat);
    let size = magnitude(price);
    assert((size / scale) * scale <= size < (size / scale + 1) * scale) by (nonlinear_arith)
        requires
            scale > 0,
    ;
    assert(size / scale >= 0) by (nonlinear_arith)
        requires
            scale > 0,
            size >= 0,
    ;
    assert(size == 0 ==> size / scale == 0) by (nonlinear_arith)
        requires
            scale > 0,
    ;
}

/// A price can be normalized exactly where the power of ten and the result stay within 128 bits.
pub proof fn law_normalization_fits(price: i128, decimals: u8)
    ensures
        decimals <= 18 ==> (normalizable(price as int, decimals) <==> i128::MIN <= price * pow(
            10,
            (18 - decimals) as nat,
        ) <= i128::MAX),
        decimals > 18 ==> (normalizable(price as int, decimals) <==> pow(
            10,
            (decimals - 18) as nat,
        ) <= i128::MAX),
{
    if decimals > 18 {
        let digits = (decimals - 18) as nat;
        lemma_pow_positive(10, digits);
        if digits <= 38 {
            lemma_pow10_fits(digits);
        } else {
            lemma_pow10_38();
            lemma_pow1(10);
            lemma_pow_adds(10, 38, 1);
            lemma_pow_increases(10, 39, digits);
        }
        lemma_quotient_fits(price, pow(10, digits));
    }
}

/// Normalizing gives, up to 18 decimals, the price times the missing power of ten, and above them
/// the price without its surplus digits. The result is missing exactly where the power of ten or
/// the result leaves the 128 bits.
pub proof fn law_checked_normalize(price: i128, decimals: u8, result: Option<i128>)
    requires
        call_ensures(checked_normalize, (price, decimals), result),
    ensures
        decimals <= 18 ==> {
            let scaled = price * pow(10, (18 - decimals) as nat);
            &&& result is Some <==> i128::MIN <= scaled <= i128::MAX
            &&& result matches Some(n) ==> n == scaled
        },
        decimals > 18 ==> {
            let scale = pow(10, (decimals - 18) as nat);
            &&& result is Some <==> scale <= i128::MAX
            &&& result matches Some(n) ==> {
                &&& magnitude(n as int) * scale <= magnitude(price as int)
                &&& magnitude(price as int) < (magnitude(n as int) + 1) * scale
                &&& n > 0 ==> price > 0
                &&& n < 0 ==> price < 0
            }
        },
{
    law_normalization_fits(price, decimals);
    if decimals > 18 {
        law_normalization_truncates(price as int, decimals);
    }
}

/// A quotient of an `i128` fits an `i128`.
proof fn lemma_quotient_fits(a: i128, b: int)
    requires
        b > 0,
    ensures
        fits(quotient(a as int, b)),
{
    let n = magnitude(a as int);
    assert(0 <= n / b <= n) by (nonlinear_arith)
        requires
            b > 0,
            n >= 0,
    ;
}

/// Whether a move counts as too large is decided by integers alone: ten thousand times the move
/// against the threshold times the price before it. It is `None` exactly where that product leaves
/// the 128 bits while there is a threshold to hold it against.
pub proof fn law_checked_exceeds(price: i128, last: i128, max_bps: u32, result: Option<bool>)
    requires
        price > 0,
        last > 0,
        call_ensures(checked_exceeds, (price, last, max_bps), result),
    ensures
        result is None <==> max_bps > 0 && magnitude(price - last) * 10_000 > i128::MAX,
        result matches Some(exceeded) ==> (exceeded <==> magnitude(price - last) * 10_000 > max_bps
            * last),
{
}

/// The sum of some numbers.
pub open spec fn total(terms: Seq<int>) -> int
    decreases terms.len(),
{
    if terms.len() == 0 {
        0
    } else {
        total(terms.drop_last()) + terms.last()
    }
}

/// Whether `spans` are the times from each snapshot to the next one, none where that goes back,
/// `terms` the prices times those, and `prices` all prices.
pub open spec fn laid_out(
    history: Seq<PriceSnapshot>,
    spans: Seq<int>,
    terms: Seq<int>,
    prices: Seq<int>,
) -> bool {
    &&& spans.len() + 1 == history.len()
    &&& terms.len() + 1 == history.len()
    &&& prices.len() == history.len()
    &&& forall|i: int|
        0 <= i < spans.len() ==> {
            let passed = history[i + 1].timestamp - history[i].timestamp;
            &&& #[trigger] spans[i] == (if passed > 0 {
                passed
            } else {
                0
            })
        }
    &&& forall|i: int| 0 <= i < terms.len() ==> #[trigger] terms[i] == history[i].price * spans[i]
    &&& forall|i: int| 0 <= i < prices.len() ==> #[trigger] prices[i] == history[i].price
}

/// The sums behind an average are those of the spans, of the terms and of the prices.
proof fn lemma_laid_out(
    history: Seq<PriceSnapshot>,
    spans: Seq<int>,
    terms: Seq<int>,
    prices: Seq<int>,
    n: nat,
)
    requires
        laid_out(history, spans, terms, prices),
        n <= prices.len(),
    ensures
        n < history.len() ==> total_time(history, n) == total(spans.take(n as int)),
        n < history.len() ==> weighted_sum(history, n) == total(terms.take(n as int)),
        price_sum(history, n) == total(prices.take(n as int)),
    decreases n,
{
    if n > 0 {
        let m = (n - 1) as nat;
        lemma_laid_out(history, spans, terms, prices, m);
        assert(prices.take(n as int).drop_last() =~= prices.take(m as int));
        assert(prices[m as int] == history[m as int].price);
        if n < history.len() {
            assert(spans.take(n as int).drop_last() =~= spans.take(m as int));
            assert(terms.take(n as int).drop_last() =~= terms.take(m as int));
            assert(spans[m as int] == duration(history, m as int));
            assert(terms[m as int] == history[m as int].price * spans[m as int]);
        }
    }
}

/// A quotient times its divisor is the dividend, but for a remainder that is smaller than the
/// divisor and has the dividend's sign.
proof fn lemma_quotient_remainder(a: int, b: int)
    requires
        b > 0,
    ensures
        magnitude(quotient(a, b)) * b <= magnitude(a) < (magnitude(quotient(a, b)) + 1) * b,
        quotient(a, b) > 0 ==> a > 0,
        quotient(a, b) < 0 ==> a < 0,
{
    let n = magnitude(a);
    assert((n / b) * b <= n < (n / b + 1) * b && n / b >= 0) by (nonlinear_arith)
        requires
            b > 0,
            n >= 0,
    ;
    assert(n == 0 ==> n / b == 0) by (nonlinear_arith)
        requires
            b > 0,
    ;
}

/// The average of a history is the sum of its prices times the times for which they stayed,
/// divided by the time that passed; where none passed, it is the sum of all prices divided by
/// their number. Division rounds toward zero.
pub proof fn law_average_divides_sums(
    history: Seq<PriceSnapshot>,
    spans: Seq<int>,
    terms: Seq<int>,
    prices: Seq<int>,
)
    requires
        history.len() >= 2,
        laid_out(history, spans, terms, prices),
    ensures
        total(spans) >= 0,
        total(spans) > 0 ==> {
            let (q, s, t) = (twap(history), total(terms), total(spans));
            &&& magnitude(q) * t <= magnitude(s) < (magnitude(q) + 1) * t
            &&& q > 0 ==> s > 0
            &&& q < 0 ==> s < 0
            &&& s >= 0 ==> q * t <= s < (q + 1) * t
        },
        total(spans) == 0 ==> {
            let (q, s, n) = (twap(history), total(prices), history.len() as int);
            &&& magnitude(q) * n <= magnitude(s) < (magnitude(q) + 1) * n
            &&& q > 0 ==> s > 0
            &&& q < 0 ==> s < 0
            &&& s >= 0 ==> q * n <= s < (q + 1) * n
        },
{
    let n = (history.len() - 1) as nat;
    lemma_laid_out(history, spans, terms, prices, n);
    lemma_laid_out(history, spans, terms, prices, history.len());
    assert(spans.take(n as int) =~= spans);
    assert(terms.take(n as int) =~= terms);
    assert(prices.take(history.len() as int) =~= prices);
    lemma_total_time_nonneg(history, n);
    if total(spans) > 0 {
        lemma_quotient_remainder(total(terms), total(spans));
    } else {
        lemma_quotient_remainder(total(prices), history.len() as int);
    }
}

/// The average can be computed exactly where no number on the way leaves its bits: each term and
/// each sum of the first terms 128 bits, each sum of the first spans 64 bits, and, where no time
/// passed, each sum of the first prices 128 bits.
pub proof fn law_average_fits(
    history: Seq<PriceSnapshot>,
    spans: Seq<int>,
    terms: Seq<int>,
    prices: Seq<int>,
)
    requires
        history.len() >= 2,
        laid_out(history, spans, terms, prices),
    ensures
        averageable(history) <==> {
            &&& forall|i: int|
                0 <= i < terms.len() ==> {
                    &&& i128::MIN <= #[trigger] terms[i] <= i128::MAX
                    &&& i128::MIN <= total(terms.take(i + 1)) <= i128::MAX
                    &&& total(spans.take(i + 1)) <= u64::MAX
                }
            &&& total(spans) == 0 ==> forall|n: int|
                0 <= n <= prices.len() ==> i128::MIN <= total(#[trigger] prices.take(n))
                    <= i128::MAX
        },
{
    let len = (history.len() - 1) as nat;
    lemma_laid_out(history, spans, terms, prices, len);
    assert(spans.take(len as int) =~= spans);
    if averageable(history) {
        assert forall|i: int| 0 <= i < terms.len() implies {
            &&& i128::MIN <= #[trigger] terms[i] <= i128::MAX
            &&& i128::MIN <= total(terms.take(i + 1)) <= i128::MAX
            &&& total(spans.take(i + 1)) <= u64::MAX
        } by {
            lemma_laid_out(history, spans, terms, prices, (i + 1) as nat);
            assert(spans[i] == duration(history, i as nat as int));
        }
        if total(spans) == 0 {
            assert forall|n: int| 0 <= n <= prices.len() implies i128::MIN <= total(
                #[trigger] prices.take(n),
            ) <= i128::MAX by {
                lemma_laid_out(history, spans, terms, prices, n as nat);
                assert(fits(price_sum(history, n as nat)));
            }
        }
    } else {
        if forall|i: int|
            0 <= i < terms.len() ==> {
                &&& i128::MIN <= #[trigger] terms[i] <= i128::MAX
                &&& i128::MIN <= total(terms.take(i + 1)) <= i128::MAX
                &&& total(spans.take(i + 1)) <= u64::MAX
            } {
            assert forall|i: nat| i < len implies {
                &&& fits(history[i as int].price * #[trigger] duration(history, i as int))
                &&& fits(weighted_sum(history, i + 1))
                &&& total_time(history, i + 1) <= u64::MAX
            } by {
                lemma_laid_out(history, spans, terms, prices, i + 1);
                assert(spans[i as int] == duration(history, i as int));
                assert(i128::MIN <= terms[i as int] <= i128::MAX);
            }
            if total(spans) == 0 && (forall|n: int|
                0 <= n <= prices.len() ==> i128::MIN <= total(#[trigger] prices.take(n))
                    <= i128::MAX) {
                assert forall|n: nat| n <= history.len() implies fits(
                    #[trigger] price_sum(history, n),
                ) by {
                    lemma_laid_out(history, spans, terms, prices, n);
                    assert(total(prices.take(n as int)) <= i128::MAX);
                }
            }
        }
    }
}

} // verus!
