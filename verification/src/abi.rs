//! The ABI encoding of price feed messages.
//!
//! Both messages are static: every field takes one 32-byte big-endian word.

use alloy_sol_types::private::primitives::{BigIntConversionError, I256, U256};
use alloy_sol_types::{sol_data, Error as SolError, SolType};
use vstd::arithmetic::div_mod::{
    lemma_div_denominator, lemma_mod_add_multiples_vanish, lemma_mod_breakdown, lemma_small_mod,
};
use vstd::arithmetic::power::{
    lemma_pow0, lemma_pow1, lemma_pow_adds, lemma_pow_multiplies, lemma_pow_positive, pow,
};
use vstd::arithmetic::power2::pow2;
use vstd::prelude::*;

use crate::error::Error;

verus! {

/// The number that `bytes` spells, most significant byte first.
pub open spec fn be_value(bytes: Seq<u8>) -> nat
    decreases bytes.len(),
{
    if bytes.len() == 0 {
        0
    } else {
        be_value(bytes.drop_last()) * 256 + bytes.last() as nat
    }
}

/// The `len` least significant bytes of `n`, most significant byte first.
pub open spec fn be_bytes(n: nat, len: nat) -> Seq<u8>
    decreases len,
{
    if len == 0 {
        Seq::empty()
    } else {
        be_bytes(n / 256, (len - 1) as nat).push((n % 256) as u8)
    }
}

/// The word that holds `value`, in two's complement where it is negative.
pub open spec fn word(value: int) -> Seq<u8> {
    be_bytes((value % pow2(256) as int) as nat, 32)
}

/// The signed number that a 32-byte word holds in two's complement.
pub open spec fn signed_value(bytes: Seq<u8>) -> int {
    if be_value(bytes) < pow2(255) {
        be_value(bytes) as int
    } else {
        be_value(bytes) - pow2(256)
    }
}

/// Solidity's `bytes32`.
type Bytes32 = sol_data::FixedBytes<32>;

/// Solidity's `int256`.
type Int256 = sol_data::Int<256>;

/// Solidity's `uint256`.
type Uint256 = sol_data::Uint<256>;

/// Solidity's `uint8`.
type Uint8 = sol_data::Uint<8>;

/// What `alloy_sol_types` reports of bytes that it cannot decode.
#[verifier::external_type_specification]
#[verifier::external_body]
pub struct ExSolError(SolError);

/// What `alloy_primitives` reports of a number out of range.
#[verifier::external_type_specification]
#[verifier::external_body]
pub struct ExBigIntConversionError(
    BigIntConversionError,
);

/// Whether `data` is the ABI encoding of some price feed input: four words, of which the last
/// holds a `uint8`.
pub open spec fn is_feed_input(data: Seq<u8>) -> bool {
    &&& data.len() == 128
    &&& forall|i: int| 96 <= i < 127 ==> data[i] == 0
}

/// `SolType::abi_decode` of `(bytes32, int256, uint256, uint8)`, with validation on.
///
/// It succeeds on exactly the bytes of `is_feed_input`: it takes four words, checks that the last
/// one fits a `uint8`, and refuses data that encoding the result again would not give back. The
/// numbers are handed out as the words that hold them.
#[verifier::external_body]
fn sol_decode_feed_input(data: &[u8]) -> (result: Result<
    ([u8; 32], [u8; 32], [u8; 32], u8),
    SolError,
>)
    ensures
        result is Ok <==> is_feed_input(data@),
        result matches Ok(fields) ==> {
            &&& fields.0@ == data@.subrange(0, 32)
            &&& fields.1@ == data@.subrange(32, 64)
            &&& fields.2@ == data@.subrange(64, 96)
            &&& fields.3 == data@[127]
        },
{
    match <(Bytes32, Int256, Uint256, Uint8) as SolType>::abi_decode(data, true) {
        Ok((asset, price, timestamp, decimals)) => {
            Ok((asset.0, price.to_be_bytes(), timestamp.to_be_bytes(), decimals))
        },
        Err(error) => Err(error),
    }
}

/// `i128::try_from` of an `I256`, here given as the word that holds it.
///
/// It succeeds on exactly the numbers that an `i128` can hold, and keeps them.
#[verifier::external_body]
fn i256_to_i128(bytes: [u8; 32]) -> (result: Result<
    i128,
    BigIntConversionError,
>)
    ensures
        result is Ok <==> i128::MIN <= signed_value(bytes@) <= i128::MAX,
        result matches Ok(value) ==> value == signed_value(bytes@),
{
    i128::try_from(I256::from_be_bytes(bytes))
}

/// `Uint::to::<u64>` of a `U256`, here given as the word that holds it.
///
/// It panics on a number that a `u64` cannot hold, and keeps the others.
#[verifier::external_body]
fn u256_to_u64(bytes: [u8; 32]) -> (value: u64)
    requires
        be_value(bytes@) <= u64::MAX,
    ensures
        value == be_value(bytes@),
{
    U256::from_be_bytes(bytes).to::<u64>()
}

/// The words of a price feed output, one after the other.
pub open spec fn output_words(
    asset: Seq<u8>,
    price: i128,
    timestamp: u64,
    decimals: u8,
    queried_at: u64,
    twap: i128,
    normalized: i128,
) -> Seq<u8> {
    asset + word(price as int) + word(timestamp as int) + word(decimals as int) + word(
        queried_at as int,
    ) + word(twap as int) + word(normalized as int)
}

/// `SolType::abi_encode` of `(bytes32, int256, uint256, uint8, uint256, int256, int256)`.
///
/// It gives the fields' words, one after the other. `I256::try_from` of an `i128` and `U256::from`
/// of a `u64` succeed on every number.
#[verifier::external_body]
fn sol_encode_feed_output(
    asset: [u8; 32],
    price: i128,
    timestamp: u64,
    decimals: u8,
    queried_at: u64,
    twap: i128,
    normalized: i128,
) -> (data: Vec<u8>)
    ensures
        data@ == output_words(
            asset@,
            price,
            timestamp,
            decimals,
            queried_at,
            twap,
            normalized,
        ),
{
    <(Bytes32, Int256, Uint256, Uint8, Uint256, Int256, Int256) as SolType>::abi_encode(
        &(
            asset,
            I256::try_from(price).unwrap_or_default(),
            U256::from(timestamp),
            decimals,
            U256::from(queried_at),
            I256::try_from(twap).unwrap_or_default(),
            I256::try_from(normalized).unwrap_or_default(),
        ),
    )
}

/// A price update as an updater submits it. The numbers are words: they can be larger than what
/// the bridge works with.
pub struct PriceFeedInput {
    /// Asset identifier.
    pub asset: [u8; 32],
    /// Raw price in the feed's native decimals, an `int256`.
    pub price: [u8; 32],
    /// Unix timestamp of the price observation, a `uint256`.
    pub timestamp: [u8; 32],
    /// Decimal precision of the price.
    pub decimals: u8,
}

/// What a `PriceFeedInput` says.
#[verifier::ext_equal]
pub struct PriceFeedInputView {
    pub asset: Seq<u8>,
    pub price: int,
    pub timestamp: nat,
    pub decimals: u8,
}

impl View for PriceFeedInput {
    type V = PriceFeedInputView;

    open spec fn view(&self) -> PriceFeedInputView {
        PriceFeedInputView {
            asset: self.asset@,
            price: signed_value(self.price@),
            timestamp: be_value(self.timestamp@),
            decimals: self.decimals,
        }
    }
}

/// The price update that `data` encodes.
pub open spec fn decoded(data: Seq<u8>) -> Option<PriceFeedInputView> {
    if is_feed_input(data) {
        Some(
            PriceFeedInputView {
                asset: data.subrange(0, 32),
                price: signed_value(data.subrange(32, 64)),
                timestamp: be_value(data.subrange(64, 96)),
                decimals: data[127],
            },
        )
    } else {
        None
    }
}

/// The ABI encoding of a price update.
pub open spec fn encoded(input: PriceFeedInputView) -> Seq<u8> {
    input.asset + word(input.price) + word(input.timestamp as int) + word(input.decimals as int)
}

/// `be_value` is below the power of 256 that its length allows.
proof fn lemma_be_value_bound(bytes: Seq<u8>)
    ensures
        be_value(bytes) < pow(256, bytes.len()),
    decreases bytes.len(),
{
    if bytes.len() == 0 {
        lemma_pow0(256);
    } else {
        lemma_be_value_bound(bytes.drop_last());
        lemma_pow1(256);
        lemma_pow_adds(256, (bytes.len() - 1) as nat, 1);
    }
}

/// `be_value` of bytes behind bytes.
proof fn lemma_be_value_concat(high: Seq<u8>, low: Seq<u8>)
    ensures
        be_value(high + low) == be_value(high) * pow(256, low.len()) + be_value(low),
    decreases low.len(),
{
    if low.len() == 0 {
        assert(high + low =~= high);
        lemma_pow0(256);
    } else {
        let all = high + low;
        assert(all.drop_last() =~= high + low.drop_last());
        lemma_be_value_concat(high, low.drop_last());
        lemma_pow1(256);
        lemma_pow_adds(256, (low.len() - 1) as nat, 1);
        let h = be_value(high) as int;
        let p = pow(256, (low.len() - 1) as nat);
        assert((h * p) * 256 == h * (p * 256)) by (nonlinear_arith);
    }
}

/// `be_value` is zero for zeros alone.
proof fn lemma_be_value_zero(bytes: Seq<u8>)
    ensures
        be_value(bytes) == 0 <==> (forall|i: int| 0 <= i < bytes.len() ==> bytes[i] == 0),
    decreases bytes.len(),
{
    if bytes.len() > 0 {
        let rest = bytes.drop_last();
        lemma_be_value_zero(rest);
        if be_value(bytes) == 0 {
            assert forall|i: int| 0 <= i < bytes.len() implies bytes[i] == 0 by {
                if i < rest.len() {
                    assert(rest[i] == bytes[i]);
                }
            }
        }
        if forall|i: int| 0 <= i < bytes.len() ==> bytes[i] == 0 {
            assert forall|i: int| 0 <= i < rest.len() implies rest[i] == 0 by {
                assert(rest[i] == bytes[i]);
            }
        }
    }
}

/// Whether a word's number fits a `u64` shows in its first 24 bytes.
proof fn lemma_fits_u64(bytes: Seq<u8>)
    requires
        bytes.len() == 32,
    ensures
        be_value(bytes) <= u64::MAX <==> (forall|i: int| 0 <= i < 24 ==> bytes[i] == 0),
{
    let high = bytes.take(24);
    let low = bytes.skip(24);
    assert(bytes =~= high + low);
    lemma_be_value_concat(high, low);
    lemma_be_value_bound(low);
    lemma_be_value_zero(high);
    assert(pow(256, 8) == 0x1_0000_0000_0000_0000) by {
        reveal(pow);
        reveal_with_fuel(pow, 9);
    }
    assert(forall|i: int| 0 <= i < 24 ==> high[i] == bytes[i]);
    if be_value(high) > 0 {
        let h = be_value(high) as int;
        assert(h * 0x1_0000_0000_0000_0000 >= 0x1_0000_0000_0000_0000) by (nonlinear_arith)
            requires
                h > 0,
        ;
    }
}

impl PriceFeedInput {
    /// Decodes a price update.
    pub fn abi_decode(data: &[u8]) -> (result: Result<PriceFeedInput, Error>)
        ensures
            result matches Ok(input) ==> decoded(data@) == Some(input@),
            result matches Err(error) ==> error == Error::Decode && decoded(data@) is None,
    {
        match sol_decode_feed_input(data) {
            Ok((asset, price, timestamp, decimals)) => {
                Ok(PriceFeedInput { asset, price, timestamp, decimals })
            },
            Err(_) => Err(Error::Decode),
        }
    }

    /// The price, where it fits an `i128`.
    pub fn price(&self) -> (result: Result<i128, Error>)
        ensures
            result matches Ok(price) ==> price == self@.price,
            result matches Err(error) ==> {
                &&& error == Error::InvalidPrice
                &&& !(i128::MIN <= self@.price <= i128::MAX)
            },
    {
        match i256_to_i128(self.price) {
            Ok(price) => Ok(price),
            Err(_) => Err(Error::InvalidPrice),
        }
    }

    /// The timestamp, where it fits a `u64`.
    pub fn timestamp(&self) -> (result: Option<u64>)
        ensures
            result is Some <==> self@.timestamp <= u64::MAX,
            result matches Some(timestamp) ==> timestamp == self@.timestamp,
    {
        proof {
            lemma_fits_u64(self.timestamp@);
        }
        let mut i: usize = 0;
        while i < 24
            invariant
                i <= 24,
                forall|j: int| 0 <= j < i ==> self.timestamp@[j] == 0,
                self@.timestamp <= u64::MAX <==> (forall|j: int|
                    0 <= j < 24 ==> self.timestamp@[j] == 0),
            decreases 24 - i,
        {
            if self.timestamp[i] != 0 {
                return None;
            }
            i = i + 1;
        }
        Some(u256_to_u64(self.timestamp))
    }
}

/// A price as it is handed out to EVM-compatible tooling.
pub struct PriceFeedOutput {
    /// Asset identifier.
    pub asset: [u8; 32],
    /// Raw stored price.
    pub price: i128,
    /// Price observation timestamp.
    pub timestamp: u64,
    /// Feed decimal precision.
    pub decimals: u8,
    /// Ledger timestamp at query time.
    pub queried_at: u64,
    /// Time-weighted average price.
    pub twap: i128,
    /// Price scaled to 18 decimals.
    pub normalized: i128,
}

impl PriceFeedOutput {
    /// Encodes the output.
    pub fn abi_encode(&self) -> (data: Vec<u8>)
        ensures
            data@ == output_words(
                self.asset@,
                self.price,
                self.timestamp,
                self.decimals,
                self.queried_at,
                self.twap,
                self.normalized,
            ),
    {
        sol_encode_feed_output(
            self.asset,
            self.price,
            self.timestamp,
            self.decimals,
            self.queried_at,
            self.twap,
            self.normalized,
        )
    }
}

/// A 256-bit word has 32 bytes.
proof fn lemma_word_size()
    ensures
        pow(256, 32) == pow2(256),
        pow2(256) == 2 * pow2(255),
        pow2(255) > u64::MAX,
        pow2(255) > i128::MAX,
{
    lemma_pow_multiplies(2, 8, 32);
    lemma_pow1(2);
    lemma_pow_adds(2, 1, 1);
    assert(pow(2, 2) == 4);
    lemma_pow_adds(2, 2, 2);
    assert(pow(2, 4) == 16);
    lemma_pow_adds(2, 4, 4);
    assert(pow(2, 8) == 256);
    lemma_pow_adds(2, 8, 8);
    assert(pow(2, 16) == 0x1_0000);
    lemma_pow_adds(2, 16, 16);
    assert(pow(2, 32) == 0x1_0000_0000);
    lemma_pow_adds(2, 32, 32);
    assert(pow(2, 64) == 0x1_0000_0000_0000_0000);
    lemma_pow_adds(2, 64, 64);
    lemma_pow_adds(2, 1, 255);
    lemma_pow_adds(2, 128, 127);
    lemma_pow_positive(2, 127);
    let p = pow(2, 127);
    assert(pow(2, 128) == 0x1_0000_0000_0000_0000 * 0x1_0000_0000_0000_0000);
    assert(pow(2, 128) * p >= pow(2, 128)) by (nonlinear_arith)
        requires
            p > 0,
            pow(2, 128) > 0,
    ;
}

/// Writing a number and reading it back keeps what the bytes can hold.
proof fn lemma_be_value_of_be_bytes(n: nat, len: nat)
    ensures
        be_bytes(n, len).len() == len,
        be_value(be_bytes(n, len)) == n % pow(256, len) as nat,
    decreases len,
{
    lemma_pow_positive(256, len);
    if len == 0 {
        lemma_pow0(256);
    } else {
        let bytes = be_bytes(n, len);
        let rest = be_bytes(n / 256, (len - 1) as nat);
        lemma_be_value_of_be_bytes(n / 256, (len - 1) as nat);
        assert(bytes.drop_last() =~= rest);
        lemma_pow1(256);
        lemma_pow_adds(256, 1, (len - 1) as nat);
        lemma_pow_positive(256, (len - 1) as nat);
        lemma_mod_breakdown(n as int, 256, pow(256, (len - 1) as nat));
    }
}

/// Reading bytes and writing the number gives the bytes back.
proof fn lemma_be_bytes_of_be_value(bytes: Seq<u8>)
    ensures
        be_bytes(be_value(bytes), bytes.len()) == bytes,
    decreases bytes.len(),
{
    if bytes.len() > 0 {
        lemma_be_bytes_of_be_value(bytes.drop_last());
        let n = be_value(bytes);
        assert(n / 256 == be_value(bytes.drop_last()));
        assert(n % 256 == bytes.last());
        assert(be_bytes(n, bytes.len()) =~= bytes.drop_last().push(bytes.last()));
        assert(bytes =~= bytes.drop_last().push(bytes.last()));
    } else {
        assert(be_bytes(be_value(bytes), bytes.len()) =~= bytes);
    }
}

/// A word gives back the signed number that was written into it.
pub proof fn law_word_keeps_signed(value: int)
    requires
        -pow2(255) <= value < pow2(255),
    ensures
        word(value).len() == 32,
        signed_value(word(value)) == value,
{
    lemma_word_size();
    let m = pow2(256) as int;
    lemma_be_value_of_be_bytes((value % m) as nat, 32);
    lemma_small_mod((value % m) as nat, m as nat);
    if value >= 0 {
        lemma_small_mod(value as nat, m as nat);
    } else {
        lemma_small_mod((value + m) as nat, m as nat);
        lemma_mod_add_multiples_vanish(value, m);
    }
}

/// A word gives back the unsigned number that was written into it.
pub proof fn law_word_keeps_unsigned(value: nat)
    requires
        value < pow2(256),
    ensures
        word(value as int).len() == 32,
        be_value(word(value as int)) == value,
{
    lemma_word_size();
    lemma_small_mod(value, pow2(256));
    lemma_be_value_of_be_bytes(value, 32);
}

/// A word of a number below 256 is zeros and that number.
proof fn lemma_word_of_byte(value: u8)
    ensures
        word(value as int).len() == 32,
        word(value as int)[31] == value,
        forall|i: int| 0 <= i < 31 ==> word(value as int)[i] == 0,
{
    lemma_word_size();
    law_word_keeps_unsigned(value as nat);
    let bytes = word(value as int);
    let rest = bytes.drop_last();
    assert(be_value(rest) * 256 + bytes.last() == value);
    assert(be_value(rest) == 0);
    lemma_be_value_zero(rest);
    assert(forall|i: int| 0 <= i < 31 ==> rest[i] == bytes[i]);
}

/// Decoding gives back every price update that was encoded.
pub proof fn law_decoding_inverts_encoding(input: PriceFeedInputView)
    requires
        input.asset.len() == 32,
        -pow2(255) <= input.price < pow2(255),
        input.timestamp < pow2(256),
    ensures
        encoded(input).len() == 128,
        decoded(encoded(input)) == Some(input),
{
    law_word_keeps_signed(input.price);
    law_word_keeps_unsigned(input.timestamp);
    lemma_word_of_byte(input.decimals);
    let data = encoded(input);
    let last = word(input.decimals as int);
    assert(forall|i: int| 96 <= i < 128 ==> data[i] == last[i - 96]);
    assert(data.subrange(0, 32) =~= input.asset);
    assert(data.subrange(32, 64) =~= word(input.price));
    assert(data.subrange(64, 96) =~= word(input.timestamp as int));
}

/// Only one message decodes to a price update: its encoding.
pub proof fn law_encoding_inverts_decoding(data: Seq<u8>)
    requires
        decoded(data) is Some,
    ensures
        encoded(decoded(data)->0) == data,
{
    lemma_word_size();
    let price = data.subrange(32, 64);
    let timestamp = data.subrange(64, 96);
    let last = data.subrange(96, 128);
    lemma_be_value_bound(price);
    lemma_be_value_bound(timestamp);
    lemma_be_bytes_of_be_value(price);
    lemma_be_bytes_of_be_value(timestamp);
    let m = pow2(256) as int;
    lemma_small_mod(be_value(price), m as nat);
    lemma_small_mod(be_value(timestamp), m as nat);
    if be_value(price) >= pow2(255) {
        lemma_mod_add_multiples_vanish(signed_value(price), m);
    }
    lemma_word_of_byte(data[127]);
    assert(word(data[127] as int) =~= last);
    assert(data =~= data.subrange(0, 32) + price + timestamp + last);
}

/// An encoded output has seven words, from which each field can be read back.
pub proof fn law_output_reads_back(
    asset: Seq<u8>,
    price: i128,
    timestamp: u64,
    decimals: u8,
    queried_at: u64,
    twap: i128,
    normalized: i128,
)
    requires
        asset.len() == 32,
    ensures
        ({
            let data = output_words(
                asset,
                price,
                timestamp,
                decimals,
                queried_at,
                twap,
                normalized,
            );
            &&& data.len() == 224
            &&& data.subrange(0, 32) == asset
            &&& signed_value(data.subrange(32, 64)) == price
            &&& be_value(data.subrange(64, 96)) == timestamp
            &&& be_value(data.subrange(96, 128)) == decimals
            &&& be_value(data.subrange(128, 160)) == queried_at
            &&& signed_value(data.subrange(160, 192)) == twap
            &&& signed_value(data.subrange(192, 224)) == normalized
        }),
{
    lemma_word_size();
    law_word_keeps_signed(price as int);
    law_word_keeps_unsigned(timestamp as nat);
    law_word_keeps_unsigned(decimals as nat);
    law_word_keeps_unsigned(queried_at as nat);
    law_word_keeps_signed(twap as int);
    law_word_keeps_signed(normalized as int);
    let data = output_words(asset, price, timestamp, decimals, queried_at, twap, normalized);
    assert(data.subrange(0, 32) =~= asset);
    assert(data.subrange(32, 64) =~= word(price as int));
    assert(data.subrange(64, 96) =~= word(timestamp as int));
    assert(data.subrange(96, 128) =~= word(decimals as int));
    assert(data.subrange(128, 160) =~= word(queried_at as int));
    assert(data.subrange(160, 192) =~= word(twap as int));
    assert(data.subrange(192, 224) =~= word(normalized as int));
}

/// A number read from bytes has those bytes as its digits to the base of 256, the first byte being
/// the most significant one.
pub proof fn law_bytes_are_digits(bytes: Seq<u8>, i: int)
    requires
        0 <= i < bytes.len(),
    ensures
        0 <= be_value(bytes) < pow(256, bytes.len()),
        bytes[i] == be_value(bytes) as int / pow(256, (bytes.len() - 1 - i) as nat) % 256,
    decreases bytes.len(),
{
    lemma_be_value_bound(bytes);
    let rest = bytes.drop_last();
    let n = be_value(bytes) as int;
    assert(n / 256 == be_value(rest));
    if i == bytes.len() - 1 {
        lemma_pow0(256);
        assert(n / 1 == n);
    } else {
        let k = (bytes.len() - 1 - i) as nat;
        law_bytes_are_digits(rest, i);
        assert(rest[i] == bytes[i]);
        lemma_pow1(256);
        lemma_pow_adds(256, 1, (k - 1) as nat);
        lemma_pow_positive(256, (k - 1) as nat);
        lemma_div_denominator(n, 256, pow(256, (k - 1) as nat));
    }
}

/// The signed number of a word is the unsigned one, less 256 to the power of 32 where the first
/// bit is set.
pub proof fn law_first_bit_is_the_sign(bytes: Seq<u8>)
    requires
        bytes.len() == 32,
    ensures
        signed_value(bytes) == (if bytes[0] < 128 {
            be_value(bytes) as int
        } else {
            be_value(bytes) - pow(256, 32)
        }),
{
    lemma_word_size();
    law_bytes_are_digits(bytes, 0);
    let n = be_value(bytes) as int;
    let unit = pow(256, 31);
    lemma_pow_positive(256, 31);
    lemma_pow1(256);
    lemma_pow_adds(256, 31, 1);
    assert(pow2(255) == 128 * unit);
    assert(0 <= n / unit < 256) by (nonlinear_arith)
        requires
            unit > 0,
            0 <= n < unit * 256,
    ;
    assert(n / unit < 128 <==> n < 128 * unit) by (nonlinear_arith)
        requires
            unit > 0,
            0 <= n,
    ;
}

/// Decoding succeeds on exactly the messages of four words whose last one holds a byte, and gives
/// the first word as it is, the second as a signed and the third as an unsigned number, and the
/// last byte.
pub proof fn law_abi_decode(data: &[u8], result: Result<PriceFeedInput, Error>)
    requires
        call_ensures(PriceFeedInput::abi_decode, (data,), result),
    ensures
        result is Ok <==> data@.len() == 128 && forall|i: int| 96 <= i < 127 ==> data@[i] == 0,
        result matches Ok(input) ==> {
            &&& input.asset@ == data@.subrange(0, 32)
            &&& signed_value(input.price@) == signed_value(data@.subrange(32, 64))
            &&& be_value(input.timestamp@) == be_value(data@.subrange(64, 96))
            &&& input.decimals == data@[127]
        },
        result matches Err(error) ==> error == Error::Decode,
{
}

/// The numbers of an update are handed out unchanged where they fit, and else not at all.
pub proof fn law_update_numbers(
    input: &PriceFeedInput,
    price: Result<i128, Error>,
    timestamp: Option<u64>,
)
    requires
        call_ensures(PriceFeedInput::price, (input,), price),
        call_ensures(PriceFeedInput::timestamp, (input,), timestamp),
    ensures
        price == (if i128::MIN <= signed_value(input.price@) <= i128::MAX {
            Ok(signed_value(input.price@) as i128)
        } else {
            Err(Error::InvalidPrice)
        }),
        timestamp == (if be_value(input.timestamp@) <= u64::MAX {
            Some(be_value(input.timestamp@) as u64)
        } else {
            None
        }),
{
}

/// From an encoded output each field can be read back.
pub proof fn law_abi_encode(output: &PriceFeedOutput, data: Vec<u8>)
    requires
        call_ensures(PriceFeedOutput::abi_encode, (output,), data),
    ensures
        data@.len() == 224,
        data@.subrange(0, 32) == output.asset@,
        signed_value(data@.subrange(32, 64)) == output.price,
        be_value(data@.subrange(64, 96)) == output.timestamp,
        be_value(data@.subrange(96, 128)) == output.decimals,
        be_value(data@.subrange(128, 160)) == output.queried_at,
        signed_value(data@.subrange(160, 192)) == output.twap,
        signed_value(data@.subrange(192, 224)) == output.normalized,
{
    law_output_reads_back(
        output.asset@,
        output.price,
        output.timestamp,
        output.decimals,
        output.queried_at,
        output.twap,
        output.normalized,
    );
}

} // verus!
