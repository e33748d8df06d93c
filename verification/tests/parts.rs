use alloy_sol_types::private::primitives::{I256, U256};
use alloy_sol_types::{sol_data, SolType};
use pricebridge::abi::{PriceFeedInput, PriceFeedOutput};
use pricebridge::arith::{checked_exceeds, checked_normalize, checked_twap};
use pricebridge::bridge::PriceBridge;
use pricebridge::error::Error;
use pricebridge::history::{History, PriceSnapshot};
use pricebridge::table::Table;

type FeedInput = (
    sol_data::FixedBytes<32>,
    sol_data::Int<256>,
    sol_data::Uint<256>,
    sol_data::Uint<8>,
);

fn history_of(items: &[(i128, u64)]) -> History {
    let host = soroban_sdk::Env::default();
    let mut history = History::new(&host);
    for (price, timestamp) in items {
        history = history.push_back(PriceSnapshot { price: *price, timestamp: *timestamp });
    }
    history
}

#[test]
fn decoding_reads_the_encoded_fields() {
    for (price, timestamp, decimals) in [
        (0i128, 0u64, 0u8),
        (1, 1, 1),
        (-1, 255, 18),
        (-300, 256, 19),
        (i128::MAX, u64::MAX, 255),
        (i128::MIN, 1 << 56, 8),
    ] {
        let asset = [7u8; 32];
        let data = FeedInput::abi_encode(&(
            asset,
            I256::try_from(price).unwrap(),
            U256::from(timestamp),
            decimals,
        ));
        assert_eq!(data.len(), 128);
        let input = PriceFeedInput::abi_decode(&data).ok().unwrap();
        assert_eq!(input.asset, asset);
        assert_eq!(input.price(), Ok(price));
        assert_eq!(input.timestamp(), Some(timestamp));
        assert_eq!(input.decimals, decimals);
    }
}

#[test]
fn decoding_refuses_other_messages() {
    let good = vec![0u8; 128];
    assert!(PriceFeedInput::abi_decode(&good).is_ok());
    for len in [0usize, 31, 32, 96, 127, 129, 160] {
        let data = vec![0u8; len];
        assert_eq!(PriceFeedInput::abi_decode(&data).err(), Some(Error::Decode));
    }
    for i in 96..127usize {
        let mut data = vec![0u8; 128];
        data[i] = 1;
        assert_eq!(PriceFeedInput::abi_decode(&data).err(), Some(Error::Decode));
    }
}

#[test]
fn words_beyond_the_numbers_are_told_apart() {
    let mut data = vec![0u8; 128];
    data[87] = 1;
    data[47] = 1;
    let input = PriceFeedInput::abi_decode(&data).ok().unwrap();
    assert_eq!(input.timestamp(), None);
    assert_eq!(input.price(), Err(Error::InvalidPrice));

    let mut data = vec![0u8; 128];
    data[88] = 1;
    data[48] = 0x7f;
    let input = PriceFeedInput::abi_decode(&data).ok().unwrap();
    assert_eq!(input.timestamp(), Some(1 << 56));
    assert_eq!(input.price(), Ok(0x7f << 120));
}

#[test]
fn output_is_seven_words() {
    let output = PriceFeedOutput {
        asset: [9u8; 32],
        price: -2,
        timestamp: 0x0102,
        decimals: 18,
        queried_at: u64::MAX,
        twap: 5,
        normalized: i128::MIN,
    };
    let data = output.abi_encode();
    assert_eq!(data.len(), 224);
    assert_eq!(&data[0..32], &[9u8; 32]);
    assert_eq!(&data[32..63], &[0xffu8; 31]);
    assert_eq!(data[63], 0xfe);
    assert_eq!(&data[64..94], &[0u8; 30]);
    assert_eq!(&data[94..96], &[1u8, 2]);
    assert_eq!(&data[96..127], &[0u8; 31]);
    assert_eq!(data[127], 18);
    assert_eq!(&data[128..152], &[0u8; 24]);
    assert_eq!(&data[152..160], &[0xffu8; 8]);
    assert_eq!(data[191], 5);
    assert_eq!(&data[192..208], &[0xffu8; 16]);
    assert_eq!(data[208], 0x80);
    assert_eq!(&data[209..224], &[0u8; 15]);
}

#[test]
fn normalizing_scales_to_18_decimals() {
    assert_eq!(PriceBridge::normalize(3, 18), 3);
    assert_eq!(PriceBridge::normalize(3, 17), 30);
    assert_eq!(PriceBridge::normalize(3, 0), 3_000_000_000_000_000_000);
    assert_eq!(PriceBridge::normalize(-3, 16), -300);
    assert_eq!(PriceBridge::normalize(1999, 21), 1);
    assert_eq!(PriceBridge::normalize(-1999, 21), -1);
    assert_eq!(PriceBridge::normalize(-999, 21), 0);
    assert_eq!(PriceBridge::normalize(-2000, 21), -2);
    assert_eq!(PriceBridge::normalize(i128::MAX, 56), 1);
    assert_eq!(checked_normalize(i128::MAX, 17), None);
    assert_eq!(checked_normalize(i128::MIN, 17), None);
    assert_eq!(checked_normalize(1, 57), None);
    assert_eq!(checked_normalize(1, 255), None);
}

#[test]
fn normalized_prices_of_one_value_agree() {
    assert_eq!(PriceBridge::normalize(25, 1), PriceBridge::normalize(2_500_000, 6));
}

#[test]
fn moves_are_measured_exactly_both_ways() {
    assert_eq!(checked_exceeds(11_000, 10_000, 1000), Some(false));
    assert_eq!(checked_exceeds(11_001, 10_000, 1000), Some(true));
    assert_eq!(checked_exceeds(9_000, 10_000, 1000), Some(false));
    assert_eq!(checked_exceeds(8_999, 10_000, 1000), Some(true));
    assert_eq!(checked_exceeds(4, 3, 3333), Some(true));
    assert_eq!(checked_exceeds(4, 3, 3334), Some(false));
    assert_eq!(checked_exceeds(10_000, 10_000, 0), Some(false));
    assert_eq!(checked_exceeds(10_001, 10_000, 0), Some(true));
    assert_eq!(checked_exceeds(i128::MAX, 1, 0), Some(true));
    assert_eq!(checked_exceeds(i128::MAX, 1, 1), None);
    assert_eq!(checked_exceeds(i128::MAX, i128::MAX, u32::MAX), Some(false));
}

#[test]
fn averages_are_exact() {
    assert_eq!(checked_twap(&history_of(&[(100, 0), (200, 10), (999, 40)])), Some(175));
    assert_eq!(checked_twap(&history_of(&[(7, 5), (8, 5)])), Some(7));
    assert_eq!(checked_twap(&history_of(&[(-7, 5), (-8, 5)])), Some(-7));
    assert_eq!(checked_twap(&history_of(&[(100, 10), (50, 0), (30, 5)])), Some(50));
    assert_eq!(checked_twap(&history_of(&[(42, 1), (42, 9), (42, 9)])), Some(42));
    assert_eq!(
        checked_twap(&history_of(&[(10, 1), (20, 3), (1, 9)])),
        checked_twap(&history_of(&[(10, 1), (20, 3), (1_000_000, 9)]))
    );
}

#[test]
fn averages_tell_when_they_do_not_fit() {
    assert_eq!(checked_twap(&history_of(&[(i128::MAX, 0), (1, 2)])), None);
    assert_eq!(checked_twap(&history_of(&[(i128::MAX, 0), (1, 0)])), None);
    assert_eq!(checked_twap(&history_of(&[(i128::MAX, 0), (1, 1), (1, 2)])), None);
    assert_eq!(
        checked_twap(&history_of(&[(1, 0), (1, u64::MAX), (1, 0), (1, 1)])),
        None
    );
    assert_eq!(
        checked_twap(&history_of(&[(i64::MAX as i128, 0), (1, u64::MAX)])),
        Some(i64::MAX as i128)
    );
}

#[test]
fn history_pushes_and_pops() {
    let history = history_of(&[(1, 10), (-2, 20), (i128::MIN, u64::MAX)]);
    assert_eq!(history.len(), 3);
    assert_eq!(history.get(1), Some(PriceSnapshot { price: -2, timestamp: 20 }));
    assert_eq!(history.get(3), None);
    let history = history.pop_front();
    assert_eq!(
        history.to_vec(),
        vec![
            PriceSnapshot { price: -2, timestamp: 20 },
            PriceSnapshot { price: i128::MIN, timestamp: u64::MAX },
        ]
    );
    let history = history.pop_front().pop_front().pop_front();
    assert_eq!(history.len(), 0);
    assert!(history.to_vec().is_empty());
}

#[test]
fn table_sets_and_takes() {
    let mut table: Table<u64> = Table::new();
    table.set(vec![1], 10);
    table.set(vec![2], 20);
    table.set(vec![1], 11);
    assert_eq!(table.get(&vec![1]), Some(&11));
    assert_eq!(table.get(&vec![2]), Some(&20));
    assert_eq!(table.get(&vec![1, 2]), None);
    assert_eq!(table.take(&vec![1]), Some(11));
    assert_eq!(table.take(&vec![1]), None);
    assert!(!table.has(&vec![1]));
    assert!(table.has(&vec![2]));
}

#[test]
fn error_codes() {
    let codes: Vec<u32> = [
        Error::Unauthorized,
        Error::Decode,
        Error::StalePriceFeed,
        Error::AssetNotFound,
        Error::InvalidPrice,
        Error::InvalidDecimals,
        Error::FeedAlreadyExists,
        Error::FeedNotRegistered,
        Error::CircuitBreakerTripped,
        Error::InsufficientHistory,
    ]
    .iter()
    .map(|error| error.code())
    .collect();
    assert_eq!(codes, (1..=10).collect::<Vec<u32>>());
}
