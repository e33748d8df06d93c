use alloy_sol_types::private::primitives::{I256, U256};
use alloy_sol_types::{sol_data, SolType};
use pricebridge::bridge::PriceBridge;
use pricebridge::error::Error;
use pricebridge::history::PriceSnapshot;
use pricebridge::storage::{Address, Env, FeedConfig, StorageKey};

type FeedInput = (
    sol_data::FixedBytes<32>,
    sol_data::Int<256>,
    sol_data::Uint<256>,
    sol_data::Uint<8>,
);

type FeedOutput = (
    sol_data::FixedBytes<32>,
    sol_data::Int<256>,
    sol_data::Uint<256>,
    sol_data::Uint<8>,
    sol_data::Uint<256>,
    sol_data::Int<256>,
    sol_data::Int<256>,
);

fn address(name: &str) -> Address {
    Address { text: name.as_bytes().to_vec() }
}

fn asset_bytes(label: &[u8; 32]) -> Vec<u8> {
    label.to_vec()
}

fn encode_words(asset: [u8; 32], price: I256, timestamp: U256, decimals: u8) -> Vec<u8> {
    FeedInput::abi_encode(&(asset, price, timestamp, decimals))
}

fn encode_feed(asset: [u8; 32], price: i128, timestamp: u64, decimals: u8) -> Vec<u8> {
    encode_words(asset, I256::try_from(price).unwrap(), U256::from(timestamp), decimals)
}

fn label(name: &[u8; 3]) -> [u8; 32] {
    let mut asset = [0u8; 32];
    asset[..3].copy_from_slice(name);
    asset
}

fn setup() -> (Env, Address, Address) {
    let mut e = Env::new(soroban_sdk::Env::default(), 1_000_000);
    let admin = address("admin");
    let updater = address("updater");
    e.authorize(admin.clone());
    e.authorize(updater.clone());

    PriceBridge::initialize(&mut e, admin.clone(), 300u64);
    PriceBridge::set_updater(&mut e, admin.clone(), updater.clone(), true).unwrap();

    (e, admin, updater)
}

fn register(
    e: &mut Env,
    admin: &Address,
    name: &[u8; 3],
    min_price: i128,
    max_price: i128,
    max_deviation_bps: u32,
    twap_window: u32,
) -> [u8; 32] {
    let asset = label(name);
    PriceBridge::register_feed(
        e,
        admin.clone(),
        asset_bytes(&asset),
        300u64,
        min_price,
        max_price,
        max_deviation_bps,
        twap_window,
    )
    .unwrap();
    asset
}

fn register_eth(e: &mut Env, admin: &Address) -> [u8; 32] {
    register(e, admin, b"ETH", 1_000_000i128, 1_000_000_000i128, 1000u32, 5u32)
}

// The same feed with an upper bound that lets four-digit prices of eight decimals through.
fn register_eth_wide(e: &mut Env, admin: &Address) -> [u8; 32] {
    register(e, admin, b"ETH", 1_000_000i128, 1_000_000_000_000i128, 1000u32, 5u32)
}

fn submit_at(
    e: &mut Env,
    updater: &Address,
    asset: [u8; 32],
    price: i128,
    time: u64,
) -> Result<(), Error> {
    e.timestamp = time;
    PriceBridge::submit(e, updater.clone(), encode_feed(asset, price, time, 8))
}

#[test]
fn test_submit_and_get() {
    let (mut e, admin, updater) = setup();
    let asset = register_eth_wide(&mut e, &admin);

    let input = encode_feed(asset, 3_000_00000000i128, 1_000_000u64, 8);
    PriceBridge::submit(&mut e, updater.clone(), input).unwrap();

    let entry = PriceBridge::get_price(&e, asset_bytes(&asset)).unwrap();
    assert_eq!(entry.price, 3_000_00000000i128);
    assert_eq!(entry.decimals, 8);
    assert_eq!(entry.asset, asset_bytes(&asset));
    assert_eq!(entry.timestamp, 1_000_000);
    assert_eq!(entry.updated_at, 1_000_000);
    assert!(entry.updater.same(&updater));
}

#[test]
fn test_normalized_price() {
    let (mut e, admin, updater) = setup();
    let asset = register_eth_wide(&mut e, &admin);

    let input = encode_feed(asset, 3_000_00000000i128, 1_000_000u64, 8);
    PriceBridge::submit(&mut e, updater, input).unwrap();

    let normalized = PriceBridge::get_normalized_price(&e, asset_bytes(&asset)).unwrap();
    assert_eq!(normalized, 3_000_00000000i128 * 10i128.pow(10));
}

#[test]
fn test_twap_computed() {
    let (mut e, admin, updater) = setup();
    let asset = register_eth_wide(&mut e, &admin);

    for (i, price) in [2_900_00000000i128, 3_000_00000000i128, 3_100_00000000i128]
        .iter()
        .enumerate()
    {
        e.timestamp = 1_000_000 + i as u64 * 100;
        let input = encode_feed(asset, *price, 1_000_000 + i as u64 * 100, 8);
        PriceBridge::submit(&mut e, updater.clone(), input).unwrap();
    }

    let twap = PriceBridge::get_twap(&e, asset_bytes(&asset)).unwrap();
    assert!(twap >= 2_900_00000000i128);
    assert!(twap <= 3_100_00000000i128);
    assert_eq!(twap, 2_950_00000000i128);
}

#[test]
fn test_twap_insufficient_history() {
    let (mut e, admin, updater) = setup();
    let asset = register_eth_wide(&mut e, &admin);

    let input = encode_feed(asset, 3_000_00000000i128, 1_000_000u64, 8);
    PriceBridge::submit(&mut e, updater, input).unwrap();

    let result = PriceBridge::get_twap(&e, asset_bytes(&asset));
    assert_eq!(result, Err(Error::InsufficientHistory));
}

#[test]
fn test_circuit_breaker_trips_on_large_deviation() {
    let (mut e, admin, updater) = setup();
    let asset = register_eth_wide(&mut e, &admin);

    let input = encode_feed(asset, 3_000_00000000i128, 1_000_000u64, 8);
    PriceBridge::submit(&mut e, updater.clone(), input).unwrap();

    e.timestamp = 1_000_100;
    let input2 = encode_feed(asset, 3_500_00000000i128, 1_000_100u64, 8);
    let result = PriceBridge::submit(&mut e, updater, input2);
    assert_eq!(result, Err(Error::CircuitBreakerTripped));

    assert!(PriceBridge::is_circuit_broken(&e, asset_bytes(&asset)));
}

#[test]
fn test_circuit_breaker_reset_by_admin() {
    let (mut e, admin, updater) = setup();
    let asset = register_eth_wide(&mut e, &admin);

    let input = encode_feed(asset, 3_000_00000000i128, 1_000_000u64, 8);
    PriceBridge::submit(&mut e, updater.clone(), input).unwrap();
    e.timestamp = 1_000_100;
    let input2 = encode_feed(asset, 3_500_00000000i128, 1_000_100u64, 8);
    let _ = PriceBridge::submit(&mut e, updater, input2);

    PriceBridge::reset_circuit_breaker(&mut e, admin, asset_bytes(&asset)).unwrap();
    assert!(!PriceBridge::is_circuit_broken(&e, asset_bytes(&asset)));
}

#[test]
fn test_price_history_stored() {
    let (mut e, admin, updater) = setup();
    let asset = register_eth_wide(&mut e, &admin);

    for i in 0..3u64 {
        e.timestamp = 1_000_000 + i * 60;
        let input = encode_feed(asset, 3_000_00000000i128, 1_000_000 + i * 60, 8);
        PriceBridge::submit(&mut e, updater.clone(), input).unwrap();
    }

    let history = PriceBridge::get_history(&e, asset_bytes(&asset)).unwrap();
    assert_eq!(history.len(), 3);
}

#[test]
fn test_stale_rejected() {
    let (mut e, admin, updater) = setup();
    let asset = register_eth_wide(&mut e, &admin);

    let input = encode_feed(asset, 3_000_00000000i128, 999_000u64, 8);
    let result = PriceBridge::submit(&mut e, updater, input);
    assert_eq!(result, Err(Error::StalePriceFeed));
}

#[test]
fn test_abi_output_includes_twap_and_normalized() {
    let (mut e, admin, updater) = setup();
    let asset = register_eth_wide(&mut e, &admin);

    for i in 0..2u64 {
        e.timestamp = 1_000_000 + i * 60;
        let input = encode_feed(asset, 3_000_00000000i128, 1_000_000 + i * 60, 8);
        PriceBridge::submit(&mut e, updater.clone(), input).unwrap();
    }

    let abi = PriceBridge::get_price_abi(&e, asset_bytes(&asset)).unwrap();
    assert!(abi.len() > 0);
}

#[test]
fn test_unauthorized_updater_rejected() {
    let (mut e, admin, _) = setup();
    let asset = register_eth(&mut e, &admin);

    let rando = address("rando");
    e.authorize(rando.clone());
    let input = encode_feed(asset, 3_000_00000000i128, 1_000_000u64, 8);
    let result = PriceBridge::submit(&mut e, rando, input);
    assert_eq!(result, Err(Error::Unauthorized));
}

#[test]
fn test_unregistered_feed_rejected() {
    let (mut e, _, updater) = setup();

    let mut unknown_asset = [0u8; 32];
    unknown_asset[..3].copy_from_slice(b"BTC");

    let input = encode_feed(unknown_asset, 50_000_00000000i128, 1_000_000u64, 8);
    let result = PriceBridge::submit(&mut e, updater, input);
    assert_eq!(result, Err(Error::FeedNotRegistered));
}

#[test]
fn test_invalid_decimals_rejected() {
    let (mut e, admin, updater) = setup();
    let asset = register_eth_wide(&mut e, &admin);

    let input = encode_feed(asset, 3_000_00000000i128, 1_000_000u64, 19);
    let result = PriceBridge::submit(&mut e, updater, input);
    assert_eq!(result, Err(Error::InvalidDecimals));
}

#[test]
fn test_feed_deactivation() {
    let (mut e, admin, updater) = setup();
    let asset = register_eth(&mut e, &admin);

    PriceBridge::set_feed_active(&mut e, admin, asset_bytes(&asset), false).unwrap();

    let input = encode_feed(asset, 3_000_00000000i128, 1_000_000u64, 8);
    let result = PriceBridge::submit(&mut e, updater, input);
    assert_eq!(result, Err(Error::FeedNotRegistered));
}

#[test]
fn test_is_fresh() {
    let (mut e, admin, updater) = setup();
    let asset = register_eth_wide(&mut e, &admin);

    assert!(!PriceBridge::is_fresh(&e, asset_bytes(&asset)));

    let input = encode_feed(asset, 3_000_00000000i128, 1_000_000u64, 8);
    PriceBridge::submit(&mut e, updater, input).unwrap();

    assert!(PriceBridge::is_fresh(&e, asset_bytes(&asset)));
}

#[test]
fn sanity_bounds_are_inclusive() {
    let (mut e, admin, updater) = setup();
    let asset = register_eth(&mut e, &admin);

    for price in [3_000_00000000i128, 1_000_000_001, 999_999, 1, 0, -1] {
        let result = submit_at(&mut e, &updater, asset, price, 1_000_000);
        assert_eq!(result, Err(Error::InvalidPrice));
    }
    assert_eq!(submit_at(&mut e, &updater, asset, 1_000_000, 1_000_000), Ok(()));
    let other = register(&mut e, &admin, b"SOL", 1_000_000, 1_000_000_000, 1000, 5);
    assert_eq!(submit_at(&mut e, &updater, other, 1_000_000_000, 1_000_000), Ok(()));
}

#[test]
fn bounds_of_zero_do_not_apply() {
    let (mut e, admin, updater) = setup();
    let asset = register(&mut e, &admin, b"SOL", 0, 0, 0, 5);

    assert_eq!(submit_at(&mut e, &updater, asset, 1, 1_000_000), Ok(()));
    assert_eq!(submit_at(&mut e, &updater, asset, 0, 1_000_000), Err(Error::InvalidPrice));
    let other = register(&mut e, &admin, b"XYZ", 0, 0, 0, 5);
    assert_eq!(submit_at(&mut e, &updater, other, 10i128.pow(28), 1_000_000), Ok(()));
}

#[test]
fn price_beyond_128_bits_is_invalid() {
    let (mut e, admin, updater) = setup();
    let asset = register(&mut e, &admin, b"SOL", 0, 0, 0, 5);

    let one = I256::try_from(1i128).unwrap();
    let above = I256::try_from(i128::MAX).unwrap() + one;
    let below = I256::try_from(i128::MIN).unwrap() - one;
    for price in [above, below, I256::MAX, I256::MIN] {
        let input = encode_words(asset, price, U256::from(1_000_000u64), 18);
        let result = PriceBridge::submit(&mut e, updater.clone(), input);
        assert_eq!(result, Err(Error::InvalidPrice));
    }
    let input = encode_feed(asset, i128::MAX, 1_000_000, 18);
    assert_eq!(PriceBridge::submit(&mut e, updater, input), Ok(()));
    let entry = PriceBridge::get_price(&e, asset_bytes(&asset)).unwrap();
    assert_eq!(entry.price, i128::MAX);
    assert_eq!(entry.normalized, i128::MAX);
}

#[test]
fn malformed_messages_do_not_decode() {
    let (mut e, admin, updater) = setup();
    let asset = register_eth_wide(&mut e, &admin);

    let whole = encode_feed(asset, 3_000_00000000i128, 1_000_000u64, 8);
    let mut oversized_decimals = whole.clone();
    oversized_decimals[126] = 1;
    let mut long = whole.clone();
    long.push(0);
    for input in [
        Vec::new(),
        vec![0u8; 32],
        whole[..127].to_vec(),
        oversized_decimals,
        long.clone(),
        vec![0u8; 160],
        vec![0u8; 4096],
    ] {
        let result = PriceBridge::submit(&mut e, updater.clone(), input);
        assert_eq!(result, Err(Error::Decode));
    }
    assert_eq!(
        PriceBridge::submit_checked(&mut e, updater, long.clone()),
        Some(Err(Error::Decode))
    );
    let rando = address("rando");
    e.authorize(rando.clone());
    assert_eq!(
        PriceBridge::submit_checked(&mut e, rando, long),
        Some(Err(Error::Unauthorized))
    );
    assert!(!PriceBridge::is_fresh(&e, asset_bytes(&asset)));
}

#[test]
fn timestamp_beyond_64_bits_has_no_answer() {
    let (mut e, admin, updater) = setup();
    let asset = register_eth_wide(&mut e, &admin);

    let over = U256::from(u64::MAX) + U256::from(1u64);
    let price = I256::try_from(3_000_00000000i128).unwrap();
    let input = encode_words(asset, price, over, 8);
    assert_eq!(PriceBridge::submit_checked(&mut e, updater.clone(), input), None);
    let input = encode_words(asset, price, over, 19);
    assert_eq!(
        PriceBridge::submit_checked(&mut e, updater.clone(), input),
        Some(Err(Error::InvalidDecimals))
    );
    let input = encode_words(asset, price, U256::from(u64::MAX), 8);
    assert_eq!(PriceBridge::submit_checked(&mut e, updater, input), Some(Ok(())));
    let entry = PriceBridge::get_price(&e, asset_bytes(&asset)).unwrap();
    assert_eq!(entry.timestamp, u64::MAX);
}

#[test]
fn scaling_beyond_128_bits_has_no_answer() {
    let (mut e, admin, updater) = setup();
    let asset = register(&mut e, &admin, b"SOL", 0, 0, 0, 5);

    let input = encode_feed(asset, i128::MAX, 1_000_000, 17);
    assert_eq!(PriceBridge::submit_checked(&mut e, updater.clone(), input), None);
    assert!(PriceBridge::get_history(&e, asset_bytes(&asset)).unwrap().is_empty());
    let input = encode_feed(asset, i128::MAX / 10, 1_000_000, 17);
    assert_eq!(PriceBridge::submit_checked(&mut e, updater, input), Some(Ok(())));
}

#[test]
fn deviation_beyond_128_bits_has_no_answer() {
    let (mut e, admin, updater) = setup();
    let asset = register(&mut e, &admin, b"SOL", 0, 0, 1000, 5);

    let input = encode_feed(asset, 1, 1_000_000, 18);
    assert_eq!(PriceBridge::submit_checked(&mut e, updater.clone(), input), Some(Ok(())));
    let input = encode_feed(asset, i128::MAX, 1_000_000, 18);
    assert_eq!(PriceBridge::submit_checked(&mut e, updater, input), None);
    assert!(!PriceBridge::is_circuit_broken(&e, asset_bytes(&asset)));
}

#[test]
fn staleness_is_checked_on_submission_and_on_reading() {
    let (mut e, admin, updater) = setup();
    let asset = register_eth_wide(&mut e, &admin);

    let input = encode_feed(asset, 3_000_00000000i128, 999_699, 8);
    let result = PriceBridge::submit(&mut e, updater.clone(), input);
    assert_eq!(result, Err(Error::StalePriceFeed));
    let input = encode_feed(asset, 3_000_00000000i128, 999_700, 8);
    assert_eq!(PriceBridge::submit(&mut e, updater, input), Ok(()));

    assert!(PriceBridge::is_fresh(&e, asset_bytes(&asset)));
    e.timestamp = 1_000_001;
    assert!(!PriceBridge::is_fresh(&e, asset_bytes(&asset)));
    assert_eq!(
        PriceBridge::get_price(&e, asset_bytes(&asset)).err(),
        Some(Error::StalePriceFeed)
    );
    assert_eq!(
        PriceBridge::get_normalized_price(&e, asset_bytes(&asset)),
        Err(Error::StalePriceFeed)
    );
    assert_eq!(
        PriceBridge::get_price_abi(&e, asset_bytes(&asset)),
        Err(Error::StalePriceFeed)
    );
    e.timestamp = 2_000_000;
    assert!(!PriceBridge::is_fresh(&e, asset_bytes(&asset)));
}

#[test]
fn prices_from_the_future_are_accepted() {
    let (mut e, admin, updater) = setup();
    let asset = register_eth_wide(&mut e, &admin);

    let input = encode_feed(asset, 3_000_00000000i128, 5_000_000, 8);
    assert_eq!(PriceBridge::submit(&mut e, updater, input), Ok(()));
    assert!(PriceBridge::is_fresh(&e, asset_bytes(&asset)));
}

#[test]
fn deviation_threshold_is_inclusive() {
    let (mut e, admin, updater) = setup();
    let asset = register(&mut e, &admin, b"SOL", 0, 0, 1000, 5);

    assert_eq!(submit_at(&mut e, &updater, asset, 10_000, 1_000_000), Ok(()));
    assert_eq!(submit_at(&mut e, &updater, asset, 11_000, 1_000_001), Ok(()));
    assert_eq!(submit_at(&mut e, &updater, asset, 9_900, 1_000_002), Ok(()));
    assert_eq!(
        submit_at(&mut e, &updater, asset, 8_900, 1_000_003),
        Err(Error::CircuitBreakerTripped)
    );
}

#[test]
fn any_move_above_the_threshold_trips() {
    for (last, price, trips) in [
        (100_000i128, 110_000i128, false),
        (100_000, 110_001, true),
        (100_000, 110_009, true),
        (100_000, 90_000, false),
        (100_000, 89_999, true),
        (3, 4, true),
    ] {
        let (mut e, admin, updater) = setup();
        let asset = register(&mut e, &admin, b"SOL", 0, 0, 1000, 5);
        assert_eq!(submit_at(&mut e, &updater, asset, last, 1_000_000), Ok(()));
        let result = submit_at(&mut e, &updater, asset, price, 1_000_000);
        let expected = if trips { Err(Error::CircuitBreakerTripped) } else { Ok(()) };
        assert_eq!(result, expected);
        assert_eq!(PriceBridge::is_circuit_broken(&e, asset_bytes(&asset)), trips);
    }
}

#[test]
fn threshold_of_zero_allows_no_move() {
    for price in [1001i128, 999, 1, i128::MAX] {
        let (mut e, admin, updater) = setup();
        let asset = register(&mut e, &admin, b"SOL", 0, 0, 0, 5);
        let input = encode_feed(asset, 1000, 1_000_000, 18);
        for _ in 0..2 {
            let result = PriceBridge::submit_checked(&mut e, updater.clone(), input.clone());
            assert_eq!(result, Some(Ok(())));
        }
        let input = encode_feed(asset, price, 1_000_000, 18);
        assert_eq!(
            PriceBridge::submit_checked(&mut e, updater, input),
            Some(Err(Error::CircuitBreakerTripped))
        );
        assert!(PriceBridge::is_circuit_broken(&e, asset_bytes(&asset)));
    }
}

#[test]
fn broken_feed_is_paused_until_reset() {
    let (mut e, admin, updater) = setup();
    let asset = register_eth_wide(&mut e, &admin);
    let other = register(&mut e, &admin, b"SOL", 0, 0, 1000, 5);

    assert_eq!(submit_at(&mut e, &updater, asset, 3_000_00000000, 1_000_000), Ok(()));
    let tripped = Err(Error::CircuitBreakerTripped);
    assert_eq!(submit_at(&mut e, &updater, asset, 3_500_00000000, 1_000_100), tripped);
    assert_eq!(submit_at(&mut e, &updater, asset, 3_000_00000000, 1_000_100), tripped);
    assert!(!PriceBridge::is_fresh(&e, asset_bytes(&asset)));
    assert_eq!(
        PriceBridge::get_price(&e, asset_bytes(&asset)).err(),
        Some(Error::CircuitBreakerTripped)
    );

    assert_eq!(submit_at(&mut e, &updater, other, 5, 1_000_100), Ok(()));
    assert!(!PriceBridge::is_circuit_broken(&e, asset_bytes(&other)));

    assert_eq!(
        PriceBridge::reset_circuit_breaker(&mut e, updater.clone(), asset_bytes(&asset)),
        Err(Error::Unauthorized)
    );
    assert!(PriceBridge::is_circuit_broken(&e, asset_bytes(&asset)));
    PriceBridge::reset_circuit_breaker(&mut e, admin, asset_bytes(&asset)).unwrap();

    let history = PriceBridge::get_history(&e, asset_bytes(&asset)).unwrap();
    assert_eq!(
        history,
        vec![PriceSnapshot { price: 3_000_00000000, timestamp: 1_000_000 }]
    );
    assert_eq!(submit_at(&mut e, &updater, asset, 3_100_00000000, 1_000_200), Ok(()));
    assert!(PriceBridge::is_fresh(&e, asset_bytes(&asset)));
}

#[test]
fn history_keeps_the_latest_snapshots() {
    let (mut e, admin, updater) = setup();
    let asset = register(&mut e, &admin, b"SOL", 0, 0, u32::MAX, 3);

    for i in 1..=5u64 {
        submit_at(&mut e, &updater, asset, i as i128 * 100, 1_000_000 + i).unwrap();
    }
    let history = PriceBridge::get_history(&e, asset_bytes(&asset)).unwrap();
    assert_eq!(
        history,
        vec![
            PriceSnapshot { price: 300, timestamp: 1_000_003 },
            PriceSnapshot { price: 400, timestamp: 1_000_004 },
            PriceSnapshot { price: 500, timestamp: 1_000_005 },
        ]
    );
}

#[test]
fn window_is_at_least_one_and_at_most_ten() {
    let (mut e, admin, updater) = setup();
    for (name, requested, granted) in [
        (b"AAA", 0u32, 1u32),
        (b"BBB", 1, 1),
        (b"CCC", 10, 10),
        (b"DDD", 11, 10),
        (b"EEE", u32::MAX, 10),
    ] {
        let asset = register(&mut e, &admin, name, 0, 0, 0, requested);
        let config = PriceBridge::get_feed_config(&e, asset_bytes(&asset)).unwrap();
        assert_eq!(config.twap_window, granted);
        for i in 0..12u64 {
            submit_at(&mut e, &updater, asset, 100, 1_000_000 + i).unwrap();
        }
        let history = PriceBridge::get_history(&e, asset_bytes(&asset)).unwrap();
        assert_eq!(history.len(), granted as usize);
    }
}

#[test]
fn average_weighs_by_duration() {
    let (mut e, admin, updater) = setup();
    let asset = register(&mut e, &admin, b"SOL", 0, 0, u32::MAX, 5);

    submit_at(&mut e, &updater, asset, 100, 1_000_000).unwrap();
    submit_at(&mut e, &updater, asset, 200, 1_000_010).unwrap();
    submit_at(&mut e, &updater, asset, 999, 1_000_040).unwrap();
    assert_eq!(PriceBridge::get_twap(&e, asset_bytes(&asset)), Ok(175));
}

#[test]
fn average_of_one_moment_is_simple() {
    let (mut e, admin, updater) = setup();
    let asset = register(&mut e, &admin, b"SOL", 0, 0, u32::MAX, 5);

    for price in [100, 101, 103] {
        submit_at(&mut e, &updater, asset, price, 1_000_000).unwrap();
    }
    assert_eq!(PriceBridge::get_twap(&e, asset_bytes(&asset)), Ok(101));
}

#[test]
fn average_beyond_the_numbers_has_no_answer() {
    let (mut e, admin, updater) = setup();
    let asset = register(&mut e, &admin, b"SOL", 0, 0, 0, 5);

    e.timestamp = 0;
    for (price, timestamp) in [(i128::MAX, 10u64), (i128::MAX, 12)] {
        let input = encode_feed(asset, price, timestamp, 18);
        PriceBridge::submit(&mut e, updater.clone(), input).unwrap();
    }
    assert_eq!(PriceBridge::get_twap_checked(&e, asset_bytes(&asset)), None);
    assert_eq!(PriceBridge::get_price_abi_checked(&e, asset_bytes(&asset)), None);
    assert_eq!(
        PriceBridge::get_twap_checked(&e, vec![1]),
        Some(Err(Error::FeedNotRegistered))
    );
}

#[test]
fn abi_output_holds_every_field() {
    let (mut e, admin, updater) = setup();
    let asset = register(&mut e, &admin, b"SOL", 0, 0, u32::MAX, 5);

    submit_at(&mut e, &updater, asset, 100, 1_000_000).unwrap();
    let abi = PriceBridge::get_price_abi(&e, asset_bytes(&asset)).unwrap();
    let (_, price, _, _, _, twap, _) = FeedOutput::abi_decode(&abi, true).unwrap();
    assert_eq!(twap, price);

    submit_at(&mut e, &updater, asset, 300, 1_000_010).unwrap();
    e.timestamp = 1_000_020;
    let abi = PriceBridge::get_price_abi(&e, asset_bytes(&asset)).unwrap();
    assert_eq!(abi.len(), 224);
    let (id, price, timestamp, decimals, queried_at, twap, normalized) =
        FeedOutput::abi_decode(&abi, true).unwrap();
    assert_eq!(id.0, asset);
    assert_eq!(price, I256::try_from(300i128).unwrap());
    assert_eq!(timestamp, U256::from(1_000_010u64));
    assert_eq!(decimals, 8);
    assert_eq!(queried_at, U256::from(1_000_020u64));
    assert_eq!(twap, I256::try_from(100i128).unwrap());
    assert_eq!(normalized, I256::try_from(300i128 * 10i128.pow(10)).unwrap());
}

#[test]
fn only_the_admin_manages() {
    let (mut e, admin, updater) = setup();
    let asset = register_eth(&mut e, &admin);

    let refused = Err(Error::Unauthorized);
    assert_eq!(
        PriceBridge::register_feed(&mut e, updater.clone(), vec![1], 1, 0, 0, 0, 1),
        refused
    );
    assert_eq!(
        PriceBridge::set_updater(&mut e, updater.clone(), address("rando"), true),
        refused
    );
    assert_eq!(
        PriceBridge::set_feed_active(&mut e, updater.clone(), asset_bytes(&asset), false),
        refused
    );
    assert!(!e.storage.has(&StorageKey::FeedConfig(vec![1])));
    assert!(!e.storage.has(&StorageKey::Updater(address("rando"))));
    assert!(PriceBridge::get_feed_config(&e, asset_bytes(&asset)).unwrap().active);

    PriceBridge::initialize(&mut e, updater.clone(), 0);
    assert_eq!(
        PriceBridge::set_feed_active(&mut e, updater, asset_bytes(&asset), false),
        Ok(())
    );
    assert_eq!(
        PriceBridge::set_feed_active(&mut e, admin, asset_bytes(&asset), true),
        refused
    );
}

#[test]
fn revoked_updaters_may_not_submit() {
    let (mut e, admin, updater) = setup();
    let asset = register_eth_wide(&mut e, &admin);

    PriceBridge::set_updater(&mut e, admin.clone(), updater.clone(), false).unwrap();
    assert_eq!(
        submit_at(&mut e, &updater, asset, 3_000_00000000, 1_000_000),
        Err(Error::Unauthorized)
    );
    PriceBridge::set_updater(&mut e, admin, updater.clone(), true).unwrap();
    assert_eq!(submit_at(&mut e, &updater, asset, 3_000_00000000, 1_000_000), Ok(()));
}

#[test]
fn accepted_entry_is_read_after_other_calls() {
    let (mut e, admin, updater) = setup();
    let asset = register_eth_wide(&mut e, &admin);
    let other = register(&mut e, &admin, b"SOL", 0, 0, 1000, 5);
    e.timestamp = 1_000_050;
    let input = encode_feed(asset, 3_000_00000000, 1_000_000, 8);
    assert_eq!(PriceBridge::submit(&mut e, updater.clone(), input), Ok(()));

    assert_eq!(submit_at(&mut e, &updater, other, 5, 1_000_100), Ok(()));
    let tripped = Err(Error::CircuitBreakerTripped);
    assert_eq!(submit_at(&mut e, &updater, other, 50, 1_000_100), tripped);
    PriceBridge::set_feed_active(&mut e, admin.clone(), asset_bytes(&asset), false).unwrap();
    PriceBridge::reset_circuit_breaker(&mut e, admin.clone(), asset_bytes(&asset)).unwrap();
    PriceBridge::set_updater(&mut e, admin.clone(), updater.clone(), false).unwrap();
    let again = PriceBridge::register_feed(
        &mut e,
        admin.clone(),
        asset_bytes(&asset),
        1,
        0,
        0,
        0,
        1,
    );
    assert_eq!(again, Err(Error::FeedAlreadyExists));
    PriceBridge::initialize(&mut e, updater.clone(), 0);

    e.timestamp = 1_000_300;
    let entry = PriceBridge::get_price(&e, asset_bytes(&asset)).unwrap();
    assert_eq!(entry.asset, asset_bytes(&asset));
    assert_eq!(entry.price, 3_000_00000000);
    assert_eq!(entry.timestamp, 1_000_000);
    assert_eq!(entry.decimals, 8);
    assert_eq!(entry.updated_at, 1_000_050);
    assert!(entry.updater.same(&updater));
    assert_eq!(entry.normalized, 3_000_00000000i128 * 10i128.pow(10));
    e.timestamp = 1_000_301;
    assert_eq!(
        PriceBridge::get_price(&e, asset_bytes(&asset)).err(),
        Some(Error::StalePriceFeed)
    );
}

#[test]
fn breaker_stays_tripped_through_other_calls() {
    let (mut e, admin, updater) = setup();
    let asset = register_eth_wide(&mut e, &admin);
    assert_eq!(submit_at(&mut e, &updater, asset, 3_000_00000000, 1_000_000), Ok(()));
    let tripped = Err(Error::CircuitBreakerTripped);
    assert_eq!(submit_at(&mut e, &updater, asset, 4_000_00000000, 1_000_000), tripped);

    PriceBridge::set_feed_active(&mut e, admin.clone(), asset_bytes(&asset), false).unwrap();
    PriceBridge::set_feed_active(&mut e, admin.clone(), asset_bytes(&asset), true).unwrap();
    assert_eq!(submit_at(&mut e, &updater, asset, 3_000_00000000, 1_000_100), tripped);
    let reset = PriceBridge::reset_circuit_breaker(&mut e, updater, asset_bytes(&asset));
    assert_eq!(reset, Err(Error::Unauthorized));
    register(&mut e, &admin, b"SOL", 0, 0, 1000, 5);
    let other = asset_bytes(&label(b"SOL"));
    PriceBridge::reset_circuit_breaker(&mut e, admin, other).unwrap();
    assert!(PriceBridge::is_circuit_broken(&e, asset_bytes(&asset)));
}

#[test]
fn rights_are_as_last_set() {
    let (mut e, admin, updater) = setup();
    let asset = register_eth_wide(&mut e, &admin);
    let heir = address("heir");
    e.authorize(heir.clone());

    let refused = Err(Error::Unauthorized);
    assert_eq!(submit_at(&mut e, &admin, asset, 3_000_00000000, 1_000_000), refused);
    assert_eq!(
        PriceBridge::set_updater(&mut e, updater.clone(), updater.clone(), false),
        refused
    );
    assert_eq!(submit_at(&mut e, &updater, asset, 3_000_00000000, 1_000_000), Ok(()));

    PriceBridge::initialize(&mut e, heir.clone(), 0);
    assert_eq!(
        PriceBridge::set_updater(&mut e, admin, updater.clone(), false),
        refused
    );
    assert_eq!(submit_at(&mut e, &updater, asset, 3_000_00000000, 1_000_001), Ok(()));
    assert_eq!(PriceBridge::set_updater(&mut e, heir.clone(), updater.clone(), false), Ok(()));
    assert_eq!(submit_at(&mut e, &updater, asset, 3_000_00000000, 1_000_002), refused);
    assert_eq!(submit_at(&mut e, &heir, asset, 3_000_00000000, 1_000_002), refused);
}

#[test]
fn feeds_are_registered_once() {
    let (mut e, admin, _) = setup();
    let asset = register_eth(&mut e, &admin);

    let result = PriceBridge::register_feed(
        &mut e,
        admin,
        asset_bytes(&asset),
        1,
        2,
        3,
        4,
        5,
    );
    assert_eq!(result, Err(Error::FeedAlreadyExists));
    assert_eq!(
        PriceBridge::get_feed_config(&e, asset_bytes(&asset)),
        Ok(FeedConfig {
            max_staleness: 300,
            min_price: 1_000_000,
            max_price: 1_000_000_000,
            active: true,
            max_deviation_bps: 1000,
            twap_window: 5,
        })
    );
    assert_eq!(
        PriceBridge::get_price(&e, asset_bytes(&asset)).err(),
        Some(Error::AssetNotFound)
    );
    assert!(PriceBridge::get_history(&e, asset_bytes(&asset)).unwrap().is_empty());
}

#[test]
fn unknown_assets_have_no_feed() {
    let (mut e, admin, _) = setup();
    let none = Error::FeedNotRegistered;

    assert_eq!(PriceBridge::get_price(&e, vec![1]).err(), Some(none));
    assert_eq!(PriceBridge::get_twap(&e, vec![1]), Err(none));
    assert_eq!(PriceBridge::get_history(&e, vec![1]), Err(none));
    assert_eq!(PriceBridge::get_normalized_price(&e, vec![1]), Err(none));
    assert_eq!(PriceBridge::get_price_abi(&e, vec![1]), Err(none));
    assert_eq!(PriceBridge::get_feed_config(&e, vec![1]), Err(none));
    assert!(!PriceBridge::is_fresh(&e, vec![1]));
    assert!(!PriceBridge::is_circuit_broken(&e, vec![1]));
    assert_eq!(
        PriceBridge::set_feed_active(&mut e, admin.clone(), vec![1], true),
        Err(none)
    );
    assert_eq!(PriceBridge::reset_circuit_breaker(&mut e, admin, vec![1]), Err(none));
}

#[test]
fn resumed_feed_is_as_before() {
    let (mut e, admin, updater) = setup();
    let asset = register_eth_wide(&mut e, &admin);
    submit_at(&mut e, &updater, asset, 3_000_00000000, 1_000_000).unwrap();

    let before = PriceBridge::get_feed_config(&e, asset_bytes(&asset)).unwrap();
    PriceBridge::set_feed_active(&mut e, admin.clone(), asset_bytes(&asset), false).unwrap();
    assert!(PriceBridge::is_fresh(&e, asset_bytes(&asset)));
    let paused = PriceBridge::get_feed_config(&e, asset_bytes(&asset)).unwrap();
    assert_eq!(paused, FeedConfig { active: false, ..before });
    PriceBridge::set_feed_active(&mut e, admin, asset_bytes(&asset), true).unwrap();
    assert_eq!(PriceBridge::get_feed_config(&e, asset_bytes(&asset)), Ok(before));
    assert_eq!(submit_at(&mut e, &updater, asset, 3_000_00000000, 1_000_001), Ok(()));
}

#[test]
fn storage_tells_what_it_has() {
    let (mut e, admin, updater) = setup();
    let asset = register_eth_wide(&mut e, &admin);

    assert!(e.storage.has(&StorageKey::Admin));
    assert!(e.storage.has(&StorageKey::Updater(updater.clone())));
    assert!(!e.storage.has(&StorageKey::Updater(admin)));
    assert!(e.storage.has(&StorageKey::FeedConfig(asset_bytes(&asset))));
    assert!(e.storage.has(&StorageKey::DefiState(asset_bytes(&asset))));
    assert!(!e.storage.has(&StorageKey::Price(asset_bytes(&asset))));
    submit_at(&mut e, &updater, asset, 3_000_00000000, 1_000_000).unwrap();
    assert!(e.storage.has(&StorageKey::Price(asset_bytes(&asset))));
}
