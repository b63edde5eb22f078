use lending_pool::{MockOracle, OracleError};

const BOT: u64 = 7;
const ASSET: u64 = 42;
const NOW: u64 = 5_000;

#[test]
fn test_bot_can_submit_price() {
    let mut oracle = MockOracle::new(BOT);
    assert_eq!(oracle.get_bot(), BOT);
    oracle.submit_price(BOT, ASSET, 10000, NOW).unwrap();
    let price_data = oracle.get_price_data(ASSET);
    assert_eq!(price_data.0, 10000);
    assert_eq!(price_data.1, NOW);
}

#[test]
fn test_non_bot_cannot_submit_price() {
    let mut oracle = MockOracle::new(BOT);
    assert_eq!(oracle.submit_price(BOT + 1, ASSET, 10000, NOW), Err(OracleError::Unauthorized));
    assert_eq!(oracle.get_price_data(ASSET), (0, 0));
}

#[test]
fn test_cannot_submit_negative_price() {
    let mut oracle = MockOracle::new(BOT);
    assert_eq!(oracle.submit_price(BOT, ASSET, -100, NOW), Err(OracleError::NonPositivePrice));
}

#[test]
fn test_cannot_submit_zero_price() {
    let mut oracle = MockOracle::new(BOT);
    assert_eq!(oracle.submit_price(BOT, ASSET, 0, NOW), Err(OracleError::NonPositivePrice));
}

#[test]
fn test_get_price() {
    let mut oracle = MockOracle::new(BOT);
    oracle.submit_price(BOT, ASSET, 12345, NOW).unwrap();
    assert_eq!(oracle.get_price(ASSET), 12345);
}

#[test]
fn test_get_price_data() {
    let mut oracle = MockOracle::new(BOT);
    oracle.submit_price(BOT, ASSET, 50000, NOW).unwrap();
    let price_data = oracle.get_price_data(ASSET);
    assert_eq!(price_data.0, 50000);
}

#[test]
fn test_price_updates() {
    let mut oracle = MockOracle::new(BOT);
    oracle.submit_price(BOT, ASSET, 10000, NOW).unwrap();
    assert_eq!(oracle.get_price_data(ASSET).0, 10000);
    oracle.submit_price(BOT, ASSET, 10500, NOW + 1).unwrap();
    assert_eq!(oracle.get_price_data(ASSET), (10500, NOW + 1));
}

#[test]
fn test_multiple_assets() {
    let mut oracle = MockOracle::new(BOT);
    oracle.submit_price(BOT, ASSET, 100, NOW).unwrap();
    oracle.submit_price(BOT, ASSET + 1, 200, NOW).unwrap();
    assert_eq!(oracle.get_price(ASSET), 100);
    assert_eq!(oracle.get_price(ASSET + 1), 200);
}

#[test]
fn unknown_asset_has_no_price() {
    let oracle = MockOracle::new(BOT);
    assert_eq!(oracle.get_price(ASSET), 0);
    assert_eq!(oracle.get_price_data(ASSET), (0, 0));
}

#[test]
fn set_price_uses_given_or_current_time() {
    let mut oracle = MockOracle::new(BOT);
    oracle.set_price(ASSET, 300, 1_234, BOT, NOW).unwrap();
    assert_eq!(oracle.get_price_data(ASSET), (300, 1_234));
    oracle.set_price(ASSET, 301, 0, BOT, NOW).unwrap();
    assert_eq!(oracle.get_price_data(ASSET), (301, NOW));
    assert_eq!(oracle.set_price(ASSET, 302, 0, BOT + 1, NOW), Err(OracleError::Unauthorized));
    assert_eq!(oracle.set_price(ASSET, -1, 0, BOT, NOW), Err(OracleError::NonPositivePrice));
    assert_eq!(oracle.get_price(ASSET), 301);
}
