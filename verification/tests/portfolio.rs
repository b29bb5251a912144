use getprice::assets::{Asset, Assets};
use getprice::decimal::Decimal;
use getprice::errors::AppError;
use getprice::json::Json;
use getprice::rates::{Currency, ExchangeRate};

fn dec(text: &str) -> Decimal {
    Decimal::parse(text).unwrap()
}

fn pounds(rate: &str) -> ExchangeRate {
    let reply = Json::parse(&format!("{{\"rates\":{{\"GBP\":{}}}}}", rate)).unwrap();
    ExchangeRate::from_json(Currency::GBP, &reply).unwrap()
}

#[test]
fn a_line_rounds_each_figure_on_its_own() {
    let line = Asset::ETH.get_price_for_x(&dec("3"), &dec("0.335"), &pounds("0.5"));
    assert_eq!(line.amount.text(), "3");
    assert_eq!(line.asset, "ETH");
    assert_eq!(line.currency, "GBP");
    assert_eq!(line.exchange_rate.text(), "0.5");
    // 0.335 dollars is 0.1675 pounds a unit; three units are 0.5025 pounds
    assert_eq!(line.unit_price_usd.text(), "0.34");
    assert_eq!(line.unit_price.text(), "0.17");
    assert_eq!(line.value.text(), "0.50");
}

#[test]
fn a_negative_amount_is_rounded_away_from_zero() {
    let line = Asset::BTC.get_price_for_x(&dec("-0.5"), &dec("0.01"), &ExchangeRate::USD(Decimal::one()));
    assert_eq!(line.value.text(), "-0.01");
    let line = Asset::BTC.get_price_for_x(&dec("-0.49"), &dec("0.01"), &ExchangeRate::USD(Decimal::one()));
    assert_eq!(line.value.text(), "0.00");
}

#[test]
fn a_report_sums_the_rounded_values() {
    let assets = Assets::new(vec![Asset::BTC, Asset::ETH, Asset::ADA]);
    let amounts = vec![dec("1"), dec("1"), dec("1")];
    let prices = vec![dec("0.004"), dec("0.004"), dec("0.004")];
    let report = assets.get_prices_json(&amounts, &prices, &ExchangeRate::USD(Decimal::one())).unwrap();
    // each line rounds to nothing, and so does the total, though the prices sum to more than a cent
    assert_eq!(report.grand_total.text(), "0.00");
    let prices = vec![dec("0.005"), dec("0.005"), dec("-0.015")];
    let report = assets.get_prices_json(&amounts, &prices, &ExchangeRate::USD(Decimal::one())).unwrap();
    let values: Vec<String> = report.prices.iter().map(|line| line.value.text()).collect();
    assert_eq!(values, vec!["0.01", "0.01", "-0.02"]);
    assert_eq!(report.grand_total.text(), "0.00");
    assert_eq!(Assets::sum_values(&report.prices).text(), "0.00");
    let totals: Vec<String> = Assets::get_value_totals(&report.prices).iter().map(|v| v.text()).collect();
    assert_eq!(totals, values);
}

#[test]
fn a_report_needs_an_amount_and_a_price_for_each_asset() {
    let assets = Assets::new(vec![Asset::BTC, Asset::ETH]);
    let rate = ExchangeRate::USD(Decimal::one());
    let two = || vec![dec("1"), dec("2")];
    let three = || vec![dec("1"), dec("2"), dec("3")];
    assert!(matches!(assets.get_prices_json(&three(), &two(), &rate), Err(AppError::InputLengthMismatch(2, 3))));
    assert!(matches!(assets.get_prices_json(&two(), &vec![], &rate), Err(AppError::InputLengthMismatch(2, 0))));
    assert!(matches!(assets.get_prices_json(&vec![dec("1")], &three(), &rate), Err(AppError::InputLengthMismatch(2, 1))));
    assert!(assets.get_prices_json(&two(), &two(), &rate).is_ok());
}
