use getprice::errors::AppError;
use getprice::json::Json;
use getprice::rates::{Currency, ExchangeRate, ExchangeRates, RateLookup};

const REPLY: &str = "{\"base\":\"USD\",\"date\":\"2020-06-01\",\"rates\":{\"CAD\":1.3,\"GBP\":0.8131,\"USD\":1.0}}";

/// The rate of a currency, with `REPLY` for an answer where one is needed.
fn rate_of(code: &str) -> Result<ExchangeRate, AppError> {
    match ExchangeRate::get(code)? {
        RateLookup::Ready(rate) => Ok(rate),
        RateLookup::Pending(currency) => ExchangeRate::from_json(currency, &Json::parse(REPLY)?),
    }
}

#[test]
fn should_get_exchange_rates() {
    let rates = ExchangeRates::get(REPLY).unwrap();
    assert!(rates.gbp.is_positive());
    assert!(rates.gbp.text().parse::<f64>().unwrap() > 0.0);
}

#[test]
fn should_get_gbp_exchange_rate_correctly() {
    let result = rate_of("GBP").unwrap().get_rate();
    assert!(result.is_positive());
    assert!(result.text().parse::<f64>().unwrap() > 0.0);
    assert_eq!(result.text(), "0.8131");
}

#[test]
fn should_get_usd_exchange_rate_correctly() {
    let result = rate_of("usd").unwrap().get_rate();
    assert_eq!(result.text().parse::<f64>().unwrap(), 1.0);
}

#[test]
fn should_get_gbp_symbol_correctly() {
    let result = rate_of("GBP").unwrap().get_symbol();
    assert_eq!(result, "GBP");
}

#[test]
fn should_get_usd_symbol_correctly() {
    let result = rate_of("usd").unwrap().get_symbol();
    assert_eq!(result, "USD");
}

#[test]
fn an_unknown_currency_is_refused() {
    match ExchangeRate::get("XYZ") {
        Err(AppError::UnsupportedCurrency(code)) => assert_eq!(code, "XYZ"),
        _ => panic!(),
    }
    assert!(matches!(ExchangeRate::get(""), Err(AppError::UnsupportedCurrency(_))));
    assert!(matches!(ExchangeRate::get("gpb"), Err(AppError::UnsupportedCurrency(_))));
}

#[test]
fn the_pound_is_asked_for() {
    for code in ["GBP", "gbp", "Gbp"] {
        match ExchangeRate::get(code).unwrap() {
            RateLookup::Pending(currency) => {
                assert_eq!(currency, Currency::GBP);
                assert_eq!(currency.source().url, "https://api.ratesapi.io/api/latest?base=USD");
            }
            RateLookup::Ready(_) => panic!("the pound's rate has to be asked for"),
        }
    }
}

#[test]
fn a_reply_without_the_rate_fails() {
    let lacking = |body: &str| ExchangeRates::get(body).err().unwrap();
    assert!(matches!(lacking("{"), AppError::MalformedResponse(_)));
    match lacking("{\"base\":\"USD\"}") {
        AppError::MissingField(path) => assert_eq!(path, "rates"),
        _ => panic!(),
    }
    match lacking("{\"rates\":{\"EUR\":0.9}}") {
        AppError::MissingField(path) => assert_eq!(path, "rates.GBP"),
        _ => panic!(),
    }
    match lacking("{\"rates\":{\"GBP\":\"0.8\"}}") {
        AppError::NonNumericField(path) => assert_eq!(path, "rates.GBP"),
        _ => panic!(),
    }
    match lacking("{\"rates\":[0.8]}") {
        AppError::MissingField(path) => assert_eq!(path, "rates.GBP"),
        _ => panic!(),
    }
}
