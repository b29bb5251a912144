use getprice::assets::{Asset, Assets, PortfolioResult};
use getprice::decimal::Decimal;
use getprice::errors::AppError;
use getprice::get_price::{get_price_of, PriceFetch, Pricing, Progress};
use getprice::json::Json;
use getprice::rates::{ExchangeRate, RateLookup};

const RATES_URL: &str = "https://api.ratesapi.io/api/latest?base=USD";
const PNT_URL: &str = "https://api.coingecko.com/api/v3/simple/token_price/ethereum?contract_addresses=0x89ab32156e46f46d02ade3fecbe5fc4243b9aaed&vs_currencies=btc";

fn dec(text: &str) -> Decimal {
    Decimal::parse(text).unwrap()
}

fn texts(items: &[&str]) -> Vec<String> {
    items.iter().map(|s| s.to_string()).collect()
}

fn ticker_url(pair: &str) -> String {
    format!("https://api.kraken.com/0/public/Ticker?pair={}", pair)
}

fn ticker_reply(pair: &str, price: &str) -> String {
    format!(
        "{{\"error\":[],\"result\":{{\"{}\":{{\"a\":[\"1.0\",\"1\",\"1.000\"],\"c\":[\"{}\",\"0.00100000\"],\"v\":[\"5\",\"6\"]}}}}}}",
        pair, price
    )
}

fn rates_reply(gbp: &str) -> String {
    format!("{{\"base\":\"USD\",\"date\":\"2020-06-01\",\"rates\":{{\"EUR\":0.9,\"GBP\":{}}}}}", gbp)
}

fn pnt_reply(btc: &str) -> String {
    format!("{{\"0x89ab32156e46f46d02ade3fecbe5fc4243b9aaed\":{{\"btc\":{}}}}}", btc)
}

/// Runs a pricing against canned replies, and hands back what came of it
/// together with the addresses that were asked, in order.
fn run(mut pricing: Pricing, replies: &[(String, String)]) -> (Result<PortfolioResult, AppError>, Vec<String>) {
    let mut asked: Vec<String> = Vec::new();
    loop {
        let url = match pricing.request() {
            None => break,
            Some(url) => url,
        };
        asked.push(url.clone());
        let reply = match replies.iter().find(|(u, _)| *u == url) {
            Some((_, body)) => Ok(body.clone()),
            None => Err(format!("no route to {}", url)),
        };
        pricing = match pricing.feed(reply) {
            Ok(next) => next,
            Err(error) => return (Err(error), asked),
        };
    }
    (Ok(pricing.finish().unwrap()), asked)
}

#[test]
fn one_asset_in_dollars() {
    let pricing = get_price_of(&texts(&["ETH"]), vec![dec("3.14")], "USD").unwrap();
    let replies = vec![(ticker_url("XETHZUSD"), ticker_reply("XETHZUSD", "2000.00"))];
    let (result, asked) = run(pricing, &replies);
    let result = result.unwrap();
    assert_eq!(asked, vec![ticker_url("XETHZUSD")]);
    assert_eq!(result.prices.len(), 1);
    let line = &result.prices[0];
    assert_eq!(line.value.text(), "6280.00");
    assert_eq!(line.value.text().parse::<f64>().unwrap(), 6280.00);
    assert_eq!(line.amount.text(), "3.14");
    assert_eq!(line.asset, "ETH");
    assert_eq!(line.currency, "USD");
    assert_eq!(line.exchange_rate.text(), "1");
    assert_eq!(line.unit_price.text(), "2000.00");
    assert_eq!(line.unit_price_usd.text(), "2000.00");
    assert_eq!(result.grand_total.text(), "6280.00");
    assert_eq!(result.grand_total.text().parse::<f64>().unwrap(), 6280.0);
}

#[test]
fn two_assets_in_pounds() {
    let pricing = get_price_of(&texts(&["BTC", "ETH"]), vec![dec("1"), dec("2")], "GBP").unwrap();
    let replies = vec![
        (RATES_URL.to_string(), rates_reply("0.75")),
        (ticker_url("XXBTZUSD"), ticker_reply("XXBTZUSD", "50000")),
        (ticker_url("XETHZUSD"), ticker_reply("XETHZUSD", "2000")),
    ];
    let (result, asked) = run(pricing, &replies);
    let result = result.unwrap();
    assert_eq!(asked, vec![RATES_URL.to_string(), ticker_url("XXBTZUSD"), ticker_url("XETHZUSD")]);
    assert_eq!(result.prices.len(), 2);
    assert_eq!(result.prices[0].asset, "BTC");
    assert_eq!(result.prices[0].value.text(), "37500.00");
    assert_eq!(result.prices[0].unit_price.text(), "37500.00");
    assert_eq!(result.prices[0].unit_price_usd.text(), "50000.00");
    assert_eq!(result.prices[0].currency, "GBP");
    assert_eq!(result.prices[0].exchange_rate.text(), "0.75");
    assert_eq!(result.prices[1].asset, "ETH");
    assert_eq!(result.prices[1].value.text(), "3000.00");
    assert_eq!(result.grand_total.text(), "40500.00");
    assert_eq!(result.grand_total.text().parse::<f64>().unwrap(), 40500.0);
}

#[test]
fn pnt_is_priced_through_bitcoin() {
    let pricing = get_price_of(&texts(&["pnt"]), vec![dec("1000")], "usd").unwrap();
    let replies = vec![
        (PNT_URL.to_string(), pnt_reply("0.00002345")),
        (ticker_url("XXBTZUSD"), ticker_reply("XXBTZUSD", "50000.00000")),
    ];
    let (result, asked) = run(pricing, &replies);
    let result = result.unwrap();
    assert_eq!(asked, vec![PNT_URL.to_string(), ticker_url("XXBTZUSD")]);
    assert_eq!(result.prices[0].asset, "PNT");
    // 0.00002345 * 50000 = 1.1725 dollars a token
    assert_eq!(result.prices[0].unit_price_usd.text(), "1.17");
    assert_eq!(result.prices[0].value.text(), "1172.50");
    assert_eq!(result.grand_total.text(), "1172.50");
}

#[test]
fn pnt_price_is_its_bitcoin_price_times_the_price_of_bitcoin() {
    let btc_reply = Json::parse(&ticker_reply("XXBTZUSD", "43210.5")).unwrap();
    let btc = match PriceFetch::new(Asset::BTC).advance(&btc_reply).unwrap() {
        Progress::Done(price) => price,
        Progress::More(_) => panic!("bitcoin is quoted in dollars"),
    };
    let pnt_in_btc = dec("0.0000321");
    let next = match PriceFetch::new(Asset::PNT).advance(&Json::parse(&pnt_reply("3.21e-5")).unwrap()).unwrap() {
        Progress::More(next) => next,
        Progress::Done(_) => panic!("PNT is quoted in bitcoin"),
    };
    assert_eq!(next.request(), ticker_url("XXBTZUSD"));
    let pnt = match next.advance(&btc_reply).unwrap() {
        Progress::Done(price) => price,
        Progress::More(_) => panic!("bitcoin is quoted in dollars"),
    };
    assert_eq!(pnt.text(), pnt_in_btc.times(&btc).text());
    assert_eq!(pnt.text(), "1.38705705");
}

#[test]
fn bitcoin_is_asked_for_again_for_each_pnt_line() {
    let pricing = get_price_of(&texts(&["BTC", "PNT", "PNT"]), vec![dec("1"), dec("1"), dec("1")], "USD").unwrap();
    let replies = vec![
        (PNT_URL.to_string(), pnt_reply("0.5")),
        (ticker_url("XXBTZUSD"), ticker_reply("XXBTZUSD", "10")),
    ];
    let (result, asked) = run(pricing, &replies);
    assert_eq!(
        asked,
        vec![ticker_url("XXBTZUSD"), PNT_URL.to_string(), ticker_url("XXBTZUSD"), PNT_URL.to_string(), ticker_url("XXBTZUSD")]
    );
    assert_eq!(result.unwrap().grand_total.text(), "20.00");
}

#[test]
fn amounts_that_do_not_match_fail_before_anything_is_asked() {
    let result = get_price_of(&texts(&["BTC", "ETH"]), vec![dec("1"), dec("2"), dec("3")], "GBP");
    assert!(matches!(result, Err(AppError::InputLengthMismatch(2, 3))));
    let assets = Assets::from_strings(&texts(&["BTC", "ETH"])).unwrap();
    let lookup = ExchangeRate::get("USD").unwrap();
    assert!(matches!(Pricing::new(assets, vec![dec("1")], lookup), Err(AppError::InputLengthMismatch(2, 1))));
}

#[test]
fn an_unknown_asset_fails_before_anything_is_asked() {
    let result = get_price_of(&texts(&["BTC", "DOGE", "XYZ"]), vec![dec("1")], "XYZ");
    match result {
        Err(AppError::UnrecognizedAsset(text)) => assert_eq!(text, "DOGE"),
        other => panic!("{:?}", other.is_ok()),
    }
}

#[test]
fn an_unknown_currency_fails_before_anything_is_asked() {
    let result = get_price_of(&texts(&["BTC"]), vec![dec("1")], "XYZ");
    match result {
        Err(AppError::UnsupportedCurrency(code)) => assert_eq!(code, "XYZ"),
        other => panic!("{:?}", other.is_ok()),
    }
}

#[test]
fn a_failed_fetch_ends_the_pricing() {
    let start = || get_price_of(&texts(&["BTC", "ETH"]), vec![dec("1"), dec("2")], "USD").unwrap();
    let good = ticker_reply("XXBTZUSD", "50000");

    let (result, asked) = run(start(), &[(ticker_url("XXBTZUSD"), "not json".to_string())]);
    assert!(matches!(result, Err(AppError::MalformedResponse(_))));
    assert_eq!(asked.len(), 1);

    let (result, _) = run(start(), &[(ticker_url("XXBTZUSD"), "{\"error\":[\"EQuery:Unknown asset pair\"]}".to_string())]);
    match result {
        Err(AppError::MissingField(path)) => assert_eq!(path, "result"),
        _ => panic!(),
    }

    let (result, _) = run(start(), &[(ticker_url("XXBTZUSD"), "{\"result\":{\"XETHZUSD\":{}}}".to_string())]);
    match result {
        Err(AppError::MissingField(path)) => assert_eq!(path, "result.XXBTZUSD"),
        _ => panic!(),
    }

    let (result, _) = run(start(), &[(ticker_url("XXBTZUSD"), "{\"result\":{\"XXBTZUSD\":{\"a\":[]}}}".to_string())]);
    match result {
        Err(AppError::MissingField(path)) => assert_eq!(path, "result.XXBTZUSD.c"),
        _ => panic!(),
    }

    let (result, _) = run(start(), &[(ticker_url("XXBTZUSD"), "{\"result\":{\"XXBTZUSD\":{\"c\":[]}}}".to_string())]);
    match result {
        Err(AppError::MissingField(path)) => assert_eq!(path, "result.XXBTZUSD.c.0"),
        _ => panic!(),
    }

    let (result, _) = run(start(), &[(ticker_url("XXBTZUSD"), ticker_reply("XXBTZUSD", "a lot"))]);
    match result {
        Err(AppError::NonNumericField(path)) => assert_eq!(path, "result.XXBTZUSD.c.0"),
        _ => panic!(),
    }

    let (result, _) = run(start(), &[(ticker_url("XXBTZUSD"), "{\"result\":{\"XXBTZUSD\":{\"c\":[50000]}}}".to_string())]);
    assert!(matches!(result, Err(AppError::NonNumericField(_))));

    // the second asset's service does not answer: no partial report
    let (result, asked) = run(start(), &[(ticker_url("XXBTZUSD"), good)]);
    match result {
        Err(AppError::TransportFailure(cause)) => {
            assert_eq!(cause, "no route to https://api.kraken.com/0/public/Ticker?pair=XETHZUSD")
        }
        _ => panic!(),
    }
    assert_eq!(asked.len(), 2);
}

#[test]
fn the_total_is_the_sum_of_the_lines_as_shown() {
    let pricing = get_price_of(
        &texts(&["BTC", "ETH", "ADA", "XMR"]),
        vec![dec("0.333"), dec("1.005"), dec("1234.5678"), dec("0.1")],
        "GBP",
    )
    .unwrap();
    let replies = vec![
        (RATES_URL.to_string(), rates_reply("0.8131")),
        (ticker_url("XXBTZUSD"), ticker_reply("XXBTZUSD", "43251.10000")),
        (ticker_url("XETHZUSD"), ticker_reply("XETHZUSD", "3021.55")),
        (ticker_url("ADAUSD"), ticker_reply("ADAUSD", "1.234567")),
        (ticker_url("XXMRZUSD"), ticker_reply("XXMRZUSD", "250.005")),
    ];
    let (result, _) = run(pricing, &replies);
    let result = result.unwrap();
    assert_eq!(result.prices.len(), 4);
    let assets: Vec<&str> = result.prices.iter().map(|line| line.asset.as_str()).collect();
    assert_eq!(assets, vec!["BTC", "ETH", "ADA", "XMR"]);
    let cents = |d: &Decimal| d.text().replace('.', "").parse::<i64>().unwrap();
    for line in &result.prices {
        assert_eq!(line.value.text().split('.').nth(1).unwrap().len(), 2);
    }
    let sum: i64 = result.prices.iter().map(|line| cents(&line.value)).sum();
    assert_eq!(cents(&result.grand_total), sum);
    // 43251.1 * 0.8131 * 0.333 = 11710.7673...
    assert_eq!(result.prices[0].value.text(), "11710.77");
    assert_eq!(result.prices[0].unit_price.text(), "35167.47");
}

#[test]
fn an_empty_portfolio_is_worth_nothing() {
    let pricing = get_price_of(&[], vec![], "USD").unwrap();
    assert!(pricing.request().is_none());
    let result = pricing.finish().unwrap();
    assert!(result.prices.is_empty());
    assert_eq!(result.grand_total.text(), "0.00");
}

#[test]
fn nothing_is_reported_while_something_is_left_to_ask() {
    let pricing = get_price_of(&texts(&["BTC"]), vec![dec("1")], "GBP").unwrap();
    assert!(pricing.finish().is_none());
    let pricing = get_price_of(&texts(&["BTC"]), vec![dec("1")], "USD").unwrap();
    assert!(pricing.finish().is_none());
}

#[test]
fn should_get_usd_price_of_btc() {
    let reply = Json::parse(&ticker_reply("XXBTZUSD", "9501.30000")).unwrap();
    let result = match PriceFetch::new(Asset::new("BTC").unwrap()).advance(&reply).unwrap() {
        Progress::Done(price) => price,
        Progress::More(_) => panic!("bitcoin is quoted in dollars"),
    };
    assert!(result.is_positive());
    assert!(result.text().parse::<f64>().unwrap() > 0.0);
}

#[test]
fn the_rate_of_the_dollar_needs_no_request() {
    for code in ["USD", "usd", "Usd"] {
        match ExchangeRate::get(code).unwrap() {
            RateLookup::Ready(rate) => {
                assert_eq!(rate.get_rate().text(), "1");
                assert_eq!(rate.get_symbol(), "USD");
            }
            RateLookup::Pending(_) => panic!("the dollar's rate is known"),
        }
        let pricing = get_price_of(&[], vec![], code).unwrap();
        assert!(pricing.request().is_none());
    }
}
