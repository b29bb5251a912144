use getprice::assets::{Asset, Assets};
use getprice::errors::AppError;

#[test]
fn every_alias_names_its_asset_in_any_case() {
    let aliases = [
        (Asset::BTC, ["BTC", "bitcoin"]),
        (Asset::ETH, ["ETH", "Ethereum"]),
        (Asset::ADA, ["ADA", "cardano"]),
        (Asset::XMR, ["XMR", "MONERO"]),
        (Asset::PNT, ["PNT", "pNetwork"]),
    ];
    for (asset, names) in aliases {
        for name in names {
            assert_eq!(Asset::new(name).unwrap(), asset);
            assert_eq!(Asset::new(&name.to_lowercase()).unwrap(), asset);
            assert_eq!(Asset::new(&name.to_uppercase()).unwrap(), asset);
        }
    }
    assert_eq!(Asset::new("eth").unwrap(), Asset::ETH);
    assert_eq!(Asset::new("eTh").unwrap(), Asset::ETH);
    assert_eq!(Asset::new("EtHeReUm").unwrap(), Asset::ETH);
}

#[test]
fn what_names_no_asset_is_refused() {
    for text in ["", "DOGE", "BT", "BTCC", " BTC", "BTC ", "bit coin", "ΕΤΗ", "ethereum!"] {
        match Asset::new(text) {
            Err(AppError::UnrecognizedAsset(found)) => assert_eq!(found, text),
            _ => panic!("{:?}", text),
        }
    }
}

#[test]
fn tickers_are_in_upper_case() {
    assert_eq!(Asset::new("bitcoin").unwrap().to_ticker(), "BTC");
    assert_eq!(Asset::ETH.to_ticker(), "ETH");
    assert_eq!(Asset::ADA.to_ticker(), "ADA");
    assert_eq!(Asset::XMR.to_ticker(), "XMR");
    assert_eq!(Asset::PNT.to_ticker(), "PNT");
}

#[test]
fn assets_keep_the_order_of_their_names() {
    let names: Vec<String> = ["xmr", "BTC", "Ethereum", "btc"].iter().map(|s| s.to_string()).collect();
    let assets = Assets::from_strings(&names).unwrap();
    assert_eq!(assets.assets, vec![Asset::XMR, Asset::BTC, Asset::ETH, Asset::BTC]);
    assert_eq!(Assets::new(vec![Asset::ADA]).assets, vec![Asset::ADA]);
    let names: Vec<String> = ["xmr", "nope", "BTC", "neither"].iter().map(|s| s.to_string()).collect();
    match Assets::from_strings(&names) {
        Err(AppError::UnrecognizedAsset(found)) => assert_eq!(found, "nope"),
        _ => panic!(),
    }
}

#[test]
fn each_asset_has_its_own_source() {
    let source = Asset::BTC.source();
    assert_eq!(source.url, "https://api.kraken.com/0/public/Ticker?pair=XXBTZUSD");
    assert_eq!(source.path, vec!["result", "XXBTZUSD", "c"]);
    assert!(source.listed);
    assert_eq!(Asset::ETH.source().url, "https://api.kraken.com/0/public/Ticker?pair=XETHZUSD");
    assert_eq!(Asset::ADA.source().url, "https://api.kraken.com/0/public/Ticker?pair=ADAUSD");
    assert_eq!(Asset::XMR.source().url, "https://api.kraken.com/0/public/Ticker?pair=XXMRZUSD");
    let source = Asset::PNT.source();
    assert_eq!(source.path, vec!["0x89ab32156e46f46d02ade3fecbe5fc4243b9aaed", "btc"]);
    assert!(!source.listed);
    assert_eq!(Asset::PNT.base(), Some(Asset::BTC));
    assert_eq!(Asset::BTC.base(), None);
}
