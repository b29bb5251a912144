//! The assets that can be priced: how a text names one, where its price is
//! asked for, and what a holding of it is worth.

use crate::decimal::{plus, round_to, times, Decimal, Quantity};
use crate::errors::{AppError, Failure};
use crate::rates::{ExchangeRate, Rate};
use crate::source::{Source, SourceView};
use crate::text::{folded, is_word, same_ignoring_case};
use vstd::prelude::*;
use vstd::string::*;

verus! {

/// An asset that can be priced.
#[derive(Clone, Copy, Debug, PartialEq, Eq, Structural)]
pub enum Asset {
    BTC,
    ETH,
    ADA,
    XMR,
    PNT,
}

/// The ticker of an asset.
pub open spec fn ticker(asset: Asset) -> Seq<char> {
    match asset {
        Asset::BTC => "BTC"@,
        Asset::ETH => "ETH"@,
        Asset::ADA => "ADA"@,
        Asset::XMR => "XMR"@,
        Asset::PNT => "PNT"@,
    }
}

/// The full name of an asset, in upper case.
pub open spec fn full_name(asset: Asset) -> Seq<char> {
    match asset {
        Asset::BTC => "BITCOIN"@,
        Asset::ETH => "ETHEREUM"@,
        Asset::ADA => "CARDANO"@,
        Asset::XMR => "MONERO"@,
        Asset::PNT => "PNETWORK"@,
    }
}

/// Whether the text names the asset: it is the asset's ticker or its full
/// name, in any mixture of upper and lower case.
pub open spec fn names(s: Seq<char>, asset: Asset) -> bool {
    folded(s) == ticker(asset) || folded(s) == full_name(asset)
}

/// The asset that a text names, if it names one.
pub open spec fn resolve(s: Seq<char>) -> Option<Asset> {
    if names(s, Asset::BTC) {
        Some(Asset::BTC)
    } else if names(s, Asset::ETH) {
        Some(Asset::ETH)
    } else if names(s, Asset::ADA) {
        Some(Asset::ADA)
    } else if names(s, Asset::XMR) {
        Some(Asset::XMR)
    } else if names(s, Asset::PNT) {
        Some(Asset::PNT)
    } else {
        None
    }
}

/// The assets that the first `n` of the texts name, if each names one;
/// otherwise the first text among them that names none.
pub open spec fn resolve_all(texts: Seq<String>, n: int) -> Result<Seq<Asset>, Seq<char>>
    decreases n,
{
    if n <= 0 {
        Ok(Seq::empty())
    } else {
        match resolve_all(texts, n - 1) {
            Err(text) => Err(text),
            Ok(assets) => match resolve(texts[n - 1]@) {
                None => Err(texts[n - 1]@),
                Some(asset) => Ok(assets.push(asset)),
            },
        }
    }
}

impl Asset {
    /// The asset that a text names: a ticker or a full name, in any mixture
    /// of upper and lower case. A text that names none is handed back in the
    /// error.
    pub fn new(s: &str) -> (r: Result<Asset, AppError>)
        ensures
            match resolve(s@) {
                Some(asset) => r == Ok::<Asset, AppError>(asset),
                None => r is Err && r->Err_0@ == Failure::UnrecognizedAsset(s@),
            },
    {
        if is_word(s, "BTC") || is_word(s, "BITCOIN") {
            Ok(Asset::BTC)
        } else if is_word(s, "ETH") || is_word(s, "ETHEREUM") {
            Ok(Asset::ETH)
        } else if is_word(s, "ADA") || is_word(s, "CARDANO") {
            Ok(Asset::ADA)
        } else if is_word(s, "XMR") || is_word(s, "MONERO") {
            Ok(Asset::XMR)
        } else if is_word(s, "PNT") || is_word(s, "PNETWORK") {
            Ok(Asset::PNT)
        } else {
            Err(AppError::UnrecognizedAsset(s.to_owned()))
        }
    }

    /// The ticker of the asset.
    pub fn to_ticker(&self) -> (r: String)
        ensures
            r@ == ticker(*self),
    {
        match self {
            Asset::BTC => String::from_str("BTC"),
            Asset::ETH => String::from_str("ETH"),
            Asset::ADA => String::from_str("ADA"),
            Asset::XMR => String::from_str("XMR"),
            Asset::PNT => String::from_str("PNT"),
        }
    }
}

/// The assets of a portfolio, in the order in which they were asked for.
#[derive(Debug)]
pub struct Assets {
    pub assets: Vec<Asset>,
}

impl Assets {
    /// The portfolio of the given assets.
    pub fn new(assets: Vec<Asset>) -> (r: Assets)
        ensures
            r.assets == assets,
    {
        Assets { assets }
    }

    /// The assets that the texts name, in the order of the texts. The first
    /// text that names no asset fails the whole.
    pub fn from_strings(strings: &[String]) -> (r: Result<Assets, AppError>)
        ensures
            match resolve_all(strings@, strings@.len() as int) {
                Ok(assets) => r is Ok && r->Ok_0.assets@ == assets,
                Err(text) => r is Err && r->Err_0@ == Failure::UnrecognizedAsset(text),
            },
    {
        let mut assets: Vec<Asset> = Vec::new();
        let mut i: usize = 0;
        while i < strings.len()
            invariant
                i <= strings@.len(),
                resolve_all(strings@, i as int) == Ok::<Seq<Asset>, Seq<char>>(assets@),
            decreases strings@.len() - i,
        {
            match Asset::new(strings[i].as_str()) {
                Ok(asset) => {
                    assets.push(asset);
                },
                Err(error) => {
                    proof {
                        lemma_resolve_all_fails(strings@, i + 1, strings@.len() as int);
                    }
                    return Err(error);
                },
            }
            i += 1;
        }
        Ok(Assets::new(assets))
    }
}

/// Once a text among the first `n` names no asset, more texts change nothing.
proof fn lemma_resolve_all_fails(texts: Seq<String>, n: int, m: int)
    requires
        n <= m,
        resolve_all(texts, n) is Err,
    ensures
        resolve_all(texts, m) == resolve_all(texts, n),
    decreases m - n,
{
    if n < m {
        lemma_resolve_all_fails(texts, n, m - 1);
    }
}

/// The asset in which the price of an asset is quoted, where that is not
/// the US dollar.
pub open spec fn base_of(asset: Asset) -> Option<Asset> {
    match asset {
        Asset::PNT => Some(Asset::BTC),
        _ => None,
    }
}

/// The ticker service asked for a pair of an asset and the US dollar. It
/// quotes the price under the name of the pair, as the first item of the
/// list `c`: the price of the last trade, written as a string.
pub open spec fn ticker_source(pair: Seq<char>) -> SourceView {
    SourceView {
        url: "https://api.kraken.com/0/public/Ticker?pair="@ + pair,
        path: seq!["result"@, pair, "c"@],
        listed: true,
    }
}

/// The token service asked for the price of the PNT token in bitcoin. It
/// quotes the price under the token's contract, as the number `btc`.
pub open spec fn token_source() -> SourceView {
    SourceView {
        url: "https://api.coingecko.com/api/v3/simple/token_price/ethereum?contract_addresses=0x89ab32156e46f46d02ade3fecbe5fc4243b9aaed&vs_currencies=btc"@,
        path: seq!["0x89ab32156e46f46d02ade3fecbe5fc4243b9aaed"@, "btc"@],
        listed: false,
    }
}

/// Where the price of an asset is asked for.
pub open spec fn source_of(asset: Asset) -> SourceView {
    match asset {
        Asset::BTC => ticker_source("XXBTZUSD"@),
        Asset::ETH => ticker_source("XETHZUSD"@),
        Asset::ADA => ticker_source("ADAUSD"@),
        Asset::XMR => ticker_source("XXMRZUSD"@),
        Asset::PNT => token_source(),
    }
}

/// The ticker service asked for a pair.
fn ticker_service(pair: &str) -> (r: Source)
    ensures
        r@ == ticker_source(pair@),
{
    let mut path: Vec<String> = Vec::new();
    path.push(String::from_str("result"));
    path.push(String::from_str(pair));
    path.push(String::from_str("c"));
    let r = Source {
        url: String::from_str("https://api.kraken.com/0/public/Ticker?pair=").concat(pair),
        path,
        listed: true,
    };
    assert(r@.path =~= ticker_source(pair@).path);
    r
}

/// The token service asked for the price of the PNT token.
fn token_service() -> (r: Source)
    ensures
        r@ == token_source(),
{
    let mut path: Vec<String> = Vec::new();
    path.push(String::from_str("0x89ab32156e46f46d02ade3fecbe5fc4243b9aaed"));
    path.push(String::from_str("btc"));
    let r = Source {
        url: String::from_str(
            "https://api.coingecko.com/api/v3/simple/token_price/ethereum?contract_addresses=0x89ab32156e46f46d02ade3fecbe5fc4243b9aaed&vs_currencies=btc",
        ),
        path,
        listed: false,
    };
    assert(r@.path =~= token_source().path);
    r
}

/// One line of a report: what an amount of an asset is worth.
#[derive(Debug)]
pub struct PriceQuote {
    /// The amount that is held.
    pub amount: Decimal,
    /// The ticker of the asset.
    pub asset: String,
    /// The code of the currency of `value` and `unit_price`.
    pub currency: String,
    /// What one US dollar is worth in that currency.
    pub exchange_rate: Decimal,
    /// What the amount is worth, to the cent.
    pub value: Decimal,
    /// The price of one unit in the currency, to the cent.
    pub unit_price: Decimal,
    /// The price of one unit in US dollars, to the cent.
    pub unit_price_usd: Decimal,
}

/// A line of a report as mathematics sees it.
pub struct Line {
    pub amount: Quantity,
    pub asset: Seq<char>,
    pub currency: Seq<char>,
    pub exchange_rate: Quantity,
    pub value: Quantity,
    pub unit_price: Quantity,
    pub unit_price_usd: Quantity,
}

impl View for PriceQuote {
    type V = Line;

    open spec fn view(&self) -> Line {
        Line {
            amount: self.amount@,
            asset: self.asset@,
            currency: self.currency@,
            exchange_rate: self.exchange_rate@,
            value: self.value@,
            unit_price: self.unit_price@,
            unit_price_usd: self.unit_price_usd@,
        }
    }
}

/// The line for an amount of an asset whose unit costs `usd_price` US
/// dollars. The price in the currency is the price in dollars times the
/// rate; the value is that price times the amount. Value and prices are
/// rounded to the cent, each on its own.
pub open spec fn line_of(asset: Asset, amount: Quantity, usd_price: Quantity, rate: Rate) -> Line {
    let unit_price = times(usd_price, rate.factor);
    Line {
        amount,
        asset: ticker(asset),
        currency: rate.symbol,
        exchange_rate: rate.factor,
        value: round_to(times(unit_price, amount), 2),
        unit_price: round_to(unit_price, 2),
        unit_price_usd: round_to(usd_price, 2),
    }
}

/// The numbers of a vector as quantities.
pub open spec fn quantities(v: Seq<Decimal>) -> Seq<Quantity> {
    Seq::new(v.len(), |i: int| v[i]@)
}

/// The quotes of a vector as lines.
pub open spec fn lines(v: Seq<PriceQuote>) -> Seq<Line> {
    Seq::new(v.len(), |i: int| v[i]@)
}

/// The lines of a portfolio: one for each asset, in the order of the assets.
pub open spec fn lines_of(
    assets: Seq<Asset>,
    amounts: Seq<Quantity>,
    usd_prices: Seq<Quantity>,
    rate: Rate,
) -> Seq<Line> {
    Seq::new(assets.len(), |i: int| line_of(assets[i], amounts[i], usd_prices[i], rate))
}

/// The sum of the values of the lines.
pub open spec fn values_sum(lines: Seq<Line>) -> Quantity
    decreases lines.len(),
{
    if lines.len() == 0 {
        Quantity { units: 0, places: 0 }
    } else {
        plus(values_sum(lines.drop_last()), lines.last().value)
    }
}

/// What a portfolio is worth: its lines, and their total.
#[derive(Debug)]
pub struct PortfolioResult {
    /// The sum of the values of the lines, to the cent.
    pub grand_total: Decimal,
    /// One line for each asset, in the order in which they were asked for.
    pub prices: Vec<PriceQuote>,
}

/// A report as mathematics sees it.
pub struct Report {
    pub grand_total: Quantity,
    pub prices: Seq<Line>,
}

impl View for PortfolioResult {
    type V = Report;

    open spec fn view(&self) -> Report {
        Report { grand_total: self.grand_total@, prices: lines(self.prices@) }
    }
}

/// The report on a portfolio: the total is the sum of the values of the
/// lines as they stand in the report, rounded to the cent.
pub open spec fn report_of(
    assets: Seq<Asset>,
    amounts: Seq<Quantity>,
    usd_prices: Seq<Quantity>,
    rate: Rate,
) -> Report {
    let prices = lines_of(assets, amounts, usd_prices, rate);
    Report { grand_total: round_to(values_sum(prices), 2), prices }
}

impl Asset {
    /// The asset in which the price of this asset is quoted, where that is
    /// not the US dollar.
    pub fn base(&self) -> (r: Option<Asset>)
        ensures
            r == base_of(*self),
    {
        match self {
            Asset::PNT => Some(Asset::BTC),
            _ => None,
        }
    }

    /// Where the price of the asset is asked for.
    pub fn source(&self) -> (r: Source)
        ensures
            r@ == source_of(*self),
    {
        match self {
            Asset::BTC => ticker_service("XXBTZUSD"),
            Asset::ETH => ticker_service("XETHZUSD"),
            Asset::ADA => ticker_service("ADAUSD"),
            Asset::XMR => ticker_service("XXMRZUSD"),
            Asset::PNT => token_service(),
        }
    }

    /// The line for `x` units of the asset, one of which costs `usd_price`
    /// US dollars.
    pub fn get_price_for_x(&self, x: &Decimal, usd_price: &Decimal, rate: &ExchangeRate) -> (r:
        PriceQuote)
        ensures
            r@ == line_of(*self, x@, usd_price@, rate@),
    {
        let factor: Decimal = rate.get_rate();
        let unit_price: Decimal = usd_price.times(&factor);
        PriceQuote {
            amount: x.copy(),
            asset: self.to_ticker(),
            currency: rate.get_symbol(),
            value: unit_price.times(x).round(2),
            unit_price: unit_price.round(2),
            unit_price_usd: usd_price.round(2),
            exchange_rate: factor,
        }
    }
}

impl Assets {
    /// The values of the lines, in their order.
    pub fn get_value_totals(prices: &Vec<PriceQuote>) -> (r: Vec<Decimal>)
        ensures
            r@.len() == prices@.len(),
            forall|i: int| 0 <= i < r@.len() ==> (#[trigger] r@[i])@ == prices@[i]@.value,
    {
        let mut values: Vec<Decimal> = Vec::new();
        let mut i: usize = 0;
        while i < prices.len()
            invariant
                i <= prices@.len(),
                values@.len() == i,
                forall|k: int| 0 <= k < i ==> (#[trigger] values@[k])@ == prices@[k]@.value,
            decreases prices@.len() - i,
        {
            values.push(prices[i].value.copy());
            i += 1;
        }
        values
    }

    /// The sum of the values of the lines.
    pub fn sum_values(prices: &Vec<PriceQuote>) -> (r: Decimal)
        ensures
            r@ == values_sum(lines(prices@)),
    {
        let values: Vec<Decimal> = Assets::get_value_totals(prices);
        let mut total: Decimal = Decimal::zero();
        let mut i: usize = 0;
        proof {
            assert(lines(prices@).take(0) =~= Seq::<Line>::empty());
        }
        while i < values.len()
            invariant
                i <= values@.len(),
                values@.len() == prices@.len(),
                forall|k: int| 0 <= k < values@.len() ==> (#[trigger] values@[k])@ == prices@[k]@.value,
                total@ == values_sum(lines(prices@).take(i as int)),
            decreases values@.len() - i,
        {
            proof {
                let before = lines(prices@).take(i as int);
                let after = lines(prices@).take(i + 1);
                assert(after.drop_last() =~= before);
                assert(after.last() == prices@[i as int]@);
            }
            total = total.plus(&values[i]);
            i += 1;
        }
        proof {
            assert(lines(prices@).take(i as int) =~= lines(prices@));
        }
        total
    }

    /// The report on the portfolio, given the amount that is held of each
    /// asset and the price of each in US dollars, both in the order of the
    /// assets. Amounts or prices that are not as many as the assets fail,
    /// with the number of assets and the number that was found instead.
    pub fn get_prices_json(
        &self,
        amounts: &Vec<Decimal>,
        usd_prices: &Vec<Decimal>,
        rate: &ExchangeRate,
    ) -> (r: Result<PortfolioResult, AppError>)
        ensures
            amounts@.len() != self.assets@.len() ==> r is Err && r->Err_0@
                == Failure::InputLengthMismatch(
                self.assets@.len() as int,
                amounts@.len() as int,
            ),
            amounts@.len() == self.assets@.len() && usd_prices@.len() != self.assets@.len() ==> r is Err
                && r->Err_0@ == Failure::InputLengthMismatch(
                self.assets@.len() as int,
                usd_prices@.len() as int,
            ),
            amounts@.len() == self.assets@.len() && usd_prices@.len() == self.assets@.len() ==> r is Ok
                && r->Ok_0@ == report_of(
                self.assets@,
                quantities(amounts@),
                quantities(usd_prices@),
                rate@,
            ),
    {
        let n: usize = self.assets.len();
        if amounts.len() != n {
            return Err(AppError::InputLengthMismatch(n, amounts.len()));
        }
        if usd_prices.len() != n {
            return Err(AppError::InputLengthMismatch(n, usd_prices.len()));
        }
        let ghost wanted = lines_of(
            self.assets@,
            quantities(amounts@),
            quantities(usd_prices@),
            rate@,
        );
        let mut prices: Vec<PriceQuote> = Vec::new();
        let mut i: usize = 0;
        while i < n
            invariant
                i <= n,
                n == self.assets@.len(),
                n == amounts@.len(),
                n == usd_prices@.len(),
                wanted == lines_of(
                    self.assets@,
                    quantities(amounts@),
                    quantities(usd_prices@),
                    rate@,
                ),
                lines(prices@) =~= wanted.take(i as int),
            decreases n - i,
        {
            let line: PriceQuote = self.assets[i].get_price_for_x(
                &amounts[i],
                &usd_prices[i],
                rate,
            );
            proof {
                assert(quantities(amounts@)[i as int] == amounts@[i as int]@);
                assert(quantities(usd_prices@)[i as int] == usd_prices@[i as int]@);
                assert(wanted[i as int] == line@);
                assert(lines(prices@.push(line)) =~= lines(prices@).push(line@));
            }
            prices.push(line);
            i += 1;
        }
        proof {
            assert(wanted.take(n as int) =~= wanted);
        }
        let grand_total: Decimal = Assets::sum_values(&prices).round(2);
        Ok(PortfolioResult { grand_total, prices })
    }
}

/// Texts that differ only in the case of ASCII letters name the same asset,
/// or both name none.
pub proof fn law_resolve_ignores_case(a: Seq<char>, b: Seq<char>)
    requires
        same_ignoring_case(a, b),
    ensures
        resolve(a) == resolve(b),
{
}

/// The ticker and the full name of an asset, however they are written, name
/// that asset and no other: whichever alias is chosen, the asset is the same.
pub proof fn law_resolve_alias(s: Seq<char>, asset: Asset)
    requires
        names(s, asset),
    ensures
        resolve(s) == Some(asset),
        forall|other: Asset| names(s, other) ==> other == asset,
{
    reveal_strlit("BTC");
    reveal_strlit("ETH");
    reveal_strlit("ADA");
    reveal_strlit("XMR");
    reveal_strlit("PNT");
    reveal_strlit("BITCOIN");
    reveal_strlit("ETHEREUM");
    reveal_strlit("CARDANO");
    reveal_strlit("MONERO");
    reveal_strlit("PNETWORK");
    let f = folded(s);
    assert forall|other: Asset| names(s, other) implies other == asset by {
        if other != asset {
            // the aliases of two assets differ in one of their first two characters
            assert(f.len() >= 3);
            assert(ticker(asset)[0] != ticker(other)[0] || ticker(asset)[1] != ticker(other)[1]);
            assert(ticker(asset)[0] != full_name(other)[0] || ticker(asset)[1] != full_name(
                other,
            )[1]);
            assert(full_name(asset)[0] != ticker(other)[0] || full_name(asset)[1] != ticker(
                other,
            )[1]);
            assert(full_name(asset)[0] != full_name(other)[0] || full_name(asset)[1] != full_name(
                other,
            )[1]);
            assert(false);
        }
    }
}

/// Two texts that name one asset resolve to that asset both, whichever of
/// its aliases each one is and however each is written.
pub proof fn law_resolve_same(a: Seq<char>, b: Seq<char>, asset: Asset)
    requires
        names(a, asset),
        names(b, asset),
    ensures
        resolve(a) == Some(asset),
        resolve(b) == Some(asset),
{
    law_resolve_alias(a, asset);
    law_resolve_alias(b, asset);
}

/// A text names the asset that it resolves to, and a text that resolves to
/// nothing names no asset at all: there is no asset by default.
pub proof fn law_resolve_exact(s: Seq<char>)
    ensures
        match resolve(s) {
            Some(asset) => names(s, asset),
            None => forall|asset: Asset| !names(s, asset),
        },
{
}

/// The sum of the values of the lines, in hundredths.
pub open spec fn cents_sum(lines: Seq<Line>) -> int
    decreases lines.len(),
{
    if lines.len() == 0 {
        0
    } else {
        cents_sum(lines.drop_last()) + lines.last().value.units
    }
}

/// Where every value has two places, so has their sum, and its hundredths
/// are the sum of theirs.
proof fn lemma_values_sum(lines: Seq<Line>)
    requires
        forall|i: int| 0 <= i < lines.len() ==> (#[trigger] lines[i]).value.places == 2,
    ensures
        values_sum(lines).units == cents_sum(lines),
        values_sum(lines).places == if lines.len() == 0 {
            0nat
        } else {
            2nat
        },
    decreases lines.len(),
{
    reveal_with_fuel(crate::digits::pow10, 3);
    if lines.len() > 0 {
        let before = lines.drop_last();
        assert forall|i: int| 0 <= i < before.len() implies (#[trigger] before[i]).value.places
            == 2 by {
            assert(before[i] == lines[i]);
        }
        lemma_values_sum(before);
        assert(lines.last() == lines[lines.len() - 1]);
        let v = lines.last().value.units;
        let total = values_sum(before).units;
        assert(v * 1 == v) by (nonlinear_arith);
        assert(total * 1 == total) by (nonlinear_arith);
        assert(0 * 100 == 0);
    }
}

/// A report has one line for each asset, in the order of the assets, each
/// with the asset's ticker and the amount that is held of it. Each value is
/// in hundredths, and the total is their sum exactly: rounding the sum of
/// values that are rounded already changes nothing.
pub proof fn law_report(
    assets: Seq<Asset>,
    amounts: Seq<Quantity>,
    usd_prices: Seq<Quantity>,
    rate: Rate,
)
    requires
        amounts.len() == assets.len(),
        usd_prices.len() == assets.len(),
    ensures
        ({
            let report = report_of(assets, amounts, usd_prices, rate);
            &&& report.prices.len() == assets.len()
            &&& forall|i: int|
                0 <= i < assets.len() ==> {
                    &&& (#[trigger] report.prices[i]).asset == ticker(assets[i])
                    &&& report.prices[i].amount == amounts[i]
                    &&& report.prices[i] == line_of(assets[i], amounts[i], usd_prices[i], rate)
                    &&& report.prices[i].value.places == 2
                }
            &&& report.grand_total.places == 2
            &&& report.grand_total.units == cents_sum(report.prices)
            &&& assets.len() > 0 ==> report.grand_total == values_sum(report.prices)
        }),
{
    reveal_with_fuel(crate::digits::pow10, 3);
    let report = report_of(assets, amounts, usd_prices, rate);
    lemma_values_sum(report.prices);
    let total = values_sum(report.prices).units;
    assert(total * 1 == total) by (nonlinear_arith);
    assert(0 * 100 == 0);
}

} // verus!
