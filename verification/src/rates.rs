//! The rate at which US dollars are turned into the currency of a report.

use crate::decimal::{Decimal, Quantity};
use crate::errors::{AppError, Failure};
use crate::json::{json_of, Json};
use crate::source::{agrees, number_in, Source, SourceView};
use crate::text::{folded, is_word};
use vstd::prelude::*;
use vstd::string::*;

verus! {

/// A currency in which a portfolio can be valued.
#[derive(Clone, Copy, Debug, PartialEq, Eq, Structural)]
pub enum Currency {
    USD,
    GBP,
}

/// The code of a currency.
pub open spec fn code(currency: Currency) -> Seq<char> {
    match currency {
        Currency::USD => "USD"@,
        Currency::GBP => "GBP"@,
    }
}

/// The currency that a text names: its code in any mixture of upper and
/// lower case.
pub open spec fn currency_of(s: Seq<char>) -> Option<Currency> {
    if folded(s) == code(Currency::USD) {
        Some(Currency::USD)
    } else if folded(s) == code(Currency::GBP) {
        Some(Currency::GBP)
    } else {
        None
    }
}

/// What one US dollar is worth in a currency, under the currency's name.
#[derive(Debug)]
pub enum ExchangeRate {
    GBP(Decimal),
    USD(Decimal),
}

/// An exchange rate as a factor and the code of its currency.
pub struct Rate {
    pub factor: Quantity,
    pub symbol: Seq<char>,
}

impl View for ExchangeRate {
    type V = Rate;

    open spec fn view(&self) -> Rate {
        match self {
            ExchangeRate::GBP(factor) => Rate { factor: factor@, symbol: code(Currency::GBP) },
            ExchangeRate::USD(factor) => Rate { factor: factor@, symbol: code(Currency::USD) },
        }
    }
}

/// What is known of a rate before anything has been asked of a service.
#[derive(Debug)]
pub enum RateLookup {
    /// The rate is known: nothing is to be asked.
    Ready(ExchangeRate),
    /// The rates have to be asked for, and hold the rate of this currency.
    Pending(Currency),
}

/// What is known of the rate of the currency that a text names: the US
/// dollar is worth one US dollar, every other currency has to be asked for.
pub open spec fn lookup_of(s: Seq<char>) -> Result<Result<Rate, Currency>, Failure> {
    match currency_of(s) {
        None => Err(Failure::UnsupportedCurrency(s)),
        Some(Currency::USD) => Ok(
            Ok(Rate { factor: Quantity { units: 1, places: 0 }, symbol: code(Currency::USD) }),
        ),
        Some(currency) => Ok(Err(currency)),
    }
}

impl View for RateLookup {
    type V = Result<Rate, Currency>;

    open spec fn view(&self) -> Result<Rate, Currency> {
        match self {
            RateLookup::Ready(rate) => Ok(rate@),
            RateLookup::Pending(currency) => Err(*currency),
        }
    }
}

/// The service that is asked for the rates of the US dollar, and the place
/// of a currency's rate in its reply: the number under the currency's code
/// among the `rates`.
pub open spec fn rate_source(currency: Currency) -> SourceView {
    SourceView {
        url: "https://api.ratesapi.io/api/latest?base=USD"@,
        path: seq!["rates"@, code(currency)],
        listed: false,
    }
}

/// The rate of a currency that a reply of the rate service holds.
pub open spec fn rate_in(currency: Currency, json: Json) -> Result<Rate, Failure> {
    match number_in(rate_source(currency), json) {
        Err(failure) => Err(failure),
        Ok(factor) => Ok(Rate { factor, symbol: code(currency) }),
    }
}

impl Currency {
    /// The code of the currency.
    pub fn code(&self) -> (r: &'static str)
        ensures
            r@ == code(*self),
    {
        match self {
            Currency::USD => "USD",
            Currency::GBP => "GBP",
        }
    }

    /// The service that is asked for the rate of the currency.
    pub fn source(&self) -> (r: Source)
        ensures
            r@ == rate_source(*self),
    {
        let mut path: Vec<String> = Vec::new();
        path.push(String::from_str("rates"));
        path.push(String::from_str(self.code()));
        let r = Source {
            url: String::from_str("https://api.ratesapi.io/api/latest?base=USD"),
            path,
            listed: false,
        };
        assert(r@.path =~= rate_source(*self).path);
        r
    }
}

impl ExchangeRate {
    /// Decides how the rate of a currency is had. A text that names no
    /// currency known here is handed back in the error.
    pub fn get(currency_symbol: &str) -> (r: Result<RateLookup, AppError>)
        ensures
            match lookup_of(currency_symbol@) {
                Ok(lookup) => r is Ok && r->Ok_0@ == lookup,
                Err(failure) => r is Err && r->Err_0@ == failure,
            },
    {
        if is_word(currency_symbol, "USD") {
            Ok(RateLookup::Ready(ExchangeRate::USD(Decimal::one())))
        } else if is_word(currency_symbol, "GBP") {
            Ok(RateLookup::Pending(Currency::GBP))
        } else {
            Err(AppError::UnsupportedCurrency(currency_symbol.to_owned()))
        }
    }

    /// The rate of a currency in a reply of the rate service.
    pub fn from_json(currency: Currency, json: &Json) -> (r: Result<ExchangeRate, AppError>)
        ensures
            match rate_in(currency, *json) {
                Ok(rate) => r is Ok && r->Ok_0@ == rate,
                Err(failure) => r is Err && r->Err_0@ == failure,
            },
    {
        match currency.source().read(json) {
            Err(error) => Err(error),
            Ok(factor) => match currency {
                Currency::USD => Ok(ExchangeRate::USD(factor)),
                Currency::GBP => Ok(ExchangeRate::GBP(factor)),
            },
        }
    }

    /// The factor of the rate.
    pub fn get_rate(&self) -> (r: Decimal)
        ensures
            r@ == self@.factor,
    {
        match self {
            ExchangeRate::GBP(rate) => rate.copy(),
            ExchangeRate::USD(rate) => rate.copy(),
        }
    }

    /// The code of the rate's currency.
    pub fn get_symbol(&self) -> (r: String)
        ensures
            r@ == self@.symbol,
    {
        match self {
            ExchangeRate::GBP(_) => String::from_str("GBP"),
            ExchangeRate::USD(_) => String::from_str("USD"),
        }
    }
}

/// The rates of the US dollar that a reply of the rate service holds.
#[derive(Debug)]
pub struct ExchangeRates {
    pub gbp: Decimal,
}

impl ExchangeRates {
    /// The pound's rate in a reply of the rate service.
    pub fn get_gbp_from_json(json: &Json) -> (r: Result<Decimal, AppError>)
        ensures
            agrees(r, number_in(rate_source(Currency::GBP), *json)),
    {
        Currency::GBP.source().read(json)
    }

    /// The rates in a reply of the rate service.
    pub fn from_json(json: &Json) -> (r: Result<ExchangeRates, AppError>)
        ensures
            match number_in(rate_source(Currency::GBP), *json) {
                Ok(gbp) => r is Ok && r->Ok_0.gbp@ == gbp,
                Err(failure) => r is Err && r->Err_0@ == failure,
            },
    {
        match ExchangeRates::get_gbp_from_json(json) {
            Ok(gbp) => Ok(ExchangeRates { gbp }),
            Err(error) => Err(error),
        }
    }

    /// The rates in the text of a reply of the rate service.
    pub fn get(body: &str) -> (r: Result<ExchangeRates, AppError>)
        ensures
            match json_of(body@) {
                Err(cause) => r is Err && r->Err_0@ == Failure::MalformedResponse(cause@),
                Ok(json) => match number_in(rate_source(Currency::GBP), json) {
                    Ok(gbp) => r is Ok && r->Ok_0.gbp@ == gbp,
                    Err(failure) => r is Err && r->Err_0@ == failure,
                },
            },
    {
        match Json::parse(body) {
            Ok(json) => ExchangeRates::from_json(&json),
            Err(error) => Err(error),
        }
    }
}

/// The US dollar, however its code is written, is worth one US dollar, and
/// that is known without asking; every other currency that is known has to
/// be asked for; and a text that names no currency is refused.
pub proof fn law_lookup(s: Seq<char>)
    ensures
        folded(s) == "USD"@ ==> lookup_of(s) == Ok::<Result<Rate, Currency>, Failure>(
            Ok(Rate { factor: Quantity { units: 1, places: 0 }, symbol: "USD"@ }),
        ),
        folded(s) == "GBP"@ ==> lookup_of(s) == Ok::<Result<Rate, Currency>, Failure>(
            Err(Currency::GBP),
        ),
        folded(s) != "USD"@ && folded(s) != "GBP"@ ==> lookup_of(s) == Err::<
            Result<Rate, Currency>,
            Failure,
        >(Failure::UnsupportedCurrency(s)),
{
    reveal_strlit("USD");
    reveal_strlit("GBP");
    if folded(s) == "GBP"@ {
        assert("GBP"@[0] != "USD"@[0]);
    }
}

/// The rate that a reply gives for a currency goes by the currency's code,
/// and its factor is the number that the reply holds under that code among
/// the `rates`: above zero exactly where that number is.
pub proof fn law_rate(currency: Currency, json: Json)
    ensures
        match rate_in(currency, json) {
            Ok(rate) => rate.symbol == code(currency) && number_in(rate_source(currency), json)
                == Ok::<Quantity, Failure>(rate.factor),
            Err(failure) => number_in(rate_source(currency), json) == Err::<Quantity, Failure>(
                failure,
            ),
        },
{
}

} // verus!
