//! Pricing a portfolio, one request at a time.
//!
//! Nothing here talks to a service. A `Pricing` says which address is to be
//! asked next and takes the reply; whoever holds it does the asking. That
//! keeps the order of the requests, and what each reply means, in one place.

use crate::assets::{
    base_of, quantities, report_of, resolve_all, source_of, Asset, Assets, PortfolioResult,
};
use crate::decimal::{times, Decimal, Quantity};
use crate::errors::{AppError, Failure};
use crate::json::{json_of, Json};
use crate::rates::{lookup_of, rate_in, rate_source, Currency, ExchangeRate, Rate, RateLookup};
use crate::source::number_in;
use vstd::prelude::*;

verus! {

/// The pricing of one asset under way: the asset whose quote is asked for
/// next, and the product of the quotes so far.
#[derive(Debug)]
pub struct PriceFetch {
    pub asset: Asset,
    pub so_far: Decimal,
}

/// A pricing under way as mathematics sees it.
pub struct Fetch {
    pub asset: Asset,
    pub so_far: Quantity,
}

impl View for PriceFetch {
    type V = Fetch;

    open spec fn view(&self) -> Fetch {
        Fetch { asset: self.asset, so_far: self.so_far@ }
    }
}

/// What a reply makes of the pricing of one asset.
#[derive(Debug)]
pub enum Progress {
    /// Another quote is needed.
    More(PriceFetch),
    /// The price of one unit in US dollars.
    Done(Decimal),
}

/// What a reply makes of a pricing, as mathematics sees it.
pub enum Step {
    More(Fetch),
    Done(Quantity),
}

impl View for Progress {
    type V = Step;

    open spec fn view(&self) -> Step {
        match self {
            Progress::More(fetch) => Step::More(fetch@),
            Progress::Done(price) => Step::Done(price@),
        }
    }
}

/// The pricing of an asset before any reply.
pub open spec fn fresh(asset: Asset) -> Fetch {
    Fetch { asset, so_far: Quantity { units: 1, places: 0 } }
}

/// What the reply to the request of a pricing makes of it. The quote in the
/// reply is multiplied into the product. An asset that is quoted in US
/// dollars is priced with that; one that is quoted in another asset goes on
/// with the quote of that asset.
pub open spec fn advance(fetch: Fetch, json: Json) -> Result<Step, Failure> {
    match number_in(source_of(fetch.asset), json) {
        Err(failure) => Err(failure),
        Ok(quote) => {
            let product = times(fetch.so_far, quote);
            match base_of(fetch.asset) {
                None => Ok(Step::Done(product)),
                Some(base) => Ok(Step::More(Fetch { asset: base, so_far: product })),
            }
        },
    }
}

impl PriceFetch {
    /// The pricing of an asset before any reply.
    pub fn new(asset: Asset) -> (r: PriceFetch)
        ensures
            r@ == fresh(asset),
    {
        PriceFetch { asset, so_far: Decimal::one() }
    }

    /// The address to ask next.
    pub fn request(&self) -> (r: String)
        ensures
            r@ == source_of(self.asset).url,
    {
        self.asset.source().url
    }

    /// Takes the reply to the request.
    pub fn advance(self, json: &Json) -> (r: Result<Progress, AppError>)
        ensures
            match advance(self@, *json) {
                Ok(step) => r is Ok && r->Ok_0@ == step,
                Err(failure) => r is Err && r->Err_0@ == failure,
            },
    {
        match self.asset.source().read(json) {
            Err(error) => Err(error),
            Ok(quote) => {
                let product: Decimal = self.so_far.times(&quote);
                match self.asset.base() {
                    None => Ok(Progress::Done(product)),
                    Some(base) => Ok(Progress::More(PriceFetch { asset: base, so_far: product })),
                }
            },
        }
    }
}

/// The pricing of a portfolio under way.
#[derive(Debug)]
pub struct Pricing {
    assets: Vec<Asset>,
    amounts: Vec<Decimal>,
    rate: RateLookup,
    usd_prices: Vec<Decimal>,
    current: Option<PriceFetch>,
}

/// The pricing of a portfolio as mathematics sees it.
pub struct Run {
    /// The assets, in the order in which they were asked for.
    pub assets: Seq<Asset>,
    /// The amount that is held of each asset.
    pub amounts: Seq<Quantity>,
    /// The rate, or the currency whose rate has yet to be asked for.
    pub rate: Result<Rate, Currency>,
    /// The prices in US dollars of the assets that are priced already.
    pub usd_prices: Seq<Quantity>,
    /// The pricing of the next asset, unless all are priced.
    pub current: Option<Fetch>,
}

/// The pricing of the asset after the first `done`, if there is one.
pub open spec fn next_fetch(assets: Seq<Asset>, done: int) -> Option<Fetch> {
    if 0 <= done < assets.len() {
        Some(fresh(assets[done]))
    } else {
        None
    }
}

impl Run {
    /// There is an amount for each asset, no more prices than assets, and a
    /// pricing under way unless every asset is priced.
    pub open spec fn sound(self) -> bool {
        &&& self.amounts.len() == self.assets.len()
        &&& self.usd_prices.len() <= self.assets.len()
        &&& self.current is Some <==> self.usd_prices.len() < self.assets.len()
    }

    /// The address to ask next: for the rates while the rate is not known,
    /// then for the quote of the pricing under way; none when all is known.
    pub open spec fn request(self) -> Option<Seq<char>> {
        match self.rate {
            Err(currency) => Some(rate_source(currency).url),
            Ok(_) => match self.current {
                Some(fetch) => Some(source_of(fetch.asset).url),
                None => None,
            },
        }
    }

    /// What the reply to the request makes of the pricing. A failure ends
    /// it. Once nothing is left to ask, a reply changes nothing.
    pub open spec fn step(self, json: Json) -> Result<Run, Failure> {
        match self.rate {
            Err(currency) => match rate_in(currency, json) {
                Err(failure) => Err(failure),
                Ok(rate) => Ok(Run { rate: Ok(rate), ..self }),
            },
            Ok(_) => match self.current {
                None => Ok(self),
                Some(fetch) => match advance(fetch, json) {
                    Err(failure) => Err(failure),
                    Ok(Step::More(fetch)) => Ok(Run { current: Some(fetch), ..self }),
                    Ok(Step::Done(price)) => Ok(
                        Run {
                            usd_prices: self.usd_prices.push(price),
                            current: next_fetch(self.assets, self.usd_prices.len() as int + 1),
                            ..self
                        },
                    ),
                },
            },
        }
    }

    /// What a row of replies makes of the pricing, each being the reply to
    /// the request that the pricing makes after the replies before it.
    pub open spec fn fed(self, replies: Seq<Json>) -> Result<Run, Failure>
        decreases replies.len(),
    {
        if replies.len() == 0 {
            Ok(self)
        } else {
            match self.fed(replies.drop_last()) {
                Err(failure) => Err(failure),
                Ok(run) => run.step(replies.last()),
            }
        }
    }

    /// The report, once nothing is left to ask.
    pub open spec fn report(self) -> Option<crate::assets::Report> {
        match self.rate {
            Ok(rate) if self.current is None => Some(
                report_of(self.assets, self.amounts, self.usd_prices, rate),
            ),
            _ => None,
        }
    }
}

/// The pricing of a portfolio before any request.
pub open spec fn start(assets: Seq<Asset>, amounts: Seq<Quantity>, rate: Result<Rate, Currency>) -> Run {
    Run { assets, amounts, rate, usd_prices: Seq::empty(), current: next_fetch(assets, 0) }
}

impl View for Pricing {
    type V = Run;

    closed spec fn view(&self) -> Run {
        Run {
            assets: self.assets@,
            amounts: quantities(self.amounts@),
            rate: self.rate@,
            usd_prices: quantities(self.usd_prices@),
            current: match self.current {
                Some(fetch) => Some(fetch@),
                None => None,
            },
        }
    }
}

impl Pricing {
    #[verifier::type_invariant]
    spec fn well_formed(&self) -> bool {
        self@.sound()
    }

    /// Starts the pricing of a portfolio. Amounts that are not as many as
    /// the assets fail, with the number of assets and the number of amounts.
    pub fn new(assets: Assets, amounts: Vec<Decimal>, rate: RateLookup) -> (r: Result<
        Pricing,
        AppError,
    >)
        ensures
            amounts@.len() == assets.assets@.len() ==> r is Ok && r->Ok_0@ == start(
                assets.assets@,
                quantities(amounts@),
                rate@,
            ) && r->Ok_0@.sound(),
            amounts@.len() != assets.assets@.len() ==> r is Err && r->Err_0@
                == Failure::InputLengthMismatch(
                assets.assets@.len() as int,
                amounts@.len() as int,
            ),
    {
        let n: usize = assets.assets.len();
        if amounts.len() != n {
            return Err(AppError::InputLengthMismatch(n, amounts.len()));
        }
        let current: Option<PriceFetch> = if n > 0 {
            Some(PriceFetch::new(assets.assets[0]))
        } else {
            None
        };
        let usd_prices: Vec<Decimal> = Vec::new();
        assert(quantities(usd_prices@) =~= Seq::<Quantity>::empty());
        Ok(Pricing { assets: assets.assets, amounts, rate, usd_prices, current })
    }

    /// The address to ask next, if anything is left to ask.
    pub fn request(&self) -> (r: Option<String>)
        ensures
            match self@.request() {
                Some(url) => r is Some && r->Some_0@ == url,
                None => r is None,
            },
    {
        match &self.rate {
            RateLookup::Pending(currency) => Some(currency.source().url),
            RateLookup::Ready(_) => match &self.current {
                Some(fetch) => Some(fetch.request()),
                None => None,
            },
        }
    }

    /// Takes the reply to the request.
    pub fn advance(self, json: &Json) -> (r: Result<Pricing, AppError>)
        ensures
            self@.sound(),
            match self@.step(*json) {
                Ok(run) => r is Ok && r->Ok_0@ == run && run.sound(),
                Err(failure) => r is Err && r->Err_0@ == failure,
            },
    {
        proof {
            use_type_invariant(&self);
        }
        let Pricing { assets, amounts, rate, usd_prices, current } = self;
        match rate {
            RateLookup::Pending(currency) => match ExchangeRate::from_json(currency, json) {
                Err(error) => Err(error),
                Ok(rate) => Ok(
                    Pricing { assets, amounts, rate: RateLookup::Ready(rate), usd_prices, current },
                ),
            },
            RateLookup::Ready(rate) => match current {
                None => Ok(
                    Pricing { assets, amounts, rate: RateLookup::Ready(rate), usd_prices, current: None },
                ),
                Some(fetch) => match fetch.advance(json) {
                    Err(error) => Err(error),
                    Ok(Progress::More(fetch)) => Ok(
                        Pricing {
                            assets,
                            amounts,
                            rate: RateLookup::Ready(rate),
                            usd_prices,
                            current: Some(fetch),
                        },
                    ),
                    Ok(Progress::Done(price)) => {
                        let mut usd_prices: Vec<Decimal> = usd_prices;
                        let ghost before = usd_prices@;
                        usd_prices.push(price);
                        assert(quantities(usd_prices@) =~= quantities(before).push(price@));
                        let done: usize = usd_prices.len();
                        let current: Option<PriceFetch> = if done < assets.len() {
                            Some(PriceFetch::new(assets[done]))
                        } else {
                            None
                        };
                        Ok(
                            Pricing {
                                assets,
                                amounts,
                                rate: RateLookup::Ready(rate),
                                usd_prices,
                                current,
                            },
                        )
                    },
                },
            },
        }
    }

    /// Takes what came of the request: the text of the reply, or the reason
    /// why there is none, which ends the pricing.
    pub fn feed(self, reply: Result<String, String>) -> (r: Result<Pricing, AppError>)
        ensures
            match reply {
                Err(cause) => r is Err && r->Err_0@ == Failure::TransportFailure(cause@),
                Ok(body) => match json_of(body@) {
                    Err(cause) => r is Err && r->Err_0@ == Failure::MalformedResponse(cause@),
                    Ok(json) => match self@.step(json) {
                        Ok(run) => r is Ok && r->Ok_0@ == run && run.sound(),
                        Err(failure) => r is Err && r->Err_0@ == failure,
                    },
                },
            },
    {
        match reply {
            Err(cause) => Err(AppError::TransportFailure(cause)),
            Ok(body) => match Json::parse(body.as_str()) {
                Ok(json) => self.advance(&json),
                Err(error) => Err(error),
            },
        }
    }

    /// The report, once nothing is left to ask; nothing before that.
    pub fn finish(self) -> (r: Option<PortfolioResult>)
        ensures
            match self@.report() {
                Some(report) => r is Some && r->Some_0@ == report,
                None => r is None,
            },
    {
        proof {
            use_type_invariant(&self);
        }
        let Pricing { assets, amounts, rate, usd_prices, current } = self;
        match rate {
            RateLookup::Pending(_) => None,
            RateLookup::Ready(rate) => match current {
                Some(_) => None,
                None => match Assets::new(assets).get_prices_json(&amounts, &usd_prices, &rate) {
                    Ok(report) => Some(report),
                    Err(_) => None,
                },
            },
        }
    }
}

/// Starts the pricing of the assets that the texts name, for the amounts
/// held of each, in the currency that `currency` names. Nothing has been
/// asked of any service when this fails: with the first text that names no
/// asset, else with the numbers of assets and amounts where they differ,
/// else with a currency that is not known.
pub fn get_price_of(assets: &[String], amounts: Vec<Decimal>, currency: &str) -> (r: Result<
    Pricing,
    AppError,
>)
    ensures
        match resolve_all(assets@, assets@.len() as int) {
            Err(text) => r is Err && r->Err_0@ == Failure::UnrecognizedAsset(text),
            Ok(resolved) => if resolved.len() != amounts@.len() {
                r is Err && r->Err_0@ == Failure::InputLengthMismatch(
                    resolved.len() as int,
                    amounts@.len() as int,
                )
            } else {
                match lookup_of(currency@) {
                    Err(failure) => r is Err && r->Err_0@ == failure,
                    Ok(rate) => r is Ok && r->Ok_0@ == start(resolved, quantities(amounts@), rate)
                        && r->Ok_0@.sound(),
                }
            },
        },
{
    let resolved: Assets = match Assets::from_strings(assets) {
        Ok(resolved) => resolved,
        Err(error) => {
            return Err(error);
        },
    };
    if resolved.assets.len() != amounts.len() {
        return Err(AppError::InputLengthMismatch(resolved.assets.len(), amounts.len()));
    }
    match ExchangeRate::get(currency) {
        Err(error) => Err(error),
        Ok(rate) => Pricing::new(resolved, amounts, rate),
    }
}

/// An asset that is quoted in US dollars is priced by one reply, at the
/// quote that the reply holds; where the reply holds none, the pricing fails
/// as the reading of the reply does. So the price is above zero exactly
/// where the quote is.
pub proof fn law_direct_price(asset: Asset, json: Json)
    requires
        base_of(asset) is None,
    ensures
        match number_in(source_of(asset), json) {
            Ok(quote) => advance(fresh(asset), json) == Ok::<Step, Failure>(Step::Done(quote)),
            Err(failure) => advance(fresh(asset), json) == Err::<Step, Failure>(failure),
        },
{
    if let Ok(quote) = number_in(source_of(asset), json) {
        assert(1 * quote.units == quote.units) by (nonlinear_arith);
        assert(times(fresh(asset).so_far, quote) == quote);
    }
}

/// Where the pricing of an asset that is quoted in US dollars succeeds on a
/// quote above zero, the price is above zero.
pub proof fn law_direct_price_positive(asset: Asset, json: Json)
    requires
        base_of(asset) is None,
        advance(fresh(asset), json) is Ok,
        number_in(source_of(asset), json)->Ok_0.units > 0,
    ensures
        advance(fresh(asset), json)->Ok_0 is Done,
        advance(fresh(asset), json)->Ok_0->Done_0.units > 0,
{
    law_direct_price(asset, json);
}

/// The price of PNT in US dollars is its price in bitcoin times the price of
/// bitcoin in US dollars, for the replies that give the two.
pub proof fn law_derived_price(token_reply: Json, bitcoin_reply: Json)
    requires
        number_in(source_of(Asset::PNT), token_reply) is Ok,
        advance(fresh(Asset::BTC), bitcoin_reply) is Ok,
    ensures
        ({
            let in_bitcoin = number_in(source_of(Asset::PNT), token_reply)->Ok_0;
            let first = advance(fresh(Asset::PNT), token_reply);
            &&& advance(fresh(Asset::BTC), bitcoin_reply)->Ok_0 is Done
            &&& first is Ok
            &&& first->Ok_0 is More
            &&& first->Ok_0->More_0.asset == Asset::BTC
            &&& advance(first->Ok_0->More_0, bitcoin_reply) == Ok::<Step, Failure>(
                Step::Done(
                    times(in_bitcoin, advance(fresh(Asset::BTC), bitcoin_reply)->Ok_0->Done_0),
                ),
            )
        }),
{
}

/// A reply never changes the assets, the amounts or a rate that is known,
/// nor a price that was found; it leaves the pricing sound; and while
/// anything is left to ask, it brings the rate, a further quote of the asset
/// under way, or that asset's price.
pub proof fn law_step(run: Run, json: Json)
    requires
        run.sound(),
        run.step(json) is Ok,
    ensures
        ({
            let next = run.step(json)->Ok_0;
            &&& next.sound()
            &&& next.assets == run.assets
            &&& next.amounts == run.amounts
            &&& run.rate is Ok ==> next.rate == run.rate
            &&& run.usd_prices.len() <= next.usd_prices.len() <= run.usd_prices.len() + 1
            &&& next.usd_prices.take(run.usd_prices.len() as int) == run.usd_prices
            &&& run.rate is Err ==> next.rate is Ok && next.usd_prices == run.usd_prices
        }),
{
    let next = run.step(json)->Ok_0;
    assert(next.usd_prices.take(run.usd_prices.len() as int) =~= run.usd_prices);
}

/// Once nothing is left to ask there is a report, and not before. It has a
/// line for each asset, in the order in which the assets were asked for,
/// and its total is the sum of the values of its lines as they stand in it.
pub proof fn law_finish(run: Run)
    requires
        run.sound(),
    ensures
        run.report() is Some <==> run.request() is None,
        run.report() is Some ==> ({
            let report = run.report()->Some_0;
            &&& report.prices.len() == run.assets.len()
            &&& forall|i: int|
                0 <= i < run.assets.len() ==> (#[trigger] report.prices[i]).asset
                    == crate::assets::ticker(run.assets[i]) && report.prices[i].amount
                    == run.amounts[i]
            &&& report.grand_total.places == 2
            &&& report.grand_total.units == crate::assets::cents_sum(report.prices)
        }),
{
    if run.report() is Some {
        crate::assets::law_report(run.assets, run.amounts, run.usd_prices, run.rate->Ok_0);
    }
}

/// Before any reply, what is asked first is the rates where the currency's
/// rate is not known, else the quote of the first asset; and nothing at all
/// for the US dollar and no assets.
pub proof fn law_start(assets: Seq<Asset>, amounts: Seq<Quantity>, rate: Result<Rate, Currency>)
    requires
        amounts.len() == assets.len(),
    ensures
        start(assets, amounts, rate).sound(),
        start(assets, amounts, rate).request() == match rate {
            Err(currency) => Some(rate_source(currency).url),
            Ok(_) => if assets.len() > 0 {
                Some(source_of(assets[0]).url)
            } else {
                None
            },
        },
{
}

/// The quotes that the replies hold, the reply at each place being read as
/// the reply of the service of the asset at that place.
pub open spec fn quotes_in(assets: Seq<Asset>, replies: Seq<Json>) -> Seq<Quantity> {
    Seq::new(assets.len(), |i: int| number_in(source_of(assets[i]), replies[i])->Ok_0)
}

/// Where the rate is not known, the first reply brings it and changes
/// nothing else: the pricing then stands where it would have started with
/// that rate.
pub proof fn law_rate_first(
    assets: Seq<Asset>,
    amounts: Seq<Quantity>,
    currency: Currency,
    json: Json,
)
    ensures
        start(assets, amounts, Err(currency)).step(json) == match rate_in(currency, json) {
            Ok(rate) => Ok::<Run, Failure>(start(assets, amounts, Ok(rate))),
            Err(failure) => Err::<Run, Failure>(failure),
        },
{
}

/// The first `k` replies price the first `k` assets, where each asset is
/// quoted in US dollars and each reply holds its quote.
proof fn lemma_direct_prefix(
    assets: Seq<Asset>,
    amounts: Seq<Quantity>,
    rate: Rate,
    replies: Seq<Json>,
    k: int,
)
    requires
        replies.len() == assets.len(),
        0 <= k <= assets.len(),
        forall|i: int|
            0 <= i < assets.len() ==> base_of(#[trigger] assets[i]) is None && number_in(
                source_of(assets[i]),
                replies[i],
            ) is Ok,
    ensures
        start(assets, amounts, Ok(rate)).fed(replies.take(k)) == Ok::<Run, Failure>(
            Run {
                assets,
                amounts,
                rate: Ok(rate),
                usd_prices: quotes_in(assets, replies).take(k),
                current: next_fetch(assets, k),
            },
        ),
    decreases k,
{
    let quotes = quotes_in(assets, replies);
    if k == 0 {
        assert(replies.take(0) =~= Seq::<Json>::empty());
        assert(quotes.take(0) =~= Seq::<Quantity>::empty());
    } else {
        lemma_direct_prefix(assets, amounts, rate, replies, k - 1);
        assert(replies.take(k).drop_last() =~= replies.take(k - 1));
        assert(replies.take(k).last() == replies[k - 1]);
        assert(base_of(assets[k - 1]) is None);
        law_direct_price(assets[k - 1], replies[k - 1]);
        assert(quotes.take(k - 1).push(quotes[k - 1]) =~= quotes.take(k));
    }
}

/// A portfolio of assets that are quoted in US dollars, with the rate
/// known, is priced by one reply for each asset, in the order of the assets:
/// after them nothing is left to ask, and the report is that of the
/// portfolio at the quotes in the replies.
pub proof fn law_direct_portfolio(
    assets: Seq<Asset>,
    amounts: Seq<Quantity>,
    rate: Rate,
    replies: Seq<Json>,
)
    requires
        amounts.len() == assets.len(),
        replies.len() == assets.len(),
        forall|i: int|
            0 <= i < assets.len() ==> base_of(#[trigger] assets[i]) is None && number_in(
                source_of(assets[i]),
                replies[i],
            ) is Ok,
    ensures
        ({
            let end = start(assets, amounts, Ok(rate)).fed(replies);
            &&& end is Ok
            &&& end->Ok_0.request() is None
            &&& end->Ok_0.report() == Some(
                report_of(assets, amounts, quotes_in(assets, replies), rate),
            )
        }),
{
    lemma_direct_prefix(assets, amounts, rate, replies, assets.len() as int);
    assert(replies.take(assets.len() as int) =~= replies);
    assert(quotes_in(assets, replies).take(assets.len() as int) =~= quotes_in(assets, replies));
}

} // verus!
