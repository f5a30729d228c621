//! Price resolution across an equity source and a crypto source, the equity
//! source first.

use crate::binary64::Binary64;
use vstd::prelude::*;

verus! {

/// Why a source gave no records.
#[derive(Clone, Copy, Debug, PartialEq, Eq, Structural)]
pub enum SourceError {
    /// The source was not reached, or answered with a failure status.
    Transport,
    /// The answer did not have the expected shape.
    Parse,
}

/// A quote record of the equity source. Any of its numbers may be absent.
#[allow(non_snake_case)]
#[derive(Debug, PartialEq, Eq)]
pub struct StockPrice {
    pub ticker: String,
    pub last: Option<Binary64>,
    pub tms: Option<String>,
    pub open: Option<Binary64>,
    pub high: Option<Binary64>,
    pub low: Option<Binary64>,
    pub prevClose: Option<Binary64>,
    pub askPrice: Option<Binary64>,
    pub bidPrice: Option<Binary64>,
    pub mid: Option<Binary64>,
}

/// A quote record of the crypto source.
#[allow(non_snake_case)]
#[derive(Debug, PartialEq, Eq)]
pub struct CryptoPrice {
    pub ticker: String,
    pub lastPrice: Option<Binary64>,
    pub quoteTimestamp: Option<String>,
}

/// A resolved price, from whichever source had one.
#[derive(Debug, PartialEq, Eq)]
pub struct AssetPrice {
    pub ticker: String,
    pub price: Binary64,
    /// The previous close; only the equity source supplies one.
    pub prev_close: Option<Binary64>,
    pub is_crypto: bool,
}

impl AssetPrice {
    /// Whether the price is at or above the previous close, where there is
    /// one.
    pub open spec fn held_since_close(self) -> Option<bool> {
        match self.prev_close {
            Some(close) => Some(self.price.at_least(close)),
            None => None,
        }
    }

    /// Whether the price is at or above the previous close, where there is
    /// one.
    pub fn has_held_since_close(&self) -> (held: Option<bool>)
        ensures
            held == self.held_since_close(),
    {
        match self.prev_close {
            Some(close) => Some(self.price.ge(&close)),
            None => None,
        }
    }
}

/// A resolution that found nothing in either source.
#[derive(Debug, PartialEq, Eq)]
pub enum MarketError {
    /// No source had a usable price for the ticker.
    PriceNotFound { ticker: String },
    /// No source had a bar for the ticker.
    HistoryNotFound { ticker: String },
}

impl MarketError {
    /// What the error says: what was not found, and for which ticker.
    pub open spec fn text(self) -> Seq<char> {
        match self {
            MarketError::PriceNotFound { ticker } => "Could not find price for "@ + ticker@,
            MarketError::HistoryNotFound { ticker } => "Could not find historical data for "@
                + ticker@,
        }
    }

    /// What the error says: what was not found, and for which ticker.
    pub fn message(&self) -> (text: String)
        ensures
            text@ == self.text(),
    {
        match self {
            MarketError::PriceNotFound { ticker } => String::from_str(
                "Could not find price for ",
            ).concat(ticker.as_str()),
            MarketError::HistoryNotFound { ticker } => String::from_str(
                "Could not find historical data for ",
            ).concat(ticker.as_str()),
        }
    }
}

/// The first present value of `candidates`, in order.
pub open spec fn first_present<T>(candidates: Seq<Option<T>>) -> Option<T>
    decreases candidates.len(),
{
    if candidates.len() == 0 {
        None
    } else if candidates[0] is Some {
        candidates[0]
    } else {
        first_present(candidates.drop_first())
    }
}

/// `first_present` yields the earliest present candidate, and nothing only
/// when every candidate is absent.
pub proof fn lemma_first_present<T>(candidates: Seq<Option<T>>)
    ensures
        match first_present(candidates) {
            Some(value) => exists|i: int|
                0 <= i < candidates.len() && candidates[i] == Some(value) && forall|j: int|
                    0 <= j < i ==> candidates[j] is None,
            None => forall|j: int| 0 <= j < candidates.len() ==> candidates[j] is None,
        },
    decreases candidates.len(),
{
    if candidates.len() == 0 {
    } else if candidates[0] is Some {
        let value = candidates[0]->Some_0;
        assert(candidates[0] == Some(value) && forall|j: int|
            0 <= j < 0 ==> candidates[j] is None);
    } else {
        let rest = candidates.drop_first();
        lemma_first_present(rest);
        match first_present(rest) {
            Some(value) => {
                let i = choose|i: int|
                    0 <= i < rest.len() && rest[i] == Some(value) && forall|j: int|
                        0 <= j < i ==> rest[j] is None;
                assert forall|j: int| 0 <= j < i + 1 implies candidates[j] is None by {
                    if j > 0 {
                        assert(candidates[j] == rest[j - 1]);
                    }
                }
                assert(candidates[i + 1] == rest[i]);
            },
            None => {
                assert forall|j: int| 0 <= j < candidates.len() implies candidates[j] is None by {
                    if j > 0 {
                        assert(candidates[j] == rest[j - 1]);
                    }
                }
            },
        }
    }
}

/// The first present value of `candidates`, in order: the one combinator
/// behind every fallback chain.
pub fn first_of<T: Copy>(candidates: &Vec<Option<T>>) -> (found: Option<T>)
    ensures
        found == first_present(candidates@),
{
    let mut i: usize = 0;
    assert(candidates@.skip(0) == candidates@);
    while i < candidates.len()
        invariant
            i <= candidates.len(),
            first_present(candidates@) == first_present(candidates@.skip(i as int)),
        decreases candidates.len() - i,
    {
        let candidate: Option<T> = candidates[i];
        if candidate.is_some() {
            return candidate;
        }
        assert(candidates@.skip(i as int).drop_first() == candidates@.skip(i as int + 1));
        i += 1;
    }
    assert(candidates@.skip(i as int).len() == 0);
    None
}

impl StockPrice {
    /// The fields that may serve as the current price, most trusted first:
    /// last trade, mid, ask, previous close, open.
    pub open spec fn price_chain(self) -> Seq<Option<Binary64>> {
        seq![self.last, self.mid, self.askPrice, self.prevClose, self.open]
    }

    /// The current price: the first present field of the chain.
    pub fn current_price(&self) -> (price: Option<Binary64>)
        ensures
            price == first_present(self.price_chain()),
    {
        let chain: Vec<Option<Binary64>> = vec![
            self.last,
            self.mid,
            self.askPrice,
            self.prevClose,
            self.open,
        ];
        assert(chain@ == self.price_chain());
        first_of(&chain)
    }
}

/// What the equity source's answer yields: the first record's current price,
/// with its ticker and previous close. An error, an empty list, or a first
/// record without any price field yields nothing.
pub open spec fn equity_quote(reply: Result<Vec<StockPrice>, SourceError>) -> Option<AssetPrice> {
    match reply {
        Ok(records) => if records@.len() > 0 {
            match first_present(records@[0].price_chain()) {
                Some(price) => Some(
                    AssetPrice {
                        ticker: records@[0].ticker,
                        price,
                        prev_close: records@[0].prevClose,
                        is_crypto: false,
                    },
                ),
                None => None,
            }
        } else {
            None
        },
        Err(_) => None,
    }
}

/// What the crypto source's answer yields: the first record's last price,
/// with its ticker and no previous close. An error, an empty list, or a
/// first record without a last price yields nothing.
pub open spec fn crypto_quote(reply: Result<Vec<CryptoPrice>, SourceError>) -> Option<AssetPrice> {
    match reply {
        Ok(records) => if records@.len() > 0 {
            match records@[0].lastPrice {
                Some(price) => Some(
                    AssetPrice {
                        ticker: records@[0].ticker,
                        price,
                        prev_close: None,
                        is_crypto: true,
                    },
                ),
                None => None,
            }
        } else {
            None
        },
        Err(_) => None,
    }
}

/// Reads a price off the equity source's answer.
pub fn read_equity_quote(reply: &Result<Vec<StockPrice>, SourceError>) -> (found: Option<
    AssetPrice,
>)
    ensures
        found == equity_quote(*reply),
{
    match reply {
        Ok(records) => {
            if records.len() > 0 {
                let record: &StockPrice = &records[0];
                match record.current_price() {
                    Some(price) => Some(
                        AssetPrice {
                            ticker: record.ticker.clone(),
                            price,
                            prev_close: record.prevClose,
                            is_crypto: false,
                        },
                    ),
                    None => None,
                }
            } else {
                None
            }
        },
        Err(_) => None,
    }
}

/// Reads a price off the crypto source's answer.
pub fn read_crypto_quote(reply: &Result<Vec<CryptoPrice>, SourceError>) -> (found: Option<
    AssetPrice,
>)
    ensures
        found == crypto_quote(*reply),
{
    match reply {
        Ok(records) => {
            if records.len() > 0 {
                let record: &CryptoPrice = &records[0];
                match record.lastPrice {
                    Some(price) => Some(
                        AssetPrice {
                            ticker: record.ticker.clone(),
                            price,
                            prev_close: None,
                            is_crypto: true,
                        },
                    ),
                    None => None,
                }
            } else {
                None
            }
        },
        Err(_) => None,
    }
}

/// Which answer a price lookup is waiting for.
#[derive(Clone, Copy, Debug, PartialEq, Eq, Structural)]
pub enum LookupStage {
    Equity,
    Crypto,
    Finished,
}

/// What a source answered to a quote request.
#[derive(Debug, PartialEq, Eq)]
pub enum QuoteEvent {
    Equity(Result<Vec<StockPrice>, SourceError>),
    Crypto(Result<Vec<CryptoPrice>, SourceError>),
}

/// What the caller of a price lookup does next.
#[derive(Debug, PartialEq, Eq)]
pub enum QuoteAction {
    /// Ask the equity source for the ticker's quote.
    AskEquity { ticker: String },
    /// Ask the crypto source for the ticker's quote.
    AskCrypto { ticker: String },
    /// The lookup is over, with this result.
    Done(Result<AssetPrice, MarketError>),
}

/// The resolution of one ticker's price. The equity source is asked first;
/// the crypto source only when the equity source had no price.
#[derive(Debug, PartialEq, Eq)]
pub struct PriceLookup {
    pub ticker: String,
    pub stage: LookupStage,
}

impl PriceLookup {
    /// The lookup and the action that `event` leads to. An event that does
    /// not answer the request in flight changes nothing and leads to no
    /// action.
    pub open spec fn after(self, event: QuoteEvent) -> (PriceLookup, Option<QuoteAction>) {
        match (self.stage, event) {
            (LookupStage::Equity, QuoteEvent::Equity(reply)) => match equity_quote(reply) {
                Some(found) => (
                    PriceLookup { ticker: self.ticker, stage: LookupStage::Finished },
                    Some(QuoteAction::Done(Ok(found))),
                ),
                None => (
                    PriceLookup { ticker: self.ticker, stage: LookupStage::Crypto },
                    Some(QuoteAction::AskCrypto { ticker: self.ticker }),
                ),
            },
            (LookupStage::Crypto, QuoteEvent::Crypto(reply)) => match crypto_quote(reply) {
                Some(found) => (
                    PriceLookup { ticker: self.ticker, stage: LookupStage::Finished },
                    Some(QuoteAction::Done(Ok(found))),
                ),
                None => (
                    PriceLookup { ticker: self.ticker, stage: LookupStage::Finished },
                    Some(
                        QuoteAction::Done(Err(MarketError::PriceNotFound { ticker: self.ticker })),
                    ),
                ),
            },
            _ => (self, None),
        }
    }

    /// Takes the answer to the request in flight and decides what follows.
    pub fn step(self, event: QuoteEvent) -> (r: (PriceLookup, Option<QuoteAction>))
        ensures
            r == self.after(event),
    {
        match self.stage {
            LookupStage::Equity => match event {
                QuoteEvent::Equity(reply) => match read_equity_quote(&reply) {
                    Some(found) => (
                        PriceLookup { ticker: self.ticker, stage: LookupStage::Finished },
                        Some(QuoteAction::Done(Ok(found))),
                    ),
                    None => {
                        let ask = QuoteAction::AskCrypto { ticker: self.ticker.clone() };
                        (PriceLookup { ticker: self.ticker, stage: LookupStage::Crypto }, Some(ask))
                    },
                },
                QuoteEvent::Crypto(_) => (self, None),
            },
            LookupStage::Crypto => match event {
                QuoteEvent::Crypto(reply) => match read_crypto_quote(&reply) {
                    Some(found) => (
                        PriceLookup { ticker: self.ticker, stage: LookupStage::Finished },
                        Some(QuoteAction::Done(Ok(found))),
                    ),
                    None => {
                        let missing = MarketError::PriceNotFound { ticker: self.ticker.clone() };
                        (
                            PriceLookup { ticker: self.ticker, stage: LookupStage::Finished },
                            Some(QuoteAction::Done(Err(missing))),
                        )
                    },
                },
                QuoteEvent::Equity(_) => (self, None),
            },
            LookupStage::Finished => (self, None),
        }
    }
}

/// Starts the resolution of `ticker`'s price: the equity source is asked
/// first. What the sources answer goes to `PriceLookup::step`, one answer
/// at a time, until it says that the lookup is done.
pub fn get_price(ticker: String) -> (r: (PriceLookup, QuoteAction))
    ensures
        r.0 == (PriceLookup { ticker, stage: LookupStage::Equity }),
        r.1 == (QuoteAction::AskEquity { ticker }),
{
    let ask = QuoteAction::AskEquity { ticker: ticker.clone() };
    (PriceLookup { ticker, stage: LookupStage::Equity }, ask)
}

/// All the actions of the lookup of `ticker`, in order, when the equity
/// source answers `equity` and the crypto source, if it is asked, answers
/// `crypto`.
pub open spec fn lookup_actions(
    ticker: String,
    equity: Result<Vec<StockPrice>, SourceError>,
    crypto: Result<Vec<CryptoPrice>, SourceError>,
) -> Seq<QuoteAction> {
    let start = PriceLookup { ticker, stage: LookupStage::Equity };
    let (waiting, first) = start.after(QuoteEvent::Equity(equity));
    match first {
        Some(QuoteAction::AskCrypto { ticker: asked }) => seq![
            QuoteAction::AskEquity { ticker },
            QuoteAction::AskCrypto { ticker: asked },
            waiting.after(QuoteEvent::Crypto(crypto)).1->Some_0,
        ],
        Some(last) => seq![QuoteAction::AskEquity { ticker }, last],
        None => seq![QuoteAction::AskEquity { ticker }],
    }
}

/// When the first record of the equity source has any field of the price
/// chain, the lookup ends on the equity answer: the result is that record's
/// earliest present field as an equity price, with the record's previous
/// close, and the crypto source is never asked.
pub proof fn law_equity_price_wins(
    ticker: String,
    records: Vec<StockPrice>,
    crypto: Result<Vec<CryptoPrice>, SourceError>,
)
    requires
        records@.len() > 0,
        exists|i: int| 0 <= i < 5 && records@[0].price_chain()[i] is Some,
    ensures
        first_present(records@[0].price_chain()) is Some,
        lookup_actions(ticker, Ok(records), crypto) == seq![
            QuoteAction::AskEquity { ticker },
            QuoteAction::Done(
                Ok(
                    AssetPrice {
                        ticker: records@[0].ticker,
                        price: first_present(records@[0].price_chain())->Some_0,
                        prev_close: records@[0].prevClose,
                        is_crypto: false,
                    },
                ),
            ),
        ],
{
    lemma_first_present(records@[0].price_chain());
}

/// When the equity source yields no price and the first record of the crypto
/// source has a last price, the lookup asks both sources and ends with that
/// last price as a crypto price without a previous close.
pub proof fn law_crypto_fallback(
    ticker: String,
    equity: Result<Vec<StockPrice>, SourceError>,
    records: Vec<CryptoPrice>,
)
    requires
        equity_quote(equity) is None,
        records@.len() > 0,
        records@[0].lastPrice is Some,
    ensures
        lookup_actions(ticker, equity, Ok(records)) == seq![
            QuoteAction::AskEquity { ticker },
            QuoteAction::AskCrypto { ticker },
            QuoteAction::Done(
                Ok(
                    AssetPrice {
                        ticker: records@[0].ticker,
                        price: records@[0].lastPrice->Some_0,
                        prev_close: None,
                        is_crypto: true,
                    },
                ),
            ),
        ],
{
}

/// When neither source yields a price, the lookup asks both and ends with
/// an error that names the ticker.
pub proof fn law_price_not_found(
    ticker: String,
    equity: Result<Vec<StockPrice>, SourceError>,
    crypto: Result<Vec<CryptoPrice>, SourceError>,
)
    requires
        equity_quote(equity) is None,
        crypto_quote(crypto) is None,
    ensures
        lookup_actions(ticker, equity, crypto) == seq![
            QuoteAction::AskEquity { ticker },
            QuoteAction::AskCrypto { ticker },
            QuoteAction::Done(Err(MarketError::PriceNotFound { ticker })),
        ],
{
}

/// A price is returned only where a source had it: it is a field of the
/// price chain of the equity source's first record, or the last price of
/// the crypto source's first record.
pub proof fn law_price_comes_from_a_source(
    lookup: PriceLookup,
    event: QuoteEvent,
    found: AssetPrice,
)
    requires
        lookup.after(event).1 == Some(QuoteAction::Done(Ok(found))),
    ensures
        match event {
            QuoteEvent::Equity(reply) => reply is Ok && reply->Ok_0@.len() > 0 && !found.is_crypto
                && exists|i: int|
                0 <= i < 5 && reply->Ok_0@[0].price_chain()[i] == Some(found.price),
            QuoteEvent::Crypto(reply) => reply is Ok && reply->Ok_0@.len() > 0 && found.is_crypto
                && reply->Ok_0@[0].lastPrice == Some(found.price),
        },
{
    match event {
        QuoteEvent::Equity(reply) => {
            lemma_first_present(reply->Ok_0@[0].price_chain());
        },
        QuoteEvent::Crypto(reply) => {},
    }
}

/// An answer that is an error or an empty list yields no price.
pub proof fn law_errors_and_empty_lists_yield_nothing(
    equity: Result<Vec<StockPrice>, SourceError>,
    crypto: Result<Vec<CryptoPrice>, SourceError>,
)
    ensures
        (equity is Err || equity->Ok_0@.len() == 0) ==> equity_quote(equity) is None,
        (crypto is Err || crypto->Ok_0@.len() == 0) ==> crypto_quote(crypto) is None,
{
}

/// One daily bar of a price history.
#[derive(Debug, PartialEq, Eq)]
pub struct HistoricalData {
    pub date: String,
    pub open: Binary64,
    pub high: Binary64,
    pub low: Binary64,
    pub close: Binary64,
    pub volume: Option<Binary64>,
}

/// A record of the crypto source's history answer: the bars of one ticker,
/// one level down.
#[derive(Debug, PartialEq, Eq)]
pub struct CryptoHistoryResponse {
    pub price_data: Vec<HistoricalData>,
}

/// What a source answered to a history request.
#[derive(Debug, PartialEq, Eq)]
pub enum HistoryEvent {
    Equity(Result<Vec<HistoricalData>, SourceError>),
    Crypto(Result<Vec<CryptoHistoryResponse>, SourceError>),
}

/// What the caller of a history lookup does next.
#[derive(Debug, PartialEq, Eq)]
pub enum HistoryAction {
    /// Ask the equity source for the ticker's daily bars since the date.
    AskEquity { ticker: String, start_date: String },
    /// Ask the crypto source for the ticker's daily bars since the date.
    AskCrypto { ticker: String, start_date: String },
    /// The lookup is over, with this result.
    Done(Result<Vec<HistoricalData>, MarketError>),
}

/// A `HistoryAction` with its bars as a sequence.
pub enum HistoryStep {
    AskEquity { ticker: String, start_date: String },
    AskCrypto { ticker: String, start_date: String },
    Found { bars: Seq<HistoricalData> },
    Failed { error: MarketError },
}

impl View for HistoryAction {
    type V = HistoryStep;

    open spec fn view(&self) -> HistoryStep {
        match *self {
            HistoryAction::AskEquity { ticker, start_date } => HistoryStep::AskEquity {
                ticker,
                start_date,
            },
            HistoryAction::AskCrypto { ticker, start_date } => HistoryStep::AskCrypto {
                ticker,
                start_date,
            },
            HistoryAction::Done(Ok(bars)) => HistoryStep::Found { bars: bars@ },
            HistoryAction::Done(Err(error)) => HistoryStep::Failed { error },
        }
    }
}

/// What the equity source's history answer yields: its bars, when there is
/// at least one.
pub open spec fn equity_bars(reply: Result<Vec<HistoricalData>, SourceError>) -> Option<
    Seq<HistoricalData>,
> {
    match reply {
        Ok(bars) => if bars@.len() > 0 {
            Some(bars@)
        } else {
            None
        },
        Err(_) => None,
    }
}

/// What the crypto source's history answer yields: the bars inside its first
/// record, when there is at least one.
pub open spec fn crypto_bars(reply: Result<Vec<CryptoHistoryResponse>, SourceError>) -> Option<
    Seq<HistoricalData>,
> {
    match reply {
        Ok(records) => if records@.len() > 0 && records@[0].price_data@.len() > 0 {
            Some(records@[0].price_data@)
        } else {
            None
        },
        Err(_) => None,
    }
}

/// The resolution of one ticker's daily bars since a start date, over the
/// same two sources in the same order as a price lookup.
#[derive(Debug, PartialEq, Eq)]
pub struct HistoryLookup {
    pub ticker: String,
    pub start_date: String,
    pub stage: LookupStage,
}

impl HistoryLookup {
    /// This lookup at another stage.
    pub open spec fn at(self, stage: LookupStage) -> HistoryLookup {
        HistoryLookup { ticker: self.ticker, start_date: self.start_date, stage }
    }

    /// The lookup and the action that `event` leads to. An event that does
    /// not answer the request in flight changes nothing and leads to no
    /// action.
    pub open spec fn after(self, event: HistoryEvent) -> (HistoryLookup, Option<HistoryStep>) {
        match (self.stage, event) {
            (LookupStage::Equity, HistoryEvent::Equity(reply)) => match equity_bars(reply) {
                Some(bars) => (
                    self.at(LookupStage::Finished),
                    Some(HistoryStep::Found { bars }),
                ),
                None => (
                    self.at(LookupStage::Crypto),
                    Some(
                        HistoryStep::AskCrypto {
                            ticker: self.ticker,
                            start_date: self.start_date,
                        },
                    ),
                ),
            },
            (LookupStage::Crypto, HistoryEvent::Crypto(reply)) => match crypto_bars(reply) {
                Some(bars) => (
                    self.at(LookupStage::Finished),
                    Some(HistoryStep::Found { bars }),
                ),
                None => (
                    self.at(LookupStage::Finished),
                    Some(
                        HistoryStep::Failed {
                            error: MarketError::HistoryNotFound { ticker: self.ticker },
                        },
                    ),
                ),
            },
            _ => (self, None),
        }
    }

    /// A history that is returned has at least one bar, and is what a source
    /// gave: the equity source's bars as they came, or those inside the
    /// crypto source's first record.
    pub proof fn law_history_is_never_empty(self, event: HistoryEvent, bars: Seq<HistoricalData>)
        requires
            self.after(event).1 == Some(HistoryStep::Found { bars }),
        ensures
            bars.len() > 0,
            match event {
                HistoryEvent::Equity(reply) => reply is Ok && bars == reply->Ok_0@,
                HistoryEvent::Crypto(reply) => reply is Ok && reply->Ok_0@.len() > 0 && bars
                    == reply->Ok_0@[0].price_data@,
            },
    {
    }

    /// All the steps of the lookup, in order, when the equity source answers
    /// `equity` and the crypto source, if it is asked, answers `crypto`.
    pub open spec fn steps(
        ticker: String,
        start_date: String,
        equity: Result<Vec<HistoricalData>, SourceError>,
        crypto: Result<Vec<CryptoHistoryResponse>, SourceError>,
    ) -> Seq<HistoryStep> {
        let start = HistoryLookup { ticker, start_date, stage: LookupStage::Equity };
        let first = HistoryStep::AskEquity { ticker, start_date };
        let (waiting, second) = start.after(HistoryEvent::Equity(equity));
        match second {
            Some(HistoryStep::AskCrypto { ticker: asked, start_date: since }) => seq![
                first,
                HistoryStep::AskCrypto { ticker: asked, start_date: since },
                waiting.after(HistoryEvent::Crypto(crypto)).1->Some_0,
            ],
            Some(last) => seq![first, last],
            None => seq![first],
        }
    }

    /// The first source that has bars wins. Where the equity source has
    /// bars, they are the history and the crypto source is never asked.
    /// Where it has none, or failed, the crypto source is asked for the same
    /// ticker since the same date, and the bars inside its first record are
    /// the history. Where it has none either, the lookup ends with an error
    /// that names the ticker.
    pub proof fn law_first_source_with_bars_wins(
        ticker: String,
        start_date: String,
        equity: Result<Vec<HistoricalData>, SourceError>,
        crypto: Result<Vec<CryptoHistoryResponse>, SourceError>,
    )
        ensures
            HistoryLookup::steps(ticker, start_date, equity, crypto) == match (
                equity_bars(equity),
                crypto_bars(crypto),
            ) {
                (Some(bars), _) => seq![
                    HistoryStep::AskEquity { ticker, start_date },
                    HistoryStep::Found { bars },
                ],
                (None, Some(bars)) => seq![
                    HistoryStep::AskEquity { ticker, start_date },
                    HistoryStep::AskCrypto { ticker, start_date },
                    HistoryStep::Found { bars },
                ],
                (None, None) => seq![
                    HistoryStep::AskEquity { ticker, start_date },
                    HistoryStep::AskCrypto { ticker, start_date },
                    HistoryStep::Failed { error: MarketError::HistoryNotFound { ticker } },
                ],
            },
    {
    }

    /// Takes the answer to the request in flight and decides what follows.
    /// Bars that are handed out are the source's own, in the source's order.
    pub fn step(self, event: HistoryEvent) -> (r: (HistoryLookup, Option<HistoryAction>))
        ensures
            r.0 == self.after(event).0,
            match r.1 {
                Some(action) => self.after(event).1 == Some(action@),
                None => self.after(event).1 is None,
            },
    {
        match self.stage {
            LookupStage::Equity => match event {
                HistoryEvent::Equity(reply) => {
                    match reply {
                        Ok(bars) => {
                            if bars.len() > 0 {
                                return (
                                    HistoryLookup {
                                        ticker: self.ticker,
                                        start_date: self.start_date,
                                        stage: LookupStage::Finished,
                                    },
                                    Some(HistoryAction::Done(Ok(bars))),
                                );
                            }
                        },
                        Err(_) => {},
                    }
                    let ask = HistoryAction::AskCrypto {
                        ticker: self.ticker.clone(),
                        start_date: self.start_date.clone(),
                    };
                    (
                        HistoryLookup {
                            ticker: self.ticker,
                            start_date: self.start_date,
                            stage: LookupStage::Crypto,
                        },
                        Some(ask),
                    )
                },
                HistoryEvent::Crypto(_) => (self, None),
            },
            LookupStage::Crypto => match event {
                HistoryEvent::Crypto(reply) => {
                    match reply {
                        Ok(mut records) => {
                            if records.len() > 0 {
                                let first: CryptoHistoryResponse = records.swap_remove(0);
                                if first.price_data.len() > 0 {
                                    return (
                                        HistoryLookup {
                                            ticker: self.ticker,
                                            start_date: self.start_date,
                                            stage: LookupStage::Finished,
                                        },
                                        Some(HistoryAction::Done(Ok(first.price_data))),
                                    );
                                }
                            }
                        },
                        Err(_) => {},
                    }
                    let missing = MarketError::HistoryNotFound { ticker: self.ticker.clone() };
                    (
                        HistoryLookup {
                            ticker: self.ticker,
                            start_date: self.start_date,
                            stage: LookupStage::Finished,
                        },
                        Some(HistoryAction::Done(Err(missing))),
                    )
                },
                HistoryEvent::Equity(_) => (self, None),
            },
            LookupStage::Finished => (self, None),
        }
    }
}

/// Starts the resolution of `ticker`'s daily bars since `start_date`: the
/// equity source is asked first. What the sources answer goes to
/// `HistoryLookup::step`, one answer at a time, until it says that the
/// lookup is done.
pub fn get_historical_data(ticker: String, start_date: String) -> (r: (
    HistoryLookup,
    HistoryAction,
))
    ensures
        r.0 == (HistoryLookup { ticker, start_date, stage: LookupStage::Equity }),
        r.1@ == (HistoryStep::AskEquity { ticker, start_date }),
{
    let ask = HistoryAction::AskEquity { ticker: ticker.clone(), start_date: start_date.clone() };
    (HistoryLookup { ticker, start_date, stage: LookupStage::Equity }, ask)
}

} // verus!
