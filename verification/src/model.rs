//! The typed response model and configuration records.
//!
//! Price and volume fields are kept as the exact number tokens the remote
//! API sent (validated against the JSON number grammar), so a decoded
//! response retains the source values bit for bit; timestamps and status
//! codes are plain unsigned integers.
use vstd::prelude::*;

verus! {

/// A market, carrying its ticker symbol.
pub enum Currency {
    Bitcoin(String),
    Ethereum(String),
}

impl Currency {
    /// The ticker symbol carried by the variant.
    pub open spec fn ticker_view(&self) -> Seq<char> {
        match self {
            Currency::Bitcoin(s) => s@,
            Currency::Ethereum(s) => s@,
        }
    }

    pub fn ticker(&self) -> (r: &String)
        ensures
            r@ == self.ticker_view(),
    {
        match self {
            Currency::Bitcoin(s) => s,
            Currency::Ethereum(s) => s,
        }
    }
}

/// One time-bucketed OHLC-volume sample.  `time` is Unix seconds; the six
/// price and volume fields hold the source's decimal number tokens.
#[derive(Debug, PartialEq)]
pub struct HistoItem {
    pub time: u64,
    pub high: Vec<u8>,
    pub low: Vec<u8>,
    pub open: Vec<u8>,
    pub volumefrom: Vec<u8>,
    pub volumeto: Vec<u8>,
    pub close: Vec<u8>,
}

/// Mathematical image of a `HistoItem`.
pub struct HistoItemV {
    pub time: u64,
    pub high: Seq<u8>,
    pub low: Seq<u8>,
    pub open: Seq<u8>,
    pub volumefrom: Seq<u8>,
    pub volumeto: Seq<u8>,
    pub close: Seq<u8>,
}

impl View for HistoItem {
    type V = HistoItemV;

    open spec fn view(&self) -> HistoItemV {
        HistoItemV {
            time: self.time,
            high: self.high@,
            low: self.low@,
            open: self.open@,
            volumefrom: self.volumefrom@,
            volumeto: self.volumeto@,
            close: self.close@,
        }
    }
}

/// One API call's result: a status text, a numeric status code, whether the
/// samples were aggregated, the ordered samples, and their time bounds.
#[derive(Debug, PartialEq)]
pub struct HistoResponse {
    pub response: Vec<u8>,
    pub response_type: u64,
    pub aggregated: bool,
    pub data: Vec<HistoItem>,
    pub time_to: u64,
    pub time_from: u64,
}

/// Mathematical image of a `HistoResponse`.
pub struct HistoResponseV {
    pub response: Seq<u8>,
    pub response_type: u64,
    pub aggregated: bool,
    pub data: Seq<HistoItemV>,
    pub time_to: u64,
    pub time_from: u64,
}

impl View for HistoResponse {
    type V = HistoResponseV;

    open spec fn view(&self) -> HistoResponseV {
        HistoResponseV {
            response: self.response@,
            response_type: self.response_type,
            aggregated: self.aggregated,
            data: self.data@.map_values(|it: HistoItem| it@),
            time_to: self.time_to,
            time_from: self.time_from,
        }
    }
}

/// Public part of the configuration.
pub struct Configuration {
    mongodb_addr: String,
}

impl Configuration {
    /// The configured document-store address.
    pub closed spec fn addr_view(&self) -> Seq<char> {
        self.mongodb_addr@
    }

    pub fn new(mongodb_addr: String) -> (c: Self)
        ensures
            c.addr_view() == mongodb_addr@,
    {
        Configuration { mongodb_addr }
    }

    pub fn mongodb_addr(&self) -> (r: &String)
        ensures
            r@ == self.addr_view(),
    {
        &self.mongodb_addr
    }
}

/// Secret part of the configuration.
pub struct Secrets {
    bittrex_token: String,
}

impl Secrets {
    /// The configured exchange API token.
    pub closed spec fn token_view(&self) -> Seq<char> {
        self.bittrex_token@
    }

    pub fn new(bittrex_token: String) -> (c: Self)
        ensures
            c.token_view() == bittrex_token@,
    {
        Secrets { bittrex_token }
    }

    pub fn bittrex_token(&self) -> (r: &String)
        ensures
            r@ == self.token_view(),
    {
        &self.bittrex_token
    }
}

} // verus!
