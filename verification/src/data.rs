//! Market data providers: errors, request URLs and the interpretation of provider replies.
//!
//! The HTTP requests themselves are made outside the verified part of the crate; what is
//! decided here is which URL is asked for and which error a reply becomes.

use crate::text::{join2, join3};
use vstd::prelude::*;

verus! {

/// Sampling resolutions of price series.
#[derive(Clone, Copy, Debug, PartialEq, Eq, Structural)]
pub enum Resolution {
    Intraday,
    Daily,
    Weekly,
    Monthly,
}

#[verifier::external_type_specification]
#[verifier::external_body]
pub struct ExReqwestError(reqwest::Error);

/// Errors of data providers.
#[derive(Debug)]
pub enum DataError {
    /// The HTTP request failed.
    Request(reqwest::Error),
    /// The provider answered with an unusable HTTP status.
    InvalidResponse(String),
    /// The reply could not be parsed.
    Parse(String),
    /// The provider reported an error or had no data.
    Provider(String),
}

impl From<reqwest::Error> for DataError {
    fn from(err: reqwest::Error) -> (res: Self) {
        DataError::Request(err)
    }
}

impl vstd::std_specs::convert::FromSpecImpl<reqwest::Error> for DataError {
    open spec fn obeys_from_spec() -> bool {
        true
    }

    open spec fn from_spec(v: reqwest::Error) -> Self {
        DataError::Request(v)
    }
}

/// Formats a `reqwest::Error` with its `Display` implementation. What the text says is up to
/// reqwest and is not stated.
#[verifier::external_body]
fn request_error_text(err: &reqwest::Error) -> (res: String) {
    format!("{}", err)
}

impl DataError {
    /// The message that describes the error.
    pub fn message(&self) -> (res: String)
        ensures
            match self {
                DataError::Request(_) => "HTTP request failed: "@.is_prefix_of(res@),
                DataError::InvalidResponse(msg) => res@ == "Invalid provider response: "@ + msg@,
                DataError::Parse(msg) => res@ == "Failed to parse response: "@ + msg@,
                DataError::Provider(msg) => res@ == "Provider error: "@ + msg@,
            },
    {
        match self {
            DataError::Request(err) => {
                let text = request_error_text(err);
                let res = join2("HTTP request failed: ", text.as_str());
                assert(res@.subrange(0, "HTTP request failed: "@.len() as int)
                    =~= "HTTP request failed: "@);
                res
            },
            DataError::InvalidResponse(msg) => join2("Invalid provider response: ", msg.as_str()),
            DataError::Parse(msg) => join2("Failed to parse response: ", msg.as_str()),
            DataError::Provider(msg) => join2("Provider error: ", msg.as_str()),
        }
    }
}

/// The error for a reply whose HTTP status is not a success: `"HTTP Status: "` followed by
/// the status as text.
pub fn http_status_error(status: &str) -> (res: DataError)
    ensures
        res matches DataError::InvalidResponse(msg) && msg@ == "HTTP Status: "@ + status@,
{
    DataError::InvalidResponse(join2("HTTP Status: ", status))
}

/// Alpha Vantage's default endpoint.
pub open spec fn alpha_vantage_default_url() -> Seq<char> {
    "https://www.alphavantage.co/query"@
}

/// Where and with which key Alpha Vantage is asked.
#[derive(Clone, Debug)]
pub struct AlphaVantageEndpoint {
    pub base_url: String,
    pub api_key: String,
}

/// The messages Alpha Vantage sends in place of data.
#[derive(Clone, Debug)]
pub enum AlphaVantageMessage {
    /// `"Error Message"`: the request was wrong.
    ErrorMessage(String),
    /// `"Information"`: typically a rate limit.
    Information(String),
    /// `"Note"`.
    Note(String),
}

impl AlphaVantageEndpoint {
    /// The public Alpha Vantage endpoint with the given key.
    pub fn new(api_key: &str) -> (res: AlphaVantageEndpoint)
        ensures
            res.base_url@ == alpha_vantage_default_url(),
            res.api_key@ == api_key@,
    {
        AlphaVantageEndpoint {
            base_url: String::from_str("https://www.alphavantage.co/query"),
            api_key: String::from_str(api_key),
        }
    }

    /// A custom endpoint with the given key.
    pub fn with_base_url(api_key: &str, base_url: &str) -> (res: AlphaVantageEndpoint)
        ensures
            res.base_url@ == base_url@,
            res.api_key@ == api_key@,
    {
        AlphaVantageEndpoint { base_url: String::from_str(base_url), api_key: String::from_str(api_key) }
    }

    /// `{base}?function={function}&symbol={symbol}&apikey={key}`.
    pub fn build_url(&self, function: &str, symbol: &str) -> (res: String)
        ensures
            res@ == self.base_url@ + "?function="@ + function@ + "&symbol="@ + symbol@
                + "&apikey="@ + self.api_key@,
    {
        let mut url = join3(self.base_url.as_str(), "?function=", function);
        url.append("&symbol=");
        url.append(symbol);
        url.append("&apikey=");
        url.append(self.api_key.as_str());
        url
    }
}

impl AlphaVantageMessage {
    /// The provider error a message becomes: an error message as it is, information as
    /// `"Rate Limit / Info: ..."`, a note as `"API Note: ..."`.
    pub fn into_error(self) -> (res: DataError)
        ensures
            res matches DataError::Provider(msg) && msg@ == match self {
                AlphaVantageMessage::ErrorMessage(m) => m@,
                AlphaVantageMessage::Information(m) => "Rate Limit / Info: "@ + m@,
                AlphaVantageMessage::Note(m) => "API Note: "@ + m@,
            },
    {
        match self {
            AlphaVantageMessage::ErrorMessage(message) => DataError::Provider(message),
            AlphaVantageMessage::Information(message) => DataError::Provider(
                join2("Rate Limit / Info: ", message.as_str()),
            ),
            AlphaVantageMessage::Note(message) => DataError::Provider(
                join2("API Note: ", message.as_str()),
            ),
        }
    }
}

/// A string with every trailing `'%'` removed.
pub open spec fn without_trailing_percent(s: Seq<char>) -> Seq<char>
    decreases s.len(),
{
    if s.len() > 0 && s.last() == '%' {
        without_trailing_percent(s.drop_last())
    } else {
        s
    }
}

/// Removes every trailing `'%'` (as in `"1.47%"` to `"1.47"`), like `trim_end_matches('%')`.
pub fn trim_percent_suffix(s: &str) -> (res: String)
    ensures
        res@ == without_trailing_percent(s@),
{
    let n = s.unicode_len();
    let mut k: usize = n;
    assert(s@.subrange(0, k as int) =~= s@);
    while k > 0 && s.get_char(k - 1) == '%'
        invariant
            k <= n,
            n == s@.len(),
            without_trailing_percent(s@) == without_trailing_percent(s@.subrange(0, k as int)),
        decreases k,
    {
        assert(s@.subrange(0, k as int).drop_last() =~= s@.subrange(0, k - 1));
        k = k - 1;
    }
    assert(without_trailing_percent(s@.subrange(0, k as int)) == s@.subrange(0, k as int));
    s.substring_char(0, k).to_owned()
}

/// Massive's default endpoint.
pub open spec fn massive_default_url() -> Seq<char> {
    "https://api.massive.com"@
}

/// Where and with which key Massive (formerly Polygon.io) is asked.
#[derive(Clone, Debug)]
pub struct MassiveEndpoint {
    pub base_url: String,
    pub api_key: String,
}

impl MassiveEndpoint {
    /// The public Massive endpoint with the given key.
    pub fn new(api_key: &str) -> (res: MassiveEndpoint)
        ensures
            res.base_url@ == massive_default_url(),
            res.api_key@ == api_key@,
    {
        MassiveEndpoint {
            base_url: String::from_str("https://api.massive.com"),
            api_key: String::from_str(api_key),
        }
    }

    /// A custom endpoint with the given key.
    pub fn with_base_url(api_key: &str, base_url: &str) -> (res: MassiveEndpoint)
        ensures
            res.base_url@ == base_url@,
            res.api_key@ == api_key@,
    {
        MassiveEndpoint { base_url: String::from_str(base_url), api_key: String::from_str(api_key) }
    }

    /// `{base}/v2/aggs/ticker/{symbol}/prev?adjusted=true&apiKey={key}`: the previous day's bar.
    pub fn previous_day_url(&self, symbol: &str) -> (res: String)
        ensures
            res@ == self.base_url@ + "/v2/aggs/ticker/"@ + symbol@
                + "/prev?adjusted=true&apiKey="@ + self.api_key@,
    {
        let mut url = join3(self.base_url.as_str(), "/v2/aggs/ticker/", symbol);
        url.append("/prev?adjusted=true&apiKey=");
        url.append(self.api_key.as_str());
        url
    }

    /// `{base}/v3/reference/tickers/{symbol}?apiKey={key}`: the ticker's reference data.
    pub fn ticker_details_url(&self, symbol: &str) -> (res: String)
        ensures
            res@ == self.base_url@ + "/v3/reference/tickers/"@ + symbol@ + "?apiKey="@
                + self.api_key@,
    {
        let mut url = join3(self.base_url.as_str(), "/v3/reference/tickers/", symbol);
        url.append("?apiKey=");
        url.append(self.api_key.as_str());
        url
    }
}

/// The error for a symbol without a previous day bar.
pub fn no_previous_day_data(symbol: &str) -> (res: DataError)
    ensures
        res matches DataError::Provider(msg) && msg@ == "No previous day data found for "@
            + symbol@,
{
    DataError::Provider(join2("No previous day data found for ", symbol))
}

/// An address line from a city and a state: the state alone when there is no city, else
/// `"{city}, {state}"`.
pub fn address_line(city: &str, state: &str) -> (res: String)
    ensures
        res@ == (if city@.len() == 0 {
            state@
        } else {
            city@ + ", "@ + state@
        }),
{
    if city.unicode_len() == 0 {
        String::from_str(state)
    } else {
        join3(city, ", ", state)
    }
}

/// Yahoo Finance's endpoint.
pub open spec fn yahoo_default_url() -> Seq<char> {
    "https://query1.finance.yahoo.com"@
}

/// Where Yahoo Finance is asked.
#[derive(Clone, Debug)]
pub struct YahooEndpoint {
    pub base_url: String,
}

impl YahooEndpoint {
    /// The public Yahoo Finance endpoint.
    pub fn new() -> (res: YahooEndpoint)
        ensures
            res.base_url@ == yahoo_default_url(),
    {
        YahooEndpoint { base_url: String::from_str("https://query1.finance.yahoo.com") }
    }

    /// `{base}/v7/finance/quote?symbols={symbol}&crumb={crumb}`.
    pub fn quote_url(&self, symbol: &str, crumb: &str) -> (res: String)
        ensures
            res@ == self.base_url@ + "/v7/finance/quote?symbols="@ + symbol@ + "&crumb="@
                + crumb@,
    {
        let mut url = join3(self.base_url.as_str(), "/v7/finance/quote?symbols=", symbol);
        url.append("&crumb=");
        url.append(crumb);
        url
    }

    /// `{base}/v10/finance/quoteSummary/{symbol}?modules=...&crumb={crumb}`, asking for the
    /// profile, key statistics, summary detail, financial data and quote type modules.
    pub fn summary_url(&self, symbol: &str, crumb: &str) -> (res: String)
        ensures
            res@ == self.base_url@ + "/v10/finance/quoteSummary/"@ + symbol@
                + "?modules=summaryProfile,defaultKeyStatistics,summaryDetail,financialData,quoteType&crumb="@
                + crumb@,
    {
        let mut url = join3(self.base_url.as_str(), "/v10/finance/quoteSummary/", symbol);
        url.append(
            "?modules=summaryProfile,defaultKeyStatistics,summaryDetail,financialData,quoteType&crumb=",
        );
        url.append(crumb);
        url
    }
}

/// The error when Yahoo refuses the crumb request with an HTTP status.
pub fn crumb_status_error(status: &str) -> (res: DataError)
    ensures
        res matches DataError::Provider(msg) && msg@ == "Failed to fetch Yahoo crumb. Status: "@
            + status@,
{
    DataError::Provider(join2("Failed to fetch Yahoo crumb. Status: ", status))
}

/// The error when a quote reply lists no quote for the symbol.
pub fn no_quote_found(symbol: &str) -> (res: DataError)
    ensures
        res matches DataError::Provider(msg) && msg@ == "No quote found for symbol: "@ + symbol@,
{
    DataError::Provider(join2("No quote found for symbol: ", symbol))
}

/// The error when a summary reply lists no fundamentals for the symbol.
pub fn no_fundamentals_found(symbol: &str) -> (res: DataError)
    ensures
        res matches DataError::Provider(msg) && msg@ == "No fundamentals found for: "@ + symbol@,
{
    DataError::Provider(join2("No fundamentals found for: ", symbol))
}

} // verus!
