use quantrs::data::{
    address_line, crumb_status_error, http_status_error, no_fundamentals_found,
    no_previous_day_data, no_quote_found, trim_percent_suffix, AlphaVantageEndpoint,
    AlphaVantageMessage, DataError, MassiveEndpoint, Resolution, YahooEndpoint,
};
use quantrs::portfolio::ReturnsCalculation;

fn provider_text(err: DataError) -> String {
    match err {
        DataError::Provider(msg) => msg,
        other => panic!("unexpected {:?}", other),
    }
}

#[test]
fn alpha_vantage_urls() {
    let endpoint = AlphaVantageEndpoint::new("test-key");
    assert_eq!(
        endpoint.build_url("GLOBAL_QUOTE", "IBM"),
        "https://www.alphavantage.co/query?function=GLOBAL_QUOTE&symbol=IBM&apikey=test-key"
    );
    let local = AlphaVantageEndpoint::with_base_url("k", "http://127.0.0.1:8080");
    assert_eq!(
        local.build_url("OVERVIEW", "AAPL"),
        "http://127.0.0.1:8080?function=OVERVIEW&symbol=AAPL&apikey=k"
    );
}

#[test]
fn alpha_vantage_messages() {
    assert_eq!(
        provider_text(AlphaVantageMessage::ErrorMessage("Invalid API call".to_string()).into_error()),
        "Invalid API call"
    );
    assert_eq!(
        provider_text(AlphaVantageMessage::Information("Rate Limit".to_string()).into_error()),
        "Rate Limit / Info: Rate Limit"
    );
    assert_eq!(
        provider_text(AlphaVantageMessage::Note("slow down".to_string()).into_error()),
        "API Note: slow down"
    );
}

#[test]
fn percent_suffix() {
    assert_eq!(trim_percent_suffix("1.47%"), "1.47");
    assert_eq!(trim_percent_suffix("-0.5%%"), "-0.5");
    assert_eq!(trim_percent_suffix("%1%"), "%1");
    assert_eq!(trim_percent_suffix("%%"), "");
    assert_eq!(trim_percent_suffix("2"), "2");
}

#[test]
fn massive_urls_and_address() {
    let endpoint = MassiveEndpoint::new("key");
    assert_eq!(
        endpoint.previous_day_url("AAPL"),
        "https://api.massive.com/v2/aggs/ticker/AAPL/prev?adjusted=true&apiKey=key"
    );
    assert_eq!(
        endpoint.ticker_details_url("AAPL"),
        "https://api.massive.com/v3/reference/tickers/AAPL?apiKey=key"
    );
    let local = MassiveEndpoint::with_base_url("k", "http://localhost");
    assert_eq!(local.ticker_details_url("X"), "http://localhost/v3/reference/tickers/X?apiKey=k");
    assert_eq!(address_line("Cupertino", "CA"), "Cupertino, CA");
    assert_eq!(address_line("", "CA"), "CA");
    assert_eq!(address_line("", ""), "");
    assert_eq!(
        provider_text(no_previous_day_data("AAPL")),
        "No previous day data found for AAPL"
    );
}

#[test]
fn yahoo_urls_and_errors() {
    let endpoint = YahooEndpoint::new();
    assert_eq!(
        endpoint.quote_url("AAPL", "abc"),
        "https://query1.finance.yahoo.com/v7/finance/quote?symbols=AAPL&crumb=abc"
    );
    assert_eq!(
        endpoint.summary_url("AAPL", "abc"),
        "https://query1.finance.yahoo.com/v10/finance/quoteSummary/AAPL?modules=summaryProfile,defaultKeyStatistics,summaryDetail,financialData,quoteType&crumb=abc"
    );
    assert_eq!(
        provider_text(crumb_status_error("401 Unauthorized")),
        "Failed to fetch Yahoo crumb. Status: 401 Unauthorized"
    );
    assert_eq!(provider_text(no_quote_found("ZZZ")), "No quote found for symbol: ZZZ");
    assert_eq!(provider_text(no_fundamentals_found("ZZZ")), "No fundamentals found for: ZZZ");
}

#[test]
fn error_messages() {
    let status = http_status_error("500 Internal Server Error");
    assert_eq!(status.message(), "Invalid provider response: HTTP Status: 500 Internal Server Error");
    assert_eq!(DataError::Parse("eof".to_string()).message(), "Failed to parse response: eof");
    assert_eq!(DataError::Provider("x".to_string()).message(), "Provider error: x");
}

#[test]
fn resolutions_and_returns() {
    assert_ne!(Resolution::Daily, Resolution::Weekly);
    assert_eq!(ReturnsCalculation::Simple.name(), "Simple");
    assert_eq!(ReturnsCalculation::Log.name(), "Log");
}
