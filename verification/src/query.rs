//! What a request selects and what has to be configured for it.

use crate::codec::numeral_value;
use vstd::prelude::*;
use vstd::string::StringExecFns;

verus! {

/// What `str::to_lowercase` makes of a text.
pub uninterp spec fn lowercased(text: Seq<char>) -> Seq<char>;

/// The number of seconds that a text denotes: a numeral of decimal digits,
/// with or without a plus sign in front, that is within 64 bits.
pub open spec fn parsed_u64(text: Seq<char>) -> Option<u64> {
    let digits = if text.len() > 0 && text[0] == '+' {
        text.skip(1)
    } else {
        text
    };
    match numeral_value(digits) {
        Some(value) => if value <= u64::MAX {
            Some(value as u64)
        } else {
            None
        },
        None => None,
    }
}

/// `str::to_lowercase`.
#[verifier::external_body]
fn str_to_lowercase(text: &str) -> (lowered: String)
    ensures
        lowered@ == lowercased(text@),
{
    text.to_lowercase()
}

/// `str::parse::<u64>`, with its error dropped: the number that decimal
/// digits after an optional plus sign denote, unless there is no digit, another
/// character, or the number is beyond 64 bits.
#[verifier::external_body]
fn str_parse_u64(text: &str) -> (number: Option<u64>)
    ensures
        number == parsed_u64(text@),
{
    text.parse::<u64>().ok()
}

/// A supported chain.
#[derive(Clone, Copy, Debug, PartialEq, Eq)]
pub enum Chain {
    Ethereum,
    Bsc,
}

/// Why a request was turned down.
#[derive(Clone, Copy, Debug, PartialEq, Eq)]
pub enum QueryError {
    /// The chain selector names no supported chain.
    InvalidChain,
}

/// Why the configuration was turned down.
#[derive(Clone, Copy, Debug, PartialEq, Eq)]
pub enum ConfigError {
    /// The start of the time window is no number of seconds.
    InvalidStartTimestamp,
    /// The end of the time window is no number of seconds.
    InvalidEndTimestamp,
}

/// The parameters of a request for transfer statistics.
#[derive(Clone, Debug, PartialEq, Eq)]
pub struct TransferQuery {
    /// The chain selector: `ethereum` or `bsc`, in any case.
    pub chain: String,
}

/// The time window of the statistics, in Unix seconds.
#[derive(Clone, Copy, Debug, PartialEq, Eq)]
pub struct TimeWindow {
    pub start_timestamp: u64,
    pub end_timestamp: u64,
}

/// The chain that a lower-case name selects.
pub open spec fn chain_named(name: Seq<char>) -> Option<Chain> {
    if name == "ethereum"@ {
        Some(Chain::Ethereum)
    } else if name == "bsc"@ {
        Some(Chain::Bsc)
    } else {
        None
    }
}

/// The time window that the parsed settings give: both have to be numbers.
pub open spec fn window_of(start: Option<u64>, end: Option<u64>) -> Result<
    TimeWindow,
    ConfigError,
> {
    match start {
        None => Err(ConfigError::InvalidStartTimestamp),
        Some(start_timestamp) => match end {
            None => Err(ConfigError::InvalidEndTimestamp),
            Some(end_timestamp) => Ok(TimeWindow { start_timestamp, end_timestamp }),
        },
    }
}

/// The chain that a lower-case name selects.
pub fn chain_from_name(name: &str) -> (chain: Option<Chain>)
    ensures
        chain == chain_named(name@),
{
    let name = String::from_str(name);
    if name == String::from_str("ethereum") {
        Some(Chain::Ethereum)
    } else if name == String::from_str("bsc") {
        Some(Chain::Bsc)
    } else {
        None
    }
}

/// The time window that the parsed settings give.
pub fn window_from_parsed(start: Option<u64>, end: Option<u64>) -> (window: Result<
    TimeWindow,
    ConfigError,
>)
    ensures
        window == window_of(start, end),
{
    match start {
        None => Err(ConfigError::InvalidStartTimestamp),
        Some(start_timestamp) => match end {
            None => Err(ConfigError::InvalidEndTimestamp),
            Some(end_timestamp) => Ok(TimeWindow { start_timestamp, end_timestamp }),
        },
    }
}

impl TransferQuery {
    /// The chain that the request selects; the selector's case is ignored.
    pub fn selected_chain(&self) -> (chain: Result<Chain, QueryError>)
        ensures
            chain == (match chain_named(lowercased(self.chain@)) {
                Some(selected) => Ok::<Chain, QueryError>(selected),
                None => Err::<Chain, QueryError>(QueryError::InvalidChain),
            }),
    {
        let lowered = str_to_lowercase(self.chain.as_str());
        match chain_from_name(lowered.as_str()) {
            Some(selected) => Ok(selected),
            None => Err(QueryError::InvalidChain),
        }
    }
}

impl QueryError {
    /// The error in words.
    pub fn message(&self) -> (text: String)
        ensures
            text@ == "Invalid chain parameter. Use 'ethereum' or 'bsc'"@,
    {
        String::from_str("Invalid chain parameter. Use 'ethereum' or 'bsc'")
    }
}

impl Chain {
    /// The name of the setting that holds the chain's endpoint.
    pub fn rpc_url_key(&self) -> (key: &'static str)
        ensures
            key@ == (match self {
                Chain::Ethereum => "ETHEREUM_RPC_URL"@,
                Chain::Bsc => "BSC_RPC_URL"@,
            }),
    {
        match self {
            Chain::Ethereum => "ETHEREUM_RPC_URL",
            Chain::Bsc => "BSC_RPC_URL",
        }
    }

    /// The name of the setting that holds the address of the token contract
    /// on the chain.
    pub fn usdt_address_key(&self) -> (key: &'static str)
        ensures
            key@ == (match self {
                Chain::Ethereum => "ETHEREUM_USDT_ADDRESS"@,
                Chain::Bsc => "BSC_USDT_ADDRESS"@,
            }),
    {
        match self {
            Chain::Ethereum => "ETHEREUM_USDT_ADDRESS",
            Chain::Bsc => "BSC_USDT_ADDRESS",
        }
    }
}

impl TimeWindow {
    /// The name of the setting that holds the start of the window.
    pub fn start_key() -> (key: &'static str)
        ensures
            key@ == "START_TIMESTAMP"@,
    {
        "START_TIMESTAMP"
    }

    /// The name of the setting that holds the end of the window.
    pub fn end_key() -> (key: &'static str)
        ensures
            key@ == "END_TIMESTAMP"@,
    {
        "END_TIMESTAMP"
    }

    /// The time window that the two settings denote.
    pub fn parse(start: &str, end: &str) -> (window: Result<TimeWindow, ConfigError>)
        ensures
            window == window_of(parsed_u64(start@), parsed_u64(end@)),
    {
        window_from_parsed(str_parse_u64(start), str_parse_u64(end))
    }
}

} // verus!
