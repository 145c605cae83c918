use transfer_analytics::address::{transfer_event_topic, Address};
use transfer_analytics::client::{BlockchainClient, ClientError};
use transfer_analytics::query::{
    chain_from_name, window_from_parsed, Chain, ConfigError, QueryError, TimeWindow, TransferQuery,
};
use transfer_analytics::resolver::BlockSearch;

const USDT: &str = "0xdAC17F958D2ee523a2206206994597C13D831ec7";

#[test]
fn client_keeps_endpoint_and_parsed_address() {
    let client = BlockchainClient::new("http://localhost:8545", USDT).unwrap();
    assert_eq!(client.rpc_url, "http://localhost:8545");
    assert_eq!(client.usdt_address.to_text(), "0xdac17f958d2ee523a2206206994597c13d831ec7");
    assert_eq!(
        BlockchainClient::with_parsed("x", Address::parse(USDT)),
        Ok(BlockchainClient { rpc_url: "x".to_string(), usdt_address: Address::parse(USDT).unwrap() })
    );
}

#[test]
fn client_rejects_a_bad_address() {
    assert_eq!(BlockchainClient::new("http://localhost:8545", "usdt"), Err(ClientError::InvalidAddress));
    assert_eq!(BlockchainClient::with_parsed("x", None), Err(ClientError::InvalidAddress));
    assert_eq!(ClientError::InvalidAddress.message(), "Invalid USDT address");
}

#[test]
fn client_starts_searches_and_retrievals() {
    let client = BlockchainClient::new("http://localhost:8545", USDT).unwrap();
    assert_eq!(
        client.timestamp_to_block(1_700_000_000, 18_000_000),
        BlockSearch { target: 1_700_000_000, low: 0, high: 18_000_000 }
    );
    let retriever = client.fetch_transfer_events(10, 200);
    let filter = retriever.next_request().unwrap();
    assert_eq!(filter.address, client.usdt_address);
    assert_eq!(filter.topic0, transfer_event_topic());
    assert_eq!((filter.from_block, filter.to_block), (10, 59));
}

#[test]
fn query_selects_a_chain_in_any_case() {
    assert_eq!(TransferQuery { chain: "ethereum".to_string() }.selected_chain(), Ok(Chain::Ethereum));
    assert_eq!(TransferQuery { chain: "Ethereum".to_string() }.selected_chain(), Ok(Chain::Ethereum));
    assert_eq!(TransferQuery { chain: "BSC".to_string() }.selected_chain(), Ok(Chain::Bsc));
}

#[test]
fn query_rejects_other_chains() {
    assert_eq!(TransferQuery { chain: "solana".to_string() }.selected_chain(), Err(QueryError::InvalidChain));
    assert_eq!(TransferQuery { chain: String::new() }.selected_chain(), Err(QueryError::InvalidChain));
    assert_eq!(TransferQuery { chain: " bsc".to_string() }.selected_chain(), Err(QueryError::InvalidChain));
    assert_eq!(
        QueryError::InvalidChain.message(),
        "Invalid chain parameter. Use 'ethereum' or 'bsc'"
    );
}

#[test]
fn chain_from_name_wants_lower_case() {
    assert_eq!(chain_from_name("bsc"), Some(Chain::Bsc));
    assert_eq!(chain_from_name("ethereum"), Some(Chain::Ethereum));
    assert_eq!(chain_from_name("BSC"), None);
}

#[test]
fn chains_name_their_settings() {
    assert_eq!(Chain::Ethereum.rpc_url_key(), "ETHEREUM_RPC_URL");
    assert_eq!(Chain::Ethereum.usdt_address_key(), "ETHEREUM_USDT_ADDRESS");
    assert_eq!(Chain::Bsc.rpc_url_key(), "BSC_RPC_URL");
    assert_eq!(Chain::Bsc.usdt_address_key(), "BSC_USDT_ADDRESS");
    assert_eq!(TimeWindow::start_key(), "START_TIMESTAMP");
    assert_eq!(TimeWindow::end_key(), "END_TIMESTAMP");
}

#[test]
fn time_window_parses_two_numbers() {
    assert_eq!(
        TimeWindow::parse("1700000000", "1700086400"),
        Ok(TimeWindow { start_timestamp: 1_700_000_000, end_timestamp: 1_700_086_400 })
    );
    assert_eq!(TimeWindow::parse("soon", "1700086400"), Err(ConfigError::InvalidStartTimestamp));
    assert_eq!(TimeWindow::parse("1700000000", "-1"), Err(ConfigError::InvalidEndTimestamp));
    assert_eq!(TimeWindow::parse("", ""), Err(ConfigError::InvalidStartTimestamp));
    assert_eq!(window_from_parsed(Some(1), None), Err(ConfigError::InvalidEndTimestamp));
}

#[test]
fn time_window_takes_a_plus_sign_and_leading_zeros() {
    assert_eq!(
        TimeWindow::parse("+5", "007"),
        Ok(TimeWindow { start_timestamp: 5, end_timestamp: 7 })
    );
    assert_eq!(
        TimeWindow::parse("0", "18446744073709551615"),
        Ok(TimeWindow { start_timestamp: 0, end_timestamp: u64::MAX })
    );
}

#[test]
fn time_window_rejects_what_is_no_number_of_seconds() {
    let bad = ["", "+", "++1", "1_000", " 1", "1 ", "0x10", "1.5", "18446744073709551616", "\u{661}"];
    for text in bad {
        assert_eq!(TimeWindow::parse(text, "1"), Err(ConfigError::InvalidStartTimestamp));
        assert_eq!(TimeWindow::parse("1", text), Err(ConfigError::InvalidEndTimestamp));
    }
}
