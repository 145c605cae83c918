//! The client of one chain: where to reach it and which token to track.

use crate::address::{keccak256_digest, parsed_address, transfer_event_topic, Address};
use crate::resolver::BlockSearch;
use crate::retriever::EventRetriever;
use vstd::prelude::*;
use vstd::string::StringExecFns;

verus! {

/// Why a client could not be made.
#[derive(Clone, Copy, Debug, PartialEq, Eq)]
pub enum ClientError {
    /// The token address is no address.
    InvalidAddress,
}

impl ClientError {
    /// The error in words.
    pub fn message(&self) -> (text: String)
        ensures
            text@ == "Invalid USDT address"@,
    {
        String::from_str("Invalid USDT address")
    }
}

/// The endpoint of a chain and the token contract tracked on it.
#[derive(Clone, Debug, PartialEq, Eq)]
pub struct BlockchainClient {
    pub rpc_url: String,
    pub usdt_address: Address,
}

/// What `BlockchainClient::new` gives for an endpoint and what the address
/// text was parsed to.
pub open spec fn is_client_for(
    rpc_url: Seq<char>,
    parsed: Option<Seq<u8>>,
    outcome: Result<BlockchainClient, ClientError>,
) -> bool {
    match parsed {
        Some(bytes) => outcome matches Ok(client) && client.rpc_url@ == rpc_url
            && client.usdt_address@ == bytes,
        None => outcome == Err::<BlockchainClient, ClientError>(ClientError::InvalidAddress),
    }
}

impl BlockchainClient {
    /// A client for the endpoint `rpc_url` and the token contract whose
    /// address `usdt_address` denotes.
    pub fn new(rpc_url: &str, usdt_address: &str) -> (outcome: Result<
        BlockchainClient,
        ClientError,
    >)
        ensures
            is_client_for(rpc_url@, parsed_address(usdt_address@), outcome),
    {
        BlockchainClient::with_parsed(rpc_url, Address::parse(usdt_address))
    }

    /// A client for the endpoint `rpc_url` and the address that the address
    /// text was parsed to, if it was.
    pub fn with_parsed(rpc_url: &str, parsed: Option<Address>) -> (outcome: Result<
        BlockchainClient,
        ClientError,
    >)
        ensures
            is_client_for(
                rpc_url@,
                match parsed {
                    Some(address) => Some(address@),
                    None => None,
                },
                outcome,
            ),
    {
        match parsed {
            Some(usdt_address) => Ok(
                BlockchainClient { rpc_url: String::from_str(rpc_url), usdt_address },
            ),
            None => Err(ClientError::InvalidAddress),
        }
    }

    /// Starts the search for the first block that is not older than
    /// `timestamp`, in a chain whose latest block is `latest_block`.
    pub fn timestamp_to_block(&self, timestamp: u64, latest_block: u64) -> (search: BlockSearch)
        ensures
            search == (BlockSearch { target: timestamp, low: 0, high: latest_block }),
    {
        BlockSearch::new(timestamp, latest_block)
    }

    /// Starts the retrieval of the token's transfers in the blocks
    /// `from_block..=to_block`.
    pub fn fetch_transfer_events(&self, from_block: u64, to_block: u64) -> (retriever:
        EventRetriever)
        ensures
            retriever.contract == self.usdt_address,
            retriever.topic@ == keccak256_digest("Transfer(address,address,uint256)"@),
            retriever.is_fresh(from_block, to_block),
            retriever.wf(),
    {
        EventRetriever::new(self.usdt_address, transfer_event_topic(), from_block, to_block)
    }
}

} // verus!
