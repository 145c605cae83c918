//! Account addresses and log topics as plain bytes.
//!
//! Rendering, parsing and hashing are done by `ethers`; the functions that
//! call it are taken on trust, and everything else here is verified.

use crate::amount::{be_value, Amount};
use ethers::types::{H160, H256};
use vstd::prelude::*;

verus! {

/// The character of one hexadecimal digit, in lower case.
pub open spec fn hex_char(nibble: nat) -> char {
    seq!['0', '1', '2', '3', '4', '5', '6', '7', '8', '9', 'a', 'b', 'c', 'd', 'e', 'f'][nibble as int]
}

/// Two lower-case hexadecimal digits for each byte, in order.
pub open spec fn hex_digits(bytes: Seq<u8>) -> Seq<char>
    decreases bytes.len(),
{
    if bytes.len() == 0 {
        Seq::empty()
    } else {
        hex_digits(bytes.drop_last()).push(hex_char(bytes.last() as nat / 16)).push(
            hex_char(bytes.last() as nat % 16),
        )
    }
}

/// How an address is written: `0x` and forty hexadecimal digits.
pub open spec fn address_text(bytes: Seq<u8>) -> Seq<char> {
    seq!['0', 'x'] + hex_digits(bytes)
}

/// What `H160::from_str` makes of a text: the twenty bytes it denotes, or
/// `None` where it rejects the text.
pub uninterp spec fn parsed_address(text: Seq<char>) -> Option<Seq<u8>>;

/// The Keccak-256 digest of the UTF-8 bytes of a text, as
/// `ethers::utils::keccak256` computes it.
pub uninterp spec fn keccak256_digest(text: Seq<char>) -> Seq<u8>;

/// A 20-byte account identifier.
#[derive(Clone, Copy, Debug, PartialEq, Eq)]
pub struct Address {
    pub bytes: [u8; 20],
}

/// A 32-byte indexed field of a log entry.
#[derive(Clone, Copy, Debug, PartialEq, Eq)]
pub struct Topic {
    pub bytes: [u8; 32],
}

impl View for Address {
    type V = Seq<u8>;

    open spec fn view(&self) -> Seq<u8> {
        self.bytes@
    }
}

impl View for Topic {
    type V = Seq<u8>;

    open spec fn view(&self) -> Seq<u8> {
        self.bytes@
    }
}

/// `Debug` of `H160`: `0x` followed by two lower-case hexadecimal digits for
/// each of the twenty bytes.
#[verifier::external_body]
fn h160_debug(address: &Address) -> (text: String)
    ensures
        text@ == address_text(address@),
{
    format!("{:?}", H160(address.bytes))
}

/// `H160::from(H256)`: the last twenty of the thirty-two bytes.
#[verifier::external_body]
fn h160_from_h256(topic: &Topic) -> (address: Address)
    ensures
        address@ == topic@.subrange(12, 32),
{
    Address { bytes: H160::from(H256(topic.bytes)).0 }
}

/// `H160::from_str`, with its error dropped.
#[verifier::external_body]
fn h160_from_str(text: &str) -> (address: Option<Address>)
    ensures
        match address {
            Some(a) => parsed_address(text@) == Some(a@),
            None => parsed_address(text@) is None,
        },
{
    match text.parse::<H160>() {
        Ok(parsed) => Some(Address { bytes: parsed.0 }),
        Err(_) => None,
    }
}

/// `ethers::utils::keccak256` on the bytes of a text.
#[verifier::external_body]
fn keccak256_of_text(text: &str) -> (digest: Topic)
    ensures
        digest@ == keccak256_digest(text@),
{
    Topic { bytes: ethers::utils::keccak256(text) }
}

impl Address {
    /// The address that an indexed log field carries in its last 20 bytes.
    pub fn from_topic(topic: &Topic) -> (address: Address)
        ensures
            address@ == topic@.subrange(12, 32),
    {
        h160_from_h256(topic)
    }

    /// The address that a text denotes, if it denotes one.
    pub fn parse(text: &str) -> (address: Option<Address>)
        ensures
            match address {
                Some(a) => parsed_address(text@) == Some(a@),
                None => parsed_address(text@) is None,
            },
    {
        h160_from_str(text)
    }

    /// Whether the two addresses hold the same bytes.
    pub fn equals(&self, other: &Address) -> (same: bool)
        ensures
            same == (self@ == other@),
    {
        let mut i: usize = 0;
        while i < 20
            invariant
                i <= 20,
                forall|k: int| 0 <= k < i ==> self.bytes[k] == other.bytes[k],
            decreases 20 - i,
        {
            if self.bytes[i] != other.bytes[i] {
                return false;
            }
            i += 1;
        }
        assert(self@ =~= other@);
        true
    }

    /// The address read as a 160-bit big-endian number.
    pub fn to_number(&self) -> (number: Amount)
        ensures
            number@ == be_value(self@),
    {
        Amount::from_be_bytes(&self.bytes)
    }

    /// The address as text: `0x` and forty lower-case hexadecimal digits.
    pub fn to_text(&self) -> (text: String)
        ensures
            text@ == address_text(self@),
    {
        h160_debug(self)
    }
}

/// The topic that marks a token transfer: the digest of the event's
/// signature.
pub fn transfer_event_topic() -> (topic: Topic)
    ensures
        topic@ == keccak256_digest("Transfer(address,address,uint256)"@),
{
    keccak256_of_text("Transfer(address,address,uint256)")
}

} // verus!
