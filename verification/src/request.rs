//! What a caller sends: the key, the checksum and the address it calls
//! from, each in the form in which the transport layer hands it over.

use crate::error::ValidationError;
use uuid::Uuid;
use vstd::prelude::*;

verus! {

/// The network address of the caller's end of the connection.
#[derive(Debug, Clone, Copy, PartialEq, Eq, Structural)]
pub enum PeerAddress {
    /// An IPv4 address, as the 32-bit number that its four bytes spell.
    V4(u32),
    /// An IPv6 address, as the 128-bit number that its sixteen bytes spell.
    V6(u128),
}

/// A request whose key and address have been read.
#[derive(Debug, Clone, PartialEq, Eq)]
pub struct Request {
    /// The key that the caller presents.
    pub key: u128,
    /// The IPv4 address that the caller calls from.
    pub address: u32,
    /// The checksum text that the caller sent, if any.
    pub checksum: Option<String>,
}

/// The value of one hexadecimal digit, upper or lower case.
pub open spec fn hex_digit_value(c: char) -> Option<int> {
    let n = c as int;
    if 48 <= n <= 57 {
        Some(n - 48)
    } else if 65 <= n <= 70 {
        Some(n - 55)
    } else if 97 <= n <= 102 {
        Some(n - 87)
    } else {
        None
    }
}

/// Whether the text is a hex encoding: an even number of hex digits.
pub open spec fn is_hex_text(s: Seq<char>) -> bool {
    &&& s.len() % 2 == 0
    &&& forall|i: int| 0 <= i < s.len() ==> (#[trigger] hex_digit_value(s[i])) is Some
}

/// The bytes that a hex encoding spells, two digits to the byte, the high
/// digit first.
pub open spec fn hex_bytes(s: Seq<char>) -> Seq<u8> {
    Seq::new(
        s.len() / 2,
        |i: int| (hex_digit_value(s[2 * i])->0 * 16 + hex_digit_value(s[2 * i + 1])->0) as u8,
    )
}

/// The bytes of a checksum text, or `None` where it is no hex encoding.
pub open spec fn decoded_hex(s: Seq<char>) -> Option<Seq<u8>> {
    if is_hex_text(s) {
        Some(hex_bytes(s))
    } else {
        None
    }
}

/// The 128-bit key that `Uuid::parse_str` reads from a text, or `None`
/// where it refuses the text.
pub uninterp spec fn parsed_key(s: Seq<char>) -> Option<u128>;

/// Calls `Uuid::parse_str` and hands the key back as a number
/// (`Uuid::as_u128`). Trusted: the result is the one named `parsed_key`.
#[verifier::external_body]
fn parse_uuid(text: &str) -> (r: Option<u128>)
    ensures
        r == parsed_key(text@),
{
    match Uuid::parse_str(text) {
        Ok(id) => Some(id.as_u128()),
        Err(_) => None,
    }
}

/// Calls `hex::decode`. Trusted: the call succeeds exactly on an even number
/// of hex digits of either case, and each byte of the result is spelt by two
/// digits, the high one first.
#[verifier::external_body]
fn decode_hex(text: &str) -> (r: Option<Vec<u8>>)
    ensures
        match r {
            Some(bytes) => decoded_hex(text@) == Some(bytes@),
            None => decoded_hex(text@) is None,
        },
{
    hex::decode(text).ok()
}

/// The IPv4 address of a caller, where the transport layer knows the
/// caller's address and it is one.
pub open spec fn ipv4_of(peer: Option<PeerAddress>) -> Result<u32, ValidationError> {
    match peer {
        None => Err(ValidationError::IPAddressNotFound),
        Some(PeerAddress::V6(_)) => Err(ValidationError::BadIPVersion),
        Some(PeerAddress::V4(a)) => Ok(a),
    }
}

/// The key for what the key parser made of a text.
pub open spec fn key_of(parsed: Option<u128>) -> Result<u128, ValidationError> {
    match parsed {
        Some(key) => Ok(key),
        None => Err(ValidationError::MalformedKey),
    }
}

/// The text of a checksum that may be absent.
pub open spec fn text_of(supplied: Option<&str>) -> Option<Seq<char>> {
    match supplied {
        Some(t) => Some(t@),
        None => None,
    }
}

/// The request that a key text, a checksum text and a peer address make:
/// the address is looked at first, then the key; the checksum is kept as it
/// came.
pub open spec fn request_of(
    parsed: Option<u128>,
    checksum: Option<Seq<char>>,
    peer: Option<PeerAddress>,
) -> Result<(u128, u32, Option<Seq<char>>), ValidationError> {
    match ipv4_of(peer) {
        Err(e) => Err(e),
        Ok(address) => match key_of(parsed) {
            Err(e) => Err(e),
            Ok(key) => Ok((key, address, checksum)),
        },
    }
}

/// The caller's IPv4 address: `IPAddressNotFound` where the address is
/// unknown, `BadIPVersion` where it is not IPv4.
pub fn caller_address(peer: Option<PeerAddress>) -> (r: Result<u32, ValidationError>)
    ensures
        r == ipv4_of(peer),
{
    match peer {
        None => Err(ValidationError::IPAddressNotFound),
        Some(PeerAddress::V6(_)) => Err(ValidationError::BadIPVersion),
        Some(PeerAddress::V4(a)) => Ok(a),
    }
}

/// The key that the parser found, or `MalformedKey` where it found none.
pub fn key_from_parsed(parsed: Option<u128>) -> (r: Result<u128, ValidationError>)
    ensures
        r == key_of(parsed),
{
    match parsed {
        Some(key) => Ok(key),
        None => Err(ValidationError::MalformedKey),
    }
}

/// Reads a key in its canonical text format; `MalformedKey` where the text
/// is in none of the formats that the key parser accepts.
pub fn parse_key(text: &str) -> (r: Result<u128, ValidationError>)
    ensures
        r == key_of(parsed_key(text@)),
{
    key_from_parsed(parse_uuid(text))
}

/// Decodes a checksum from its hex encoding; `MalformedChecksum` exactly
/// where the text is not an even number of hex digits.
pub fn decode_checksum(text: &str) -> (r: Result<Vec<u8>, ValidationError>)
    ensures
        match r {
            Ok(bytes) => is_hex_text(text@) && bytes@ == hex_bytes(text@),
            Err(e) => !is_hex_text(text@) && e == ValidationError::MalformedChecksum,
        },
{
    match decode_hex(text) {
        Some(bytes) => Ok(bytes),
        None => Err(ValidationError::MalformedChecksum),
    }
}

/// Whether two byte strings are equal, byte for byte.
pub fn same_bytes(a: &[u8], b: &[u8]) -> (r: bool)
    ensures
        r <==> a@ == b@,
{
    if a.len() != b.len() {
        return false;
    }
    let mut i: usize = 0;
    while i < a.len()
        invariant
            a@.len() == b@.len(),
            i <= a@.len(),
            forall|j: int| 0 <= j < i ==> a@[j] == b@[j],
        decreases a@.len() - i,
    {
        if a[i] != b[i] {
            return false;
        }
        i += 1;
    }
    assert(a@ =~= b@);
    true
}

impl Request {
    /// The checksum text of the request.
    pub open spec fn supplied(&self) -> Option<Seq<char>> {
        match self.checksum {
            Some(text) => Some(text@),
            None => None,
        }
    }

    /// Reads a request from what the transport layer hands over. The
    /// caller's address is looked at first (`IPAddressNotFound`,
    /// `BadIPVersion`), then the key (`MalformedKey`); the checksum is not
    /// looked at here.
    pub fn parse(key: &str, checksum: Option<&str>, peer: Option<PeerAddress>) -> (r: Result<
        Request,
        ValidationError,
    >)
        ensures
            match r {
                Ok(request) => request_of(
                    parsed_key(key@),
                    text_of(checksum),
                    peer,
                ) == Ok::<(u128, u32, Option<Seq<char>>), ValidationError>(
                    (request.key, request.address, request.supplied()),
                ),
                Err(e) => request_of(parsed_key(key@), text_of(checksum), peer)
                    == Err::<(u128, u32, Option<Seq<char>>), ValidationError>(e),
            },
    {
        let address = match caller_address(peer) {
            Ok(address) => address,
            Err(e) => {
                return Err(e);
            },
        };
        let key = match parse_key(key) {
            Ok(key) => key,
            Err(e) => {
                return Err(e);
            },
        };
        let checksum = match checksum {
            Some(text) => Some(text.to_owned()),
            None => None,
        };
        Ok(Request { key, address, checksum })
    }
}

} // verus!
