//! The payload of an input: where to ask for it, and how to read the answer.
//!
//! The data-availability service answers a request for a block's blobs with
//! a JSON document. The payload is the string at `data[0].blob`: the
//! characters `0x`, then two hexadecimal digits for each byte.

use crate::error::EnrichmentError;
use crate::hexcode::{hex_bytes, hex_decode, is_hex_text};
use crate::json::{parse_json, parsed_json, Json};
use vstd::prelude::*;
use vstd::slice::slice_subrange;
use vstd::string::StringExecFns;
use vstd::utf8::encode_utf8;

verus! {

/// The character for a digit below ten.
pub open spec fn digit_char(d: int) -> char {
    if d == 0 {
        '0'
    } else if d == 1 {
        '1'
    } else if d == 2 {
        '2'
    } else if d == 3 {
        '3'
    } else if d == 4 {
        '4'
    } else if d == 5 {
        '5'
    } else if d == 6 {
        '6'
    } else if d == 7 {
        '7'
    } else if d == 8 {
        '8'
    } else {
        '9'
    }
}

/// A number in decimal, without leading zeros.
pub open spec fn spec_decimal(n: nat) -> Seq<char>
    decreases n,
{
    if n < 10 {
        seq![digit_char(n as int)]
    } else {
        spec_decimal(n / 10).push(digit_char((n % 10) as int))
    }
}

fn digit_text(d: u64) -> (text: &'static str)
    requires
        d < 10,
    ensures
        text@ == seq![digit_char(d as int)],
{
    proof {
        reveal_strlit("0");
        reveal_strlit("1");
        reveal_strlit("2");
        reveal_strlit("3");
        reveal_strlit("4");
        reveal_strlit("5");
        reveal_strlit("6");
        reveal_strlit("7");
        reveal_strlit("8");
        reveal_strlit("9");
    }
    let text = if d == 0 {
        "0"
    } else if d == 1 {
        "1"
    } else if d == 2 {
        "2"
    } else if d == 3 {
        "3"
    } else if d == 4 {
        "4"
    } else if d == 5 {
        "5"
    } else if d == 6 {
        "6"
    } else if d == 7 {
        "7"
    } else if d == 8 {
        "8"
    } else {
        "9"
    };
    assert(text@ =~= seq![digit_char(d as int)]);
    text
}

/// `n` in decimal.
pub fn decimal(n: u64) -> (text: String)
    ensures
        text@ == spec_decimal(n as nat),
    decreases n,
{
    if n < 10 {
        digit_text(n).to_owned()
    } else {
        let mut text = decimal(n / 10);
        text.append(digit_text(n % 10));
        assert(text@ =~= spec_decimal(n as nat));
        text
    }
}

/// The address to ask for the blobs of block `block_id`, at the service
/// found under `base_url`.
pub fn blob_sidecar_url(base_url: &str, block_id: u64) -> (url: String)
    ensures
        url@ == base_url@ + "/eth/v1/beacon/blob_sidecars/"@ + spec_decimal(block_id as nat),
{
    let mut url = base_url.to_owned();
    url.append("/eth/v1/beacon/blob_sidecars/");
    let number = decimal(block_id);
    url.append(number.as_str());
    url
}

/// Whether `text` starts with the characters `0x`.
pub open spec fn has_hex_prefix(text: Seq<u8>) -> bool {
    text.len() >= 2 && text[0] == 0x30 && text[1] == 0x78
}

/// The payload that a blob's text stands for: the bytes written in
/// hexadecimal behind `0x`.
pub open spec fn spec_decode_blob(text: Seq<u8>) -> Result<Seq<u8>, EnrichmentError> {
    if !has_hex_prefix(text) {
        Err(EnrichmentError::MissingPrefix)
    } else if !is_hex_text(text.skip(2)) {
        Err(EnrichmentError::InvalidHex)
    } else {
        Ok(hex_bytes(text.skip(2)))
    }
}

/// The text of the first blob of an answer: the string at `data[0].blob`.
pub open spec fn spec_first_blob(answer: Json) -> Option<Seq<char>> {
    match answer.spec_member("data"@) {
        Some(data) => match data.spec_element(0) {
            Some(first) => match first.spec_member("blob"@) {
                Some(blob) => blob.spec_text(),
                None => None,
            },
            None => None,
        },
        None => None,
    }
}

/// The payload held by an answer that was read as JSON.
pub open spec fn spec_blob_of_answer(answer: Json) -> Result<Seq<u8>, EnrichmentError> {
    match spec_first_blob(answer) {
        Some(text) => spec_decode_blob(encode_utf8(text)),
        None => Err(EnrichmentError::MissingBlob),
    }
}

/// The payload held by the body of an answer.
pub open spec fn spec_extract_blob(response: Seq<char>) -> Result<Seq<u8>, EnrichmentError> {
    match parsed_json(response) {
        Some(answer) => spec_blob_of_answer(answer),
        None => Err(EnrichmentError::MalformedJson),
    }
}

/// A decoded payload as a sequence of bytes.
pub open spec fn payload_view(r: Result<Vec<u8>, EnrichmentError>) -> Result<
    Seq<u8>,
    EnrichmentError,
> {
    match r {
        Ok(bytes) => Ok(bytes@),
        Err(e) => Err(e),
    }
}

/// Decodes the text of a blob.
pub fn decode_blob(text: &str) -> (r: Result<Vec<u8>, EnrichmentError>)
    ensures
        payload_view(r) == spec_decode_blob(encode_utf8(text@)),
{
    let bytes = text.as_bytes();
    if bytes.len() < 2 || bytes[0] != 0x30 || bytes[1] != 0x78 {
        return Err(EnrichmentError::MissingPrefix);
    }
    let digits = slice_subrange(bytes, 2, bytes.len());
    assert(digits@ =~= bytes@.skip(2));
    match hex_decode(digits) {
        Ok(payload) => Ok(payload),
        Err(_) => Err(EnrichmentError::InvalidHex),
    }
}

/// The text of the first blob of an answer.
pub fn first_blob(answer: &Json) -> (r: Option<&str>)
    ensures
        r is Some <==> spec_first_blob(*answer) is Some,
        r matches Some(text) ==> spec_first_blob(*answer) == Some(text@),
{
    let data = match answer.member("data") {
        Some(data) => data,
        None => { return None; },
    };
    let first = match data.element(0) {
        Some(first) => first,
        None => { return None; },
    };
    match first.member("blob") {
        Some(blob) => blob.text(),
        None => None,
    }
}

/// Reads the payload out of an answer that was read as JSON.
pub fn blob_of_answer(answer: &Json) -> (r: Result<Vec<u8>, EnrichmentError>)
    ensures
        payload_view(r) == spec_blob_of_answer(*answer),
{
    match first_blob(answer) {
        Some(text) => decode_blob(text),
        None => Err(EnrichmentError::MissingBlob),
    }
}

/// Reads the payload out of the body of the service's answer.
pub fn extract_blob_sidecar(response: &str) -> (r: Result<Vec<u8>, EnrichmentError>)
    ensures
        payload_view(r) == spec_extract_blob(response@),
{
    match parse_json(response) {
        Ok(answer) => blob_of_answer(&answer),
        Err(_) => Err(EnrichmentError::MalformedJson),
    }
}

} // verus!
