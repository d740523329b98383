//! Payloads on the wire: serialized values in base64.
use vstd::prelude::*;
use vstd::string::*;

use crate::api_error::{ApiError, ApiFault};
use crate::encoding::{
    base64_bytes, base64_decode, base64_encode, base64_len, base64_text, is_base64_for, is_base64_of,
    Base64Error,
};

verus! {

/// Whether the base64 of `len` bytes fits a string.
pub fn fits_base64(len: usize) -> (fits: bool)
    ensures
        fits == (base64_len(len as nat) <= isize::MAX),
{
    let max: usize = isize::MAX as usize / 4 * 3;
    len <= max
}

/// Serialized bytes fit a string in base64.
pub open spec fn serialized_fits(serialized: Result<Vec<u8>, String>) -> bool {
    serialized matches Ok(bytes) ==> base64_len(bytes@.len()) <= isize::MAX
}

/// A value in base64, given its bytes in bincode or why it has none.
pub fn encode_bincode_base64(serialized: Result<Vec<u8>, String>) -> (out: Result<String, ApiError>)
    requires
        serialized_fits(serialized),
    ensures
        match (serialized, out) {
            (Ok(bytes), Ok(text)) => text@ == base64_text(bytes@) && is_base64_of(text@, bytes@)
                && is_base64_for(text@, bytes@),
            (Err(why), Err(error)) => error@ == ApiFault::Bincode(why@),
            _ => false,
        },
{
    match serialized {
        Ok(bytes) => Ok(base64_encode(bytes.as_slice())),
        Err(why) => Err(ApiError::Bincode(why)),
    }
}

/// A value in base64, given its bytes in JSON or why it has none.
pub fn encode_json_base64(serialized: Result<Vec<u8>, String>) -> (out: Result<String, ApiError>)
    requires
        serialized_fits(serialized),
    ensures
        match (serialized, out) {
            (Ok(bytes), Ok(text)) => text@ == base64_text(bytes@) && is_base64_of(text@, bytes@)
                && is_base64_for(text@, bytes@),
            (Err(why), Err(error)) => error@ == ApiFault::JsonWire(why@),
            _ => false,
        },
{
    match serialized {
        Ok(bytes) => Ok(base64_encode(bytes.as_slice())),
        Err(why) => Err(ApiError::JsonWire(why)),
    }
}

/// `parse` may read a value from bytes.
pub open spec fn parses<T, F: Fn(&[u8]) -> Result<T, String>>(
    parse: F,
    bytes: Seq<u8>,
    value: T,
) -> bool {
    exists|slice: &[u8]|
        slice@ == bytes && #[trigger] call_ensures(parse, (slice,), Ok::<T, String>(value))
}

/// `parse` may refuse bytes with an error that reads `why`.
pub open spec fn refuses<T, F: Fn(&[u8]) -> Result<T, String>>(
    parse: F,
    bytes: Seq<u8>,
    why: Seq<char>,
) -> bool {
    exists|slice: &[u8], error: String|
        slice@ == bytes && error@ == why && #[trigger] call_ensures(
            parse,
            (slice,),
            Err::<T, String>(error),
        )
}

/// `out` is what comes of a text in base64 whose bytes `parse` reads, where an
/// error of `parse` in words is one of JSON.
pub open spec fn json_received<T, F: Fn(&[u8]) -> Result<T, String>>(
    text: Seq<char>,
    parse: F,
    out: Result<T, ApiError>,
) -> bool {
    match base64_bytes(text) {
        Err(error) => out matches Err(fault) && fault@ == ApiFault::Base64(error.text()),
        Ok(bytes) => match out {
            Ok(value) => parses(parse, bytes, value),
            Err(fault) => fault@ matches ApiFault::JsonWire(why) && refuses(parse, bytes, why),
        },
    }
}

/// `out` is what comes of a text in base64 whose bytes `parse` reads, where an
/// error of `parse` in words is one of bincode.
pub open spec fn bincode_received<T, F: Fn(&[u8]) -> Result<T, String>>(
    text: Seq<char>,
    parse: F,
    out: Result<T, ApiError>,
) -> bool {
    match base64_bytes(text) {
        Err(error) => out matches Err(fault) && fault@ == ApiFault::Base64(error.text()),
        Ok(bytes) => match out {
            Ok(value) => parses(parse, bytes, value),
            Err(fault) => fault@ matches ApiFault::Bincode(why) && refuses(parse, bytes, why),
        },
    }
}

/// The bytes that a text holds in base64.
fn decode_base64(value: &str) -> (out: Result<Vec<u8>, ApiError>)
    ensures
        match out {
            Ok(bytes) => base64_bytes(value@) == Ok::<Seq<u8>, Base64Error>(bytes@),
            Err(fault) => base64_bytes(value@) matches Err(error) && fault@ == ApiFault::Base64(
                error.text(),
            ),
        },
{
    match base64_decode(value) {
        Ok(bytes) => Ok(bytes),
        Err(error) => Err(ApiError::Base64(error.message())),
    }
}

/// The value that a text holds in base64, where `parse` reads bincode.
pub fn decode_bincode_base64<T, F: Fn(&[u8]) -> Result<T, String>>(value: &str, parse: F) -> (out:
    Result<T, ApiError>)
    requires
        forall|bytes: &[u8]| call_requires(parse, (bytes,)),
    ensures
        bincode_received(value@, parse, out),
{
    let bytes = decode_base64(value)?;
    let slice = bytes.as_slice();
    match parse(slice) {
        Ok(parsed) => Ok(parsed),
        Err(why) => Err(ApiError::Bincode(why)),
    }
}

/// The value that a text holds in base64, where `parse` reads JSON.
pub fn decode_json_base64<T, F: Fn(&[u8]) -> Result<T, String>>(value: &str, parse: F) -> (out:
    Result<T, ApiError>)
    requires
        forall|bytes: &[u8]| call_requires(parse, (bytes,)),
    ensures
        json_received(value@, parse, out),
{
    let bytes = decode_base64(value)?;
    let slice = bytes.as_slice();
    match parse(slice) {
        Ok(parsed) => Ok(parsed),
        Err(why) => Err(ApiError::JsonWire(why)),
    }
}

/// Bytes that are sent in base64 reach `parse` as they were.
pub proof fn payload_is_received_as_sent<T, F: Fn(&[u8]) -> Result<T, String>>(
    text: Seq<char>,
    bytes: Seq<u8>,
    parse: F,
    out: Result<T, ApiError>,
)
    requires
        is_base64_of(text, bytes),
        json_received(text, parse, out),
    ensures
        match out {
            Ok(value) => parses(parse, bytes, value),
            Err(fault) => fault@ matches ApiFault::JsonWire(why) && refuses(parse, bytes, why),
        },
{
}

} // verus!
