//! Hexadecimal and base64.
use base64::Engine;
use vstd::prelude::*;
use vstd::string::*;
use vstd::utf8::*;

use crate::text::{
    decimal, decimal_text, strip_prefix, trim, trim_prefixes, trimmed, white_space,
    without_prefix, without_prefixes,
};

verus! {

/// A 32-byte hash: a leaf, a node or a root of the tree.
pub type TreeHash = [u8; 32];

/// The value of a hexadecimal digit, of either case.
pub open spec fn hex_value(c: u8) -> Option<int> {
    if '0' as u8 <= c <= '9' as u8 {
        Some(c - '0' as u8)
    } else if 'a' as u8 <= c <= 'f' as u8 {
        Some(c - 'a' as u8 + 10)
    } else if 'A' as u8 <= c <= 'F' as u8 {
        Some(c - 'A' as u8 + 10)
    } else {
        None
    }
}

/// The lower-case hexadecimal digit of value `d`.
pub open spec fn hex_digit(d: int) -> char {
    if d < 10 {
        (('0' as int + d) as u8) as char
    } else {
        (('a' as int + d - 10) as u8) as char
    }
}

/// `bytes` in lower-case hexadecimal, two digits a byte.
pub open spec fn hex_text(bytes: Seq<u8>) -> Seq<char> {
    Seq::new(
        2 * bytes.len(),
        |i: int|
            hex_digit(
                if i % 2 == 0 {
                    bytes[i / 2] as int / 16
                } else {
                    bytes[i / 2] as int % 16
                },
            ),
    )
}

/// Every byte of `s` is a hexadecimal digit.
pub open spec fn all_hex(s: Seq<u8>) -> bool {
    forall|i: int| 0 <= i < s.len() ==> hex_value(#[trigger] s[i]) is Some
}

/// The bytes that a string writes in hexadecimal, two digits a byte.
pub open spec fn hex_bytes(s: Seq<u8>) -> Option<Seq<u8>> {
    if s.len() % 2 == 0 && all_hex(s) {
        Some(
            Seq::new(
                s.len() / 2,
                |i: int| (16 * hex_value(s[2 * i])->0 + hex_value(s[2 * i + 1])->0) as u8,
            ),
        )
    } else {
        None
    }
}

/// The byte that two characters write in hexadecimal. A plus sign may stand in
/// place of the first digit.
pub open spec fn hex_pair(first: u8, second: u8) -> Option<u8> {
    match (hex_value(first), hex_value(second)) {
        (Some(hi), Some(lo)) => Some((16 * hi + lo) as u8),
        (None, Some(lo)) => if first == '+' as u8 {
            Some(lo as u8)
        } else {
            None
        },
        _ => None,
    }
}

/// What byte `i` of a string of hexadecimal pairs is.
pub open spec fn pair_at(s: Seq<u8>, i: int) -> Option<u8> {
    hex_pair(s[2 * i], s[2 * i + 1])
}

/// The bytes that a string of pairs writes.
pub open spec fn pair_bytes(s: Seq<u8>) -> Option<Seq<u8>> {
    if forall|i: int| 0 <= i < s.len() / 2 ==> (#[trigger] pair_at(s, i)) is Some {
        Some(Seq::new(s.len() / 2, |i: int| pair_at(s, i)->0))
    } else {
        None
    }
}

/// Pair `i` of `s` ends where a character ends.
pub open spec fn pair_ends(s: Seq<u8>, i: int) -> bool {
    is_char_boundary(s, 2 * i + 2)
}

/// The pairs of `s`, read from the front up to the first that is no byte, end
/// where characters end.
pub open spec fn pairs_are_characters(s: Seq<u8>) -> bool {
    forall|i: int|
        0 <= i < s.len() / 2 && (forall|j: int| 0 <= j < i ==> (#[trigger] pair_at(s, j)) is Some)
            ==> #[trigger] pair_ends(s, i)
}

/// Why a string is not base64.
pub enum Base64Error {
    /// A byte that base64 does not use, with its offset.
    InvalidByte(usize, u8),
    /// The number of symbols.
    InvalidLength(usize),
    /// A last symbol with bits that no byte takes up, with its offset.
    InvalidLastSymbol(usize, u8),
    InvalidPadding,
}

impl Base64Error {
    /// The error in words.
    pub open spec fn text(self) -> Seq<char> {
        match self {
            Base64Error::InvalidByte(offset, byte) => "Invalid symbol "@ + decimal(byte as nat)
                + ", offset "@ + decimal(offset as nat) + "."@,
            Base64Error::InvalidLength(len) => "Invalid input length: "@ + decimal(len as nat),
            Base64Error::InvalidLastSymbol(offset, byte) => "Invalid last symbol "@ + decimal(
                byte as nat,
            ) + ", offset "@ + decimal(offset as nat) + "."@,
            Base64Error::InvalidPadding => "Invalid padding"@,
        }
    }

    pub fn message(&self) -> (out: String)
        ensures
            out@ == self.text(),
    {
        match self {
            Base64Error::InvalidByte(offset, byte) => {
                let mut out = "Invalid symbol ".to_owned();
                out.append(decimal_text(*byte as u64).as_str());
                out.append(", offset ");
                out.append(decimal_text(*offset as u64).as_str());
                out.append(".");
                out
            },
            Base64Error::InvalidLength(len) => {
                let mut out = "Invalid input length: ".to_owned();
                out.append(decimal_text(*len as u64).as_str());
                out
            },
            Base64Error::InvalidLastSymbol(offset, byte) => {
                let mut out = "Invalid last symbol ".to_owned();
                out.append(decimal_text(*byte as u64).as_str());
                out.append(", offset ");
                out.append(decimal_text(*offset as u64).as_str());
                out.append(".");
                out
            },
            Base64Error::InvalidPadding => "Invalid padding".to_owned(),
        }
    }
}

/// `bytes` in base64, with the standard alphabet and padding.
pub uninterp spec fn base64_text(bytes: Seq<u8>) -> Seq<char>;

/// What a string holds in base64, with the standard alphabet and padding.
pub uninterp spec fn base64_bytes(text: Seq<char>) -> Result<Seq<u8>, Base64Error>;

/// `text` holds `bytes` in base64.
pub open spec fn is_base64_of(text: Seq<char>, bytes: Seq<u8>) -> bool {
    base64_bytes(text) == Ok::<Seq<u8>, Base64Error>(bytes)
}

/// An outcome of decoding, with the bytes as a sequence.
pub open spec fn held_bytes(out: Result<Vec<u8>, Base64Error>) -> Result<Seq<u8>, Base64Error> {
    match out {
        Ok(bytes) => Ok(bytes@),
        Err(error) => Err(error),
    }
}

/// The number of characters of `n` bytes in base64.
pub open spec fn base64_len(n: nat) -> nat {
    (n + 2) / 3 * 4
}

/// A letter, a digit, `+`, `/`, or `=` for padding.
pub open spec fn base64_symbol(c: char) -> bool {
    ||| 'A' <= c <= 'Z'
    ||| 'a' <= c <= 'z'
    ||| '0' <= c <= '9'
    ||| c == '+'
    ||| c == '/'
    ||| c == '='
}

/// `text` is made of four symbols for each three bytes or part of them.
pub open spec fn is_base64_for(text: Seq<char>, bytes: Seq<u8>) -> bool {
    &&& text.len() == base64_len(bytes.len())
    &&& forall|i: int| 0 <= i < text.len() ==> base64_symbol(#[trigger] text[i])
}

/// `STANDARD.encode` of the base64 crate. It gives one text for given bytes, of the
/// symbols of the standard alphabet and padding to a multiple of four, and that text
/// decodes to those bytes. The text has to fit a string.
#[verifier::external_body]
pub(crate) fn base64_encode(bytes: &[u8]) -> (out: String)
    requires
        base64_len(bytes@.len()) <= isize::MAX,
    ensures
        out@ == base64_text(bytes@),
        is_base64_of(out@, bytes@),
        is_base64_for(out@, bytes@),
{
    base64::engine::general_purpose::STANDARD.encode(bytes)
}

/// `STANDARD.decode` of the base64 crate: what it gives for a string is the same
/// each time.
#[verifier::external_body]
pub(crate) fn base64_decode(text: &str) -> (out: Result<Vec<u8>, Base64Error>)
    ensures
        held_bytes(out) == base64_bytes(text@),
{
    base64::engine::general_purpose::STANDARD.decode(text.as_bytes()).map_err(|error| match error {
        base64::DecodeError::InvalidByte(offset, byte) => Base64Error::InvalidByte(offset, byte),
        base64::DecodeError::InvalidLength(len) => Base64Error::InvalidLength(len),
        base64::DecodeError::InvalidLastSymbol(offset, byte) => Base64Error::InvalidLastSymbol(offset, byte),
        base64::DecodeError::InvalidPadding => Base64Error::InvalidPadding,
    })
}

/// `hex::encode`: two lower-case digits a byte.
#[verifier::external_body]
pub(crate) fn hex_of_hash(bytes: &TreeHash) -> (out: String)
    ensures
        out@ == hex_text(bytes@),
{
    hex::encode(bytes)
}

/// What is said of a string that is not hexadecimal.
pub uninterp spec fn hex_refusal(text: Seq<char>) -> Seq<char>;

/// `hex::decode`: the bytes that pairs of digits of either case write. An odd
/// number of characters, or one that is no digit, is refused, with the error in
/// words, which is the same for a string each time.
#[verifier::external_body]
pub(crate) fn hex_decode(text: &str) -> (out: Result<Vec<u8>, String>)
    ensures
        match out {
            Ok(bytes) => hex_bytes(text.spec_bytes()) == Some(bytes@),
            Err(why) => hex_bytes(text.spec_bytes()) is None && why@ == hex_refusal(text@),
        },
{
    hex::decode(text).map_err(|error| error.to_string())
}

/// The value of a hexadecimal digit.
fn hex_digit_value(c: u8) -> (out: Option<u8>)
    ensures
        match out {
            Some(v) => v < 16 && hex_value(c) == Some(v as int),
            None => hex_value(c) is None,
        },
{
    if 48 <= c && c <= 57 {
        Some(c - 48)
    } else if 97 <= c && c <= 102 {
        Some(c - 97 + 10)
    } else if 65 <= c && c <= 70 {
        Some(c - 65 + 10)
    } else {
        None
    }
}

/// Whether `c` is a hexadecimal digit.
pub fn is_hex_digit(c: u8) -> (hex: bool)
    ensures
        hex == (hex_value(c) is Some),
{
    hex_digit_value(c).is_some()
}

/// Copies 32 bytes into a hash.
pub fn hash_from_bytes(bytes: &[u8]) -> (out: Option<TreeHash>)
    ensures
        match out {
            Some(hash) => bytes@.len() == 32 && hash@ == bytes@,
            None => bytes@.len() != 32,
        },
{
    if bytes.len() != 32 {
        return None;
    }
    let mut out: TreeHash = [0u8; 32];
    let mut i: usize = 0;
    while i < 32
        invariant
            bytes@.len() == 32,
            i <= 32,
            forall|k: int| 0 <= k < i ==> out@[k] == bytes@[k],
        decreases 32 - i,
    {
        out[i] = bytes[i];
        i = i + 1;
    }
    assert(out@ =~= bytes@);
    Some(out)
}

/// The hexadecimal digit of value `d` as text.
fn hex_digit_text(d: u8) -> (out: &'static str)
    requires
        d < 16,
    ensures
        out@ == seq![hex_digit(d as int)],
{
    proof {
        reveal_strlit("0");
        reveal_strlit("1");
        reveal_strlit("2");
        reveal_strlit("3");
        reveal_strlit("4");
        reveal_strlit("5");
        reveal_strlit("6");
        reveal_strlit("7");
        reveal_strlit("8");
        reveal_strlit("9");
        reveal_strlit("a");
        reveal_strlit("b");
        reveal_strlit("c");
        reveal_strlit("d");
        reveal_strlit("e");
        reveal_strlit("f");
    }
    let out = match d {
        0 => "0",
        1 => "1",
        2 => "2",
        3 => "3",
        4 => "4",
        5 => "5",
        6 => "6",
        7 => "7",
        8 => "8",
        9 => "9",
        10 => "a",
        11 => "b",
        12 => "c",
        13 => "d",
        14 => "e",
        _ => "f",
    };
    assert(out@ =~= seq![hex_digit(d as int)]);
    out
}

/// A hash in lower-case hexadecimal.
pub fn hex_encode(bytes: &TreeHash) -> (out: String)
    ensures
        out@ == hex_text(bytes@),
{
    let mut out = String::new();
    let mut i: usize = 0;
    while i < 32
        invariant
            i <= 32,
            out@ == hex_text(bytes@).subrange(0, 2 * i),
        decreases 32 - i,
    {
        out.append(hex_digit_text(bytes[i] / 16));
        out.append(hex_digit_text(bytes[i] % 16));
        proof {
            let text = hex_text(bytes@);
            let high = text.subrange(0, 2 * i).push(text[2 * i]);
            assert(text[2 * i] == hex_digit(bytes@[i as int] as int / 16));
            assert(text[2 * i + 1] == hex_digit(bytes@[i as int] as int % 16));
            assert(out@ =~= text.subrange(0, 2 * i + 2));
        }
        i = i + 1;
    }
    assert(out@ =~= hex_text(bytes@));
    out
}

/// Why a string is no hash.
pub enum HashTextError {
    Base64(Base64Error),
    /// The number of bytes that it holds.
    Length(usize),
}

impl HashTextError {
    /// The error in words.
    pub open spec fn text(self) -> Seq<char> {
        match self {
            HashTextError::Base64(error) => error.text(),
            HashTextError::Length(n) => hash_length_text(n as nat),
        }
    }

    pub fn message(&self) -> (out: String)
        ensures
            out@ == self.text(),
    {
        match self {
            HashTextError::Base64(error) => error.message(),
            HashTextError::Length(n) => hash_length_message(*n),
        }
    }
}

/// What is said of a hash of `n` bytes.
pub open spec fn hash_length_text(n: nat) -> Seq<char> {
    "expected 32-byte hash, got "@ + decimal(n) + " bytes"@
}

pub(crate) fn hash_length_message(n: usize) -> (out: String)
    ensures
        out@ == hash_length_text(n as nat),
{
    let mut out = "expected 32-byte hash, got ".to_owned();
    out.append(decimal_text(n as u64).as_str());
    out.append(" bytes");
    out
}

/// `s` is a hash in hexadecimal.
pub open spec fn is_hex_hash(s: Seq<char>) -> bool {
    encode_utf8(s).len() == 64 && all_hex(encode_utf8(s))
}

/// The bytes that a hash string holds. Space at its ends is passed over. 64
/// hexadecimal digits, `0x` before them or not, are hexadecimal; anything else is
/// base64.
pub open spec fn hash_string_bytes(s: Seq<char>) -> Result<Seq<u8>, Base64Error> {
    let digits = without_prefix(trimmed(s), "0x"@);
    if is_hex_hash(digits) {
        Ok(hex_bytes(encode_utf8(digits))->0)
    } else {
        base64_bytes(trimmed(s))
    }
}

/// The hash that a string holds.
pub open spec fn hash_string_value(s: Seq<char>) -> Result<Seq<u8>, HashTextError> {
    match hash_string_bytes(s) {
        Ok(bytes) => if bytes.len() == 32 {
            Ok(bytes)
        } else {
            Err(HashTextError::Length(bytes.len() as usize))
        },
        Err(error) => Err(HashTextError::Base64(error)),
    }
}

/// Whether `s` is a hash in hexadecimal.
fn holds_hex_hash(s: &str) -> (hex: bool)
    ensures
        hex == is_hex_hash(s@),
{
    let bytes = s.as_bytes();
    if bytes.len() != 64 {
        return false;
    }
    all_hex_digits(bytes)
}

/// Whether every byte is a hexadecimal digit.
pub fn all_hex_digits(bytes: &[u8]) -> (hex: bool)
    ensures
        hex == all_hex(bytes@),
{
    let mut i: usize = 0;
    while i < bytes.len()
        invariant
            i <= bytes@.len(),
            forall|k: int| 0 <= k < i ==> hex_value(#[trigger] bytes@[k]) is Some,
        decreases bytes@.len() - i,
    {
        if !is_hex_digit(bytes[i]) {
            assert(hex_value(bytes@[i as int]) is None);
            return false;
        }
        i = i + 1;
    }
    true
}

/// The hash that a string holds, once its bytes are decoded.
pub fn hash_of_decoded(decoded: Result<Vec<u8>, Base64Error>) -> (out: Result<TreeHash, HashTextError>)
    ensures
        match out {
            Ok(hash) => decoded matches Ok(bytes) && bytes@ == hash@,
            Err(HashTextError::Length(n)) => decoded matches Ok(bytes) && bytes@.len() == n && n != 32,
            Err(HashTextError::Base64(error)) => decoded == Err::<Vec<u8>, Base64Error>(error),
        },
{
    match decoded {
        Ok(bytes) => match hash_from_bytes(bytes.as_slice()) {
            Some(hash) => Ok(hash),
            None => Err(HashTextError::Length(bytes.len())),
        },
        Err(error) => Err(HashTextError::Base64(error)),
    }
}

/// The hash that a string holds, in hexadecimal or base64.
pub fn parse_hash_string(value: &str) -> (out: Result<TreeHash, HashTextError>)
    ensures
        match out {
            Ok(hash) => hash_string_value(value@) == Ok::<Seq<u8>, HashTextError>(hash@),
            Err(error) => hash_string_value(value@) == Err::<Seq<u8>, HashTextError>(error),
        },
{
    let trimmed_value = trim(value);
    let digits = strip_prefix(trimmed_value, "0x");
    if holds_hex_hash(digits) {
        match hex_decode(digits) {
            Ok(bytes) => hash_of_decoded(Ok(bytes)),
            Err(_) => hash_of_decoded(Ok(Vec::new())),
        }
    } else {
        hash_of_decoded(base64_decode(trimmed_value))
    }
}

/// Why a stored leaf is no hash, in the abstract.
pub enum HexHashFault {
    NotHex(Seq<char>),
    Length(nat),
}

impl HexHashFault {
    /// The error in words.
    pub open spec fn text(self) -> Seq<char> {
        match self {
            HexHashFault::NotHex(why) => why,
            HexHashFault::Length(n) => hash_length_text(n),
        }
    }
}

/// Why a stored leaf is no hash.
#[derive(Debug)]
pub enum HexHashError {
    NotHex(String),
    /// The number of bytes that it holds.
    Length(usize),
}

impl View for HexHashError {
    type V = HexHashFault;

    open spec fn view(&self) -> HexHashFault {
        match *self {
            HexHashError::NotHex(why) => HexHashFault::NotHex(why@),
            HexHashError::Length(n) => HexHashFault::Length(n as nat),
        }
    }
}

impl HexHashError {
    pub fn message(&self) -> (out: String)
        ensures
            out@ == self@.text(),
    {
        match self {
            HexHashError::NotHex(why) => why.as_str().to_owned(),
            HexHashError::Length(n) => hash_length_message(*n),
        }
    }
}

/// The hash that a string holds in hexadecimal, any number of `0x` before it.
pub open spec fn hex_hash_value(s: Seq<char>) -> Result<Seq<u8>, HexHashFault> {
    let digits = without_prefixes(s, "0x"@);
    match hex_bytes(encode_utf8(digits)) {
        Some(bytes) => if bytes.len() == 32 {
            Ok(bytes)
        } else {
            Err(HexHashFault::Length(bytes.len()))
        },
        None => Err(HexHashFault::NotHex(hex_refusal(digits))),
    }
}

/// The outcome of reading a hash in hexadecimal.
pub open spec fn hex_hash_outcome(out: Result<TreeHash, HexHashError>) -> Result<
    Seq<u8>,
    HexHashFault,
> {
    match out {
        Ok(hash) => Ok(hash@),
        Err(error) => Err(error@),
    }
}

/// The hash that a string holds in hexadecimal.
pub fn decode_hash_hex(value: &str) -> (out: Result<TreeHash, HexHashError>)
    ensures
        hex_hash_outcome(out) == hex_hash_value(value@),
{
    match hex_decode(trim_prefixes(value, "0x")) {
        Ok(bytes) => match hash_from_bytes(bytes.as_slice()) {
            Some(hash) => Ok(hash),
            None => Err(HexHashError::Length(bytes.len())),
        },
        Err(why) => Err(HexHashError::NotHex(why)),
    }
}

/// Whether the pairs of `s`, up to the first that is no byte, end where
/// characters end.
pub fn pairs_end_at_characters(s: &str) -> (ends: bool)
    ensures
        ends == pairs_are_characters(s.spec_bytes()),
{
    let bytes = s.as_bytes();
    let len: usize = bytes.len();
    let n: usize = len / 2;
    let mut i: usize = 0;
    while i < n
        invariant
            bytes@ == s.spec_bytes(),
            len == bytes@.len(),
            n == len / 2,
            i <= n,
            forall|k: int| 0 <= k < i ==> (#[trigger] pair_at(bytes@, k)) is Some,
            forall|k: int| 0 <= k < i ==> #[trigger] pair_ends(bytes@, k),
        decreases n - i,
    {
        if !s.is_char_boundary(2 * i + 2) {
            assert(!pair_ends(bytes@, i as int));
            return false;
        }
        if read_pair(bytes, i).is_none() {
            assert forall|k: int|
                0 <= k < bytes@.len() / 2 && (forall|j: int|
                    0 <= j < k ==> (#[trigger] pair_at(bytes@, j)) is Some)
                implies #[trigger] pair_ends(bytes@, k) by {
                if k > i {
                    assert(pair_at(bytes@, i as int) is Some);
                }
            }
            return true;
        }
        i = i + 1;
    }
    true
}

/// Byte `i` of a string of pairs.
fn read_pair(bytes: &[u8], i: usize) -> (out: Option<u8>)
    requires
        2 * i + 1 < bytes@.len(),
    ensures
        out == pair_at(bytes@, i as int),
{
    let len: usize = bytes.len();
    assert(2 * i < len);
    let first = bytes[2 * i];
    let second = bytes[2 * i + 1];
    match (hex_digit_value(first), hex_digit_value(second)) {
        (Some(hi), Some(lo)) => Some(16 * hi + lo),
        (None, Some(lo)) => if first == 43 {
            Some(lo)
        } else {
            None
        },
        _ => None,
    }
}

/// The 32 bytes that 64 characters write in pairs.
pub fn read_pairs(bytes: &[u8]) -> (out: Option<TreeHash>)
    requires
        bytes@.len() == 64,
    ensures
        match out {
            Some(hash) => pair_bytes(bytes@) == Some(hash@),
            None => pair_bytes(bytes@) is None,
        },
{
    let mut out: TreeHash = [0u8; 32];
    let mut i: usize = 0;
    while i < 32
        invariant
            bytes@.len() == 64,
            i <= 32,
            forall|k: int| 0 <= k < i ==> (#[trigger] pair_at(bytes@, k)) == Some(out@[k]),
        decreases 32 - i,
    {
        match read_pair(bytes, i) {
            Some(byte) => {
                out[i] = byte;
            },
            None => {
                assert(pair_at(bytes@, i as int) is None);
                return None;
            },
        }
        i = i + 1;
    }
    assert forall|k: int| 0 <= k < bytes@.len() / 2 implies (#[trigger] pair_at(bytes@, k)) is Some by {
        assert(pair_at(bytes@, k) == Some(out@[k]));
    }
    assert(pair_bytes(bytes@)->0 =~= out@);
    Some(out)
}

/// The digits of bytes in hexadecimal, as bytes of the string.
proof fn lemma_hex_text_bytes(bytes: Seq<u8>)
    ensures
        is_ascii_chars(hex_text(bytes)),
        encode_utf8(hex_text(bytes)).len() == 2 * bytes.len(),
        forall|i: int|
            #![trigger encode_utf8(hex_text(bytes))[2 * i]]
            0 <= i < bytes.len() ==> {
                &&& hex_value(encode_utf8(hex_text(bytes))[2 * i]) == Some(bytes[i] as int / 16)
                &&& hex_value(encode_utf8(hex_text(bytes))[2 * i + 1]) == Some(bytes[i] as int % 16)
            },
        all_hex(encode_utf8(hex_text(bytes))),
{
    let text = hex_text(bytes);
    assert forall|i: int| 0 <= i < text.len() implies (text[i] as nat) < 128 by {
        assert(bytes[i / 2] as int / 16 < 16);
    }
    assert(is_ascii_chars(text));
    is_ascii_chars_encode_utf8(text);
    let s = encode_utf8(text);
    assert forall|i: int| 0 <= i < s.len() implies hex_value(#[trigger] s[i]) == Some(
        if i % 2 == 0 {
            bytes[i / 2] as int / 16
        } else {
            bytes[i / 2] as int % 16
        },
    ) by {
        assert(s[i] == text[i] as u8);
    }
}

/// Reading back the hexadecimal of bytes gives the bytes.
pub proof fn hex_reads_back(bytes: Seq<u8>)
    ensures
        hex_bytes(encode_utf8(hex_text(bytes))) == Some(bytes),
        pair_bytes(encode_utf8(hex_text(bytes))) == Some(bytes),
        pairs_are_characters(encode_utf8(hex_text(bytes))),
{
    lemma_hex_text_bytes(bytes);
    let s = encode_utf8(hex_text(bytes));
    assert(hex_bytes(s)->0 =~= bytes);
    assert forall|i: int| 0 <= i < s.len() / 2 implies (#[trigger] pair_at(s, i)) == Some(bytes[i]) by {
        assert(hex_value(s[2 * i]) == Some(bytes[i] as int / 16));
    }
    assert(pair_bytes(s)->0 =~= bytes);
    assert forall|i: int| 0 <= i < s.len() / 2 implies #[trigger] pair_ends(s, i) by {
        encode_utf8_valid_utf8(hex_text(bytes));
        is_char_boundary_start_end_of_seq(s);
        if 2 * i + 2 < s.len() {
            is_char_boundary_iff_is_leading_byte(s, 2 * i + 2);
            utf8_byte_ranges_bitwise(s[2 * i + 2]);
            assert(s[2 * (i + 1)] == s[2 * i + 2]);
        }
    }
}

/// A hash written in hexadecimal is read back as that hash.
pub proof fn stored_hash_reads_back(hash: Seq<u8>)
    requires
        hash.len() == 32,
    ensures
        hex_hash_value(hex_text(hash)) == Ok::<Seq<u8>, HexHashFault>(hash),
{
    hex_reads_back(hash);
    reveal_strlit("0x");
    let text = hex_text(hash);
    assert(text[1] != 'x') by {
        assert(text[1] == hex_digit(hash[0] as int % 16));
    }
    assert(!"0x"@.is_prefix_of(text)) by {
        if "0x"@.is_prefix_of(text) {
            assert(text.subrange(0, 2)[1] == 'x');
        }
    }
}

/// A hash written in hexadecimal is read as that hash, wherever a hash may be
/// written in hexadecimal or base64.
pub proof fn hash_text_reads_back(hash: Seq<u8>)
    requires
        hash.len() == 32,
    ensures
        hash_string_value(hex_text(hash)) == Ok::<Seq<u8>, HashTextError>(hash),
{
    let text = hex_text(hash);
    hex_reads_back(hash);
    lemma_hex_text_bytes(hash);
    reveal_strlit("0x");
    assert(text[0] == hex_digit(hash[0] as int / 16));
    assert(text[1] == hex_digit(hash[0] as int % 16));
    assert(text[63] == hex_digit(hash[31] as int % 16));
    assert(hash[0] as int / 16 < 16);
    assert(!white_space(text[0]));
    assert(!white_space(text.last()));
    assert(trimmed(text) == text);
    assert(!"0x"@.is_prefix_of(text)) by {
        if "0x"@.is_prefix_of(text) {
            assert(text.subrange(0, 2)[1] == 'x');
        }
    }
}

} // verus!
