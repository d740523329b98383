//! The forms in which a hash is written, and that each is read as that hash.
use vstd::prelude::*;
use vstd::string::*;
use vstd::utf8::*;

use crate::encoding::{
    all_hex, base64_symbol, hash_string_value, hex_bytes, hex_text, hex_value, is_base64_for,
    is_base64_of, is_hex_hash, HashTextError,
};
use crate::events::ValueError;
use crate::json::{first_key_at, lemma_key_at_range, wrapped_at, JsonTree};
use crate::json_events::{hash_keys, json_hash, list_bytes};
use crate::text::{trim_back, trim_front, trimmed, white_space, without_prefix};

verus! {

/// The value of a hexadecimal digit, of either case.
pub open spec fn digit_value(c: char) -> Option<int> {
    if '0' <= c <= '9' {
        Some(c as int - '0' as int)
    } else if 'a' <= c <= 'f' {
        Some(c as int - 'a' as int + 10)
    } else if 'A' <= c <= 'F' {
        Some(c as int - 'A' as int + 10)
    } else {
        None
    }
}

/// `text` writes `bytes` in hexadecimal, two digits a byte, each of either case.
pub open spec fn writes_hex(text: Seq<char>, bytes: Seq<u8>) -> bool {
    &&& text.len() == 2 * bytes.len()
    &&& forall|i: int|
        0 <= i < text.len() ==> digit_value(#[trigger] text[i]) == Some(
            if i % 2 == 0 {
                bytes[i / 2] as int / 16
            } else {
                bytes[i / 2] as int % 16
            },
        )
}

/// `text` is base64 of `bytes` with the standard alphabet and padding.
pub open spec fn writes_base64(text: Seq<char>, bytes: Seq<u8>) -> bool {
    is_base64_of(text, bytes) && is_base64_for(text, bytes)
}

/// The forms of a hash as text.
pub enum TextForm {
    Hex,
    /// Hexadecimal after `0x`.
    PrefixedHex,
    Base64,
}

/// `text` writes `hash` in the form.
pub open spec fn writes(form: TextForm, text: Seq<char>, hash: Seq<u8>) -> bool {
    match form {
        TextForm::Hex => writes_hex(text, hash),
        TextForm::PrefixedHex => {
            &&& "0x"@.is_prefix_of(text)
            &&& writes_hex(text.subrange("0x"@.len() as int, text.len() as int), hash)
        },
        TextForm::Base64 => writes_base64(text, hash),
    }
}

/// Every character is white space.
pub open spec fn all_space(text: Seq<char>) -> bool {
    forall|i: int| 0 <= i < text.len() ==> white_space(#[trigger] text[i])
}

pub(crate) proof fn lemma_trim_front(front: Seq<char>, rest: Seq<char>)
    requires
        all_space(front),
        rest.len() > 0,
        !white_space(rest[0]),
    ensures
        trim_front(front + rest) == rest,
    decreases front.len(),
{
    if front.len() == 0 {
        assert(front + rest =~= rest);
    } else {
        let shorter = front.subrange(1, front.len() as int);
        assert((front + rest)[0] == front[0]);
        assert((front + rest).subrange(1, (front + rest).len() as int) =~= shorter + rest);
        lemma_trim_front(shorter, rest);
    }
}

pub(crate) proof fn lemma_trim_back(rest: Seq<char>, back: Seq<char>)
    requires
        all_space(back),
        rest.len() > 0,
        !white_space(rest.last()),
    ensures
        trim_back(rest + back) == rest,
    decreases back.len(),
{
    let s = rest + back;
    if back.len() == 0 {
        assert(s =~= rest);
    } else {
        let shorter = back.subrange(0, back.len() - 1);
        assert(s.last() == back.last());
        assert(s.subrange(0, s.len() - 1) =~= rest + shorter);
        lemma_trim_back(rest, shorter);
    }
}

/// Trimming takes off the white space around a text that has none at its ends.
proof fn lemma_trimmed(front: Seq<char>, text: Seq<char>, back: Seq<char>)
    requires
        all_space(front),
        all_space(back),
        text.len() > 0,
        !white_space(text[0]),
        !white_space(text.last()),
    ensures
        trimmed(front + text + back) == text,
{
    let rest = text + back;
    assert(front + text + back =~= front + rest);
    lemma_trim_front(front, rest);
    lemma_trim_back(text, back);
}

/// The bytes that hexadecimal digits of either case write.
pub(crate) proof fn lemma_writes_hex(text: Seq<char>, bytes: Seq<u8>)
    requires
        writes_hex(text, bytes),
    ensures
        encode_utf8(text).len() == text.len(),
        all_hex(encode_utf8(text)),
        hex_bytes(encode_utf8(text)) == Some(bytes),
{
    assert forall|i: int| 0 <= i < text.len() implies '\0' <= #[trigger] text[i] <= '\u{7f}' by {
        assert(digit_value(text[i]) is Some);
    }
    assert(is_ascii_chars(text));
    is_ascii_chars_encode_utf8(text);
    let s = encode_utf8(text);
    assert forall|i: int| 0 <= i < s.len() implies hex_value(#[trigger] s[i]) == digit_value(
        text[i],
    ) by {
        assert(s[i] == text[i] as u8);
    }
    assert forall|i: int| 0 <= i < bytes.len() implies bytes[i] == (16 * hex_value(s[2 * i])->0
        + hex_value(s[2 * i + 1])->0) as u8 by {
        assert(digit_value(text[2 * i]) == Some(bytes[i] as int / 16));
        assert(digit_value(text[2 * i + 1]) == Some(bytes[i] as int % 16));
    }
    assert(hex_bytes(s)->0 =~= bytes);
}

/// A hash is read as that hash from each of its forms as text: hexadecimal with
/// digits of either case, with `0x` before it or not, and base64, with white space
/// around it or not.
pub proof fn hash_is_read_from_text(
    form: TextForm,
    front: Seq<char>,
    text: Seq<char>,
    back: Seq<char>,
    hash: Seq<u8>,
)
    requires
        hash.len() == 32,
        writes(form, text, hash),
        all_space(front),
        all_space(back),
    ensures
        hash_string_value(front + text + back) == Ok::<Seq<u8>, HashTextError>(hash),
{
    reveal_strlit("0x");
    match form {
        TextForm::Hex => {
            lemma_writes_hex(text, hash);
            assert(digit_value(text[0]) is Some);
            assert(digit_value(text[1]) is Some);
            assert(digit_value(text[63]) is Some);
            lemma_trimmed(front, text, back);
            assert(!"0x"@.is_prefix_of(text)) by {
                if "0x"@.is_prefix_of(text) {
                    assert(text.subrange(0, 2)[1] == 'x');
                }
            }
        },
        TextForm::PrefixedHex => {
            let digits = text.subrange(2, text.len() as int);
            lemma_writes_hex(digits, hash);
            assert(text.subrange(0, 2)[0] == '0');
            assert(digit_value(digits[63]) is Some);
            assert(text.last() == digits[63]);
            lemma_trimmed(front, text, back);
        },
        TextForm::Base64 => {
            assert(text.len() == 44);
            assert(base64_symbol(text[0]));
            assert(base64_symbol(text[43]));
            lemma_trimmed(front, text, back);
            let digits = without_prefix(text, "0x"@);
            assert(is_ascii_chars(digits)) by {
                assert forall|i: int| 0 <= i < digits.len() implies '\0' <= #[trigger] digits[i]
                    <= '\u{7f}' by {
                    let k = i + text.len() - digits.len();
                    assert(digits[i] == text[k]);
                    assert(base64_symbol(text[k]));
                }
            }
            is_ascii_chars_encode_utf8(digits);
        },
    }
}

proof fn lemma_ascii_char(c: char)
    requires
        (c as u32) < 128,
    ensures
        '\0' <= c <= '\u{7f}',
{
}

/// Bytes below 128 stand for characters below 128.
pub(crate) proof fn lemma_ascii_bytes(text: Seq<char>)
    requires
        forall|i: int| 0 <= i < encode_utf8(text).len() ==> (#[trigger] encode_utf8(text)[i]) < 128,
    ensures
        is_ascii_chars(text),
    decreases text.len(),
{
    if text.len() > 0 {
        let bytes = encode_utf8(text);
        let rest = text.drop_first();
        encode_utf8_first_scalar(text);
        let first = bytes[0];
        assert(bytes.len() > 0);
        assert(first < 128);
        assert((first & 0x7f) < 128) by (bit_vector);
        let n = encode_scalar(text[0] as u32).len() as int;
        assert(n == 1);
        assert forall|i: int| 0 <= i < encode_utf8(rest).len() implies (
        #[trigger] encode_utf8(rest)[i]) < 128 by {
            assert(bytes[n + i] == encode_utf8(rest)[i]);
        }
        lemma_ascii_bytes(rest);
        lemma_ascii_char(text[0]);
        assert forall|i: int| 0 <= i < text.len() implies '\0' <= #[trigger] text[i] <= '\u{7f}' by {
            if i > 0 {
                assert(text[i] == rest[i - 1]);
            }
        }
    }
}

/// A text is taken for a hash in hexadecimal if and only if it is 64 hexadecimal digits,
/// of either case.
pub proof fn hex_hash_is_64_digits(text: Seq<char>)
    ensures
        is_hex_hash(text) <==> text.len() == 64 && forall|i: int|
            0 <= i < text.len() ==> digit_value(#[trigger] text[i]) is Some,
{
    let bytes = encode_utf8(text);
    if is_hex_hash(text) {
        assert forall|i: int| 0 <= i < bytes.len() implies (#[trigger] bytes[i]) < 128 by {
            assert(hex_value(bytes[i]) is Some);
        }
        lemma_ascii_bytes(text);
        is_ascii_chars_encode_utf8(text);
        assert forall|i: int| 0 <= i < text.len() implies digit_value(#[trigger] text[i]) is Some by {
            assert(text[i] as u8 == bytes[i]);
            assert(hex_value(bytes[i]) is Some);
        }
    }
    if text.len() == 64 && forall|i: int|
        0 <= i < text.len() ==> digit_value(#[trigger] text[i]) is Some {
        assert forall|i: int| 0 <= i < text.len() implies '\0' <= #[trigger] text[i] <= '\u{7f}' by {
            assert(digit_value(text[i]) is Some);
        }
        assert(is_ascii_chars(text));
        is_ascii_chars_encode_utf8(text);
        assert forall|i: int| 0 <= i < bytes.len() implies hex_value(#[trigger] bytes[i]) is Some by {
            assert(text[i] as u8 == bytes[i]);
            assert(digit_value(text[i]) is Some);
        }
    }
}

/// What is read of a text as a hash is 32 bytes that the text writes, white space at its
/// ends apart: in hexadecimal, with `0x` before it or not, or in base64.
pub proof fn hash_is_read_only_from_its_text(s: Seq<char>, hash: Seq<u8>)
    requires
        hash_string_value(s) == Ok::<Seq<u8>, HashTextError>(hash),
    ensures
        hash.len() == 32,
        ({
            let text = trimmed(s);
            ||| writes(TextForm::Hex, text, hash)
            ||| writes(TextForm::PrefixedHex, text, hash)
            ||| is_base64_of(text, hash)
        }),
{
    let text = trimmed(s);
    let digits = without_prefix(text, "0x"@);
    if is_hex_hash(digits) {
        hex_hash_is_64_digits(digits);
        let bytes = encode_utf8(digits);
        assert forall|i: int| 0 <= i < digits.len() implies '\0' <= #[trigger] digits[i]
            <= '\u{7f}' by {
            assert(digit_value(digits[i]) is Some);
        }
        assert(is_ascii_chars(digits));
        is_ascii_chars_encode_utf8(digits);
        assert(hash == hex_bytes(bytes)->0);
        assert forall|i: int| 0 <= i < digits.len() implies digit_value(#[trigger] digits[i])
            == Some(
            if i % 2 == 0 {
                hash[i / 2] as int / 16
            } else {
                hash[i / 2] as int % 16
            },
        ) by {
            let k = i / 2;
            assert(digits[2 * k] as u8 == bytes[2 * k]);
            assert(digits[2 * k + 1] as u8 == bytes[2 * k + 1]);
            assert(digit_value(digits[2 * k]) is Some);
            assert(digit_value(digits[2 * k + 1]) is Some);
            assert(hash[k] == (16 * hex_value(bytes[2 * k])->0 + hex_value(bytes[2 * k + 1])->0) as u8);
        }
        assert(writes_hex(digits, hash));
    }
}

/// The hexadecimal that this library writes is one of those forms.
pub proof fn lower_case_is_hex(bytes: Seq<u8>)
    ensures
        writes_hex(hex_text(bytes), bytes),
{
    let text = hex_text(bytes);
    assert forall|i: int| 0 <= i < text.len() implies digit_value(#[trigger] text[i]) == Some(
        if i % 2 == 0 {
            bytes[i / 2] as int / 16
        } else {
            bytes[i / 2] as int % 16
        },
    ) by {
        assert(bytes[i / 2] as int / 16 < 16);
    }
}

/// The forms of a hash as a JSON value.
pub enum JsonForm {
    /// A string, with white space around it.
    Text { form: TextForm, front: Seq<char>, text: Seq<char>, back: Seq<char> },
    /// A list of numbers.
    Numbers,
    /// The value of the only member of an object, in turn in a form.
    Wrapped(Box<JsonForm>),
}

/// A JSON value stands for `hash` in the form.
pub open spec fn stands_for(form: JsonForm, tree: JsonTree, hash: Seq<u8>) -> bool
    decreases form,
{
    match (form, tree) {
        (JsonForm::Text { form, front, text, back }, JsonTree::Text(s)) => {
            &&& s == front + text + back
            &&& all_space(front)
            &&& all_space(back)
            &&& writes(form, text, hash)
        },
        (JsonForm::Numbers, JsonTree::Array(items, _)) => {
            &&& items.len() == hash.len()
            &&& forall|i: int|
                0 <= i < items.len() ==> (#[trigger] items[i] matches JsonTree::Number {
                    value: Some(n),
                    ..
                } && n == hash[i])
        },
        (JsonForm::Wrapped(inner), JsonTree::Object(members, _)) => {
            &&& members.len() == 1
            &&& stands_for(*inner, members[0].1, hash)
        },
        _ => false,
    }
}

proof fn lemma_list_bytes(items: Seq<JsonTree>, text: Seq<char>, bytes: Seq<u8>)
    requires
        stands_for(JsonForm::Numbers, JsonTree::Array(items, text), bytes),
    ensures
        list_bytes(items) == Ok::<Seq<u8>, ValueError>(bytes),
    decreases items.len(),
{
    if items.len() == 0 {
        assert(bytes =~= Seq::empty());
    } else {
        let (front, rest) = (items.drop_last(), bytes.drop_last());
        assert forall|i: int| 0 <= i < front.len() implies (#[trigger] front[i] matches JsonTree::Number {
            value: Some(n),
            ..
        } && n == rest[i]) by {
            assert(front[i] == items[i]);
        }
        lemma_list_bytes(front, text, rest);
        assert(items[items.len() - 1] == items.last());
        assert(rest.push(bytes.last()) =~= bytes);
    }
}

/// An object of one member stands for that member.
pub(crate) proof fn lemma_only_member(members: Seq<(Seq<char>, JsonTree)>, keys: Seq<&str>)
    requires
        members.len() == 1,
    ensures
        0 <= first_key_at(members, keys) <= 1,
        wrapped_at(members, keys) == 0,
    decreases keys.len(),
{
    if keys.len() > 0 {
        lemma_key_at_range(members, keys[0]@);
        lemma_only_member(members, keys.subrange(1, keys.len() as int));
    }
}

/// All the forms of one hash as a JSON value are read alike: as that hash.
pub proof fn every_form_of_a_hash_is_read(form: JsonForm, tree: JsonTree, hash: Seq<u8>)
    requires
        hash.len() == 32,
        stands_for(form, tree, hash),
    ensures
        json_hash(tree) == Ok::<Seq<u8>, ValueError>(hash),
    decreases form,
{
    match (form, tree) {
        (JsonForm::Text { form, front, text, back }, JsonTree::Text(_)) => {
            hash_is_read_from_text(form, front, text, back, hash);
        },
        (JsonForm::Numbers, JsonTree::Array(items, text)) => {
            lemma_list_bytes(items, text, hash);
        },
        (JsonForm::Wrapped(inner), JsonTree::Object(members, _)) => {
            lemma_only_member(members, hash_keys());
            every_form_of_a_hash_is_read(*inner, members[0].1, hash);
        },
        _ => {},
    }
}

} // verus!
