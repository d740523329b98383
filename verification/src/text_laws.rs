//! What plain text is read as.
use vstd::prelude::*;
use vstd::string::*;
use vstd::utf8::*;

use crate::hash_laws::{all_space, lemma_trim_back, lemma_trim_front};
use crate::text::{
    bytes_before, decimal, digit_char, digits_value, is_text_before, parse_number, parsed_number,
    strip_prefix, trim, trim_back, trim_front, trim_prefixes, trimmed, white_space,
    without_prefixes, NumberError,
};

verus! {

/// A run of zeros.
pub open spec fn zeros(k: nat) -> Seq<char> {
    Seq::new(k, |i: int| '0')
}

/// The digits write `n`, after any number of zeros.
pub open spec fn digits_write(digits: Seq<char>, n: nat) -> bool {
    exists|k: nat| digits == #[trigger] zeros(k) + decimal(n)
}

/// The text writes `n` in decimal: its digits, after any number of zeros and, before
/// these, a plus sign or none.
pub open spec fn writes_number(s: Seq<char>, n: nat) -> bool {
    ||| digits_write(s, n)
    ||| s.len() > 0 && s[0] == '+' && digits_write(s.subrange(1, s.len() as int), n)
}

proof fn lemma_zeros_value(k: nat, max: nat)
    ensures
        digits_value(zeros(k), max) == Ok::<nat, NumberError>(0),
    decreases k,
{
    if k > 0 {
        lemma_zeros_value((k - 1) as nat, max);
        assert(zeros(k).drop_last() =~= zeros((k - 1) as nat));
    }
}

proof fn lemma_digits_value(k: nat, n: nat, max: nat)
    requires
        n <= max,
    ensures
        digits_value(zeros(k) + decimal(n), max) == Ok::<nat, NumberError>(n),
    decreases n,
{
    let s = zeros(k) + decimal(n);
    if n < 10 {
        lemma_zeros_value(k, max);
        assert(s.drop_last() =~= zeros(k));
        assert(s.last() == digit_char(n as int));
    } else {
        lemma_digits_value(k, n / 10, max);
        assert(s.drop_last() =~= zeros(k) + decimal(n / 10));
        assert(s.last() == digit_char((n % 10) as int));
    }
}

proof fn lemma_digits_write(s: Seq<char>, n: nat, max: nat)
    requires
        s.len() > 0,
        digits_value(s, max) == Ok::<nat, NumberError>(n),
    ensures
        n <= max,
        digits_write(s, n),
    decreases s.len(),
{
    let front = s.drop_last();
    let d = (s.last() as nat - '0' as nat) as nat;
    assert(digit_char(d as int) == s.last());
    if front.len() == 0 {
        assert(s =~= zeros(0) + decimal(n));
    } else {
        let m = digits_value(front, max)->Ok_0;
        lemma_digits_write(front, m, max);
        let k = choose|k: nat| front == #[trigger] zeros(k) + decimal(m);
        assert(s =~= (zeros(k) + decimal(m)).push(s.last()));
        if m == 0 {
            assert(n == d);
            assert(decimal(0) =~= seq!['0']);
            assert(decimal(n) =~= seq![s.last()]);
            assert(zeros(k) + seq!['0'] =~= zeros(k + 1));
            assert(s =~= zeros(k + 1) + decimal(n));
        } else {
            assert(n / 10 == m);
            assert(n % 10 == d);
            assert(decimal(n) == decimal(m).push(s.last()));
            assert((zeros(k) + decimal(m)).push(s.last()) =~= zeros(k) + decimal(m).push(s.last()));
            assert(s =~= zeros(k) + decimal(n));
        }
    }
}

/// A number up to `max` is read from a text if and only if the text writes it in decimal.
pub proof fn number_is_read_where_it_is_written(
    s: &str,
    max: u64,
    n: u64,
    out: Result<u64, NumberError>,
)
    requires
        call_ensures(parse_number, (s, max), out),
    ensures
        out == Ok::<u64, NumberError>(n) <==> n <= max && writes_number(s@, n as nat),
{
    number_text_is_read(s@, max as nat, n as nat);
}

/// A number up to `max` is read from a text if and only if the text writes it in decimal.
pub proof fn number_text_is_read(s: Seq<char>, max: nat, n: nat)
    ensures
        parsed_number(s, max) == Ok::<nat, NumberError>(n) <==> n <= max && writes_number(s, n),
{
    let rest = s.subrange(1, s.len() as int);
    if n <= max && writes_number(s, n) {
        if digits_write(s, n) {
            let k = choose|k: nat| s == #[trigger] zeros(k) + decimal(n);
            lemma_digits_value(k, n, max);
            lemma_first_digit(k, n);
        } else {
            let k = choose|k: nat| rest == #[trigger] zeros(k) + decimal(n);
            lemma_digits_value(k, n, max);
            lemma_first_digit(k, n);
        }
    }
    if parsed_number(s, max) == Ok::<nat, NumberError>(n) {
        if s.len() > 1 && s[0] == '+' {
            lemma_digits_write(rest, n, max);
        } else {
            lemma_digits_write(s, n, max);
        }
    }
}

/// A number starts with a digit.
proof fn lemma_first_digit(k: nat, n: nat)
    ensures
        (zeros(k) + decimal(n)).len() > 0,
        (zeros(k) + decimal(n))[0] != '+',
    decreases n,
{
    if n >= 10 {
        lemma_first_digit(k, n / 10);
        let s = zeros(k) + decimal(n / 10);
        assert((zeros(k) + decimal(n)) =~= s.push(digit_char((n % 10) as int)));
    }
}

/// Trimming takes off the white space at both ends of a text and nothing else.
pub proof fn trimming_takes_off_white_space(
    front: Seq<char>,
    text: Seq<char>,
    back: Seq<char>,
    s: &str,
    out: &str,
)
    requires
        s@ == front + text + back,
        all_space(front),
        all_space(back),
        text.len() > 0 ==> !white_space(text[0]) && !white_space(text.last()),
        call_ensures(trim, (s,), out),
    ensures
        out@ == text,
{
    if text.len() == 0 {
        assert(all_space(s@));
        lemma_blank(s@);
        assert(text =~= Seq::empty());
        assert(out@ =~= Seq::empty());
    } else {
        let rest = text + back;
        assert(s@ =~= front + rest);
        lemma_trim_front(front, rest);
        lemma_trim_back(text, back);
    }
}

proof fn lemma_blank(s: Seq<char>)
    requires
        all_space(s),
    ensures
        trimmed(s).len() == 0,
{
    lemma_blank_front(s);
}

proof fn lemma_blank_front(s: Seq<char>)
    requires
        all_space(s),
    ensures
        trim_front(s).len() == 0,
    decreases s.len(),
{
    if s.len() > 0 {
        let rest = s.subrange(1, s.len() as int);
        assert forall|i: int| 0 <= i < rest.len() implies white_space(#[trigger] rest[i]) by {
            assert(rest[i] == s[i + 1]);
        }
        lemma_blank_front(rest);
    }
}

/// A text is blank if and only if it is nothing but white space.
pub proof fn blank_is_white_space(s: Seq<char>)
    ensures
        trimmed(s).len() == 0 <==> all_space(s),
{
    if all_space(s) {
        lemma_blank(s);
    }
    if trimmed(s).len() == 0 {
        lemma_trimmed_to_nothing(trim_front(s));
        lemma_trimmed_front_to_nothing(s);
    }
}

proof fn lemma_trimmed_to_nothing(s: Seq<char>)
    requires
        trim_back(s).len() == 0,
    ensures
        all_space(s),
    decreases s.len(),
{
    if s.len() > 0 {
        let front = s.subrange(0, s.len() - 1);
        lemma_trimmed_to_nothing(front);
        assert forall|i: int| 0 <= i < s.len() implies white_space(#[trigger] s[i]) by {
            if i < s.len() - 1 {
                assert(front[i] == s[i]);
            }
        }
    }
}

proof fn lemma_trimmed_front_to_nothing(s: Seq<char>)
    requires
        all_space(trim_front(s)),
    ensures
        all_space(s),
    decreases s.len(),
{
    if s.len() > 0 && white_space(s[0]) {
        let rest = s.subrange(1, s.len() as int);
        lemma_trimmed_front_to_nothing(rest);
        assert forall|i: int| 0 <= i < s.len() implies white_space(#[trigger] s[i]) by {
            if i > 0 {
                assert(rest[i - 1] == s[i]);
            }
        }
    }
}

/// A prefix is taken off once where it stands in front; a text without it stays.
pub proof fn prefix_is_taken_off_once(prefix: &str, rest: Seq<char>, s: &str, out: &str)
    requires
        call_ensures(strip_prefix, (s, prefix), out),
    ensures
        s@ == prefix@ + rest ==> out@ == rest,
        !prefix@.is_prefix_of(s@) ==> out@ == s@,
{
    if s@ == prefix@ + rest {
        assert(prefix@ =~= s@.subrange(0, prefix@.len() as int));
        assert(s@.subrange(prefix@.len() as int, s@.len() as int) =~= rest);
    }
}

/// Copies of a text, one after the other.
pub open spec fn copies(prefix: Seq<char>, k: nat) -> Seq<char>
    decreases k,
{
    if k == 0 {
        Seq::empty()
    } else {
        prefix + copies(prefix, (k - 1) as nat)
    }
}

/// A prefix is taken off as often as it stands in front.
pub proof fn prefixes_are_taken_off(prefix: &str, k: nat, rest: Seq<char>, s: &str, out: &str)
    requires
        prefix@.len() > 0,
        s@ == copies(prefix@, k) + rest,
        !prefix@.is_prefix_of(rest),
        call_ensures(trim_prefixes, (s, prefix), out),
    ensures
        out@ == rest,
{
    lemma_copies(prefix@, k, rest);
}

proof fn lemma_copies(prefix: Seq<char>, k: nat, rest: Seq<char>)
    requires
        prefix.len() > 0,
        !prefix.is_prefix_of(rest),
    ensures
        without_prefixes(copies(prefix, k) + rest, prefix) == rest,
    decreases k,
{
    let s = copies(prefix, k) + rest;
    if k == 0 {
        assert(s =~= rest);
    } else {
        let shorter = copies(prefix, (k - 1) as nat) + rest;
        assert(s =~= prefix + shorter);
        assert(prefix =~= s.subrange(0, prefix.len() as int));
        assert(s.subrange(prefix.len() as int, s.len() as int) =~= shorter);
        lemma_copies(prefix, (k - 1) as nat, rest);
    }
}

/// The first position where two byte strings differ, or where the shorter ends.
pub open spec fn differ_first_at(a: Seq<u8>, b: Seq<u8>, k: int) -> bool {
    &&& 0 <= k <= a.len()
    &&& k <= b.len()
    &&& a.subrange(0, k) == b.subrange(0, k)
    &&& k < a.len() && k < b.len() ==> a[k] != b[k]
}

/// Of two byte strings the one comes first that has the smaller byte where they first
/// differ, or that the other goes on from.
pub proof fn bytes_are_ordered_where_they_differ(a: Seq<u8>, b: Seq<u8>, k: int)
    requires
        differ_first_at(a, b, k),
        k < a.len() || k < b.len(),
    ensures
        bytes_before(a, b) <==> k < b.len() && (k == a.len() || a[k] < b[k]),
    decreases k,
{
    if k > 0 {
        assert(a[0] == a.subrange(0, k)[0]);
        assert(b[0] == b.subrange(0, k)[0]);
        let (x, y) = (a.subrange(1, a.len() as int), b.subrange(1, b.len() as int));
        assert(x.subrange(0, k - 1) =~= a.subrange(0, k).subrange(1, k));
        assert(y.subrange(0, k - 1) =~= b.subrange(0, k).subrange(1, k));
        bytes_are_ordered_where_they_differ(x, y, k - 1);
    }
}

/// Texts are ordered as their bytes are.
pub proof fn texts_are_ordered_as_their_bytes(a: &str, b: &str, before: bool)
    requires
        call_ensures(is_text_before, (a, b), before),
    ensures
        before <==> bytes_before(encode_utf8(a@), encode_utf8(b@)),
{
}

/// Which characters are white space.
pub proof fn white_space_is(c: char)
    ensures
        white_space(c) <==> {
            ||| '\u{9}' <= c <= '\u{d}'
            ||| c == '\u{20}'
            ||| c == '\u{85}'
            ||| c == '\u{a0}'
            ||| c == '\u{1680}'
            ||| '\u{2000}' <= c <= '\u{200a}'
            ||| c == '\u{2028}'
            ||| c == '\u{2029}'
            ||| c == '\u{202f}'
            ||| c == '\u{205f}'
            ||| c == '\u{3000}'
        },
{
}

/// A number is written digit by digit, the lowest last.
pub proof fn numbers_are_written_digit_by_digit(front: nat, digit: nat)
    requires
        digit < 10,
    ensures
        decimal(digit).len() == 1,
        decimal(digit)[0] as int == '0' as int + digit,
        front > 0 ==> decimal(10 * front + digit) == decimal(front) + decimal(digit),
{
    if front > 0 {
        let n = (10 * front + digit) as nat;
        assert(n / 10 == front);
        assert(n % 10 == digit);
        assert(decimal(n) =~= decimal(front) + decimal(digit));
    }
}

} // verus!
