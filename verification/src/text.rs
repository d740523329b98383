//! Plain text: comparison, search, trimming and numbers in decimal.
use vstd::prelude::*;
use vstd::string::*;
use vstd::utf8::*;

verus! {

/// `needle` stands somewhere in `hay`, in one piece.
pub open spec fn occurs_in(needle: Seq<char>, hay: Seq<char>) -> bool {
    exists|i: int| #[trigger] occurs_at(needle, hay, i)
}

/// `needle` stands in `hay` at position `i`.
pub open spec fn occurs_at(needle: Seq<char>, hay: Seq<char>, i: int) -> bool {
    &&& 0 <= i
    &&& i + needle.len() <= hay.len()
    &&& hay.subrange(i, i + needle.len()) == needle
}

/// An ASCII capital as its small letter; any other character as it is.
pub open spec fn lower_char(c: char) -> char {
    if 'A' <= c && c <= 'Z' {
        ((c as u8 + 32) as u8) as char
    } else {
        c
    }
}

/// `s` with its ASCII capitals made small.
pub open spec fn lower_text(s: Seq<char>) -> Seq<char> {
    s.map_values(|c: char| lower_char(c))
}

/// The characters of Unicode's `White_Space` property.
pub open spec fn white_space(c: char) -> bool {
    ||| '\u{9}' <= c <= '\u{d}'
    ||| c == ' '
    ||| c == '\u{85}'
    ||| c == '\u{a0}'
    ||| c == '\u{1680}'
    ||| '\u{2000}' <= c <= '\u{200a}'
    ||| c == '\u{2028}'
    ||| c == '\u{2029}'
    ||| c == '\u{202f}'
    ||| c == '\u{205f}'
    ||| c == '\u{3000}'
}

/// `s` without the white space in front.
pub open spec fn trim_front(s: Seq<char>) -> Seq<char>
    decreases s.len(),
{
    if s.len() > 0 && white_space(s[0]) {
        trim_front(s.subrange(1, s.len() as int))
    } else {
        s
    }
}

/// `s` without the white space at its end.
pub open spec fn trim_back(s: Seq<char>) -> Seq<char>
    decreases s.len(),
{
    if s.len() > 0 && white_space(s.last()) {
        trim_back(s.subrange(0, s.len() - 1))
    } else {
        s
    }
}

/// `s` without the white space at either end.
pub open spec fn trimmed(s: Seq<char>) -> Seq<char> {
    trim_back(trim_front(s))
}

/// `s` without `prefix`, where it starts with it; otherwise `s`.
pub open spec fn without_prefix(s: Seq<char>, prefix: Seq<char>) -> Seq<char> {
    if prefix.is_prefix_of(s) {
        s.subrange(prefix.len() as int, s.len() as int)
    } else {
        s
    }
}

/// `s` without any of the copies of `prefix` that it starts with.
pub open spec fn without_prefixes(s: Seq<char>, prefix: Seq<char>) -> Seq<char>
    decreases s.len(),
{
    if prefix.len() > 0 && prefix.is_prefix_of(s) {
        without_prefixes(s.subrange(prefix.len() as int, s.len() as int), prefix)
    } else {
        s
    }
}

/// The decimal digit `d` as a character.
pub open spec fn digit_char(d: int) -> char {
    (('0' as int + d) as u8) as char
}

/// `n` in decimal, without leading zeros.
pub open spec fn decimal(n: nat) -> Seq<char>
    decreases n,
{
    if n < 10 {
        seq![digit_char(n as int)]
    } else {
        decimal(n / 10).push(digit_char((n % 10) as int))
    }
}

/// `c` is a decimal digit.
pub open spec fn is_digit(c: char) -> bool {
    '0' <= c <= '9'
}

/// Every character of `s` is a decimal digit.
pub open spec fn all_digits(s: Seq<char>) -> bool {
    forall|i: int| 0 <= i < s.len() ==> is_digit(#[trigger] s[i])
}

/// Why a string writes no number.
#[derive(Debug, Clone, Copy, PartialEq, Eq, Structural)]
pub enum NumberError {
    Empty,
    InvalidDigit,
    TooLarge,
}

impl NumberError {
    /// The error in words.
    pub open spec fn text(self) -> Seq<char> {
        match self {
            NumberError::Empty => "cannot parse integer from empty string"@,
            NumberError::InvalidDigit => "invalid digit found in string"@,
            NumberError::TooLarge => "number too large to fit in target type"@,
        }
    }

    pub fn message(self) -> (out: &'static str)
        ensures
            out@ == self.text(),
    {
        match self {
            NumberError::Empty => "cannot parse integer from empty string",
            NumberError::InvalidDigit => "invalid digit found in string",
            NumberError::TooLarge => "number too large to fit in target type",
        }
    }
}

/// The number that a run of decimal digits stands for, read from the front up to
/// the first character that is no digit or that takes the number over `max`.
pub open spec fn digits_value(s: Seq<char>, max: nat) -> Result<nat, NumberError>
    decreases s.len(),
{
    if s.len() == 0 {
        Ok(0)
    } else {
        match digits_value(s.drop_last(), max) {
            Ok(front) => if !is_digit(s.last()) {
                Err(NumberError::InvalidDigit)
            } else if front * 10 + (s.last() as nat - '0' as nat) > max {
                Err(NumberError::TooLarge)
            } else {
                Ok((front * 10 + (s.last() as nat - '0' as nat)) as nat)
            },
            Err(error) => Err(error),
        }
    }
}

/// The number up to `max` that `s` writes in decimal, after an optional plus sign.
pub open spec fn parsed_number(s: Seq<char>, max: nat) -> Result<nat, NumberError> {
    if s.len() == 0 {
        Err(NumberError::Empty)
    } else if s.len() > 1 && s[0] == '+' {
        digits_value(s.subrange(1, s.len() as int), max)
    } else {
        digits_value(s, max)
    }
}

/// `a` comes before `b` where byte strings are ordered byte by byte.
pub open spec fn bytes_before(a: Seq<u8>, b: Seq<u8>) -> bool
    decreases a.len(),
{
    if b.len() == 0 {
        false
    } else if a.len() == 0 {
        true
    } else if a[0] == b[0] {
        bytes_before(a.subrange(1, a.len() as int), b.subrange(1, b.len() as int))
    } else {
        a[0] < b[0]
    }
}

/// `a` comes before `b` in the order of strings.
pub open spec fn text_before(a: Seq<char>, b: Seq<char>) -> bool {
    bytes_before(encode_utf8(a), encode_utf8(b))
}

/// The characters of `s`.
pub fn chars_of(s: &str) -> (out: Vec<char>)
    ensures
        out@ == s@,
{
    let mut out: Vec<char> = Vec::new();
    for c in it: s.chars()
        invariant
            out@.len() == it.index(),
            it.seq() == s@,
            forall|i: int| 0 <= i < out@.len() ==> out@[i] == s@[i],
    {
        out.push(c);
    }
    assert(out@ =~= s@);
    out
}

/// Whether two strings are the same.
pub fn same_text(a: &str, b: &str) -> (same: bool)
    ensures
        same == (a@ == b@),
{
    let x = a.as_bytes();
    let y = b.as_bytes();
    let same = same_bytes(x, y);
    proof {
        encode_utf8_decode_utf8(a@);
        encode_utf8_decode_utf8(b@);
    }
    same
}

/// Whether two byte strings are the same.
pub fn same_bytes(x: &[u8], y: &[u8]) -> (same: bool)
    ensures
        same == (x@ == y@),
{
    if x.len() != y.len() {
        return false;
    }
    let mut i: usize = 0;
    while i < x.len()
        invariant
            i <= x@.len(),
            x@.len() == y@.len(),
            forall|k: int| 0 <= k < i ==> x@[k] == y@[k],
        decreases x@.len() - i,
    {
        if x[i] != y[i] {
            return false;
        }
        i = i + 1;
    }
    assert(x@ =~= y@);
    true
}

/// Whether `needle` occurs in `hay`.
pub fn contains_chars(hay: &Vec<char>, needle: &Vec<char>) -> (found: bool)
    ensures
        found == occurs_in(needle@, hay@),
{
    let n: usize = hay.len();
    let m: usize = needle.len();
    let mut i: usize = 0;
    while i <= n && m <= n - i
        invariant
            n == hay@.len(),
            m == needle@.len(),
            i <= n,
            forall|k: int| 0 <= k < i ==> !occurs_at(needle@, hay@, k),
        decreases n - i,
    {
        let mut j: usize = 0;
        while j < m && hay[i + j] == needle[j]
            invariant
                n == hay@.len(),
                m == needle@.len(),
                i + m <= n,
                j <= m,
                forall|k: int| 0 <= k < j ==> hay@[i + k] == needle@[k],
            decreases m - j,
        {
            j = j + 1;
        }
        if j == m {
            assert(hay@.subrange(i as int, i + needle@.len()) =~= needle@);
            assert(occurs_at(needle@, hay@, i as int));
            return true;
        }
        assert(hay@.subrange(i as int, i + needle@.len())[j as int] != needle@[j as int]);
        i = i + 1;
    }
    assert forall|k: int| !occurs_at(needle@, hay@, k) by {}
    false
}

/// `s` with its ASCII capitals made small, as characters.
pub fn lower_chars(s: &str) -> (out: Vec<char>)
    ensures
        out@ == lower_text(s@),
{
    let chars = chars_of(s);
    let mut out: Vec<char> = Vec::new();
    let mut i: usize = 0;
    while i < chars.len()
        invariant
            i <= chars@.len(),
            out@.len() == i,
            forall|k: int| 0 <= k < i ==> out@[k] == lower_char(chars@[k]),
        decreases chars@.len() - i,
    {
        let c = chars[i];
        if 'A' <= c && c <= 'Z' {
            out.push(((c as u8) + 32) as char);
        } else {
            out.push(c);
        }
        i = i + 1;
    }
    assert(out@ =~= lower_text(s@));
    out
}

/// Whether `c` is white space.
fn is_white_space(c: char) -> (white: bool)
    ensures
        white == white_space(c),
{
    ('\u{9}' <= c && c <= '\u{d}') || c == ' ' || c == '\u{85}' || c == '\u{a0}' || c == '\u{1680}'
        || ('\u{2000}' <= c && c <= '\u{200a}') || c == '\u{2028}' || c == '\u{2029}'
        || c == '\u{202f}' || c == '\u{205f}' || c == '\u{3000}'
}

/// `s` without the white space at either end.
pub fn trim(s: &str) -> (out: &str)
    ensures
        out@ == trimmed(s@),
{
    let chars = chars_of(s);
    let n: usize = chars.len();
    let mut from: usize = 0;
    assert(s@.subrange(0, n as int) =~= s@);
    while from < n && is_white_space(chars[from])
        invariant
            chars@ == s@,
            n == chars@.len(),
            from <= n,
            trim_front(s@) == trim_front(s@.subrange(from as int, n as int)),
        decreases n - from,
    {
        let ghost rest = s@.subrange(from as int, n as int);
        assert(rest.subrange(1, rest.len() as int) =~= s@.subrange(from + 1, n as int));
        from = from + 1;
    }
    let ghost front = s@.subrange(from as int, n as int);
    assert(trim_front(s@) == front);
    let mut to: usize = n;
    while from < to && is_white_space(chars[to - 1])
        invariant
            chars@ == s@,
            n == chars@.len(),
            from <= to <= n,
            trim_back(front) == trim_back(s@.subrange(from as int, to as int)),
        decreases to - from,
    {
        let ghost rest = s@.subrange(from as int, to as int);
        assert(rest.subrange(0, rest.len() - 1) =~= s@.subrange(from as int, to - 1));
        assert(rest.last() == s@[to - 1]);
        to = to - 1;
    }
    proof {
        let rest = s@.subrange(from as int, to as int);
        if rest.len() > 0 {
            assert(rest.last() == s@[to - 1]);
        }
    }
    s.substring_char(from, to)
}

/// Whether `s` starts with `prefix`.
fn starts_with(s: &Vec<char>, from: usize, prefix: &Vec<char>) -> (starts: bool)
    requires
        from <= s@.len(),
    ensures
        starts == prefix@.is_prefix_of(s@.subrange(from as int, s@.len() as int)),
{
    let n: usize = s.len();
    let m: usize = prefix.len();
    let ghost rest = s@.subrange(from as int, s@.len() as int);
    if m > n - from {
        return false;
    }
    let mut j: usize = 0;
    while j < m
        invariant
            n == s@.len(),
            m == prefix@.len(),
            from + m <= n,
            rest == s@.subrange(from as int, s@.len() as int),
            j <= m,
            forall|k: int| 0 <= k < j ==> rest[k] == prefix@[k],
        decreases m - j,
    {
        if s[from + j] != prefix[j] {
            assert(rest[j as int] != prefix@[j as int]);
            assert(rest.subrange(0, m as int)[j as int] == rest[j as int]);
            return false;
        }
        j = j + 1;
    }
    assert(prefix@ =~= rest.subrange(0, m as int));
    true
}

/// `s` without `prefix`, where it starts with it.
pub fn strip_prefix<'a>(s: &'a str, prefix: &str) -> (out: &'a str)
    ensures
        out@ == without_prefix(s@, prefix@),
{
    let chars = chars_of(s);
    let front = chars_of(prefix);
    assert(s@.subrange(0, s@.len() as int) =~= s@);
    if starts_with(&chars, 0, &front) {
        s.substring_char(front.len(), chars.len())
    } else {
        s
    }
}

/// `s` without the copies of `prefix` that it starts with.
pub fn trim_prefixes<'a>(s: &'a str, prefix: &str) -> (out: &'a str)
    ensures
        out@ == without_prefixes(s@, prefix@),
{
    let chars = chars_of(s);
    let front = chars_of(prefix);
    let n: usize = chars.len();
    let m: usize = front.len();
    let mut from: usize = 0;
    assert(s@.subrange(0, n as int) =~= s@);
    while m > 0 && starts_with(&chars, from, &front)
        invariant
            chars@ == s@,
            front@ == prefix@,
            n == chars@.len(),
            m == front@.len(),
            from <= n,
            without_prefixes(s@, prefix@) == without_prefixes(
                s@.subrange(from as int, n as int),
                prefix@,
            ),
        decreases n - from,
    {
        let ghost rest = s@.subrange(from as int, n as int);
        assert(rest.subrange(m as int, rest.len() as int) =~= s@.subrange(from + m, n as int));
        from = from + m;
    }
    s.substring_char(from, n)
}

/// The decimal digit `d` as text.
fn digit_text(d: u64) -> (out: &'static str)
    requires
        d < 10,
    ensures
        out@ == seq![digit_char(d as int)],
{
    proof {
        reveal_strlit("0");
        reveal_strlit("1");
        reveal_strlit("2");
        reveal_strlit("3");
        reveal_strlit("4");
        reveal_strlit("5");
        reveal_strlit("6");
        reveal_strlit("7");
        reveal_strlit("8");
        reveal_strlit("9");
    }
    let out = if d == 0 {
        "0"
    } else if d == 1 {
        "1"
    } else if d == 2 {
        "2"
    } else if d == 3 {
        "3"
    } else if d == 4 {
        "4"
    } else if d == 5 {
        "5"
    } else if d == 6 {
        "6"
    } else if d == 7 {
        "7"
    } else if d == 8 {
        "8"
    } else {
        "9"
    };
    assert(out@ =~= seq![digit_char(d as int)]);
    out
}

/// `n` in decimal.
pub fn decimal_text(n: u64) -> (out: String)
    ensures
        out@ == decimal(n as nat),
    decreases n,
{
    if n < 10 {
        digit_text(n).to_owned()
    } else {
        let mut out = decimal_text(n / 10);
        out.append(digit_text(n % 10));
        assert(out@ =~= decimal(n as nat));
        out
    }
}

/// `n` in decimal, with a minus sign where it is negative.
pub open spec fn signed_decimal(n: int) -> Seq<char> {
    if n < 0 {
        "-"@ + decimal((-n) as nat)
    } else {
        decimal(n as nat)
    }
}

/// `n` in decimal.
pub fn signed_text(n: i64) -> (out: String)
    ensures
        out@ == signed_decimal(n as int),
{
    if n < 0 {
        let mut out = "-".to_owned();
        out.append(decimal_text((-(n + 1)) as u64 + 1).as_str());
        out
    } else {
        decimal_text(n as u64)
    }
}

/// A run of digits fails as its first failing front does.
proof fn lemma_digits_fail(s: Seq<char>, max: nat, i: int)
    requires
        0 <= i <= s.len(),
        digits_value(s.subrange(0, i), max) is Err,
    ensures
        digits_value(s, max) == digits_value(s.subrange(0, i), max),
    decreases s.len(),
{
    if i == s.len() {
        assert(s.subrange(0, i) =~= s);
    } else {
        assert(s.drop_last().subrange(0, i) =~= s.subrange(0, i));
        lemma_digits_fail(s.drop_last(), max, i);
    }
}

/// The number up to `max` that `s` writes in decimal.
pub fn parse_number(s: &str, max: u64) -> (out: Result<u64, NumberError>)
    ensures
        match out {
            Ok(n) => parsed_number(s@, max as nat) == Ok::<nat, NumberError>(n as nat),
            Err(error) => parsed_number(s@, max as nat) == Err::<nat, NumberError>(error),
        },
{
    let chars = chars_of(s);
    let n: usize = chars.len();
    if n == 0 {
        return Err(NumberError::Empty);
    }
    let from: usize = if n > 1 && chars[0] == '+' {
        1
    } else {
        0
    };
    let ghost digits = s@.subrange(from as int, n as int);
    assert(from == 0 ==> digits =~= s@);
    let mut i: usize = from;
    let mut value: u64 = 0;
    while i < n
        invariant
            chars@ == s@,
            n == chars@.len(),
            from <= i <= n,
            digits == s@.subrange(from as int, n as int),
            digits_value(digits, max as nat) == parsed_number(s@, max as nat),
            digits_value(digits.subrange(0, i - from), max as nat) == Ok::<nat, NumberError>(
                value as nat,
            ),
        decreases n - i,
    {
        let c = chars[i];
        let ghost next = digits.subrange(0, i + 1 - from);
        assert(next.drop_last() =~= digits.subrange(0, i - from));
        assert(next.last() == c);
        if !('0' <= c && c <= '9') {
            proof {
                lemma_digits_fail(digits, max as nat, i + 1 - from);
            }
            return Err(NumberError::InvalidDigit);
        }
        let d: u64 = (c as u64) - ('0' as u64);
        let sum = match value.checked_mul(10) {
            Some(v) => v.checked_add(d),
            None => None,
        };
        match sum {
            Some(v) if v <= max => {
                value = v;
            },
            _ => {
                proof {
                    lemma_digits_fail(digits, max as nat, i + 1 - from);
                }
                return Err(NumberError::TooLarge);
            },
        }
        i = i + 1;
    }
    assert(digits.subrange(0, n - from) =~= digits);
    Ok(value)
}

/// A number in decimal is made of digits.
pub proof fn decimal_is_digits(n: nat)
    ensures
        all_digits(decimal(n)),
    decreases n,
{
    if n >= 10 {
        decimal_is_digits(n / 10);
    }
}

/// Two numbers that are written alike in decimal are the same.
pub proof fn decimal_is_injective(n: nat, m: nat)
    requires
        decimal(n) == decimal(m),
    ensures
        n == m,
{
    let max = if n < m {
        m
    } else {
        n
    };
    decimal_reads_back(n, max);
    decimal_reads_back(m, max);
}

/// The digits of a number that is not over `max` stand for it.
proof fn lemma_decimal_value(n: nat, max: nat)
    requires
        n <= max,
    ensures
        digits_value(decimal(n), max) == Ok::<nat, NumberError>(n),
        decimal(n).len() > 0,
        is_digit(decimal(n)[0]),
    decreases n,
{
    reveal_with_fuel(digits_value, 2);
    if n >= 10 {
        lemma_decimal_value(n / 10, max);
        assert(decimal(n).drop_last() =~= decimal(n / 10));
    } else {
        assert(decimal(n).drop_last() =~= Seq::<char>::empty());
    }
}

/// A number written in decimal is read back as that number.
pub proof fn decimal_reads_back(n: nat, max: nat)
    requires
        n <= max,
    ensures
        parsed_number(decimal(n), max) == Ok::<nat, NumberError>(n),
{
    lemma_decimal_value(n, max);
}

/// Whether `a` comes before `b` in the order of strings.
pub fn is_text_before(a: &str, b: &str) -> (before: bool)
    ensures
        before == text_before(a@, b@),
{
    let x = a.as_bytes();
    let y = b.as_bytes();
    let n: usize = x.len();
    let m: usize = y.len();
    let mut i: usize = 0;
    assert(x@.subrange(0, n as int) =~= x@);
    assert(y@.subrange(0, m as int) =~= y@);
    while i < n && i < m && x[i] == y[i]
        invariant
            n == x@.len(),
            m == y@.len(),
            i <= n,
            i <= m,
            bytes_before(x@, y@) == bytes_before(
                x@.subrange(i as int, n as int),
                y@.subrange(i as int, m as int),
            ),
        decreases n - i,
    {
        let ghost u = x@.subrange(i as int, n as int);
        let ghost v = y@.subrange(i as int, m as int);
        assert(u.subrange(1, u.len() as int) =~= x@.subrange(i + 1, n as int));
        assert(v.subrange(1, v.len() as int) =~= y@.subrange(i + 1, m as int));
        i = i + 1;
    }
    if i == m {
        false
    } else if i == n {
        true
    } else {
        x[i] < y[i]
    }
}

} // verus!
