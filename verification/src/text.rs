//! Text: searching, trimming, decimal and hexadecimal numerals.

use vstd::prelude::*;
use crate::bytes::Digest;

verus! {

/// `needle` stands in `hay` at position `at`.
pub open spec fn occurs_at(hay: Seq<char>, needle: Seq<char>, at: int) -> bool {
    &&& 0 <= at
    &&& at + needle.len() <= hay.len()
    &&& hay.subrange(at, at + needle.len()) == needle
}

/// `needle` stands somewhere in `hay`.
pub open spec fn text_contains(hay: Seq<char>, needle: Seq<char>) -> bool {
    exists|at: int| occurs_at(hay, needle, at)
}

/// The first position at which `needle` stands in `hay`.
pub open spec fn first_occurrence(hay: Seq<char>, needle: Seq<char>, at: int) -> bool {
    &&& occurs_at(hay, needle, at)
    &&& forall|earlier: int| earlier < at ==> !occurs_at(hay, needle, earlier)
}

/// The characters of a text.
pub fn chars_of(text: &str) -> (chars: Vec<char>)
    ensures
        chars@ == text@,
{
    let mut chars: Vec<char> = Vec::new();
    let len: usize = text.unicode_len();
    let mut i: usize = 0;
    while i < len
        invariant
            i <= len,
            len == text@.len(),
            chars@ == text@.take(i as int),
        decreases len - i,
    {
        chars.push(text.get_char(i));
        i = i + 1;
        assert(chars@ =~= text@.take(i as int));
    }
    assert(text@.take(i as int) =~= text@);
    chars
}

fn matches_at(hay: &Vec<char>, needle: &Vec<char>, at: usize) -> (found: bool)
    requires
        at + needle@.len() <= hay@.len(),
    ensures
        found == occurs_at(hay@, needle@, at as int),
{
    let mut i: usize = 0;
    let total: usize = hay.len();
    while i < needle.len()
        invariant
            i <= needle@.len(),
            at + needle@.len() <= hay@.len(),
            total == hay@.len(),
            forall|j: int| 0 <= j < i ==> hay@[at + j] == needle@[j],
        decreases needle@.len() - i,
    {
        if hay[at + i] != needle[i] {
            assert(hay@.subrange(at as int, at + needle@.len())[i as int] != needle@[i as int]);
            return false;
        }
        i = i + 1;
    }
    assert(hay@.subrange(at as int, at + needle@.len()) =~= needle@);
    true
}

/// Where `needle` stands first in `hay`.
pub fn find_text(hay: &str, needle: &str) -> (found: Option<usize>)
    ensures
        match found {
            Some(at) => first_occurrence(hay@, needle@, at as int),
            None => !text_contains(hay@, needle@),
        },
{
    let hay_chars = chars_of(hay);
    let needle_chars = chars_of(needle);
    if needle_chars.len() > hay_chars.len() {
        return None;
    }
    let last: usize = hay_chars.len() - needle_chars.len();
    let mut at: usize = 0;
    while at <= last
        invariant
            at <= last + 1,
            last + needle@.len() == hay@.len(),
            hay_chars@ == hay@,
            needle_chars@ == needle@,
            hay@.len() <= usize::MAX,
            forall|earlier: int| earlier < at ==> !occurs_at(hay@, needle@, earlier),
        decreases last + 1 - at,
    {
        if matches_at(&hay_chars, &needle_chars, at) {
            return Some(at);
        }
        if at == last {
            return None;
        }
        at = at + 1;
    }
    None
}

/// Whether `needle` stands somewhere in `hay`.
pub fn contains(hay: &str, needle: &str) -> (found: bool)
    ensures
        found == text_contains(hay@, needle@),
{
    find_text(hay, needle).is_some()
}

/// The decimal digit of a number below ten.
pub open spec fn digit(value: nat) -> char {
    (48 + value) as char
}

/// A number in decimal notation, without leading zeros.
pub open spec fn decimal(value: nat) -> Seq<char>
    decreases value,
{
    if value < 10 {
        seq![digit(value)]
    } else {
        decimal(value / 10).push(digit(value % 10))
    }
}

fn digit_text(value: u64) -> (text: &'static str)
    requires
        value < 10,
    ensures
        text@ == seq![digit(value as nat)],
{
    proof {
        reveal_strlit("0");
        reveal_strlit("1");
        reveal_strlit("2");
        reveal_strlit("3");
        reveal_strlit("4");
        reveal_strlit("5");
        reveal_strlit("6");
        reveal_strlit("7");
        reveal_strlit("8");
        reveal_strlit("9");
    }
    let text: &'static str = match value {
        0 => "0",
        1 => "1",
        2 => "2",
        3 => "3",
        4 => "4",
        5 => "5",
        6 => "6",
        7 => "7",
        8 => "8",
        _ => "9",
    };
    assert(text@ =~= seq![digit(value as nat)]);
    text
}

/// A number in decimal notation.
pub fn decimal_text(value: u64) -> (text: String)
    ensures
        text@ == decimal(value as nat),
    decreases value,
{
    if value < 10 {
        String::from_str(digit_text(value))
    } else {
        let mut text = decimal_text(value / 10);
        text.append(digit_text(value % 10));
        assert(text@ =~= decimal((value / 10) as nat).push(digit((value % 10) as nat)));
        text
    }
}

pub open spec fn is_digit(c: char) -> bool {
    '0' <= c && c <= '9'
}

/// All characters are decimal digits.
pub open spec fn all_digits(text: Seq<char>) -> bool {
    forall|i: int| 0 <= i < text.len() ==> is_digit(#[trigger] text[i])
}

/// The number that a run of digits stands for.
pub open spec fn digits_value(text: Seq<char>) -> nat
    decreases text.len(),
{
    if text.len() == 0 {
        0
    } else {
        digits_value(text.drop_last()) * 10 + (text.last() as nat - 48) as nat
    }
}

/// The digits at the start of a text.
pub open spec fn leading_digits(text: Seq<char>) -> Seq<char>
    decreases text.len(),
{
    if text.len() == 0 || !is_digit(text[0]) {
        Seq::empty()
    } else {
        seq![text[0]] + leading_digits(text.skip(1))
    }
}

/// Reading the decimal notation of a number gives the number back.
pub proof fn lemma_decimal_reads_back(value: nat)
    ensures
        all_digits(decimal(value)),
        decimal(value).len() > 0,
        digits_value(decimal(value)) == value,
    decreases value,
{
    if value < 10 {
        let text = seq![digit(value)];
        assert(text.drop_last() =~= Seq::<char>::empty());
        assert(digits_value(text.drop_last()) == 0);
    } else {
        let rest = decimal(value / 10);
        lemma_decimal_reads_back(value / 10);
        let text = rest.push(digit(value % 10));
        assert(text.drop_last() =~= rest);
        assert forall|i: int| 0 <= i < text.len() implies is_digit(#[trigger] text[i]) by {
            if i < rest.len() {
                assert(text[i] == rest[i]);
            }
        }
    }
}

/// Two numbers with the same decimal notation are the same.
pub proof fn lemma_decimal_injective(a: nat, b: nat)
    requires
        decimal(a) == decimal(b),
    ensures
        a == b,
{
    lemma_decimal_reads_back(a);
    lemma_decimal_reads_back(b);
}

/// The digits at the start of a text stop at the first other character.
pub proof fn lemma_leading_digits(digits: Seq<char>, rest: Seq<char>)
    requires
        all_digits(digits),
        rest.len() == 0 || !is_digit(rest[0]),
    ensures
        leading_digits(digits + rest) == digits,
    decreases digits.len(),
{
    let text = digits + rest;
    if digits.len() == 0 {
        assert(text =~= rest);
    } else {
        assert(text.skip(1) =~= digits.skip(1) + rest);
        assert forall|i: int| 0 <= i < digits.skip(1).len() implies is_digit(#[trigger] digits.skip(1)[i]) by {
            assert(digits.skip(1)[i] == digits[i + 1]);
        }
        assert(text[0] == digits[0]);
        lemma_leading_digits(digits.skip(1), rest);
        assert(seq![digits[0]] + digits.skip(1) =~= digits);
    }
}

/// More digits never stand for less.
pub proof fn lemma_digits_grow(text: Seq<char>, n: int)
    requires
        0 <= n <= text.len(),
    ensures
        digits_value(text.take(n)) <= digits_value(text),
    decreases text.len(),
{
    if n == text.len() {
        assert(text.take(n) =~= text);
    } else {
        assert(text.take(n) =~= text.drop_last().take(n));
        lemma_digits_grow(text.drop_last(), n);
    }
}

/// The number that the digits from `start` on stand for, as far as it fits.
///
/// There is none without a digit, or with a number above the largest `u64`.
pub fn number_at(chars: &Vec<char>, start: usize) -> (value: Option<u64>)
    requires
        start <= chars@.len(),
    ensures
        ({
            let digits = leading_digits(chars@.skip(start as int));
            value == (if digits.len() == 0 || digits_value(digits) > u64::MAX {
                None
            } else {
                Some(digits_value(digits) as u64)
            })
        }),
{
    let ghost digits = leading_digits(chars@.skip(start as int));
    let mut i: usize = start;
    let mut value: u64 = 0;
    proof {
        lemma_leading_run(chars@.skip(start as int));
    }
    while i < chars.len() && is_ascii_digit(chars[i])
        invariant
            start <= i <= chars@.len(),
            digits == leading_digits(chars@.skip(start as int)),
            i - start <= digits.len(),
            forall|j: int| 0 <= j < digits.len() ==> #[trigger] digits[j] == chars@[start + j] && is_digit(digits[j]),
            digits.len() <= chars@.len() - start,
            start + digits.len() < chars@.len() ==> !is_digit(chars@[start + digits.len()]),
            value == digits_value(digits.take(i - start)),
        decreases chars@.len() - i,
    {
        let c: char = chars[i];
        let step: u64 = (c as u32 - 48) as u64;
        let ghost done = digits.take(i - start);
        let ghost next = digits.take(i - start + 1);
        assert(next.drop_last() =~= done);
        assert(digits[i - start] == c);
        assert(next.last() == c);
        assert(digits_value(next) == digits_value(done) * 10 + step);
        proof {
            lemma_digits_grow(digits, i - start + 1);
        }
        let tenfold: Option<u64> = value.checked_mul(10);
        match tenfold {
            None => {
                return None;
            },
            Some(product) => match product.checked_add(step) {
                None => {
                    return None;
                },
                Some(sum) => {
                    value = sum;
                },
            },
        }
        i = i + 1;
    }
    proof {
        if i - start < digits.len() {
            assert(digits[i - start] == chars@[i as int]);
        }
    }
    assert(digits.take(i - start) =~= digits);
    if i == start {
        None
    } else {
        Some(value)
    }
}

/// The leading digits are a prefix of the text, all digits, and no digit follows.
proof fn lemma_leading_run(text: Seq<char>)
    ensures
        leading_digits(text).len() <= text.len(),
        forall|j: int|
            0 <= j < leading_digits(text).len() ==> #[trigger] leading_digits(text)[j] == text[j] && is_digit(
                leading_digits(text)[j],
            ),
        leading_digits(text).len() < text.len() ==> !is_digit(text[leading_digits(text).len() as int]),
    decreases text.len(),
{
    if text.len() > 0 && is_digit(text[0]) {
        let rest = text.skip(1);
        lemma_leading_run(rest);
        let run = leading_digits(text);
        let inner = leading_digits(rest);
        assert(run =~= seq![text[0]] + inner);
        assert forall|j: int| 0 <= j < run.len() implies #[trigger] run[j] == text[j] && is_digit(run[j]) by {
            if j > 0 {
                assert(run[j] == inner[j - 1]);
                assert(rest[j - 1] == text[j]);
            }
        }
        if run.len() < text.len() {
            assert(rest[inner.len() as int] == text[run.len() as int]);
        }
    }
}

fn is_ascii_digit(c: char) -> (yes: bool)
    ensures
        yes == is_digit(c),
{
    '0' <= c && c <= '9'
}

/// A Unicode white space character.
pub open spec fn is_white_space(c: char) -> bool {
    ||| '\u{9}' <= c <= '\u{d}'
    ||| c == ' '
    ||| c == '\u{85}'
    ||| c == '\u{a0}'
    ||| c == '\u{1680}'
    ||| '\u{2000}' <= c <= '\u{200a}'
    ||| c == '\u{2028}'
    ||| c == '\u{2029}'
    ||| c == '\u{202f}'
    ||| c == '\u{205f}'
    ||| c == '\u{3000}'
}

fn white_space(c: char) -> (yes: bool)
    ensures
        yes == is_white_space(c),
{
    ('\u{9}' <= c && c <= '\u{d}') || c == ' ' || c == '\u{85}' || c == '\u{a0}' || c == '\u{1680}' || ('\u{2000}'
        <= c && c <= '\u{200a}') || c == '\u{2028}' || c == '\u{2029}' || c == '\u{202f}' || c == '\u{205f}' || c
        == '\u{3000}'
}

/// A text without the white space at its start.
pub open spec fn without_leading(text: Seq<char>) -> Seq<char>
    decreases text.len(),
{
    if text.len() > 0 && is_white_space(text[0]) {
        without_leading(text.skip(1))
    } else {
        text
    }
}

/// A text without the white space at its end.
pub open spec fn without_trailing(text: Seq<char>) -> Seq<char>
    decreases text.len(),
{
    if text.len() > 0 && is_white_space(text.last()) {
        without_trailing(text.drop_last())
    } else {
        text
    }
}

/// A text without the white space around it.
pub open spec fn trimmed(text: Seq<char>) -> Seq<char> {
    without_trailing(without_leading(text))
}

/// A text without the white space around it.
pub fn trim(text: &str) -> (inner: String)
    ensures
        inner@ == trimmed(text@),
{
    let chars = chars_of(text);
    let mut start: usize = 0;
    assert(chars@.skip(0) =~= chars@);
    while start < chars.len() && white_space(chars[start])
        invariant
            start <= chars@.len(),
            chars@ == text@,
            without_leading(chars@.skip(start as int)) == without_leading(text@),
        decreases chars@.len() - start,
    {
        assert(chars@.skip(start as int).skip(1) =~= chars@.skip(start + 1));
        start = start + 1;
    }
    let mut end: usize = chars.len();
    assert(chars@.subrange(start as int, end as int) =~= chars@.skip(start as int));
    while end > start && white_space(chars[end - 1])
        invariant
            start <= end <= chars@.len(),
            chars@ == text@,
            without_trailing(chars@.subrange(start as int, end as int)) == trimmed(text@),
        decreases end,
    {
        assert(chars@.subrange(start as int, end as int).drop_last() =~= chars@.subrange(start as int, end - 1));
        end = end - 1;
    }
    String::from_str(text.substring_char(start, end))
}

/// The hexadecimal digit of a number below sixteen, in lower case.
pub open spec fn hex_digit(value: int) -> char {
    if value < 10 {
        (48 + value) as char
    } else {
        (87 + value) as char
    }
}

/// Bytes in lower-case hexadecimal notation, the upper half of each byte first.
pub open spec fn hex_text(bytes: Seq<u8>) -> Seq<char> {
    Seq::new(
        2 * bytes.len(),
        |i: int|
            if i % 2 == 0 {
                hex_digit(bytes[i / 2] as int / 16)
            } else {
                hex_digit(bytes[i / 2] as int % 16)
            },
    )
}

/// Different digests have different hexadecimal notations.
pub proof fn lemma_hex_text_injective(a: Seq<u8>, b: Seq<u8>)
    requires
        hex_text(a) == hex_text(b),
    ensures
        a == b,
{
    assert(hex_text(a).len() == 2 * a.len());
    assert(hex_text(b).len() == 2 * b.len());
    assert forall|i: int| 0 <= i < a.len() implies a[i] == b[i] by {
        assert(hex_text(a)[2 * i] == hex_text(b)[2 * i]);
        assert(hex_text(a)[2 * i + 1] == hex_text(b)[2 * i + 1]);
        assert((2 * i) / 2 == i && (2 * i + 1) / 2 == i);
        assert(hex_text(a)[2 * i] == hex_digit(a[i] as int / 16));
        assert(hex_text(b)[2 * i] == hex_digit(b[i] as int / 16));
        assert(hex_text(a)[2 * i + 1] == hex_digit(a[i] as int % 16));
        assert(hex_text(b)[2 * i + 1] == hex_digit(b[i] as int % 16));
    }
    assert(a =~= b);
}

fn hex_digit_text(value: u8) -> (text: &'static str)
    requires
        value < 16,
    ensures
        text@ == seq![hex_digit(value as int)],
{
    proof {
        reveal_strlit("a");
        reveal_strlit("b");
        reveal_strlit("c");
        reveal_strlit("d");
        reveal_strlit("e");
        reveal_strlit("f");
    }
    if value < 10 {
        return digit_text(value as u64);
    }
    let text: &'static str = match value {
        10 => "a",
        11 => "b",
        12 => "c",
        13 => "d",
        14 => "e",
        _ => "f",
    };
    assert(text@ =~= seq![hex_digit(value as int)]);
    text
}

/// A digest in lower-case hexadecimal notation, for the name of a directory.
pub fn digest_name(digest: &Digest) -> (text: String)
    ensures
        text@ == hex_text(digest@),
{
    let mut text = String::new();
    let mut i: usize = 0;
    assert(text@ =~= hex_text(digest@.take(0)));
    while i < 32
        invariant
            i <= 32,
            text@ == hex_text(digest@.take(i as int)),
        decreases 32 - i,
    {
        let byte: u8 = digest[i];
        text.append(hex_digit_text(byte / 16));
        text.append(hex_digit_text(byte % 16));
        assert(text@ =~= hex_text(digest@.take(i + 1))) by {
            let head = digest@.take(i as int);
            let next = digest@.take(i + 1);
            assert forall|k: int| 0 <= k < 2 * i implies hex_text(next)[k] == hex_text(head)[k] by {
                assert(next[k / 2] == head[k / 2]);
            }
            assert((2 * i) / 2 == i && (2 * i + 1) / 2 == i);
        }
        i = i + 1;
    }
    assert(digest@.take(i as int) =~= digest@);
    text
}

/// `hex::encode`: the bytes in hexadecimal notation, two digits for each byte,
/// the upper half first, with the letters in lower case.
#[verifier::external_body]
fn encode_hex(bytes: &Digest) -> (text: String)
    ensures
        text@ == hex_text(bytes@),
{
    hex::encode(bytes)
}

/// A digest as it is shown to users.
pub fn shown_digest(digest: &Digest) -> (text: String)
    ensures
        text@ == hex_text(digest@),
{
    encode_hex(digest)
}

} // verus!
