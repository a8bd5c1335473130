//! Byte and text encodings used throughout the wallet: lowercase hexadecimal
//! (through the `hex` crate), UTF-8 validation, and decimal numbers.

use vstd::prelude::*;
use vstd::string::StringSliceAdditionalSpecFns;

verus! {

/// The lowercase hexadecimal digit for a nibble.
pub open spec fn hex_digit(n: int) -> char {
    if n < 10 {
        (n + 48) as char
    } else {
        (n + 87) as char
    }
}

/// Lowercase hexadecimal encoding: two characters per byte, high nibble first.
pub open spec fn hex_encoding(bytes: Seq<u8>) -> Seq<char> {
    Seq::new(
        2 * bytes.len(),
        |i: int|
            if i % 2 == 0 {
                hex_digit(bytes[i / 2] as int / 16)
            } else {
                hex_digit(bytes[i / 2] as int % 16)
            },
    )
}

/// The value of one hexadecimal character (either case), if it is one.
pub open spec fn hex_value(c: u8) -> Option<u8> {
    if 48 <= c <= 57 {
        Some((c - 48) as u8)
    } else if 97 <= c <= 102 {
        Some((c - 87) as u8)
    } else if 65 <= c <= 70 {
        Some((c - 55) as u8)
    } else {
        None
    }
}

/// Whether every byte of `text` is a hexadecimal character.
pub open spec fn all_hex_chars(text: Seq<u8>) -> bool {
    forall|i: int| 0 <= i < text.len() ==> (#[trigger] hex_value(text[i])) is Some
}

/// Hexadecimal decoding of a byte string: defined when it has even length and
/// only hexadecimal characters (of either case).
pub open spec fn hex_decoding(text: Seq<u8>) -> Option<Seq<u8>> {
    if text.len() % 2 == 0 && all_hex_chars(text) {
        Some(
            Seq::new(
                text.len() / 2,
                |i: int|
                    (hex_value(text[2 * i])->0 * 16 + hex_value(text[2 * i + 1])->0) as u8,
            ),
        )
    } else {
        None
    }
}

/// `hex::encode`: lowercase hexadecimal text of `data`, two characters per
/// byte, high nibble first, as the crate's documentation and source state.
#[verifier::external_body]
pub(crate) fn hex_encode(data: &[u8]) -> (text: String)
    ensures
        text@ == hex_encoding(data@),
{
    hex::encode(data)
}

/// `hex::decode`: the bytes that `text` spells in hexadecimal; `None` (the
/// crate's `FromHexError`) exactly when the text has odd length or holds a
/// character outside `0-9`, `a-f`, `A-F`, as the crate's source shows.
#[verifier::external_body]
pub(crate) fn hex_decode(text: &str) -> (bytes: Option<Vec<u8>>)
    ensures
        bytes matches Some(b) ==> hex_decoding(text.spec_bytes()) == Some(b@),
        bytes is None ==> hex_decoding(text.spec_bytes()) is None,
{
    match hex::decode(text) {
        Ok(b) => Some(b),
        Err(_) => None,
    }
}

/// Every character of a hexadecimal encoding is ASCII, and its UTF-8 bytes
/// decode back to the encoded bytes.
pub proof fn lemma_hex_roundtrip(bytes: Seq<u8>)
    ensures
        vstd::utf8::is_ascii_chars(hex_encoding(bytes)),
        hex_decoding(vstd::utf8::encode_utf8(hex_encoding(bytes))) == Some(bytes),
{
    let h = hex_encoding(bytes);
    assert forall|i: int| 0 <= i < h.len() implies '\0' <= #[trigger] h[i] <= '\u{7f}' by {
        assert(0 <= bytes[i / 2] / 16 < 16);
        assert(0 <= bytes[i / 2] % 16 < 16);
    }
    vstd::utf8::is_ascii_chars_encode_utf8(h);
    let e = vstd::utf8::encode_utf8(h);
    assert forall|i: int| 0 <= i < e.len() implies #[trigger] hex_value(e[i]) is Some by {
        assert(h[i] as u8 == e[i]);
        assert(0 <= bytes[i / 2] / 16 < 16);
        assert(0 <= bytes[i / 2] % 16 < 16);
    }
    let d = hex_decoding(e)->0;
    assert forall|i: int| 0 <= i < bytes.len() implies d[i] == bytes[i] by {
        assert(h[2 * i] as u8 == e[2 * i]);
        assert(h[2 * i + 1] as u8 == e[2 * i + 1]);
        assert((2 * i) / 2 == i);
        assert((2 * i + 1) / 2 == i);
        assert((2 * i) % 2 == 0);
        assert((2 * i + 1) % 2 == 1);
        let b = bytes[i];
        assert(b == (b / 16) * 16 + b % 16);
    }
    assert(d =~= bytes);
}

/// `std::str::from_utf8`: the text that `bytes` encode, when they are valid
/// UTF-8; as std documents, the text's bytes are `bytes` themselves.
#[verifier::external_body]
pub(crate) fn str_from_utf8(bytes: &[u8]) -> (text: Option<&str>)
    ensures
        text is Some <==> vstd::utf8::valid_utf8(bytes@),
        text matches Some(t) ==> t.spec_bytes() == bytes@,
{
    std::str::from_utf8(bytes).ok()
}

/// The text a valid UTF-8 byte string encodes.
pub proof fn lemma_str_chars(t: &str, bytes: Seq<u8>)
    requires
        t.spec_bytes() == bytes,
    ensures
        t@ == vstd::utf8::decode_utf8(bytes),
{
    vstd::utf8::encode_utf8_decode_utf8(t@);
}

/// Whether a byte is an ASCII decimal digit.
pub open spec fn is_digit(b: u8) -> bool {
    48 <= b <= 57
}

/// The number that a string of decimal digits spells.
pub open spec fn digits_value(digits: Seq<u8>) -> nat
    decreases digits.len(),
{
    if digits.len() == 0 {
        0
    } else {
        digits_value(digits.drop_last()) * 10 + (digits.last() - 48) as nat
    }
}

/// The unsigned number that a text spells in decimal, as Rust's `from_str`
/// for unsigned integers reads it: an optional `+`, then one or more digits,
/// with a value no larger than `max`.
pub open spec fn decimal_parse(text: Seq<u8>, max: nat) -> Option<nat> {
    let digits = unsigned_digits(text);
    if digits.len() > 0 && all_digits(digits) && digits_value(digits) <= max {
        Some(digits_value(digits))
    } else {
        None
    }
}

/// A text without its leading `+`, if it has one.
pub open spec fn unsigned_digits(text: Seq<u8>) -> Seq<u8> {
    if text.len() > 0 && text[0] == 43 {
        text.drop_first()
    } else {
        text
    }
}

/// Whether every byte is a decimal digit.
pub open spec fn all_digits(digits: Seq<u8>) -> bool {
    forall|i: int| 0 <= i < digits.len() ==> is_digit(#[trigger] digits[i])
}

/// The decimal digits of a number, without leading zeros.
pub open spec fn decimal_text(n: nat) -> Seq<u8>
    decreases n,
{
    if n < 10 {
        seq![(48 + n) as u8]
    } else {
        decimal_text(n / 10).push((48 + n % 10) as u8)
    }
}

proof fn lemma_digits_prefix(digits: Seq<u8>, k: int)
    requires
        0 <= k <= digits.len(),
        forall|i: int| 0 <= i < digits.len() ==> is_digit(#[trigger] digits[i]),
    ensures
        digits_value(digits.take(k)) <= digits_value(digits),
    decreases digits.len() - k,
{
    if k < digits.len() {
        lemma_digits_prefix(digits, k + 1);
        assert(digits.take(k + 1).drop_last() =~= digits.take(k));
        assert(is_digit(digits[k]));
    } else {
        assert(digits.take(k) =~= digits);
    }
}

/// The decimal text of a number is all digits, does not start with `+`, and
/// reads back as the number.
pub proof fn lemma_decimal_roundtrip(n: nat)
    ensures
        decimal_text(n).len() > 0,
        forall|i: int| 0 <= i < decimal_text(n).len() ==> is_digit(#[trigger] decimal_text(n)[i]),
        digits_value(decimal_text(n)) == n,
        forall|max: nat| n <= max ==> #[trigger] decimal_parse(decimal_text(n), max) == Some(n),
    decreases n,
{
    if n >= 10 {
        lemma_decimal_roundtrip(n / 10);
        let t = decimal_text(n);
        assert(t.drop_last() == decimal_text(n / 10));
        assert(t.last() == (48 + n % 10) as u8);
        assert(digits_value(t) == digits_value(decimal_text(n / 10)) * 10 + n % 10);
        assert(n == (n / 10) * 10 + n % 10);
        assert forall|i: int| 0 <= i < t.len() implies is_digit(#[trigger] t[i]) by {
            if i < t.len() - 1 {
                assert(t[i] == decimal_text(n / 10)[i]);
            }
        }
    }
    let t = decimal_text(n);
    if n < 10 {
        assert(t.drop_last() =~= Seq::<u8>::empty());
        assert(digits_value(t.drop_last()) == 0);
        assert(t.last() == (48 + n) as u8);
        assert(digits_value(t) == n);
        assert forall|i: int| 0 <= i < t.len() implies is_digit(#[trigger] t[i]) by {}
    }
    assert(t[0] != 43) by {
        assert(is_digit(t[0]));
    }
    assert forall|max: nat| n <= max implies #[trigger] decimal_parse(decimal_text(n), max) == Some(n) by {
        assert(t[0] != 43);
    }
}

/// Reads an unsigned number in decimal (see `decimal_parse`).
pub fn parse_decimal(text: &[u8], max: u64) -> (n: Option<u64>)
    ensures
        match decimal_parse(text@, max as nat) {
            Some(v) => n == Some(v as u64),
            None => n is None,
        },
{
    let start: usize = if text.len() > 0 && text[0] == 43 { 1 } else { 0 };
    let ghost digits = unsigned_digits(text@);
    assert(digits =~= text@.skip(start as int));
    if start >= text.len() {
        return None;
    }
    let mut value: u64 = 0;
    let mut i: usize = start;
    while i < text.len()
        invariant
            start <= i <= text@.len(),
            digits == text@.skip(start as int),
            digits == unsigned_digits(text@),
            digits.len() > 0,
            forall|j: int| 0 <= j < i - start ==> is_digit(#[trigger] digits[j]),
            value as nat == digits_value(digits.take(i - start)),
            value <= max,
        decreases text@.len() - i,
    {
        let b = text[i];
        assert(b == digits[i - start]);
        if b < 48 || b > 57 {
            assert(!is_digit(digits[i - start]));
            assert(!(forall|j: int| 0 <= j < digits.len() ==> is_digit(#[trigger] digits[j])));
            assert(decimal_parse(text@, max as nat) is None);
            return None;
        }
        let d = (b - 48) as u64;
        proof {
            assert(digits.take(i - start + 1).drop_last() =~= digits.take(i - start));
            assert(digits.take(i - start + 1).last() == b);
        }
        let next: u128 = value as u128 * 10 + d as u128;
        if next > max as u128 {
            proof {
                assert(digits_value(digits.take(i - start + 1)) == next);
                if forall|j: int| 0 <= j < digits.len() ==> is_digit(#[trigger] digits[j]) {
                    lemma_digits_prefix(digits, i - start + 1);
                    assert(digits_value(digits) > max);
                }
                assert(decimal_parse(text@, max as nat) is None);
            }
            return None;
        }
        value = next as u64;
        i = i + 1;
    }
    assert(digits.take(i - start) =~= digits);
    Some(value)
}

/// Writes a number in decimal (see `decimal_text`).
pub fn format_decimal(n: u64) -> (text: Vec<u8>)
    ensures
        text@ == decimal_text(n as nat),
    decreases n,
{
    if n < 10 {
        let mut t: Vec<u8> = Vec::new();
        t.push((48 + n) as u8);
        assert(t@ =~= decimal_text(n as nat));
        t
    } else {
        let mut t = format_decimal(n / 10);
        t.push((48 + n % 10) as u8);
        t
    }
}

/// Whether a byte string starts with a prefix.
pub fn starts_with(text: &[u8], prefix: &[u8]) -> (r: bool)
    ensures
        r == (prefix@.len() <= text@.len() && text@.take(prefix@.len() as int) == prefix@),
{
    if prefix.len() > text.len() {
        return false;
    }
    let mut i: usize = 0;
    while i < prefix.len()
        invariant
            i <= prefix@.len() <= text@.len(),
            forall|j: int| 0 <= j < i ==> text@[j] == prefix@[j],
        decreases prefix@.len() - i,
    {
        if text[i] != prefix[i] {
            assert(text@.take(prefix@.len() as int)[i as int] != prefix@[i as int]);
            return false;
        }
        i = i + 1;
    }
    assert(text@.take(prefix@.len() as int) =~= prefix@);
    true
}

/// Whether `::` starts at a position.
pub open spec fn is_separator_at(text: Seq<u8>, i: int) -> bool {
    0 <= i && i + 1 < text.len() && text[i] == 58 && text[i + 1] == 58
}

/// The position of the first `::`, if there is one.
pub open spec fn separator_index(text: Seq<u8>) -> Option<int>
    decreases text.len(),
{
    if text.len() < 2 {
        None
    } else if text[0] == 58 && text[1] == 58 {
        Some(0)
    } else {
        match separator_index(text.drop_first()) {
            Some(i) => Some(i + 1),
            None => None,
        }
    }
}

/// When no `::` starts before position `i`, the first `::` starts at `i` if
/// one does there, and there is none if none starts at or after `i`.
pub proof fn lemma_separator_index(text: Seq<u8>, i: int)
    requires
        0 <= i <= text.len(),
        forall|j: int| 0 <= j < i ==> !is_separator_at(text, j),
    ensures
        is_separator_at(text, i) ==> separator_index(text) == Some(i),
        (forall|j: int| i <= j < text.len() ==> !is_separator_at(text, j)) ==> separator_index(text) is None,
    decreases i,
{
    if i > 0 {
        assert(!is_separator_at(text, 0));
        let rest = text.drop_first();
        assert forall|j: int| 0 <= j < i - 1 implies !is_separator_at(rest, j) by {
            assert(!is_separator_at(text, j + 1));
        }
        lemma_separator_index(rest, i - 1);
        if forall|j: int| i <= j < text.len() ==> !is_separator_at(text, j) {
            assert forall|j: int| i - 1 <= j < rest.len() implies !is_separator_at(rest, j) by {
                assert(!is_separator_at(text, j + 1));
            }
        }
        if is_separator_at(text, i) {
            assert(is_separator_at(rest, i - 1));
        }
    } else {
        if forall|j: int| i <= j < text.len() ==> !is_separator_at(text, j) {
            lemma_no_separator(text);
        }
    }
}

proof fn lemma_no_separator(text: Seq<u8>)
    requires
        forall|j: int| 0 <= j < text.len() ==> !is_separator_at(text, j),
    ensures
        separator_index(text) is None,
    decreases text.len(),
{
    if text.len() >= 2 {
        assert(!is_separator_at(text, 0));
        let rest = text.drop_first();
        assert forall|j: int| 0 <= j < rest.len() implies !is_separator_at(rest, j) by {
            assert(!is_separator_at(text, j + 1));
        }
        lemma_no_separator(rest);
    }
}

/// The position of the first `::` (see `separator_index`).
pub fn find_separator(text: &[u8]) -> (r: Option<usize>)
    ensures
        r matches Some(i) ==> separator_index(text@) == Some(i as int) && i + 2 <= text@.len(),
        r is None ==> separator_index(text@) is None,
{
    let mut i: usize = 0;
    while text.len() - i >= 2
        invariant
            i <= text@.len(),
            forall|j: int| 0 <= j < i ==> !is_separator_at(text@, j),
        decreases text@.len() - i,
    {
        if text[i] == 58 && text[i + 1] == 58 {
            proof {
                lemma_separator_index(text@, i as int);
            }
            return Some(i);
        }
        i = i + 1;
    }
    proof {
        lemma_separator_index(text@, i as int);
    }
    None
}

} // verus!
