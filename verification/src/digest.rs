//! Digests and the number formats that go with them.

use vstd::prelude::*;
use vstd::string::StringSliceAdditionalSpecFns;

verus! {

/// The SHA-256 digest of `data`.
pub uninterp spec fn sha256(data: Seq<u8>) -> Seq<u8>;

/// `sha2::Digest::digest` for `sha2::Sha256`: the digest of `data`, always of
/// 32 bytes, and a function of `data` alone.
#[verifier::external_body]
pub(crate) fn sha256_of(data: &Vec<u8>) -> (r: Vec<u8>)
    ensures
        r@ == sha256(data@),
        r@.len() == 32,
{
    <sha2::Sha256 as sha2::Digest>::digest(data).to_vec()
}

/// The number that the first eight bytes are, most significant byte first.
pub open spec fn leading_number(bytes: Seq<u8>) -> int {
    bytes[0] * 0x100000000000000 + bytes[1] * 0x1000000000000 + bytes[2] * 0x10000000000 + bytes[3] * 0x100000000
        + bytes[4] * 0x1000000 + bytes[5] * 0x10000 + bytes[6] * 0x100 + bytes[7]
}

/// The digest of `data`, cut to its first eight bytes, as a number.
pub open spec fn short_digest(data: Seq<u8>) -> int {
    leading_number(sha256(data))
}

pub fn leading_u64(bytes: &Vec<u8>) -> (r: u64)
    requires
        bytes@.len() >= 8,
    ensures
        r == leading_number(bytes@),
{
    bytes[0] as u64 * 0x100000000000000 + bytes[1] as u64 * 0x1000000000000 + bytes[2] as u64 * 0x10000000000
        + bytes[3] as u64 * 0x100000000 + bytes[4] as u64 * 0x1000000 + bytes[5] as u64 * 0x10000 + bytes[6] as u64
        * 0x100 + bytes[7] as u64
}

pub fn short_digest_of(data: &Vec<u8>) -> (r: u64)
    ensures
        r == short_digest(data@),
{
    leading_u64(&sha256_of(data))
}

/// The eight bytes of `n`, most significant first.
pub open spec fn bytes_of_u64(n: u64) -> Seq<u8> {
    seq![
        (n / 0x100000000000000 % 0x100) as u8,
        (n / 0x1000000000000 % 0x100) as u8,
        (n / 0x10000000000 % 0x100) as u8,
        (n / 0x100000000 % 0x100) as u8,
        (n / 0x1000000 % 0x100) as u8,
        (n / 0x10000 % 0x100) as u8,
        (n / 0x100 % 0x100) as u8,
        (n % 0x100) as u8,
    ]
}

pub fn append_u64(out: &mut Vec<u8>, n: u64)
    ensures
        final(out)@ == old(out)@ + bytes_of_u64(n),
{
    out.push((n / 0x100000000000000 % 0x100) as u8);
    out.push((n / 0x1000000000000 % 0x100) as u8);
    out.push((n / 0x10000000000 % 0x100) as u8);
    out.push((n / 0x100000000 % 0x100) as u8);
    out.push((n / 0x1000000 % 0x100) as u8);
    out.push((n / 0x10000 % 0x100) as u8);
    out.push((n / 0x100 % 0x100) as u8);
    out.push((n % 0x100) as u8);
    assert(out@ == old(out)@ + bytes_of_u64(n));
}

/// The four bytes of `n`, most significant first.
pub open spec fn bytes_of_u32(n: u32) -> Seq<u8> {
    seq![
        (n / 0x1000000 % 0x100) as u8,
        (n / 0x10000 % 0x100) as u8,
        (n / 0x100 % 0x100) as u8,
        (n % 0x100) as u8,
    ]
}

pub fn append_u32(out: &mut Vec<u8>, n: u32)
    ensures
        final(out)@ == old(out)@ + bytes_of_u32(n),
{
    out.push((n / 0x1000000 % 0x100) as u8);
    out.push((n / 0x10000 % 0x100) as u8);
    out.push((n / 0x100 % 0x100) as u8);
    out.push((n % 0x100) as u8);
    assert(out@ == old(out)@ + bytes_of_u32(n));
}

/// The bytes that `s` has in UTF-8.
pub open spec fn utf8(s: Seq<char>) -> Seq<u8> {
    vstd::utf8::encode_utf8(s)
}

pub fn append_text(out: &mut Vec<u8>, s: &str)
    ensures
        final(out)@ == old(out)@ + utf8(s@),
{
    append_bytes(out, s.as_bytes());
}

pub fn append_bytes(out: &mut Vec<u8>, more: &[u8])
    ensures
        final(out)@ == old(out)@ + more@,
{
    let mut i: usize = 0;
    while i < more.len()
        invariant
            i <= more@.len(),
            out@ == old(out)@ + more@.take(i as int),
        decreases more.len() - i,
    {
        out.push(more[i]);
        i = i + 1;
        assert(out@ == old(out)@ + more@.take(i as int));
    }
    assert(more@.take(more@.len() as int) == more@);
}

/// The part of `s` between two positions, counted in bytes, at which characters
/// begin or end.
pub fn byte_range(s: &str, start: usize, end: usize) -> (r: String)
    requires
        start <= end,
        vstd::utf8::is_char_boundary(utf8(s@), start as int),
        vstd::utf8::is_char_boundary(utf8(s@), end as int),
    ensures
        utf8(r@) == utf8(s@).subrange(start as int, end as int),
{
    let ghost bytes = utf8(s@);
    proof {
        vstd::utf8::encode_utf8_valid_utf8(s@);
        vstd::utf8::valid_utf8_split(bytes, end as int);
    }
    let (head, _tail) = s.split_at(end);
    proof {
        let front = head.spec_bytes();
        assert(front =~= bytes.subrange(0, end as int));
        if start < end {
            vstd::utf8::is_char_boundary_iff_not_is_continuation_byte(bytes, start as int);
            vstd::utf8::is_char_boundary_iff_not_is_continuation_byte(front, start as int);
        } else {
            vstd::utf8::is_char_boundary_start_end_of_seq(front);
        }
    }
    let (_before, middle) = head.split_at(start);
    assert(middle.spec_bytes() =~= bytes.subrange(start as int, end as int));
    middle.to_owned()
}

/// How many bytes `s` has.
pub fn byte_length(s: &str) -> (r: usize)
    ensures
        r == utf8(s@).len(),
{
    s.as_bytes().len()
}

pub open spec fn hex_digit(n: int) -> char {
    if n < 10 {
        ('0' as int + n) as char
    } else {
        ('a' as int + n - 10) as char
    }
}

/// `n` in hexadecimal, without leading zeros.
pub open spec fn hex(n: int) -> Seq<char>
    decreases n,
{
    if n < 16 {
        seq![hex_digit(n)]
    } else {
        hex(n / 16).push(hex_digit(n % 16))
    }
}

fn hex_digit_of(n: u64) -> (r: char)
    requires
        n < 16,
    ensures
        r == hex_digit(n as int),
{
    match n {
        0 => '0',
        1 => '1',
        2 => '2',
        3 => '3',
        4 => '4',
        5 => '5',
        6 => '6',
        7 => '7',
        8 => '8',
        9 => '9',
        10 => 'a',
        11 => 'b',
        12 => 'c',
        13 => 'd',
        14 => 'e',
        _ => 'f',
    }
}

pub fn hex_of(n: u64) -> (r: String)
    ensures
        r@ == hex(n as int),
    decreases n,
{
    let mut out = if n < 16 {
        String::new()
    } else {
        hex_of(n / 16)
    };
    out.push(hex_digit_of(n % 16));
    assert(n < 16 ==> out@ == seq![hex_digit(n as int)]);
    out
}

/// The lowest `width` hexadecimal digits of `n`.
pub open spec fn hex_padded(n: int, width: nat) -> Seq<char>
    decreases width,
{
    if width == 0 {
        Seq::empty()
    } else {
        hex_padded(n / 16, (width - 1) as nat).push(hex_digit(n % 16))
    }
}

pub fn hex_padded_of(n: u64, width: usize) -> (r: String)
    ensures
        r@ == hex_padded(n as int, width as nat),
    decreases width,
{
    if width == 0 {
        String::new()
    } else {
        let mut out = hex_padded_of(n / 16, width - 1);
        out.push(hex_digit_of(n % 16));
        out
    }
}

/// The bytes in hexadecimal, two digits for each.
pub open spec fn hex_bytes(bytes: Seq<u8>) -> Seq<char>
    decreases bytes.len(),
{
    if bytes.len() == 0 {
        Seq::empty()
    } else {
        hex_bytes(bytes.drop_last()) + hex_padded(bytes.last() as int, 2)
    }
}

pub fn hex_bytes_of(bytes: &Vec<u8>) -> (r: String)
    ensures
        r@ == hex_bytes(bytes@),
{
    let mut out = String::new();
    let mut i: usize = 0;
    assert(out@ =~= Seq::empty());
    while i < bytes.len()
        invariant
            i <= bytes.len(),
            out@ == hex_bytes(bytes@.take(i as int)),
        decreases bytes.len() - i,
    {
        assert(bytes@.take(i + 1).drop_last() =~= bytes@.take(i as int));
        out = crate::text::cat2(out.as_str(), hex_padded_of(bytes[i] as u64, 2).as_str());
        i = i + 1;
    }
    assert(bytes@.take(i as int) =~= bytes@);
    out
}

/// `n` in decimal.
pub open spec fn decimal(n: int) -> Seq<char>
    decreases n,
{
    if n < 10 {
        seq![hex_digit(n)]
    } else {
        decimal(n / 10).push(hex_digit(n % 10))
    }
}

pub fn decimal_of(n: u64) -> (r: String)
    ensures
        r@ == decimal(n as int),
    decreases n,
{
    let mut out = if n < 10 {
        String::new()
    } else {
        decimal_of(n / 10)
    };
    out.push(hex_digit_of(n % 10));
    assert(n < 10 ==> out@ == seq![hex_digit(n as int)]);
    out
}

/// Whether every character of `s` is a decimal digit.
pub open spec fn all_digits(s: Seq<char>) -> bool {
    forall|i: int| 0 <= i < s.len() ==> '0' <= #[trigger] s[i] <= '9'
}

/// The number that a text of decimal digits is.
pub open spec fn digits_value(s: Seq<char>) -> int
    decreases s.len(),
{
    if s.len() == 0 {
        0
    } else {
        digits_value(s.drop_last()) * 10 + (s.last() as int - '0' as int)
    }
}

/// The text of digits in `s`: `s` itself, or what follows one leading plus sign.
pub open spec fn digits_part(s: Seq<char>) -> Seq<char> {
    if s.len() > 0 && s[0] == '+' {
        s.skip(1)
    } else {
        s
    }
}

/// Why a text is no number.
#[derive(Clone, Copy, Debug, PartialEq, Eq, Structural)]
pub enum NumberFault {
    Empty,
    InvalidDigit,
    TooLarge,
}

/// The number that `digits[i..]` continues `value` to, read from the left up to
/// the first character that is no digit or leads above `max`.
pub open spec fn scan(digits: Seq<char>, i: int, value: int, max: int) -> Result<int, NumberFault>
    decreases digits.len() - i,
{
    if i >= digits.len() {
        Ok(value)
    } else if !('0' <= digits[i] <= '9') {
        Err(NumberFault::InvalidDigit)
    } else {
        let next = value * 10 + (digits[i] as int - '0' as int);
        if next > max {
            Err(NumberFault::TooLarge)
        } else {
            scan(digits, i + 1, next, max)
        }
    }
}

/// The number up to `max` that `s` is in decimal, with or without a leading `+`.
pub open spec fn number_in(s: Seq<char>, max: int) -> Result<int, NumberFault> {
    if s.len() == 0 {
        Err(NumberFault::Empty)
    } else if digits_part(s).len() == 0 {
        Err(NumberFault::InvalidDigit)
    } else {
        scan(digits_part(s), 0, 0, max)
    }
}

/// A text of digits is read as the number that it is.
pub proof fn law_digits_read(digits: Seq<char>, i: int, max: int)
    requires
        all_digits(digits),
        0 <= i <= digits.len(),
        digits_value(digits) <= max,
    ensures
        scan(digits, i, digits_value(digits.take(i)), max) == Ok::<int, NumberFault>(digits_value(digits)),
    decreases digits.len() - i,
{
    if i < digits.len() {
        lemma_digits_grow(digits, i + 1);
        assert(digits.take(i + 1).drop_last() == digits.take(i));
        law_digits_read(digits, i + 1, max);
    } else {
        assert(digits.take(i) == digits);
    }
}

proof fn lemma_digits_grow(s: Seq<char>, n: int)
    requires
        all_digits(s),
        0 <= n <= s.len(),
    ensures
        0 <= digits_value(s.take(n)) <= digits_value(s),
    decreases s.len(),
{
    if n == s.len() {
        assert(s.take(n) == s);
        if s.len() > 0 {
            lemma_digits_grow(s.drop_last(), n - 1);
        }
    } else {
        lemma_digits_grow(s.drop_last(), n);
        assert(s.drop_last().take(n) == s.take(n));
    }
}

/// The number up to `max` that `s` is in decimal.
pub fn parse_number(s: &str, max: u64) -> (r: Result<u64, NumberFault>)
    ensures
        match r {
            Ok(n) => number_in(s@, max as int) == Ok::<int, NumberFault>(n as int) && n <= max,
            Err(e) => number_in(s@, max as int) == Err::<int, NumberFault>(e),
        },
{
    let chars = crate::text::chars_of(s);
    if chars.len() == 0 {
        return Err(NumberFault::Empty);
    }
    let start: usize = if chars[0] == '+' { 1 } else { 0 };
    let ghost digits = digits_part(s@);
    if chars.len() == start {
        return Err(NumberFault::InvalidDigit);
    }
    let mut value: u64 = 0;
    let mut i: usize = start;
    while i < chars.len()
        invariant
            start <= i <= chars@.len(),
            chars@ == s@,
            digits == s@.skip(start as int),
            number_in(s@, max as int) == scan(digits, i - start, value as int, max as int),
            value <= max,
        decreases chars.len() - i,
    {
        let c = chars[i];
        assert(c == digits[i - start]);
        if c < '0' || c > '9' {
            return Err(NumberFault::InvalidDigit);
        }
        let digit: u64 = c as u64 - '0' as u64;
        if value > max / 10 || (value == max / 10 && digit > max % 10) {
            return Err(NumberFault::TooLarge);
        }
        value = value * 10 + digit;
        i = i + 1;
    }
    Ok(value)
}

/// What is said of a text that is no number.
pub open spec fn number_message(e: NumberFault) -> Seq<char> {
    match e {
        NumberFault::Empty => "cannot parse integer from empty string"@,
        NumberFault::InvalidDigit => "invalid digit found in string"@,
        NumberFault::TooLarge => "number too large to fit in target type"@,
    }
}

pub fn describe_number_fault(e: NumberFault) -> (r: &'static str)
    ensures
        r@ == number_message(e),
{
    match e {
        NumberFault::Empty => "cannot parse integer from empty string",
        NumberFault::InvalidDigit => "invalid digit found in string",
        NumberFault::TooLarge => "number too large to fit in target type",
    }
}

proof fn lemma_decimal_digits(n: int)
    requires
        0 <= n,
    ensures
        decimal(n).len() > 0,
        all_digits(decimal(n)),
        digits_value(decimal(n)) == n,
    decreases n,
{
    let s = decimal(n);
    if n >= 10 {
        lemma_decimal_digits(n / 10);
        assert(s.drop_last() == decimal(n / 10));
        assert(s.last() as int - '0' as int == n % 10);
        assert forall|i: int| 0 <= i < s.len() implies '0' <= #[trigger] s[i] <= '9' by {
            if i < s.len() - 1 {
                assert(s[i] == decimal(n / 10)[i]);
            }
        }
    } else {
        assert(digits_value(s.drop_last()) == 0);
        assert(s.last() as int - '0' as int == n);
    }
}

/// Reading back a number that was written in decimal gives the number.
pub proof fn law_decimal_round_trip(n: u32)
    ensures
        number_in(decimal(n as int), u32::MAX as int) == Ok::<int, NumberFault>(n as int),
{
    let s = decimal(n as int);
    lemma_decimal_digits(n as int);
    assert(s[0] != '+');
    assert(digits_value(s.take(0)) == 0);
    law_digits_read(s, 0, u32::MAX as int);
}

} // verus!
