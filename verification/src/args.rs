//! Validation of user-supplied configuration values.
//!
//! The window dimension argument has the form `WIDTHxHEIGHT` with both
//! parts decimal, and palette entries are hexadecimal 32-bit values that
//! may carry surrounding whitespace. Numbers follow the usual integer
//! syntax: an optional leading `+`, then at least one digit, rejected on
//! overflow.

use vstd::prelude::*;
use vstd::string::*;

verus! {

/// Why a configuration value was rejected.
#[derive(Debug, Clone, Copy, PartialEq, Eq, Structural)]
pub enum ArgsError {
    /// The dimension string is not `WIDTHxHEIGHT` with exactly one `x`.
    InvalidFormat,
    /// The width part is not a decimal number that fits.
    InvalidWidth,
    /// The height part is not a decimal number that fits.
    InvalidHeight,
    /// Width below 320 or height below 200.
    TooSmall,
    /// Width above 5120 or height above 3650.
    TooLarge,
    /// A palette entry is not a hexadecimal number that fits 32 bits.
    InvalidHex,
}

/// The numeric value of `c` as a digit: 0-9 for decimal digits, 10-15 for
/// hexadecimal letters of either case, -1 for anything else.
pub open spec fn digit_value(c: char) -> int {
    let u: u32 = c as u32;
    if 48 <= u <= 57 {
        u - 48
    } else if 97 <= u <= 102 {
        u - 87
    } else if 65 <= u <= 70 {
        u - 55
    } else {
        -1
    }
}

/// Whether `c` is a digit of the given radix.
pub open spec fn is_digit_radix(c: char, radix: int) -> bool {
    0 <= digit_value(c) < radix
}

/// Whether every character of `s` is a digit of the given radix.
pub open spec fn all_digits_radix(s: Seq<char>, radix: int) -> bool {
    forall|i: int| 0 <= i < s.len() ==> is_digit_radix(#[trigger] s[i], radix)
}

/// The value of the digit string `s` in the given radix, most significant
/// digit first.
pub open spec fn number_value(s: Seq<char>, radix: int) -> int
    decreases s.len(),
{
    if s.len() == 0 {
        0
    } else {
        number_value(s.drop_last(), radix) * radix + digit_value(s.last())
    }
}

/// `s` without an optional leading `+` sign.
pub open spec fn numeric_body(s: Seq<char>) -> Seq<char> {
    if s.len() > 0 && s[0] == '+' {
        s.drop_first()
    } else {
        s
    }
}

/// The number `s` denotes in the given radix: an optional `+`, then at
/// least one digit, with a value of at most `bound` — or nothing.
pub open spec fn parsed_number(s: Seq<char>, radix: int, bound: int) -> Option<int> {
    let body = numeric_body(s);
    if body.len() > 0 && all_digits_radix(body, radix) && number_value(body, radix) <= bound {
        Some(number_value(body, radix))
    } else {
        None
    }
}

/// An all-digit string has a non-negative value.
proof fn lemma_number_value_nonneg(s: Seq<char>, radix: int)
    requires
        all_digits_radix(s, radix),
        radix >= 2,
    ensures
        number_value(s, radix) >= 0,
    decreases s.len(),
{
    if s.len() > 0 {
        assert(all_digits_radix(s.drop_last(), radix)) by {
            assert(forall|i: int|
                0 <= i < s.len() - 1 ==> s.drop_last()[i] == #[trigger] s[i]);
        }
        lemma_number_value_nonneg(s.drop_last(), radix);
        let v = number_value(s.drop_last(), radix);
        assert(v * radix >= 0) by (nonlinear_arith)
            requires
                v >= 0,
                radix >= 2,
        ;
    }
}

/// Extending an all-digit string never decreases its value.
proof fn lemma_number_value_prefix_le(s: Seq<char>, radix: int, k: int)
    requires
        all_digits_radix(s, radix),
        radix >= 2,
        0 <= k <= s.len(),
    ensures
        number_value(s.take(k), radix) <= number_value(s, radix),
    decreases s.len(),
{
    if k == s.len() {
        assert(s.take(k) =~= s);
    } else {
        assert(all_digits_radix(s.drop_last(), radix)) by {
            assert(forall|i: int|
                0 <= i < s.len() - 1 ==> s.drop_last()[i] == #[trigger] s[i]);
        }
        lemma_number_value_prefix_le(s.drop_last(), radix, k);
        assert(s.take(k) =~= s.drop_last().take(k));
        lemma_number_value_nonneg(s.drop_last(), radix);
        let v = number_value(s.drop_last(), radix);
        assert(v * radix >= v) by (nonlinear_arith)
            requires
                v >= 0,
                radix >= 2,
        ;
        assert(digit_value(s.last()) >= 0);
    }
}

/// The digit value of `c`, as the executable code computes it.
fn char_digit(c: char) -> (d: Option<u8>)
    ensures
        d matches Some(v) ==> digit_value(c) == v,
        d is None <==> digit_value(c) == -1,
{
    let u: u32 = c as u32;
    if 48 <= u && u <= 57 {
        Some((u - 48) as u8)
    } else if 97 <= u && u <= 102 {
        Some((u - 87) as u8)
    } else if 65 <= u && u <= 70 {
        Some((u - 55) as u8)
    } else {
        None
    }
}

/// Parses the characters of `s` from `from` (inclusive) to `to`
/// (exclusive) as a number in the given radix, accumulating in `usize`.
fn parse_number_range(s: &str, from: usize, to: usize, radix: usize) -> (r: Option<usize>)
    requires
        from <= to <= s@.len(),
        radix == 10 || radix == 16,
    ensures
        r matches Some(v) ==> parsed_number(
            s@.subrange(from as int, to as int),
            radix as int,
            usize::MAX as int,
        ) == Some(v as int),
        r is None ==> parsed_number(
            s@.subrange(from as int, to as int),
            radix as int,
            usize::MAX as int,
        ) is None,
{
    let ghost whole = s@.subrange(from as int, to as int);
    let mut start: usize = from;
    if from < to && s.get_char(from) == '+' {
        start = from + 1;
    }
    let ghost body = s@.subrange(start as int, to as int);
    proof {
        assert(numeric_body(whole) =~= body);
    }
    if start == to {
        return None;
    }
    let mut acc: usize = 0;
    let mut i: usize = start;
    while i < to
        invariant
            from <= start <= i <= to <= s@.len(),
            body == s@.subrange(start as int, to as int),
            numeric_body(s@.subrange(from as int, to as int)) == body,
            radix == 10 || radix == 16,
            all_digits_radix(body.take(i - start), radix as int),
            acc == number_value(body.take(i - start), radix as int),
        decreases to - i,
    {
        let c = s.get_char(i);
        proof {
            assert(body[i - start] == s@[i as int]);
        }
        let d: usize = match char_digit(c) {
            Some(v) => v as usize,
            None => {
                proof {
                    assert(!is_digit_radix(body[i - start], radix as int));
                }
                return None;
            },
        };
        if d >= radix {
            proof {
                assert(!is_digit_radix(body[i - start], radix as int));
            }
            return None;
        }
        let limit: usize = (usize::MAX - d) / radix;
        if acc > limit {
            proof {
                assert(limit * radix + (usize::MAX - d) % (radix as int) == usize::MAX - d);
                assert(acc * radix >= limit * radix + radix) by (nonlinear_arith)
                    requires
                        acc >= limit + 1,
                        radix >= 2,
                ;
                assert(acc * radix + d > usize::MAX);
                let t = body.take(i - start + 1);
                assert(t.drop_last() =~= body.take(i - start));
                assert(t.last() == body[i - start]);
                assert(number_value(t, radix as int) == acc * radix + d);
                if all_digits_radix(body, radix as int) {
                    lemma_number_value_prefix_le(body, radix as int, i - start + 1);
                    assert(number_value(body, radix as int) > usize::MAX);
                }
            }
            return None;
        }
        proof {
            assert(limit * radix <= usize::MAX - d) by {
                assert(limit * radix + (usize::MAX - d) % (radix as int) == usize::MAX - d);
            }
            assert(acc * radix <= limit * radix) by (nonlinear_arith)
                requires
                    0 <= acc <= limit,
                    radix >= 2,
            ;
            assert(acc * radix + d <= usize::MAX);
            let t = body.take(i - start + 1);
            assert(t.drop_last() =~= body.take(i - start));
            assert(t.last() == body[i - start]);
        }
        acc = acc * radix + d;
        i = i + 1;
    }
    proof {
        assert(body.take(to - start) =~= body);
    }
    Some(acc)
}

/// How many times `c` occurs in `s`.
pub open spec fn count_char(s: Seq<char>, c: char) -> int
    decreases s.len(),
{
    if s.len() == 0 {
        0
    } else {
        count_char(s.drop_last(), c) + if s.last() == c {
            1int
        } else {
            0int
        }
    }
}

/// The index of the first occurrence of `c` in `s` (or `s.len()` when
/// there is none).
pub open spec fn first_index_of(s: Seq<char>, c: char) -> int
    decreases s.len(),
{
    if s.len() == 0 {
        0
    } else if s[0] == c {
        0
    } else {
        1 + first_index_of(s.drop_first(), c)
    }
}

/// A position holding `c`, before which `c` does not occur, is the first
/// occurrence.
proof fn lemma_first_index_of_found(s: Seq<char>, c: char, p: int)
    requires
        0 <= p < s.len(),
        s[p] == c,
        forall|q: int| 0 <= q < p ==> s[q] != c,
    ensures
        first_index_of(s, c) == p,
    decreases p,
{
    if s[0] != c {
        lemma_first_index_of_found(s.drop_first(), c, p - 1);
    }
}

/// The window dimension `s` denotes: exactly one `x` separating two
/// decimal numbers, the width in 320..=5120 and the height in 200..=3650.
/// Each failure names the first condition violated, in the order format,
/// width, height, lower bounds, upper bounds.
pub open spec fn spec_parse_dimensions(s: Seq<char>) -> Result<(usize, usize), ArgsError> {
    if count_char(s, 'x') != 1 {
        Err(ArgsError::InvalidFormat)
    } else {
        let p = first_index_of(s, 'x');
        match parsed_number(s.take(p), 10, usize::MAX as int) {
            None => Err(ArgsError::InvalidWidth),
            Some(width) => match parsed_number(s.skip(p + 1), 10, usize::MAX as int) {
                None => Err(ArgsError::InvalidHeight),
                Some(height) => if width < 320 || height < 200 {
                    Err(ArgsError::TooSmall)
                } else if width > 5120 || height > 3650 {
                    Err(ArgsError::TooLarge)
                } else {
                    Ok((width as usize, height as usize))
                },
            },
        }
    }
}

/// Parses a `WIDTHxHEIGHT` dimension argument.
pub fn parse_dimensions(s: &str) -> (r: Result<(usize, usize), ArgsError>)
    ensures
        r == spec_parse_dimensions(s@),
{
    let len: usize = s.unicode_len();
    let mut sep: usize = 0;
    let mut found: bool = false;
    let mut count: usize = 0;
    for i in 0..len
        invariant
            len == s@.len(),
            count == count_char(s@.take(i as int), 'x'),
            count <= i,
            found <==> count >= 1,
            found ==> sep < i && s@[sep as int] == 'x' && forall|q: int|
                0 <= q < sep ==> s@[q] != 'x',
            !found ==> forall|q: int| 0 <= q < i ==> s@[q] != 'x',
    {
        let c = s.get_char(i);
        proof {
            assert(s@.take(i + 1).drop_last() =~= s@.take(i as int));
            assert(s@.take(i + 1).last() == s@[i as int]);
        }
        if c == 'x' {
            if !found {
                sep = i;
                found = true;
            }
            count = count + 1;
        }
    }
    proof {
        assert(s@.take(len as int) =~= s@);
    }
    if count != 1 {
        return Err(ArgsError::InvalidFormat);
    }
    proof {
        lemma_first_index_of_found(s@, 'x', sep as int);
        assert(s@.take(sep as int) =~= s@.subrange(0, sep as int));
        assert(s@.skip(sep + 1) =~= s@.subrange(sep + 1, len as int));
    }
    let width = match parse_number_range(s, 0, sep, 10) {
        Some(w) => w,
        None => {
            return Err(ArgsError::InvalidWidth);
        },
    };
    let height = match parse_number_range(s, sep + 1, len, 10) {
        Some(h) => h,
        None => {
            return Err(ArgsError::InvalidHeight);
        },
    };
    if width < 320 || height < 200 {
        return Err(ArgsError::TooSmall);
    }
    if width > 5120 || height > 3650 {
        return Err(ArgsError::TooLarge);
    }
    Ok((width, height))
}

/// ASCII whitespace: space, tab, line feed, vertical tab, form feed,
/// carriage return.
pub open spec fn is_ascii_space(c: char) -> bool {
    c as u32 == 32 || 9 <= c as u32 <= 13
}

/// The number of whitespace characters at the front of `s`.
pub open spec fn leading_spaces(s: Seq<char>) -> int
    decreases s.len(),
{
    if s.len() == 0 {
        0
    } else if is_ascii_space(s[0]) {
        1 + leading_spaces(s.drop_first())
    } else {
        0
    }
}

/// The number of whitespace characters at the back of `s`.
pub open spec fn trailing_spaces(s: Seq<char>) -> int
    decreases s.len(),
{
    if s.len() == 0 {
        0
    } else if is_ascii_space(s.last()) {
        1 + trailing_spaces(s.drop_last())
    } else {
        0
    }
}

/// `s` without leading and trailing whitespace.
pub open spec fn trimmed(s: Seq<char>) -> Seq<char> {
    let rest = s.skip(leading_spaces(s));
    rest.take(rest.len() - trailing_spaces(rest))
}

/// A front run of spaces not followed by another space is the full
/// leading-space count.
proof fn lemma_leading_spaces_found(s: Seq<char>, a: int)
    requires
        0 <= a <= s.len(),
        forall|q: int| 0 <= q < a ==> is_ascii_space(#[trigger] s[q]),
        a < s.len() ==> !is_ascii_space(s[a]),
    ensures
        leading_spaces(s) == a,
    decreases a,
{
    if s.len() > 0 && is_ascii_space(s[0]) {
        assert(a > 0);
        lemma_leading_spaces_found(s.drop_first(), a - 1);
    }
}

/// A back run of spaces not preceded by another space is the full
/// trailing-space count.
proof fn lemma_trailing_spaces_found(s: Seq<char>, b: int)
    requires
        0 <= b <= s.len(),
        forall|q: int| s.len() - b <= q < s.len() ==> is_ascii_space(#[trigger] s[q]),
        b < s.len() ==> !is_ascii_space(s[s.len() - 1 - b]),
    ensures
        trailing_spaces(s) == b,
    decreases b,
{
    if s.len() > 0 && is_ascii_space(s.last()) {
        assert(b > 0);
        assert(forall|q: int|
            s.drop_last().len() - (b - 1) <= q < s.drop_last().len()
                ==> is_ascii_space(#[trigger] s.drop_last()[q]));
        lemma_trailing_spaces_found(s.drop_last(), b - 1);
    }
}

/// The 24-bit RGB palette entry `s` denotes: a hexadecimal number that
/// fits 32 bits, with surrounding whitespace ignored.
pub open spec fn spec_parse_palette(s: Seq<char>) -> Result<u32, ArgsError> {
    match parsed_number(trimmed(s), 16, u32::MAX as int) {
        Some(v) => Ok(v as u32),
        None => Err(ArgsError::InvalidHex),
    }
}

/// Whether `c` is ASCII whitespace, as the executable code tests it.
fn is_space_char(c: char) -> (b: bool)
    ensures
        b == is_ascii_space(c),
{
    let u: u32 = c as u32;
    u == 32 || (9 <= u && u <= 13)
}

/// Parses one palette entry: a hexadecimal RGB value, trimmed.
pub fn parse_palette(s: &str) -> (r: Result<u32, ArgsError>)
    ensures
        r == spec_parse_palette(s@),
{
    let len: usize = s.unicode_len();
    let mut a: usize = 0;
    while a < len && is_space_char(s.get_char(a))
        invariant
            a <= len,
            len == s@.len(),
            forall|q: int| 0 <= q < a ==> is_ascii_space(#[trigger] s@[q]),
        decreases len - a,
    {
        a = a + 1;
    }
    let mut b: usize = len;
    while b > a && is_space_char(s.get_char(b - 1))
        invariant
            a <= b <= len,
            len == s@.len(),
            forall|q: int| 0 <= q < a ==> is_ascii_space(#[trigger] s@[q]),
            forall|q: int| b <= q < len ==> is_ascii_space(#[trigger] s@[q]),
        decreases b,
    {
        b = b - 1;
    }
    proof {
        lemma_leading_spaces_found(s@, a as int);
        let rest = s@.skip(a as int);
        assert(forall|q: int|
            rest.len() - (len - b) <= q < rest.len() ==> is_ascii_space(#[trigger] rest[q]));
        lemma_trailing_spaces_found(rest, len - b);
        assert(trimmed(s@) =~= s@.subrange(a as int, b as int));
    }
    match parse_number_range(s, a, b, 16) {
        Some(v) => {
            if v <= (u32::MAX as usize) {
                Ok(v as u32)
            } else {
                Err(ArgsError::InvalidHex)
            }
        },
        None => Err(ArgsError::InvalidHex),
    }
}

} // verus!
