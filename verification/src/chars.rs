//! Character classification, hexadecimal parsing, numeric-text validation,
//! and the conversions between strings and character vectors that the
//! tokenizer, parser and formatter build on.

use vstd::prelude::*;

verus! {

/// The Unicode code points with the `White_Space` property; this is the
/// set of characters that `char::is_whitespace` accepts.
pub open spec fn is_ws(c: char) -> bool {
    c == '\u{09}' || c == '\u{0A}' || c == '\u{0B}' || c == '\u{0C}' || c == '\u{0D}'
        || c == ' ' || c == '\u{85}' || c == '\u{A0}' || c == '\u{1680}'
        || c == '\u{2000}' || c == '\u{2001}' || c == '\u{2002}' || c == '\u{2003}'
        || c == '\u{2004}' || c == '\u{2005}' || c == '\u{2006}' || c == '\u{2007}'
        || c == '\u{2008}' || c == '\u{2009}' || c == '\u{200A}'
        || c == '\u{2028}' || c == '\u{2029}' || c == '\u{202F}' || c == '\u{205F}'
        || c == '\u{3000}'
}

/// Whitespace test over the `White_Space` code-point list.
pub fn is_whitespace_char(c: char) -> (r: bool)
    ensures
        r == is_ws(c),
{
    match c {
        '\u{09}' | '\u{0A}' | '\u{0B}' | '\u{0C}' | '\u{0D}' | ' ' | '\u{85}' | '\u{A0}'
        | '\u{1680}' | '\u{2000}' | '\u{2001}' | '\u{2002}' | '\u{2003}' | '\u{2004}'
        | '\u{2005}' | '\u{2006}' | '\u{2007}' | '\u{2008}' | '\u{2009}' | '\u{200A}'
        | '\u{2028}' | '\u{2029}' | '\u{202F}' | '\u{205F}' | '\u{3000}' => true,
        _ => false,
    }
}

pub open spec fn is_digit(c: char) -> bool {
    48 <= c as u32 && c as u32 <= 57
}

/// Decimal digit test.
pub fn is_digit_char(c: char) -> (r: bool)
    ensures
        r == is_digit(c),
{
    let u = c as u32;
    48 <= u && u <= 57
}

pub open spec fn is_ascii_letter(c: char) -> bool {
    (65 <= c as u32 && c as u32 <= 90) || (97 <= c as u32 && c as u32 <= 122)
}

pub open spec fn ascii_alnum(c: char) -> bool {
    is_ascii_letter(c) || is_digit(c)
}

/// What `char::is_alphanumeric` returns outside the ASCII range, where no
/// short statement of the Unicode tables is possible.
pub uninterp spec fn unicode_alnum(c: char) -> bool;

/// A character that may continue an unquoted identifier: alphanumeric or
/// an underscore.
pub open spec fn is_ident_cont(c: char) -> bool {
    if (c as u32) < 128 {
        ascii_alnum(c) || c == '_'
    } else {
        unicode_alnum(c)
    }
}

/// Relies on char::is_alphanumeric: true exactly on Unicode alphabetic or
/// numeric characters; on ASCII characters those are the ASCII letters and
/// digits.
#[verifier::external_body]
fn char_is_alphanumeric(c: char) -> (r: bool)
    ensures
        r == unicode_alnum(c),
        (c as u32) < 128 ==> r == ascii_alnum(c),
{
    c.is_alphanumeric()
}

/// Identifier-continuation test: alphanumeric or underscore.
pub fn is_ident_cont_char(c: char) -> (r: bool)
    ensures
        r == is_ident_cont(c),
{
    let a = char_is_alphanumeric(c);
    a || c == '_'
}

pub open spec fn is_ident_start(c: char) -> bool {
    is_ascii_letter(c) || c == '_'
}

/// Identifier-start test: an ASCII letter or underscore.
pub fn is_ident_start_char(c: char) -> (r: bool)
    ensures
        r == is_ident_start(c),
{
    let u = c as u32;
    (65 <= u && u <= 90) || (97 <= u && u <= 122) || c == '_'
}

/// A character that may begin a number token.
pub open spec fn is_num_start(c: char) -> bool {
    c == '.' || c == '+' || c == '-' || is_digit(c)
}

/// Number-start test.
pub fn is_num_start_char(c: char) -> (r: bool)
    ensures
        r == is_num_start(c),
{
    c == '.' || c == '+' || c == '-' || is_digit_char(c)
}

/// A character that the number scanner accumulates greedily.
pub open spec fn is_num_cont(c: char) -> bool {
    is_digit(c) || c == '.' || c == 'e' || c == 'E' || c == '+' || c == '-'
}

/// Number-continuation test.
pub fn is_num_cont_char(c: char) -> (r: bool)
    ensures
        r == is_num_cont(c),
{
    is_digit_char(c) || c == '.' || c == 'e' || c == 'E' || c == '+' || c == '-'
}

pub open spec fn is_hex_digit(c: char) -> bool {
    is_digit(c) || (97 <= c as u32 && c as u32 <= 102) || (65 <= c as u32 && c as u32 <= 70)
}

/// The numeric value of a hexadecimal digit.
pub open spec fn hex_val(c: char) -> u32 {
    if is_digit(c) {
        (c as u32 - 48) as u32
    } else if 97 <= c as u32 && c as u32 <= 102 {
        (c as u32 - 87) as u32
    } else if 65 <= c as u32 && c as u32 <= 70 {
        (c as u32 - 55) as u32
    } else {
        0
    }
}

/// Hexadecimal digit test and value.
pub fn hex_digit_value(c: char) -> (r: Option<u32>)
    ensures
        r == (if is_hex_digit(c) {
            Some(hex_val(c))
        } else {
            None::<u32>
        }),
{
    let u = c as u32;
    if 48 <= u && u <= 57 {
        Some(u - 48)
    } else if 97 <= u && u <= 102 {
        Some(u - 87)
    } else if 65 <= u && u <= 70 {
        Some(u - 55)
    } else {
        None
    }
}

pub open spec fn all_hex_digits(s: Seq<char>) -> bool {
    forall|i: int| 0 <= i < s.len() ==> is_hex_digit(s[i])
}

/// The value of a sequence of hexadecimal digits, most significant first.
pub open spec fn hex_digits_value(s: Seq<char>) -> nat
    decreases s.len(),
{
    if s.len() == 0 {
        0
    } else {
        (hex_digits_value(s.drop_last()) * 16 + hex_val(s.last())) as nat
    }
}

/// The number that an unsigned hexadecimal parse of `s` yields: an optional
/// leading plus sign followed by at least one hexadecimal digit.  This is
/// the form `u32::from_str_radix(s, 16)` accepts for an unsigned target.
pub open spec fn hex_text_value(s: Seq<char>) -> Option<nat> {
    let d = if s.len() > 0 && s[0] == '+' {
        s.skip(1)
    } else {
        s
    };
    if d.len() >= 1 && all_hex_digits(d) {
        Some(hex_digits_value(d))
    } else {
        None
    }
}

proof fn lemma_hex_digits_bound(s: Seq<char>)
    ensures
        s.len() <= 1 ==> hex_digits_value(s) < 0x10,
        s.len() <= 2 ==> hex_digits_value(s) < 0x100,
        s.len() <= 3 ==> hex_digits_value(s) < 0x1000,
        s.len() <= 4 ==> hex_digits_value(s) < 0x10000,
        s.len() <= 5 ==> hex_digits_value(s) < 0x100000,
    decreases s.len(),
{
    if s.len() > 0 {
        lemma_hex_digits_bound(s.drop_last());
    }
}

/// Unsigned hexadecimal parse of a short digit run, as a radix-16 integer
/// parse performs it: an optional plus sign, then one or more digits.
#[verifier::loop_isolation(false)]
pub fn parse_hex_u32(v: &[char]) -> (r: Option<u32>)
    requires
        v@.len() <= 5,
    ensures
        (r is Some) == (hex_text_value(v@) is Some),
        r matches Some(a) ==> hex_text_value(v@) == Some(a as nat),
{
    let ghost d = if v@.len() > 0 && v@[0] == '+' {
        v@.skip(1)
    } else {
        v@
    };
    let start: usize = if v.len() > 0 && v[0] == '+' {
        1
    } else {
        0
    };
    assert(d =~= v@.skip(start as int));
    if v.len() == start {
        return None;
    }
    let mut acc: u32 = 0;
    let mut i: usize = start;
    while i < v.len()
        invariant
            start <= i <= v@.len() <= 5,
            d == v@.skip(start as int),
            all_hex_digits(v@.subrange(start as int, i as int)),
            acc == hex_digits_value(v@.subrange(start as int, i as int)),
        decreases v@.len() - i,
    {
        proof {
            lemma_hex_digits_bound(v@.subrange(start as int, i as int));
        }
        match hex_digit_value(v[i]) {
            Some(h) => {
                assert(v@.subrange(start as int, i + 1 as int).drop_last() =~= v@.subrange(
                    start as int,
                    i as int,
                ));
                acc = acc * 16 + h;
            },
            None => {
                assert(d[i - start] == v@[i as int]);
                assert(!all_hex_digits(d));
                return None;
            },
        }
        i += 1;
    }
    proof {
        assert(v@.subrange(start as int, v@.len() as int) =~= d);
        lemma_hex_digits_bound(d);
    }
    Some(acc)
}

/// A Unicode scalar value: a code point that is not a surrogate.
pub open spec fn is_unicode_scalar(u: u32) -> bool {
    u < 0xD800 || (0xDFFF < u && u <= 0x10FFFF)
}

/// Relies on char::from_u32: Some exactly on Unicode scalar values, and the
/// returned character has the given value.
#[verifier::external_body]
pub(crate) fn char_from_u32(u: u32) -> (r: Option<char>)
    ensures
        r == (if is_unicode_scalar(u) {
            Some(u as char)
        } else {
            None::<char>
        }),
{
    char::from_u32(u)
}

/// Relies on str::chars and Iterator::collect: the characters of the
/// string, in order.
#[verifier::external_body]
pub(crate) fn str_to_chars(s: &str) -> (r: Vec<char>)
    ensures
        r@ == s@,
{
    s.chars().collect()
}

/// Relies on Iterator::collect for String: the string made of exactly the
/// given characters, in order.
#[verifier::external_body]
pub(crate) fn chars_to_string(v: &Vec<char>) -> (r: String)
    ensures
        r@ == v@,
{
    v.iter().collect()
}


pub open spec fn all_digits(s: Seq<char>) -> bool {
    forall|i: int| 0 <= i < s.len() ==> is_digit(s[i])
}

/// The index at which a greedy decimal-digit scan of `s` starting at `i`
/// stops: the first position at or after `i` that is not a digit.
pub open spec fn digit_run_end(s: Seq<char>, i: int) -> int
    decreases s.len() - i,
{
    if i < s.len() && is_digit(s[i]) {
        digit_run_end(s, i + 1)
    } else {
        i
    }
}

/// The grammar a 64-bit float parse accepts for sign/digit/dot/exponent
/// text: an optional sign, then a mantissa holding at least one digit
/// (an integer digit run, optionally followed by a decimal point and a
/// fraction digit run), then an optional exponent part: `e` or `E`, an
/// optional sign, and at least one digit, reaching the end of the text.
/// (The float parser's word forms, such as infinities, use letters the
/// number scanner never accumulates, so they are immaterial here.)
pub open spec fn valid_number_text(s: Seq<char>) -> bool {
    let m = if s.len() > 0 && (s[0] == '+' || s[0] == '-') {
        s.skip(1)
    } else {
        s
    };
    let a = digit_run_end(m, 0);
    let man_end = if a < m.len() && m[a] == '.' {
        digit_run_end(m, a + 1)
    } else {
        a
    };
    let man_ok = if a < m.len() && m[a] == '.' {
        a > 0 || man_end > a + 1
    } else {
        a > 0
    };
    man_ok && (man_end == m.len() || ((m[man_end] == 'e' || m[man_end] == 'E') && {
        let e0 = if man_end + 1 < m.len() && (m[man_end + 1] == '+' || m[man_end + 1] == '-') {
            man_end + 2
        } else {
            man_end + 1
        };
        let e1 = digit_run_end(m, e0);
        e1 > e0 && e1 == m.len()
    }))
}

proof fn lemma_digit_run_end_shift(s: Seq<char>, off: int, i: int)
    requires
        0 <= off,
        off <= i <= s.len(),
    ensures
        digit_run_end(s.skip(off), i - off) == digit_run_end(s, i) - off,
    decreases s.len() - i,
{
    assert(s.skip(off).len() == s.len() - off);
    if i < s.len() {
        assert(s.skip(off)[i - off] == s[i]);
        if is_digit(s[i]) {
            lemma_digit_run_end_shift(s, off, i + 1);
        }
    }
}

proof fn lemma_digit_run_end_bounds(s: Seq<char>, i: int)
    requires
        0 <= i <= s.len(),
    ensures
        i <= digit_run_end(s, i) <= s.len(),
        forall|t: int| i <= t < digit_run_end(s, i) ==> is_digit(s[t]),
        digit_run_end(s, i) < s.len() ==> !is_digit(s[digit_run_end(s, i)]),
    decreases s.len() - i,
{
    if i < s.len() && is_digit(s[i]) {
        lemma_digit_run_end_bounds(s, i + 1);
    }
}

/// Whether the accumulated numeric text parses as a 64-bit float.
#[verifier::loop_isolation(false)]
#[verifier::rlimit(100)]
#[verifier::spinoff_prover]
pub fn is_valid_number(v: &Vec<char>) -> (r: bool)
    ensures
        r == valid_number_text(v@),
{
    let n = v.len();
    let mut i: usize = 0;
    if n > 0 && (v[0] == '+' || v[0] == '-') {
        i = 1;
    }
    let m_start = i;
    let ghost m = if v@.len() > 0 && (v@[0] == '+' || v@[0] == '-') {
        v@.skip(1)
    } else {
        v@
    };
    proof {
        assert(m =~= v@.skip(m_start as int));
        assert(forall|t: int| 0 <= t < m.len() ==> m[t] == v@[m_start + t]);
    }
    // integer digit run
    while i < n && is_digit_char(v[i])
        invariant
            m_start <= i <= n,
            digit_run_end(m, i - m_start) == digit_run_end(m, 0),
        decreases n - i,
    {
        i += 1;
    }
    proof {
        assert(digit_run_end(m, i - m_start) == i - m_start);
    }
    let a = i;
    let mut man_ok = a > m_start;
    if i < n && v[i] == '.' {
        i += 1;
        let frac_start = i;
        while i < n && is_digit_char(v[i])
            invariant
                frac_start <= i <= n,
                digit_run_end(m, i - m_start) == digit_run_end(m, frac_start - m_start),
            decreases n - i,
        {
            i += 1;
        }
        proof {
            assert(digit_run_end(m, i - m_start) == i - m_start);
        }
        man_ok = man_ok || i > frac_start;
    }
    let man_end = i;
    if !man_ok {
        return false;
    }
    if i == n {
        return true;
    }
    if !(v[i] == 'e' || v[i] == 'E') {
        return false;
    }
    i += 1;
    if i < n && (v[i] == '+' || v[i] == '-') {
        i += 1;
    }
    let exp_start = i;
    while i < n && is_digit_char(v[i])
        invariant
            exp_start <= i <= n,
            digit_run_end(m, i - m_start) == digit_run_end(m, exp_start - m_start),
        decreases n - i,
    {
        i += 1;
    }
    proof {
        assert(digit_run_end(m, i - m_start) == i - m_start);
    }
    i == n && i > exp_start
}

/// Strict lexicographic order on character sequences by code point.  On
/// strings this coincides with the standard byte-wise order of their UTF-8
/// encodings, which preserves code-point order.
pub open spec fn lex_lt(a: Seq<char>, b: Seq<char>) -> bool
    decreases a.len(),
{
    b.len() > 0 && (a.len() == 0 || (a[0] as u32) < (b[0] as u32) || (a[0] == b[0] && lex_lt(
        a.skip(1),
        b.skip(1),
    )))
}

/// Strict lexicographic comparison of two character vectors.
#[verifier::loop_isolation(false)]
pub fn chars_lt(a: &Vec<char>, b: &Vec<char>) -> (r: bool)
    ensures
        r == lex_lt(a@, b@),
{
    let mut i: usize = 0;
    proof {
        assert(a@.skip(0) =~= a@);
        assert(b@.skip(0) =~= b@);
    }
    while i < a.len() && i < b.len()
        invariant
            0 <= i <= a@.len(),
            i <= b@.len(),
            lex_lt(a@, b@) == lex_lt(a@.skip(i as int), b@.skip(i as int)),
        decreases a@.len() - i,
    {
        if a[i] != b[i] {
            let r = (a[i] as u32) < (b[i] as u32);
            proof {
                assert(a@.skip(i as int)[0] == a@[i as int]);
                assert(b@.skip(i as int)[0] == b@[i as int]);
            }
            return r;
        }
        proof {
            assert(a@.skip(i as int).skip(1) =~= a@.skip(i + 1));
            assert(b@.skip(i as int).skip(1) =~= b@.skip(i + 1));
            assert(a@.skip(i as int)[0] == a@[i as int]);
            assert(b@.skip(i as int)[0] == b@[i as int]);
        }
        i += 1;
    }
    a.len() < b.len()
}

} // verus!
