//! Numbers written as text: integer and floating-point literals as the
//! standard library's `FromStr` accepts them, and decimal rendering.
use vstd::prelude::*;

use crate::std_calls::push_char;
use crate::text::{
    ascii_lowercase, chars_equal, chars_of, find_char, first_index, lowercase_chars, slice_chars,
};

verus! {

broadcast use vstd::string::group_string_axioms;

pub open spec fn is_ascii_digit(c: char) -> bool {
    '0' <= c && c <= '9'
}

pub open spec fn all_digits(s: Seq<char>) -> bool {
    forall|i: int| 0 <= i < s.len() ==> is_ascii_digit(#[trigger] s[i])
}

pub open spec fn digit_value(c: char) -> nat {
    ((c as u32) - ('0' as u32)) as nat
}

/// The value of a run of decimal digits, most significant first.
pub open spec fn digits_value(s: Seq<char>) -> nat
    decreases s.len(),
{
    if s.len() == 0 {
        0
    } else {
        digits_value(s.drop_last()) * 10 + digit_value(s.last())
    }
}

/// A leading `+` or `-`, if there is one.
pub open spec fn has_sign(s: Seq<char>) -> bool {
    s.len() > 0 && (s[0] == '+' || s[0] == '-')
}

/// What `i64::from_str` gives: an optional sign, then at least one ASCII
/// digit, with a value that fits in an `i64`.
pub open spec fn parse_i64(s: Seq<char>) -> Option<i64> {
    if s.len() > 0 && s[0] == '-' {
        let d = s.skip(1);
        if d.len() > 0 && all_digits(d) && digits_value(d) <= 0x8000_0000_0000_0000 {
            Some((-(digits_value(d) as int)) as i64)
        } else {
            None
        }
    } else {
        let d = if s.len() > 0 && s[0] == '+' {
            s.skip(1)
        } else {
            s
        };
        if d.len() > 0 && all_digits(d) && digits_value(d) <= 0x7fff_ffff_ffff_ffff {
            Some(digits_value(d) as i64)
        } else {
            None
        }
    }
}

/// Appending digits never makes the value smaller.
pub proof fn lemma_digits_value_grows(s: Seq<char>, i: int)
    requires
        0 <= i <= s.len(),
    ensures
        digits_value(s.take(i)) <= digits_value(s),
    decreases s.len() - i,
{
    if i < s.len() {
        lemma_digits_value_grows(s, i + 1);
        assert(s.take(i + 1).drop_last() == s.take(i));
    } else {
        assert(s.take(i) == s);
    }
}

/// Whether every character of `s[from..]` is an ASCII digit.
fn digits_from(s: &[char], from: usize) -> (r: bool)
    requires
        from <= s@.len(),
    ensures
        r == all_digits(s@.skip(from as int)),
{
    let n = s.len();
    let mut i = from;
    while i < n
        invariant
            from <= i <= n,
            n == s@.len(),
            forall|k: int| from <= k < i ==> is_ascii_digit(s@[k]),
        decreases n - i,
    {
        if !('0' <= s[i] && s[i] <= '9') {
            assert(s@.skip(from as int)[i - from] == s@[i as int]);
            return false;
        }
        i = i + 1;
    }
    assert forall|k: int| 0 <= k < s@.skip(from as int).len() implies is_ascii_digit(
        #[trigger] s@.skip(from as int)[k],
    ) by {
        assert(s@.skip(from as int)[k] == s@[k + from]);
    }
    true
}

/// The value of the digit run `s[from..]`, or `None` once it passes `limit`.
fn digits_value_upto(s: &[char], from: usize, limit: u64) -> (r: Option<u64>)
    requires
        from <= s@.len(),
        all_digits(s@.skip(from as int)),
    ensures
        match r {
            Some(v) => v == digits_value(s@.skip(from as int)) && v <= limit,
            None => digits_value(s@.skip(from as int)) > limit,
        },
{
    let n = s.len();
    let ghost d = s@.skip(from as int);
    let mut acc: u128 = 0;
    let mut i = from;
    assert(d.take(0) =~= Seq::<char>::empty());
    while i < n
        invariant
            from <= i <= n,
            n == s@.len(),
            d == s@.skip(from as int),
            all_digits(d),
            acc == digits_value(d.take(i - from)),
            acc <= limit,
        decreases n - i,
    {
        let c = s[i];
        assert(d[i - from] == c);
        assert(is_ascii_digit(d[i - from]));
        let dv: u128 = ((c as u32) - 48) as u128;
        assert(d.take(i + 1 - from).drop_last() == d.take(i - from));
        acc = acc * 10 + dv;
        i = i + 1;
        if acc > limit as u128 {
            proof {
                lemma_digits_value_grows(d, i - from);
            }
            return None;
        }
    }
    assert(d.take(n - from) == d);
    Some(acc as u64)
}

/// `i64::from_str` on characters.
pub fn parse_i64_chars(s: &[char]) -> (r: Option<i64>)
    ensures
        r == parse_i64(s@),
{
    let n = s.len();
    if n > 0 && s[0] == '-' {
        if n == 1 || !digits_from(s, 1) {
            return None;
        }
        match digits_value_upto(s, 1, 0x8000_0000_0000_0000) {
            Some(v) => {
                let neg: i128 = -(v as i128);
                Some(neg as i64)
            },
            None => None,
        }
    } else {
        let start: usize = if n > 0 && s[0] == '+' {
            1
        } else {
            0
        };
        assert(start == 0 ==> s@.skip(0) == s@);
        if start == n || !digits_from(s, start) {
            return None;
        }
        match digits_value_upto(s, start, 0x7fff_ffff_ffff_ffff) {
            Some(v) => Some(v as i64),
            None => None,
        }
    }
}

// ---------------------------------------------------------------------------
// Floating-point literals
// ---------------------------------------------------------------------------

/// The part before an optional exponent: digits with at most one `.`,
/// and at least one digit.
pub open spec fn is_decimal_mantissa(m: Seq<char>) -> bool {
    match first_index(m, '.') {
        Some(d) => all_digits(m.take(d)) && all_digits(m.skip(d + 1)) && m.len() >= 2,
        None => all_digits(m) && m.len() >= 1,
    }
}

/// The part after `e`: an optional sign, then at least one digit.
pub open spec fn is_exponent_part(x: Seq<char>) -> bool {
    let y = if has_sign(x) {
        x.skip(1)
    } else {
        x
    };
    y.len() >= 1 && all_digits(y)
}

/// A decimal number, in lower case: a mantissa and an optional `e` exponent.
pub open spec fn is_decimal_number(b: Seq<char>) -> bool {
    match first_index(b, 'e') {
        Some(e) => is_decimal_mantissa(b.take(e)) && is_exponent_part(b.skip(e + 1)),
        None => is_decimal_mantissa(b),
    }
}

/// The strings that `f64::from_str` accepts, by the grammar that the standard
/// library documents for it: once lower-cased, an optional sign followed by
/// `inf`, `infinity`, `nan` or a decimal number; no surrounding whitespace.
pub open spec fn is_float_literal(s: Seq<char>) -> bool {
    let t = ascii_lowercase(s);
    let body = if has_sign(t) {
        t.skip(1)
    } else {
        t
    };
    body == "inf"@ || body == "infinity"@ || body == "nan"@ || is_decimal_number(body)
}

fn mantissa_ok(m: &[char]) -> (r: bool)
    ensures
        r == is_decimal_mantissa(m@),
{
    match find_char(m, '.') {
        Some(d) => {
            assert(d < m.len());
            let before = slice_chars(m, 0, d);
            assert(before@ == m@.take(d as int));
            assert(before@.skip(0) == before@);
            let whole = digits_from(&before, 0);
            let after = digits_from(m, d + 1);
            whole && after && m.len() >= 2
        },
        None => {
            assert(m@.skip(0) == m@);
            m.len() >= 1 && digits_from(m, 0)
        },
    }
}

fn exponent_ok(x: &[char]) -> (r: bool)
    ensures
        r == is_exponent_part(x@),
{
    let start: usize = if x.len() > 0 && (x[0] == '+' || x[0] == '-') {
        1
    } else {
        0
    };
    assert(start == 0 ==> x@.skip(0) == x@);
    start < x.len() && digits_from(x, start)
}

/// Whether `s` is text that `f64::from_str` accepts.
pub fn is_float_literal_chars(s: &[char]) -> (r: bool)
    ensures
        r == is_float_literal(s@),
{
    let t = lowercase_chars(s);
    let start: usize = if t.len() > 0 && (t[0] == '+' || t[0] == '-') {
        1
    } else {
        0
    };
    let body = slice_chars(&t, start, t.len());
    assert(body@ == (if has_sign(t@) {
        t@.skip(1)
    } else {
        t@
    }));
    if chars_equal(&body, &chars_of("inf")) || chars_equal(&body, &chars_of("infinity"))
        || chars_equal(&body, &chars_of("nan")) {
        return true;
    }
    match find_char(&body, 'e') {
        Some(e) => {
            assert(e < body.len());
            let mantissa = slice_chars(&body, 0, e);
            let exponent = slice_chars(&body, e + 1, body.len());
            assert(mantissa@ == body@.take(e as int));
            assert(exponent@ == body@.skip(e + 1));
            mantissa_ok(&mantissa) && exponent_ok(&exponent)
        },
        None => mantissa_ok(&body),
    }
}

// ---------------------------------------------------------------------------
// Decimal rendering
// ---------------------------------------------------------------------------

pub open spec fn digit_char(d: nat) -> char {
    (('0' as u32) + d) as char
}

/// The decimal form of `n`, as `Display` writes an unsigned integer.
pub open spec fn decimal_text(n: nat) -> Seq<char>
    decreases n,
{
    if n < 10 {
        seq![digit_char(n)]
    } else {
        decimal_text(n / 10).push(digit_char(n % 10))
    }
}

/// The decimal form of `n`.
pub fn decimal_string(n: u64) -> (r: String)
    ensures
        r@ == decimal_text(n as nat),
    decreases n,
{
    let digit: u32 = (n % 10) as u32;
    let c: char = ((48 + digit) as u8) as char;
    if n < 10 {
        let mut s = String::new();
        push_char(&mut s, c);
        assert(s@ =~= seq![c]);
        s
    } else {
        let mut s = decimal_string(n / 10);
        push_char(&mut s, c);
        s
    }
}

// ---------------------------------------------------------------------------
// Laws of decimal text
// ---------------------------------------------------------------------------

/// The decimal text of `n` is a run of digits with no leading zero whose
/// value is `n`.
pub proof fn lemma_decimal_text_value(n: nat)
    ensures
        decimal_text(n).len() >= 1,
        all_digits(decimal_text(n)),
        digits_value(decimal_text(n)) == n,
        n > 0 ==> decimal_text(n)[0] != '0',
    decreases n,
{
    if n < 10 {
        let c = digit_char(n);
        assert(c as u32 == 48 + n);
        assert(digit_value(c) == n);
        assert(seq![c].drop_last() =~= Seq::<char>::empty());
        assert(digits_value(Seq::<char>::empty()) == 0);
        assert(digits_value(seq![c]) == n);
        assert(decimal_text(n) == seq![c]);
    } else {
        lemma_decimal_text_value(n / 10);
        let prev = decimal_text(n / 10);
        let c = digit_char(n % 10);
        assert(c as u32 == 48 + n % 10);
        assert(prev.push(c).drop_last() == prev);
        assert(digit_value(c) == n % 10);
        assert(digits_value(prev.push(c)) == digits_value(prev) * 10 + digit_value(c));
        assert((n / 10) * 10 + n % 10 == n);
        assert(decimal_text(n) == prev.push(c));
        assert forall|i: int| 0 <= i < prev.push(c).len() implies is_ascii_digit(
            #[trigger] prev.push(c)[i],
        ) by {
            if i < prev.len() {
                assert(prev.push(c)[i] == prev[i]);
            }
        }
        assert(prev.push(c)[0] == prev[0]);
    }
}

/// `parse_i64` reads back the decimal text of every `i64`: digits for a
/// value that is not negative (with or without a `+`), and `-` then the
/// digits of its magnitude for a negative one.
pub proof fn lemma_parse_i64_reads_decimal(n: i64)
    ensures
        n >= 0 ==> parse_i64(decimal_text(n as nat)) == Some(n),
        n >= 0 ==> parse_i64(seq!['+'] + decimal_text(n as nat)) == Some(n),
        n < 0 ==> parse_i64(seq!['-'] + decimal_text((-n) as nat)) == Some(n),
{
    if n >= 0 {
        let d = decimal_text(n as nat);
        lemma_decimal_text_value(n as nat);
        assert(is_ascii_digit(d[0]));
        assert((seq!['+'] + d).skip(1) =~= d);
    } else {
        let d = decimal_text((-n) as nat);
        lemma_decimal_text_value((-n) as nat);
        assert((seq!['-'] + d).skip(1) =~= d);
    }
}

/// What `parse_i64` accepts and reads: one optional sign, then at least one
/// ASCII digit and nothing else; the value's magnitude is the digits' value
/// and it is negative only after a `-`.
pub proof fn lemma_parse_i64_accepts_signed_digits(s: Seq<char>)
    ensures
        parse_i64(s) is Some ==> {
            let body = if has_sign(s) {
                s.skip(1)
            } else {
                s
            };
            &&& body.len() >= 1
            &&& all_digits(body)
        },
        parse_i64(s) matches Some(v) ==> {
            let body = if has_sign(s) {
                s.skip(1)
            } else {
                s
            };
            &&& (v >= 0 ==> digits_value(body) == v as int)
            &&& (v < 0 ==> digits_value(body) == -(v as int) && s[0] == '-')
        },
{
}

} // verus!
