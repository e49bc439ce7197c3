//! Decimal parsing of unsigned integers with the rules of `str::parse`.
use vstd::prelude::*;
use crate::text::{decimal, digit_char, is_whitespace};

verus! {

/// Why a decimal integer did not parse (`std::num::IntErrorKind`).
#[derive(Debug, Clone, Copy, PartialEq, Eq, Structural)]
pub enum IntErrorKind {
    Empty,
    InvalidDigit,
    PosOverflow,
}

impl IntErrorKind {
    /// The message `ParseIntError` displays for this kind.
    pub fn message(&self) -> (s: &'static str)
        ensures
            s@ == int_error_message(*self),
    {
        match self {
            IntErrorKind::Empty => "cannot parse integer from empty string",
            IntErrorKind::InvalidDigit => "invalid digit found in string",
            IntErrorKind::PosOverflow => "number too large to fit in target type",
        }
    }
}

/// The message `ParseIntError` displays for a kind.
pub open spec fn int_error_message(k: IntErrorKind) -> Seq<char> {
    match k {
        IntErrorKind::Empty => "cannot parse integer from empty string"@,
        IntErrorKind::InvalidDigit => "invalid digit found in string"@,
        IntErrorKind::PosOverflow => "number too large to fit in target type"@,
    }
}

pub open spec fn is_digit(c: char) -> bool {
    '0' <= c && c <= '9'
}

pub open spec fn digit_value(c: char) -> nat {
    (c as u32 - '0' as u32) as nat
}

/// Scans decimal digits left to right, stopping at the first bad digit or overflow.
pub open spec fn scan_digits(s: Seq<char>, max: nat) -> Result<nat, IntErrorKind>
    decreases s.len(),
{
    if s.len() == 0 {
        Ok(0)
    } else {
        match scan_digits(s.drop_last(), max) {
            Err(e) => Err(e),
            Ok(v) => if !is_digit(s.last()) {
                Err(IntErrorKind::InvalidDigit)
            } else if v * 10 + digit_value(s.last()) > max {
                Err(IntErrorKind::PosOverflow)
            } else {
                Ok(v * 10 + digit_value(s.last()))
            },
        }
    }
}

/// The result of parsing `s` as an unsigned integer no larger than `max`.
pub open spec fn parse_unsigned(s: Seq<char>, max: nat) -> Result<nat, IntErrorKind> {
    if s.len() == 0 {
        Err(IntErrorKind::Empty)
    } else if (s[0] == '+' || s[0] == '-') && s.len() == 1 {
        Err(IntErrorKind::InvalidDigit)
    } else if s[0] == '+' {
        scan_digits(s.drop_first(), max)
    } else {
        scan_digits(s, max)
    }
}

proof fn lemma_scan_bounded(s: Seq<char>, max: nat)
    ensures
        scan_digits(s, max) matches Ok(v) ==> v <= max,
    decreases s.len(),
{
    if s.len() > 0 {
        lemma_scan_bounded(s.drop_last(), max);
    }
}

proof fn lemma_scan_err_sticky(t: Seq<char>, k: nat, max: nat)
    requires
        k <= t.len(),
        scan_digits(t.take(k as int), max) is Err,
    ensures
        scan_digits(t, max) == scan_digits(t.take(k as int), max),
    decreases t.len(),
{
    if k == t.len() {
        assert(t.take(k as int) =~= t);
    } else {
        assert(t.drop_last().take(k as int) =~= t.take(k as int));
        lemma_scan_err_sticky(t.drop_last(), k, max);
    }
}

fn scan_digits_exec(s: &[char], from: usize, max: u64) -> (r: Result<u64, IntErrorKind>)
    requires
        from <= s@.len(),
    ensures
        match r {
            Ok(v) => scan_digits(s@.skip(from as int), max as nat) == Ok::<nat, IntErrorKind>(
                v as nat,
            ),
            Err(e) => scan_digits(s@.skip(from as int), max as nat) == Err::<nat, IntErrorKind>(e),
        },
{
    let ghost t = s@.skip(from as int);
    let mut acc: u64 = 0;
    let mut i: usize = from;
    let len = s.len();
    assert(t.take(0) =~= Seq::<char>::empty());
    while i < len
        invariant
            len == s@.len(),
            from <= i <= len,
            t == s@.skip(from as int),
            scan_digits(t.take(i - from), max as nat) == Ok::<nat, IntErrorKind>(acc as nat),
            acc <= max,
        decreases len - i,
    {
        let c = s[i];
        let ghost pre = t.take(i - from);
        assert(t.take(i - from + 1).drop_last() =~= pre);
        assert(t.take(i - from + 1).last() == c);
        if !('0' <= c && c <= '9') {
            proof {
                lemma_scan_err_sticky(t, (i - from + 1) as nat, max as nat);
            }
            return Err(IntErrorKind::InvalidDigit);
        }
        let d: u64 = (c as u32 - '0' as u32) as u64;
        assert(d == digit_value(c));
        if d > max || acc > (max - d) / 10 {
            assert(acc * 10 + d > max) by (nonlinear_arith)
                requires d > max || acc > (max - d) / 10, acc >= 0;
            proof {
                lemma_scan_err_sticky(t, (i - from + 1) as nat, max as nat);
            }
            return Err(IntErrorKind::PosOverflow);
        }
        assert(acc * 10 + d <= max) by (nonlinear_arith)
            requires acc <= (max - d) / 10, d <= max;
        acc = acc * 10 + d;
        i += 1;
    }
    assert(t.take(len - from) =~= t);
    Ok(acc)
}

} // verus!

verus! {

/// Parses a decimal `usize` (`str::parse::<usize>`).
pub fn parse_usize(s: &[char]) -> (r: Result<usize, IntErrorKind>)
    ensures
        match r {
            Ok(v) => parse_unsigned(s@, usize::MAX as nat) == Ok::<nat, IntErrorKind>(v as nat),
            Err(e) => parse_unsigned(s@, usize::MAX as nat) == Err::<nat, IntErrorKind>(e),
        },
{
    match parse_u64_max(s, usize::MAX as u64) {
        Ok(v) => Ok(v as usize),
        Err(e) => Err(e),
    }
}

/// Parses a decimal number no larger than `max` (as `str::parse` does for an unsigned type
/// whose largest value is `max`).
pub fn parse_u64_bounded(s: &[char], max: u64) -> (r: Result<u64, IntErrorKind>)
    ensures
        r == (match parse_unsigned(s@, max as nat) {
            Ok(n) => Ok::<u64, IntErrorKind>(n as u64),
            Err(e) => Err::<u64, IntErrorKind>(e),
        }),
{
    parse_u64_max(s, max)
}

fn parse_u64_max(s: &[char], max: u64) -> (r: Result<u64, IntErrorKind>)
    ensures
        match r {
            Ok(v) => v <= max && parse_unsigned(s@, max as nat) == Ok::<nat, IntErrorKind>(v as nat),
            Err(e) => parse_unsigned(s@, max as nat) == Err::<nat, IntErrorKind>(e),
        },
{
    if s.len() == 0 {
        return Err(IntErrorKind::Empty);
    }
    if (s[0] == '+' || s[0] == '-') && s.len() == 1 {
        return Err(IntErrorKind::InvalidDigit);
    }
    let from: usize = if s[0] == '+' { 1 } else { 0 };
    assert(s@.skip(0) =~= s@);
    assert(s@.skip(1) =~= s@.drop_first());
    let r = scan_digits_exec(s, from, max);
    proof {
        if from == 1 {
            lemma_scan_bounded(s@.drop_first(), max as nat);
        } else {
            lemma_scan_bounded(s@, max as nat);
        }
    }
    r
}

/// Ten to the power `k`.
pub open spec fn pow10(k: nat) -> nat
    decreases k,
{
    if k == 0 { 1 } else { 10 * pow10((k - 1) as nat) }
}

proof fn lemma_digit_char(d: nat)
    requires
        d < 10,
    ensures
        is_digit(digit_char(d)),
        digit_value(digit_char(d)) == d,
        !is_whitespace(digit_char(d)),
{
}

/// The decimal representation of a number is made of digits, not empty, and has at most
/// `k` of them when the number is below ten to the power `k`.
pub proof fn lemma_decimal_digits(n: nat)
    ensures
        decimal(n).len() > 0,
        forall|i: int| 0 <= i < decimal(n).len() ==> is_digit(#[trigger] decimal(n)[i]) && !is_whitespace(decimal(n)[i]),
    decreases n,
{
    if n < 10 {
        lemma_digit_char(n);
    } else {
        lemma_decimal_digits(n / 10);
        lemma_digit_char(n % 10);
        let d = decimal(n / 10);
        assert forall|i: int| 0 <= i < decimal(n).len() implies is_digit(#[trigger] decimal(n)[i]) && !is_whitespace(decimal(n)[i]) by {
            if i < d.len() {
                assert(decimal(n)[i] == d[i]);
            }
        }
    }
}

/// A number below ten to the power `k` (`k` at least one) has at most `k` digits.
pub proof fn lemma_decimal_len(n: nat, k: nat)
    requires
        k >= 1,
        n < pow10(k),
    ensures
        decimal(n).len() <= k,
    decreases n,
{
    if n >= 10 {
        assert(k >= 2) by {
            if k == 1 {
                assert(pow10(1) == 10 * pow10(0));
            }
        }
        let k1 = (k - 1) as nat;
        assert(pow10(k) == 10 * pow10(k1));
        assert(n / 10 < pow10(k1)) by (nonlinear_arith)
            requires
                n < 10 * pow10(k1),
        ;
        lemma_decimal_len(n / 10, k1);
    }
}

/// Parsing the decimal representation of a number no larger than `max` gives the number.
pub proof fn lemma_parse_decimal(n: nat, max: nat)
    requires
        n <= max,
    ensures
        parse_unsigned(decimal(n), max) == Ok::<nat, IntErrorKind>(n),
{
    lemma_decimal_digits(n);
    lemma_scan_decimal(n, max);
    assert(decimal(n)[0] != '+' && decimal(n)[0] != '-');
}

proof fn lemma_scan_decimal(n: nat, max: nat)
    requires
        n <= max,
    ensures
        scan_digits(decimal(n), max) == Ok::<nat, IntErrorKind>(n),
    decreases n,
{
    if n < 10 {
        lemma_digit_char(n);
        assert(decimal(n).drop_last() =~= Seq::<char>::empty());
        assert(scan_digits(Seq::<char>::empty(), max) == Ok::<nat, IntErrorKind>(0));
        assert(decimal(n).last() == digit_char(n));
    } else {
        lemma_scan_decimal(n / 10, max);
        lemma_digit_char(n % 10);
        assert(decimal(n).drop_last() =~= decimal(n / 10));
        assert(decimal(n).last() == digit_char(n % 10));
        assert((n / 10) * 10 + n % 10 == n) by (nonlinear_arith);
        assert(n / 10 <= max);
    }
}

} // verus!
