//! Decimal parsing of unsigned integers with the meaning of `u64::from_str`.

use vstd::prelude::*;

verus! {

/// Why a decimal `u64` could not be read (`std::num::IntErrorKind`).
#[derive(Debug, Clone, Copy, PartialEq, Eq, Structural)]
pub enum IntErrorKind {
    Empty,
    InvalidDigit,
    PosOverflow,
}

/// An ASCII decimal digit.
pub open spec fn is_digit(c: char) -> bool {
    '0' <= c && c <= '9'
}

/// The value of an ASCII decimal digit.
pub open spec fn digit_value(c: char) -> int {
    (c as u32) - ('0' as u32)
}

/// Reads the digits `d` left to right after the value `acc`: the first
/// non-digit is an invalid digit, and going past `u64::MAX` is an overflow.
pub open spec fn scan_digits(d: Seq<char>, acc: int) -> Result<int, IntErrorKind>
    decreases d.len(),
{
    if d.len() == 0 {
        Ok(acc)
    } else if !is_digit(d[0]) {
        Err(IntErrorKind::InvalidDigit)
    } else if acc * 10 + digit_value(d[0]) > u64::MAX {
        Err(IntErrorKind::PosOverflow)
    } else {
        scan_digits(d.drop_first(), acc * 10 + digit_value(d[0]))
    }
}

/// `s.parse::<u64>()`: an optional `+`, then one or more decimal digits.
pub open spec fn u64_of(s: Seq<char>) -> Result<int, IntErrorKind> {
    if s.len() == 0 {
        Err(IntErrorKind::Empty)
    } else if s.len() == 1 && (s[0] == '+' || s[0] == '-') {
        Err(IntErrorKind::InvalidDigit)
    } else if s[0] == '+' {
        scan_digits(s.drop_first(), 0)
    } else {
        scan_digits(s, 0)
    }
}

/// The text of a parse error (`ParseIntError`'s `Display`).
pub open spec fn int_error_text(kind: IntErrorKind) -> Seq<char> {
    match kind {
        IntErrorKind::Empty => "cannot parse integer from empty string"@,
        IntErrorKind::InvalidDigit => "invalid digit found in string"@,
        IntErrorKind::PosOverflow => "number too large to fit in target type"@,
    }
}

/// The text of a parse error.
pub fn int_error_message(kind: IntErrorKind) -> (s: &'static str)
    ensures
        s@ == int_error_text(kind),
{
    match kind {
        IntErrorKind::Empty => "cannot parse integer from empty string",
        IntErrorKind::InvalidDigit => "invalid digit found in string",
        IntErrorKind::PosOverflow => "number too large to fit in target type",
    }
}

proof fn lemma_scan_bounded(d: Seq<char>, acc: int)
    requires
        0 <= acc <= u64::MAX,
    ensures
        scan_digits(d, acc) matches Ok(n) ==> 0 <= n <= u64::MAX,
    decreases d.len(),
{
    if d.len() > 0 && is_digit(d[0]) && acc * 10 + digit_value(d[0]) <= u64::MAX {
        lemma_scan_bounded(d.drop_first(), acc * 10 + digit_value(d[0]));
    }
}

/// Reads `v[lo..]` as digits after the value `acc`.
fn scan(v: &Vec<char>, lo: usize, acc: u64) -> (r: Result<u64, IntErrorKind>)
    requires
        lo <= v.len(),
    ensures
        match (r, scan_digits(v@.subrange(lo as int, v.len() as int), acc as int)) {
            (Ok(n), Ok(m)) => n == m,
            (Err(e), Err(e2)) => e == e2,
            _ => false,
        },
{
    let ghost whole = v@.subrange(lo as int, v.len() as int);
    let mut i = lo;
    let mut value = acc;
    while i < v.len()
        invariant
            lo <= i <= v.len(),
            scan_digits(whole, acc as int) == scan_digits(v@.subrange(i as int, v.len() as int), value as int),
            whole == v@.subrange(lo as int, v.len() as int),
        decreases v.len() - i,
    {
        let ghost rest = v@.subrange(i as int, v.len() as int);
        assert(rest[0] == v@[i as int]);
        assert(rest.drop_first() == v@.subrange(i + 1, v.len() as int));
        let c = v[i];
        if !('0' <= c && c <= '9') {
            return Err(IntErrorKind::InvalidDigit);
        }
        let d: u64 = ((c as u32) - ('0' as u32)) as u64;
        match value.checked_mul(10) {
            None => {
                assert(value * 10 + digit_value(c) > u64::MAX);
                return Err(IntErrorKind::PosOverflow);
            },
            Some(m) => match m.checked_add(d) {
                None => {
                    return Err(IntErrorKind::PosOverflow);
                },
                Some(next) => {
                    value = next;
                },
            },
        }
        i = i + 1;
    }
    Ok(value)
}

/// `s.parse::<u64>()`.
pub fn parse_u64(s: &Vec<char>) -> (r: Result<u64, IntErrorKind>)
    ensures
        match (r, u64_of(s@)) {
            (Ok(n), Ok(m)) => n == m,
            (Err(e), Err(e2)) => e == e2,
            _ => false,
        },
{
    if s.len() == 0 {
        return Err(IntErrorKind::Empty);
    }
    if s.len() == 1 && (s[0] == '+' || s[0] == '-') {
        return Err(IntErrorKind::InvalidDigit);
    }
    proof {
        lemma_scan_bounded(s@.drop_first(), 0);
        lemma_scan_bounded(s@, 0);
    }
    if s[0] == '+' {
        assert(s@.subrange(1, s@.len() as int) == s@.drop_first());
        scan(s, 1, 0)
    } else {
        assert(s@.subrange(0, s@.len() as int) == s@);
        scan(s, 0, 0)
    }
}

/// Whatever is read is a `u64`, and text that is not a number is refused:
/// empty text, a lone sign, or text whose first character after an
/// optional `+` is not a digit.
pub proof fn law_u64_reads_in_range(s: Seq<char>)
    ensures
        u64_of(s) matches Ok(n) ==> 0 <= n <= u64::MAX,
        s.len() == 0 ==> u64_of(s) == Err::<int, IntErrorKind>(IntErrorKind::Empty),
        s.len() > 0 && s[0] != '+' && !is_digit(s[0]) ==> u64_of(s) == Err::<int, IntErrorKind>(
            IntErrorKind::InvalidDigit,
        ),
        s.len() > 1 && s[0] == '+' && !is_digit(s[1]) ==> u64_of(s) == Err::<int, IntErrorKind>(
            IntErrorKind::InvalidDigit,
        ),
{
    lemma_scan_bounded(s, 0);
    if s.len() > 0 {
        lemma_scan_bounded(s.drop_first(), 0);
        if s.len() > 1 {
            assert(s.drop_first()[0] == s[1]);
        }
    }
}

} // verus!
