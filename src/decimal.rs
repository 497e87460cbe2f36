//! Decimal text of unsigned integers, written and read.

use vstd::prelude::*;

verus! {

/// The decimal digits of `v`, most significant first, without leading
/// zeros (`0` is the single digit `0`).
pub open spec fn decimal(v: nat) -> Seq<u8>
    decreases v,
{
    if v < 10 {
        seq![(0x30 + v) as u8]
    } else {
        decimal(v / 10).push((0x30 + v % 10) as u8)
    }
}

/// `decimal(v)` with zeros in front up to `width` digits.
pub open spec fn decimal_padded(v: nat, width: nat) -> Seq<u8> {
    let d = decimal(v);
    if d.len() >= width {
        d
    } else {
        Seq::new((width - d.len()) as nat, |i: int| 0x30u8) + d
    }
}

/// The decimal text of a signed value: a `-` before the digits of its
/// magnitude where it is negative.
pub open spec fn signed_decimal(v: int) -> Seq<u8> {
    if v < 0 {
        seq![0x2du8] + decimal((-v) as nat)
    } else {
        decimal(v as nat)
    }
}

/// Appends the decimal digits of `v`.
pub fn push_decimal(out: &mut Vec<u8>, v: u64)
    ensures
        final(out)@ == old(out)@ + decimal(v as nat),
    decreases v,
{
    if v < 10 {
        out.push((0x30 + v) as u8);
        proof {
            assert(final(out)@ =~= old(out)@ + decimal(v as nat)) by {
                assert(decimal(v as nat) =~= seq![(0x30 + v) as u8]);
            }
        }
    } else {
        push_decimal(out, v / 10);
        let ghost mid = out@;
        out.push((0x30 + v % 10) as u8);
        proof {
            assert(decimal(v as nat) == decimal((v / 10) as nat).push((0x30 + v % 10) as u8));
            assert(out@ =~= old(out)@ + decimal(v as nat));
        }
    }
}

/// Appends the decimal digits of `v`, with zeros in front up to `width`
/// digits.
pub fn push_decimal_padded(out: &mut Vec<u8>, v: u64, width: usize)
    ensures
        final(out)@ == old(out)@ + decimal_padded(v as nat, width as nat),
{
    let mut digits: Vec<u8> = Vec::new();
    push_decimal(&mut digits, v);
    assert(digits@ =~= decimal(v as nat));
    let mut pad: usize = 0;
    if digits.len() < width {
        pad = width - digits.len();
    }
    let mut i: usize = 0;
    while i < pad
        invariant
            i <= pad,
            out@ == old(out)@ + Seq::new(i as nat, |q: int| 0x30u8),
        decreases pad - i,
    {
        out.push(0x30u8);
        i = i + 1;
        assert(out@ =~= old(out)@ + Seq::new(i as nat, |q: int| 0x30u8));
    }
    let ghost padded = out@;
    let mut j: usize = 0;
    while j < digits.len()
        invariant
            j <= digits@.len(),
            out@ == padded + digits@.subrange(0, j as int),
        decreases digits@.len() - j,
    {
        out.push(digits[j]);
        j = j + 1;
        assert(out@ =~= padded + digits@.subrange(0, j as int));
    }
    proof {
        assert(digits@.subrange(0, digits@.len() as int) =~= digits@);
        if digits@.len() >= width {
            assert(Seq::new(0nat, |q: int| 0x30u8) =~= Seq::<u8>::empty());
            assert(out@ =~= old(out)@ + decimal_padded(v as nat, width as nat));
        } else {
            assert(out@ =~= old(out)@ + decimal_padded(v as nat, width as nat));
        }
    }
}

/// Appends the decimal text of a signed value.
pub fn push_signed_decimal(out: &mut Vec<u8>, v: i64)
    ensures
        final(out)@ == old(out)@ + signed_decimal(v as int),
{
    if v < 0 {
        out.push(0x2du8);
        let mag: u64 = if v == i64::MIN { 0x8000_0000_0000_0000u64 } else { (-v) as u64 };
        push_decimal(out, mag);
        assert(out@ =~= old(out)@ + signed_decimal(v as int));
    } else {
        push_decimal(out, v as u64);
    }
}

/// Appends the decimal digits of a 128-bit `v`.
pub fn push_decimal_wide(out: &mut Vec<u8>, v: u128)
    ensures
        final(out)@ == old(out)@ + decimal(v as nat),
    decreases v,
{
    if v < 10 {
        out.push((0x30 + v) as u8);
        proof {
            assert(final(out)@ =~= old(out)@ + decimal(v as nat)) by {
                assert(decimal(v as nat) =~= seq![(0x30 + v) as u8]);
            }
        }
    } else {
        push_decimal_wide(out, v / 10);
        out.push((0x30 + v % 10) as u8);
        proof {
            assert(decimal(v as nat) == decimal((v / 10) as nat).push((0x30 + v % 10) as u8));
            assert(out@ =~= old(out)@ + decimal(v as nat));
        }
    }
}

/// Appends the decimal text of a signed 128-bit value.
pub fn push_signed_decimal_wide(out: &mut Vec<u8>, v: i128)
    ensures
        final(out)@ == old(out)@ + signed_decimal(v as int),
{
    if v < 0 {
        out.push(0x2du8);
        let mag: u128 = if v == i128::MIN { 0x8000_0000_0000_0000_0000_0000_0000_0000u128 } else { (-v) as u128 };
        push_decimal_wide(out, mag);
        assert(out@ =~= old(out)@ + signed_decimal(v as int));
    } else {
        push_decimal_wide(out, v as u128);
    }
}

/// Why a text is not an unsigned number.
#[derive(Clone, Copy, Debug, PartialEq, Eq, Structural)]
pub enum NumberError {
    /// The text holds no digit at all.
    Empty,
    /// A byte that is not a decimal digit.
    InvalidDigit,
    /// The value exceeds the largest the type holds.
    Overflow,
}

pub open spec fn is_digit(b: u8) -> bool {
    0x30 <= b <= 0x39
}

/// Reading the digits `s[0 .. n]` from the left: the value so far, or the
/// first error met; the value may not pass `max`.
pub open spec fn scan_digits(s: Seq<u8>, n: int, max: int) -> Result<int, NumberError>
    decreases n,
{
    if n <= 0 {
        Ok(0)
    } else {
        match scan_digits(s, n - 1, max) {
            Err(e) => Err(e),
            Ok(v) => if !is_digit(s[n - 1]) {
                Err(NumberError::InvalidDigit)
            } else if v * 10 + (s[n - 1] - 0x30) > max {
                Err(NumberError::Overflow)
            } else {
                Ok(v * 10 + (s[n - 1] - 0x30))
            },
        }
    }
}

/// An unsigned number in decimal, with an optional leading `+`, no larger
/// than `max`; the first error met from the left otherwise.
pub open spec fn parse_unsigned(s: Seq<u8>, max: int) -> Result<int, NumberError> {
    if s.len() == 0 {
        Err(NumberError::Empty)
    } else if s.len() == 1 && s[0] == 0x2b {
        Err(NumberError::InvalidDigit)
    } else {
        let body = if s[0] == 0x2b { s.drop_first() } else { s };
        scan_digits(body, body.len() as int, max)
    }
}

pub proof fn lemma_scan_bounded(s: Seq<u8>, n: int, max: int)
    requires
        0 <= max,
    ensures
        scan_digits(s, n, max) is Ok ==> 0 <= scan_digits(s, n, max)->Ok_0 <= max,
    decreases n,
{
    if n > 0 {
        lemma_scan_bounded(s, n - 1, max);
    }
}

/// Reads an unsigned number no larger than `max` from `s[from .. to]`.
pub fn parse_unsigned_range(s: &[u8], from: usize, to: usize, max: u64) -> (r: Result<u64, NumberError>)
    requires
        from <= to <= s@.len(),
    ensures
        match (r, parse_unsigned(s@.subrange(from as int, to as int), max as int)) {
            (Ok(a), Ok(b)) => a == b,
            (Err(a), Err(b)) => a == b,
            _ => false,
        },
{
    let ghost t = s@.subrange(from as int, to as int);
    if from == to {
        return Err(NumberError::Empty);
    }
    if to - from == 1 && s[from] == 0x2b {
        return Err(NumberError::InvalidDigit);
    }
    let start: usize = if s[from] == 0x2b { from + 1 } else { from };
    let ghost body = if t[0] == 0x2b { t.drop_first() } else { t };
    assert(t[0] == s@[from as int]);
    assert(body =~= s@.subrange(start as int, to as int));
    assert(parse_unsigned(t, max as int) == scan_digits(body, body.len() as int, max as int));
    let mut v: u64 = 0;
    let mut i: usize = start;
    while i < to
        invariant
            start <= i <= to <= s@.len(),
            body == s@.subrange(start as int, to as int),
            scan_digits(body, i - start, max as int) == Ok::<int, NumberError>(v as int),
            t == s@.subrange(from as int, to as int),
            parse_unsigned(t, max as int) == scan_digits(body, body.len() as int, max as int),
            body.len() == to - start,
            v <= max,
        decreases to - i,
    {
        let b = s[i];
        assert(body[i - start] == b);
        if b < 0x30 || b > 0x39 {
            proof {
                assert(scan_digits(body, (i - start + 1) as int, max as int) == Err::<int, NumberError>(NumberError::InvalidDigit));
                lemma_scan_prefix_err(body, (i - start + 1) as int, body.len() as int, max as int);
            }
            return Err(NumberError::InvalidDigit);
        }
        let digit: u64 = (b - 0x30) as u64;
        if digit > max || v > (max - digit) / 10 {
            proof {
                if digit <= max {
                    assert(v * 10 + digit > max) by (nonlinear_arith)
                        requires v > (max - digit) / 10, digit <= max, digit >= 0;
                }
                assert(scan_digits(body, (i - start + 1) as int, max as int) == Err::<int, NumberError>(NumberError::Overflow));
                lemma_scan_prefix_err(body, (i - start + 1) as int, body.len() as int, max as int);
            }
            return Err(NumberError::Overflow);
        }
        assert(v * 10 + digit <= max) by (nonlinear_arith)
            requires v <= (max - digit) / 10, max >= digit, digit >= 0;
        v = v * 10 + digit;
        i = i + 1;
        assert(scan_digits(body, i - start, max as int) == Ok::<int, NumberError>(v as int));
    }
    assert(body.len() == to - start);
    Ok(v)
}

proof fn lemma_scan_prefix_err(s: Seq<u8>, n: int, m: int, max: int)
    requires
        0 < n <= m,
        scan_digits(s, n, max) is Err,
    ensures
        scan_digits(s, m, max) == scan_digits(s, n, max),
    decreases m - n,
{
    if m > n {
        lemma_scan_prefix_err(s, n, m - 1, max);
    }
}

} // verus!
