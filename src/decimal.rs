//! Exact decimal numbers, as `rust_decimal` parses, rescales and prints them.
//!
//! A decimal is handled here as its mantissa `m` and scale `e`, the number
//! `m / 10^e`, with `|m| < 2^96` and `e <= 28`.
use vstd::prelude::*;
use crate::text::digits_of;

verus! {

/// The largest magnitude of a decimal's 96-bit mantissa.
pub const MAX_MANTISSA: i128 = 0xFFFF_FFFF_FFFF_FFFF_FFFF_FFFF;

/// The largest scale of a decimal.
pub const MAX_SCALE: u32 = 28;

pub open spec fn abs(m: int) -> int {
    if m < 0 {
        -m
    } else {
        m
    }
}

pub open spec fn pow10(k: nat) -> int
    decreases k,
{
    if k == 0 {
        1
    } else {
        10 * pow10((k - 1) as nat)
    }
}

/// How many of `d` multiplications by ten keep the magnitude `a` within 96 bits.
pub open spec fn upscale_steps(a: int, d: nat) -> nat
    decreases d,
{
    if d == 0 || a * 10 > MAX_MANTISSA {
        0
    } else {
        1 + upscale_steps(a * 10, (d - 1) as nat)
    }
}

/// The magnitude `a` with its last `k` digits dropped, rounded half away
/// from zero on the most significant dropped digit.
pub open spec fn drop_digits_rounded(a: int, k: nat) -> int {
    if k == 0 {
        a
    } else {
        (a / pow10((k - 1) as nat) + 5) / 10
    }
}

/// Mantissa and scale of the decimal `m / 10^e` brought to scale `s`:
/// rounded when `s < e`; when `s > e`, scaled up as far as 96 bits allow.
pub open spec fn rescaled(m: int, e: nat, s: nat) -> (int, nat) {
    if s <= e {
        let a = drop_digits_rounded(abs(m), (e - s) as nat);
        (if m < 0 {
            -a
        } else {
            a
        }, s)
    } else {
        let k = upscale_steps(abs(m), (s - e) as nat);
        (m * pow10(k), e + k)
    }
}

/// The digits of the magnitude `a` (none for zero), left-padded with zeros
/// to at least `e` places.
pub open spec fn padded_digits(a: nat, e: nat) -> Seq<char> {
    let ds = if a == 0 {
        Seq::<char>::empty()
    } else {
        digits_of(a)
    };
    if ds.len() < e {
        Seq::new((e - ds.len()) as nat, |_i: int| '0') + ds
    } else {
        ds
    }
}

/// The text of the decimal `m / 10^e`: a `-` for a negative mantissa, the
/// whole part ("0" where it is empty), then `.` and exactly `e` fraction
/// digits when `e > 0`.
pub open spec fn decimal_text(m: int, e: nat) -> Seq<char> {
    let sign = if m < 0 {
        seq!['-']
    } else {
        Seq::<char>::empty()
    };
    let ds = padded_digits(abs(m) as nat, e);
    let whole = ds.len() - e;
    if e == 0 {
        sign + (if m == 0 {
            seq!['0']
        } else {
            ds
        })
    } else {
        sign + (if whole == 0 {
            seq!['0']
        } else {
            ds.subrange(0, whole)
        }) + seq!['.'] + ds.subrange(whole, ds.len() as int)
    }
}

/// Mantissa and scale of the decimal that `rust_decimal` reads from `s`, if any.
pub uninterp spec fn decimal_parse(s: Seq<char>) -> Option<(i128, u32)>;

/// Relies on `<rust_decimal::Decimal as FromStr>::from_str`, read back through
/// `Decimal::mantissa` and `Decimal::scale`: the outcome depends on the text
/// alone, and every decimal keeps its mantissa within 96 bits and its scale
/// within 28.
#[verifier::external_body]
pub(crate) fn parse_decimal(s: &str) -> (r: Option<(i128, u32)>)
    ensures
        r == decimal_parse(s@),
        r matches Some(p) ==> p.1 <= MAX_SCALE && -MAX_MANTISSA <= p.0 <= MAX_MANTISSA,
{
    match <rust_decimal::Decimal as std::str::FromStr>::from_str(s) {
        Ok(d) => Some((d.mantissa(), d.scale())),
        Err(_) => None,
    }
}

/// Relies on `rust_decimal::Decimal::rescale`, applied to
/// `Decimal::from_i128_with_scale(m, e)` and read back through `mantissa` and
/// `scale`. `from_i128_with_scale` panics outside the bounds required here.
#[verifier::external_body]
pub(crate) fn rescale_decimal(m: i128, e: u32, s: u32) -> (r: (i128, u32))
    requires
        e <= MAX_SCALE,
        s <= MAX_SCALE,
        -MAX_MANTISSA <= m <= MAX_MANTISSA,
    ensures
        (r.0 as int, r.1 as nat) == rescaled(m as int, e as nat, s as nat),
        r.1 <= MAX_SCALE,
        -MAX_MANTISSA <= r.0 <= MAX_MANTISSA,
{
    let mut d = rust_decimal::Decimal::from_i128_with_scale(m, e);
    d.rescale(s);
    (d.mantissa(), d.scale())
}

/// Relies on `Display` of `rust_decimal::Decimal` (through `to_string`) for
/// `Decimal::from_i128_with_scale(m, e)`, which panics outside the bounds
/// required here.
#[verifier::external_body]
pub(crate) fn decimal_to_string(m: i128, e: u32) -> (r: String)
    requires
        e <= MAX_SCALE,
        -MAX_MANTISSA <= m <= MAX_MANTISSA,
    ensures
        r@ == decimal_text(m as int, e as nat),
{
    rust_decimal::Decimal::from_i128_with_scale(m, e).to_string()
}

} // verus!
