//! Fixed-point decimal values as the library reads them, and the arithmetic that
//! `rust_decimal` performs on them.
//!
//! A `Dec` holds the mantissa and scale of a `rust_decimal::Decimal`: its value is
//! `mantissa / 10^scale`. Every operation converts to `Decimal`, calls the crate and
//! converts back, so results are exactly those of `rust_decimal`.

use vstd::prelude::*;
use rust_decimal::Decimal;
use crate::text::{digit_char, digits_of};

verus! {

/// Largest magnitude of a 96-bit mantissa.
pub const MAX_MANTISSA: i128 = 79228162514264337593543950335i128;

/// Largest scale a decimal may carry.
pub const MAX_SCALE: u32 = 28u32;

pub open spec fn pow10(n: nat) -> int
    decreases n,
{
    if n == 0 {
        1
    } else {
        10 * pow10((n - 1) as nat)
    }
}

/// A decimal number `mantissa / 10^scale`.
#[derive(Debug, Clone, Copy, PartialEq, Eq)]
pub struct Dec {
    pub mantissa: i128,
    pub scale: u32,
}

/// The value of a decimal counted in units of `10^-28`.
pub open spec fn units(d: Dec) -> int {
    d.mantissa * pow10((28 - d.scale) as nat)
}

/// Integers of 96 bits at most in magnitude.
pub open spec fn fits96(m: int) -> bool {
    -MAX_MANTISSA <= m <= MAX_MANTISSA
}

/// A sum or difference `u` (in units) is representable at the larger scale of its operands.
pub open spec fn fits_at_scale(u: int, scale: nat) -> bool {
    scale <= 28 && fits96(u / pow10((28 - scale) as nat))
}

pub open spec fn max_scale(a: Dec, b: Dec) -> nat {
    if a.scale >= b.scale { a.scale as nat } else { b.scale as nat }
}

impl Dec {
    /// A mantissa and scale that `rust_decimal` can hold.
    pub open spec fn wf(self) -> bool {
        self.scale <= 28 && fits96(self.mantissa as int)
    }

    /// The decimal zero.
    pub fn zero() -> (d: Dec)
        ensures
            d.wf(),
            units(d) == 0,
            d == (Dec { mantissa: 0, scale: 0 }),
    {
        Dec { mantissa: 0, scale: 0 }
    }

    /// The decimal one.
    pub fn one() -> (d: Dec)
        ensures
            d.wf(),
            units(d) == pow10(28),
            d == (Dec { mantissa: 1, scale: 0 }),
    {
        Dec { mantissa: 1, scale: 0 }
    }

    /// The integer `n` as a decimal of scale 0.
    pub fn from_i64(n: i64) -> (d: Dec)
        ensures
            d.wf(),
            d.mantissa == n,
            d.scale == 0,
            units(d) == n * pow10(28),
    {
        proof { lemma_pow10_values(); }
        Dec { mantissa: n as i128, scale: 0 }
    }

    /// Whether the mantissa and scale are ones `rust_decimal` can hold.
    pub fn is_wf(&self) -> (r: bool)
        ensures
            r == self.wf(),
    {
        self.scale <= 28 && -79228162514264337593543950335i128 <= self.mantissa && self.mantissa
            <= 79228162514264337593543950335i128
    }

    /// Builds a decimal from a mantissa and scale.
    pub fn new(mantissa: i128, scale: u32) -> (d: Dec)
        requires
            scale <= 28,
            fits96(mantissa as int),
        ensures
            d.wf(),
            d.mantissa == mantissa,
            d.scale == scale,
    {
        Dec { mantissa, scale }
    }
}

pub proof fn lemma_pow10_values()
    ensures
        pow10(0) == 1,
        pow10(1) == 10,
        pow10(2) == 100,
        pow10(3) == 1000,
        pow10(4) == 10000,
        pow10(28) == 10000000000000000000000000000int,
{
    reveal_with_fuel(pow10, 29);
}

pub proof fn lemma_pow10_positive(n: nat)
    ensures
        pow10(n) >= 1,
    decreases n,
{
    if n > 0 {
        lemma_pow10_positive((n - 1) as nat);
    }
}

/// What `Decimal::checked_add` returns for two decimals.
pub uninterp spec fn spec_checked_add(a: Dec, b: Dec) -> Option<Dec>;

/// What `Decimal::checked_sub` returns for two decimals.
pub uninterp spec fn spec_checked_sub(a: Dec, b: Dec) -> Option<Dec>;

/// What `Decimal::checked_mul` returns for two decimals.
pub uninterp spec fn spec_checked_mul(a: Dec, b: Dec) -> Option<Dec>;

/// What `Decimal::checked_div` returns for two decimals.
pub uninterp spec fn spec_checked_div(a: Dec, b: Dec) -> Option<Dec>;

/// The text that `format!("{:.2}", d)` writes for a decimal: a `-` when the mantissa is
/// negative, the digits of the whole part of the magnitude, a point, and the first two
/// digits of its fractional part (further digits are cut off, not rounded).
pub open spec fn spec_format_2dp(d: Dec) -> Seq<char> {
    let mag: int = if d.mantissa < 0 { -d.mantissa } else { d.mantissa as int };
    let p: int = pow10(d.scale as nat);
    let hundredths: nat = (((mag * 100) / p) % 100) as nat;
    (if d.mantissa < 0 { seq!['-'] } else { Seq::<char>::empty() }) + digits_of((mag / p) as nat) + seq!['.']
        + seq![digit_char(hundredths / 10), digit_char(hundredths % 10)]
}

/// What `Decimal::from_str` returns for a text.
pub uninterp spec fn spec_parse_decimal(s: Seq<char>) -> Option<Dec>;

/// `Decimal::checked_add`. Claims: the result is the crate's, any decimal it returns
/// is representable; when one operand is zero the other comes back unchanged (the
/// first one when both are); otherwise, when the exact sum fits in 96 bits at the
/// larger of the two scales, it is returned exactly, at that scale. How the crate
/// rounds a sum that does not fit is not stated.
#[verifier::external_body]
pub(crate) fn dec_checked_add(a: Dec, b: Dec) -> (r: Option<Dec>)
    requires
        a.wf(),
        b.wf(),
    ensures
        r == spec_checked_add(a, b),
        r matches Some(d) ==> d.wf(),
        a.mantissa == 0 ==> r == Some(b),
        a.mantissa != 0 && b.mantissa == 0 ==> r == Some(a),
        fits_at_scale(units(a) + units(b), max_scale(a, b)) ==> r.is_some() && units(r.unwrap())
            == units(a) + units(b) && (a.mantissa != 0 && b.mantissa != 0 ==> r.unwrap().scale == max_scale(a, b)),
{
    let x = Decimal::from_i128_with_scale(a.mantissa, a.scale);
    let y = Decimal::from_i128_with_scale(b.mantissa, b.scale);
    match x.checked_add(y) {
        Some(d) => Some(Dec { mantissa: d.mantissa(), scale: d.scale() }),
        None => None,
    }
}

/// `Decimal::checked_sub`. Claims: the result is the crate's, any decimal it returns
/// is representable; `0 - b` is `b` negated at its own scale, `a - 0` is `a`;
/// otherwise, when the exact difference fits in 96 bits at the larger of the two
/// scales, it is returned exactly, at that scale. How the crate rounds a difference
/// that does not fit is not stated.
#[verifier::external_body]
pub(crate) fn dec_checked_sub(a: Dec, b: Dec) -> (r: Option<Dec>)
    requires
        a.wf(),
        b.wf(),
    ensures
        r == spec_checked_sub(a, b),
        r matches Some(d) ==> d.wf(),
        a.mantissa == 0 ==> r == Some(Dec { mantissa: (-b.mantissa) as i128, scale: b.scale }),
        a.mantissa != 0 && b.mantissa == 0 ==> r == Some(a),
        fits_at_scale(units(a) - units(b), max_scale(a, b)) ==> r.is_some() && units(r.unwrap())
            == units(a) - units(b) && (a.mantissa != 0 && b.mantissa != 0 ==> r.unwrap().scale == max_scale(a, b)),
{
    let x = Decimal::from_i128_with_scale(a.mantissa, a.scale);
    let y = Decimal::from_i128_with_scale(b.mantissa, b.scale);
    match x.checked_sub(y) {
        Some(d) => Some(Dec { mantissa: d.mantissa(), scale: d.scale() }),
        None => None,
    }
}

/// `Decimal::checked_mul`. Claims: the result is the crate's, any decimal it returns
/// is representable, and when the scales add up to 28 at most and the product of the
/// mantissas fits in 96 bits, the product is exact at that scale. How the crate rounds
/// other products is not stated.
#[verifier::external_body]
pub(crate) fn dec_checked_mul(a: Dec, b: Dec) -> (r: Option<Dec>)
    requires
        a.wf(),
        b.wf(),
    ensures
        r == spec_checked_mul(a, b),
        r matches Some(d) ==> d.wf(),
        (a.scale + b.scale <= 28 && fits96(a.mantissa * b.mantissa)) ==> r == Some(
            Dec { mantissa: (a.mantissa * b.mantissa) as i128, scale: (a.scale + b.scale) as u32 },
        ) || (a.mantissa * b.mantissa == 0 && r == Some(Dec { mantissa: 0, scale: 0 })),
{
    let x = Decimal::from_i128_with_scale(a.mantissa, a.scale);
    let y = Decimal::from_i128_with_scale(b.mantissa, b.scale);
    match x.checked_mul(y) {
        Some(d) => Some(Dec { mantissa: d.mantissa(), scale: d.scale() }),
        None => None,
    }
}

/// The quotient of two decimals, in units, is a whole number of units that fits in 96
/// bits: it can be written exactly at scale 28.
pub open spec fn exact_quotient(a: Dec, b: Dec) -> bool {
    units(b) != 0 && (units(a) * pow10(28)) % units(b) == 0 && fits96(
        (units(a) * pow10(28)) / units(b),
    )
}

/// `Decimal::checked_div`. Claims: the result is the crate's, any decimal it returns is
/// representable, division by zero gives `None`, and a quotient that can be written
/// exactly at scale 28 is returned exactly. The rounding of other quotients is not
/// stated.
#[verifier::external_body]
pub(crate) fn dec_checked_div(a: Dec, b: Dec) -> (r: Option<Dec>)
    requires
        a.wf(),
        b.wf(),
    ensures
        r == spec_checked_div(a, b),
        r matches Some(d) ==> d.wf(),
        b.mantissa == 0 ==> r is None,
        exact_quotient(a, b) ==> r.is_some() && units(r.unwrap()) * units(b) == units(a) * pow10(
            28,
        ),
{
    let x = Decimal::from_i128_with_scale(a.mantissa, a.scale);
    let y = Decimal::from_i128_with_scale(b.mantissa, b.scale);
    match x.checked_div(y) {
        Some(d) => Some(Dec { mantissa: d.mantissa(), scale: d.scale() }),
        None => None,
    }
}

/// `<` on `Decimal`: compares the numbers that the two decimals denote.
#[verifier::external_body]
pub(crate) fn dec_lt(a: Dec, b: Dec) -> (r: bool)
    requires
        a.wf(),
        b.wf(),
    ensures
        r == (units(a) < units(b)),
{
    Decimal::from_i128_with_scale(a.mantissa, a.scale) < Decimal::from_i128_with_scale(
        b.mantissa,
        b.scale,
    )
}

/// Magnitude of `m` divided by `10^s`, rounded half to even.
pub open spec fn round_half_even_magnitude(m: nat, s: nat) -> nat {
    let p = pow10(s) as nat;
    let q = m / p;
    let r = m % p;
    if 2 * r > p || (2 * r == p && q % 2 == 1) {
        q + 1
    } else {
        q
    }
}

/// The mantissa of `Decimal::round` of a decimal, at scale 0.
pub open spec fn spec_round_mantissa(d: Dec) -> int {
    let mag = if d.mantissa < 0 { -d.mantissa } else { d.mantissa as int };
    let r = round_half_even_magnitude(mag as nat, d.scale as nat) as int;
    if d.mantissa < 0 { -r } else { r }
}

/// `Decimal::round` (half to even, to no fractional digits). Claims: the result has
/// scale 0 and its mantissa is the input rounded half to even, or the input itself
/// when its scale is already 0.
#[verifier::external_body]
pub(crate) fn dec_round(d: Dec) -> (r: Dec)
    requires
        d.wf(),
    ensures
        r.wf(),
        r.scale == 0,
        r.mantissa == spec_round_mantissa(d),
{
    let x = Decimal::from_i128_with_scale(d.mantissa, d.scale).round();
    Dec { mantissa: x.mantissa(), scale: x.scale() }
}

/// `Decimal::floor`. Claims: the result has scale 0 and its mantissa is the largest
/// integer not above the input.
#[verifier::external_body]
pub(crate) fn dec_floor(d: Dec) -> (r: Dec)
    requires
        d.wf(),
    ensures
        r.wf(),
        r.scale == 0,
        r.mantissa as int == (d.mantissa as int) / pow10(d.scale as nat),
{
    let x = Decimal::from_i128_with_scale(d.mantissa, d.scale).floor();
    Dec { mantissa: x.mantissa(), scale: x.scale() }
}

/// `format!("{:.2}", d)` for a `Decimal`. Claims: the text is the sign, the whole part,
/// a point and the first two fractional digits, cut off rather than rounded, as
/// `rust_decimal`'s `Display` writes it for a precision of 2.
#[verifier::external_body]
pub(crate) fn dec_format_2dp(d: Dec) -> (s: String)
    requires
        d.wf(),
    ensures
        s@ == spec_format_2dp(d),
{
    format!("{:.2}", Decimal::from_i128_with_scale(d.mantissa, d.scale))
}

/// `Decimal::from_str` for a text: the result is named, not stated; a decimal it
/// returns is representable.
#[verifier::external_body]
pub(crate) fn dec_parse(s: &str) -> (r: Option<Dec>)
    ensures
        r == spec_parse_decimal(s@),
        r matches Some(d) ==> d.wf(),
{
    match <Decimal as core::str::FromStr>::from_str(s) {
        Ok(d) => Some(Dec { mantissa: d.mantissa(), scale: d.scale() }),
        Err(_) => None,
    }
}

} // verus!
