use vstd::prelude::*;
use rust_decimal::MathematicalOps;

verus! {

/// Largest mantissa magnitude that `rust_decimal::Decimal` can hold
/// (a 96-bit unsigned coefficient with a separate sign).
pub const MAX_MANTISSA: i128 = 0x0000_0000_FFFF_FFFF_FFFF_FFFF_FFFF_FFFF;

/// Largest scale (count of fractional digits) that `rust_decimal::Decimal`
/// can hold.
pub const MAX_SCALE: u32 = 28;

/// An exact base-10 fixed-point value, `mantissa / 10^scale`.
///
/// This is the library's own model of the decimal numbers the calculator
/// works on. The arithmetic itself is carried out by `rust_decimal`, whose
/// `Decimal` holds exactly the values with `wf` parts.
#[derive(Debug, PartialEq, Eq, Structural, Clone, Copy)]
pub struct Number {
    pub mantissa: i128,
    pub scale: u32,
}

impl Number {
    /// The ranges a `rust_decimal::Decimal` can represent.
    pub open spec fn wf(self) -> bool {
        &&& -MAX_MANTISSA <= self.mantissa <= MAX_MANTISSA
        &&& self.scale <= MAX_SCALE
    }

    pub open spec fn spec_is_zero(self) -> bool {
        self.mantissa == 0
    }

    /// Builds a number from its parts, refusing parts that a
    /// `rust_decimal::Decimal` could not hold.
    pub fn from_parts(mantissa: i128, scale: u32) -> (r: Option<Number>)
        ensures
            r is Some <==> (Number { mantissa, scale }).wf(),
            r is Some ==> r->0 == (Number { mantissa, scale }),
    {
        if -MAX_MANTISSA <= mantissa && mantissa <= MAX_MANTISSA && scale <= MAX_SCALE {
            Some(Number { mantissa, scale })
        } else {
            None
        }
    }

    /// A decimal is zero exactly when its mantissa is zero, whatever its scale.
    pub fn is_zero(&self) -> (r: bool)
        ensures
            r == self.spec_is_zero(),
    {
        self.mantissa == 0
    }

    /// Arithmetic negation: a decimal's mantissa carries the sign, so negation
    /// flips it and keeps the scale.
    pub fn neg(&self) -> (r: Number)
        requires
            self.wf(),
        ensures
            r == spec_neg(*self),
            r.wf(),
    {
        Number { mantissa: -self.mantissa, scale: self.scale }
    }
}

pub open spec fn spec_neg(n: Number) -> Number {
    Number { mantissa: (0 - n.mantissa) as i128, scale: n.scale }
}

pub uninterp spec fn dec_add(a: Number, b: Number) -> Option<Number>;

pub uninterp spec fn dec_sub(a: Number, b: Number) -> Option<Number>;

pub uninterp spec fn dec_mul(a: Number, b: Number) -> Option<Number>;

pub uninterp spec fn dec_div(a: Number, b: Number) -> Option<Number>;

pub uninterp spec fn dec_pow(a: Number, b: Number) -> Option<Number>;

pub uninterp spec fn dec_from_numeral(s: Seq<char>) -> Option<Number>;

pub uninterp spec fn dec_render(n: Number) -> Seq<char>;

/// Relies on `rust_decimal::Decimal::checked_add`: exact decimal addition,
/// `None` on overflow; the result is a function of the two operands alone.
#[verifier::external_body]
pub(crate) fn num_add(a: &Number, b: &Number) -> (r: Option<Number>)
    requires
        a.wf(),
        b.wf(),
    ensures
        r == dec_add(*a, *b),
        r matches Some(n) ==> n.wf(),
{
    let x = rust_decimal::Decimal::from_i128_with_scale(a.mantissa, a.scale);
    let y = rust_decimal::Decimal::from_i128_with_scale(b.mantissa, b.scale);
    x.checked_add(y).map(|d| Number { mantissa: d.mantissa(), scale: d.scale() })
}

/// Relies on `rust_decimal::Decimal::checked_sub`: exact decimal subtraction,
/// `None` on overflow; the result is a function of the two operands alone.
#[verifier::external_body]
pub(crate) fn num_sub(a: &Number, b: &Number) -> (r: Option<Number>)
    requires
        a.wf(),
        b.wf(),
    ensures
        r == dec_sub(*a, *b),
        r matches Some(n) ==> n.wf(),
{
    let x = rust_decimal::Decimal::from_i128_with_scale(a.mantissa, a.scale);
    let y = rust_decimal::Decimal::from_i128_with_scale(b.mantissa, b.scale);
    x.checked_sub(y).map(|d| Number { mantissa: d.mantissa(), scale: d.scale() })
}

/// Relies on `rust_decimal::Decimal::checked_mul`: exact decimal
/// multiplication (rounded to the representable precision), `None` on
/// overflow; the result is a function of the two operands alone.
#[verifier::external_body]
pub(crate) fn num_mul(a: &Number, b: &Number) -> (r: Option<Number>)
    requires
        a.wf(),
        b.wf(),
    ensures
        r == dec_mul(*a, *b),
        r matches Some(n) ==> n.wf(),
{
    let x = rust_decimal::Decimal::from_i128_with_scale(a.mantissa, a.scale);
    let y = rust_decimal::Decimal::from_i128_with_scale(b.mantissa, b.scale);
    x.checked_mul(y).map(|d| Number { mantissa: d.mantissa(), scale: d.scale() })
}

/// Relies on `rust_decimal::Decimal::checked_div`: decimal division rounded
/// to the representable precision, `None` on overflow or on a zero divisor;
/// the result is a function of the two operands alone.
#[verifier::external_body]
pub(crate) fn num_div(a: &Number, b: &Number) -> (r: Option<Number>)
    requires
        a.wf(),
        b.wf(),
    ensures
        r == dec_div(*a, *b),
        r matches Some(n) ==> n.wf(),
{
    let x = rust_decimal::Decimal::from_i128_with_scale(a.mantissa, a.scale);
    let y = rust_decimal::Decimal::from_i128_with_scale(b.mantissa, b.scale);
    x.checked_div(y).map(|d| Number { mantissa: d.mantissa(), scale: d.scale() })
}

/// Relies on `rust_decimal::MathematicalOps::checked_powd`: a general decimal
/// power with fractional exponents, `None` on overflow; the result is a
/// function of the two operands alone.
#[verifier::external_body]
pub(crate) fn num_pow(a: &Number, b: &Number) -> (r: Option<Number>)
    requires
        a.wf(),
        b.wf(),
    ensures
        r == dec_pow(*a, *b),
        r matches Some(n) ==> n.wf(),
{
    let x = rust_decimal::Decimal::from_i128_with_scale(a.mantissa, a.scale);
    let y = rust_decimal::Decimal::from_i128_with_scale(b.mantissa, b.scale);
    x.checked_powd(y).map(|d| Number { mantissa: d.mantissa(), scale: d.scale() })
}

/// Relies on `str::parse::<rust_decimal::Decimal>`: parses a decimal numeral,
/// failing on malformed text such as a numeral with two `.` characters; the
/// result is a function of the characters alone.
#[verifier::external_body]
pub(crate) fn num_from_chars(chars: &Vec<char>) -> (r: Option<Number>)
    ensures
        r == dec_from_numeral(chars@),
        r matches Some(n) ==> n.wf(),
{
    let text: String = chars.iter().collect();
    text.parse::<rust_decimal::Decimal>().ok().map(
        |d| Number { mantissa: d.mantissa(), scale: d.scale() },
    )
}

/// Relies on `rust_decimal::Decimal`'s `Display`: renders the exact decimal
/// value; the text is a function of mantissa and scale alone.
#[verifier::external_body]
pub(crate) fn num_to_text(n: &Number) -> (r: String)
    requires
        n.wf(),
    ensures
        r@ == dec_render(*n),
{
    format!("{}", rust_decimal::Decimal::from_i128_with_scale(n.mantissa, n.scale))
}

} // verus!
