//! Exact decimal amounts. The arithmetic on them is done by the
//! `rust_decimal` crate; this module holds an amount as plain integers and
//! states what each of that crate's operations gives.

use vstd::prelude::*;
use vstd::std_specs::cmp::PartialEqSpecImpl;

use crate::decimal::{
    lemma_same_value_iff_same_canonical, lemma_stripped_is_canonical, DecimalValue, MAX_MANTISSA,
    MAX_SCALE,
};

verus! {

/// `rust_decimal::Error`, the error with which that crate refuses a text.
/// It is carried through unread.
#[verifier::external_type_specification]
#[verifier::external_body]
pub struct ExDecimalError(rust_decimal::Error);

/// What `rust_decimal` reads a text as: the mantissa and the scale of the
/// decimal, or `None` where it refuses the text.
pub uninterp spec fn parsed_decimal(text: Seq<char>) -> Option<(int, nat)>;

/// The text that `rust_decimal` writes for the decimal with the given
/// mantissa and scale.
pub uninterp spec fn decimal_text(mantissa: int, scale: nat) -> Seq<char>;

/// An exact decimal number: a signed mantissa of at most 96 bits and the
/// number of fractional digits, at most 28.
#[derive(Clone, Copy, Debug)]
pub struct Amount {
    mantissa: i128,
    scale: u32,
}

impl View for Amount {
    type V = DecimalValue;

    closed spec fn view(&self) -> DecimalValue {
        DecimalValue { mantissa: self.mantissa as int, scale: self.scale as nat }
    }
}

/// Amounts are equal where they stand for the same number: `1.0` equals
/// `1.00`.
impl PartialEq for Amount {
    fn eq(&self, other: &Amount) -> (same: bool) {
        proof {
            use_type_invariant(self);
            use_type_invariant(other);
        }
        let a = decimal_normalize(*self);
        let b = decimal_normalize(*other);
        proof {
            lemma_stripped_is_canonical(a@, self@);
            lemma_stripped_is_canonical(b@, other@);
            lemma_same_value_iff_same_canonical(self@, other@);
        }
        a.mantissa == b.mantissa && a.scale == b.scale
    }
}

impl PartialEqSpecImpl for Amount {
    open spec fn obeys_eq_spec() -> bool {
        true
    }

    open spec fn eq_spec(&self, other: &Amount) -> bool {
        self@.same_value(other@)
    }
}

impl Eq for Amount {

}

impl Amount {
    /// Every amount fits the decimal representation.
    #[verifier::type_invariant]
    pub open spec fn well_formed(self) -> bool {
        self@.representable()
    }

    /// The amount `mantissa / 10^scale`, or `None` where the scale is over
    /// 28 or the mantissa does not fit 96 bits.
    pub fn new(mantissa: i128, scale: u32) -> (made: Option<Amount>)
        ensures
            made is Some <==> (DecimalValue {
                mantissa: mantissa as int,
                scale: scale as nat,
            }).representable(),
            made matches Some(a) ==> a@.mantissa == mantissa && a@.scale == scale,
    {
        if scale <= MAX_SCALE && -MAX_MANTISSA <= mantissa && mantissa <= MAX_MANTISSA {
            Some(Amount { mantissa, scale })
        } else {
            None
        }
    }

    /// The digits of the amount as one signed integer.
    pub fn mantissa(&self) -> (m: i128)
        ensures
            m == self@.mantissa,
            self@.representable(),
    {
        proof {
            use_type_invariant(self);
        }
        self.mantissa
    }

    /// The number of fractional digits.
    pub fn scale(&self) -> (s: u32)
        ensures
            s == self@.scale,
            self@.representable(),
    {
        proof {
            use_type_invariant(self);
        }
        self.scale
    }

    /// Whether the amount is zero, at whatever scale.
    pub fn is_zero(&self) -> (zero: bool)
        ensures
            zero == (self@.mantissa == 0),
    {
        self.mantissa == 0
    }

    /// The amount without its sign, at the same scale.
    pub fn abs(&self) -> (r: Amount)
        ensures
            r@ == self@.magnitude(),
            r@.mantissa >= 0,
    {
        proof {
            use_type_invariant(self);
        }
        if self.mantissa < 0 {
            Amount { mantissa: -self.mantissa, scale: self.scale }
        } else {
            *self
        }
    }

    /// The amount with its sign flipped, at the same scale.
    pub fn neg(&self) -> (r: Amount)
        ensures
            r@ == self@.negated(),
    {
        proof {
            use_type_invariant(self);
        }
        Amount { mantissa: -self.mantissa, scale: self.scale }
    }

    /// The amount as text, as `rust_decimal` writes it.
    pub fn to_string(&self) -> (text: String)
        ensures
            text@ == decimal_text(self@.mantissa, self@.scale),
    {
        proof {
            use_type_invariant(self);
        }
        decimal_to_string(*self)
    }
}

/// Reads a decimal with `rust_decimal`'s `Decimal::from_str`. The result is
/// a function of the text alone, named `parsed_decimal`; whatever is read
/// has at most 28 fractional digits and a mantissa of at most 96 bits, the
/// bounds of every `Decimal`.
#[verifier::external_body]
pub(crate) fn decimal_from_str(text: &str) -> (parsed: Result<Amount, rust_decimal::Error>)
    ensures
        match parsed {
            Ok(a) => parsed_decimal(text@) == Some((a@.mantissa, a@.scale)) && a@.representable(),
            Err(_) => parsed_decimal(text@) is None,
        },
{
    match <rust_decimal::Decimal as core::str::FromStr>::from_str(text) {
        Ok(d) => Ok(Amount { mantissa: d.mantissa(), scale: d.scale() }),
        Err(e) => Err(e),
    }
}

/// Writes a decimal with `rust_decimal`'s `Display` for `Decimal`. The text
/// is a function of mantissa and scale alone, named `decimal_text`.
#[verifier::external_body]
pub(crate) fn decimal_to_string(a: Amount) -> (text: String)
    requires
        a@.representable(),
    ensures
        text@ == decimal_text(a@.mantissa, a@.scale),
{
    rust_decimal::Decimal::from_i128_with_scale(a.mantissa, a.scale).to_string()
}

/// Computes `a % b` with `rust_decimal`'s `Rem` for `Decimal`: the exact
/// remainder of the division rounded towards zero, which has the sign of
/// `a`. The operator panics on a zero divisor, which `requires` leaves out.
#[verifier::external_body]
pub(crate) fn decimal_rem(a: Amount, b: Amount) -> (r: Amount)
    requires
        a@.representable(),
        b@.representable(),
        b@.mantissa != 0,
    ensures
        a@.has_remainder(b@, r@),
        r@.representable(),
{
    let x = rust_decimal::Decimal::from_i128_with_scale(a.mantissa, a.scale);
    let y = rust_decimal::Decimal::from_i128_with_scale(b.mantissa, b.scale);
    let d = x % y;
    Amount { mantissa: d.mantissa(), scale: d.scale() }
}

/// Strips trailing zeros with `rust_decimal`'s `Decimal::normalize`: the
/// result stands for the same number, has no more fractional digits than
/// `a`, and ends in a non-zero digit unless its scale is 0. Zero comes out
/// as zero at scale 0.
#[verifier::external_body]
pub(crate) fn decimal_normalize(a: Amount) -> (r: Amount)
    requires
        a@.representable(),
    ensures
        r@.same_value(a@),
        r@.scale <= a@.scale,
        r@.is_stripped(),
        r@.representable(),
{
    let d = rust_decimal::Decimal::from_i128_with_scale(a.mantissa, a.scale).normalize();
    Amount { mantissa: d.mantissa(), scale: d.scale() }
}

/// Raises the scale with `rust_decimal`'s `Decimal::rescale`, which
/// multiplies the mantissa by ten as often as asked, or as often as the
/// product still fits 96 bits where that is less. Stated for a target that
/// is no smaller than the present scale and is at most 28.
#[verifier::external_body]
pub(crate) fn decimal_rescale(a: Amount, scale: u32) -> (r: Amount)
    requires
        a@.representable(),
        a@.scale <= scale <= MAX_SCALE,
    ensures
        a@.is_scaled_up_towards(scale as nat, r@),
        r@.representable(),
{
    let mut d = rust_decimal::Decimal::from_i128_with_scale(a.mantissa, a.scale);
    d.rescale(scale);
    Amount { mantissa: d.mantissa(), scale: d.scale() }
}

} // verus!
