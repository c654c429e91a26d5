//! Validation and normalization of an amount against a pair of scale
//! bounds, the error type shared by the money types, and the unchecked pair
//! from which they are built.

use vstd::prelude::*;
use vstd::std_specs::cmp::PartialEqSpecImpl;
use vstd::string::StringExecFns;

use crate::amount::{
    decimal_from_str, decimal_normalize, decimal_rem, decimal_rescale, decimal_text,
    parsed_decimal, Amount,
};
use crate::currency::Currency;
use crate::decimal::{
    lemma_canonical, lemma_multiple_of_unit_by_value, lemma_negation_keeps_divisibility,
    lemma_normalized, lemma_pow10_monotone, lemma_pow10_positive, lemma_stripped_is_canonical,
    lemma_stripped_multiple_is_short, pow10, truncated_rem, DecimalValue, MAX_SCALE,
};

verus! {

/// Why a money value could not be built.
#[derive(Debug)]
pub enum MoneyError {
    /// The amount has digits finer than the scale allows. The text names
    /// the amount and the unit it is no multiple of.
    InvalidAmountError(String),
    /// The text is no decimal number.
    DecimalParseError(rust_decimal::Error),
    /// The code names no supported currency.
    InvalidCurrencyError(String),
    /// The decimal representation cannot hold a value that was asked for.
    InternalError(String),
}

/// An amount and a currency that nothing has checked against each other:
/// what arrives from outside before it becomes a money value.
#[derive(Clone, Copy, Debug)]
pub struct RawMoney {
    pub amount: Amount,
    pub currency: Currency,
}

/// Pairs are equal where the currencies are and the amounts stand for the
/// same number.
impl PartialEq for RawMoney {
    fn eq(&self, other: &RawMoney) -> (same: bool) {
        self.amount == other.amount && self.currency == other.currency
    }
}

impl PartialEqSpecImpl for RawMoney {
    open spec fn obeys_eq_spec() -> bool {
        true
    }

    open spec fn eq_spec(&self, other: &RawMoney) -> bool {
        self@.amount.same_value(other@.amount) && self@.currency == other@.currency
    }
}

impl Eq for RawMoney {

}

/// What a money value is: a decimal number and the currency it is in.
pub struct MoneyValue {
    pub amount: DecimalValue,
    pub currency: Currency,
}

impl View for RawMoney {
    type V = MoneyValue;

    open spec fn view(&self) -> MoneyValue {
        MoneyValue { amount: self.amount@, currency: self.currency }
    }
}

/// The home of the validation routine.
#[derive(Clone, Copy, Debug, PartialEq, Eq, Structural)]
pub struct MoneyUtil {}

/// What validating an amount against a minimum and a maximum scale gives.
pub enum Validation {
    /// The amount is accepted, in its normal form for the minimum scale.
    Accepted(DecimalValue),
    /// The amount is no multiple of `10^-max_scale`.
    ExcessPrecision,
    /// The normal form has more fractional digits, or a larger mantissa,
    /// than the decimal representation can hold.
    Unrepresentable,
}

/// Validation as a function: an amount that needs more than `max_scale`
/// fractional digits is refused; any other is accepted in its normal form
/// for `min_scale`, provided that form is representable.
pub open spec fn validate(amount: DecimalValue, min_scale: nat, max_scale: nat) -> Validation {
    if !amount.is_multiple_of_unit(max_scale) {
        Validation::ExcessPrecision
    } else if !amount.normalized(min_scale).representable() {
        Validation::Unrepresentable
    } else {
        Validation::Accepted(amount.normalized(min_scale))
    }
}

/// The text of the error for an amount with excess precision.
pub open spec fn excess_precision_message(amount: DecimalValue, max_scale: nat) -> Seq<char> {
    "Incorrect scale. Amount "@ + decimal_text(amount.mantissa, amount.scale)
        + " is not a factor of "@ + decimal_text(1, max_scale) + "."@
}

/// The text of the error for an amount whose normal form cannot be held.
pub open spec fn unrepresentable_message(amount: DecimalValue) -> Seq<char> {
    "Amount "@ + decimal_text(amount.mantissa, amount.scale)
        + " cannot be padded to the required scale."@
}

/// The text of the error for a numeric code that names no currency.
pub open spec fn unknown_number_message(code: Seq<char>) -> Seq<char> {
    "Given iso_4127_number "@ + code + " is invalid."@
}

/// What accepting an amount gives: the same number, in normal form for the
/// minimum scale, and with no more than `max_scale` digits where the two
/// bounds are in order.
pub proof fn lemma_accepted(amount: DecimalValue, min_scale: nat, max_scale: nat)
    requires
        validate(amount, min_scale, max_scale) is Accepted,
    ensures
        validate(amount, min_scale, max_scale)->Accepted_0.same_value(amount),
        validate(amount, min_scale, max_scale)->Accepted_0.is_normal(min_scale),
        validate(amount, min_scale, max_scale)->Accepted_0.representable(),
        min_scale <= max_scale ==> min_scale <= validate(
            amount,
            min_scale,
            max_scale,
        )->Accepted_0.scale <= max_scale,
{
    let c = amount.canonical();
    lemma_canonical(amount);
    lemma_normalized(amount, min_scale);
    lemma_multiple_of_unit_by_value(c, amount, max_scale);
    lemma_stripped_multiple_is_short(c, max_scale);
}

/// The remainder of a division by the unit `10^-unit_scale` is zero exactly
/// for the multiples of that unit.
pub proof fn lemma_remainder_by_unit(a: DecimalValue, unit_scale: nat, r: DecimalValue)
    requires
        a.has_remainder(DecimalValue { mantissa: 1, scale: unit_scale }, r),
    ensures
        r.mantissa == 0 <==> a.is_multiple_of_unit(unit_scale),
{
    let s = if a.scale >= unit_scale { a.scale } else { unit_scale };
    let x: int = a.mantissa * pow10((s - a.scale) as nat);
    let y: int = 1int * pow10((s - unit_scale) as nat);
    let t = truncated_rem(x, y);
    lemma_pow10_positive(s);
    lemma_pow10_positive(r.scale);
    lemma_pow10_positive((s - unit_scale) as nat);
    assert(r.mantissa == 0 <==> t == 0) by (nonlinear_arith)
        requires
            r.mantissa * pow10(s) == t * pow10(r.scale),
            pow10(s) >= 1,
            pow10(r.scale) >= 1,
    ;
    if a.scale <= unit_scale {
        assert(pow10(0) == 1);
        assert(y == 1);
        assert(x % 1 == 0);
        assert((-x) % 1 == 0);
    } else {
        assert(pow10(0) == 1);
        assert(a.mantissa * 1 == a.mantissa);
        assert(x == a.mantissa);
        let q = y;
        assert(q >= 1);
        lemma_negation_keeps_divisibility(x, q);
    }
}

/// Where raising the scale reaches the target, the result is the padded
/// value; where it stops short, the padded value does not fit 96 bits.
pub proof fn lemma_scaled_up_is_padded(c: DecimalValue, target: nat, r: DecimalValue)
    requires
        c.is_scaled_up_towards(target, r),
        c.scale < target,
    ensures
        r.scale == target ==> r == c.padded(target),
        r.scale < target ==> !c.padded(target).representable(),
{
    if r.scale < target {
        let magnitude = if c.mantissa < 0 { -c.mantissa } else { c.mantissa };
        let short = (r.scale - c.scale + 1) as nat;
        let full = (target - c.scale) as nat;
        lemma_pow10_monotone(short, full);
        assert(magnitude * pow10(full) >= magnitude * pow10(short)) by (nonlinear_arith)
            requires
                magnitude >= 0,
                pow10(full) >= pow10(short),
        ;
        if c.mantissa < 0 {
            assert(c.mantissa * pow10(full) == -(magnitude * pow10(full))) by (nonlinear_arith)
                requires
                    magnitude == -c.mantissa,
            ;
        }
    }
}

impl MoneyUtil {
    /// Checks that `amount` needs no more than `max_scale` fractional
    /// digits, and gives it back in normal form: trailing zeros removed,
    /// then padded with zeros up to `min_scale` digits. The value is never
    /// rounded.
    pub fn check_amount_validation(amount: Amount, min_scale: u32, max_scale: u32) -> (checked:
        Result<Amount, MoneyError>)
        ensures
            match checked {
                Ok(a) => validate(amount@, min_scale as nat, max_scale as nat)
                    == Validation::Accepted(a@),
                Err(MoneyError::InvalidAmountError(msg)) => {
                    &&& validate(amount@, min_scale as nat, max_scale as nat)
                        == Validation::ExcessPrecision
                    &&& msg@ == excess_precision_message(amount@, max_scale as nat)
                },
                Err(MoneyError::InternalError(msg)) => {
                    &&& validate(amount@, min_scale as nat, max_scale as nat)
                        == Validation::Unrepresentable
                    &&& msg@ == unrepresentable_message(amount@)
                },
                Err(_) => false,
            },
    {
        proof {
            use_type_invariant(amount);
        }
        // A unit finer than 28 digits divides every amount there is.
        if let Some(divisible_by) = Amount::new(1, max_scale) {
            let remainder = decimal_rem(amount, divisible_by);
            proof {
                lemma_remainder_by_unit(amount@, max_scale as nat, remainder@);
            }
            if !remainder.is_zero() {
                let mut msg = "Incorrect scale. Amount ".to_owned();
                msg.append(amount.to_string().as_str());
                msg.append(" is not a factor of ");
                msg.append(divisible_by.to_string().as_str());
                msg.append(".");
                return Err(MoneyError::InvalidAmountError(msg));
            }
        }
        let stripped = decimal_normalize(amount);
        proof {
            lemma_stripped_is_canonical(stripped@, amount@);
        }
        if stripped.scale() >= min_scale {
            return Ok(stripped);
        }
        if min_scale <= MAX_SCALE {
            let padded = decimal_rescale(stripped, min_scale);
            proof {
                lemma_scaled_up_is_padded(stripped@, min_scale as nat, padded@);
            }
            if padded.scale() == min_scale {
                return Ok(padded);
            }
        }
        let mut msg = "Amount ".to_owned();
        msg.append(amount.to_string().as_str());
        msg.append(" cannot be padded to the required scale.");
        Err(MoneyError::InternalError(msg))
    }
}

impl Amount {
    /// Reads an amount from a decimal literal.
    pub fn parse(text: &str) -> (parsed: Result<Amount, MoneyError>)
        ensures
            match parsed {
                Ok(a) => parsed_decimal(text@) == Some((a@.mantissa, a@.scale)),
                Err(MoneyError::DecimalParseError(_)) => parsed_decimal(text@) is None,
                Err(_) => false,
            },
    {
        match decimal_from_str(text) {
            Ok(a) => Ok(a),
            Err(e) => Err(MoneyError::DecimalParseError(e)),
        }
    }
}

} // verus!
