//! What holds of validation and of the money types, whatever the inputs.

use vstd::prelude::*;

use crate::decimal::{
    lemma_negation_keeps_divisibility, lemma_normal_form_is_unique, lemma_normal_is_fixed,
    lemma_multiple_of_unit_by_value, DecimalValue,
};
use crate::currency::Currency;
use crate::easy_money::EasyMoney;
use crate::money::Money;
use crate::money_util::{lemma_accepted, validate, MoneyValue, Validation};

verus! {

/// Validation is idempotent: an amount that was accepted is accepted again
/// under the same bounds, and comes back unchanged.
pub proof fn lemma_validation_is_idempotent(amount: DecimalValue, min_scale: nat, max_scale: nat)
    requires
        validate(amount, min_scale, max_scale) is Accepted,
    ensures
        validate(validate(amount, min_scale, max_scale)->Accepted_0, min_scale, max_scale)
            == validate(amount, min_scale, max_scale),
{
    let accepted = validate(amount, min_scale, max_scale)->Accepted_0;
    lemma_accepted(amount, min_scale, max_scale);
    lemma_multiple_of_unit_by_value(accepted, amount, max_scale);
    lemma_normal_is_fixed(accepted, min_scale);
}

/// Validation never rounds: what is accepted stands for the number that
/// was given.
pub proof fn lemma_validation_keeps_the_value(
    amount: DecimalValue,
    min_scale: nat,
    max_scale: nat,
)
    requires
        validate(amount, min_scale, max_scale) is Accepted,
    ensures
        validate(amount, min_scale, max_scale)->Accepted_0.same_value(amount),
{
    lemma_accepted(amount, min_scale, max_scale);
}

/// Whatever amount precise money is built from, in whatever currency, the
/// amount it holds has between the currency's minor-unit scale and its
/// maximum scale fractional digits, with no trailing zero beyond the minor
/// unit.
pub proof fn lemma_precise_money_is_within_bounds(amount: DecimalValue, currency: Currency)
    requires
        validate(amount, currency.spec_minor_unit_scale(), currency.spec_max_scale())
            is Accepted,
    ensures
        ({
            let held = validate(
                amount,
                currency.spec_minor_unit_scale(),
                currency.spec_max_scale(),
            )->Accepted_0;
            &&& currency.spec_minor_unit_scale() <= held.scale <= currency.spec_max_scale()
            &&& held.scale == currency.spec_minor_unit_scale() || held.mantissa % 10 != 0
            &&& Money::valid(MoneyValue { amount: held, currency })
        }),
{
    lemma_accepted(amount, currency.spec_minor_unit_scale(), currency.spec_max_scale());
}

/// Whatever amount simple money is built from, the amount it holds has
/// exactly the minor-unit scale of its currency.
pub proof fn lemma_simple_money_has_minor_unit_scale(amount: DecimalValue, currency: Currency)
    requires
        validate(amount, currency.spec_minor_unit_scale(), currency.spec_minor_unit_scale())
            is Accepted,
    ensures
        ({
            let held = validate(
                amount,
                currency.spec_minor_unit_scale(),
                currency.spec_minor_unit_scale(),
            )->Accepted_0;
            &&& held.scale == currency.spec_minor_unit_scale()
            &&& EasyMoney::valid(MoneyValue { amount: held, currency })
        }),
{
    lemma_accepted(amount, currency.spec_minor_unit_scale(), currency.spec_minor_unit_scale());
}

/// Taking the absolute value or flipping the sign of valid precise money
/// gives valid precise money in the same currency: the first is never
/// negative, the second is the negation, and flipping twice gives the
/// money back.
pub proof fn lemma_sign_operations(m: MoneyValue)
    requires
        Money::valid(m),
    ensures
        Money::valid(MoneyValue { amount: m.amount.magnitude(), currency: m.currency }),
        Money::valid(MoneyValue { amount: m.amount.negated(), currency: m.currency }),
        m.amount.magnitude().mantissa >= 0,
        m.amount.negated().mantissa == -m.amount.mantissa,
        m.amount.negated().negated() == m.amount,
        m.amount.magnitude() == if m.amount.mantissa < 0 {
            m.amount.negated()
        } else {
            m.amount
        },
{
    lemma_negation_keeps_divisibility(m.amount.mantissa, 10);
}

/// Two valid precise money values in one currency that stand for the same
/// number hold the same amount, digit for digit.
pub proof fn lemma_valid_money_has_one_form(a: MoneyValue, b: MoneyValue)
    requires
        Money::valid(a),
        Money::valid(b),
        a.currency == b.currency,
        a.amount.same_value(b.amount),
    ensures
        a == b,
{
    lemma_normal_form_is_unique(a.amount, b.amount, a.currency.spec_minor_unit_scale());
}

} // verus!
