//! Precise money: an amount held to the largest precision its currency
//! allows.

use vstd::prelude::*;
use vstd::std_specs::cmp::PartialEqSpecImpl;
use vstd::std_specs::convert::TryFromSpecImpl;
use vstd::string::StringExecFns;

use crate::amount::{parsed_decimal, Amount};
use crate::currency::Currency;
use crate::decimal::{lemma_negation_keeps_divisibility, DecimalValue};
use crate::easy_money::EasyMoney;
use crate::money_util::{
    excess_precision_message, lemma_accepted, unknown_number_message, unrepresentable_message,
    validate, MoneyError, MoneyUtil, MoneyValue, RawMoney, Validation,
};

verus! {

/// An amount of money in a currency, with between the currency's minor-unit
/// scale and its maximum scale fractional digits, and no trailing zero
/// beyond the minor unit.
#[derive(Clone, Copy, Debug)]
pub struct Money {
    amount: Amount,
    currency: Currency,
}

impl View for Money {
    type V = MoneyValue;

    closed spec fn view(&self) -> MoneyValue {
        MoneyValue { amount: self.amount@, currency: self.currency }
    }
}

/// Money is equal where the currencies are and the amounts stand for the
/// same number.
impl PartialEq for Money {
    fn eq(&self, other: &Money) -> (same: bool) {
        self.amount == other.amount && self.currency == other.currency
    }
}

impl PartialEqSpecImpl for Money {
    open spec fn obeys_eq_spec() -> bool {
        true
    }

    open spec fn eq_spec(&self, other: &Money) -> bool {
        self@.amount.same_value(other@.amount) && self@.currency == other@.currency
    }
}

impl Eq for Money {

}

impl Money {
    /// What holds of a value of precise money.
    pub open spec fn valid(v: MoneyValue) -> bool {
        &&& v.amount.representable()
        &&& v.amount.is_normal(v.currency.spec_minor_unit_scale())
        &&& v.amount.scale <= v.currency.spec_max_scale()
    }

    /// Every precise money value is valid.
    #[verifier::type_invariant]
    pub open spec fn well_formed(self) -> bool {
        Self::valid(self@)
    }

    /// `made` is what building precise money from `amount` in `currency`
    /// gives: the amount validated between the currency's minor-unit scale
    /// and its maximum scale.
    pub open spec fn creates(
        made: Result<Money, MoneyError>,
        amount: DecimalValue,
        currency: Currency,
    ) -> bool {
        let outcome = validate(
            amount,
            currency.spec_minor_unit_scale(),
            currency.spec_max_scale(),
        );
        match made {
            Ok(m) => outcome == Validation::Accepted(m@.amount) && m@.currency == currency
                && Self::valid(m@),
            Err(MoneyError::InvalidAmountError(msg)) => {
                &&& outcome == Validation::ExcessPrecision
                &&& msg@ == excess_precision_message(amount, currency.spec_max_scale())
            },
            Err(MoneyError::InternalError(msg)) => {
                &&& outcome == Validation::Unrepresentable
                &&& msg@ == unrepresentable_message(amount)
            },
            Err(_) => false,
        }
    }

    /// Builds precise money: the amount may carry up to the currency's
    /// maximum scale of fractional digits and is padded up to its
    /// minor-unit scale.
    pub fn new(amount: Amount, currency: Currency) -> (made: Result<Money, MoneyError>)
        ensures
            Self::creates(made, amount@, currency),
    {
        let min_scale: u32 = currency.minor_unit_scale();
        let max_scale: u32 = currency.max_scale();
        match MoneyUtil::check_amount_validation(amount, min_scale, max_scale) {
            Ok(checked) => {
                proof {
                    lemma_accepted(amount@, min_scale as nat, max_scale as nat);
                }
                Ok(Money { amount: checked, currency })
            },
            Err(e) => Err(e),
        }
    }

    /// Builds precise money from a decimal literal.
    pub fn from_str_amount(amount: &str, currency: Currency) -> (made: Result<Money, MoneyError>)
        ensures
            match parsed_decimal(amount@) {
                Some((mantissa, scale)) => Self::creates(
                    made,
                    DecimalValue { mantissa, scale },
                    currency,
                ),
                None => made matches Err(MoneyError::DecimalParseError(_)),
            },
    {
        match Amount::parse(amount) {
            Ok(amount) => Self::new(amount, currency),
            Err(e) => Err(e),
        }
    }

    /// Builds precise money in the currency with the given numeric ISO 4217
    /// code. An unknown code is an error.
    pub fn from_iso_4127_number(amount: Amount, iso_4127_number: &str) -> (made: Result<
        Money,
        MoneyError,
    >)
        ensures
            match Currency::spec_from_iso_4127_number(iso_4127_number@) {
                Some(currency) => Self::creates(made, amount@, currency),
                None => made matches Err(MoneyError::InvalidCurrencyError(msg)) && msg@
                    == unknown_number_message(iso_4127_number@),
            },
    {
        if let Some(currency) = Currency::from_iso_4127_number(iso_4127_number) {
            Self::new(amount, currency)
        } else {
            let mut msg = "Given iso_4127_number ".to_owned();
            msg.append(iso_4127_number);
            msg.append(" is invalid.");
            Err(MoneyError::InvalidCurrencyError(msg))
        }
    }

    /// The amount.
    pub fn amount(&self) -> (amount: Amount)
        ensures
            amount@ == self@.amount,
            Self::valid(self@),
    {
        proof {
            use_type_invariant(self);
        }
        self.amount
    }

    /// The currency.
    pub fn currency(&self) -> (currency: Currency)
        ensures
            currency == self@.currency,
    {
        self.currency
    }

    /// The same money held to the currency's minor unit. Fails where the
    /// amount has digits finer than the minor unit.
    pub fn to_simple_money(&self) -> (made: Result<EasyMoney, MoneyError>)
        ensures
            EasyMoney::creates(made, self@.amount, self@.currency),
            made is Ok <==> self@.amount.scale == self@.currency.spec_minor_unit_scale(),
            made matches Ok(simple) ==> simple@ == self@,
    {
        proof {
            use_type_invariant(self);
            EasyMoney::lemma_creation_of_valid_money(self@);
        }
        EasyMoney::new(self.amount, self.currency)
    }

    /// The same money without its sign.
    pub fn absolute(&self) -> (r: Money)
        ensures
            r@.amount == self@.amount.magnitude(),
            r@.amount.mantissa >= 0,
            r@.currency == self@.currency,
            Self::valid(r@),
    {
        proof {
            use_type_invariant(self);
            lemma_negation_keeps_divisibility(self@.amount.mantissa, 10);
        }
        Money { amount: self.amount.abs(), currency: self.currency }
    }

    /// The same money with its sign flipped.
    pub fn inverse(&self) -> (r: Money)
        ensures
            r@.amount == self@.amount.negated(),
            r@.currency == self@.currency,
            Self::valid(r@),
    {
        proof {
            use_type_invariant(self);
            lemma_negation_keeps_divisibility(self@.amount.mantissa, 10);
        }
        Money { amount: self.amount.neg(), currency: self.currency }
    }

}

/// An unchecked pair becomes precise money only through validation.
impl TryFrom<RawMoney> for Money {
    type Error = MoneyError;

    fn try_from(value: RawMoney) -> (made: Result<Money, MoneyError>)
        ensures
            Money::creates(made, value@.amount, value@.currency),
    {
        Money::new(value.amount, value.currency)
    }
}

impl TryFromSpecImpl<RawMoney> for Money {
    open spec fn obeys_try_from_spec() -> bool {
        false
    }

    open spec fn try_from_spec(v: RawMoney) -> Result<Money, MoneyError> {
        choose|made: Result<Money, MoneyError>| Money::creates(made, v@.amount, v@.currency)
    }
}

} // verus!
