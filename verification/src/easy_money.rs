//! Simple money: an amount held to exactly the minor unit of its currency.

use vstd::prelude::*;
use vstd::std_specs::cmp::PartialEqSpecImpl;
use vstd::std_specs::convert::TryFromSpecImpl;

use crate::amount::{parsed_decimal, Amount};
use crate::currency::Currency;
use crate::decimal::{
    lemma_multiple_of_power_ends_in_zero, lemma_normal_is_fixed, DecimalValue,
};
use crate::money::Money;
use crate::money_util::{
    excess_precision_message, lemma_accepted, unrepresentable_message, validate, MoneyError,
    MoneyUtil, MoneyValue, RawMoney, Validation,
};

verus! {

/// An amount of money in a currency, with exactly as many fractional digits
/// as the currency's minor unit has.
#[derive(Clone, Copy, Debug)]
pub struct EasyMoney {
    amount: Amount,
    currency: Currency,
}

impl View for EasyMoney {
    type V = MoneyValue;

    closed spec fn view(&self) -> MoneyValue {
        MoneyValue { amount: self.amount@, currency: self.currency }
    }
}

/// Money is equal where the currencies are and the amounts stand for the
/// same number.
impl PartialEq for EasyMoney {
    fn eq(&self, other: &EasyMoney) -> (same: bool) {
        self.amount == other.amount && self.currency == other.currency
    }
}

impl PartialEqSpecImpl for EasyMoney {
    open spec fn obeys_eq_spec() -> bool {
        true
    }

    open spec fn eq_spec(&self, other: &EasyMoney) -> bool {
        self@.amount.same_value(other@.amount) && self@.currency == other@.currency
    }
}

impl Eq for EasyMoney {

}

impl EasyMoney {
    /// What holds of a value of simple money.
    pub open spec fn valid(v: MoneyValue) -> bool {
        &&& v.amount.representable()
        &&& v.amount.scale == v.currency.spec_minor_unit_scale()
    }

    /// Every simple money value is valid.
    #[verifier::type_invariant]
    pub open spec fn well_formed(self) -> bool {
        Self::valid(self@)
    }

    /// `made` is what building simple money from `amount` in `currency`
    /// gives: the amount validated with the currency's minor-unit scale as
    /// both bounds.
    pub open spec fn creates(
        made: Result<EasyMoney, MoneyError>,
        amount: DecimalValue,
        currency: Currency,
    ) -> bool {
        let outcome = validate(
            amount,
            currency.spec_minor_unit_scale(),
            currency.spec_minor_unit_scale(),
        );
        match made {
            Ok(m) => outcome == Validation::Accepted(m@.amount) && m@.currency == currency
                && Self::valid(m@),
            Err(MoneyError::InvalidAmountError(msg)) => {
                &&& outcome == Validation::ExcessPrecision
                &&& msg@ == excess_precision_message(amount, currency.spec_minor_unit_scale())
            },
            Err(MoneyError::InternalError(msg)) => {
                &&& outcome == Validation::Unrepresentable
                &&& msg@ == unrepresentable_message(amount)
            },
            Err(_) => false,
        }
    }

    /// Builds simple money: the amount may carry no digit finer than the
    /// currency's minor unit and is padded up to it.
    pub fn new(amount: Amount, currency: Currency) -> (made: Result<EasyMoney, MoneyError>)
        ensures
            Self::creates(made, amount@, currency),
    {
        let scale: u32 = currency.minor_unit_scale();
        match MoneyUtil::check_amount_validation(amount, scale, scale) {
            Ok(checked) => {
                proof {
                    lemma_accepted(amount@, scale as nat, scale as nat);
                }
                Ok(EasyMoney { amount: checked, currency })
            },
            Err(e) => Err(e),
        }
    }

    /// Builds simple money from a decimal literal.
    pub fn from_str_amount(amount: &str, currency: Currency) -> (made: Result<
        EasyMoney,
        MoneyError,
    >)
        ensures
            match parsed_decimal(amount@) {
                Some((mantissa, scale)) => Self::creates(
                    made,
                    DecimalValue { mantissa, scale },
                    currency,
                ),
                None => made matches Err(MoneyError::DecimalParseError(_)),
            },
    {
        match Amount::parse(amount) {
            Ok(amount) => Self::new(amount, currency),
            Err(e) => Err(e),
        }
    }

    /// The amount.
    pub fn amount(&self) -> (amount: Amount)
        ensures
            amount@ == self@.amount,
            Self::valid(self@),
    {
        proof {
            use_type_invariant(self);
        }
        self.amount
    }

    /// The currency.
    pub fn currency(&self) -> (currency: Currency)
        ensures
            currency == self@.currency,
    {
        self.currency
    }

    /// Valid precise money becomes simple money exactly where its amount
    /// has the minor unit's scale, and then the amount stays as it is.
    pub proof fn lemma_creation_of_valid_money(v: MoneyValue)
        requires
            Money::valid(v),
        ensures
            validate(
                v.amount,
                v.currency.spec_minor_unit_scale(),
                v.currency.spec_minor_unit_scale(),
            ) == if v.amount.scale == v.currency.spec_minor_unit_scale() {
                Validation::Accepted(v.amount)
            } else {
                Validation::ExcessPrecision
            },
    {
        let minor = v.currency.spec_minor_unit_scale();
        if v.amount.scale == minor {
            lemma_normal_is_fixed(v.amount, minor);
        } else {
            if v.amount.is_multiple_of_unit(minor) {
                lemma_multiple_of_power_ends_in_zero(
                    v.amount.mantissa,
                    (v.amount.scale - minor) as nat,
                );
            }
        }
    }
}

/// Precise money becomes simple money where its amount has no digit finer
/// than the minor unit.
impl TryFrom<Money> for EasyMoney {
    type Error = MoneyError;

    fn try_from(value: Money) -> (made: Result<EasyMoney, MoneyError>)
        ensures
            EasyMoney::creates(made, value@.amount, value@.currency),
            made is Ok <==> value@.amount.scale == value@.currency.spec_minor_unit_scale(),
            made matches Ok(simple) ==> simple@ == value@,
    {
        value.to_simple_money()
    }
}

impl TryFromSpecImpl<Money> for EasyMoney {
    open spec fn obeys_try_from_spec() -> bool {
        false
    }

    open spec fn try_from_spec(v: Money) -> Result<EasyMoney, MoneyError> {
        choose|made: Result<EasyMoney, MoneyError>|
            EasyMoney::creates(made, v@.amount, v@.currency)
    }
}

/// An unchecked pair becomes simple money only through validation.
impl TryFrom<RawMoney> for EasyMoney {
    type Error = MoneyError;

    fn try_from(value: RawMoney) -> (made: Result<EasyMoney, MoneyError>)
        ensures
            EasyMoney::creates(made, value@.amount, value@.currency),
    {
        EasyMoney::new(value.amount, value.currency)
    }
}

impl TryFromSpecImpl<RawMoney> for EasyMoney {
    open spec fn obeys_try_from_spec() -> bool {
        false
    }

    open spec fn try_from_spec(v: RawMoney) -> Result<EasyMoney, MoneyError> {
        choose|made: Result<EasyMoney, MoneyError>|
            EasyMoney::creates(made, v@.amount, v@.currency)
    }
}

} // verus!
