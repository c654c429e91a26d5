//! The supported currencies and their fixed ISO 4217 data.

use vstd::prelude::*;

use crate::text::str_equals;

verus! {

/// A supported currency.
#[derive(Clone, Copy, Debug, PartialEq, Eq, Hash, Structural)]
pub enum Currency {
    EUR,
    USD,
}

/// Why a text could not be read as a currency.
#[derive(Clone, Copy, Debug, PartialEq, Eq, Structural)]
pub enum CurrencyError {
    /// The text is the code of no supported currency.
    InvalidCurrency,
}

impl Default for Currency {
    /// The currency used where none is named: the US dollar.
    fn default() -> (c: Currency)
        ensures
            c == Currency::USD,
    {
        Currency::USD
    }
}

impl Currency {
    /// The alphabetic ISO 4217 code of each currency.
    pub open spec fn spec_code(self) -> Seq<char> {
        match self {
            Currency::EUR => "EUR"@,
            Currency::USD => "USD"@,
        }
    }

    /// The numeric ISO 4217 code of each currency, as text.
    pub open spec fn spec_iso_4127_num(self) -> Seq<char> {
        match self {
            Currency::EUR => "978"@,
            Currency::USD => "840"@,
        }
    }

    /// The number of fractional digits of the currency's minor unit.
    pub open spec fn spec_minor_unit_scale(self) -> nat {
        match self {
            Currency::EUR => 2,
            Currency::USD => 2,
        }
    }

    /// The largest number of fractional digits accepted for any currency.
    pub open spec fn spec_max_scale(self) -> nat {
        10
    }

    /// The display symbol of each currency.
    pub open spec fn spec_prefix(self) -> Seq<char> {
        match self {
            Currency::EUR => "\u{20ac}"@,
            Currency::USD => "$"@,
        }
    }

    /// The currency with the given alphabetic code, if there is one.
    /// The match is exact and case-sensitive.
    pub open spec fn spec_from_code(code: Seq<char>) -> Option<Currency> {
        if code == "EUR"@ {
            Some(Currency::EUR)
        } else if code == "USD"@ {
            Some(Currency::USD)
        } else {
            None
        }
    }

    /// The currency with the given numeric code, if there is one.
    pub open spec fn spec_from_iso_4127_number(code: Seq<char>) -> Option<Currency> {
        if code == "978"@ {
            Some(Currency::EUR)
        } else if code == "840"@ {
            Some(Currency::USD)
        } else {
            None
        }
    }

    /// The three-letter ISO 4217 code.
    pub fn code(&self) -> (code: &str)
        ensures
            code@ == self.spec_code(),
    {
        match self {
            Currency::EUR => "EUR",
            Currency::USD => "USD",
        }
    }

    /// Looks a currency up by its three-letter code. An unknown code gives
    /// `None`.
    pub fn from_code(code: &str) -> (found: Option<Currency>)
        ensures
            found == Self::spec_from_code(code@),
    {
        if str_equals(code, "EUR") {
            Some(Currency::EUR)
        } else if str_equals(code, "USD") {
            Some(Currency::USD)
        } else {
            None
        }
    }

    /// Looks a currency up by its numeric ISO 4217 code. An unknown code
    /// gives `None`.
    pub fn from_iso_4127_number(code: &str) -> (found: Option<Currency>)
        ensures
            found == Self::spec_from_iso_4127_number(code@),
    {
        if str_equals(code, "978") {
            Some(Currency::EUR)
        } else if str_equals(code, "840") {
            Some(Currency::USD)
        } else {
            None
        }
    }

    /// The numeric ISO 4217 code, as text.
    pub fn iso_4127_num(&self) -> (code: &str)
        ensures
            code@ == self.spec_iso_4127_num(),
    {
        match self {
            Currency::EUR => "978",
            Currency::USD => "840",
        }
    }

    /// The number of fractional digits of the minor unit.
    pub fn minor_unit_scale(&self) -> (scale: u32)
        ensures
            scale == self.spec_minor_unit_scale(),
    {
        match self {
            Currency::EUR => 2,
            Currency::USD => 2,
        }
    }

    /// The largest number of fractional digits accepted for this currency.
    pub fn max_scale(&self) -> (scale: u32)
        ensures
            scale == self.spec_max_scale(),
            self.spec_minor_unit_scale() <= scale,
    {
        10
    }

    /// The display symbol.
    pub fn to_prefix(&self) -> (prefix: &str)
        ensures
            prefix@ == self.spec_prefix(),
    {
        match self {
            Currency::EUR => "\u{20ac}",
            Currency::USD => "$",
        }
    }

    /// Reads a currency from its three-letter code.
    pub fn from_str(s: &str) -> (parsed: Result<Currency, CurrencyError>)
        ensures
            parsed == match Self::spec_from_code(s@) {
                Some(c) => Ok::<Currency, CurrencyError>(c),
                None => Err(CurrencyError::InvalidCurrency),
            },
    {
        match Self::from_code(s) {
            Some(c) => Ok(c),
            None => Err(CurrencyError::InvalidCurrency),
        }
    }

    /// Every currency is found again by its own alphabetic code.
    pub proof fn lemma_code_round_trip(c: Currency)
        ensures
            Self::spec_from_code(c.spec_code()) == Some(c),
    {
        reveal_strlit("EUR");
        reveal_strlit("USD");
        assert("USD"@[0] != "EUR"@[0]);
    }

    /// Every currency is found again by its own numeric code.
    pub proof fn lemma_numeric_code_round_trip(c: Currency)
        ensures
            Self::spec_from_iso_4127_number(c.spec_iso_4127_num()) == Some(c),
    {
        reveal_strlit("978");
        reveal_strlit("840");
        assert("840"@[0] != "978"@[0]);
    }

    /// A code names at most one currency, and that currency carries it.
    pub proof fn lemma_lookup_is_exact(code: Seq<char>, c: Currency)
        ensures
            Self::spec_from_code(code) == Some(c) <==> code == c.spec_code(),
            Self::spec_from_iso_4127_number(code) == Some(c) <==> code == c.spec_iso_4127_num(),
    {
        Self::lemma_code_round_trip(c);
        Self::lemma_numeric_code_round_trip(c);
    }
}

} // verus!
