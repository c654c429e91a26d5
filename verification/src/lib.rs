//! Monetary values that are exact in base ten: a closed set of currencies,
//! decimal amounts with an explicit scale, and two money types whose amounts
//! are held to the precision their currency allows.

pub mod amount;
pub mod currency;
pub mod decimal;
pub mod easy_money;
pub mod laws;
pub mod money;
pub mod money_util;
pub mod text;

pub use amount::Amount;
pub use currency::{Currency, CurrencyError};
pub use easy_money::EasyMoney;
pub use money::Money;
pub use money_util::{MoneyError, MoneyUtil, RawMoney};
