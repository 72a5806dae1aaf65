pub mod cashflow;
pub mod currency;

pub use cashflow::CashFlow;
pub use currency::Currency;
