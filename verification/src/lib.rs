//! Multi-currency net-worth tracking: monthly exchange-rate reduction,
//! the finalization rule that freezes closed months, and the currency-aware
//! aggregation of ledger entries into a net-worth series.

pub mod account;
pub mod balance_sheet;
pub mod currency_exchange_sync;
pub mod currency_rates;
pub mod dates;
pub mod entry;
pub mod models;
pub mod net_worth;
pub mod onboarding;
pub mod text;
pub mod user_settings;
