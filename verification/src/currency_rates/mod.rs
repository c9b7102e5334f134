//! Exchange rates: what a provider observed, which observation speaks for a
//! month, which stored rates are frozen, and what a synchronization writes.

pub mod currency_rate;
pub mod monthly;
pub mod stability;
pub mod sync;
pub mod sync_frankfurter;
