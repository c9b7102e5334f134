//! The records the rate and net-worth rules read and write.

use crate::dates::Timestamp;
use vstd::prelude::*;

verus! {

/// A real-valued quantity (an amount of money or a rate) carried by the bit
/// pattern of its IEEE 754 binary64 encoding. The rules of this library move
/// quantities around and never compute with them.
#[derive(Clone, Copy, Debug, PartialEq, Eq, Structural)]
pub struct Quantity {
    pub bits: u64,
}

/// An account of the household. Its type is `"Asset"`; anything else counts
/// as a liability.
#[derive(Clone, Debug)]
pub struct Account {
    pub id: String,
    pub name: String,
    pub account_type: String,
    pub currency: String,
    pub sort_order: i32,
    pub is_archived: bool,
    pub created_at: Timestamp,
}

/// The balance sheet of one year.
#[derive(Clone, Debug)]
pub struct BalanceSheet {
    pub id: String,
    pub year: i32,
    pub created_at: Timestamp,
}

/// The balance of one account in one month of one balance sheet's year.
#[derive(Clone, Debug)]
pub struct Entry {
    pub id: String,
    pub balance_sheet_id: String,
    pub account_id: String,
    pub month: u32,
    pub amount: Quantity,
    pub updated_at: Timestamp,
}

/// A multiplier that converts one unit of `from_currency` into `to_currency`,
/// as observed for the month `(year, month)`.
#[derive(Clone, Debug)]
pub struct CurrencyRate {
    pub id: String,
    pub from_currency: String,
    pub to_currency: String,
    pub provider: String,
    pub rate: Quantity,
    pub month: u32,
    pub year: i32,
    pub timestamp: Timestamp,
}

/// The user's settings; the rules read the home currency only.
#[derive(Clone, Debug)]
pub struct UserSettings {
    pub id: String,
    pub name: String,
    pub home_currency: String,
    pub theme: String,
    pub created_at: Timestamp,
    pub updated_at: Timestamp,
}

/// Where a write goes: over the row with the given identifier, or into a new
/// row.
#[derive(Clone, Debug, PartialEq, Eq)]
pub enum WriteTarget {
    Update(String),
    Insert,
}

/// A write that names a row goes over it where the row is there; every
/// other write makes a new row.
pub open spec fn target_of(id: Option<String>, found: bool) -> WriteTarget {
    match id {
        Some(uid) => if found {
            WriteTarget::Update(uid)
        } else {
            WriteTarget::Insert
        },
        None => WriteTarget::Insert,
    }
}

/// Decides where a write goes, from the identifier it names and whether a
/// row with that identifier was found.
pub fn write_target(id: Option<String>, found: bool) -> (r: WriteTarget)
    ensures
        r == target_of(id, found),
{
    match id {
        Some(uid) => if found {
            WriteTarget::Update(uid)
        } else {
            WriteTarget::Insert
        },
        None => WriteTarget::Insert,
    }
}

/// The key under which a rate is stored: the currency pair and the month.
pub struct RateKey {
    pub from_currency: Seq<char>,
    pub to_currency: Seq<char>,
    pub year: i32,
    pub month: u32,
}

/// A `CurrencyRate` as a mathematical value.
pub struct CurrencyRateView {
    pub id: Seq<char>,
    pub from_currency: Seq<char>,
    pub to_currency: Seq<char>,
    pub provider: Seq<char>,
    pub rate: Quantity,
    pub month: u32,
    pub year: i32,
    pub timestamp: Timestamp,
}

impl View for CurrencyRate {
    type V = CurrencyRateView;

    open spec fn view(&self) -> CurrencyRateView {
        CurrencyRateView {
            id: self.id@,
            from_currency: self.from_currency@,
            to_currency: self.to_currency@,
            provider: self.provider@,
            rate: self.rate,
            month: self.month,
            year: self.year,
            timestamp: self.timestamp,
        }
    }
}

impl CurrencyRate {
    /// A copy of the rate.
    pub fn duplicate(&self) -> (r: CurrencyRate)
        ensures
            r == *self,
    {
        CurrencyRate {
            id: self.id.clone(),
            from_currency: self.from_currency.clone(),
            to_currency: self.to_currency.clone(),
            provider: self.provider.clone(),
            rate: self.rate,
            month: self.month,
            year: self.year,
            timestamp: self.timestamp,
        }
    }
}

impl CurrencyRateView {
    /// The key this rate is stored under.
    pub open spec fn key(self) -> RateKey {
        RateKey {
            from_currency: self.from_currency,
            to_currency: self.to_currency,
            year: self.year,
            month: self.month,
        }
    }
}

/// The views of a list of stored rates.
pub open spec fn row_views(rows: Seq<CurrencyRate>) -> Seq<CurrencyRateView> {
    rows.map_values(|r: CurrencyRate| r@)
}

} // verus!
