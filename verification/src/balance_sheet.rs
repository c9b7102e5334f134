//! The rules of the balance sheets: there is one for a year, at most.

use crate::models::{target_of, write_target, BalanceSheet, WriteTarget};
use crate::text::{signed_decimal, signed_decimal_text};
use vstd::prelude::*;
use vstd::string::*;

verus! {

/// Why a change to the balance sheets is refused.
#[derive(Clone, Copy, Debug, PartialEq, Eq, Structural)]
pub enum BalanceSheetError {
    /// Another balance sheet is of the year already.
    YearTaken(i64),
}

/// The words for a year that has its balance sheet already.
pub open spec fn year_taken_text(year: i64) -> Seq<char> {
    "Balance sheet for year "@ + signed_decimal(year as int) + " already exists"@
}

impl BalanceSheetError {
    /// The error in words.
    pub open spec fn text(self) -> Seq<char> {
        match self {
            BalanceSheetError::YearTaken(year) => year_taken_text(year),
        }
    }

    /// The error in words.
    pub fn message(&self) -> (r: String)
        ensures
            r@ == self.text(),
    {
        match self {
            BalanceSheetError::YearTaken(year) => {
                let mut r = String::from_str("Balance sheet for year ");
                r.append(signed_decimal_text(*year).as_str());
                r.append(" already exists");
                r
            },
        }
    }
}

/// The year belongs to a balance sheet other than the one written.
pub open spec fn year_is_taken(id: Option<String>, same_year: Option<BalanceSheet>) -> bool {
    match same_year {
        Some(existing) => match id {
            Some(uid) => uid@ != existing.id@,
            None => true,
        },
        None => false,
    }
}

/// The rules for writing balance sheets.
pub struct BalanceSheetService;

impl BalanceSheetService {
    /// Decides what a write of a balance sheet does. `same_year` is the
    /// balance sheet of the year now, `found` tells whether the balance sheet
    /// `id` is there. A year that another balance sheet has is refused; the
    /// balance sheet `id` is changed where it is there; else a new one is
    /// made.
    pub fn upsert(id: Option<String>, year: i64, same_year: &Option<BalanceSheet>, found: bool) -> (r:
        Result<WriteTarget, BalanceSheetError>)
        ensures
            year_is_taken(id, *same_year) ==> r == Err::<WriteTarget, BalanceSheetError>(
                BalanceSheetError::YearTaken(year),
            ),
            !year_is_taken(id, *same_year) ==> r == Ok::<WriteTarget, BalanceSheetError>(
                target_of(id, found),
            ),
    {
        match same_year {
            Some(existing) => {
                let same_sheet = match &id {
                    Some(uid) => *uid == existing.id,
                    None => false,
                };
                if !same_sheet {
                    return Err(BalanceSheetError::YearTaken(year));
                }
            },
            None => {},
        }
        Ok(write_target(id, found))
    }

    /// The words for a write that the table refused: where the refusal is
    /// for a second balance sheet of one year, that the year has its balance
    /// sheet already; else the words of the table.
    pub fn handle_db_error(unique_violation: bool, words: String, year: i64) -> (r: String)
        ensures
            r@ == (if unique_violation {
                year_taken_text(year)
            } else {
                words@
            }),
    {
        if unique_violation {
            BalanceSheetError::YearTaken(year).message()
        } else {
            words
        }
    }
}

} // verus!
