//! The rule of the entries: an account has one balance for a month of a
//! balance sheet.

use crate::models::{Entry, WriteTarget};
use vstd::prelude::*;

verus! {

/// The rule for writing entries.
pub struct EntryService;

impl EntryService {
    /// Decides where the balance of an account for a month goes: over the
    /// entry that holds it now, or into a new entry.
    pub fn upsert(existing: &Option<Entry>) -> (r: WriteTarget)
        ensures
            r == (match *existing {
                Some(entry) => WriteTarget::Update(entry.id),
                None => WriteTarget::Insert,
            }),
    {
        match existing {
            Some(entry) => WriteTarget::Update(entry.id.clone()),
            None => WriteTarget::Insert,
        }
    }
}

} // verus!
