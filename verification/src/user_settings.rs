//! The rule of the settings: there is one row of them, the first.

use crate::models::{UserSettings, WriteTarget};
use vstd::prelude::*;

verus! {

/// Why the settings cannot be changed.
#[derive(Clone, Copy, Debug, PartialEq, Eq, Structural)]
pub enum SettingsError {
    /// There are no settings yet.
    NotFound,
}

impl SettingsError {
    /// The error in words.
    pub fn message(&self) -> (r: &'static str)
        ensures
            r@ == "User settings not found"@,
    {
        "User settings not found"
    }
}

/// The rules for writing the settings.
pub struct UserSettingsService;

impl UserSettingsService {
    /// Decides where the settings are written: over the first row, or into
    /// a new row where there is none.
    pub fn upsert(existing: &Vec<UserSettings>) -> (r: WriteTarget)
        ensures
            r == (if existing.len() > 0 {
                WriteTarget::Update(existing[0].id)
            } else {
                WriteTarget::Insert
            }),
    {
        if existing.len() > 0 {
            WriteTarget::Update(existing[0].id.clone())
        } else {
            WriteTarget::Insert
        }
    }

    /// The row on which the need of a synchronization is noted: the first;
    /// an error where there are no settings.
    pub fn set_exchange_sync_needed(existing: &Vec<UserSettings>) -> (r: Result<
        String,
        SettingsError,
    >)
        ensures
            r == (if existing.len() > 0 {
                Ok::<String, SettingsError>(existing[0].id)
            } else {
                Err::<String, SettingsError>(SettingsError::NotFound)
            }),
    {
        if existing.len() > 0 {
            Ok(existing[0].id.clone())
        } else {
            Err(SettingsError::NotFound)
        }
    }
}

} // verus!
