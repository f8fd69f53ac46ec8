//! How an attempt to remove a member from voice ended.

use vstd::prelude::*;

verus! {

/// The outcome of removing one member from voice.
#[derive(Debug, Clone, PartialEq)]
pub enum RedAlertDeportationResult {
    /// The member was disconnected.
    Deported,
    /// The member is in no voice channel of the group.
    NotFound,
    /// The platform refused; the text says why.
    Error(String),
}

impl RedAlertDeportationResult {
    /// Whether the member was disconnected.
    pub fn is_deported(&self) -> (deported: bool)
        ensures
            deported == (*self is Deported),
    {
        match self {
            RedAlertDeportationResult::Deported => true,
            RedAlertDeportationResult::NotFound | RedAlertDeportationResult::Error(_) => false,
        }
    }

    /// Whether the member was in no voice channel of the group.
    pub fn is_not_found(&self) -> (not_found: bool)
        ensures
            not_found == (*self is NotFound),
    {
        match self {
            RedAlertDeportationResult::NotFound => true,
            RedAlertDeportationResult::Deported | RedAlertDeportationResult::Error(_) => false,
        }
    }
}

} // verus!
