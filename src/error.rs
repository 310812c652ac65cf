//! The error taxonomy reported to the user interface.

use vstd::prelude::*;

use crate::token::{account_error_message, AccountError};

verus! {

/// Every way an operation of the helper can fail.
pub enum StashError {
    /// No hardware serial number was found to derive a device token from.
    NoHardwareIdentity,
    /// The request did not reach the service or its answer was not read.
    Transport(String),
    /// The service answered, but not with a usable session token.
    Account(AccountError),
    /// The game executable could not be started.
    ProcessSpawn(String),
    /// A newly created settings file could not be written.
    SettingsIO(String),
}

pub open spec fn stash_error_message(e: StashError) -> Seq<char> {
    match e {
        StashError::NoHardwareIdentity => "No hardware info found."@,
        StashError::Transport(m) => m@,
        StashError::Account(a) => account_error_message(a),
        StashError::ProcessSpawn(m) => m@,
        StashError::SettingsIO(m) => m@,
    }
}

impl StashError {
    /// The single human-readable message handed to the user interface.
    pub fn message(&self) -> (r: String)
        ensures
            r@ == stash_error_message(*self),
    {
        match self {
            StashError::NoHardwareIdentity => String::from_str("No hardware info found."),
            StashError::Transport(m) => m.clone(),
            StashError::Account(a) => a.message(),
            StashError::ProcessSpawn(m) => m.clone(),
            StashError::SettingsIO(m) => m.clone(),
        }
    }
}

} // verus!
