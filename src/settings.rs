//! The local settings record and where it lives.

use vstd::prelude::*;

use crate::text::{is_lower_hex, join, join_path};
use crate::util::generate_hex_key;

verus! {

/// Bytes of randomness behind a generated secret key.
pub const SECRET_KEY_BYTES: usize = 32;

/// The locally stored configuration.
pub struct Settings {
    /// Used for encryption; 64 lowercase hex digits once generated.
    pub secret_key: Option<String>,
}

/// What was found at the settings location on disk.
pub enum StoredSettings {
    /// No settings file yet.
    Absent,
    /// A settings file that does not parse.
    Malformed,
    /// A settings file and the record it holds.
    Parsed(Settings),
}

/// Which way `get_settings` arrived at its answer.
#[derive(Clone, Copy, Debug, PartialEq, Eq, Structural)]
pub enum SettingsOrigin {
    Loaded,
    Generated,
    RecoveredFromCorruption,
}

pub open spec fn is_secret_key(k: Seq<char>) -> bool {
    k.len() == 2 * SECRET_KEY_BYTES && is_lower_hex(k)
}

/// What `get_settings` answers for what is on disk: an existing file is
/// authoritative, a malformed one reads as empty settings, and only a missing
/// one gets a new key.
pub open spec fn settings_outcome(stored: StoredSettings, r: (Settings, SettingsOrigin)) -> bool {
    match stored {
        StoredSettings::Parsed(s) => r.0 == s && r.1 == SettingsOrigin::Loaded,
        StoredSettings::Malformed => r.0.secret_key is None && r.1
            == SettingsOrigin::RecoveredFromCorruption,
        StoredSettings::Absent => r.1 == SettingsOrigin::Generated && r.0.secret_key is Some
            && is_secret_key(r.0.secret_key->Some_0@),
    }
}

/// The settings in effect given what is on disk; the caller stores a
/// `Generated` record.
pub fn get_settings(stored: StoredSettings) -> (r: (Settings, SettingsOrigin))
    ensures
        settings_outcome(stored, r),
{
    match stored {
        StoredSettings::Parsed(s) => (s, SettingsOrigin::Loaded),
        StoredSettings::Malformed => (
            Settings { secret_key: None },
            SettingsOrigin::RecoveredFromCorruption,
        ),
        StoredSettings::Absent => {
            let key = generate_hex_key(SECRET_KEY_BYTES);
            (Settings { secret_key: Some(key) }, SettingsOrigin::Generated)
        },
    }
}

/// Once created, settings are stable: retrieving them again after the new
/// record was stored gives the same secret key, a 64-digit hex string.
pub proof fn lemma_settings_idempotent(
    first: (Settings, SettingsOrigin),
    second: (Settings, SettingsOrigin),
)
    requires
        settings_outcome(StoredSettings::Absent, first),
        settings_outcome(StoredSettings::Parsed(first.0), second),
    ensures
        second.0.secret_key == first.0.secret_key,
        second.0.secret_key is Some,
        second.0.secret_key->Some_0@.len() == 64,
        is_lower_hex(second.0.secret_key->Some_0@),
{
}

pub open spec fn save_dir_name() -> Seq<char> {
    "RotMGStash"@
}

pub open spec fn settings_file_name() -> Seq<char> {
    "rotmg-stash-settings.json"@
}

/// The application's directory under the platform's local data directory.
pub fn get_save_file_path(data_local_dir: &str) -> (r: String)
    ensures
        r@ == join_path(data_local_dir@, save_dir_name()),
{
    join(data_local_dir, "RotMGStash")
}

/// The settings file under the platform's local data directory.
pub fn get_settings_file_path(data_local_dir: &str) -> (r: String)
    ensures
        r@ == join_path(join_path(data_local_dir@, save_dir_name()), settings_file_name()),
{
    let dir = get_save_file_path(data_local_dir);
    join(dir.as_str(), "rotmg-stash-settings.json")
}

} // verus!
