use rotmg_stash::device::device_identity;
use rotmg_stash::error::StashError;
use rotmg_stash::settings::{get_settings, get_settings_file_path, Settings, SettingsOrigin, StoredSettings};
use rotmg_stash::text::join;
use rotmg_stash::util::generate_hex_key;
use rotmg_stash::hex_encode;

fn is_hex(s: &str) -> bool {
    s.chars().all(|c| c.is_ascii_digit() || ('a'..='f').contains(&c))
}

#[test]
fn hex_encoding_exact() {
    assert_eq!(hex_encode(&vec![0x00, 0xff, 0x1a, 0x09]), "00ff1a09");
    assert_eq!(hex_encode(&vec![]), "");
}

#[test]
fn generated_key_shape() {
    let k = generate_hex_key(32);
    assert_eq!(k.len(), 64);
    assert!(is_hex(&k));
    assert_eq!(generate_hex_key(0), "");
    assert_ne!(generate_hex_key(32), k);
}

#[test]
fn settings_generated_when_absent() {
    let (s, origin) = get_settings(StoredSettings::Absent);
    assert_eq!(origin, SettingsOrigin::Generated);
    let key = s.secret_key.clone().unwrap();
    assert_eq!(key.len(), 64);
    assert!(is_hex(&key));
    let (again, origin2) = get_settings(StoredSettings::Parsed(s));
    assert_eq!(origin2, SettingsOrigin::Loaded);
    assert_eq!(again.secret_key, Some(key));
}

#[test]
fn settings_loaded_and_recovered() {
    let stored = Settings { secret_key: Some("k".to_string()) };
    let (s, origin) = get_settings(StoredSettings::Parsed(stored));
    assert_eq!(origin, SettingsOrigin::Loaded);
    assert_eq!(s.secret_key, Some("k".to_string()));
    let (s, origin) = get_settings(StoredSettings::Malformed);
    assert_eq!(origin, SettingsOrigin::RecoveredFromCorruption);
    assert_eq!(s.secret_key, None);
}

#[test]
fn settings_file_location() {
    assert_eq!(
        get_settings_file_path("/home/u/.local/share"),
        "/home/u/.local/share/RotMGStash/rotmg-stash-settings.json"
    );
    assert_eq!(
        get_settings_file_path("C:\\Users\\u\\AppData\\Local\\"),
        "C:\\Users\\u\\AppData\\Local\\RotMGStash/rotmg-stash-settings.json"
    );
    assert_eq!(join("", "x"), "x");
}

#[test]
fn device_identity_is_sha1_hex() {
    let serials = vec!["a".to_string(), "".to_string(), "bc".to_string()];
    let t = device_identity(&serials).ok().unwrap();
    assert_eq!(t, "a9993e364706816aba3e25717850c26c9cd0d89d");
}

#[test]
fn device_identity_is_deterministic() {
    let serials = vec!["BSN-12345".to_string(), "BIOS-678".to_string(), "OS-00331".to_string()];
    let a = device_identity(&serials).ok().unwrap();
    let b = device_identity(&serials.clone()).ok().unwrap();
    assert_eq!(a, b);
    assert_eq!(a.len(), 40);
    assert!(is_hex(&a));
}

#[test]
fn device_identity_without_serials() {
    let none = device_identity(&vec![]).err().unwrap();
    assert!(matches!(none, StashError::NoHardwareIdentity));
    assert_eq!(none.message(), "No hardware info found.");
    let empty = vec![String::new(), String::new(), String::new()];
    assert!(matches!(device_identity(&empty), Err(StashError::NoHardwareIdentity)));
}

#[test]
fn stash_error_messages() {
    assert_eq!(StashError::Transport("connection refused".to_string()).message(), "connection refused");
    assert_eq!(StashError::ProcessSpawn("not found".to_string()).message(), "not found");
    assert_eq!(StashError::SettingsIO("read-only".to_string()).message(), "read-only");
    assert_eq!(
        StashError::Account(rotmg_stash::token::AccountError::TokenNotFound).message(),
        "Access token not found in response"
    );
}
