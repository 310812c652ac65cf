//! Device tokens derived from hardware serial numbers.

use vstd::prelude::*;
use vstd::utf8::encode_utf8;

use crate::error::StashError;
use crate::text::{hex_encode, hex_of, is_lower_hex, lemma_hex_of_shape};

verus! {

/// A PowerShell script that prints the device token of the machine it runs on:
/// the same derivation as `device_identity`, over the serial numbers that
/// Windows reports for the baseboard, the BIOS and the operating system.
pub const DEVICE_TOKEN_POWERSHELLSCRIPT: &'static str = r#"
# This script queries WMI classes and concatenates the SerialNumber values
$wmiClasses = @("Win32_BaseBoard", "Win32_BIOS", "Win32_OperatingSystem")
$hardwareInfo = ""

foreach ($wmiClass in $wmiClasses) {
    try {
        $instances = Get-CimInstance -ClassName $wmiClass -ErrorAction SilentlyContinue
        foreach ($instance in $instances) {
            $serial = $instance.SerialNumber
            if ($serial) {
                $hardwareInfo += $serial
            }
        }
    }
    catch {
        Write-Output "Failed to query WMI class $wmiClass"        
    }
}

if ([string]::IsNullOrEmpty($hardwareInfo)) {
    Write-Output "No hardware info found."
    exit 1
}

$sha1 = [System.Security.Cryptography.SHA1]::Create()
$bytes = [System.Text.Encoding]::UTF8.GetBytes($hardwareInfo)
$hashBytes = $sha1.ComputeHash($bytes)
$deviceToken = -join ($hashBytes | ForEach-Object { $_.ToString("x2") })

Write-Output $deviceToken
"#;

/// The SHA-1 digest of a byte string.
pub uninterp spec fn sha1_of(b: Seq<u8>) -> Seq<u8>;

/// Relies on sha1::Sha1 through `Digest::digest`: the digest of the string's
/// UTF-8 bytes, twenty bytes long.
#[verifier::external_body]
fn sha1_digest(s: &str) -> (r: Vec<u8>)
    ensures
        r@ == sha1_of(encode_utf8(s@)),
        r@.len() == 20,
{
    <sha1::Sha1 as sha1::Digest>::digest(s.as_bytes()).to_vec()
}

/// The serial numbers one after another, with no separator.
pub open spec fn concat_serials(serials: Seq<Seq<char>>) -> Seq<char>
    decreases serials.len(),
{
    if serials.len() == 0 {
        seq![]
    } else {
        concat_serials(serials.drop_last()) + serials.last()
    }
}

pub open spec fn serial_views(serials: Seq<String>) -> Seq<Seq<char>> {
    serials.map_values(|s: String| s@)
}

/// The device token for a set of hardware serial numbers: the lowercase hex
/// SHA-1 digest of their concatenation, or `None` when that is empty.
pub open spec fn device_token_of(serials: Seq<Seq<char>>) -> Option<Seq<char>> {
    let joined = concat_serials(serials);
    if joined.len() == 0 {
        None
    } else {
        Some(hex_of(sha1_of(encode_utf8(joined))))
    }
}

/// Derives the device token from the serial numbers of the baseboard, the
/// BIOS and the operating-system install, in that order; empty ones add nothing.
/// The answer is `device_token_of` the serials, so equal serials always give
/// the same token.
pub fn device_identity(serials: &Vec<String>) -> (r: Result<String, StashError>)
    ensures
        match r {
            Ok(t) => device_token_of(serial_views(serials@)) == Some(t@) && t@.len() == 40
                && is_lower_hex(t@),
            Err(e) => device_token_of(serial_views(serials@)) is None && e is NoHardwareIdentity,
        },
{
    let mut joined = String::new();
    let mut i: usize = 0;
    while i < serials.len()
        invariant
            i <= serials@.len(),
            joined@ == concat_serials(serial_views(serials@.subrange(0, i as int))),
        decreases serials@.len() - i,
    {
        proof {
            let v = serial_views(serials@.subrange(0, i + 1));
            assert(v.drop_last() =~= serial_views(serials@.subrange(0, i as int)));
            assert(v.last() == serials@[i as int]@);
        }
        joined.append(serials[i].as_str());
        i = i + 1;
    }
    assert(serials@.subrange(0, serials@.len() as int) =~= serials@);
    if joined.as_str().unicode_len() == 0 {
        return Err(StashError::NoHardwareIdentity);
    }
    let digest = sha1_digest(joined.as_str());
    proof {
        lemma_hex_of_shape(digest@);
    }
    Ok(hex_encode(&digest))
}

/// Serial numbers that are all empty, or none at all, give no device token.
pub proof fn lemma_no_serials_no_token(a: Seq<Seq<char>>)
    requires
        forall|k: int| 0 <= k < a.len() ==> #[trigger] a[k].len() == 0,
    ensures
        device_token_of(a) is None,
{
    lemma_concat_empty(a);
}

proof fn lemma_concat_empty(a: Seq<Seq<char>>)
    ensures
        (forall|k: int| 0 <= k < a.len() ==> #[trigger] a[k].len() == 0) ==> concat_serials(
            a,
        ).len() == 0,
    decreases a.len(),
{
    if a.len() > 0 {
        lemma_concat_empty(a.drop_last());
        if forall|k: int| 0 <= k < a.len() ==> #[trigger] a[k].len() == 0 {
            assert forall|k: int| 0 <= k < a.drop_last().len() implies #[trigger] a.drop_last()[k].len() == 0 by {
                assert(a[k].len() == 0);
            }
            assert(a[a.len() - 1].len() == 0);
        }
    }
}

} // verus!
