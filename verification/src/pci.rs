//! Device discovery and runtime power state handling.
//!
//! The monitored accelerator is found among the system's device entries by
//! its vendor identifier, and its power posture lives in two flat attribute
//! files: a status file (`active`, `suspended`, or other) and a control
//! file (`auto`, `on`).  Callers perform the reads and writes; this module
//! holds the selection rule, the normalization of raw attribute text, and
//! the classification of write failures.

use vstd::prelude::*;
use crate::text::{spec_trim_str, str_eq, trimmed};

verus! {

/// Vendor identifier that marks the monitored accelerator's device entry.
pub open spec fn spec_target_vendor() -> Seq<char> {
    "0x10de"@
}

/// Errors from device discovery and control-file writes.
#[derive(Debug)]
pub enum PciError {
    /// No device entry carries the target vendor identifier.
    NotFound,
    /// A control-file write was rejected for lack of privilege; holds the path.
    PermissionDenied(String),
    /// Any other I/O failure; holds the underlying error text.
    IoError(String),
}

/// The monitored accelerator, fixed at discovery.
pub struct PciDevice {
    /// Path of the device's own directory.
    pub address_path: String,
}

/// One enumerated device entry: its directory path and the content of its
/// vendor identifier file, absent when that file could not be read.
pub struct DeviceEntry {
    pub path: String,
    pub vendor: Option<String>,
}

/// Whether a vendor file's raw content identifies the target device.
pub open spec fn spec_vendor_matches(vendor: Option<String>) -> bool {
    match vendor {
        Some(s) => spec_trim_str(s@) == spec_target_vendor(),
        None => false,
    }
}

/// Whether raw vendor file content, trimmed, equals the target identifier.
/// An unreadable vendor file never matches.
pub fn vendor_matches(vendor: &Option<String>) -> (r: bool)
    ensures
        r == spec_vendor_matches(*vendor),
{
    match vendor {
        Some(s) => {
            let t = trimmed(s.as_str());
            str_eq(&t, "0x10de")
        },
        None => false,
    }
}

impl PciError {
    /// Human-readable description of the error.
    pub fn message(&self) -> (r: String)
        ensures
            self is NotFound ==> r@ == "NVIDIA PCI device not found"@,
            forall|p: String| *self == PciError::PermissionDenied(p) ==> r@
                == "Permission denied accessing "@ + p@,
            forall|m: String| *self == PciError::IoError(m) ==> r@ == "IO Error: "@ + m@,
    {
        match self {
            PciError::NotFound => String::from_str("NVIDIA PCI device not found"),
            PciError::PermissionDenied(p) => String::from_str("Permission denied accessing ").concat(
                p.as_str(),
            ),
            PciError::IoError(m) => String::from_str("IO Error: ").concat(m.as_str()),
        }
    }
}

impl PciDevice {
    /// Selects the monitored device from enumerated entries: the first whose
    /// vendor file content, trimmed, equals the target identifier.  Fails
    /// with [`PciError::NotFound`] when no entry matches.
    pub fn select_device(entries: Vec<DeviceEntry>) -> (r: Result<PciDevice, PciError>)
        ensures
            r matches Ok(d) ==> exists|i: int|
                0 <= i < entries@.len() && spec_vendor_matches(#[trigger] entries@[i].vendor)
                    && d.address_path == entries@[i].path && forall|j: int|
                    0 <= j < i ==> !spec_vendor_matches(#[trigger] entries@[j].vendor),
            r matches Err(e) ==> e is NotFound && forall|i: int|
                0 <= i < entries@.len() ==> !spec_vendor_matches(#[trigger] entries@[i].vendor),
    {
        let n = entries.len();
        let mut i: usize = 0;
        while i < n
            invariant
                0 <= i <= n,
                n == entries@.len(),
                forall|j: int| 0 <= j < i ==> !spec_vendor_matches(#[trigger] entries@[j].vendor),
            decreases n - i,
        {
            if vendor_matches(&entries[i].vendor) {
                let entry = &entries[i];
                return Ok(PciDevice { address_path: entry.path.clone() });
            }
            i = i + 1;
        }
        Err(PciError::NotFound)
    }
}

/// Normalizes raw attribute file content: the trimmed text when the read
/// succeeded, the sentinel `"unknown"` when it failed.  A read failure is
/// never surfaced as an error, so polling cannot stall on it.
pub fn normalize_attribute(raw: &Option<String>) -> (r: String)
    ensures
        raw matches Some(s) ==> r@ == spec_trim_str(s@),
        raw is None ==> r@ == "unknown"@,
{
    match raw {
        Some(s) => trimmed(s.as_str()),
        None => String::from_str("unknown"),
    }
}

/// Whether a normalized status string gates telemetry on.
pub open spec fn spec_is_active(status: Seq<char>) -> bool {
    status == "active"@
}

/// Whether the device's normalized power status reads `active`.
pub fn is_active_status(status: &String) -> (r: bool)
    ensures
        r == spec_is_active(status@),
{
    str_eq(status, "active")
}

/// Classifies a failed control-file write: lack of privilege becomes
/// [`PciError::PermissionDenied`] carrying the control file's path, any
/// other failure becomes [`PciError::IoError`] carrying the error text.
pub fn classify_write_error(permission_denied: bool, path: String, message: String) -> (r:
    PciError)
    ensures
        permission_denied ==> r == PciError::PermissionDenied(path),
        !permission_denied ==> r == PciError::IoError(message),
{
    if permission_denied {
        PciError::PermissionDenied(path)
    } else {
        PciError::IoError(message)
    }
}

} // verus!
