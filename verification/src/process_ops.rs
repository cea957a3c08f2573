//! Per-process metadata cleanup and termination signal choice.
//!
//! A process's display name and invocation arguments come from two
//! best-effort reads of per-process metadata files.  Callers hand in the
//! raw read results; this module trims the name, rewrites the
//! null-separated argument list into a single line, and falls back to the
//! sentinel `"Unknown"` whenever a read failed or left nothing behind.

use vstd::prelude::*;
use crate::text::{spec_trim_bytes, spec_trim_str, trim_bytes, trimmed};

verus! {

/// The bytes of the sentinel `"Unknown"`.
pub open spec fn unknown_bytes() -> Seq<u8> {
    seq![85u8, 110u8, 107u8, 110u8, 111u8, 119u8, 110u8]
}

/// The sentinel `"Unknown"` as bytes.
pub fn unknown_token() -> (r: Vec<u8>)
    ensures
        r@ == unknown_bytes(),
{
    let mut r: Vec<u8> = Vec::new();
    r.push(85);
    r.push(110);
    r.push(107);
    r.push(110);
    r.push(111);
    r.push(119);
    r.push(110);
    proof {
        assert(r@ =~= unknown_bytes());
    }
    r
}

/// An argument list with every null separator replaced by a space.
pub open spec fn spec_spaced(s: Seq<u8>) -> Seq<u8> {
    s.map_values(|b: u8| if b == 0 { 32u8 } else { b })
}

/// The cleaned command line for raw argument-list bytes: null separators
/// become spaces, the result is trimmed, and an unreadable or empty list
/// yields `"Unknown"`.
pub open spec fn spec_clean_cmdline(raw: Option<Vec<u8>>) -> Seq<u8> {
    match raw {
        Some(v) => {
            let t = spec_trim_bytes(spec_spaced(v@));
            if t.len() == 0 {
                unknown_bytes()
            } else {
                t
            }
        },
        None => unknown_bytes(),
    }
}

/// Cleans a raw argument-list read: `None` (unreadable) or a list that
/// trims to nothing yields the `"Unknown"` sentinel; otherwise the null
/// separators become spaces and the result is trimmed.
pub fn clean_cmdline(raw: &Option<Vec<u8>>) -> (r: Vec<u8>)
    ensures
        r@ == spec_clean_cmdline(*raw),
{
    match raw {
        Some(v) => {
            let n = v.len();
            let mut s: Vec<u8> = Vec::new();
            let mut i: usize = 0;
            while i < n
                invariant
                    0 <= i <= n,
                    n == v@.len(),
                    s@.len() == i,
                    forall|j: int| 0 <= j < i ==> s@[j] == (if v@[j] == 0 {
                        32u8
                    } else {
                        v@[j]
                    }),
                decreases n - i,
            {
                let b = v[i];
                if b == 0 {
                    s.push(32);
                } else {
                    s.push(b);
                }
                i = i + 1;
            }
            proof {
                assert(s@ =~= spec_spaced(v@));
            }
            let t = trim_bytes(&s);
            if t.len() == 0 {
                unknown_token()
            } else {
                t
            }
        },
        None => unknown_token(),
    }
}

/// Resolves a process's display name from a raw metadata read: the trimmed
/// text, or `"Unknown"` when the read failed.
pub fn resolve_name_text(raw: &Option<String>) -> (r: String)
    ensures
        raw matches Some(s) ==> r@ == spec_trim_str(s@),
        raw is None ==> r@ == "Unknown"@,
{
    match raw {
        Some(s) => trimmed(s.as_str()),
        None => String::from_str("Unknown"),
    }
}

/// The termination signal number a kill request dispatches: the forceful
/// variant (`SIGKILL`, 9) or the polite one (`SIGTERM`, 15).
pub fn kill_signal(forceful: bool) -> (r: i32)
    ensures
        forceful ==> r == 9,
        !forceful ==> r == 15,
{
    if forceful {
        9
    } else {
        15
    }
}

} // verus!
