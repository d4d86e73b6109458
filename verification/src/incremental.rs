//! Change detection: decide whether a file must be rescanned, given the
//! modification time stored in the index and the live modification time.

use vstd::prelude::*;

verus! {

/// What the change detector answers: a file with no stored record is new and
/// must be processed; otherwise it is rescanned exactly when the live
/// modification time is strictly later than the stored one (the stored value
/// is reconstructed as an unsigned count of seconds, as the index store
/// wrote it). Equal times mean "unchanged".
pub open spec fn rescan_needed(stored_modified: Option<i64>, current_secs: u64) -> bool {
    match stored_modified {
        None => true,
        Some(m) => current_secs > m as u64,
    }
}

/// Check if a file needs to be rescanned based on its modification time.
///
/// `stored_modified` is the `modified` column of the file's record in the
/// index store, if a record for its path exists; `current_secs` is the live
/// modification time in seconds since the Unix epoch.
pub fn needs_rescan(stored_modified: Option<i64>, current_secs: u64) -> (r: bool)
    ensures
        r == rescan_needed(stored_modified, current_secs),
{
    match stored_modified {
        None => true,
        Some(m) => {
            let stored: u64 = #[verifier::truncate] (m as u64);
            current_secs > stored
        },
    }
}

} // verus!
