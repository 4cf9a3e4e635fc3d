//! Where the log file lives.
//!
//! The surrounding program reads the environment and probes the
//! filesystem; which of the candidate paths wins is decided here, in a
//! fixed precedence: an explicit override, then a writable portable
//! location next to the executable, then the per-user application data
//! location, then the system temporary directory.

use vstd::prelude::*;

verus! {

/// The resolved log path for one set of candidates.
pub open spec fn sp_log_path(
    override_path: Option<Seq<u8>>,
    portable: Option<Seq<u8>>,
    appdata: Option<Seq<u8>>,
    temp_default: Seq<u8>,
) -> Seq<u8> {
    match override_path {
        Some(p) => p,
        None => match portable {
            Some(p) => p,
            None => match appdata {
                Some(p) => p,
                None => temp_default,
            },
        },
    }
}

/// Picks the log path: the explicit override wins, then the portable
/// location (when present and writable), then the per-user data location,
/// then the temporary directory.
pub fn log_path(
    override_path: Option<Vec<u8>>,
    portable: Option<Vec<u8>>,
    appdata: Option<Vec<u8>>,
    temp_default: Vec<u8>,
) -> (r: Vec<u8>)
    ensures
        r@ == sp_log_path(
            match override_path {
                Some(p) => Some(p@),
                None => None,
            },
            match portable {
                Some(p) => Some(p@),
                None => None,
            },
            match appdata {
                Some(p) => Some(p@),
                None => None,
            },
            temp_default@,
        ),
{
    match override_path {
        Some(p) => p,
        None => match portable {
            Some(p) => p,
            None => match appdata {
                Some(p) => p,
                None => temp_default,
            },
        },
    }
}

} // verus!
