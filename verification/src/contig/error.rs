//! Errors of the contiguity engine.
//!
//! Deliberately narrow: these describe properties of a *file on a filesystem*,
//! not of any particular file format.

use vstd::prelude::*;

use crate::text::{dec, decimal};

verus! {

/// A physically contiguous run of a file, as reported by the extent map.
#[derive(Debug, Clone, Copy, PartialEq, Eq, Structural)]
pub struct Run {
    pub logical: u64,
    pub physical: u64,
    pub length: u64,
}

#[derive(Debug)]
pub enum Error {
    /// A read or a write failed; `source` is what the system said about it.
    Io { path: String, source: String },
    Allocation { path: String, requested: u64, reason: String },
    Fragmented {
        path: String,
        runs: Vec<Run>,
        free_bytes: Option<u64>,
        largest_free_run: Option<u64>,
    },
    Sparse { path: String, allocated: u64, expected: u64 },
    Uninitialized { path: String },
    Compressed { path: String },
    Unverifiable { path: String, reason: String },
    /// The device is not a legible NTFS volume. Distinct from `Io`: the read
    /// succeeded, but what came back could not be interpreted.
    VolumeUnreadable { path: String, reason: String },
}

pub type Result<T> = std::result::Result<T, Error>;

/// The text that an error is reported with.
pub open spec fn message_text(e: Error) -> Seq<char> {
    match e {
        Error::Io { path, source } => path@ + ": "@ + source@,
        Error::Allocation { path, requested, reason } => "could not allocate "@ + decimal(
            requested as nat,
        ) + " bytes for "@ + path@ + ": "@ + reason@,
        Error::Fragmented { path, runs, .. } => path@ + " occupies "@ + decimal(runs@.len())
            + " extents, not 1"@,
        Error::Sparse { path, allocated, expected } => path@ + " is not fully allocated: "@
            + decimal(allocated as nat) + " bytes allocated, "@ + decimal(expected as nat)
            + " required"@,
        Error::Uninitialized { path } => path@
            + " contains uninitialized extents; the data region was never written"@,
        Error::Compressed { path } => path@
            + " is NTFS-compressed; fixed allocation cannot be guaranteed"@,
        Error::Unverifiable { path, reason } => "could not verify contiguity of "@ + path@ + ": "@
            + reason@,
        Error::VolumeUnreadable { path, reason } => "could not read NTFS volume state from "@
            + path@ + ": "@ + reason@,
    }
}

/// The exit code of each error. Codes agree with `crate::error` for the
/// properties the two share.
pub open spec fn code_of(e: Error) -> u8 {
    match e {
        Error::Io { .. } => 1,
        Error::Allocation { .. } => 3,
        Error::Fragmented { .. } => 4,
        Error::Sparse { .. } => 5,
        Error::Uninitialized { .. } => 5,
        Error::Compressed { .. } => 6,
        Error::Unverifiable { .. } => 8,
        Error::VolumeUnreadable { .. } => 8,
    }
}

/// Exit codes match `iodd`'s for the properties the two share, so scripts can
/// treat them interchangeably.
pub fn exit_code(err: &Error) -> (code: u8)
    ensures
        code == code_of(*err),
{
    match err {
        Error::Io { .. } => 1,
        Error::Allocation { .. } => 3,
        Error::Fragmented { .. } => 4,
        Error::Sparse { .. } | Error::Uninitialized { .. } => 5,
        Error::Compressed { .. } => 6,
        // Both mean "the question could not be answered", not "the answer is no".
        Error::Unverifiable { .. } | Error::VolumeUnreadable { .. } => 8,
    }
}

impl Error {
    /// The message shown to the operator.
    pub fn message(&self) -> (m: String)
        ensures
            m@ == message_text(*self),
    {
        match self {
            Error::Io { path, source } => {
                let mut m = path.clone();
                m.append(": ");
                m.append(source.as_str());
                m
            },
            Error::Allocation { path, requested, reason } => {
                let mut m = "could not allocate ".to_owned();
                m.append(dec(*requested).as_str());
                m.append(" bytes for ");
                m.append(path.as_str());
                m.append(": ");
                m.append(reason.as_str());
                m
            },
            Error::Fragmented { path, runs, .. } => {
                let mut m = path.clone();
                m.append(" occupies ");
                m.append(dec(runs.len() as u64).as_str());
                m.append(" extents, not 1");
                m
            },
            Error::Sparse { path, allocated, expected } => {
                let mut m = path.clone();
                m.append(" is not fully allocated: ");
                m.append(dec(*allocated).as_str());
                m.append(" bytes allocated, ");
                m.append(dec(*expected).as_str());
                m.append(" required");
                m
            },
            Error::Uninitialized { path } => {
                let mut m = path.clone();
                m.append(" contains uninitialized extents; the data region was never written");
                m
            },
            Error::Compressed { path } => {
                let mut m = path.clone();
                m.append(" is NTFS-compressed; fixed allocation cannot be guaranteed");
                m
            },
            Error::Unverifiable { path, reason } => {
                let mut m = "could not verify contiguity of ".to_owned();
                m.append(path.as_str());
                m.append(": ");
                m.append(reason.as_str());
                m
            },
            Error::VolumeUnreadable { path, reason } => {
                let mut m = "could not read NTFS volume state from ".to_owned();
                m.append(path.as_str());
                m.append(": ");
                m.append(reason.as_str());
                m
            },
        }
    }
}

/// Each exit code stands for one kind of failure, whatever the details are.
pub proof fn law_exit_codes_tell_the_kind_of_failure(e: &Error, code: u8)
    requires
        call_ensures(exit_code, (e,), code),
    ensures
        code == 1 <==> e is Io,
        code == 3 <==> e is Allocation,
        code == 4 <==> e is Fragmented,
        code == 5 <==> e is Sparse || e is Uninitialized,
        code == 6 <==> e is Compressed,
        code == 8 <==> e is Unverifiable || e is VolumeUnreadable,
{
}

} // verus!
