//! The one place the exit-code table is implemented.
//!
//! Every variant carries structured data rather than a pre-formatted string,
//! so diagnostics are rendered at the edge from real values.
//!
//! | Code | Meaning |
//! |---|---|
//! | 0 | success, or verify passed |
//! | 1 | usage or argument error |
//! | 2 | target exists without `--force` |
//! | 3 | allocation failed |
//! | 4 | contiguity check failed |
//! | 5 | sparseness check failed |
//! | 6 | target on compressed NTFS |
//! | 7 | footer verification failed |
//! | 8 | the question could not be answered on this filesystem |
//! | 9 | `qemu-img` required but absent or failed |

use vstd::prelude::*;

use crate::contig;
use crate::text::{dec, decimal};

pub use crate::contig::Run;

verus! {

#[derive(Debug)]
pub enum Error {
    Usage(String),
    /// A read or a write failed; `source` is what the system said about it.
    Io { path: String, source: String },
    TargetExists { path: String },
    Allocation { path: String, requested: u64, reason: String },
    Fragmented {
        path: String,
        runs: Vec<Run>,
        free_bytes: Option<u64>,
        largest_free_run: Option<u64>,
    },
    Sparse { path: String, allocated: u64, expected: u64 },
    Uninitialized { path: String },
    Compressed { path: String },
    Footer { path: String, reason: String },
    Unverifiable { path: String, reason: String },
    VolumeUnreadable { path: String, reason: String },
    QemuImg { reason: String },
    /// Reported as a usage error so it never masquerades as a real diagnostic.
    NotImplemented(&'static str),
}

pub type Result<T> = std::result::Result<T, Error>;

/// The exit code of each error.
pub open spec fn code_of(e: Error) -> i32 {
    match e {
        Error::Usage(_) => 1,
        Error::Io { .. } => 1,
        Error::TargetExists { .. } => 2,
        Error::Allocation { .. } => 3,
        Error::Fragmented { .. } => 4,
        Error::Sparse { .. } => 5,
        Error::Uninitialized { .. } => 5,
        Error::Compressed { .. } => 6,
        Error::Footer { .. } => 7,
        Error::Unverifiable { .. } => 8,
        Error::VolumeUnreadable { .. } => 8,
        Error::QemuImg { .. } => 9,
        Error::NotImplemented(_) => 1,
    }
}

/// The text that an error is reported with.
pub open spec fn message_text(e: Error) -> Seq<char> {
    match e {
        Error::Usage(m) => m@,
        Error::Io { path, source } => path@ + ": "@ + source@,
        Error::TargetExists { path } => path@ + " already exists (use --force to overwrite)"@,
        Error::Allocation { path, requested, reason } => "could not allocate "@ + decimal(
            requested as nat,
        ) + " bytes for "@ + path@ + ": "@ + reason@,
        Error::Fragmented { path, runs, .. } => path@ + " occupies "@ + decimal(runs@.len())
            + " extents, not 1"@,
        Error::Sparse { path, allocated, expected } => path@ + " is not fully allocated: "@
            + decimal(allocated as nat) + " bytes allocated, "@ + decimal(expected as nat)
            + " required"@,
        Error::Uninitialized { path } => path@
            + " contains uninitialized extents; the data region was not written"@,
        Error::Compressed { path } => path@
            + " is NTFS-compressed; fixed allocation cannot be guaranteed"@,
        Error::Footer { path, reason } => path@ + ": "@ + reason@,
        Error::Unverifiable { path, reason } => "could not verify contiguity of "@ + path@ + ": "@
            + reason@,
        Error::VolumeUnreadable { path, reason } => "could not read NTFS volume state from "@
            + path@ + ": "@ + reason@,
        Error::QemuImg { reason } => "qemu-img: "@ + reason@,
        Error::NotImplemented(what) => what@ + " is not implemented yet"@,
    }
}

/// Whether `e` is a usage error with this message.
pub open spec fn is_usage(e: Error, message: Seq<char>) -> bool {
    e matches Error::Usage(m) && m@ == message
}

impl Error {
    /// Map to the process exit code.
    ///
    /// This match is exhaustive on purpose: adding a variant without assigning
    /// it a code will fail to compile.
    pub fn exit_code(&self) -> (code: i32)
        ensures
            code == code_of(*self),
    {
        match self {
            Error::Usage(_) | Error::Io { .. } => 1,
            Error::TargetExists { .. } => 2,
            Error::Allocation { .. } => 3,
            Error::Fragmented { .. } => 4,
            Error::Sparse { .. } | Error::Uninitialized { .. } => 5,
            Error::Compressed { .. } => 6,
            Error::Footer { .. } => 7,
            Error::Unverifiable { .. } | Error::VolumeUnreadable { .. } => 8,
            Error::QemuImg { .. } => 9,
            Error::NotImplemented(_) => 1,
        }
    }

    /// The message shown to the operator.
    pub fn message(&self) -> (m: String)
        ensures
            m@ == message_text(*self),
    {
        match self {
            Error::Usage(message) => message.clone(),
            Error::Io { path, source } => {
                let mut m = path.clone();
                m.append(": ");
                m.append(source.as_str());
                m
            },
            Error::TargetExists { path } => {
                let mut m = path.clone();
                m.append(" already exists (use --force to overwrite)");
                m
            },
            Error::Allocation { path, requested, reason } => {
                let mut m = "could not allocate ".to_owned();
                m.append(dec(*requested).as_str());
                m.append(" bytes for ");
                m.append(path.as_str());
                m.append(": ");
                m.append(reason.as_str());
                m
            },
            Error::Fragmented { path, runs, .. } => {
                let mut m = path.clone();
                m.append(" occupies ");
                m.append(dec(runs.len() as u64).as_str());
                m.append(" extents, not 1");
                m
            },
            Error::Sparse { path, allocated, expected } => {
                let mut m = path.clone();
                m.append(" is not fully allocated: ");
                m.append(dec(*allocated).as_str());
                m.append(" bytes allocated, ");
                m.append(dec(*expected).as_str());
                m.append(" required");
                m
            },
            Error::Uninitialized { path } => {
                let mut m = path.clone();
                m.append(" contains uninitialized extents; the data region was not written");
                m
            },
            Error::Compressed { path } => {
                let mut m = path.clone();
                m.append(" is NTFS-compressed; fixed allocation cannot be guaranteed");
                m
            },
            Error::Footer { path, reason } => {
                let mut m = path.clone();
                m.append(": ");
                m.append(reason.as_str());
                m
            },
            Error::Unverifiable { path, reason } => {
                let mut m = "could not verify contiguity of ".to_owned();
                m.append(path.as_str());
                m.append(": ");
                m.append(reason.as_str());
                m
            },
            Error::VolumeUnreadable { path, reason } => {
                let mut m = "could not read NTFS volume state from ".to_owned();
                m.append(path.as_str());
                m.append(": ");
                m.append(reason.as_str());
                m
            },
            Error::QemuImg { reason } => {
                let mut m = "qemu-img: ".to_owned();
                m.append(reason.as_str());
                m
            },
            Error::NotImplemented(what) => {
                let mut m = (*what).to_owned();
                m.append(" is not implemented yet");
                m
            },
        }
    }
}

/// An engine error as an error of the tool: the same variant, the same data.
pub open spec fn from_engine(e: contig::Error) -> Error {
    match e {
        contig::Error::Io { path, source } => Error::Io { path, source },
        contig::Error::Allocation { path, requested, reason } => Error::Allocation {
            path,
            requested,
            reason,
        },
        contig::Error::Fragmented { path, runs, free_bytes, largest_free_run } => Error::Fragmented {
            path,
            runs,
            free_bytes,
            largest_free_run,
        },
        contig::Error::Sparse { path, allocated, expected } => Error::Sparse {
            path,
            allocated,
            expected,
        },
        contig::Error::Uninitialized { path } => Error::Uninitialized { path },
        contig::Error::Compressed { path } => Error::Compressed { path },
        contig::Error::Unverifiable { path, reason } => Error::Unverifiable { path, reason },
        contig::Error::VolumeUnreadable { path, reason } => Error::VolumeUnreadable { path, reason },
    }
}

impl From<contig::Error> for Error {
    fn from(e: contig::Error) -> (r: Error) {
        match e {
            contig::Error::Io { path, source } => Error::Io { path, source },
            contig::Error::Allocation { path, requested, reason } => Error::Allocation {
                path,
                requested,
                reason,
            },
            contig::Error::Fragmented { path, runs, free_bytes, largest_free_run } => {
                Error::Fragmented { path, runs, free_bytes, largest_free_run }
            },
            contig::Error::Sparse { path, allocated, expected } => Error::Sparse {
                path,
                allocated,
                expected,
            },
            contig::Error::Uninitialized { path } => Error::Uninitialized { path },
            contig::Error::Compressed { path } => Error::Compressed { path },
            contig::Error::Unverifiable { path, reason } => Error::Unverifiable { path, reason },
            contig::Error::VolumeUnreadable { path, reason } => {
                Error::VolumeUnreadable { path, reason }
            },
        }
    }
}

impl vstd::std_specs::convert::FromSpecImpl<contig::Error> for Error {
    open spec fn obeys_from_spec() -> bool {
        true
    }

    open spec fn from_spec(e: contig::Error) -> Error {
        from_engine(e)
    }
}

/// The tool and the engine report the same exit code for what they share.
pub proof fn law_codes_agree_with_the_engine(e: contig::Error)
    ensures
        code_of(from_engine(e)) == contig::error::code_of(e),
{
}

/// No failure exits with zero, and every code stays inside the table.
pub proof fn law_failures_have_a_code(e: Error)
    ensures
        1 <= code_of(e) <= 9,
{
}

/// Each exit code stands for one kind of failure, whatever the details are.
pub proof fn law_exit_codes_tell_the_kind_of_failure(e: &Error, code: i32)
    requires
        call_ensures(Error::exit_code, (e,), code),
    ensures
        code == 1 <==> e is Usage || e is Io || e is NotImplemented,
        code == 2 <==> e is TargetExists,
        code == 3 <==> e is Allocation,
        code == 4 <==> e is Fragmented,
        code == 5 <==> e is Sparse || e is Uninitialized,
        code == 6 <==> e is Compressed,
        code == 7 <==> e is Footer,
        code == 8 <==> e is Unverifiable || e is VolumeUnreadable,
        code == 9 <==> e is QemuImg,
{
}

/// The tool says what the engine says about a failure, but for a region that
/// was left unwritten, and loses none of the figures that come with it.
pub proof fn law_messages_agree_with_the_engine(e: contig::Error)
    ensures
        !(e is Uninitialized) ==> message_text(from_engine(e)) == contig::error::message_text(e),
        e matches contig::Error::Fragmented { path, runs, free_bytes, largest_free_run }
            ==> from_engine(e) == (Error::Fragmented { path, runs, free_bytes, largest_free_run }),
        e matches contig::Error::Uninitialized { path } ==> from_engine(e)
            == (Error::Uninitialized { path }),
{
}

/// Every message starts with the path that the failure is about, unless it
/// starts with what could not be done; where there is a cause, it comes last.
pub proof fn law_messages_name_the_path_and_the_cause(e: &Error, m: String)
    requires
        call_ensures(Error::message, (e,), m),
    ensures
        match *e {
            Error::Usage(text) => m@ == text@,
            Error::NotImplemented(what) => what@.is_prefix_of(m@),
            Error::QemuImg { reason } => m@ == "qemu-img: "@ + reason@,
            Error::Io { path, source } => m@ == path@ + ": "@ + source@,
            Error::Footer { path, reason } => m@ == path@ + ": "@ + reason@,
            Error::Allocation { path, requested, reason } => ("could not allocate "@ + decimal(
                requested as nat,
            )).is_prefix_of(m@) && (path@ + ": "@ + reason@).is_suffix_of(m@),
            Error::Unverifiable { path, reason } => (path@ + ": "@ + reason@).is_suffix_of(m@),
            Error::VolumeUnreadable { path, reason } => (path@ + ": "@ + reason@).is_suffix_of(m@),
            Error::TargetExists { path } => path@.is_prefix_of(m@),
            Error::Fragmented { path, runs, .. } => (path@ + " occupies "@ + decimal(
                runs@.len(),
            )).is_prefix_of(m@),
            Error::Sparse { path, allocated, expected } => path@.is_prefix_of(m@) && (decimal(
                expected as nat,
            ) + " required"@).is_suffix_of(m@),
            Error::Uninitialized { path } => path@.is_prefix_of(m@),
            Error::Compressed { path } => path@.is_prefix_of(m@),
        },
{
    match *e {
        Error::Allocation { path, requested, reason } => {
            let head = "could not allocate "@ + decimal(requested as nat) + " bytes for "@;
            assert(m@ =~= head + (path@ + ": "@ + reason@));
        },
        Error::Unverifiable { path, reason } => {
            assert(m@ =~= "could not verify contiguity of "@ + (path@ + ": "@ + reason@));
        },
        Error::VolumeUnreadable { path, reason } => {
            assert(m@ =~= "could not read NTFS volume state from "@ + (path@ + ": "@ + reason@));
        },
        Error::Sparse { path, allocated, expected } => {
            assert(m@ =~= path@ + " is not fully allocated: "@ + decimal(allocated as nat)
                + " bytes allocated, "@ + (decimal(expected as nat) + " required"@));
        },
        _ => {},
    }
}

} // verus!
