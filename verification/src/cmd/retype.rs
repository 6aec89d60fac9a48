//! `iodd retype`: rename between `.vhd` and `.rmd` without rewriting bytes.
//!
//! Fixed versus removable is an IODD presentation concept selected by the file
//! extension, not a VHD-format concept, so converting between them is a rename
//! and nothing more. The rename happens within one directory, so it preserves
//! the extent layout.

use vstd::prelude::*;

use crate::cli::{Presentation, RetypeArgs};
use crate::error::{is_usage, Error, Result};
use crate::paths::{
    extension, extension_of, extension_set, law_extension_reads_back,
    law_extension_swap_round_trip, tidy,
};
use crate::text::{lower, lowered, same_text};

verus! {

/// The extension that presents a file in a given way.
pub open spec fn extension_for(p: Presentation) -> Seq<char> {
    match p {
        Presentation::Fixed => "vhd"@,
        Presentation::Removable => "rmd"@,
    }
}

/// `.vhd` presents as a USB fixed drive, `.rmd` as a USB removable drive.
fn wanted_extension(p: Presentation) -> (s: &'static str)
    ensures
        s@ == extension_for(p),
{
    match p {
        Presentation::Fixed => "vhd",
        Presentation::Removable => "rmd",
    }
}

/// What is at a path.
#[derive(Debug, Clone, Copy, PartialEq, Eq, Structural)]
pub enum Found {
    Nothing,
    Directory,
    File,
}

/// What a retype comes to.
#[derive(Debug, Clone, PartialEq, Eq)]
pub enum Retype {
    /// The file already is what was asked for; says so.
    Nothing(String),
    /// The file is renamed.
    Rename(String),
}

/// The extension of a path in lower case.
pub open spec fn current_extension(path: Seq<char>) -> Option<Seq<char>> {
    match extension_of(path) {
        Some(e) => Some(lower(e)),
        None => None,
    }
}

/// Whether a path has one of the two extensions.
pub open spec fn retypable(path: Seq<char>) -> bool {
    current_extension(path) == Some("vhd"@) || current_extension(path) == Some("rmd"@)
}

/// Whether `e` is why `path` cannot be retyped.
pub open spec fn refuses(e: Error, path: Seq<char>, found: Found) -> bool {
    match current_extension(path) {
        None => is_usage(
            e,
            path + " has no extension; retype only converts between .vhd and .rmd"@,
        ),
        Some(ext) => if !retypable(path) {
            is_usage(
                e,
                path + " has extension ."@ + ext + "; retype only converts between .vhd and .rmd"@,
            )
        } else if found is Nothing {
            e matches Error::Io { path: p, source } && p@ == path && source@ == "entity not found"@
        } else {
            is_usage(e, path + " is a directory"@)
        },
    }
}

/// Decide what retyping the file at a path comes to.
pub fn run(args: &RetypeArgs, found: Found) -> (r: Result<Retype>)
    ensures
        ({
            let path = args.path@;
            let wanted = extension_for(args.to);
            &&& r is Ok <==> retypable(path) && found is File
            &&& r matches Ok(Retype::Nothing(m)) ==> current_extension(path) == Some(wanted) && m@
                == path + " is already ."@ + wanted + "; nothing to do"@
            &&& r matches Ok(Retype::Rename(to)) ==> current_extension(path) != Some(wanted) && to@
                == extension_set(path, wanted)
            &&& r matches Err(e) ==> refuses(e, path, found)
        }),
{
    let path = args.path.as_str();
    let current = match extension(path) {
        Some(e) => lowered(e.as_str()),
        None => {
            let mut m = path.to_owned();
            m.append(" has no extension; retype only converts between .vhd and .rmd");
            return Err(Error::Usage(m));
        },
    };
    if !same_text(current.as_str(), "vhd") && !same_text(current.as_str(), "rmd") {
        let mut m = path.to_owned();
        m.append(" has extension .");
        m.append(current.as_str());
        m.append("; retype only converts between .vhd and .rmd");
        return Err(Error::Usage(m));
    }
    match found {
        Found::Nothing => {
            return Err(
                Error::Io { path: path.to_owned(), source: "entity not found".to_owned() },
            );
        },
        Found::Directory => {
            let mut m = path.to_owned();
            m.append(" is a directory");
            return Err(Error::Usage(m));
        },
        Found::File => {},
    }
    let wanted = wanted_extension(args.to);
    if same_text(current.as_str(), wanted) {
        let mut m = path.to_owned();
        m.append(" is already .");
        m.append(wanted);
        m.append("; nothing to do");
        return Ok(Retype::Nothing(m));
    }
    Ok(Retype::Rename(with_extension(path, wanted)))
}

/// Refuse to clobber. Renaming over an existing file would destroy it
/// silently, and nothing authorises that.
pub fn check_target(target: &str, exists: bool) -> (r: Result<()>)
    ensures
        r is Ok <==> !exists,
        r matches Err(e) ==> (e matches Error::TargetExists { path } && path@ == target@),
{
    if exists {
        Err(Error::TargetExists { path: target.to_owned() })
    } else {
        Ok(())
    }
}

/// The line that says what was renamed.
pub fn renamed_line(from: &str, to: &str) -> (s: String)
    ensures
        s@ == from@ + " -> "@ + to@,
{
    let mut s = from.to_owned();
    s.append(" -> ");
    s.append(to);
    s
}

/// Replace the extension, preserving the rest of the name: IODD filenames
/// routinely contain dots and mode tags (`&D`, `&DW`).
pub fn with_extension(path: &str, ext: &str) -> (r: String)
    ensures
        r@ == extension_set(path@, ext@),
{
    crate::paths::with_extension(path, ext)
}

/// Retyping there and back again gives the file its name back, where its
/// extension was written in lower case. `DISK.VHD` comes back as `DISK.vhd`.
pub proof fn law_retype_round_trips(path: Seq<char>, there: Presentation, back: Presentation)
    requires
        tidy(path) == path,
        extension_of(path) == Some(extension_for(back)),
        there != back,
    ensures
        extension_of(extension_set(path, extension_for(there))) == Some(extension_for(there)),
        retypable(extension_set(path, extension_for(there))),
        extension_set(extension_set(path, extension_for(there)), extension_for(back)) == path,
{
    reveal_strlit("vhd");
    reveal_strlit("rmd");
    assert(lower(extension_for(there)) =~= extension_for(there));
    law_extension_swap_round_trip(path, extension_for(there));
    law_extension_reads_back(path, extension_for(there));
}

/// A file is retyped exactly when it is there, is no directory, and its
/// extension is `.vhd` or `.rmd` in whatever case. It stays as it is where the
/// extension already is the wanted one, and otherwise is renamed to the same
/// path with the other extension.
pub proof fn law_only_disks_are_retyped(args: &RetypeArgs, found: Found, r: Result<Retype>)
    requires
        call_ensures(run, (args, found), r),
    ensures
        ({
            let ext = extension_of(args.path@);
            let disk = ext matches Some(e) && (lower(e) == "vhd"@ || lower(e) == "rmd"@);
            let wanted = if args.to == Presentation::Fixed {
                "vhd"@
            } else {
                "rmd"@
            };
            &&& r is Ok <==> disk && found == Found::File
            &&& r matches Ok(t) ==> (t is Nothing <==> lower(ext->0) == wanted)
            &&& r matches Ok(Retype::Rename(to)) ==> to@ == extension_set(args.path@, wanted)
            &&& r matches Err(e) ==> (e is Io <==> disk && found == Found::Nothing) && (e is Usage
                <==> !(disk && found == Found::Nothing))
        }),
{
}

/// What is there is never renamed over.
pub proof fn law_retyping_clobbers_nothing(target: &str, exists: bool, r: Result<()>)
    requires
        call_ensures(check_target, (target, exists), r),
    ensures
        r is Err <==> exists,
        r matches Err(e) ==> e is TargetExists,
{
}

/// Whatever a retype comes to, it speaks of the file that was named.
pub proof fn law_retypes_name_their_file(
    args: &RetypeArgs,
    found: Found,
    r: Result<Retype>,
    target: &str,
    exists: bool,
    clash: Result<()>,
)
    requires
        call_ensures(run, (args, found), r),
        call_ensures(check_target, (target, exists), clash),
    ensures
        r matches Err(Error::Usage(m)) ==> args.path@.is_prefix_of(m@),
        r matches Err(Error::Io { path, .. }) ==> path@ == args.path@,
        r matches Ok(Retype::Nothing(m)) ==> args.path@.is_prefix_of(m@),
        clash matches Err(Error::TargetExists { path }) ==> path@ == target@,
{
}

} // verus!
