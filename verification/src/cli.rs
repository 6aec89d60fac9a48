//! The command line, once it has been read.

use vstd::prelude::*;

use crate::text::{chars_of, join, push_line, texts};

verus! {

/// The fragment ceiling that `doctor` applies to ISO images unless told
/// otherwise.
pub const ISO_MAX_FRAGMENTS: u32 = 24;

#[derive(Debug, Clone)]
pub struct Cli {
    pub command: Command,
}

#[derive(Debug, Clone)]
pub enum Command {
    /// Create a blank fixed VHD/RMD of the given size
    Create(CreateArgs),
    /// Write an existing image into a contiguous fixed VHD/RMD
    Convert(ConvertArgs),
    /// Inspect a single existing file
    Verify(VerifyArgs),
    /// Audit every IODD-mountable file under ROOT (read-only)
    Doctor(DoctorArgs),
    /// Rename between .vhd and .rmd without rewriting bytes
    Retype(RetypeArgs),
}

#[derive(Debug, Clone)]
pub struct CreateArgs {
    /// Virtual size, e.g. 20G, 20GiB, 512M, or a raw byte count
    pub size: String,
    /// Output path
    pub out: String,
    /// Default the extension to .rmd (removable) instead of .vhd
    pub removable: bool,
    /// Overwrite an existing target
    pub force: bool,
    /// 4-byte creator tag written to the footer
    pub creator: String,
    /// Write zeros across the whole file before finalizing.
    ///
    /// Off by default. Without this the file holds whatever was previously on
    /// those clusters: the filesystem reports zeros, but anything reading the
    /// raw device, the IODD included, sees the old bytes.
    pub zero: bool,
    /// On failure, leave the partial file in place instead of removing it
    pub keep_on_fail: bool,
}

#[derive(Debug, Clone)]
pub struct ConvertArgs {
    /// Source image
    pub source: String,
    /// Output path
    pub out: String,
    /// Default the extension to .rmd (removable) instead of .vhd
    pub removable: bool,
    /// Overwrite an existing target
    pub force: bool,
    /// Enlarge the target beyond the source; must be >= the source virtual size
    pub size: Option<String>,
    /// 4-byte creator tag written to the footer
    pub creator: String,
    /// Zero the region the source does not cover before finalizing.
    ///
    /// Off by default, as for `create`. Without it, any space beyond the
    /// source's virtual size holds whatever was previously on those clusters.
    pub zero: bool,
    /// On failure, leave the partial file in place instead of removing it
    pub keep_on_fail: bool,
}

#[derive(Debug, Clone)]
pub struct VerifyArgs {
    /// File to inspect
    pub path: String,
    /// Promote footer and geometry warnings to a non-zero exit.
    ///
    /// Fragmentation and sparseness always fail, with or without this flag.
    /// They are the two properties the device actually enforces, so making
    /// them conditional would be misleading.
    pub strict: bool,
}

#[derive(Debug, Clone)]
pub struct DoctorArgs {
    /// Mounted IODD volume, or a subtree of one
    pub root: String,
    /// Accepted for compatibility; recursion is the default
    pub recursive: bool,
    /// Scan only the top level
    pub no_recursive: bool,
    /// Restrict to these extensions
    pub types: Vec<String>,
    /// Output format
    pub format: Format,
    /// Promote warnings to a non-zero aggregate exit code
    pub strict: bool,
    /// Fragment ceiling for ISO images
    pub iso_max_fragments: u32,
}

#[derive(Debug, Clone)]
pub struct RetypeArgs {
    /// File to rename
    pub path: String,
    /// Target presentation
    pub to: Presentation,
    /// Accepted, and without effect: a rename is allowed either way
    pub force: bool,
}

#[derive(Debug, Clone, Copy, PartialEq, Eq, Structural)]
pub enum Format {
    Table,
    Json,
}

#[derive(Debug, Clone, Copy, PartialEq, Eq, Structural)]
pub enum Presentation {
    /// .vhd, mounted as a USB fixed drive
    Fixed,
    /// .rmd, mounted as a USB removable drive
    Removable,
}

impl DoctorArgs {
    /// Recursion is the default; `--recursive` is accepted as a no-op so the
    /// documented synopsis keeps working.
    pub fn is_recursive(&self) -> (r: bool)
        ensures
            r == !self.no_recursive,
    {
        !self.no_recursive
    }
}

/// The exit code of a command line that names no command to run.
///
/// Only an explicit `--help` or `--version` is a success. Help printed because
/// no subcommand was given is a usage error.
pub fn parse_failure_code(asked_for_help_or_version: bool) -> (code: u8)
    ensures
        code == if asked_for_help_or_version {
            0u8
        } else {
            1
        },
{
    if asked_for_help_or_version {
        0
    } else {
        1
    }
}

/// A comma-separated list in pieces.
pub open spec fn pieces(s: Seq<char>) -> Seq<Seq<char>>
    decreases s.len(),
{
    if s.len() == 0 {
        seq![Seq::empty()]
    } else {
        let front = pieces(s.drop_last());
        if s.last() == ',' {
            front.push(Seq::empty())
        } else {
            front.drop_last().push(front.last().push(s.last()))
        }
    }
}

/// Split a comma-separated list, such as `--type` takes.
pub fn split_list(s: &str) -> (list: Vec<String>)
    ensures
        texts(list@) == pieces(s@),
{
    let chars = chars_of(s);
    let mut list: Vec<String> = Vec::new();
    let mut piece = String::new();
    let mut i: usize = 0;
    assert(piece@ =~= Seq::<char>::empty());
    assert(texts(list@).push(piece@) =~= pieces(chars@.take(0)));
    while i < chars.len()
        invariant
            i <= chars@.len(),
            texts(list@).push(piece@) == pieces(chars@.take(i as int)),
        decreases chars@.len() - i,
    {
        let ghost front = texts(list@).push(piece@);
        assert(chars@.take(i + 1).drop_last() == chars@.take(i as int));
        assert(front.drop_last() =~= texts(list@));
        if chars[i] == ',' {
            push_line(&mut list, piece);
            piece = String::new();
            assert(piece@ =~= Seq::<char>::empty());
        } else {
            piece.push(chars[i]);
        }
        i += 1;
    }
    assert(chars@.take(i as int) == chars@);
    push_line(&mut list, piece);
    list
}

proof fn lemma_pieces(s: Seq<char>)
    ensures
        pieces(s).len() > 0,
        forall|i: int, j: int|
            0 <= i < pieces(s).len() && 0 <= j < (#[trigger] pieces(s)[i]).len() ==> #[trigger] pieces(
                s,
            )[i][j] != ',',
    decreases s.len(),
{
    if s.len() > 0 {
        let front = pieces(s.drop_last());
        lemma_pieces(s.drop_last());
        let last = s[s.len() - 1];
        assert forall|i: int, j: int|
            0 <= i < pieces(s).len() && 0 <= j < (#[trigger] pieces(s)[i]).len() implies #[trigger] pieces(
            s,
        )[i][j] != ',' by {
            if i < front.len() - 1 || (i == front.len() - 1 && last == ',') {
                assert(pieces(s)[i] == front[i]);
            } else if i == front.len() - 1 && j < front.last().len() {
                assert(pieces(s)[i][j] == front[i][j]);
            }
        }
    }
}

/// Splitting loses nothing: joined with commas again, the pieces are the list,
/// and no piece holds a comma.
pub proof fn law_splitting_loses_nothing(s: Seq<char>)
    ensures
        join(pieces(s), ","@) == s,
        forall|i: int, j: int|
            0 <= i < pieces(s).len() && 0 <= j < (#[trigger] pieces(s)[i]).len() ==> #[trigger] pieces(
                s,
            )[i][j] != ',',
    decreases s.len(),
{
    lemma_pieces(s);
    if s.len() > 0 {
        law_splitting_loses_nothing(s.drop_last());
        lemma_pieces(s.drop_last());
        let front = pieces(s.drop_last());
        let all = pieces(s);
        reveal_strlit(",");
        if s.last() == ',' {
            assert(all.drop_last() =~= front);
            assert(join(all, ","@) == join(front, ","@) + ","@ + Seq::empty());
        } else {
            assert(all.drop_last() =~= front.drop_last());
            assert(join(all, ","@) =~= join(front, ","@).push(s.last()));
        }
    }
    assert(join(pieces(s), ","@) =~= s);
}

/// Subdirectories are gone into unless that was switched off; asking for it
/// changes nothing.
pub proof fn law_recursion_is_the_default(args: &DoctorArgs, r: bool)
    requires
        call_ensures(DoctorArgs::is_recursive, (args,), r),
    ensures
        args.no_recursive ==> !r,
        !args.no_recursive ==> r,
{
}

/// Only what was asked for succeeds without a command.
pub proof fn law_help_is_no_failure_when_asked_for(asked: bool, code: u8)
    requires
        call_ensures(parse_failure_code, (asked,), code),
    ensures
        asked ==> code == 0,
        !asked ==> code == 1,
{
}

} // verus!
