//! `iodd convert`: write an existing image into a contiguous fixed VHD/RMD.
//!
//! Raw sources are copied natively, and so is what a fixed VHD holds before its
//! footer. Anything else is handed to `qemu-img`: absent it, such sources exit
//! 9 *before* anything is allocated.

use vstd::prelude::*;
use vstd::utf8::encode_utf8;

use crate::cli::ConvertArgs;
use crate::cmd::create::{
    at_odds, contradiction_text, contradicts, extension_warning, fits_a_tag, geometry_line,
    geometry_text, resolve_extension, resolved, zeroed_line, zeroed_text,
};
use crate::contig::allocation::{directory_of, parent_dir};
use crate::contig::laydown::{Plan, WrittenRule, ZeroRule};
use crate::error::{is_usage, Error, Result};
use crate::footer::{
    fresh, is_tag, is_v4, padded_tag, tag_fault_text, vhd_time, Creator, Footer,
};
use crate::paths::extension_of;
use crate::size::{
    alignment_text, fault_text, human_text, humanize, mib_alignment_warning, mib_warning_text,
    parse, require_512_aligned, size_of, whole_sectors, MIB,
};
use crate::source::{classified, classify, Kind, SourceKind};
use crate::text::{
    dec, decimal, line_if, lossy_text, lower, push_line, push_text, texts, trim, trimmed,
    utf8_lossy,
};

verus! {

/// Chunk size for the native copy.
pub const COPY_CHUNK: u64 = 4 * 1024 * 1024;

/// What asks `qemu-img` about a source.
pub const QEMU_INFO: [&'static str; 2] = ["info", "--output=json"];

/// What makes `qemu-img` unpack a source into the target.
///
/// `-n` skips target creation, so that it writes into the file that is already
/// allocated instead of truncating and recreating it. `-S 0` disables its
/// zero-run sparsification, which would punch holes for runs of zeros. Both are
/// load-bearing.
pub const QEMU_CONVERT: [&'static str; 6] = ["convert", "-n", "-S", "0", "-O", "raw"];

// ---------------------------------------------------------------------------
// The source
// ---------------------------------------------------------------------------

/// Find out what a source is from its first and last sectors.
pub fn identify(src: &str, is_dir: bool, head: &[u8], tail: &[u8; 512], file_len: u64) -> (r: Result<
    SourceKind,
>)
    ensures
        r is Ok <==> !is_dir,
        r matches Ok(k) ==> k@ == classified(head@, tail@, file_len),
        r matches Err(e) ==> is_usage(e, src@ + " is a directory"@),
{
    if is_dir {
        let mut m = src.to_owned();
        m.append(" is a directory");
        return Err(Error::Usage(m));
    }
    Ok(classify(head, tail, file_len))
}

/// The line that says which container is being unpacked.
pub fn container_note(kind: &SourceKind) -> (r: Option<String>)
    ensures
        r is Some <==> kind@ is Container,
        r matches Some(m) ==> m@ == "source is a "@ + kind@->Container_0
            + " container; using qemu-img"@,
{
    match kind {
        SourceKind::Container(name) => {
            let mut m = "source is a ".to_owned();
            m.append(name);
            m.append(" container; using qemu-img");
            Some(m)
        },
        _ => None,
    }
}

/// Whether `e` blames `qemu-img`, for this reason.
pub open spec fn blames_qemu(e: Error, why: Seq<char>) -> bool {
    e matches Error::QemuImg { reason } && reason@ == why
}

/// Fail before allocating anything if the tool that is needed is missing.
pub fn require_qemu(on_path: bool) -> (r: Result<()>)
    ensures
        r is Ok <==> on_path,
        r matches Err(e) ==> blames_qemu(
            e,
            "qemu-img is not on PATH; it is required for non-raw sources"@,
        ),
{
    if on_path {
        return Ok(());
    }
    Err(
        Error::QemuImg {
            reason: "qemu-img is not on PATH; it is required for non-raw sources".to_owned(),
        },
    )
}

/// The error when `qemu-img` could not be started for `verb`.
pub fn qemu_not_run(verb: &str, cause: &str) -> (e: Error)
    ensures
        blames_qemu(e, "could not run qemu-img "@ + verb@ + ": "@ + cause@),
{
    let mut reason = "could not run qemu-img ".to_owned();
    reason.append(verb);
    reason.append(": ");
    reason.append(cause);
    Error::QemuImg { reason }
}

/// Judge a run of `qemu-img` by whether it succeeded, with what it wrote to its
/// error stream as the reason if not.
pub fn qemu_finished(verb: &str, success: bool, stderr: &[u8]) -> (r: Result<()>)
    ensures
        r is Ok <==> success,
        r matches Err(e) ==> blames_qemu(
            e,
            "qemu-img "@ + verb@ + " failed: "@ + trim(utf8_lossy(stderr@)),
        ),
{
    if success {
        return Ok(());
    }
    let mut reason = "qemu-img ".to_owned();
    reason.append(verb);
    reason.append(" failed: ");
    reason.append(trimmed(lossy_text(stderr).as_str()).as_str());
    Err(Error::QemuImg { reason })
}

/// What `serde_json` makes of a text that should be a JSON object: the member
/// named `key`, where there is one that is an unsigned 64-bit number, or why
/// the text is no JSON.
pub uninterp spec fn json_number(text: Seq<char>, key: Seq<char>) -> std::result::Result<
    Option<u64>,
    Seq<char>,
>;

/// `serde_json::from_str` into a `serde_json::Value`, read with `Value::get` and
/// `Value::as_u64`: a function of the text and the key alone. Which texts parse,
/// and what is said of one that does not, is left to `serde_json`.
#[verifier::external_body]
fn read_json_number(text: &str, key: &str) -> (r: std::result::Result<Option<u64>, String>)
    ensures
        match r {
            Ok(n) => json_number(text@, key@) == Ok::<Option<u64>, Seq<char>>(n),
            Err(m) => json_number(text@, key@) == Err::<Option<u64>, Seq<char>>(m@),
        },
{
    match serde_json::from_str::<serde_json::Value>(text) {
        Ok(value) => Ok(value.get(key).and_then(serde_json::Value::as_u64)),
        Err(e) => Err(e.to_string()),
    }
}

/// Whether `r` is what a reply with this content comes to.
pub open spec fn answers(
    r: Result<u64>,
    reply: std::result::Result<Option<u64>, Seq<char>>,
) -> bool {
    match reply {
        Ok(Some(n)) => r == Ok::<u64, Error>(n),
        Ok(None) => r matches Err(e) && blames_qemu(
            e,
            "qemu-img info did not report a virtual-size"@,
        ),
        Err(why) => r matches Err(e) && blames_qemu(
            e,
            "could not parse qemu-img info output: "@ + why,
        ),
    }
}

/// The virtual size that a reply of `qemu-img info` reports: the number read out
/// of it, none, or why it could not be read.
pub fn reported_size(reply: std::result::Result<Option<u64>, String>) -> (r: Result<u64>)
    ensures
        answers(
            r,
            match reply {
                Ok(n) => Ok(n),
                Err(m) => Err(m@),
            },
        ),
{
    match reply {
        Ok(Some(n)) => Ok(n),
        Ok(None) => Err(
            Error::QemuImg { reason: "qemu-img info did not report a virtual-size".to_owned() },
        ),
        Err(why) => {
            let mut reason = "could not parse qemu-img info output: ".to_owned();
            reason.append(why.as_str());
            Err(Error::QemuImg { reason })
        },
    }
}

/// The virtual size of a source, out of what `qemu-img info` printed.
pub fn qemu_virtual_size(stdout: &[u8]) -> (r: Result<u64>)
    ensures
        answers(r, json_number(utf8_lossy(stdout@), "virtual-size"@)),
{
    let text = lossy_text(stdout);
    reported_size(read_json_number(text.as_str(), "virtual-size"))
}

// ---------------------------------------------------------------------------
// What is asked for
// ---------------------------------------------------------------------------

/// A conversion that may go ahead.
#[derive(Debug, Clone)]
pub struct Conversion {
    pub source: String,
    /// Where the disk is published.
    pub out: String,
    /// How many bytes the source holds for the guest.
    pub source_size: u64,
    /// How many bytes the guest sees.
    pub virtual_size: u64,
    /// How many bytes the file has, footer included.
    pub total_size: u64,
    pub creator: Creator,
    pub zero: bool,
    pub force: bool,
    pub keep_on_fail: bool,
}

/// How many bytes the guest is to see, or what is wrong with the size asked
/// for. A disk can be enlarged beyond its source but never truncated.
pub open spec fn guest_size(args: ConvertArgs, source_size: u64) -> std::result::Result<
    u64,
    Seq<char>,
> {
    match args.size {
        None => Ok(source_size),
        Some(text) => match size_of(text@) {
            Err(f) => Err(fault_text(text@, f)),
            Ok(n) => if n < source_size {
                Err(
                    "--size "@ + decimal(n as nat) + " is smaller than the source's virtual size "@
                        + decimal(source_size as nat) + "; convert can enlarge but never truncate"@,
                )
            } else {
                Ok(n)
            },
        },
    }
}

/// The first thing wrong with a conversion.
pub open spec fn fault(args: ConvertArgs, source_size: u64) -> Option<Seq<char>> {
    if source_size == 0 {
        Some(args.source@ + " is empty"@)
    } else {
        match guest_size(args, source_size) {
            Err(why) => Some(why),
            Ok(v) => if !whole_sectors(v) {
                Some(alignment_text(v))
            } else if !is_tag(args.creator@) {
                Some(tag_fault_text(args.creator@))
            } else if v + 512 > u64::MAX {
                Some("size + 512 overflows a 64-bit byte count"@)
            } else {
                None
            },
        }
    }
}

/// What is said about a conversion before anything is done.
pub open spec fn warning_lines(args: ConvertArgs, source_size: u64) -> Seq<Seq<char>> {
    match guest_size(args, source_size) {
        Err(_) => Seq::empty(),
        Ok(v) => if source_size == 0 || !whole_sectors(v) {
            Seq::empty()
        } else {
            line_if(v % MIB != 0, "iodd: warning: "@ + mib_warning_text(v)) + line_if(
                is_tag(args.creator@) && contradicts(args.out@, args.removable),
                contradiction_text(args.out@, args.removable),
            )
        },
    }
}

/// Whether a conversion is what the arguments ask for.
pub open spec fn fulfils(c: Conversion, args: ConvertArgs, source_size: u64) -> bool {
    &&& c.source@ == args.source@
    &&& c.out@ == resolved(args.out@, args.removable)
    &&& c.source_size == source_size
    &&& guest_size(args, source_size) == Ok::<u64, Seq<char>>(c.virtual_size)
    &&& whole_sectors(c.virtual_size)
    &&& c.total_size == c.virtual_size + 512
    &&& is_tag(args.creator@)
    &&& c.creator.0@ == padded_tag(encode_utf8(args.creator@))
    &&& c.zero == args.zero
    &&& c.force == args.force
    &&& c.keep_on_fail == args.keep_on_fail
}

fn requested_size(args: &ConvertArgs, source_size: u64) -> (r: Result<u64>)
    ensures
        match guest_size(*args, source_size) {
            Ok(v) => r == Ok::<u64, Error>(v),
            Err(why) => r matches Err(e) && is_usage(e, why),
        },
{
    match &args.size {
        None => Ok(source_size),
        Some(text) => {
            let n: u64 = match parse(text.as_str()) {
                Ok(n) => n,
                Err(e) => {
                    return Err(e);
                },
            };
            if n < source_size {
                let mut m = "--size ".to_owned();
                m.append(dec(n).as_str());
                m.append(" is smaller than the source's virtual size ");
                m.append(dec(source_size).as_str());
                m.append("; convert can enlarge but never truncate");
                return Err(Error::Usage(m));
            }
            Ok(n)
        },
    }
}

/// Check the arguments against the size of the source: what to say about them
/// first, and the conversion, or what is wrong with it.
pub fn run(args: &ConvertArgs, source_size: u64) -> (r: (Vec<String>, Result<Conversion>))
    ensures
        texts(r.0@) == warning_lines(*args, source_size),
        r.1 is Ok <==> fault(*args, source_size) is None,
        r.1 matches Ok(c) ==> fulfils(c, *args, source_size),
        r.1 matches Err(e) ==> is_usage(e, fault(*args, source_size)->0),
{
    let mut warnings: Vec<String> = Vec::new();
    assert(texts(warnings@) =~= Seq::<Seq<char>>::empty());
    if source_size == 0 {
        let mut m = args.source.clone();
        m.append(" is empty");
        return (warnings, Err(Error::Usage(m)));
    }
    let virtual_size: u64 = match requested_size(args, source_size) {
        Ok(v) => v,
        Err(e) => {
            return (warnings, Err(e));
        },
    };
    match require_512_aligned(virtual_size) {
        Ok(()) => {},
        Err(e) => {
            return (warnings, Err(e));
        },
    }
    match mib_alignment_warning(virtual_size) {
        Some(warning) => {
            let mut m = "iodd: warning: ".to_owned();
            m.append(warning.as_str());
            push_line(&mut warnings, m);
        },
        None => {},
    }
    let ghost first = line_if(
        virtual_size % MIB != 0,
        "iodd: warning: "@ + mib_warning_text(virtual_size),
    );
    assert(texts(warnings@) =~= first);
    let creator = match Creator::parse(args.creator.as_str()) {
        Ok(c) => c,
        Err(m) => {
            assert(first + Seq::<Seq<char>>::empty() =~= first);
            return (warnings, Err(Error::Usage(m)));
        },
    };
    match extension_warning(args.out.as_str(), args.removable) {
        Some(m) => {
            push_line(&mut warnings, m);
        },
        None => {},
    }
    assert(texts(warnings@) =~= warning_lines(*args, source_size));
    let total_size: u64 = match virtual_size.checked_add(512) {
        Some(t) => t,
        None => {
            return (
                warnings,
                Err(Error::Usage("size + 512 overflows a 64-bit byte count".to_owned())),
            );
        },
    };
    (
        warnings,
        Ok(
            Conversion {
                source: args.source.clone(),
                out: resolve_extension(args.out.as_str(), args.removable),
                source_size,
                virtual_size,
                total_size,
                creator,
                zero: args.zero,
                force: args.force,
                keep_on_fail: args.keep_on_fail,
            },
        ),
    )
}

/// Whether two files are one, by device and inode. A file that could not be
/// looked at is no other.
pub fn same_file(a: Option<(u64, u64)>, b: Option<(u64, u64)>) -> (r: bool)
    ensures
        r == (a is Some && b is Some && a->0 == b->0),
{
    match (a, b) {
        (Some(x), Some(y)) => x.0 == y.0 && x.1 == y.1,
        _ => false,
    }
}

/// Whether `e` refuses the target `out`.
pub open spec fn refuses_target(
    e: Error,
    out: Seq<char>,
    force: bool,
    target_exists: bool,
    same: bool,
) -> bool {
    if target_exists && !force {
        e matches Error::TargetExists { path } && path@ == out
    } else if same {
        is_usage(e, "the source and the target are the same file"@)
    } else {
        is_usage(e, directory_of(out) + " is not a directory"@)
    }
}

/// Look at the target before doing any work.
pub fn preflight(out: &str, force: bool, target_exists: bool, same: bool, dir_is_dir: bool) -> (r:
    Result<()>)
    ensures
        r is Ok <==> (!target_exists || force) && !same && dir_is_dir,
        r matches Err(e) ==> refuses_target(e, out@, force, target_exists, same),
{
    if target_exists && !force {
        return Err(Error::TargetExists { path: out.to_owned() });
    }
    if same {
        return Err(
            Error::Usage("the source and the target are the same file".to_owned()),
        );
    }
    if !dir_is_dir {
        let mut m = parent_dir(out);
        m.append(" is not a directory");
        return Err(Error::Usage(m));
    }
    Ok(())
}

impl Conversion {
    /// The line that says what is about to be made.
    pub fn announcement(&self) -> (s: String)
        ensures
            s@ == "converting "@ + self.source@ + " ("@ + human_text(self.source_size) + ") to "@
                + self.out@ + " ("@ + human_text(self.virtual_size) + " virtual + 512 footer)"@,
    {
        let mut s = "converting ".to_owned();
        s.append(self.source.as_str());
        s.append(" (");
        s.append(humanize(self.source_size).as_str());
        s.append(") to ");
        s.append(self.out.as_str());
        s.append(" (");
        s.append(humanize(self.virtual_size).as_str());
        s.append(" virtual + 512 footer)");
        s
    }

    /// How the file is laid down in `temp`.
    ///
    /// The source overwrites everything before its own end, so zeroing that
    /// range too would be wasted work. The check over the whole file after
    /// writing is what makes the narrowing safe rather than optimistic.
    pub fn plan(&self, temp: &str) -> (p: Plan)
        ensures
            p.target@ == self.out@,
            p.temp@ == temp@,
            p.total == self.total_size,
            p.zero == (ZeroRule::AsAsked { asked: self.zero, from: self.source_size }),
            p.populate,
            p.written == WrittenRule::WhenZeroed,
            p.trailer == Some(self.virtual_size),
            p.recheck,
            p.replace == self.force,
    {
        Plan {
            target: self.out.clone(),
            temp: temp.to_owned(),
            total: self.total_size,
            zero: ZeroRule::AsAsked { asked: self.zero, from: self.source_size },
            populate: true,
            written: WrittenRule::WhenZeroed,
            trailer: Some(self.virtual_size),
            recheck: true,
            replace: self.force,
        }
    }

    /// The footer the file ends in.
    pub fn footer(&self) -> (f: Footer)
        ensures
            is_v4(f.unique_id@),
            exists|unix: u64|
                f == fresh(self.virtual_size, self.creator, #[trigger] vhd_time(unix), f.unique_id),
    {
        Footer::now(self.virtual_size, self.creator)
    }

    /// The report of a disk that was made.
    pub open spec fn report_lines(&self, footer: Footer, zeroed: bool) -> Seq<Seq<char>> {
        seq![
            geometry_text(footer.geometry),
            "  contiguous    yes (1 extent)"@,
            zeroed_text(zeroed),
            self.out@ + " created"@,
        ]
    }

    /// The report of a disk that was made.
    pub fn report(&self, footer: &Footer, zeroed: bool) -> (lines: Vec<String>)
        ensures
            texts(lines@) == self.report_lines(*footer, zeroed),
    {
        let mut lines: Vec<String> = Vec::new();
        push_line(&mut lines, geometry_line(&footer.geometry));
        push_text(&mut lines, "  contiguous    yes (1 extent)");
        push_text(&mut lines, zeroed_line(zeroed));
        let mut done = self.out.clone();
        done.append(" created");
        push_line(&mut lines, done);
        assert(texts(lines@) =~= self.report_lines(*footer, zeroed));
        lines
    }

    /// What is said about space beyond the source that was left as it was.
    pub open spec fn stale_lines(&self, zeroed: bool) -> Seq<Seq<char>> {
        if !zeroed && self.virtual_size > self.source_size {
            seq![
                ""@,
                "iodd: warning: "@ + human_text((self.virtual_size - self.source_size) as u64)
                    + " beyond the source was NOT zeroed and holds whatever was previously on those clusters."@,
                "iodd: pass --zero if the disk may be seen by anyone else."@,
            ]
        } else {
            Seq::empty()
        }
    }

    /// What is said about space beyond the source that was left as it was.
    pub fn stale_warning(&self, zeroed: bool) -> (lines: Vec<String>)
        ensures
            texts(lines@) == self.stale_lines(zeroed),
    {
        let mut lines: Vec<String> = Vec::new();
        if !zeroed && self.virtual_size > self.source_size {
            push_text(&mut lines, "");
            let mut s = "iodd: warning: ".to_owned();
            s.append(humanize(self.virtual_size - self.source_size).as_str());
            s.append(
                " beyond the source was NOT zeroed and holds whatever was previously on those clusters.",
            );
            push_line(&mut lines, s);
            push_text(&mut lines, "iodd: pass --zero if the disk may be seen by anyone else.");
        }
        assert(texts(lines@) =~= self.stale_lines(zeroed));
        lines
    }
}

/// What is said when the filesystem cannot reserve space.
pub fn unsupported_warning() -> (s: &'static str)
    ensures
        s@
            == "iodd: warning: this filesystem does not support fallocate; the file will be allocated by writing it"@,
{
    "iodd: warning: this filesystem does not support fallocate; the file will be allocated by writing it"
}

// ---------------------------------------------------------------------------
// Copying a raw source
// ---------------------------------------------------------------------------

/// A source being copied from its start, piece by piece.
///
/// Plain positioned writes. Deliberately not `copy_file_range`, which can share
/// extents between the two files on some filesystems.
#[derive(Debug, Clone, Copy, PartialEq, Eq, Structural)]
pub struct RawCopy {
    /// How many bytes are to be copied.
    pub len: u64,
    /// How many have been.
    pub offset: u64,
    /// Whether the source ended early.
    pub ended: bool,
}

impl RawCopy {
    /// No more is copied than there is to copy.
    pub open spec fn wf(&self) -> bool {
        self.offset <= self.len
    }

    /// The copy after a read that yielded `filled` bytes.
    pub open spec fn after_read(&self, filled: u64) -> RawCopy {
        RawCopy {
            len: self.len,
            offset: (self.offset + filled) as u64,
            ended: self.ended || filled == 0,
        }
    }

    /// How many bytes to read next.
    pub open spec fn want(&self) -> int {
        if self.ended {
            0
        } else if self.len - self.offset < COPY_CHUNK {
            self.len - self.offset
        } else {
            COPY_CHUNK as int
        }
    }

    /// Start copying `len` bytes.
    pub fn new(len: u64) -> (c: RawCopy)
        ensures
            c.wf(),
            c == (RawCopy { len, offset: 0, ended: false }),
    {
        RawCopy { len, offset: 0, ended: false }
    }

    /// How many bytes to read next; `None` when nothing is left.
    pub fn next(&self) -> (r: Option<u64>)
        requires
            self.wf(),
        ensures
            r is Some <==> self.want() > 0,
            r matches Some(n) ==> n == self.want(),
    {
        if self.ended || self.offset >= self.len {
            return None;
        }
        let left: u64 = self.len - self.offset;
        Some(
            if left < COPY_CHUNK {
                left
            } else {
                COPY_CHUNK
            },
        )
    }

    /// Take in how many bytes could be read: they were written where the copy
    /// stood. A read that yields nothing ends it.
    pub fn accept(&mut self, filled: u64)
        requires
            old(self).wf(),
            filled <= old(self).want(),
        ensures
            final(self).wf(),
            *final(self) == old(self).after_read(filled),
    {
        if filled == 0 {
            self.ended = true;
        } else {
            self.offset = self.offset + filled;
        }
    }
}

// ---------------------------------------------------------------------------
// Laws
// ---------------------------------------------------------------------------

/// A copy stops only once every byte has been copied or the source has ended.
pub proof fn law_a_copy_stops_only_at_the_end(c: RawCopy)
    requires
        c.wf(),
    ensures
        c.want() == 0 <==> c.ended || c.offset == c.len,
{
}

/// A disk is never smaller than its source, and is exactly its source's size
/// unless another was asked for.
pub proof fn law_convert_never_truncates(c: Conversion, args: ConvertArgs, source_size: u64)
    requires
        fulfils(c, args, source_size),
    ensures
        c.virtual_size >= c.source_size,
        args.size is None ==> c.virtual_size == source_size,
        c.total_size == c.virtual_size + 512,
{
}

/// A fixed VHD is converted without its old footer: what is copied is what the
/// guest sees, and converting its own output changes nothing about its size.
pub proof fn law_reconverting_keeps_the_size(
    c: Conversion,
    args: ConvertArgs,
    head: Seq<u8>,
    tail: Seq<u8>,
    file_len: u64,
)
    requires
        file_len >= 512,
        crate::source::container_name(head) is None,
        crate::footer::has_cookie(tail),
        args.size is None,
        fulfils(
            c,
            args,
            crate::source::guest_bytes(classified(head, tail, file_len), file_len),
        ),
    ensures
        c.total_size == file_len,
        c.virtual_size == file_len - 512,
{
}

/// A conversion goes ahead exactly when the source holds something, the size
/// that was asked for, if any, is one and not below the source's, the disk is
/// one of whole sectors, its file's length fits 64 bits, and the tag is one. The
/// disk then has the size asked for, or the source's, and its file 512 bytes
/// more.
pub proof fn law_conversions_are_what_was_asked_for(
    args: &ConvertArgs,
    source_size: u64,
    r: (Vec<String>, Result<Conversion>),
)
    requires
        call_ensures(run, (args, source_size), r),
    ensures
        ({
            let wanted: Option<u64> = match args.size {
                None => Some(source_size),
                Some(text) => match size_of(text@) {
                    Ok(n) => Some(n),
                    Err(_) => None,
                },
            };
            &&& r.1 matches Ok(c) ==> {
                &&& wanted == Some(c.virtual_size)
                &&& c.source_size == source_size
                &&& c.virtual_size >= source_size
                &&& c.virtual_size % 512 == 0
                &&& c.total_size == c.virtual_size + 512
                &&& c.source@ == args.source@
                &&& args.out@.is_prefix_of(c.out@)
                &&& c.zero == args.zero && c.force == args.force && c.keep_on_fail
                    == args.keep_on_fail
            }
            &&& r.1 is Ok <==> source_size > 0 && (wanted matches Some(n) && n >= source_size && n
                % 512 == 0 && n <= u64::MAX - 512) && 1 <= encode_utf8(args.creator@).len() <= 4
                && forall|i: int|
                0 <= i < encode_utf8(args.creator@).len() ==> 0x20 <= #[trigger] encode_utf8(
                    args.creator@,
                )[i] < 0x7f
            &&& r.1 matches Err(e) ==> e is Usage
        }),
{
    if let Ok(c) = r.1 {
        crate::cmd::create::law_names_survive(args.out@, args.removable);
    }
}

/// Every byte of a converted disk comes from somewhere: what lies before the
/// end of the source is filled in from it, what lies behind is zeroed where that
/// was asked for, and the last 512 bytes are the footer's. The file is looked at
/// again before it is published, and what exists is replaced only where that was
/// asked for.
pub proof fn law_plans_fill_the_disk(
    c: &Conversion,
    temp: &str,
    p: Plan,
    args: ConvertArgs,
    source_size: u64,
)
    requires
        call_ensures(Conversion::plan, (c, temp), p),
        fulfils(*c, args, source_size),
    ensures
        p.populate,
        p.zero == (ZeroRule::AsAsked { asked: args.zero, from: source_size }),
        p.written == WrittenRule::WhenZeroed,
        p.trailer matches Some(at) && at == c.virtual_size && at + 512 == p.total && at
            >= source_size,
        p.total == c.total_size,
        p.target@ == c.out@,
        p.temp@ == temp@,
        p.recheck,
        p.replace == args.force,
{
}

/// A target is refused exactly when it exists and may not be replaced, when it
/// is the source itself, or when there is no directory for it, and in that
/// order.
pub proof fn law_targets_are_refused_for_cause(
    out: &str,
    force: bool,
    target_exists: bool,
    same: bool,
    dir_is_dir: bool,
    r: Result<()>,
)
    requires
        call_ensures(preflight, (out, force, target_exists, same, dir_is_dir), r),
    ensures
        r is Err <==> (target_exists && !force) || same || !dir_is_dir,
        r matches Err(e) ==> if target_exists && !force {
            e is TargetExists
        } else {
            e is Usage
        },
{
}

/// Two files are one exactly when both could be looked at and neither device nor
/// inode tells them apart.
pub proof fn law_files_are_told_apart_by_inode(
    a: Option<(u64, u64)>,
    b: Option<(u64, u64)>,
    r: bool,
)
    requires
        call_ensures(same_file, (a, b), r),
    ensures
        r <==> (a matches Some(x) && (b matches Some(y) && x.0 == y.0 && x.1 == y.1)),
{
}

/// A source that is no directory is identified by its first and last sectors.
pub proof fn law_directories_are_no_sources(
    src: &str,
    is_dir: bool,
    head: &[u8],
    tail: &[u8; 512],
    file_len: u64,
    r: Result<SourceKind>,
)
    requires
        call_ensures(identify, (src, is_dir, head, tail, file_len), r),
    ensures
        r is Ok <==> !is_dir,
        r matches Ok(k) ==> k@ == classified(head@, tail@, file_len),
        r matches Err(e) ==> e is Usage,
{
}

/// `qemu-img` is told to write raw bytes into the file that is there, and to
/// leave no holes; a run that failed is an error, and the size that it reports
/// is taken as it is.
pub proof fn law_qemu_is_kept_in_place(
    verb: &str,
    success: bool,
    stderr: &[u8],
    r: Result<()>,
    reply: std::result::Result<Option<u64>, String>,
    size: Result<u64>,
    on_path: bool,
    found: Result<()>,
)
    requires
        call_ensures(qemu_finished, (verb, success, stderr), r),
        call_ensures(reported_size, (reply,), size),
        call_ensures(require_qemu, (on_path,), found),
    ensures
        QEMU_CONVERT@[0]@ == "convert"@ && QEMU_CONVERT@[1]@ == "-n"@,
        QEMU_CONVERT@[2]@ == "-S"@ && QEMU_CONVERT@[3]@ == "0"@,
        QEMU_CONVERT@[4]@ == "-O"@ && QEMU_CONVERT@[5]@ == "raw"@,
        QEMU_INFO@[0]@ == "info"@ && QEMU_INFO@[1]@ == "--output=json"@,
        r is Ok <==> success,
        size matches Ok(n) ==> reply == Ok::<Option<u64>, String>(Some(n)),
        reply matches Ok(Some(n)) ==> size == Ok::<u64, Error>(n),
        found is Ok <==> on_path,
        r matches Err(e) ==> e is QemuImg,
        size matches Err(e) ==> e is QemuImg,
        found matches Err(e) ==> e is QemuImg,
{
}

/// A piece of a raw copy starts where the last one ended, is never longer than
/// what is left or than four mebibytes, and a copy goes on as long as something
/// is left and the source has not ended.
pub proof fn law_raw_copies_go_on_to_the_end(c: &RawCopy, r: Option<u64>)
    requires
        call_ensures(RawCopy::next, (c,), r),
        c.wf(),
    ensures
        r is None <==> c.ended || c.offset == c.len,
        r matches Some(n) ==> 0 < n <= 4 * 1024 * 1024 && c.offset + n <= c.len && (n < 4 * 1024
            * 1024 ==> c.offset + n == c.len),
{
}

/// The footer of a converted disk names its size and the tag that was given.
pub proof fn law_footers_name_the_conversion(c: &Conversion, f: Footer)
    requires
        call_ensures(Conversion::footer, (c,), f),
    ensures
        f.virtual_size == c.virtual_size && f.creator == c.creator && f.disk_type == 2,
{
}

/// What lies behind the source is warned of exactly when there is some and it
/// was not zeroed.
pub proof fn law_stale_space_is_warned_of(c: &Conversion, zeroed: bool, lines: Vec<String>)
    requires
        call_ensures(Conversion::stale_warning, (c, zeroed), lines),
    ensures
        lines@.len() == 0 <==> zeroed || c.virtual_size <= c.source_size,
{
    assert(texts(lines@).len() == lines@.len());
}

/// Every byte that was read counts, no more and no fewer. A copy goes on from
/// where it then stands, and ends early only at a read that yields nothing.
pub proof fn law_reads_move_a_copy_on(c: RawCopy, filled: u64)
    requires
        c.wf(),
        filled <= c.want(),
    ensures
        ({
            let d = c.after_read(filled);
            &&& d.wf()
            &&& d.len == c.len
            &&& d.offset == c.offset + filled
            &&& d.ended <==> c.ended || filled == 0
        }),
{
}

/// Nothing is remarked on where the size will not do. Otherwise there is one
/// remark each on a size that is no whole number of mebibytes and, once the tag
/// is known to be good, on a name at odds with the presentation.
pub proof fn law_odd_conversions_are_remarked_on(
    args: &ConvertArgs,
    source_size: u64,
    r: (Vec<String>, Result<Conversion>),
)
    requires
        call_ensures(run, (args, source_size), r),
    ensures
        ({
            let wanted: Option<u64> = match args.size {
                None => Some(source_size),
                Some(text) => match size_of(text@) {
                    Ok(n) => Some(n),
                    Err(_) => None,
                },
            };
            match wanted {
                None => r.0@.len() == 0,
                Some(v) => r.0@.len() == if source_size == 0 || v < source_size || v % 512 != 0 {
                    0int
                } else {
                    (if v % 1048576 != 0 {
                        1int
                    } else {
                        0
                    }) + (if fits_a_tag(args.creator@) && at_odds(args.out@, args.removable) {
                        1int
                    } else {
                        0
                    })
                },
            }
        }),
{
    assert(texts(r.0@).len() == r.0@.len());
}

/// A conversion keeps its tag, with spaces behind it, and the name that was
/// given; behind that comes the extension of its presentation, unless the device
/// mounts the name as it is.
pub proof fn law_conversions_keep_their_tag_and_name(
    args: &ConvertArgs,
    source_size: u64,
    r: (Vec<String>, Result<Conversion>),
)
    requires
        call_ensures(run, (args, source_size), r),
    ensures
        r.1 matches Ok(c) ==> {
            let tag = encode_utf8(args.creator@);
            let mounts = extension_of(args.out@) matches Some(e) && (lower(e) == "vhd"@ || lower(e)
                == "rmd"@ || lower(e) == "vmdk"@ || lower(e) == "iso"@ || lower(e) == "ima"@);
            &&& forall|i: int|
                0 <= i < 4 ==> #[trigger] c.creator.0@[i] == if i < tag.len() {
                    tag[i]
                } else {
                    0x20u8
                }
            &&& mounts ==> c.out@ == args.out@
            &&& !mounts && args.removable ==> c.out@ == args.out@ + "."@ + "rmd"@
            &&& !mounts && !args.removable ==> c.out@ == args.out@ + "."@ + "vhd"@
        },
{
}

/// Only a container is announced as one, by its name.
pub proof fn law_containers_are_announced(kind: &SourceKind, r: Option<String>)
    requires
        call_ensures(container_note, (kind,), r),
    ensures
        match kind@ {
            Kind::Container(name) => r matches Some(m) && ("source is a "@ + name).is_prefix_of(m@),
            _ => r is None,
        },
{
}

/// The report on a converted disk names its geometry, whether it was zeroed and
/// where it is.
pub proof fn law_converted_disks_are_described(
    c: &Conversion,
    footer: &Footer,
    zeroed: bool,
    lines: Vec<String>,
)
    requires
        call_ensures(Conversion::report, (c, footer, zeroed), lines),
    ensures
        lines@.len() == 4,
        lines@[0]@ == "  geometry      "@ + decimal(footer.geometry.cylinders as nat) + "/"@
            + decimal(footer.geometry.heads as nat) + "/"@ + decimal(
            footer.geometry.sectors_per_track as nat,
        ),
        zeroed ==> lines@[2]@ == "  zeroed        yes"@,
        !zeroed ==> lines@[2]@ == "  zeroed        no"@,
        c.out@.is_prefix_of(lines@[3]@),
{
    let t = texts(lines@);
    assert(t.len() == lines@.len());
    assert(t[0] == lines@[0]@);
    assert(t[2] == lines@[2]@);
    assert(t[3] == lines@[3]@);
}

/// A target that is refused is named, or the directory that it would lie in.
pub proof fn law_refused_targets_are_named(
    out: &str,
    force: bool,
    target_exists: bool,
    same: bool,
    dir_is_dir: bool,
    r: Result<()>,
)
    requires
        call_ensures(preflight, (out, force, target_exists, same, dir_is_dir), r),
    ensures
        r matches Err(Error::TargetExists { path }) ==> path@ == out@,
        !same ==> (r matches Err(Error::Usage(m)) ==> m@ == directory_of(out@)
            + " is not a directory"@),
        same ==> (r matches Err(Error::Usage(m)) ==> m@
            == "the source and the target are the same file"@),
{
}

/// What is wrong with a conversion is told in the words of the part that is
/// wrong: first the size as it is written, next that it would truncate the
/// source, next whether it is one of whole sectors, and last the tag.
pub proof fn law_conversions_are_refused_for_their_first_fault(
    args: &ConvertArgs,
    source_size: u64,
    size: &str,
    tag: &str,
    parsed: Result<u64>,
    aligned: Result<()>,
    creator: std::result::Result<Creator, String>,
    r: (Vec<String>, Result<Conversion>),
)
    requires
        source_size > 0,
        args.size matches Some(text) && size@ == text@,
        tag@ == args.creator@,
        call_ensures(parse, (size,), parsed),
        parsed matches Ok(v) ==> call_ensures(require_512_aligned, (v,), aligned),
        call_ensures(Creator::parse, (tag,), creator),
        call_ensures(run, (args, source_size), r),
    ensures
        parsed matches Err(Error::Usage(m)) ==> (r.1 matches Err(Error::Usage(n)) && n@ == m@),
        parsed matches Ok(v) ==> {
            &&& v < source_size ==> (r.1 matches Err(Error::Usage(n)) && ("--size "@ + decimal(
                v as nat,
            )).is_prefix_of(n@))
            &&& v >= source_size ==> (aligned matches Err(Error::Usage(m)) ==> (r.1 matches Err(
                Error::Usage(n),
            ) && n@ == m@))
            &&& v >= source_size && aligned is Ok ==> (creator matches Err(m) ==> (r.1 matches Err(
                Error::Usage(n),
            ) && n@ == m@))
        },
{
}

/// A source without a byte is refused by its name.
pub proof fn law_empty_sources_are_refused(
    args: &ConvertArgs,
    r: (Vec<String>, Result<Conversion>),
)
    requires
        call_ensures(run, (args, 0), r),
    ensures
        r.0@.len() == 0,
        r.1 matches Err(Error::Usage(m)) && m@ == args.source@ + " is empty"@,
{
    assert(texts(r.0@).len() == r.0@.len());
}

/// What is warned of is the space beyond the source, by its size.
pub proof fn law_stale_space_is_measured(c: &Conversion, zeroed: bool, lines: Vec<String>)
    requires
        call_ensures(Conversion::stale_warning, (c, zeroed), lines),
        !zeroed,
        c.virtual_size > c.source_size,
    ensures
        lines@.len() == 3,
        ("iodd: warning: "@ + human_text((c.virtual_size - c.source_size) as u64)).is_prefix_of(
            lines@[1]@,
        ),
{
    let t = texts(lines@);
    assert(t.len() == lines@.len());
    assert(t[1] == lines@[1]@);
}

/// A conversion is announced with both its files and what each of them holds.
pub proof fn law_conversions_are_announced_in_full(c: &Conversion, s: String)
    requires
        call_ensures(Conversion::announcement, (c,), s),
    ensures
        ("converting "@ + c.source@ + " ("@ + human_text(c.source_size)).is_prefix_of(s@),
        (c.out@ + " ("@ + human_text(c.virtual_size) + " virtual + 512 footer)"@).is_suffix_of(s@),
{
    assert(s@ =~= "converting "@ + c.source@ + " ("@ + human_text(c.source_size) + ") to "@ + (c.out@
        + " ("@ + human_text(c.virtual_size) + " virtual + 512 footer)"@));
}

} // verus!
