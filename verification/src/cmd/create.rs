//! `iodd create`: a blank fixed VHD/RMD of a given size.
//!
//! Zeroing is off by default, because instant creation is the point. `--zero`
//! opts into a full pass, and without it the report says plainly what the file
//! contains.

use vstd::prelude::*;
use vstd::utf8::encode_utf8;

use crate::cli::CreateArgs;
use crate::cmd::doctor::{is_recognized, recognized};
use crate::contig;
use crate::contig::allocation::{directory_of, parent_dir};
use crate::contig::error::Run;
use crate::contig::laydown::{Plan, WrittenRule, ZeroRule};
use crate::error::{is_usage, Error, Result};
use crate::footer::{
    fresh, is_tag, is_v4, padded_tag, tag_fault_text, vhd_time, Chs, Creator, Footer,
};
use crate::paths::{
    extension, extension_of, law_appended_extension_reads_back,
};
use crate::size::{
    alignment_text, fault_text, human_text, humanize, mib_alignment_warning, mib_warning_text,
    parse, require_512_aligned, size_of, whole_sectors, MIB,
};
use crate::text::{
    dec, decimal, line_if, lower, lowered, push_line, push_text, same_text, texts, utf8_lossy,
};

verus! {

/// The smallest disk that the vendor's own tool makes. Whether that is a
/// device floor is unknown, so going below it warns rather than fails.
pub const VENDOR_MINIMUM: u64 = 12 * 1024 * 1024;

/// How finely the largest contiguous run is measured.
pub const PROBE_GRANULARITY: u64 = 64 * 1024 * 1024;

// ---------------------------------------------------------------------------
// Naming
// ---------------------------------------------------------------------------

/// The extension a target gets unless its name says otherwise.
pub open spec fn default_extension(removable: bool) -> Seq<char> {
    if removable {
        "rmd"@
    } else {
        "vhd"@
    }
}

/// The extension of a path in lower case, where the device mounts it.
pub open spec fn image_extension(out: Seq<char>) -> Option<Seq<char>> {
    match extension_of(out) {
        Some(e) => if recognized(lower(e)) {
            Some(lower(e))
        } else {
            None
        },
        None => None,
    }
}

/// The path a target is published under.
pub open spec fn resolved(out: Seq<char>, removable: bool) -> Seq<char> {
    if image_extension(out) is Some {
        out
    } else {
        out + "."@ + default_extension(removable)
    }
}

/// Whether the extension that was given contradicts `--removable`.
pub open spec fn contradicts(out: Seq<char>, removable: bool) -> bool {
    (image_extension(out) == Some("rmd"@) && !removable) || (image_extension(out) == Some("vhd"@)
        && removable)
}

/// What is said about an extension that contradicts `--removable`.
pub open spec fn contradiction_text(out: Seq<char>, removable: bool) -> Seq<char> {
    "iodd: warning: --out ends in ."@ + image_extension(out)->0 + " but --removable "@ + (
    if removable {
        "was given"@
    } else {
        "was not given"@
    }) + "; honouring the extension you gave"@
}

/// The extension of a path in lower case, where the device mounts it.
fn recognized_extension(out: &str) -> (r: Option<String>)
    ensures
        r is Some <==> image_extension(out@) is Some,
        r matches Some(e) ==> image_extension(out@) == Some(e@),
{
    match extension(out) {
        Some(e) => {
            let ext = lowered(e.as_str());
            if is_recognized(ext.as_str()) {
                Some(ext)
            } else {
                None
            }
        },
        None => None,
    }
}

/// Append rather than replace, so dotted stems survive.
fn append_extension(out: &str, ext: &str) -> (r: String)
    ensures
        r@ == out@ + "."@ + ext@,
{
    let mut name = out.to_owned();
    name.append(".");
    name.append(ext);
    name
}

/// Apply the default extension.
///
/// `.vhd` presents as a USB fixed drive and `.rmd` as removable.
///
/// Only *recognized* extensions count as deliberate. Anything after the last
/// dot is an extension, so honouring whatever is found would leave
/// `--out "Win11 23H2.v2"` named exactly that, with nothing the device would
/// recognize. A dot in the stem is far commoner than an exotic deliberate
/// extension.
pub fn resolve_extension(out: &str, removable: bool) -> (r: String)
    ensures
        r@ == resolved(out@, removable),
{
    match recognized_extension(out) {
        Some(_) => out.to_owned(),
        None => {
            if removable {
                append_extension(out, "rmd")
            } else {
                append_extension(out, "vhd")
            }
        },
    }
}

/// Warn when an explicit extension contradicts `--removable`. The operator was
/// specific, so the extension is honoured all the same.
pub fn extension_warning(out: &str, removable: bool) -> (r: Option<String>)
    ensures
        r is Some <==> contradicts(out@, removable),
        r matches Some(m) ==> m@ == contradiction_text(out@, removable),
{
    match recognized_extension(out) {
        Some(ext) => {
            let clash = (same_text(ext.as_str(), "rmd") && !removable) || (same_text(
                ext.as_str(),
                "vhd",
            ) && removable);
            if !clash {
                return None;
            }
            let mut m = "iodd: warning: --out ends in .".to_owned();
            m.append(ext.as_str());
            m.append(" but --removable ");
            if removable {
                m.append("was given");
            } else {
                m.append("was not given");
            }
            m.append("; honouring the extension you gave");
            Some(m)
        },
        None => None,
    }
}

// ---------------------------------------------------------------------------
// What is asked for
// ---------------------------------------------------------------------------

/// A disk to be created.
#[derive(Debug, Clone)]
pub struct Order {
    /// Where it is published.
    pub out: String,
    /// How many bytes the guest sees.
    pub virtual_size: u64,
    /// How many bytes the file has.
    pub total_size: u64,
    /// Whether it is a raw removable image, which carries no footer.
    pub raw: bool,
    pub creator: Creator,
    pub zero: bool,
    pub force: bool,
    pub keep_on_fail: bool,
}

/// Whether a path names a raw removable image.
///
/// The device decides by extension. A `.vhd` is presented as file size minus
/// 512, on the assumption that the last sector is a footer; a `.rmd` is
/// presented whole. Giving it a footer would hand the guest 512 bytes of it as
/// trailing disk.
pub open spec fn is_raw(out: Seq<char>) -> bool {
    extension_of(out) is Some && lower(extension_of(out)->0) == "rmd"@
}

/// The path that these arguments publish under.
pub open spec fn target_of(args: CreateArgs) -> Seq<char> {
    resolved(args.out@, args.removable)
}

/// How many bytes the file has that these arguments ask for, if 64 bits can
/// count them.
pub open spec fn file_size(virtual_size: u64, raw: bool) -> Option<u64> {
    if raw {
        Some(virtual_size)
    } else if virtual_size + 512 > u64::MAX {
        None
    } else {
        Some((virtual_size + 512) as u64)
    }
}

/// Whether an order is what the arguments ask for.
pub open spec fn fulfils(o: Order, args: CreateArgs) -> bool {
    &&& size_of(args.size@) == Ok::<u64, crate::size::SizeFault>(o.virtual_size)
    &&& whole_sectors(o.virtual_size)
    &&& o.out@ == target_of(args)
    &&& o.raw == is_raw(o.out@)
    &&& file_size(o.virtual_size, o.raw) == Some(o.total_size)
    &&& is_tag(args.creator@)
    &&& o.creator.0@ == padded_tag(encode_utf8(args.creator@))
    &&& o.zero == args.zero
    &&& o.force == args.force
    &&& o.keep_on_fail == args.keep_on_fail
}

/// The first thing wrong with the arguments.
pub open spec fn fault(args: CreateArgs) -> Option<Seq<char>> {
    match size_of(args.size@) {
        Err(f) => Some(fault_text(args.size@, f)),
        Ok(v) => if !whole_sectors(v) {
            Some(alignment_text(v))
        } else if !is_tag(args.creator@) {
            Some(tag_fault_text(args.creator@))
        } else if file_size(v, is_raw(target_of(args))) is None {
            Some("size + 512 overflows a 64-bit byte count"@)
        } else {
            None
        },
    }
}

/// What is said about a size below the vendor's minimum.
pub open spec fn minimum_text(v: u64) -> Seq<char> {
    "iodd: warning: "@ + human_text(v)
        + " is below the 12 MiB minimum VHD Tool++ enforces; the device may not mount it"@
}

/// What is said about the arguments before anything is done.
pub open spec fn warning_lines(args: CreateArgs) -> Seq<Seq<char>> {
    match size_of(args.size@) {
        Err(_) => Seq::empty(),
        Ok(v) => if !whole_sectors(v) {
            Seq::empty()
        } else {
            line_if(v % MIB != 0, "iodd: warning: "@ + mib_warning_text(v)) + line_if(
                v < VENDOR_MINIMUM,
                minimum_text(v),
            ) + line_if(
                is_tag(args.creator@) && contradicts(args.out@, args.removable),
                contradiction_text(args.out@, args.removable),
            )
        },
    }
}

/// Check the arguments: what to say about them first, and the order, or what
/// is wrong with them.
pub fn run(args: &CreateArgs) -> (r: (Vec<String>, Result<Order>))
    ensures
        texts(r.0@) == warning_lines(*args),
        r.1 is Ok <==> fault(*args) is None,
        r.1 matches Ok(o) ==> fulfils(o, *args),
        r.1 matches Err(e) ==> is_usage(e, fault(*args)->0),
{
    let mut warnings: Vec<String> = Vec::new();
    assert(texts(warnings@) =~= Seq::<Seq<char>>::empty());
    let virtual_size: u64 = match parse(args.size.as_str()) {
        Ok(v) => v,
        Err(e) => {
            return (warnings, Err(e));
        },
    };
    match require_512_aligned(virtual_size) {
        Ok(()) => {},
        Err(e) => {
            return (warnings, Err(e));
        },
    }
    match mib_alignment_warning(virtual_size) {
        Some(warning) => {
            let mut m = "iodd: warning: ".to_owned();
            m.append(warning.as_str());
            push_line(&mut warnings, m);
        },
        None => {},
    }
    let ghost first = line_if(
        virtual_size % MIB != 0,
        "iodd: warning: "@ + mib_warning_text(virtual_size),
    );
    assert(texts(warnings@) =~= first);
    if virtual_size < VENDOR_MINIMUM {
        let mut m = "iodd: warning: ".to_owned();
        m.append(humanize(virtual_size).as_str());
        m.append(
            " is below the 12 MiB minimum VHD Tool++ enforces; the device may not mount it",
        );
        push_line(&mut warnings, m);
    }
    let ghost second = first + line_if(virtual_size < VENDOR_MINIMUM, minimum_text(virtual_size));
    assert(texts(warnings@) =~= second);
    let creator = match Creator::parse(args.creator.as_str()) {
        Ok(c) => c,
        Err(m) => {
            assert(second + Seq::<Seq<char>>::empty() =~= second);
            return (warnings, Err(Error::Usage(m)));
        },
    };
    match extension_warning(args.out.as_str(), args.removable) {
        Some(m) => {
            push_line(&mut warnings, m);
        },
        None => {},
    }
    assert(texts(warnings@) =~= warning_lines(*args));
    let out = resolve_extension(args.out.as_str(), args.removable);
    let raw = match extension(out.as_str()) {
        Some(e) => same_text(lowered(e.as_str()).as_str(), "rmd"),
        None => false,
    };
    let total_size: u64 = if raw {
        virtual_size
    } else {
        match virtual_size.checked_add(512) {
            Some(t) => t,
            None => {
                return (
                    warnings,
                    Err(Error::Usage("size + 512 overflows a 64-bit byte count".to_owned())),
                );
            },
        }
    };
    (
        warnings,
        Ok(
            Order {
                out,
                virtual_size,
                total_size,
                raw,
                creator,
                zero: args.zero,
                force: args.force,
                keep_on_fail: args.keep_on_fail,
            },
        ),
    )
}

/// What a target runs into before anything is allocated.
#[derive(Debug, Clone, Copy, PartialEq, Eq, Structural)]
pub struct Site {
    /// Whether there is something at the target already.
    pub target_exists: bool,
    /// Whether the directory it goes into is one.
    pub dir_is_dir: bool,
    /// The compression attribute of that directory, where there is one.
    pub dir_compressed: Option<bool>,
}

/// Whether `e` refuses the target `out` for what is at its site.
pub open spec fn refuses_site(e: Error, out: Seq<char>, force: bool, site: Site) -> bool {
    if site.target_exists && !force {
        e matches Error::TargetExists { path } && path@ == out
    } else if !site.dir_is_dir {
        is_usage(e, directory_of(out) + " is not a directory"@)
    } else {
        e matches Error::Compressed { path } && path@ == directory_of(out)
    }
}

/// Whether a target may be laid down.
pub open spec fn fits_site(force: bool, site: Site) -> bool {
    (!site.target_exists || force) && site.dir_is_dir && site.dir_compressed != Some(true)
}

/// Look at the target before doing any work.
///
/// A new file inherits the directory's compression attribute, so catching it
/// here avoids doing the work first. It is checked again on the created file
/// before publishing.
pub fn preflight(out: &str, force: bool, site: &Site) -> (r: Result<()>)
    ensures
        r is Ok <==> fits_site(force, *site),
        r matches Err(e) ==> refuses_site(e, out@, force, *site),
{
    if site.target_exists && !force {
        return Err(Error::TargetExists { path: out.to_owned() });
    }
    let dir = parent_dir(out);
    if !site.dir_is_dir {
        let mut m = dir;
        m.append(" is not a directory");
        return Err(Error::Usage(m));
    }
    match site.dir_compressed {
        Some(true) => Err(Error::Compressed { path: dir }),
        _ => Ok(()),
    }
}

impl Order {
    /// The line that says what is about to be made.
    pub open spec fn announcement_text(&self) -> Seq<char> {
        if self.raw {
            "creating "@ + self.out@ + " (raw removable image, "@ + human_text(self.virtual_size)
                + " = "@ + decimal(self.total_size as nat) + " bytes, no footer)"@
        } else {
            "creating "@ + self.out@ + " ("@ + human_text(self.virtual_size)
                + " virtual + 512 footer = "@ + decimal(self.total_size as nat) + " bytes)"@
        }
    }

    /// The line that says what is about to be made.
    pub fn announcement(&self) -> (s: String)
        ensures
            s@ == self.announcement_text(),
    {
        let mut s = "creating ".to_owned();
        s.append(self.out.as_str());
        if self.raw {
            s.append(" (raw removable image, ");
            s.append(humanize(self.virtual_size).as_str());
            s.append(" = ");
            s.append(dec(self.total_size).as_str());
            s.append(" bytes, no footer)");
        } else {
            s.append(" (");
            s.append(humanize(self.virtual_size).as_str());
            s.append(" virtual + 512 footer = ");
            s.append(dec(self.total_size).as_str());
            s.append(" bytes)");
        }
        s
    }

    /// How the file is laid down in `temp`.
    pub fn plan(&self, temp: &str) -> (p: Plan)
        ensures
            p.target@ == self.out@,
            p.temp@ == temp@,
            p.total == self.total_size,
            p.zero == (ZeroRule::AsAsked { asked: self.zero, from: 0 }),
            !p.populate,
            p.written == WrittenRule::WhenZeroed,
            p.trailer == if self.raw {
                None
            } else {
                Some(self.virtual_size)
            },
            p.recheck,
            p.replace == self.force,
    {
        Plan {
            target: self.out.clone(),
            temp: temp.to_owned(),
            total: self.total_size,
            zero: ZeroRule::AsAsked { asked: self.zero, from: 0 },
            populate: false,
            written: WrittenRule::WhenZeroed,
            trailer: if self.raw {
                None
            } else {
                Some(self.virtual_size)
            },
            recheck: true,
            replace: self.force,
        }
    }

    /// The footer the file ends in, unless it is a raw removable image.
    pub fn footer(&self) -> (r: Option<Footer>)
        ensures
            r is None <==> self.raw,
            r matches Some(f) ==> is_v4(f.unique_id@) && exists|unix: u64|
                f == fresh(self.virtual_size, self.creator, #[trigger] vhd_time(unix), f.unique_id),
    {
        if self.raw {
            None
        } else {
            Some(Footer::now(self.virtual_size, self.creator))
        }
    }
}

/// What is said when the filesystem cannot reserve space.
pub fn unsupported_warning() -> (s: &'static str)
    ensures
        s@
            == "iodd: warning: this filesystem does not support fallocate; the file will be allocated by writing it, which forces a full pass"@,
{
    "iodd: warning: this filesystem does not support fallocate; the file will be allocated by writing it, which forces a full pass"
}

// ---------------------------------------------------------------------------
// What is said afterwards
// ---------------------------------------------------------------------------

/// The line that names a geometry.
pub open spec fn geometry_text(g: Chs) -> Seq<char> {
    "  geometry      "@ + decimal(g.cylinders as nat) + "/"@ + decimal(g.heads as nat) + "/"@
        + decimal(g.sectors_per_track as nat)
}

/// The line that names a geometry.
pub fn geometry_line(g: &Chs) -> (s: String)
    ensures
        s@ == geometry_text(*g),
{
    let mut s = "  geometry      ".to_owned();
    s.append(dec(g.cylinders as u64).as_str());
    s.append("/");
    s.append(dec(g.heads as u64).as_str());
    s.append("/");
    s.append(dec(g.sectors_per_track as u64).as_str());
    s
}

/// The line that says whether the file was zeroed.
pub open spec fn zeroed_text(zeroed: bool) -> Seq<char> {
    if zeroed {
        "  zeroed        yes"@
    } else {
        "  zeroed        no"@
    }
}

/// The line that says whether the file was zeroed.
pub fn zeroed_line(zeroed: bool) -> (s: &'static str)
    ensures
        s@ == zeroed_text(zeroed),
{
    if zeroed {
        "  zeroed        yes"
    } else {
        "  zeroed        no"
    }
}

impl Order {
    /// The report of a file that was created.
    pub open spec fn report_lines(&self, footer: Option<Footer>, zeroed: bool) -> Seq<Seq<char>> {
        (match footer {
            Some(f) => seq![
                geometry_text(f.geometry),
                "  creator       "@ + utf8_lossy(self.creator.0@),
            ],
            None => seq!["  footer        none (raw removable image)"@],
        }) + seq![
            "  contiguous    yes (1 extent)"@,
            zeroed_text(zeroed),
            "  guest sees    "@ + human_text(self.virtual_size),
            self.out@ + " created"@,
        ]
    }

    /// The report of a file that was created.
    pub fn report(&self, footer: &Option<Footer>, zeroed: bool) -> (lines: Vec<String>)
        ensures
            texts(lines@) == self.report_lines(*footer, zeroed),
    {
        let mut lines: Vec<String> = Vec::new();
        match footer {
            Some(f) => {
                push_line(&mut lines, geometry_line(&f.geometry));
                let mut s = "  creator       ".to_owned();
                s.append(self.creator.text().as_str());
                push_line(&mut lines, s);
            },
            None => {
                push_text(&mut lines, "  footer        none (raw removable image)");
            },
        }
        push_text(&mut lines, "  contiguous    yes (1 extent)");
        push_text(&mut lines, zeroed_line(zeroed));
        let mut sees = "  guest sees    ".to_owned();
        sees.append(humanize(self.virtual_size).as_str());
        push_line(&mut lines, sees);
        let mut done = self.out.clone();
        done.append(" created");
        push_line(&mut lines, done);
        assert(texts(lines@) =~= self.report_lines(*footer, zeroed));
        lines
    }
}

/// What is said about a file whose data region was left as it was.
pub open spec fn stale_lines(zeroed: bool) -> Seq<Seq<char>> {
    if zeroed {
        Seq::empty()
    } else {
        seq![
            ""@,
            "iodd: warning: the data region was NOT zeroed. It holds whatever was previously on those clusters."@,
            "iodd: the filesystem will report zeros, but the IODD reads sectors straight off the device and will hand the guest the old bytes."@,
            "iodd: this matches VhdTool.exe. If the disk may be seen by anyone else, or booted on a machine you do not control, pass --zero."@,
        ]
    }
}

/// What is said about a file whose data region was left as it was.
pub fn stale_warning(zeroed: bool) -> (lines: Vec<String>)
    ensures
        texts(lines@) == stale_lines(zeroed),
{
    let mut lines: Vec<String> = Vec::new();
    if !zeroed {
        push_text(&mut lines, "");
        push_text(
            &mut lines,
            "iodd: warning: the data region was NOT zeroed. It holds whatever was previously on those clusters.",
        );
        push_text(
            &mut lines,
            "iodd: the filesystem will report zeros, but the IODD reads sectors straight off the device and will hand the guest the old bytes.",
        );
        push_text(
            &mut lines,
            "iodd: this matches VhdTool.exe. If the disk may be seen by anyone else, or booted on a machine you do not control, pass --zero.",
        );
    }
    assert(texts(lines@) =~= stale_lines(zeroed));
    lines
}

/// The line of one run of a refused allocation.
pub open spec fn refused_run_text(i: nat, r: Run) -> Seq<char> {
    "iodd:   run "@ + decimal(i) + ": physical="@ + decimal(r.physical as nat) + " length="@
        + human_text(r.length)
}

/// The lines of the first `n` runs of a refused allocation.
pub open spec fn refused_run_texts(runs: Seq<Run>, n: nat) -> Seq<Seq<char>> {
    Seq::new(n, |i: int| refused_run_text(i as nat, runs[i]))
}

/// What is said about an allocation that came back in pieces, up to where the
/// largest run is measured.
pub open spec fn refusal_lines(runs: Seq<Run>, requested: u64, kept: bool, free: Option<u64>) -> Seq<
    Seq<char>,
> {
    let listed = if runs.len() < 8 {
        runs.len()
    } else {
        8
    };
    seq![
        ""@,
        "iodd: "@ + human_text(requested) + " could not be allocated in one extent. It came back as "@
            + decimal(runs.len()) + ":"@,
    ] + refused_run_texts(runs, listed) + line_if(
        runs.len() > 8,
        "iodd:   ... and "@ + decimal((runs.len() - 8) as nat) + " more"@,
    ) + line_if(
        kept,
        "iodd: note: --keep-on-fail is retaining the partial file, so the figures below exclude the space it still holds."@,
    ) + line_if(free is Some, "iodd: free space on this volume: "@ + human_text(free->0))
}

/// Explain a refusal in terms an operator can act on: what came back, and how
/// much is free. Only fragmentation is explained.
pub fn report_refusal(err: &contig::Error, requested: u64, kept: bool, free: Option<u64>) -> (r:
    Option<Vec<String>>)
    ensures
        r is Some <==> err is Fragmented,
        r matches Some(lines) ==> texts(lines@) == refusal_lines(
            err->Fragmented_runs@,
            requested,
            kept,
            free,
        ),
{
    let runs = match err {
        contig::Error::Fragmented { runs, .. } => runs,
        _ => {
            return None;
        },
    };
    let mut lines: Vec<String> = Vec::new();
    push_text(&mut lines, "");
    let mut s = "iodd: ".to_owned();
    s.append(humanize(requested).as_str());
    s.append(" could not be allocated in one extent. It came back as ");
    s.append(dec(runs.len() as u64).as_str());
    s.append(":");
    push_line(&mut lines, s);
    let listed: usize = if runs.len() < 8 {
        runs.len()
    } else {
        8
    };
    let ghost head = texts(lines@);
    let ghost all = refused_run_texts(runs@, listed as nat);
    let mut i: usize = 0;
    while i < listed
        invariant
            i <= listed <= runs@.len(),
            all == refused_run_texts(runs@, listed as nat),
            texts(lines@) == head + all.take(i as int),
        decreases listed - i,
    {
        let mut s = "iodd:   run ".to_owned();
        s.append(dec(i as u64).as_str());
        s.append(": physical=");
        s.append(dec(runs[i].physical).as_str());
        s.append(" length=");
        s.append(humanize(runs[i].length).as_str());
        push_line(&mut lines, s);
        i += 1;
        assert(all.take(i as int) =~= all.take(i - 1).push(all[i - 1]));
    }
    assert(all.take(i as int) =~= all);
    if runs.len() > 8 {
        let mut s = "iodd:   ... and ".to_owned();
        s.append(dec((runs.len() - 8) as u64).as_str());
        s.append(" more");
        push_line(&mut lines, s);
    }
    if kept {
        push_text(
            &mut lines,
            "iodd: note: --keep-on-fail is retaining the partial file, so the figures below exclude the space it still holds.",
        );
    }
    match free {
        Some(n) => {
            let mut s = "iodd: free space on this volume: ".to_owned();
            s.append(humanize(n).as_str());
            push_line(&mut lines, s);
        },
        None => {},
    }
    assert(texts(lines@) =~= refusal_lines(runs@, requested, kept, free));
    Some(lines)
}

/// What is said once the largest run has been measured. The first line ends the
/// one that announced the measurement.
pub open spec fn probe_lines(best: Option<u64>) -> Seq<Seq<char>> {
    (match best {
        Some(n) => seq![
            human_text(n),
            "iodd: a target of "@ + human_text(n) + " or less should succeed right now."@,
        ],
        None => seq!["nothing usable"@],
    }) + seq![
        "iodd: nothing on Linux can relocate NTFS clusters, so this cannot be repaired here."@,
        "iodd: consolidate free space on Windows (built-in defrag, or Sysinternals Contig on one file), or use a volume with a larger contiguous free run."@,
    ]
}

/// What is said once the largest run has been measured.
pub fn report_probe(best: Option<u64>) -> (lines: Vec<String>)
    ensures
        texts(lines@) == probe_lines(best),
{
    let mut lines: Vec<String> = Vec::new();
    match best {
        Some(n) => {
            push_line(&mut lines, humanize(n));
            let mut s = "iodd: a target of ".to_owned();
            s.append(humanize(n).as_str());
            s.append(" or less should succeed right now.");
            push_line(&mut lines, s);
        },
        None => {
            push_text(&mut lines, "nothing usable");
        },
    }
    push_text(
        &mut lines,
        "iodd: nothing on Linux can relocate NTFS clusters, so this cannot be repaired here.",
    );
    push_text(
        &mut lines,
        "iodd: consolidate free space on Windows (built-in defrag, or Sysinternals Contig on one file), or use a volume with a larger contiguous free run.",
    );
    assert(texts(lines@) =~= probe_lines(best));
    lines
}

// ---------------------------------------------------------------------------
// Laws
// ---------------------------------------------------------------------------

proof fn lemma_defaults_are_recognized(removable: bool)
    ensures
        recognized(default_extension(removable)),
        lower(default_extension(removable)) == default_extension(removable),
        crate::paths::plain_extension(default_extension(removable)),
{
    reveal_strlit("rmd");
    reveal_strlit("vhd");
    assert(lower(default_extension(removable)) =~= default_extension(removable));
}

/// Whether there is a name, or something that becomes one, to put an extension
/// behind: what is put behind a separator or behind nothing makes a hidden file
/// without an extension.
pub open spec fn takes_an_extension(out: Seq<char>) -> bool {
    out.len() > 0 && out.last() != '/'
}

/// Whatever name a file was asked for under, the one it gets is one the device
/// mounts.
pub proof fn law_targets_are_recognized(out: Seq<char>, removable: bool)
    requires
        image_extension(out) is Some || takes_an_extension(out),
    ensures
        image_extension(resolved(out, removable)) is Some,
        image_extension(out) is None ==> image_extension(resolved(out, removable)) == Some(
            default_extension(removable),
        ),
{
    if image_extension(out) is None {
        lemma_defaults_are_recognized(removable);
        law_appended_extension_reads_back(out, default_extension(removable));
    }
}

/// Resolving a name twice is resolving it once, whichever presentation the
/// second time asks for.
pub proof fn law_resolving_is_idempotent(out: Seq<char>, first: bool, second: bool)
    requires
        image_extension(out) is Some || takes_an_extension(out),
    ensures
        resolved(resolved(out, first), second) == resolved(out, first),
{
    law_targets_are_recognized(out, first);
}

/// An extension is only ever appended, so whatever the operator wrote survives.
pub proof fn law_names_survive(out: Seq<char>, removable: bool)
    ensures
        out.is_prefix_of(resolved(out, removable)),
{
}

/// How many bytes of a file the device shows the guest: all of a raw removable
/// image, and all but the last sector of anything else.
pub open spec fn presented(total_size: u64, raw: bool) -> int {
    if raw {
        total_size as int
    } else {
        total_size - 512
    }
}

/// The guest sees exactly the size that was asked for.
#[verifier::spinoff_prover]
#[verifier::rlimit(40)]
pub proof fn law_the_guest_sees_what_was_asked_for(o: Order, args: CreateArgs)
    requires
        fulfils(o, args),
    ensures
        presented(o.total_size, o.raw) == o.virtual_size,
        size_of(args.size@) == Ok::<u64, crate::size::SizeFault>(o.virtual_size),
        o.total_size % 512 == 0,
{
    lemma_file_size(o.virtual_size, o.raw, o.total_size);
}

proof fn lemma_file_size(virtual_size: u64, raw: bool, total_size: u64)
    requires
        whole_sectors(virtual_size),
        file_size(virtual_size, raw) == Some(total_size),
    ensures
        presented(total_size, raw) == virtual_size,
        total_size % 512 == 0,
{
}

/// A name gets `.rmd` behind it for a removable disk and `.vhd` for a fixed one,
/// unless it already has an extension that the device mounts, in whatever case;
/// then it stays as it is.
pub proof fn law_extensions_follow_the_presentation(out: &str, removable: bool, r: String)
    requires
        call_ensures(resolve_extension, (out, removable), r),
    ensures
        ({
            let mounts = extension_of(out@) matches Some(e) && (lower(e) == "vhd"@ || lower(e)
                == "rmd"@ || lower(e) == "vmdk"@ || lower(e) == "iso"@ || lower(e) == "ima"@);
            &&& mounts ==> r@ == out@
            &&& !mounts && removable ==> r@ == out@ + "."@ + "rmd"@
            &&& !mounts && !removable ==> r@ == out@ + "."@ + "vhd"@
        }),
{
}

/// An extension that contradicts `--removable` is remarked on, and no other.
pub proof fn law_contradictions_are_remarked_on(out: &str, removable: bool, r: Option<String>)
    requires
        call_ensures(extension_warning, (out, removable), r),
    ensures
        r is Some <==> (extension_of(out@) matches Some(e) && ((lower(e) == "rmd"@ && !removable)
            || (lower(e) == "vhd"@ && removable))),
{
}

/// An order is placed exactly when the size is one of whole sectors, the tag is
/// one, and the file's length fits 64 bits. It is for that size, as a raw image
/// of just that length where the name ends in `.rmd`, and otherwise with 512
/// bytes for the footer. The switches are passed on as they are.
pub proof fn law_orders_are_what_was_asked_for(
    args: &CreateArgs,
    r: (Vec<String>, Result<Order>),
)
    requires
        call_ensures(run, (args,), r),
    ensures
        r.1 matches Ok(o) ==> {
            &&& size_of(args.size@) == Ok::<u64, crate::size::SizeFault>(o.virtual_size)
            &&& o.virtual_size > 0 && o.virtual_size % 512 == 0
            &&& o.raw <==> (extension_of(o.out@) matches Some(e) && lower(e) == "rmd"@)
            &&& o.raw ==> o.total_size == o.virtual_size
            &&& !o.raw ==> o.total_size == o.virtual_size + 512
            &&& o.zero == args.zero && o.force == args.force && o.keep_on_fail == args.keep_on_fail
            &&& args.out@.is_prefix_of(o.out@)
        },
        r.1 is Ok <==> {
            &&& size_of(args.size@) matches Ok(v) && v > 0 && v % 512 == 0 && (v <= u64::MAX - 512
                || (extension_of(target_of(*args)) matches Some(e) && lower(e) == "rmd"@))
            &&& 1 <= encode_utf8(args.creator@).len() <= 4
            &&& forall|i: int|
                0 <= i < encode_utf8(args.creator@).len() ==> 0x20 <= #[trigger] encode_utf8(
                    args.creator@,
                )[i] < 0x7f
        },
        r.1 matches Err(e) ==> e is Usage,
{
    if let Ok(o) = r.1 {
        law_names_survive(args.out@, args.removable);
    }
}

/// A target is refused exactly when it exists and may not be replaced, when
/// there is no directory for it, or when that directory is compressed, and in
/// that order.
pub proof fn law_sites_are_refused_for_cause(
    out: &str,
    force: bool,
    site: &Site,
    r: Result<()>,
)
    requires
        call_ensures(preflight, (out, force, site), r),
    ensures
        ({
            let taken = site.target_exists && !force;
            &&& r is Err <==> taken || !site.dir_is_dir || site.dir_compressed == Some(true)
            &&& r matches Err(e) ==> if taken {
                e matches Error::TargetExists { path } && path@ == out@
            } else if !site.dir_is_dir {
                e is Usage
            } else {
                e is Compressed
            }
        }),
{
}

/// A disk is laid down over the whole length of its file, zeroed from its start
/// where that was asked for, with nothing copied into it, its footer in the last
/// 512 bytes unless it is raw, and looked at again before it is published. What
/// exists is replaced only where that was asked for.
pub proof fn law_plans_lay_the_order_down(o: &Order, temp: &str, p: Plan, args: CreateArgs)
    requires
        call_ensures(Order::plan, (o, temp), p),
        fulfils(*o, args),
    ensures
        p.total == o.total_size,
        p.target@ == o.out@,
        p.temp@ == temp@,
        p.zero == (ZeroRule::AsAsked { asked: args.zero, from: 0 }),
        !p.populate,
        p.written == WrittenRule::WhenZeroed,
        o.raw ==> p.trailer is None,
        !o.raw ==> (p.trailer matches Some(at) && at + 512 == p.total && at == o.virtual_size),
        p.recheck,
        p.replace == args.force,
{
}

/// The footer of a disk names the size that was ordered and the tag that was
/// given, and a raw image has none.
pub proof fn law_footers_name_the_order(o: &Order, r: Option<Footer>)
    requires
        call_ensures(Order::footer, (o,), r),
    ensures
        r is None <==> o.raw,
        r matches Some(f) ==> f.virtual_size == o.virtual_size && f.creator == o.creator
            && f.disk_type == 2,
{
}

/// Only fragmentation is explained, with at most eight of the runs and how many
/// more there are.
pub proof fn law_refusals_explain_fragmentation(
    err: &contig::Error,
    requested: u64,
    kept: bool,
    free: Option<u64>,
    r: Option<Vec<String>>,
)
    requires
        call_ensures(report_refusal, (err, requested, kept, free), r),
    ensures
        r is Some <==> err is Fragmented,
        r matches Some(lines) ==> lines@.len() == 2 + (if err->Fragmented_runs@.len() > 8 {
            9int
        } else {
            err->Fragmented_runs@.len() as int
        }) + (if kept {
            1int
        } else {
            0
        }) + (if free is Some {
            1int
        } else {
            0
        }),
{
    if let Some(lines) = r {
        assert(texts(lines@).len() == lines@.len());
    }
}

/// A disk that was not zeroed is warned of, and one that was is not.
pub proof fn law_stale_contents_are_warned_of(zeroed: bool, lines: Vec<String>)
    requires
        call_ensures(stale_warning, (zeroed,), lines),
    ensures
        lines@.len() == 0 <==> zeroed,
{
    assert(texts(lines@).len() == lines@.len());
}

/// The report on a new file says whether it was zeroed, what the guest sees and
/// where it is; one with a footer names its geometry, and one without says so.
pub proof fn law_new_files_are_described(
    order: &Order,
    footer: &Option<Footer>,
    zeroed: bool,
    lines: Vec<String>,
)
    requires
        call_ensures(Order::report, (order, footer, zeroed), lines),
    ensures
        ({
            let n = lines@.len() as int;
            &&& footer is None ==> n == 5 && lines@[0]@
                == "  footer        none (raw removable image)"@
            &&& footer matches Some(f) ==> n == 6 && lines@[0]@ == "  geometry      "@ + decimal(
                f.geometry.cylinders as nat,
            ) + "/"@ + decimal(f.geometry.heads as nat) + "/"@ + decimal(
                f.geometry.sectors_per_track as nat,
            )
            &&& zeroed ==> lines@[n - 3]@ == "  zeroed        yes"@
            &&& !zeroed ==> lines@[n - 3]@ == "  zeroed        no"@
            &&& lines@[n - 2]@ == "  guest sees    "@ + human_text(order.virtual_size)
            &&& order.out@.is_prefix_of(lines@[n - 1]@)
        }),
{
    let t = texts(lines@);
    let n = lines@.len() as int;
    assert(t.len() == n);
    assert(t[0] == lines@[0]@);
    assert(t[n - 3] == lines@[n - 3]@);
    assert(t[n - 2] == lines@[n - 2]@);
    assert(t[n - 1] == lines@[n - 1]@);
}

/// A probe that found a run names its size twice, as what was found and as what
/// would fit; both kinds of answer end with the same advice.
pub proof fn law_probes_are_reported_with_advice(
    best: Option<u64>,
    lines: Vec<String>,
    others: Vec<String>,
)
    requires
        call_ensures(report_probe, (best,), lines),
        call_ensures(report_probe, (None,), others),
    ensures
        best matches Some(n) ==> lines@.len() == 4 && lines@[0]@ == human_text(n) && lines@[1]@
            == "iodd: a target of "@ + human_text(n) + " or less should succeed right now."@,
        others@.len() == 3 && others@[0]@ == "nothing usable"@,
        texts(lines@).skip(lines@.len() - 2) == texts(others@).skip(1),
{
    let t = texts(lines@);
    let u = texts(others@);
    assert(t.len() == lines@.len());
    assert(u.len() == others@.len());
    assert(u[0] == others@[0]@);
    assert(t[0] == lines@[0]@);
    assert(t[1] == lines@[1]@);
    assert(t.skip(lines@.len() - 2) =~= u.skip(1));
}

/// A disk is announced with the size that the guest sees and every byte that it
/// will take.
pub proof fn law_orders_are_announced_in_full(order: &Order, s: String)
    requires
        call_ensures(Order::announcement, (order,), s),
    ensures
        ("creating "@ + order.out@).is_prefix_of(s@),
        order.raw ==> (human_text(order.virtual_size) + " = "@ + decimal(order.total_size as nat)
            + " bytes, no footer)"@).is_suffix_of(s@),
        !order.raw ==> (human_text(order.virtual_size) + " virtual + 512 footer = "@ + decimal(
            order.total_size as nat,
        ) + " bytes)"@).is_suffix_of(s@),
{
    if order.raw {
        assert(s@ =~= "creating "@ + order.out@ + " (raw removable image, "@ + (human_text(
            order.virtual_size,
        ) + " = "@ + decimal(order.total_size as nat) + " bytes, no footer)"@));
    } else {
        assert(s@ =~= "creating "@ + order.out@ + " ("@ + (human_text(order.virtual_size)
            + " virtual + 512 footer = "@ + decimal(order.total_size as nat) + " bytes)"@));
    }
}

/// Whether the name of a target says one presentation and the arguments
/// another.
pub open spec fn at_odds(out: Seq<char>, removable: bool) -> bool {
    extension_of(out) matches Some(e) && ((lower(e) == "rmd"@ && !removable) || (lower(e)
        == "vhd"@ && removable))
}

/// Whether a creator tag is one to four printable bytes.
pub open spec fn fits_a_tag(tag: Seq<char>) -> bool {
    1 <= encode_utf8(tag).len() <= 4 && forall|i: int|
        0 <= i < encode_utf8(tag).len() ==> 0x20 <= #[trigger] encode_utf8(tag)[i] < 0x7f
}

/// Nothing is remarked on where the size will not do. Otherwise there is one
/// remark each on a size that is no whole number of mebibytes, on one below
/// twelve of them, and, once the tag is known to be good, on a name at odds
/// with the presentation.
pub proof fn law_odd_orders_are_remarked_on(args: &CreateArgs, r: (Vec<String>, Result<Order>))
    requires
        call_ensures(run, (args,), r),
    ensures
        match size_of(args.size@) {
            Err(_) => r.0@.len() == 0,
            Ok(v) => r.0@.len() == if v == 0 || v % 512 != 0 {
                0int
            } else {
                (if v % 1048576 != 0 {
                    1int
                } else {
                    0
                }) + (if v < 12582912 {
                    1int
                } else {
                    0
                }) + (if fits_a_tag(args.creator@) && at_odds(args.out@, args.removable) {
                    1int
                } else {
                    0
                })
            },
        },
{
    assert(texts(r.0@).len() == r.0@.len());
    assert(at_odds(args.out@, args.removable) == contradicts(args.out@, args.removable)) by {
        reveal_strlit("vhd");
        reveal_strlit("rmd");
        assert("vhd"@[0] != "rmd"@[0]);
    }
}

/// An order keeps its tag, with spaces behind it, and the name that was given;
/// behind that comes the extension of its presentation, unless the device mounts
/// the name as it is.
pub proof fn law_orders_keep_their_tag_and_name(args: &CreateArgs, r: (Vec<String>, Result<Order>))
    requires
        call_ensures(run, (args,), r),
    ensures
        r.1 matches Ok(o) ==> {
            let tag = encode_utf8(args.creator@);
            let mounts = extension_of(args.out@) matches Some(e) && (lower(e) == "vhd"@ || lower(e)
                == "rmd"@ || lower(e) == "vmdk"@ || lower(e) == "iso"@ || lower(e) == "ima"@);
            &&& forall|i: int|
                0 <= i < 4 ==> #[trigger] o.creator.0@[i] == if i < tag.len() {
                    tag[i]
                } else {
                    0x20u8
                }
            &&& mounts ==> o.out@ == args.out@
            &&& !mounts && args.removable ==> o.out@ == args.out@ + "."@ + "rmd"@
            &&& !mounts && !args.removable ==> o.out@ == args.out@ + "."@ + "vhd"@
        },
{
}

/// A refusal lists up to eight of the runs that came back, each by its place on
/// the volume, says how many more there were, and ends with the free space
/// where that is known.
pub proof fn law_refusals_list_what_came_back(
    err: &contig::Error,
    requested: u64,
    kept: bool,
    free: Option<u64>,
    r: Option<Vec<String>>,
    i: int,
)
    requires
        call_ensures(report_refusal, (err, requested, kept, free), r),
    ensures
        r matches Some(lines) ==> {
            let runs = err->Fragmented_runs@;
            &&& ("iodd: "@ + human_text(requested)).is_prefix_of(lines@[1]@)
            &&& (decimal(runs.len()) + ":"@).is_suffix_of(lines@[1]@)
            &&& 0 <= i < runs.len() && i < 8 ==> lines@[2 + i]@ == "iodd:   run "@ + decimal(
                i as nat,
            ) + ": physical="@ + decimal(runs[i].physical as nat) + " length="@ + human_text(
                runs[i].length,
            )
            &&& runs.len() > 8 ==> lines@[10]@ == "iodd:   ... and "@ + decimal(
                (runs.len() - 8) as nat,
            ) + " more"@
            &&& free matches Some(n) ==> lines@.last()@ == "iodd: free space on this volume: "@
                + human_text(n)
        },
{
    if r is Some {
        let lines = r->0;
        let runs = err->Fragmented_runs@;
        let t = texts(lines@);
        assert(t.len() == lines@.len());
        assert(t[1] == lines@[1]@);
        let head = "iodd: "@ + human_text(requested)
            + " could not be allocated in one extent. It came back as "@;
        assert(t[1] =~= head + (decimal(runs.len()) + ":"@));
        if 0 <= i < runs.len() && i < 8 {
            assert(t[2 + i] == lines@[2 + i]@);
        }
        if runs.len() > 8 {
            assert(t[10] == lines@[10]@);
        }
        assert(t.last() == lines@.last()@);
    }
}

/// A site that is refused is named: the target that is there already, or the
/// directory that it would lie in.
pub proof fn law_refused_sites_are_named(out: &str, force: bool, site: &Site, r: Result<()>)
    requires
        call_ensures(preflight, (out, force, site), r),
    ensures
        r matches Err(Error::TargetExists { path }) ==> path@ == out@,
        r matches Err(Error::Compressed { path }) ==> path@ == directory_of(out@),
        r matches Err(Error::Usage(m)) ==> m@ == directory_of(out@) + " is not a directory"@,
{
}

/// What is wrong with an order is told in the words of the part that is wrong:
/// first the size as it is written, next whether it is one of whole sectors, and
/// last the tag.
pub proof fn law_orders_are_refused_for_their_first_fault(
    args: &CreateArgs,
    size: &str,
    tag: &str,
    parsed: Result<u64>,
    aligned: Result<()>,
    creator: std::result::Result<Creator, String>,
    r: (Vec<String>, Result<Order>),
)
    requires
        size@ == args.size@,
        tag@ == args.creator@,
        call_ensures(parse, (size,), parsed),
        parsed matches Ok(v) ==> call_ensures(require_512_aligned, (v,), aligned),
        call_ensures(Creator::parse, (tag,), creator),
        call_ensures(run, (args,), r),
    ensures
        parsed matches Err(Error::Usage(m)) ==> (r.1 matches Err(Error::Usage(n)) && n@ == m@),
        parsed is Ok ==> (aligned matches Err(Error::Usage(m)) ==> (r.1 matches Err(
            Error::Usage(n),
        ) && n@ == m@)),
        parsed is Ok && aligned is Ok ==> (creator matches Err(m) ==> (r.1 matches Err(
            Error::Usage(n),
        ) && n@ == m@)),
{
}

} // verus!
