//! `iodd doctor`: "will everything on this device mount?"
//!
//! [`grade`] takes [`FileFacts`] and a [`Policy`] and returns an
//! [`Assessment`]. Only what the device enforces is fatal: one extent, and
//! fully allocated. Footer problems are warnings, because the device mounts
//! files with no valid footer at all, and because a guest partitioning the
//! disk overwrites the footer with its GPT backup header. Grading that as
//! broken would condemn a file that demonstrably works.

use vstd::prelude::*;

use crate::bytes::{
    be_digits, be_field, has_prefix, law_big_endian_fields_hold_digits,
    law_prefixes_agree_byte_by_byte, read_be, starts_with,
};
use crate::cli::DoctorArgs;
use crate::contig::allocation::{
    directory_of, law_temp_files_lie_beside_their_target, temp_text,
};
use crate::contig::extents::ExtentMap;
use crate::contig::fsinfo::{sat_mul, saturating_product};
use crate::contig::report::flag_strings;
use crate::contig::volume::{flag_texts, law_names_tell_the_flags, opt_text, VolumeInfo};
use crate::error::{is_usage, Error, Result};
use crate::footer::{
    finding_texts, findings, footer_bytes, fresh, has_cookie, intact,
    law_fresh_footer_has_no_problems, law_only_intact_footers_have_no_problems,
    starts_with_cookie, Creator, COOKIE, DISK_TYPE_DIFFERENCING, DISK_TYPE_DYNAMIC,
    VHDX_SIGNATURE,
};
use crate::paths::{extension, extension_of, inside, parent, parent_of};
use crate::report::Record;
use crate::source::{VMDK_DESCRIPTOR, VMDK_EXTENT};
use crate::text::{
    chars_of, debug_quoted, dec, decimal, lemma_trim_is, line_if, lower, lowered, push_line,
    push_lines, push_text, quoted, same_text, string_from, texts, trim, trimmed, white_space,
};

verus! {

/// Default fragment ceiling for ISO images. Device families differ; the value
/// is overridable because it was never documented, only inferred.
pub const DEFAULT_ISO_MAX_FRAGMENTS: u32 = 24;

/// Most items the device will show in a single directory.
///
/// Exceeding it does not corrupt anything: the device simply stops listing, so
/// a file that copied perfectly is missing from the menu.
pub const MAX_ITEMS_PER_DIRECTORY: usize = 32;

/// Extensions IODD will attempt to mount.
///
/// `.ima` only, deliberately: `.img`, `.bif` and `.vfd` are formats that get
/// *renamed to* `.ima`, not extensions the device scans.
pub const RECOGNIZED: [&'static str; 5] = ["vhd", "rmd", "vmdk", "iso", "ima"];

/// Whether IODD will attempt to mount a file with this extension.
pub open spec fn recognized(ext: Seq<char>) -> bool {
    ext == "vhd"@ || ext == "rmd"@ || ext == "vmdk"@ || ext == "iso"@ || ext == "ima"@
}

/// Whether IODD will attempt to mount a file with this extension.
pub fn is_recognized(ext: &str) -> (r: bool)
    ensures
        r == recognized(ext@),
{
    let mut i: usize = 0;
    while i < 5
        invariant
            i <= 5,
            forall|j: int| 0 <= j < i ==> RECOGNIZED@[j]@ != ext@,
        decreases 5 - i,
    {
        if same_text(RECOGNIZED[i], ext) {
            return true;
        }
        i += 1;
    }
    assert(RECOGNIZED@[0]@ == "vhd"@);
    assert(RECOGNIZED@[1]@ == "rmd"@);
    assert(RECOGNIZED@[2]@ == "vmdk"@);
    assert(RECOGNIZED@[3]@ == "iso"@);
    assert(RECOGNIZED@[4]@ == "ima"@);
    false
}

// ---------------------------------------------------------------------------
// Policy
// ---------------------------------------------------------------------------

#[derive(Debug, Clone)]
pub struct Policy {
    pub iso_max_fragments: u32,
    pub strict: bool,
    /// Empty means every recognized type.
    pub types: Vec<String>,
    pub recursive: bool,
}

impl Default for Policy {
    fn default() -> (p: Policy)
        ensures
            p.iso_max_fragments == DEFAULT_ISO_MAX_FRAGMENTS,
            !p.strict,
            p.types@.len() == 0,
            p.recursive,
    {
        Policy {
            iso_max_fragments: DEFAULT_ISO_MAX_FRAGMENTS,
            strict: false,
            types: Vec::new(),
            recursive: true,
        }
    }
}

/// Whether one of `types` is `ext`, but for the case of ASCII letters.
pub open spec fn names_type(types: Seq<String>, ext: Seq<char>) -> bool {
    exists|i: int| 0 <= i < types.len() && lower((#[trigger] types[i])@) == lower(ext)
}

impl Policy {
    /// Whether files with this extension are scanned.
    pub open spec fn covers(&self, ext: Seq<char>) -> bool {
        recognized(ext) && (self.types@.len() == 0 || names_type(self.types@, ext))
    }

    /// Whether files with this extension are scanned.
    pub fn accepts(&self, ext: &str) -> (r: bool)
        ensures
            r == self.covers(ext@),
    {
        if !is_recognized(ext) {
            return false;
        }
        if self.types.len() == 0 {
            return true;
        }
        let wanted = lowered(ext);
        let mut i: usize = 0;
        while i < self.types.len()
            invariant
                i <= self.types@.len(),
                wanted@ == lower(ext@),
                recognized(ext@),
                forall|j: int| 0 <= j < i ==> lower((#[trigger] self.types@[j])@) != lower(ext@),
            decreases self.types@.len() - i,
        {
            if same_text(lowered(self.types[i].as_str()).as_str(), wanted.as_str()) {
                assert(names_type(self.types@, ext@));
                return true;
            }
            i += 1;
        }
        false
    }

    /// How many levels below the root are walked.
    pub fn max_depth(&self) -> (d: usize)
        ensures
            d == if self.recursive {
                usize::MAX
            } else {
                1
            },
    {
        if self.recursive {
            usize::MAX
        } else {
            1
        }
    }

    /// The extension, in lower case, of a file that is to be graded; `None` for
    /// one that is passed over.
    pub fn candidate(&self, path: &str) -> (r: Option<String>)
        ensures
            r is Some <==> extension_of(path@) is Some && self.covers(lower(extension_of(path@)->0)),
            r matches Some(ext) ==> ext@ == lower(extension_of(path@)->0),
    {
        match extension(path) {
            Some(ext) => {
                let ext = lowered(ext.as_str());
                if self.accepts(ext.as_str()) {
                    Some(ext)
                } else {
                    None
                }
            },
            None => None,
        }
    }
}

/// A text without the dots it starts with.
pub open spec fn undotted(s: Seq<char>) -> Seq<char>
    decreases s.len(),
{
    if s.len() > 0 && s[0] == '.' {
        undotted(s.skip(1))
    } else {
        s
    }
}

/// What is meant by an extension on the command line.
pub open spec fn scan_type(s: Seq<char>) -> Seq<char> {
    lower(undotted(trim(s)))
}

/// What is meant by a list of extensions; blanks are dropped.
pub open spec fn scan_types(list: Seq<String>) -> Seq<Seq<char>>
    decreases list.len(),
{
    if list.len() == 0 {
        Seq::empty()
    } else {
        let front = scan_types(list.drop_last());
        let name = scan_type(list.last()@);
        if name.len() == 0 {
            front
        } else {
            front.push(name)
        }
    }
}

/// How many names stand before the first that is not recognized.
pub open spec fn known_types(names: Seq<Seq<char>>) -> nat
    decreases names.len(),
{
    if names.len() == 0 || !recognized(names[0]) {
        0
    } else {
        1 + known_types(names.skip(1))
    }
}

/// The complaint about a type that is not recognized.
pub open spec fn unknown_type_text(name: Seq<char>) -> Seq<char> {
    "unknown type "@ + debug_quoted(name)
        + "; recognized types are vhd, rmd, vmdk, iso, ima"@
}

fn without_dots(s: &str) -> (r: String)
    ensures
        r@ == undotted(s@),
{
    let chars = chars_of(s);
    let mut i: usize = 0;
    assert(chars@.skip(0) == chars@);
    while i < chars.len() && chars[i] == '.'
        invariant
            i <= chars@.len(),
            undotted(chars@) == undotted(chars@.skip(i as int)),
        decreases chars@.len() - i,
    {
        assert(chars@.skip(i as int).skip(1) == chars@.skip(i + 1));
        i += 1;
    }
    string_from(chars.as_slice(), i)
}

fn read_types(list: &Vec<String>) -> (names: Vec<String>)
    ensures
        texts(names@) == scan_types(list@),
{
    let mut names: Vec<String> = Vec::new();
    let mut i: usize = 0;
    assert(texts(names@) =~= scan_types(list@.take(0)));
    while i < list.len()
        invariant
            i <= list@.len(),
            texts(names@) == scan_types(list@.take(i as int)),
        decreases list@.len() - i,
    {
        assert(list@.take(i + 1).drop_last() == list@.take(i as int));
        let name = lowered(without_dots(trimmed(list[i].as_str()).as_str()).as_str());
        if !name.as_str().is_empty() {
            push_line(&mut names, name);
        }
        i += 1;
    }
    assert(list@.take(i as int) == list@);
    names
}

proof fn lemma_known_types(names: Seq<Seq<char>>, n: int)
    requires
        0 <= n <= names.len(),
        forall|i: int| 0 <= i < n ==> recognized(#[trigger] names[i]),
        n < names.len() ==> !recognized(names[n]),
    ensures
        known_types(names) == n,
    decreases n,
{
    if n > 0 {
        assert forall|i: int| 0 <= i < n - 1 implies recognized(
            #[trigger] names.skip(1)[i],
        ) by {
            assert(names.skip(1)[i] == names[i + 1]);
        }
        assert(recognized(names[0]));
        lemma_known_types(names.skip(1), n - 1);
    }
}

/// The policy that the command line asks for. A type that the device does not
/// mount is a mistake worth reporting.
pub fn policy(args: &DoctorArgs) -> (r: Result<Policy>)
    ensures
        ({
            let names = scan_types(args.types@);
            &&& r is Ok <==> known_types(names) == names.len()
            &&& r matches Ok(p) ==> {
                &&& p.iso_max_fragments == args.iso_max_fragments
                &&& p.strict == args.strict
                &&& texts(p.types@) == names
                &&& p.recursive == !args.no_recursive
            }
            &&& r matches Err(e) ==> is_usage(
                e,
                unknown_type_text(names[known_types(names) as int]),
            )
        }),
{
    let types = read_types(&args.types);
    let ghost names = texts(types@);
    let mut i: usize = 0;
    while i < types.len()
        invariant
            i <= types@.len(),
            names == texts(types@),
            names == scan_types(args.types@),
            forall|j: int| 0 <= j < i ==> recognized(#[trigger] names[j]),
        decreases types@.len() - i,
    {
        assert(names[i as int] == types@[i as int]@);
        if !is_recognized(types[i].as_str()) {
            proof {
                lemma_known_types(names, i as int);
            }
            let mut m = "unknown type ".to_owned();
            m.append(quoted(types[i].as_str()).as_str());
            m.append("; recognized types are vhd, rmd, vmdk, iso, ima");
            return Err(Error::Usage(m));
        }
        i += 1;
    }
    proof {
        lemma_known_types(names, i as int);
    }
    Ok(
        Policy {
            iso_max_fragments: args.iso_max_fragments,
            strict: args.strict,
            types,
            recursive: args.is_recursive(),
        },
    )
}

/// A root that is neither a block device nor a directory holds nothing to
/// audit.
pub fn check_root(root: &str, is_dir: bool) -> (r: Result<()>)
    ensures
        r is Ok <==> is_dir,
        r matches Err(e) ==> is_usage(e, root@ + " is not a directory"@),
{
    if is_dir {
        return Ok(());
    }
    let mut m = root.to_owned();
    m.append(" is not a directory");
    Err(Error::Usage(m))
}

// ---------------------------------------------------------------------------
// Grading a file
// ---------------------------------------------------------------------------

/// Everything [`grade`] needs. Gathered once per file, read-only.
#[derive(Debug, Clone)]
pub struct FileFacts {
    pub path: String,
    /// Lowercased, without the dot.
    pub ext: String,
    pub size: u64,
    /// `st_blocks * 512`.
    pub allocated: u64,
    pub run_count: usize,
    pub any_unwritten: bool,
    /// First 512 bytes, for container magics. Short files are zero-padded.
    pub head: [u8; 512],
    /// Last 512 bytes, where a fixed VHD keeps its footer.
    pub tail: [u8; 512],
}

impl FileFacts {
    /// Fewer bytes are allocated than the file is long.
    pub open spec fn sparse(&self) -> bool {
        self.size > 0 && self.allocated < self.size
    }
}

/// The facts that a verdict needs, out of what the system reported.
pub fn gather(
    path: &str,
    ext: String,
    size: u64,
    blocks: u64,
    map: &ExtentMap,
    head: [u8; 512],
    tail: [u8; 512],
) -> (f: FileFacts)
    ensures
        f.path@ == path@,
        f.ext == ext,
        f.size == size,
        f.allocated == sat_mul(blocks, 512),
        f.run_count == map.runs@.len(),
        f.any_unwritten == map.any_unwritten,
        f.head == head,
        f.tail == tail,
{
    FileFacts {
        path: path.to_owned(),
        ext,
        size,
        allocated: saturating_product(blocks, 512),
        run_count: map.runs.len(),
        any_unwritten: map.any_unwritten,
        head,
        tail,
    }
}

#[derive(Debug, Clone, Copy, PartialEq, Eq, PartialOrd, Ord, Structural)]
pub enum Verdict {
    Mountable,
    Warn,
    WillNotMount,
    /// Structurally broken enough that the device may hide it from its
    /// on-screen list entirely, so the operator sees a file they copied simply
    /// missing rather than reported as bad.
    WillNotMountMaybeUnlisted,
}

impl Verdict {
    /// The name of a verdict.
    pub open spec fn name(self) -> Seq<char> {
        match self {
            Verdict::Mountable => "MOUNTABLE"@,
            Verdict::Warn => "WARN"@,
            Verdict::WillNotMount => "WILL-NOT-MOUNT"@,
            Verdict::WillNotMountMaybeUnlisted => "WILL-NOT-MOUNT (may not be listed)"@,
        }
    }

    /// Whether the device will not mount the file.
    pub open spec fn fails(self) -> bool {
        self is WillNotMount || self is WillNotMountMaybeUnlisted
    }

    pub fn label(self) -> (s: &'static str)
        ensures
            s@ == self.name(),
    {
        match self {
            Verdict::Mountable => "MOUNTABLE",
            Verdict::Warn => "WARN",
            Verdict::WillNotMount => "WILL-NOT-MOUNT",
            Verdict::WillNotMountMaybeUnlisted => "WILL-NOT-MOUNT (may not be listed)",
        }
    }

    pub fn is_failure(self) -> (r: bool)
        ensures
            r == self.fails(),
    {
        matches!(self, Verdict::WillNotMount | Verdict::WillNotMountMaybeUnlisted)
    }
}

/// A graded file.
#[derive(Debug, Clone)]
pub struct Assessment {
    pub verdict: Verdict,
    pub reasons: Vec<String>,
}

/// A verdict and the reasons for it, in words.
pub struct Finding {
    pub verdict: Verdict,
    pub reasons: Seq<Seq<char>>,
}

impl View for Assessment {
    type V = Finding;

    open spec fn view(&self) -> Finding {
        Finding { verdict: self.verdict, reasons: texts(self.reasons@) }
    }
}

pub open spec fn sparse_text(f: FileFacts) -> Seq<char> {
    "sparse: "@ + decimal(f.allocated as nat) + " bytes allocated for a "@ + decimal(f.size as nat)
        + " byte file; the device streams sectors off the extent map and cannot read a hole"@
}

pub open spec fn fragments_text(f: FileFacts) -> Seq<char> {
    decimal(f.run_count as nat) + " fragments; the device requires exactly 1"@
}

pub open spec fn floppy_text(f: FileFacts) -> Seq<char> {
    decimal(f.run_count as nat)
        + " fragments; the device's tolerance for floppy images is undocumented, so this is unverified rather than known-bad"@
}

pub open spec fn stray_footer_text(ext: Seq<char>) -> Seq<char> {
    "the last 512 bytes are a VHD footer, which a ."@ + ext
        + " does not use. The device presents this file whole, so the guest sees the footer as trailing disk. It was probably a .vhd that was renamed; `iodd retype --to removable` removes the footer properly."@
}

pub open spec fn uninitialized_text() -> Seq<char> {
    "contains uninitialized extents; a guest will see whatever was previously on those clusters, not zeros"@
}

pub open spec fn ceiling_text(runs: u32, ceiling: u32) -> Seq<char> {
    decimal(runs as nat) + " fragments exceeds the ceiling of "@ + decimal(ceiling as nat)
        + " (override with --iso-max-fragments)"@
}

/// How many fragments a file has, as far as 32 bits can tell.
pub open spec fn fragments(f: FileFacts) -> u32 {
    if f.run_count > u32::MAX {
        u32::MAX
    } else {
        f.run_count as u32
    }
}

/// Mountable where there is nothing to say, a warning otherwise.
pub open spec fn unless_silent(reasons: Seq<Seq<char>>) -> Finding {
    Finding {
        verdict: if reasons.len() == 0 {
            Verdict::Mountable
        } else {
            Verdict::Warn
        },
        reasons,
    }
}

pub open spec fn iso_finding(f: FileFacts, ceiling: u32) -> Finding {
    if fragments(f) > ceiling {
        Finding {
            verdict: Verdict::WillNotMount,
            reasons: seq![ceiling_text(fragments(f), ceiling)],
        }
    } else {
        Finding { verdict: Verdict::Mountable, reasons: Seq::empty() }
    }
}

pub open spec fn raw_finding(f: FileFacts) -> Finding {
    let gates = line_if(f.sparse(), sparse_text(f)) + line_if(
        f.run_count > 1,
        if f.ext@ == "rmd"@ {
            fragments_text(f)
        } else {
            floppy_text(f)
        },
    );
    if f.sparse() || (f.ext@ == "rmd"@ && f.run_count > 1) {
        Finding { verdict: Verdict::WillNotMount, reasons: gates }
    } else {
        unless_silent(
            gates + line_if(has_cookie(f.tail@), stray_footer_text(f.ext@)) + line_if(
                f.any_unwritten,
                uninitialized_text(),
            ),
        )
    }
}

/// The container that a file with a fixed-VHD extension really holds.
pub open spec fn container_of(f: FileFacts) -> Option<Seq<char>> {
    let head = f.head@;
    let disk_type = be_field(head, 60, 4);
    if has_prefix(head, VHDX_SIGNATURE@) {
        Some("VHDX container; the device mounts fixed VHD only"@)
    } else if has_prefix(head, COOKIE@) && disk_type == DISK_TYPE_DYNAMIC {
        Some("dynamic VHD (footer copy at offset 0); the device mounts fixed VHD only"@)
    } else if has_prefix(head, COOKIE@) && disk_type == DISK_TYPE_DIFFERENCING {
        Some("differencing VHD (footer copy at offset 0); the device mounts fixed VHD only"@)
    } else if f.ext@ == "vmdk"@ && has_prefix(head, VMDK_EXTENT@) {
        Some("genuine VMDK sparse extent; IODD expects fixed-VHD bytes under a .vmdk name"@)
    } else if f.ext@ == "vmdk"@ && has_prefix(head, VMDK_DESCRIPTOR@) {
        Some("genuine VMDK descriptor; IODD expects fixed-VHD bytes under a .vmdk name"@)
    } else {
        None
    }
}

/// The size that the footer of a file should name.
pub open spec fn expected_size(size: u64) -> u64 {
    if size < 512 {
        0
    } else {
        (size - 512) as u64
    }
}

pub open spec fn vhd_finding(f: FileFacts) -> Finding {
    let container = container_of(f);
    let gates = line_if(container is Some, container->0) + line_if(f.sparse(), sparse_text(f))
        + line_if(f.run_count > 1, fragments_text(f));
    if f.sparse() || f.run_count > 1 {
        Finding {
            verdict: if container is Some {
                Verdict::WillNotMountMaybeUnlisted
            } else {
                Verdict::WillNotMount
            },
            reasons: gates,
        }
    } else {
        unless_silent(
            gates + finding_texts(f.tail@, Some(expected_size(f.size))) + line_if(
                f.any_unwritten,
                uninitialized_text(),
            ),
        )
    }
}

/// The verdict on a file and the reasons for it.
pub open spec fn finding(f: FileFacts, ceiling: u32) -> Finding {
    if f.ext@ == "iso"@ {
        iso_finding(f, ceiling)
    } else if f.ext@ == "ima"@ || f.ext@ == "rmd"@ {
        raw_finding(f)
    } else {
        vhd_finding(f)
    }
}

/// Grade a file.
pub fn grade(f: &FileFacts, policy: &Policy) -> (a: Assessment)
    ensures
        a@ == finding(*f, policy.iso_max_fragments),
{
    if same_text(f.ext.as_str(), "iso") {
        grade_iso(f, policy)
    } else if same_text(f.ext.as_str(), "ima") || same_text(f.ext.as_str(), "rmd") {
        // Raw images: the whole file is the guest's disk, and no footer belongs.
        grade_raw(f)
    } else {
        // vhd and vmdk: fixed-VHD bytes, last sector is a footer.
        grade_vhd_family(f)
    }
}

/// `.iso`, the one type with a fragment tolerance. No footer or allocation
/// check applies.
fn grade_iso(f: &FileFacts, policy: &Policy) -> (a: Assessment)
    ensures
        a@ == iso_finding(*f, policy.iso_max_fragments),
{
    let runs: u32 = if f.run_count as u64 > u32::MAX as u64 {
        u32::MAX
    } else {
        f.run_count as u32
    };
    let mut reasons: Vec<String> = Vec::new();
    assert(texts(reasons@) =~= Seq::<Seq<char>>::empty());
    if runs > policy.iso_max_fragments {
        let mut m = dec(runs as u64);
        m.append(" fragments exceeds the ceiling of ");
        m.append(dec(policy.iso_max_fragments as u64).as_str());
        m.append(" (override with --iso-max-fragments)");
        push_line(&mut reasons, m);
        assert(texts(reasons@) =~= seq![ceiling_text(runs, policy.iso_max_fragments)]);
        return Assessment { verdict: Verdict::WillNotMount, reasons };
    }
    Assessment { verdict: Verdict::Mountable, reasons }
}

/// Add a reason where it applies.
fn push_reason(reasons: &mut Vec<String>, applies: bool, reason: String)
    ensures
        texts(final(reasons)@) == texts(old(reasons)@) + line_if(applies, reason@),
{
    if applies {
        push_line(reasons, reason);
        assert(texts(reasons@) =~= texts(old(reasons)@) + seq![reason@]);
    } else {
        assert(texts(old(reasons)@) + Seq::<Seq<char>>::empty() =~= texts(old(reasons)@));
    }
}

fn no_reasons() -> (reasons: Vec<String>)
    ensures
        texts(reasons@) == Seq::<Seq<char>>::empty(),
{
    let reasons: Vec<String> = Vec::new();
    assert(texts(reasons@) =~= Seq::<Seq<char>>::empty());
    reasons
}

fn sparse_reason(f: &FileFacts) -> (m: String)
    ensures
        m@ == sparse_text(*f),
{
    let mut m = "sparse: ".to_owned();
    m.append(dec(f.allocated).as_str());
    m.append(" bytes allocated for a ");
    m.append(dec(f.size).as_str());
    m.append(
        " byte file; the device streams sectors off the extent map and cannot read a hole",
    );
    m
}

fn fragments_reason(f: &FileFacts) -> (m: String)
    ensures
        m@ == fragments_text(*f),
{
    let mut m = dec(f.run_count as u64);
    m.append(" fragments; the device requires exactly 1");
    m
}

fn uninitialized_reason() -> (m: String)
    ensures
        m@ == uninitialized_text(),
{
    "contains uninitialized extents; a guest will see whatever was previously on those clusters, not zeros".to_owned()
}

fn settle(reasons: Vec<String>) -> (a: Assessment)
    ensures
        a@ == unless_silent(texts(reasons@)),
{
    let verdict = if reasons.len() == 0 {
        Verdict::Mountable
    } else {
        Verdict::Warn
    };
    Assessment { verdict, reasons }
}

/// `.rmd` and `.ima`, raw removable images.
///
/// The device presents these **whole**, unlike a `.vhd` which has its final
/// sector treated as a footer and excluded. So a footer does not belong here,
/// and its absence is correct rather than a finding. A footer that *is*
/// present is the anomaly worth reporting: the guest will see those 512 bytes
/// as trailing disk.
fn grade_raw(f: &FileFacts) -> (a: Assessment)
    ensures
        a@ == raw_finding(*f),
{
    let sparse = f.size > 0 && f.allocated < f.size;
    let removable = same_text(f.ext.as_str(), "rmd");
    let mut reasons = no_reasons();
    push_reason(&mut reasons, sparse, sparse_reason(f));
    let fragmented = if removable {
        fragments_reason(f)
    } else {
        let mut m = dec(f.run_count as u64);
        m.append(
            " fragments; the device's tolerance for floppy images is undocumented, so this is unverified rather than known-bad",
        );
        m
    };
    push_reason(&mut reasons, f.run_count > 1, fragmented);
    assert(Seq::<Seq<char>>::empty() + line_if(sparse, sparse_text(*f)) =~= line_if(
        sparse,
        sparse_text(*f),
    ));
    if sparse || (removable && f.run_count > 1) {
        return Assessment { verdict: Verdict::WillNotMount, reasons };
    }
    let mut stray = "the last 512 bytes are a VHD footer, which a .".to_owned();
    stray.append(f.ext.as_str());
    stray.append(
        " does not use. The device presents this file whole, so the guest sees the footer as trailing disk. It was probably a .vhd that was renamed; `iodd retype --to removable` removes the footer properly.",
    );
    push_reason(&mut reasons, starts_with(&f.tail, &COOKIE), stray);
    push_reason(&mut reasons, f.any_unwritten, uninitialized_reason());
    settle(reasons)
}

fn grade_vhd_family(f: &FileFacts) -> (a: Assessment)
    ensures
        a@ == vhd_finding(*f),
{
    let sparse = f.size > 0 && f.allocated < f.size;
    let mut reasons = no_reasons();
    // Container misdetection is reported here; its severity is decided below.
    let misnamed = match detect_container(f) {
        Some(why) => {
            push_text(&mut reasons, why);
            true
        },
        None => false,
    };
    let ghost container = container_of(*f);
    assert(texts(reasons@) =~= line_if(container is Some, container->0));
    push_reason(&mut reasons, sparse, sparse_reason(f));
    push_reason(&mut reasons, f.run_count > 1, fragments_reason(f));
    if sparse || f.run_count > 1 {
        // A file that is both the wrong container *and* fails a hard gate is
        // the one most likely to vanish from the device's menu rather than be
        // reported as bad.
        let verdict = if misnamed {
            Verdict::WillNotMountMaybeUnlisted
        } else {
            Verdict::WillNotMount
        };
        return Assessment { verdict, reasons };
    }
    let problems = findings(&f.tail, Some(f.size.saturating_sub(512)));
    push_lines(&mut reasons, problems.as_slice());
    push_reason(&mut reasons, f.any_unwritten, uninitialized_reason());
    settle(reasons)
}

/// Spot files carrying a fixed-VHD extension that are not fixed-VHD bytes.
fn detect_container(f: &FileFacts) -> (r: Option<&'static str>)
    ensures
        r is Some <==> container_of(*f) is Some,
        r matches Some(why) ==> container_of(*f) == Some(why@),
{
    if starts_with(&f.head, &VHDX_SIGNATURE) {
        return Some("VHDX container; the device mounts fixed VHD only");
    }
    // A dynamic or differencing VHD keeps a footer *copy* at offset 0.
    if starts_with(&f.head, &COOKIE) {
        let disk_type: u64 = read_be(&f.head, 60, 4);
        if disk_type == DISK_TYPE_DYNAMIC as u64 {
            return Some(
                "dynamic VHD (footer copy at offset 0); the device mounts fixed VHD only",
            );
        }
        if disk_type == DISK_TYPE_DIFFERENCING as u64 {
            return Some(
                "differencing VHD (footer copy at offset 0); the device mounts fixed VHD only",
            );
        }
    }
    if same_text(f.ext.as_str(), "vmdk") {
        if starts_with(&f.head, &VMDK_EXTENT) {
            return Some(
                "genuine VMDK sparse extent; IODD expects fixed-VHD bytes under a .vmdk name",
            );
        }
        if starts_with(&f.head, &VMDK_DESCRIPTOR) {
            return Some(
                "genuine VMDK descriptor; IODD expects fixed-VHD bytes under a .vmdk name",
            );
        }
    }
    None
}

// ---------------------------------------------------------------------------
// Directories and volumes
// ---------------------------------------------------------------------------

/// A directory holding mountable files that the device cannot list all of.
#[derive(Debug, Clone, PartialEq, Eq)]
pub struct DirectoryFinding {
    pub path: String,
    pub items: usize,
}

/// Check a directory's item count.
pub fn check_directory(path: &str, items: usize) -> (r: Option<DirectoryFinding>)
    ensures
        r is Some <==> items > MAX_ITEMS_PER_DIRECTORY,
        r matches Some(f) ==> f.path@ == path@ && f.items == items,
{
    if items > MAX_ITEMS_PER_DIRECTORY {
        Some(DirectoryFinding { path: path.to_owned(), items })
    } else {
        None
    }
}

/// Volume-level state, reported once for the whole scan.
///
/// Every file on the device can be flawless and still be unreachable, because
/// the volume itself will not mount. That outranks any per-file verdict.
#[derive(Debug, Clone, PartialEq, Eq)]
pub struct VolumeFinding {
    pub device: String,
    pub label: Option<String>,
    pub flags: Vec<String>,
    pub dirty: bool,
}

/// Grade volume state. `None` when nothing is set, which is the normal case.
pub fn check_volume(device: &str, info: &VolumeInfo) -> (r: Option<VolumeFinding>)
    ensures
        r is Some <==> flag_texts(info.flags).len() > 0,
        r matches Some(f) ==> {
            &&& f.device@ == device@
            &&& opt_text(f.label) == opt_text(info.label)
            &&& texts(f.flags@) == flag_texts(info.flags)
            &&& f.dirty == info.dirty()
        },
{
    let flags = flag_strings(info);
    assert(texts(flags@).len() == flags@.len());
    if flags.len() == 0 {
        return None;
    }
    let label = match &info.label {
        Some(l) => Some(l.clone()),
        None => None,
    };
    Some(VolumeFinding { device: device.to_owned(), label, flags, dirty: info.is_dirty() })
}

/// The exit code of a scan that was pointed straight at a block device: there
/// is no tree to walk, only the volume's own state.
pub fn volume_only(info: &VolumeInfo) -> (code: u8)
    ensures
        code == if info.dirty() {
            4u8
        } else {
            0
        },
{
    if info.is_dirty() {
        4
    } else {
        0
    }
}

// ---------------------------------------------------------------------------
// The scan
// ---------------------------------------------------------------------------

/// Whether a character comes before another in the order of paths: a separator
/// comes before anything a name can hold, so that a directory's contents stay
/// together.
pub open spec fn char_before(a: char, b: char) -> bool {
    if a == '/' || b == '/' {
        b != '/'
    } else {
        (a as int) < (b as int)
    }
}

fn char_comes_before(a: char, b: char) -> (r: bool)
    ensures
        r == char_before(a, b),
{
    if a == '/' || b == '/' {
        b != '/'
    } else {
        (a as u32) < (b as u32)
    }
}

/// Whether path `a` comes before path `b`, component by component.
pub open spec fn before(a: Seq<char>, b: Seq<char>) -> bool
    decreases a.len(),
{
    if b.len() == 0 {
        false
    } else if a.len() == 0 {
        true
    } else if a[0] != b[0] {
        char_before(a[0], b[0])
    } else {
        before(a.skip(1), b.skip(1))
    }
}

proof fn lemma_before_is_total(a: Seq<char>, b: Seq<char>)
    ensures
        before(a, b) || before(b, a) || a == b,
        !(before(a, b) && before(b, a)),
        !before(a, a),
    decreases a.len(),
{
    if a.len() > 0 && b.len() > 0 && a[0] == b[0] {
        lemma_before_is_total(a.skip(1), b.skip(1));
        if a.skip(1) == b.skip(1) {
            assert(a =~= seq![a[0]] + a.skip(1));
            assert(b =~= seq![b[0]] + b.skip(1));
        }
    } else if a.len() == 0 && b.len() == 0 {
        assert(a =~= b);
    }
    if a.len() > 0 {
        lemma_before_is_total(a.skip(1), a.skip(1));
    }
}

proof fn lemma_before_is_transitive(a: Seq<char>, b: Seq<char>, c: Seq<char>)
    requires
        before(a, b),
        before(b, c),
    ensures
        before(a, c),
    decreases a.len(),
{
    if a.len() > 0 && a[0] == b[0] && b[0] == c[0] {
        lemma_before_is_transitive(a.skip(1), b.skip(1), c.skip(1));
    }
}

/// Whether path `a` comes before path `b`.
fn comes_before(a: &str, b: &str) -> (r: bool)
    ensures
        r == before(a@, b@),
{
    let x = chars_of(a);
    let y = chars_of(b);
    let mut i: usize = 0;
    assert(x@.skip(0) == x@ && y@.skip(0) == y@);
    while i < x.len() && i < y.len() && x[i] == y[i]
        invariant
            i <= x@.len(),
            i <= y@.len(),
            before(x@, y@) == before(x@.skip(i as int), y@.skip(i as int)),
        decreases x@.len() - i,
    {
        assert(x@.skip(i as int).skip(1) == x@.skip(i + 1));
        assert(y@.skip(i as int).skip(1) == y@.skip(i + 1));
        i += 1;
    }
    if i == y.len() {
        return false;
    }
    if i == x.len() {
        return true;
    }
    char_comes_before(x[i], y[i])
}

/// Whether records stand in the order of their paths.
pub open spec fn in_order(records: Seq<Record>) -> bool {
    forall|i: int, j: int|
        0 <= i < j < records.len() ==> !before(
            (#[trigger] records[j]).path@,
            (#[trigger] records[i]).path@,
        )
}

/// Whether directories stand in the order of their paths, each once.
pub open spec fn strictly_in_order(dirs: Seq<String>) -> bool {
    forall|i: int, j: int|
        0 <= i < j < dirs.len() ==> before((#[trigger] dirs[i])@, (#[trigger] dirs[j])@)
}

/// What a walk has found so far, in the order of the paths.
#[derive(Debug, Clone)]
pub struct Scan {
    records: Vec<Record>,
    dirs: Vec<String>,
}

impl Scan {
    pub closed spec fn records_of(&self) -> Seq<Record> {
        self.records@
    }

    /// Directories holding at least one mountable file.
    pub closed spec fn dirs_of(&self) -> Seq<String> {
        self.dirs@
    }

    pub open spec fn wf(&self) -> bool {
        in_order(self.records_of()) && strictly_in_order(self.dirs_of())
    }

    /// Nothing has been found yet.
    pub fn new() -> (s: Scan)
        ensures
            s.wf(),
            s.records_of() == Seq::<Record>::empty(),
            s.dirs_of() == Seq::<String>::empty(),
    {
        Scan { records: Vec::new(), dirs: Vec::new() }
    }

    /// Take in the record of a file. The file's directory is one whose items
    /// are to be counted.
    pub fn add(&mut self, record: Record)
        requires
            old(self).wf(),
        ensures
            final(self).wf(),
            final(self).records_of().to_multiset() == old(self).records_of().to_multiset().insert(
                record,
            ),
            texts(final(self).dirs_of()).to_set() == match parent_of(record.path@) {
                Some(d) => texts(old(self).dirs_of()).to_set().insert(d),
                None => texts(old(self).dirs_of()).to_set(),
            },
    {
        match parent(record.path.as_str()) {
            Some(dir) => {
                insert_dir(&mut self.dirs, dir);
            },
            None => {},
        }
        insert_record(&mut self.records, record);
    }

    /// The records, in the order of their paths.
    pub fn records(&self) -> (r: &[Record])
        ensures
            r@ == self.records_of(),
    {
        self.records.as_slice()
    }

    /// The directories that hold the files, in the order of their paths.
    pub fn dirs(&self) -> (r: &[String])
        ensures
            r@ == self.dirs_of(),
    {
        self.dirs.as_slice()
    }
}

fn insert_record(records: &mut Vec<Record>, record: Record)
    requires
        in_order(old(records)@),
    ensures
        in_order(final(records)@),
        final(records)@.to_multiset() == old(records)@.to_multiset().insert(record),
{
    let mut i: usize = records.len();
    while i > 0 && comes_before(record.path.as_str(), records[i - 1].path.as_str())
        invariant
            i <= records@.len(),
            records@ == old(records)@,
            forall|j: int|
                i <= j < records@.len() ==> before(record.path@, (#[trigger] records@[j]).path@),
        decreases i,
    {
        i -= 1;
    }
    let ghost s = records@;
    let ghost k = i as int;
    let ghost p = record.path@;
    assert forall|j: int| 0 <= j < k implies !before(p, (#[trigger] s[j]).path@) by {
        if j < k - 1 {
            lemma_before_is_total(s[j].path@, s[k - 1].path@);
            lemma_before_is_total(p, s[k - 1].path@);
            lemma_before_is_total(p, s[j].path@);
            if before(p, s[j].path@) && before(s[j].path@, s[k - 1].path@) {
                lemma_before_is_transitive(p, s[j].path@, s[k - 1].path@);
            }
        }
    }
    assert forall|j: int| k <= j < s.len() implies !before((#[trigger] s[j]).path@, p) by {
        lemma_before_is_total(p, s[j].path@);
    }
    records.insert(i, record);
    proof {
        vstd::seq_lib::to_multiset_insert(s, k, record);
        let t = records@;
        assert forall|a: int, b: int| 0 <= a < b < t.len() implies !before(
            (#[trigger] t[b]).path@,
            (#[trigger] t[a]).path@,
        ) by {
            let x = if a < k { a } else { a - 1 };
            let y = if b < k { b } else { b - 1 };
            if a != k && b != k {
                assert(t[a] == s[x] && t[b] == s[y]);
            } else if a == k {
                assert(t[b] == s[y]);
            } else {
                assert(t[a] == s[x]);
            }
        }
    }
}

fn insert_dir(dirs: &mut Vec<String>, dir: String)
    requires
        strictly_in_order(old(dirs)@),
    ensures
        strictly_in_order(final(dirs)@),
        texts(final(dirs)@).to_set() == texts(old(dirs)@).to_set().insert(dir@),
{
    let mut i: usize = dirs.len();
    while i > 0 && comes_before(dir.as_str(), dirs[i - 1].as_str())
        invariant
            i <= dirs@.len(),
            dirs@ == old(dirs)@,
            forall|j: int| i <= j < dirs@.len() ==> before(dir@, (#[trigger] dirs@[j])@),
        decreases i,
    {
        i -= 1;
    }
    let ghost s = dirs@;
    let ghost k = i as int;
    if i > 0 && same_text(dirs[i - 1].as_str(), dir.as_str()) {
        assert(texts(s)[k - 1] == dir@);
        assert(texts(s).to_set() =~= texts(s).to_set().insert(dir@));
        return;
    }
    assert forall|j: int| 0 <= j < k implies before((#[trigger] s[j])@, dir@) by {
        lemma_before_is_total(s[k - 1]@, dir@);
        if j < k - 1 {
            lemma_before_is_transitive(s[j]@, s[k - 1]@, dir@);
        }
    }
    dirs.insert(i, dir);
    proof {
        let t = dirs@;
        assert forall|a: int, b: int| 0 <= a < b < t.len() implies before(
            (#[trigger] t[a])@,
            (#[trigger] t[b])@,
        ) by {
            let x = if a < k { a } else { a - 1 };
            let y = if b < k { b } else { b - 1 };
            if a != k && b != k {
                assert(t[a] == s[x] && t[b] == s[y]);
            } else if a == k {
                assert(t[b] == s[y]);
            } else {
                assert(t[a] == s[x]);
            }
        }
        assert(texts(t).to_set() =~= texts(s).to_set().insert(dir@)) by {
            assert forall|x: Seq<char>| texts(s).contains(x) implies texts(t).contains(x) by {
                let j = choose|j: int| 0 <= j < texts(s).len() && texts(s)[j] == x;
                let m = if j < k { j } else { j + 1 };
                assert(texts(t)[m] == x);
            }
            assert(texts(t)[k] == dir@);
            assert forall|x: Seq<char>| texts(t).contains(x) implies x == dir@ || texts(
                s,
            ).contains(x) by {
                let j = choose|j: int| 0 <= j < texts(t).len() && texts(t)[j] == x;
                if j < k {
                    assert(texts(s)[j] == x);
                } else if j > k {
                    assert(texts(s)[j - 1] == x);
                }
            }
        }
    }
}

// ---------------------------------------------------------------------------
// The aggregate
// ---------------------------------------------------------------------------

/// Whether a file could not be read.
pub open spec fn any_unreadable(records: Seq<Record>) -> bool {
    exists|i: int| 0 <= i < records.len() && (#[trigger] records[i]).verdict is None
}

/// Whether a file will not mount.
pub open spec fn any_failure(records: Seq<Record>) -> bool {
    exists|i: int|
        0 <= i < records.len() && ((#[trigger] records[i]).verdict matches Some(v) && v.fails())
}

/// Whether a file mounts with a warning.
pub open spec fn any_warning(records: Seq<Record>) -> bool {
    exists|i: int| 0 <= i < records.len() && (#[trigger] records[i]).verdict == Some(Verdict::Warn)
}

/// The exit code of a scan.
pub open spec fn scan_code(
    records: Seq<Record>,
    over_full: bool,
    vol: Option<VolumeFinding>,
    strict: bool,
) -> u8 {
    if vol is Some && vol->0.dirty {
        4
    } else if any_unreadable(records) {
        1
    } else if strict && over_full {
        4
    } else if any_failure(records) || (strict && any_warning(records)) {
        4
    } else {
        0
    }
}

/// Aggregate exit: 0 when everything mounts, 4 when anything will not, and
/// under `--strict` 4 when anything warns.
///
/// A dirty volume outranks everything else: the volume will not mount next
/// time it is attached, which makes every file on it unreachable however
/// sound. Unreadable files are a usage-level problem, not a device verdict. An
/// over-full directory hides files rather than breaking them, so it is a
/// warning.
pub fn exit_code(
    records: &[Record],
    dirs: &[DirectoryFinding],
    vol: Option<&VolumeFinding>,
    strict: bool,
) -> (code: u8)
    ensures
        code == scan_code(
            records@,
            dirs@.len() > 0,
            match vol {
                Some(v) => Some(*v),
                None => None,
            },
            strict,
        ),
{
    match vol {
        Some(v) => {
            if v.dirty {
                return 4;
            }
        },
        None => {},
    }
    let mut unreadable = false;
    let mut failure = false;
    let mut warning = false;
    let mut i: usize = 0;
    while i < records.len()
        invariant
            i <= records@.len(),
            unreadable == any_unreadable(records@.take(i as int)),
            failure == any_failure(records@.take(i as int)),
            warning == any_warning(records@.take(i as int)),
        decreases records@.len() - i,
    {
        proof {
            lemma_one_more(records@, i as int);
        }
        match records[i].verdict {
            Some(v) => {
                failure = failure || v.is_failure();
                warning = warning || v == Verdict::Warn;
            },
            None => {
                unreadable = true;
            },
        }
        i += 1;
    }
    assert(records@.take(i as int) == records@);
    if unreadable {
        return 1;
    }
    if strict && dirs.len() > 0 {
        return 4;
    }
    if failure || (strict && warning) {
        4
    } else {
        0
    }
}

proof fn lemma_one_more(records: Seq<Record>, i: int)
    requires
        0 <= i < records.len(),
    ensures
        ({
            let a = records.take(i);
            let b = records.take(i + 1);
            let v = records[i].verdict;
            &&& any_unreadable(b) == (any_unreadable(a) || v is None)
            &&& any_failure(b) == (any_failure(a) || (v matches Some(w) && w.fails()))
            &&& any_warning(b) == (any_warning(a) || v == Some(Verdict::Warn))
        }),
{
    let a = records.take(i);
    let b = records.take(i + 1);
    assert(b[i] == records[i]);
    assert forall|j: int| 0 <= j < i implies #[trigger] a[j] == b[j] by {}
    if any_unreadable(a) {
        let j = choose|j: int| 0 <= j < a.len() && (#[trigger] a[j]).verdict is None;
        assert(b[j] == a[j]);
    }
    if any_failure(a) {
        let j = choose|j: int|
            0 <= j < a.len() && ((#[trigger] a[j]).verdict matches Some(v) && v.fails());
        assert(b[j] == a[j]);
    }
    if any_warning(a) {
        let j = choose|j: int| 0 <= j < a.len() && (#[trigger] a[j]).verdict == Some(Verdict::Warn);
        assert(b[j] == a[j]);
    }
    if any_unreadable(b) {
        let j = choose|j: int| 0 <= j < b.len() && (#[trigger] b[j]).verdict is None;
        if j < i {
            assert(a[j].verdict is None);
        }
    }
    if any_failure(b) {
        let j = choose|j: int|
            0 <= j < b.len() && ((#[trigger] b[j]).verdict matches Some(v) && v.fails());
        if j < i {
            assert(a[j] == b[j]);
        }
    }
    if any_warning(b) {
        let j = choose|j: int| 0 <= j < b.len() && (#[trigger] b[j]).verdict == Some(Verdict::Warn);
        if j < i {
            assert(a[j] == b[j]);
        }
    }
}

// ---------------------------------------------------------------------------
// Laws
// ---------------------------------------------------------------------------

/// A file fails exactly when it fails what the device enforces: for an ISO the
/// fragment ceiling, for everything else full allocation and, except for a
/// floppy image, a single extent.
pub proof fn law_only_hard_gates_fail(f: FileFacts, ceiling: u32)
    ensures
        finding(f, ceiling).verdict.fails() <==> if f.ext@ == "iso"@ {
            fragments(f) > ceiling
        } else {
            f.sparse() || (f.run_count > 1 && f.ext@ != "ima"@)
        },
{
    reveal_strlit("iso");
    reveal_strlit("ima");
    reveal_strlit("rmd");
    assert("ima"@[0] == 'i' && "rmd"@[0] == 'r');
}

/// Neither the footer nor the first sector of a file decides whether the device
/// will mount it.
pub proof fn law_contents_never_condemn(f: FileFacts, g: FileFacts, ceiling: u32)
    requires
        f.ext == g.ext,
        f.size == g.size,
        f.allocated == g.allocated,
        f.run_count == g.run_count,
    ensures
        finding(f, ceiling).verdict.fails() == finding(g, ceiling).verdict.fails(),
{
    law_only_hard_gates_fail(f, ceiling);
    law_only_hard_gates_fail(g, ceiling);
}

/// A file is graded mountable exactly when there is nothing to say about it.
pub proof fn law_every_verdict_is_explained(f: FileFacts, ceiling: u32)
    ensures
        finding(f, ceiling).verdict is Mountable <==> finding(f, ceiling).reasons.len() == 0,
{
}

/// A file may be missing from the device's list only where it both holds
/// another container and fails a hard gate.
pub proof fn law_unlisted_means_broken_twice(f: FileFacts, ceiling: u32)
    ensures
        finding(f, ceiling).verdict is WillNotMountMaybeUnlisted ==> container_of(f) is Some && (
        f.sparse() || f.run_count > 1),
{
}

/// A `.vhd` that was laid down as asked grades clean: data of whole sectors, a
/// fresh footer behind it, one fully allocated and fully written extent, and no
/// container's magic at its start.
pub proof fn law_a_fresh_vhd_is_mountable(
    f: FileFacts,
    ceiling: u32,
    virtual_size: u64,
    creator: Creator,
    timestamp: u32,
    unique_id: [u8; 16],
)
    requires
        f.ext@ == "vhd"@,
        virtual_size % 512 == 0,
        f.size == virtual_size + 512,
        f.allocated >= f.size,
        f.run_count == 1,
        !f.any_unwritten,
        f.tail@ == footer_bytes(fresh(virtual_size, creator, timestamp, unique_id)),
        container_of(f) is None,
    ensures
        finding(f, ceiling) == (Finding { verdict: Verdict::Mountable, reasons: Seq::empty() }),
{
    reveal_strlit("vhd");
    reveal_strlit("iso");
    reveal_strlit("ima");
    reveal_strlit("rmd");
    assert("vhd"@[0] == 'v' && "iso"@[0] == 'i' && "ima"@[0] == 'i' && "rmd"@[0] == 'r');
    law_fresh_footer_has_no_problems(
        virtual_size,
        creator,
        timestamp,
        unique_id,
        Some(virtual_size),
    );
    assert(finding(f, ceiling).reasons =~= Seq::<Seq<char>>::empty());
}

/// A raw removable image grades clean without a footer.
pub proof fn law_a_raw_image_needs_no_footer(f: FileFacts, ceiling: u32)
    requires
        f.ext@ == "rmd"@ || f.ext@ == "ima"@,
        f.allocated >= f.size,
        f.run_count <= 1,
        !f.any_unwritten,
        !has_cookie(f.tail@),
    ensures
        finding(f, ceiling) == (Finding { verdict: Verdict::Mountable, reasons: Seq::empty() }),
{
    reveal_strlit("iso");
    reveal_strlit("ima");
    reveal_strlit("rmd");
    assert("iso"@[1] == 's' && "ima"@[1] == 'm' && "rmd"@[0] == 'r');
    assert(finding(f, ceiling).reasons =~= Seq::<Seq<char>>::empty());
}

/// A dirty volume fails the scan, however sound every file on it is.
pub proof fn law_a_dirty_volume_outranks_everything(
    records: Seq<Record>,
    over_full: bool,
    vol: VolumeFinding,
    strict: bool,
)
    requires
        vol.dirty,
    ensures
        scan_code(records, over_full, Some(vol), strict) == 4,
{
}

/// A volume that could not be read, or whose flags do not stop a mount, leaves
/// the verdict alone.
pub proof fn law_other_volume_state_changes_nothing(
    records: Seq<Record>,
    over_full: bool,
    vol: VolumeFinding,
    strict: bool,
)
    requires
        !vol.dirty,
    ensures
        scan_code(records, over_full, Some(vol), strict) == scan_code(
            records,
            over_full,
            None,
            strict,
        ),
{
}

/// `--strict` only ever adds failures.
pub proof fn law_strict_only_adds_failures(
    records: Seq<Record>,
    over_full: bool,
    vol: Option<VolumeFinding>,
)
    ensures
        scan_code(records, over_full, vol, false) != 0 ==> scan_code(records, over_full, vol, true)
            == scan_code(records, over_full, vol, false),
{
}

/// The temp file of a build is never graded: no policy covers it.
pub proof fn law_temp_files_are_not_scanned(
    p: Policy,
    target: Seq<char>,
    pid: u32,
    attempt: u32,
)
    ensures
        ({
            let temp = inside(directory_of(target), temp_text(pid, attempt));
            extension_of(temp) is Some && !p.covers(lower(extension_of(temp)->0))
        }),
{
    law_temp_files_lie_beside_their_target(target, pid, attempt);
    reveal_strlit("tmp");
    reveal_strlit("vhd");
    reveal_strlit("rmd");
    reveal_strlit("vmdk");
    reveal_strlit("iso");
    reveal_strlit("ima");
    assert(lower("tmp"@)[0] == 't');
}

/// Every type that a policy covers is one the device mounts, and a policy that
/// names no type covers all of those.
pub proof fn law_policies_stay_inside_the_device(p: Policy, ext: Seq<char>)
    ensures
        p.covers(ext) ==> recognized(ext),
        p.types@.len() == 0 && recognized(ext) ==> p.covers(ext),
{
}

/// Whether a record says that its file will not mount.
pub open spec fn condemns(r: Record) -> bool {
    r.verdict == Some(Verdict::WillNotMount) || r.verdict == Some(
        Verdict::WillNotMountMaybeUnlisted,
    )
}

/// The exit code of a scan says what was found, worst first: 4 for a dirty
/// volume, else 1 for a file that could not be read, else 4 for a file that will
/// not mount, and under `--strict` for a warning or an over-full directory. It
/// is 0 exactly when there is none of these.
pub proof fn law_exit_codes_tell_the_worst(
    records: &[Record],
    dirs: &[DirectoryFinding],
    vol: Option<&VolumeFinding>,
    strict: bool,
    code: u8,
)
    requires
        call_ensures(exit_code, (records, dirs, vol, strict), code),
    ensures
        ({
            let dirty = vol matches Some(v) && v.dirty;
            let readable = forall|i: int|
                0 <= i < records@.len() ==> (#[trigger] records@[i]).verdict is Some;
            let sound = forall|i: int|
                0 <= i < records@.len() ==> !condemns(#[trigger] records@[i]);
            let quiet = forall|i: int|
                0 <= i < records@.len() ==> (#[trigger] records@[i]).verdict != Some(
                    Verdict::Warn,
                );
            &&& code == 0 || code == 1 || code == 4
            &&& dirty ==> code == 4
            &&& !dirty && !readable ==> code == 1
            &&& !dirty && readable && !sound ==> code == 4
            &&& code == 0 <==> !dirty && readable && sound && (strict ==> quiet && dirs@.len()
                == 0)
        }),
{
    let found = match vol {
        Some(v) => Some(*v),
        None => None,
    };
    assert(code == scan_code(records@, dirs@.len() > 0, found, strict));
    if !(forall|i: int| 0 <= i < records@.len() ==> !condemns(#[trigger] records@[i])) {
        let i = choose|i: int| 0 <= i < records@.len() && condemns(#[trigger] records@[i]);
        assert(records@[i].verdict matches Some(v) && v.fails());
    }
}

/// One more file never hides a failure: a scan that fails goes on failing.
pub proof fn law_a_failure_stays_a_failure(
    records: Seq<Record>,
    more: Record,
    over_full: bool,
    vol: Option<VolumeFinding>,
    strict: bool,
)
    requires
        scan_code(records, over_full, vol, strict) != 0,
    ensures
        scan_code(records.push(more), over_full, vol, strict) != 0,
        more.verdict is Some ==> scan_code(records.push(more), over_full, vol, strict) == scan_code(
            records,
            over_full,
            vol,
            strict,
        ),
{
    let n = records.len() as int;
    let all = records.push(more);
    assert(all.take(n) =~= records);
    assert(all.take(n + 1) =~= all);
    lemma_one_more(all, n);
}

/// The verdict on a file fails exactly where the device refuses it: an ISO in
/// more fragments than the ceiling, unless that is as high as it goes; anything
/// else that has fewer bytes allocated than it is long; and anything but a
/// floppy image that lies in more than one extent.
pub proof fn law_the_device_decides_what_fails(f: &FileFacts, policy: &Policy, a: Assessment)
    requires
        call_ensures(grade, (f, policy), a),
    ensures
        ({
            let fails = if f.ext@ == "iso"@ {
                f.run_count > policy.iso_max_fragments && policy.iso_max_fragments < u32::MAX
            } else {
                f.allocated < f.size || (f.run_count > 1 && f.ext@ != "ima"@)
            };
            fails <==> a.verdict == Verdict::WillNotMount || a.verdict
                == Verdict::WillNotMountMaybeUnlisted
        }),
{
    law_only_hard_gates_fail(*f, policy.iso_max_fragments);
    assert(a@.verdict == a.verdict);
}

/// Whether the start of a file with a fixed-VHD extension shows that it holds
/// something else: a VHDX, a dynamic or differencing VHD, or under `.vmdk` a
/// genuine VMDK.
pub open spec fn shows_another_container(head: Seq<u8>, ext: Seq<char>) -> bool {
    ||| head[0] == 0x76 && head[1] == 0x68 && head[2] == 0x64 && head[3] == 0x78 && head[4] == 0x66
        && head[5] == 0x69 && head[6] == 0x6c && head[7] == 0x65
    ||| starts_with_cookie(head) && (be_digits(head, 60, 4) == 3 || be_digits(head, 60, 4) == 4)
    ||| ext == "vmdk"@ && head[0] == 0x4b && head[1] == 0x44 && head[2] == 0x4d && head[3] == 0x56
    ||| ext == "vmdk"@ && has_prefix(head, VMDK_DESCRIPTOR@)
}

proof fn lemma_containers(f: FileFacts)
    ensures
        container_of(f) is Some <==> shows_another_container(f.head@, f.ext@),
        has_cookie(f.tail@) <==> starts_with_cookie(f.tail@),
{
    let head = f.head@;
    law_prefixes_agree_byte_by_byte(head, VHDX_SIGNATURE@);
    law_prefixes_agree_byte_by_byte(head, COOKIE@);
    law_prefixes_agree_byte_by_byte(head, VMDK_EXTENT@);
    law_prefixes_agree_byte_by_byte(f.tail@, COOKIE@);
    law_big_endian_fields_hold_digits(head, 60, 4);
    assert(f.tail@.take(8) == COOKIE@ <==> has_prefix(f.tail@, COOKIE@));
    lemma_eight(head, VHDX_SIGNATURE@);
    lemma_eight(head, COOKIE@);
    lemma_eight(f.tail@, COOKIE@);
    assert(has_prefix(head, VMDK_EXTENT@) <==> head[0] == 0x4b && head[1] == 0x44 && head[2] == 0x4d
        && head[3] == 0x56) by {
        let p = VMDK_EXTENT@;
        if head[0] == p[0] && head[1] == p[1] && head[2] == p[2] && head[3] == p[3] {
            assert(forall|i: int| 0 <= i < 4 ==> #[trigger] head[i] == p[i]);
        }
    }
}

proof fn lemma_eight(b: Seq<u8>, p: Seq<u8>)
    requires
        b.len() >= 8,
        p.len() == 8,
    ensures
        has_prefix(b, p) <==> b[0] == p[0] && b[1] == p[1] && b[2] == p[2] && b[3] == p[3] && b[4]
            == p[4] && b[5] == p[5] && b[6] == p[6] && b[7] == p[7],
{
    law_prefixes_agree_byte_by_byte(b, p);
    if b[0] == p[0] && b[1] == p[1] && b[2] == p[2] && b[3] == p[3] && b[4] == p[4] && b[5] == p[5]
        && b[6] == p[6] && b[7] == p[7] {
        assert(forall|i: int| 0 <= i < 8 ==> #[trigger] b[i] == p[i]);
    }
}

/// A file that the device takes is graded without a warning exactly when there
/// is nothing odd about it. A raw image has no stray footer; a fixed VHD has an
/// intact footer that names the file's size without it, and no sign of another
/// container. Both were written throughout, and a floppy image lies in one
/// piece. An ISO never warns.
pub proof fn law_warnings_are_for_cause(f: &FileFacts, policy: &Policy, a: Assessment)
    requires
        call_ensures(grade, (f, policy), a),
    ensures
        ({
            let passes = a.verdict == Verdict::Mountable || a.verdict == Verdict::Warn;
            &&& f.ext@ == "iso"@ ==> a.verdict != Verdict::Warn
            &&& (f.ext@ == "rmd"@ || f.ext@ == "ima"@) && passes ==> (a.verdict
                == Verdict::Mountable <==> f.run_count <= 1 && !starts_with_cookie(f.tail@)
                && !f.any_unwritten)
            &&& (f.ext@ == "vhd"@ || f.ext@ == "vmdk"@) && passes ==> (a.verdict
                == Verdict::Mountable <==> !shows_another_container(f.head@, f.ext@) && intact(
                f.tail@,
                Some(
                    if f.size < 512 {
                        0
                    } else {
                        (f.size - 512) as u64
                    },
                ),
            ) && !f.any_unwritten)
            &&& (f.ext@ == "vhd"@ || f.ext@ == "vmdk"@) && !passes ==> (a.verdict
                == Verdict::WillNotMountMaybeUnlisted <==> shows_another_container(
                f.head@,
                f.ext@,
            ))
            &&& a.verdict == Verdict::Mountable <==> a.reasons@.len() == 0
        }),
{
    lemma_type_names();
    lemma_containers(*f);
    let e = Some(expected_size(f.size));
    law_only_intact_footers_have_no_problems(f.tail@, e);
    assert(a@.verdict == a.verdict);
    assert(a@.reasons.len() == a.reasons@.len());
}

/// Every cause is told, each by itself and in its place. Bytes that are missing
/// and fragments come with their figures, what would be a container in the
/// wrong place comes first, and extents that were never written come last.
pub proof fn law_every_cause_is_told(f: &FileFacts, policy: &Policy, a: Assessment)
    requires
        call_ensures(grade, (f, policy), a),
    ensures
        ({
            let t = texts(a.reasons@);
            let passes = a.verdict == Verdict::Mountable || a.verdict == Verdict::Warn;
            let odd: int = if shows_another_container(f.head@, f.ext@) {
                1
            } else {
                0
            };
            let short: int = if f.allocated < f.size {
                1
            } else {
                0
            };
            let pieces: int = if f.run_count > 1 {
                1
            } else {
                0
            };
            let stale: int = if f.any_unwritten {
                1
            } else {
                0
            };
            let stray: int = if starts_with_cookie(f.tail@) {
                1
            } else {
                0
            };
            let lack = "sparse: "@ + decimal(f.allocated as nat) + " bytes allocated for a "@
                + decimal(f.size as nat);
            let broken = decimal(f.run_count as nat) + " fragments; the device requires exactly 1"@;
            let unwritten =
                "contains uninitialized extents; a guest will see whatever was previously on those clusters, not zeros"@;
            &&& f.ext@ == "iso"@ && !passes ==> t.len() == 1
            &&& f.ext@ == "iso"@ && passes ==> t.len() == 0
            &&& (f.ext@ == "vhd"@ || f.ext@ == "vmdk"@) && !passes ==> {
                &&& t.len() == odd + short + pieces
                &&& short == 1 ==> lack.is_prefix_of(t[odd])
                &&& pieces == 1 ==> t.last() == broken
            }
            &&& (f.ext@ == "vhd"@ || f.ext@ == "vmdk"@) && passes ==> {
                &&& t.len() == odd + finding_texts(f.tail@, Some(expected_size(f.size))).len()
                    + stale
                &&& stale == 1 ==> t.last() == unwritten
            }
            &&& f.ext@ == "rmd"@ && !passes ==> {
                &&& t.len() == short + pieces
                &&& short == 1 ==> lack.is_prefix_of(t[0])
                &&& pieces == 1 ==> t.last() == broken
            }
            &&& f.ext@ == "ima"@ && !passes ==> {
                &&& t.len() == short + pieces
                &&& lack.is_prefix_of(t[0])
            }
            &&& (f.ext@ == "rmd"@ || f.ext@ == "ima"@) && passes ==> {
                &&& t.len() == pieces + stray + stale
                &&& pieces == 1 ==> decimal(f.run_count as nat).is_prefix_of(t[0])
                &&& stale == 1 ==> t.last() == unwritten
            }
        }),
{
    lemma_type_names();
    lemma_containers(*f);
    law_only_hard_gates_fail(*f, policy.iso_max_fragments);
    assert(a@.verdict == a.verdict);
    assert(a@.reasons == texts(a.reasons@));
    let lack = "sparse: "@ + decimal(f.allocated as nat) + " bytes allocated for a "@ + decimal(
        f.size as nat,
    );
    assert(lack.is_prefix_of(sparse_text(*f)));
}

proof fn lemma_type_names()
    ensures
        "vhd"@ != "iso"@ && "vhd"@ != "ima"@ && "vhd"@ != "rmd"@,
        "vmdk"@ != "iso"@ && "vmdk"@ != "ima"@ && "vmdk"@ != "rmd"@,
        "rmd"@ != "iso"@ && "ima"@ != "iso"@ && "rmd"@ != "ima"@,
{
    reveal_strlit("vhd");
    reveal_strlit("vmdk");
    reveal_strlit("iso");
    reveal_strlit("ima");
    reveal_strlit("rmd");
    assert("vhd"@[0] == 'v' && "vmdk"@[0] == 'v' && "iso"@[1] == 's' && "ima"@[1] == 'm');
    assert("rmd"@[0] == 'r' && "iso"@[0] == 'i' && "ima"@[0] == 'i');
}

/// The facts that are graded are those that the system reported.
pub proof fn law_facts_are_gathered_as_reported(
    path: &str,
    ext: String,
    size: u64,
    blocks: u64,
    map: &ExtentMap,
    head: [u8; 512],
    tail: [u8; 512],
    f: FileFacts,
)
    requires
        call_ensures(gather, (path, ext, size, blocks, map, head, tail), f),
    ensures
        f.path@ == path@,
        f.ext == ext,
        f.size == size,
        blocks * 512 <= u64::MAX ==> f.allocated == blocks * 512,
        blocks * 512 > u64::MAX ==> f.allocated == u64::MAX,
        f.run_count == map.runs@.len(),
        f.any_unwritten == map.any_unwritten,
        f.head == head,
        f.tail == tail,
{
}

/// A directory is reported exactly when it has more than 32 items.
pub proof fn law_directories_hold_thirty_two(
    path: &str,
    items: usize,
    r: Option<DirectoryFinding>,
)
    requires
        call_ensures(check_directory, (path, items), r),
    ensures
        r is Some <==> items > 32,
        r matches Some(f) ==> f.items == items && f.path@ == path@,
{
}

/// A volume is reported exactly when one of its known flags is set, as dirty
/// exactly when the lowest one is, and a scan of the bare volume fails exactly
/// then.
pub proof fn law_volumes_are_reported_for_their_flags(
    device: &str,
    info: &VolumeInfo,
    r: Option<VolumeFinding>,
    code: u8,
)
    requires
        call_ensures(check_volume, (device, info), r),
        call_ensures(volume_only, (info,), code),
    ensures
        r is Some <==> info.flags & 0x803f != 0,
        r matches Some(f) ==> (f.dirty <==> info.flags % 2 == 1) && f.device@ == device@,
        code == 4 <==> info.flags % 2 == 1,
        code == 0 <==> info.flags % 2 == 0,
{
    law_names_tell_the_flags(info.flags);
    let f = info.flags;
    assert(f & 1 != 0 <==> f % 2 == 1) by (bit_vector);
}

/// A file is graded exactly when its extension, in whatever case, is one of the
/// five that the device mounts and, where types were named, one of those.
pub proof fn law_candidates_are_what_the_device_mounts(
    p: &Policy,
    path: &str,
    r: Option<String>,
)
    requires
        call_ensures(Policy::candidate, (p, path), r),
    ensures
        r is Some <==> (extension_of(path@) matches Some(e) && (lower(e) == "vhd"@ || lower(e)
            == "rmd"@ || lower(e) == "vmdk"@ || lower(e) == "iso"@ || lower(e) == "ima"@) && (
        p.types@.len() == 0 || exists|i: int|
            0 <= i < p.types@.len() && lower((#[trigger] p.types@[i])@) == lower(lower(e)))),
        r matches Some(ext) ==> extension_of(path@) is Some && ext@ == lower(
            extension_of(path@)->0,
        ),
{
}

/// In the order of a scan a path comes before those that it is the start of.
/// Where two paths part, a separator comes first, so that what is in a directory
/// stays together, and otherwise the character with the lower code point.
pub proof fn law_paths_are_ordered_by_component(p: Seq<char>, a: Seq<char>, b: Seq<char>)
    ensures
        b.len() > 0 ==> before(p, p + b) && !before(p + b, p),
        a.len() > 0 && b.len() > 0 && a[0] != b[0] && a[0] == '/' ==> before(p + a, p + b),
        a.len() > 0 && b.len() > 0 && a[0] != '/' && b[0] != '/' && (a[0] as int) < (b[0] as int)
            ==> before(p + a, p + b) && !before(p + b, p + a),
    decreases p.len(),
{
    if p.len() == 0 {
        assert(p + a =~= a);
        assert(p + b =~= b);
    } else {
        law_paths_are_ordered_by_component(p.skip(1), a, b);
        assert((p + a).skip(1) =~= p.skip(1) + a);
        assert((p + b).skip(1) =~= p.skip(1) + b);
    }
}

proof fn lemma_scanned(list: Seq<String>, x: Seq<char>)
    ensures
        scan_types(list).contains(x) <==> x.len() > 0 && exists|i: int|
            0 <= i < list.len() && scan_type((#[trigger] list[i])@) == x,
    decreases list.len(),
{
    if list.len() > 0 {
        let front = list.drop_last();
        let before = scan_types(front);
        let all = scan_types(list);
        lemma_scanned(front, x);
        if before.contains(x) {
            let k = choose|k: int| 0 <= k < before.len() && before[k] == x;
            assert(all[k] == x);
            let i = choose|i: int| 0 <= i < front.len() && scan_type((#[trigger] front[i])@) == x;
            assert(list[i] == front[i]);
        }
        if scan_type(list.last()@) == x && x.len() > 0 {
            assert(all.last() == x);
            assert(list[list.len() - 1] == list.last());
        }
        if all.contains(x) {
            let k = choose|k: int| 0 <= k < all.len() && all[k] == x;
            if k < before.len() {
                assert(before[k] == x);
            }
        }
        if exists|i: int| 0 <= i < list.len() && scan_type((#[trigger] list[i])@) == x {
            let i = choose|i: int| 0 <= i < list.len() && scan_type((#[trigger] list[i])@) == x;
            if i < front.len() {
                assert(front[i] == list[i]);
            }
        }
    }
}

proof fn lemma_known_to_the_end(names: Seq<Seq<char>>)
    ensures
        known_types(names) == names.len() <==> forall|i: int|
            0 <= i < names.len() ==> recognized(#[trigger] names[i]),
    decreases names.len(),
{
    if names.len() > 0 {
        let rest = names.skip(1);
        lemma_known_to_the_end(rest);
        assert(forall|i: int| 0 <= i < rest.len() ==> #[trigger] rest[i] == names[i + 1]);
        if known_types(names) == names.len() {
            assert forall|i: int| 0 <= i < names.len() implies recognized(#[trigger] names[i]) by {
                if i > 0 {
                    assert(rest[i - 1] == names[i]);
                }
            }
        } else if forall|i: int| 0 <= i < names.len() ==> recognized(#[trigger] names[i]) {
            assert(recognized(names[0]));
        }
    }
}

proof fn lemma_undotted(dots: Seq<char>, e: Seq<char>)
    requires
        forall|i: int| 0 <= i < dots.len() ==> #[trigger] dots[i] == '.',
        e.len() > 0 ==> e[0] != '.',
    ensures
        undotted(dots + e) == e,
    decreases dots.len(),
{
    let s = dots + e;
    if dots.len() > 0 {
        assert(s[0] == dots[0]);
        assert(s.skip(1) =~= dots.skip(1) + e);
        assert forall|i: int| 0 <= i < dots.skip(1).len() implies #[trigger] dots.skip(1)[i]
            == '.' by {
            assert(dots.skip(1)[i] == dots[i + 1]);
        }
        lemma_undotted(dots.skip(1), e);
    } else {
        assert(s =~= e);
    }
}

/// Whether `s` means the extension `e` on a command line: `e` in any case, with
/// dots before it, and blanks round both.
pub open spec fn means(s: Seq<char>, e: Seq<char>) -> bool {
    exists|from: int, to: int, at: int| #[trigger] spelled_at(s, e, from, to, at)
}

/// Whether blanks reach up to `from` and on from `to`, and dots from there to
/// `at`, where `e` stands.
pub open spec fn spelled_at(s: Seq<char>, e: Seq<char>, from: int, to: int, at: int) -> bool {
    &&& 0 <= from <= at < to <= s.len()
    &&& forall|i: int|
        0 <= i < s.len() && !(from <= i < to) ==> s[i] == ' ' || 9 <= #[trigger] s[i] as int <= 13
    &&& forall|i: int| from <= i < at ==> #[trigger] s[i] == '.'
    &&& s[at] != '.'
    &&& s[from] as int > 0x20 && (s[from] as int) < 0x7f
    &&& s[to - 1] as int > 0x20 && (s[to - 1] as int) < 0x7f
    &&& e.len() == to - at
    &&& forall|i: int|
        at <= i < to ==> (#[trigger] s[i] == e[i - at] && !(0x41 <= s[i] as int <= 0x5a)) || (0x41
            <= s[i] as int <= 0x5a && e[i - at] as int == s[i] as int + 32)
}

proof fn lemma_means(s: Seq<char>, e: Seq<char>)
    requires
        means(s, e),
    ensures
        scan_type(s) == e,
        e.len() > 0,
{
    let (from, to, at) = choose|from: int, to: int, at: int| #[trigger]
        spelled_at(s, e, from, to, at);
    assert forall|i: int| 0 <= i < from implies white_space(#[trigger] s[i]) by {}
    assert forall|i: int| to <= i < s.len() implies white_space(#[trigger] s[i]) by {}
    lemma_trim_is(s, from, to);
    let body = s.subrange(from, to);
    let dots = s.subrange(from, at);
    let name = s.subrange(at, to);
    assert(body =~= dots + name);
    lemma_undotted(dots, name);
    assert(lower(name) =~= e) by {
        assert forall|i: int| 0 <= i < e.len() implies #[trigger] lower(name)[i] == e[i] by {
            let c = s[at + i];
            assert(name[i] == c);
            if 0x41 <= c as int <= 0x5a {
                assert((c as int + 32) as char as int == c as int + 32);
            }
        }
    }
}

/// A scan covers the types that were named, in any case and with or without
/// dots and blanks round them, and goes by the rest of the command line as it
/// stands. A name that means none of the device's five types is refused.
pub proof fn law_policies_are_what_was_asked_for(
    args: &DoctorArgs,
    r: Result<Policy>,
    i: int,
    e: Seq<char>,
)
    requires
        call_ensures(policy, (args,), r),
        0 <= i < args.types@.len(),
        means(args.types@[i]@, e),
    ensures
        r matches Ok(p) ==> {
            &&& p.iso_max_fragments == args.iso_max_fragments
            &&& p.strict == args.strict
            &&& p.recursive == !args.no_recursive
            &&& texts(p.types@).contains(e)
            &&& e == "vhd"@ || e == "rmd"@ || e == "vmdk"@ || e == "iso"@ || e == "ima"@
        },
        r matches Err(x) ==> x is Usage,
{
    let names = scan_types(args.types@);
    lemma_means(args.types@[i]@, e);
    lemma_scanned(args.types@, e);
    lemma_known_to_the_end(names);
    if r is Ok {
        let k = choose|k: int| 0 <= k < names.len() && names[k] == e;
        assert(recognized(names[k]));
    }
}

/// A command line is refused for its types exactly when one of them, without
/// its dots and blanks, is something other than the device's five.
pub proof fn law_unknown_types_are_refused(args: &DoctorArgs, r: Result<Policy>)
    requires
        call_ensures(policy, (args,), r),
    ensures
        r is Ok <==> forall|i: int|
            0 <= i < args.types@.len() ==> {
                let e = scan_type((#[trigger] args.types@[i])@);
                e.len() == 0 || e == "vhd"@ || e == "rmd"@ || e == "vmdk"@ || e == "iso"@ || e
                    == "ima"@
            },
        r matches Ok(p) ==> args.types@.len() == 0 ==> p.types@.len() == 0,
{
    let list = args.types@;
    let names = scan_types(list);
    lemma_known_to_the_end(names);
    if r is Ok {
        assert forall|i: int| 0 <= i < list.len() implies {
            let e = scan_type((#[trigger] list[i])@);
            e.len() == 0 || recognized(e)
        } by {
            let e = scan_type(list[i]@);
            lemma_scanned(list, e);
            if e.len() > 0 {
                let k = choose|k: int| 0 <= k < names.len() && names[k] == e;
                assert(recognized(names[k]));
            }
        }
    } else {
        let k = choose|k: int| 0 <= k < names.len() && !recognized(#[trigger] names[k]);
        lemma_scanned(list, names[k]);
        assert(names.contains(names[k]));
        let i = choose|i: int| 0 <= i < list.len() && scan_type((#[trigger] list[i])@) == names[k];
        assert(!recognized(scan_type(list[i]@)));
    }
    if r is Ok && list.len() == 0 {
        assert(texts(r->Ok_0.types@).len() == 0);
    }
}

/// Whether `s` means one of the types that the device mounts.
pub open spec fn means_known_type(s: Seq<char>) -> bool {
    means(s, "vhd"@) || means(s, "rmd"@) || means(s, "vmdk"@) || means(s, "iso"@) || means(
        s,
        "ima"@,
    )
}

/// A list of types that the device mounts is never refused, however they are
/// written.
pub proof fn law_known_types_are_accepted(args: &DoctorArgs, r: Result<Policy>)
    requires
        call_ensures(policy, (args,), r),
        forall|i: int| 0 <= i < args.types@.len() ==> means_known_type((#[trigger] args.types@[i])@),
    ensures
        r is Ok,
{
    law_unknown_types_are_refused(args, r);
    assert forall|i: int| 0 <= i < args.types@.len() implies {
        let e = scan_type((#[trigger] args.types@[i])@);
        e.len() == 0 || e == "vhd"@ || e == "rmd"@ || e == "vmdk"@ || e == "iso"@ || e == "ima"@
    } by {
        let s = args.types@[i]@;
        let e: Seq<char> = if means(s, "vhd"@) {
            "vhd"@
        } else if means(s, "rmd"@) {
            "rmd"@
        } else if means(s, "vmdk"@) {
            "vmdk"@
        } else if means(s, "iso"@) {
            "iso"@
        } else {
            "ima"@
        };
        lemma_means(s, e);
    }
}

/// Only directories are scanned.
pub proof fn law_roots_are_directories(root: &str, is_dir: bool, r: Result<()>)
    requires
        call_ensures(check_root, (root, is_dir), r),
    ensures
        is_dir ==> r is Ok,
        !is_dir ==> (r matches Err(Error::Usage(m)) && root@.is_prefix_of(m@)),
{
}

/// A scan goes all the way down unless told not to, and then looks at the files
/// of the root alone.
pub proof fn law_scans_go_all_the_way_down(p: &Policy, d: usize)
    requires
        call_ensures(Policy::max_depth, (p,), d),
    ensures
        p.recursive ==> d == usize::MAX,
        !p.recursive ==> d == 1,
{
}

/// Unless told otherwise a scan covers every type and every directory, takes
/// warnings lightly, and lets an image be in two dozen pieces.
pub proof fn law_scans_are_broad_by_default(p: Policy)
    requires
        call_ensures(Policy::default, (), p),
    ensures
        p.iso_max_fragments == 24,
        p.recursive,
        !p.strict,
        p.types@.len() == 0,
{
}

/// Whatever a scan has found stands in the order of the paths, from the first
/// record on, and no directory stands in it twice.
pub proof fn law_scans_stay_in_order(s: &Scan, r: &[Record], d: &[String], i: int, j: int)
    requires
        s.wf(),
        call_ensures(Scan::records, (s,), r),
        call_ensures(Scan::dirs, (s,), d),
        0 <= i < j,
    ensures
        j < r@.len() ==> before(r@[i].path@, r@[j].path@) || r@[i].path@ == r@[j].path@,
        j < d@.len() ==> before(d@[i]@, d@[j]@) && d@[i]@ != d@[j]@,
{
    if j < r@.len() {
        lemma_before_is_total(r@[i].path@, r@[j].path@);
    }
    if j < d@.len() {
        lemma_before_is_total(d@[i]@, d@[j]@);
    }
}

/// A scan starts with nothing found.
pub proof fn law_scans_start_empty(s: Scan)
    requires
        call_ensures(Scan::new, (), s),
    ensures
        s.wf(),
        s.records_of().len() == 0,
        s.dirs_of().len() == 0,
{
}

} // verus!
