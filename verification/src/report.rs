//! The table that `doctor` prints, line by line.

use vstd::prelude::*;

use crate::cmd::doctor::{
    Assessment, DirectoryFinding, FileFacts, Verdict, VolumeFinding, MAX_ITEMS_PER_DIRECTORY,
};
use crate::contig::report::label_text;
use crate::contig::volume::VolumeInfo;
use crate::paths::{
    extension, extension_of, file_name, inside, law_names_read_back, lemma_inside, name_of, parent,
    parent_of, plain_name,
};
use crate::size::{human_text, humanize};
use crate::text::{
    chars_of, control, dec, decimal, digit, hex, hexadecimal, is_control, join, joined,
    left_aligned, lower, lowered, numeral, pad_left, pad_right, push_line, push_lines,
    push_text, right_aligned, string_from, texts,
};

verus! {

// ---------------------------------------------------------------------------
// Records
// ---------------------------------------------------------------------------

/// One graded file.
#[derive(Debug, Clone)]
pub struct Record {
    pub path: String,
    pub file_type: String,
    pub size: u64,
    pub extents: usize,
    /// `None` when the file could not be read, which is not a device verdict.
    pub verdict: Option<Verdict>,
    pub verdict_label: String,
    pub reasons: Vec<String>,
}

/// The reasons, copied.
fn copied(reasons: &Vec<String>) -> (r: Vec<String>)
    ensures
        texts(r@) == texts(reasons@),
{
    let mut r: Vec<String> = Vec::new();
    assert(texts(r@) =~= Seq::<Seq<char>>::empty());
    push_lines(&mut r, reasons.as_slice());
    assert(Seq::<Seq<char>>::empty() + texts(reasons@) =~= texts(reasons@));
    r
}

impl Record {
    /// The record of a graded file.
    pub fn new(facts: &FileFacts, assessment: &Assessment) -> (r: Record)
        ensures
            r.path@ == facts.path@,
            r.file_type@ == facts.ext@,
            r.size == facts.size,
            r.extents == facts.run_count,
            r.verdict == Some(assessment.verdict),
            r.verdict_label@ == assessment.verdict.name(),
            texts(r.reasons@) == assessment@.reasons,
    {
        Record {
            path: facts.path.clone(),
            file_type: facts.ext.clone(),
            size: facts.size,
            extents: facts.run_count,
            verdict: Some(assessment.verdict),
            verdict_label: assessment.verdict.label().to_owned(),
            reasons: copied(&assessment.reasons),
        }
    }

    /// The record of a file that could not be read. The device might be
    /// perfectly happy with it; there is no telling.
    pub fn unreadable(path: &str, why: &str) -> (r: Record)
        ensures
            r.path@ == path@,
            r.file_type@ == match extension_of(path@) {
                Some(e) => lower(e),
                None => Seq::empty(),
            },
            r.size == 0,
            r.extents == 0,
            r.verdict is None,
            r.verdict_label@ == "UNREADABLE"@,
            texts(r.reasons@) == seq![why@],
    {
        let file_type = match extension(path) {
            Some(e) => lowered(e.as_str()),
            None => String::new(),
        };
        let mut reasons: Vec<String> = Vec::new();
        push_text(&mut reasons, why);
        assert(texts(reasons@) =~= seq![why@]);
        Record {
            path: path.to_owned(),
            file_type,
            size: 0,
            extents: 0,
            verdict: None,
            verdict_label: "UNREADABLE".to_owned(),
            reasons,
        }
    }
}

/// A directory the device cannot fully list.
#[derive(Debug, Clone)]
pub struct DirRecord {
    pub path: String,
    pub items: usize,
    pub limit: usize,
    pub reason: String,
}

impl<'a> From<&'a DirectoryFinding> for DirRecord {
    fn from(f: &'a DirectoryFinding) -> (r: DirRecord)
        ensures
            r.path@ == f.path@,
            r.items == f.items,
            r.limit == MAX_ITEMS_PER_DIRECTORY,
            r.reason@ == decimal(f.items as nat)
                + " items exceeds the device's limit of 32 per directory; files beyond it will not appear in the on-screen list. Move some into subfolders, which the limit does not count across."@,
    {
        let mut reason = dec(f.items as u64);
        reason.append(
            " items exceeds the device's limit of 32 per directory; files beyond it will not appear in the on-screen list. Move some into subfolders, which the limit does not count across.",
        );
        DirRecord {
            path: f.path.clone(),
            items: f.items,
            limit: MAX_ITEMS_PER_DIRECTORY,
            reason,
        }
    }
}

impl<'a> vstd::std_specs::convert::FromSpecImpl<&'a DirectoryFinding> for DirRecord {
    open spec fn obeys_from_spec() -> bool {
        false
    }

    open spec fn from_spec(f: &'a DirectoryFinding) -> DirRecord {
        arbitrary()
    }
}

// ---------------------------------------------------------------------------
// Names
// ---------------------------------------------------------------------------

/// How a character is shown.
pub open spec fn shown_char(c: char) -> Seq<char> {
    if c == '\n' {
        seq!['\\', 'n']
    } else if c == '\r' {
        seq!['\\', 'r']
    } else if c == '\t' {
        seq!['\\', 't']
    } else if control(c) {
        seq!['\\', 'x'] + hexadecimal(c as nat, 2)
    } else {
        seq![c]
    }
}

/// A text with its control characters made visible.
pub open spec fn shown(s: Seq<char>) -> Seq<char>
    decreases s.len(),
{
    if s.len() == 0 {
        Seq::empty()
    } else {
        shown(s.drop_last()) + shown_char(s.last())
    }
}

fn push_shown(out: &mut String, c: char)
    ensures
        final(out)@ == old(out)@ + shown_char(c),
{
    if c == '\n' {
        out.push('\\');
        out.push('n');
        assert(out@ =~= old(out)@ + seq!['\\', 'n']);
    } else if c == '\r' {
        out.push('\\');
        out.push('r');
        assert(out@ =~= old(out)@ + seq!['\\', 'r']);
    } else if c == '\t' {
        out.push('\\');
        out.push('t');
        assert(out@ =~= old(out)@ + seq!['\\', 't']);
    } else if is_control(c) {
        out.push('\\');
        out.push('x');
        out.append(hex(c as u64, 2).as_str());
        assert(out@ =~= old(out)@ + (seq!['\\', 'x'] + hexadecimal(c as nat, 2)));
    } else {
        out.push(c);
        assert(out@ =~= old(out)@ + seq![c]);
    }
}

/// Render control characters visibly instead of letting them out.
///
/// A filename with an embedded newline would split one row across two lines
/// and misalign every column after it, and a terminal escape sequence is worth
/// neutering too.
pub fn escape_control(s: &str) -> (r: String)
    ensures
        r@ == shown(s@),
{
    let chars = chars_of(s);
    let mut out = String::new();
    let mut i: usize = 0;
    while i < chars.len()
        invariant
            i <= chars@.len(),
            out@ == shown(chars@.take(i as int)),
        decreases chars@.len() - i,
    {
        assert(chars@.take(i + 1).drop_last() == chars@.take(i as int));
        push_shown(&mut out, chars[i]);
        i += 1;
    }
    assert(chars@.take(i as int) == chars@);
    out
}

/// The name of a file with the directory it is in.
pub open spec fn name_in_context(path: Seq<char>) -> Seq<char> {
    let file = match name_of(path) {
        Some(n) => n,
        None => Seq::empty(),
    };
    let dir = match parent_of(path) {
        Some(p) => name_of(p),
        None => None,
    };
    match dir {
        Some(d) => d + "/"@ + file,
        None => file,
    }
}

/// The name a file is listed under. Keeps the leading directory for context,
/// since IODD layouts nest.
pub fn display_name(path: &str) -> (r: String)
    ensures
        r@ == shown(name_in_context(path@)),
{
    let file = match file_name(path) {
        Some(n) => n,
        None => String::new(),
    };
    let dir = match parent(path) {
        Some(p) => file_name(p.as_str()),
        None => None,
    };
    match dir {
        Some(d) => {
            let mut joined = d;
            joined.append("/");
            joined.append(file.as_str());
            escape_control(joined.as_str())
        },
        None => escape_control(file.as_str()),
    }
}

/// A text cut down to `width` characters, the last of them kept.
pub open spec fn cut_down(s: Seq<char>, width: nat) -> Seq<char> {
    if s.len() <= width {
        s
    } else {
        let keep = if width == 0 {
            0
        } else {
            width - 1
        };
        seq!['…'] + s.skip(s.len() - keep)
    }
}

/// Truncate from the left: the tail of an IODD filename carries the version
/// and the mode tags, which is the part worth keeping.
pub fn truncate(s: &str, width: usize) -> (r: String)
    ensures
        r@ == cut_down(s@, width as nat),
{
    let chars = chars_of(s);
    if chars.len() <= width {
        return s.to_owned();
    }
    let keep: usize = width.saturating_sub(1);
    let mut r = String::new();
    r.push('…');
    r.append(string_from(chars.as_slice(), chars.len() - keep).as_str());
    assert(r@ =~= cut_down(s@, width as nat));
    r
}

// ---------------------------------------------------------------------------
// The table
// ---------------------------------------------------------------------------

/// The longest name that is listed.
pub open spec fn longest_name(records: Seq<Record>) -> nat
    decreases records.len(),
{
    if records.len() == 0 {
        0
    } else {
        let front = longest_name(records.drop_last());
        let len = shown(name_in_context(records.last().path@)).len();
        if front < len {
            len
        } else {
            front
        }
    }
}

/// How wide the column of names is.
pub open spec fn name_width(records: Seq<Record>) -> nat {
    let n = longest_name(records);
    if n < 4 {
        4
    } else if n > 60 {
        60
    } else {
        n
    }
}

/// The line of a file, with its name in a column `w` wide.
pub open spec fn row_text(r: Record, w: nat) -> Seq<char> {
    pad_right(cut_down(shown(name_in_context(r.path@)), w), w, ' ') + "  "@ + pad_left(
        r.file_type@,
        4,
        ' ',
    ) + "  "@ + pad_left(human_text(r.size), 12, ' ') + "  "@ + pad_left(
        decimal(r.extents as nat),
        7,
        ' ',
    ) + "  "@ + r.verdict_label@
}

/// The line of a reason below a file.
pub open spec fn reason_text(reason: Seq<char>, w: nat) -> Seq<char> {
    pad_right(Seq::empty(), w, ' ') + "    - "@ + reason
}

/// The lines of the reasons below a file.
pub open spec fn reason_rows(reasons: Seq<String>, w: nat) -> Seq<Seq<char>> {
    Seq::new(reasons.len(), |i: int| reason_text(reasons[i]@, w))
}

/// The lines of every file.
pub open spec fn rows(records: Seq<Record>, w: nat) -> Seq<Seq<char>>
    decreases records.len(),
{
    if records.len() == 0 {
        Seq::empty()
    } else {
        rows(records.drop_last(), w).push(row_text(records.last(), w)) + reason_rows(
            records.last().reasons@,
            w,
        )
    }
}

/// How many files earned what.
pub struct Tally {
    pub mountable: nat,
    pub warned: nat,
    pub failing: nat,
    pub unreadable: nat,
}

/// How many files earned what.
pub open spec fn tally(records: Seq<Record>) -> Tally
    decreases records.len(),
{
    if records.len() == 0 {
        Tally { mountable: 0, warned: 0, failing: 0, unreadable: 0 }
    } else {
        let t = tally(records.drop_last());
        match records.last().verdict {
            Some(Verdict::Mountable) => Tally { mountable: t.mountable + 1, ..t },
            Some(Verdict::Warn) => Tally { warned: t.warned + 1, ..t },
            Some(_) => Tally { failing: t.failing + 1, ..t },
            None => Tally { unreadable: t.unreadable + 1, ..t },
        }
    }
}

/// The line that counts the files.
///
/// A warned file still mounts, so it counts as mountable; the parenthesis says
/// how many of those carry warnings.
pub open spec fn count_text(total: nat, t: Tally) -> Seq<char> {
    let counted = decimal(total) + " file(s): "@ + decimal(t.mountable + t.warned)
        + " mountable ("@ + decimal(t.warned) + " with warnings), "@ + decimal(t.failing)
        + " will not"@;
    if t.unreadable > 0 {
        counted + ", "@ + decimal(t.unreadable) + " unreadable"@
    } else {
        counted
    }
}

/// What can be done about files that will not mount.
pub open spec fn remedy_lines() -> Seq<Seq<char>> {
    seq![
        ""@,
        "Files that will not mount cannot be repaired from Linux: nothing here can relocate NTFS clusters."@,
        "Consolidate free space on Windows (built-in defrag, or Sysinternals Contig on the single file),"@,
        "or re-lay the file on a volume with a large enough contiguous free run."@,
    ]
}

/// The lines below the table that sum it up.
pub open spec fn summary_lines(records: Seq<Record>) -> Seq<Seq<char>> {
    let t = tally(records);
    seq![""@, count_text(records.len(), t)] + if t.failing > 0 {
        remedy_lines()
    } else {
        Seq::empty()
    }
}

/// The line of an over-full directory.
pub open spec fn directory_text(d: DirectoryFinding) -> Seq<char> {
    "  "@ + d.path@ + " — "@ + decimal(d.items as nat) + " items"@
}

/// The lines of the over-full directories.
pub open spec fn directory_rows(dirs: Seq<DirectoryFinding>) -> Seq<Seq<char>> {
    Seq::new(dirs.len(), |i: int| directory_text(dirs[i]))
}

/// What is said about over-full directories.
pub open spec fn directory_lines(dirs: Seq<DirectoryFinding>) -> Seq<Seq<char>> {
    if dirs.len() == 0 {
        Seq::empty()
    } else {
        seq![
            ""@,
            decimal(dirs.len()) + " director"@ + (if dirs.len() == 1 {
                "y"@
            } else {
                "ies"@
            }) + " over the device's 32-item limit:"@,
        ] + directory_rows(dirs) + seq![
            ""@,
            "Files past the first 32 will not appear in the on-screen list, however sound they are."@,
            "Move some into subfolders; the limit counts per directory, not per drive."@,
        ]
    }
}

/// The name of a volume: its label and device, or its device alone.
pub open spec fn volume_name(v: VolumeFinding) -> Seq<char> {
    match v.label {
        Some(l) => l@ + " ("@ + v.device@ + ")"@,
        None => v.device@,
    }
}

/// What is said about the state of a volume.
pub open spec fn volume_lines(vol: Option<VolumeFinding>) -> Seq<Seq<char>> {
    match vol {
        None => Seq::empty(),
        Some(v) => if v.dirty {
            seq![
                ""@,
                "VOLUME DIRTY: "@ + volume_name(v),
                ""@,
                "This volume will not mount again until the flag is cleared, however sound"@,
                "the files above are. The IODD sets it by dropping the volume off the USB"@,
                "bus mid-write when it switches modes, so unmount before using the device's"@,
                "own controls."@,
                ""@,
                "  ntfsfix -d "@ + v.device@ + "        # quick clear on Linux"@,
                "  chkdsk /f            # thorough, on Windows"@,
            ]
        } else {
            seq![
                ""@,
                "Volume flags on "@ + volume_name(v) + ": "@ + join(texts(v.flags@), ", "@),
            ]
        },
    }
}

/// The report of a scan.
pub open spec fn table_lines(
    records: Seq<Record>,
    dirs: Seq<DirectoryFinding>,
    vol: Option<VolumeFinding>,
) -> Seq<Seq<char>> {
    let w = name_width(records);
    let body = if records.len() == 0 {
        seq!["no IODD-mountable files found"@]
    } else {
        seq![pad_right("FILE"@, w, ' ') + "  TYPE          SIZE  EXTENTS  VERDICT"@] + rows(
            records,
            w,
        ) + summary_lines(records)
    };
    body + directory_lines(dirs) + volume_lines(vol)
}

/// The finding inside an optional reference.
pub open spec fn found(vol: Option<&VolumeFinding>) -> Option<VolumeFinding> {
    match vol {
        Some(v) => Some(*v),
        None => None,
    }
}

fn widest_name(records: &[Record]) -> (w: usize)
    ensures
        w == name_width(records@),
{
    let mut longest: usize = 0;
    let mut i: usize = 0;
    while i < records.len()
        invariant
            i <= records@.len(),
            longest == longest_name(records@.take(i as int)),
        decreases records@.len() - i,
    {
        assert(records@.take(i + 1).drop_last() == records@.take(i as int));
        let len: usize = display_name(records[i].path.as_str()).as_str().unicode_len();
        if longest < len {
            longest = len;
        }
        i += 1;
    }
    assert(records@.take(i as int) == records@);
    if longest < 4 {
        4
    } else if longest > 60 {
        60
    } else {
        longest
    }
}

fn row(r: &Record, w: usize) -> (s: String)
    ensures
        s@ == row_text(*r, w as nat),
{
    let name = truncate(display_name(r.path.as_str()).as_str(), w);
    let mut s = left_aligned(name.as_str(), w, ' ');
    s.append("  ");
    s.append(right_aligned(r.file_type.as_str(), 4, ' ').as_str());
    s.append("  ");
    s.append(right_aligned(humanize(r.size).as_str(), 12, ' ').as_str());
    s.append("  ");
    s.append(right_aligned(dec(r.extents as u64).as_str(), 7, ' ').as_str());
    s.append("  ");
    s.append(r.verdict_label.as_str());
    s
}

fn push_reasons(lines: &mut Vec<String>, reasons: &Vec<String>, w: usize)
    ensures
        texts(final(lines)@) == texts(old(lines)@) + reason_rows(reasons@, w as nat),
{
    let ghost all = reason_rows(reasons@, w as nat);
    let mut i: usize = 0;
    while i < reasons.len()
        invariant
            i <= reasons@.len(),
            all == reason_rows(reasons@, w as nat),
            texts(lines@) == texts(old(lines)@) + all.take(i as int),
        decreases reasons@.len() - i,
    {
        let nothing = String::new();
        assert(nothing@ =~= Seq::<char>::empty());
        let mut s = left_aligned(nothing.as_str(), w, ' ');
        s.append("    - ");
        s.append(reasons[i].as_str());
        push_line(lines, s);
        i += 1;
        assert(all.take(i as int) =~= all.take(i - 1).push(all[i - 1]));
    }
    assert(all.take(i as int) =~= all);
}

fn push_rows(lines: &mut Vec<String>, records: &[Record], w: usize)
    ensures
        texts(final(lines)@) == texts(old(lines)@) + rows(records@, w as nat),
{
    let mut i: usize = 0;
    assert(texts(lines@) =~= texts(old(lines)@) + rows(records@.take(0), w as nat));
    while i < records.len()
        invariant
            i <= records@.len(),
            texts(lines@) == texts(old(lines)@) + rows(records@.take(i as int), w as nat),
        decreases records@.len() - i,
    {
        assert(records@.take(i + 1).drop_last() == records@.take(i as int));
        push_line(lines, row(&records[i], w));
        push_reasons(lines, &records[i].reasons, w);
        i += 1;
        assert(texts(lines@) =~= texts(old(lines)@) + rows(records@.take(i as int), w as nat));
    }
    assert(records@.take(i as int) == records@);
}

/// Sum a scan up.
fn print_summary(records: &[Record]) -> (lines: Vec<String>)
    ensures
        texts(lines@) == summary_lines(records@),
{
    let mut mountable: usize = 0;
    let mut warned: usize = 0;
    let mut failing: usize = 0;
    let mut unreadable: usize = 0;
    let mut i: usize = 0;
    while i < records.len()
        invariant
            i <= records@.len(),
            tally(records@.take(i as int)) == (Tally {
                mountable: mountable as nat,
                warned: warned as nat,
                failing: failing as nat,
                unreadable: unreadable as nat,
            }),
            mountable + warned + failing + unreadable == i,
        decreases records@.len() - i,
    {
        assert(records@.take(i + 1).drop_last() == records@.take(i as int));
        match records[i].verdict {
            Some(Verdict::Mountable) => {
                mountable += 1;
            },
            Some(Verdict::Warn) => {
                warned += 1;
            },
            Some(_) => {
                failing += 1;
            },
            None => {
                unreadable += 1;
            },
        }
        i += 1;
    }
    assert(records@.take(i as int) == records@);

    let mut lines: Vec<String> = Vec::new();
    push_text(&mut lines, "");
    let mut s = dec(records.len() as u64);
    s.append(" file(s): ");
    s.append(dec((mountable + warned) as u64).as_str());
    s.append(" mountable (");
    s.append(dec(warned as u64).as_str());
    s.append(" with warnings), ");
    s.append(dec(failing as u64).as_str());
    s.append(" will not");
    if unreadable > 0 {
        s.append(", ");
        s.append(dec(unreadable as u64).as_str());
        s.append(" unreadable");
    }
    push_line(&mut lines, s);
    let ghost head = texts(lines@);
    assert(head =~= seq![""@, count_text(records@.len(), tally(records@))]);
    if failing > 0 {
        push_text(&mut lines, "");
        push_text(
            &mut lines,
            "Files that will not mount cannot be repaired from Linux: nothing here can relocate NTFS clusters.",
        );
        push_text(
            &mut lines,
            "Consolidate free space on Windows (built-in defrag, or Sysinternals Contig on the single file),",
        );
        push_text(
            &mut lines,
            "or re-lay the file on a volume with a large enough contiguous free run.",
        );
        assert(texts(lines@) =~= head + remedy_lines());
    } else {
        assert(head + Seq::<Seq<char>>::empty() =~= head);
    }
    lines
}

/// Over-full directories hide files rather than breaking them, so they are
/// reported apart from the per-file verdicts: every file listed above may be
/// perfectly good and still be invisible on the device.
fn print_directory_findings(dirs: &[DirectoryFinding]) -> (lines: Vec<String>)
    ensures
        texts(lines@) == directory_lines(dirs@),
{
    let mut lines: Vec<String> = Vec::new();
    assert(texts(lines@) =~= Seq::<Seq<char>>::empty());
    if dirs.len() == 0 {
        return lines;
    }
    push_text(&mut lines, "");
    let mut s = dec(dirs.len() as u64);
    s.append(" director");
    if dirs.len() == 1 {
        s.append("y");
    } else {
        s.append("ies");
    }
    s.append(" over the device's 32-item limit:");
    push_line(&mut lines, s);
    let ghost head = texts(lines@);
    let ghost all = directory_rows(dirs@);
    let mut i: usize = 0;
    while i < dirs.len()
        invariant
            i <= dirs@.len(),
            all == directory_rows(dirs@),
            texts(lines@) == head + all.take(i as int),
        decreases dirs@.len() - i,
    {
        let mut s = "  ".to_owned();
        s.append(dirs[i].path.as_str());
        s.append(" — ");
        s.append(dec(dirs[i].items as u64).as_str());
        s.append(" items");
        push_line(&mut lines, s);
        i += 1;
        assert(all.take(i as int) =~= all.take(i - 1).push(all[i - 1]));
    }
    assert(all.take(i as int) =~= all);
    push_text(&mut lines, "");
    push_text(
        &mut lines,
        "Files past the first 32 will not appear in the on-screen list, however sound they are.",
    );
    push_text(
        &mut lines,
        "Move some into subfolders; the limit counts per directory, not per drive.",
    );
    assert(texts(lines@) =~= directory_lines(dirs@));
    lines
}

/// Volume state comes last and unindented because it outranks everything above
/// it: a dirty volume makes every file listed unreachable.
fn print_volume_finding(vol: Option<&VolumeFinding>) -> (lines: Vec<String>)
    ensures
        texts(lines@) == volume_lines(found(vol)),
{
    let mut lines: Vec<String> = Vec::new();
    assert(texts(lines@) =~= Seq::<Seq<char>>::empty());
    let v = match vol {
        Some(v) => v,
        None => {
            return lines;
        },
    };
    push_text(&mut lines, "");
    let name = match &v.label {
        Some(l) => {
            let mut s = l.clone();
            s.append(" (");
            s.append(v.device.as_str());
            s.append(")");
            s
        },
        None => v.device.clone(),
    };
    if v.dirty {
        let mut title = "VOLUME DIRTY: ".to_owned();
        title.append(name.as_str());
        push_line(&mut lines, title);
        push_text(&mut lines, "");
        push_text(
            &mut lines,
            "This volume will not mount again until the flag is cleared, however sound",
        );
        push_text(
            &mut lines,
            "the files above are. The IODD sets it by dropping the volume off the USB",
        );
        push_text(
            &mut lines,
            "bus mid-write when it switches modes, so unmount before using the device's",
        );
        push_text(&mut lines, "own controls.");
        push_text(&mut lines, "");
        let mut clear = "  ntfsfix -d ".to_owned();
        clear.append(v.device.as_str());
        clear.append("        # quick clear on Linux");
        push_line(&mut lines, clear);
        push_text(&mut lines, "  chkdsk /f            # thorough, on Windows");
    } else {
        let mut s = "Volume flags on ".to_owned();
        s.append(name.as_str());
        s.append(": ");
        s.append(joined(v.flags.as_slice(), ", ").as_str());
        push_line(&mut lines, s);
    }
    assert(texts(lines@) =~= volume_lines(found(vol)));
    lines
}

/// The report of a scan.
pub fn render_table(
    records: &[Record],
    dirs: &[DirectoryFinding],
    vol: Option<&VolumeFinding>,
) -> (lines: Vec<String>)
    ensures
        texts(lines@) == table_lines(records@, dirs@, found(vol)),
{
    let mut lines: Vec<String> = Vec::new();
    assert(texts(lines@) =~= Seq::<Seq<char>>::empty());
    if records.len() == 0 {
        push_text(&mut lines, "no IODD-mountable files found");
        assert(texts(lines@) =~= seq!["no IODD-mountable files found"@]);
    } else {
        let w: usize = widest_name(records);
        let mut header = left_aligned("FILE", w, ' ');
        header.append("  TYPE          SIZE  EXTENTS  VERDICT");
        push_line(&mut lines, header);
        assert(texts(lines@) =~= seq![
            pad_right("FILE"@, w as nat, ' ') + "  TYPE          SIZE  EXTENTS  VERDICT"@,
        ]);
        push_rows(&mut lines, records, w);
        push_lines(&mut lines, print_summary(records).as_slice());
    }
    push_lines(&mut lines, print_directory_findings(dirs).as_slice());
    push_lines(&mut lines, print_volume_finding(vol).as_slice());
    lines
}

/// The report of a scan that was pointed straight at a block device.
pub open spec fn volume_only_lines(
    device: Seq<char>,
    info: VolumeInfo,
    finding: Option<VolumeFinding>,
) -> Seq<Seq<char>> {
    seq![
        device,
        "  label         "@ + label_text(info.label),
        "  ntfs version  "@ + decimal(info.major as nat) + "."@ + decimal(info.minor as nat),
        "  flags         0x"@ + hexadecimal(info.flags as nat, 4),
    ] + (if finding is None {
        seq![
            ""@,
            "Volume state is clean. No files were examined: pass a mounted path to"@,
            "grade what is on it."@,
        ]
    } else {
        Seq::empty()
    }) + volume_lines(finding)
}

/// `doctor` pointed straight at a block device: no tree, just the volume.
pub fn render_volume_only(device: &str, info: &VolumeInfo, finding: Option<&VolumeFinding>) -> (lines:
    Vec<String>)
    ensures
        texts(lines@) == volume_only_lines(device@, *info, found(finding)),
{
    let mut lines: Vec<String> = Vec::new();
    assert(texts(lines@) =~= Seq::<Seq<char>>::empty());
    push_text(&mut lines, device);
    let mut label = "  label         ".to_owned();
    match &info.label {
        Some(l) => {
            label.append(l.as_str());
        },
        None => {
            label.append("(none)");
        },
    }
    push_line(&mut lines, label);
    let mut version = "  ntfs version  ".to_owned();
    version.append(dec(info.major as u64).as_str());
    version.append(".");
    version.append(dec(info.minor as u64).as_str());
    push_line(&mut lines, version);
    let mut flags = "  flags         0x".to_owned();
    flags.append(hex(info.flags as u64, 4).as_str());
    push_line(&mut lines, flags);
    let ghost head = texts(lines@);
    if finding.is_none() {
        push_text(&mut lines, "");
        push_text(
            &mut lines,
            "Volume state is clean. No files were examined: pass a mounted path to",
        );
        push_text(&mut lines, "grade what is on it.");
        assert(texts(lines@) =~= head + seq![
            ""@,
            "Volume state is clean. No files were examined: pass a mounted path to"@,
            "grade what is on it."@,
        ]);
    } else {
        assert(head + Seq::<Seq<char>>::empty() =~= head);
    }
    push_lines(&mut lines, print_volume_finding(finding).as_slice());
    lines
}

// ---------------------------------------------------------------------------
// Laws
// ---------------------------------------------------------------------------

proof fn lemma_numeral_is_plain(n: nat)
    ensures
        forall|i: int| 0 <= i < numeral(n, 16).len() ==> !control(#[trigger] numeral(n, 16)[i]),
    decreases n,
{
    let s = numeral(n, 16);
    if n >= 16 {
        assert(n / 16 < n);
        lemma_numeral_is_plain(n / 16);
        let front = numeral(n / 16, 16);
        assert(n % 16 < 16);
        assert(s == front.push(digit(n % 16)));
        assert(!control(digit(n % 16)));
        assert forall|i: int| 0 <= i < s.len() implies !control(#[trigger] s[i]) by {
            if i < front.len() {
                assert(s[i] == front[i]);
            }
        }
    } else {
        assert(s == seq![digit(n)]);
        assert(!control(digit(n)));
    }
}

proof fn lemma_shown_char_is_plain(c: char)
    ensures
        forall|i: int| 0 <= i < shown_char(c).len() ==> !control(#[trigger] shown_char(c)[i]),
{
    if control(c) {
        lemma_numeral_is_plain(c as nat);
        let h = hexadecimal(c as nat, 2);
        let d = numeral(c as nat, 16);
        assert forall|i: int| 0 <= i < h.len() implies !control(#[trigger] h[i]) by {
            if d.len() < 2 && i >= 2 - d.len() {
                assert(h[i] == d[i - (2 - d.len())]);
            }
        }
    }
}

/// No control character reaches the terminal out of a name.
pub proof fn law_no_control_character_is_shown(s: Seq<char>)
    ensures
        forall|i: int| 0 <= i < shown(s).len() ==> !control(#[trigger] shown(s)[i]),
    decreases s.len(),
{
    if s.len() > 0 {
        law_no_control_character_is_shown(s.drop_last());
        lemma_shown_char_is_plain(s.last());
        let a = shown(s.drop_last());
        let b = shown_char(s.last());
        assert forall|i: int| 0 <= i < shown(s).len() implies !control(#[trigger] shown(s)[i]) by {
            if i < a.len() {
                assert(shown(s)[i] == a[i]);
            } else {
                assert(shown(s)[i] == b[i - a.len()]);
            }
        }
    }
}

/// A name without control characters is shown as it is.
pub proof fn law_plain_names_are_shown_unchanged(s: Seq<char>)
    requires
        forall|i: int| 0 <= i < s.len() ==> !control(#[trigger] s[i]),
    ensures
        shown(s) == s,
    decreases s.len(),
{
    if s.len() > 0 {
        let front = s.drop_last();
        assert forall|i: int| 0 <= i < front.len() implies !control(#[trigger] front[i]) by {
            assert(front[i] == s[i]);
        }
        law_plain_names_are_shown_unchanged(front);
        let c = s[s.len() - 1];
        assert(!control(c));
        assert(shown_char(c) == seq![c]);
        assert(shown(s) =~= s);
    } else {
        assert(shown(s) =~= s);
    }
}

/// A text that is cut down fills its width exactly, ellipsis included, and
/// keeps its end.
pub proof fn law_truncation_keeps_the_tail_within_the_width(s: Seq<char>, width: nat)
    requires
        width >= 1,
    ensures
        cut_down(s, width).len() <= width,
        s.len() > width ==> cut_down(s, width).len() == width && cut_down(s, width).skip(1)
            == s.skip(s.len() - (width - 1)),
        s.len() <= width ==> cut_down(s, width) == s,
{
    if s.len() > width {
        assert(cut_down(s, width).skip(1) =~= s.skip(s.len() - (width - 1)));
    }
}

/// Whatever a file is called, its name takes up exactly the column of names, so
/// the columns after it line up.
pub proof fn law_names_fill_their_column(records: Seq<Record>, r: Record)
    ensures
        pad_right(
            cut_down(shown(name_in_context(r.path@)), name_width(records)),
            name_width(records),
            ' ',
        ).len() == name_width(records),
        4 <= name_width(records) <= 60,
{
    law_truncation_keeps_the_tail_within_the_width(
        shown(name_in_context(r.path@)),
        name_width(records),
    );
}

/// Every file is counted once.
pub proof fn law_the_tally_is_complete(records: Seq<Record>)
    ensures
        ({
            let t = tally(records);
            t.mountable + t.warned + t.failing + t.unreadable == records.len()
        }),
    decreases records.len(),
{
    if records.len() > 0 {
        law_the_tally_is_complete(records.drop_last());
    }
}

/// A record keeps what was found out about a file, under the verdict's name.
pub proof fn law_records_keep_the_findings(facts: &FileFacts, assessment: &Assessment, r: Record)
    requires
        call_ensures(Record::new, (facts, assessment), r),
    ensures
        r.path@ == facts.path@,
        r.file_type@ == facts.ext@,
        r.size == facts.size,
        r.extents == facts.run_count,
        texts(r.reasons@) == texts(assessment.reasons@),
        r.verdict == Some(assessment.verdict),
        match assessment.verdict {
            Verdict::Mountable => r.verdict_label@ == "MOUNTABLE"@,
            Verdict::Warn => r.verdict_label@ == "WARN"@,
            Verdict::WillNotMount => r.verdict_label@ == "WILL-NOT-MOUNT"@,
            Verdict::WillNotMountMaybeUnlisted => r.verdict_label@
                == "WILL-NOT-MOUNT (may not be listed)"@,
        },
{
}

/// A file that could not be read has no verdict, and the cause as its only
/// reason.
pub proof fn law_unreadable_files_have_no_verdict(path: &str, why: &str, r: Record)
    requires
        call_ensures(Record::unreadable, (path, why), r),
    ensures
        r.verdict is None,
        r.verdict_label@ == "UNREADABLE"@,
        r.path@ == path@,
        r.reasons@.len() == 1,
        r.reasons@[0]@ == why@,
{
    assert(texts(r.reasons@).len() == 1);
    assert(texts(r.reasons@)[0] == why@);
}

/// A text is shown piece by piece, each character by itself: line breaks and
/// tabs by their letter behind a backslash, every other control character by
/// its code, and the rest as they are.
pub proof fn law_characters_are_shown_one_by_one(a: &str, c: char, s: &str, x: String, y: String)
    requires
        s@ == a@.push(c),
        call_ensures(escape_control, (a,), x),
        call_ensures(escape_control, (s,), y),
    ensures
        c == '\n' ==> y@ == x@ + seq!['\\', 'n'],
        c == '\r' ==> y@ == x@ + seq!['\\', 'r'],
        c == '\t' ==> y@ == x@ + seq!['\\', 't'],
        (c as int) < 0x20 && c != '\n' && c != '\r' && c != '\t' || 0x7f <= (c as int) < 0xa0
            ==> y@ == x@ + seq!['\\', 'x'] + hexadecimal(c as nat, 2),
        0x20 <= (c as int) < 0x7f || c as int >= 0xa0 ==> y@ == x@.push(c),
{
    assert(s@.drop_last() =~= a@);
    assert(y@ == x@ + shown_char(c));
    if 0x20 <= (c as int) < 0x7f || c as int >= 0xa0 {
        assert(x@ + seq![c] =~= x@.push(c));
    } else if c != '\n' && c != '\r' && c != '\t' {
        assert(y@ =~= x@ + seq!['\\', 'x'] + hexadecimal(c as nat, 2));
    }
}

/// A file is listed with the directory that it lies in, and one without such a
/// directory by its name alone.
pub proof fn law_names_are_listed_with_their_directory(
    top: Seq<char>,
    dir: Seq<char>,
    file: Seq<char>,
    p: &str,
    q: &str,
    x: String,
    y: String,
)
    requires
        plain_name(dir),
        plain_name(file),
        p@ == inside(inside(top, dir), file),
        q@ == file,
        call_ensures(display_name, (p,), x),
        call_ensures(display_name, (q,), y),
    ensures
        x@ == shown(dir.push('/') + file),
        y@ == shown(file),
{
    reveal_strlit("/");
    law_names_read_back(inside(top, dir), file);
    law_names_read_back(top, dir);
    lemma_inside(top, dir);
    law_names_read_back(Seq::empty(), file);
    assert(inside(Seq::empty(), file) == file);
    let none = Seq::<char>::empty();
    assert(name_of(none) is None);
    assert(dir + "/"@ + file =~= dir.push('/') + file);
}

/// A text that is too long for its width is cut at its start, with an ellipsis
/// for what is missing; any other stays whole.
pub proof fn law_long_texts_lose_their_start(s: &str, width: usize, r: String)
    requires
        call_ensures(truncate, (s, width), r),
    ensures
        s@.len() <= width ==> r@ == s@,
        s@.len() > width >= 1 ==> r@.len() == width && r@[0] == '…' && forall|i: int|
            1 <= i < width ==> #[trigger] r@[i] == s@[s@.len() - width + i],
        s@.len() > width == 0 ==> r@ == seq!['…'],
{
    if s@.len() > width == 0 {
        assert(r@ =~= seq!['…']);
    }
}

/// A file more is counted under its own heading and no other.
pub proof fn law_files_are_counted_by_verdict(records: Seq<Record>, r: Record)
    ensures
        ({
            let t = tally(records);
            let u = tally(records.push(r));
            match r.verdict {
                Some(Verdict::Mountable) => u == (Tally { mountable: t.mountable + 1, ..t }),
                Some(Verdict::Warn) => u == (Tally { warned: t.warned + 1, ..t }),
                Some(Verdict::WillNotMount) => u == (Tally { failing: t.failing + 1, ..t }),
                Some(Verdict::WillNotMountMaybeUnlisted) => u == (Tally {
                    failing: t.failing + 1,
                    ..t
                }),
                None => u == (Tally { unreadable: t.unreadable + 1, ..t }),
            }
        }),
{
    assert(records.push(r).drop_last() =~= records);
}

/// How many lines the files of a report take: one each, and one for each
/// reason.
pub open spec fn lines_taken(records: Seq<Record>) -> nat
    decreases records.len(),
{
    if records.len() == 0 {
        0
    } else {
        lines_taken(records.drop_last()) + 1 + records.last().reasons@.len()
    }
}

proof fn lemma_rows(records: Seq<Record>, w: nat, k: int)
    requires
        0 <= k < records.len(),
    ensures
        rows(records, w).len() == lines_taken(records),
        lines_taken(records.take(k)) + records[k].reasons@.len() < lines_taken(records),
        rows(records, w)[lines_taken(records.take(k)) as int] == row_text(records[k], w),
        forall|j: int|
            0 <= j < records[k].reasons@.len() ==> rows(records, w)[lines_taken(records.take(k)) + 1
                + j] == reason_text((#[trigger] records[k].reasons@[j])@, w),
    decreases records.len(),
{
    let front = records.drop_last();
    let before = rows(front, w);
    if front.len() > 0 {
        lemma_rows(
            front,
            w,
            if k < front.len() {
                k
            } else {
                0
            },
        );
    }
    if k < front.len() {
        assert(front.take(k) =~= records.take(k));
        assert(front[k] == records[k]);
        let at = lines_taken(records.take(k)) as int;
        assert forall|j: int| 0 <= j < records[k].reasons@.len() implies rows(records, w)[at + 1 + j]
            == reason_text((#[trigger] records[k].reasons@[j])@, w) by {
            assert(rows(records, w)[at + 1 + j] == before[at + 1 + j]);
            assert(front[k].reasons@[j] == records[k].reasons@[j]);
        }
    } else {
        assert(records.take(k) =~= front);
        assert(records[k] == records.last());
        let at = lines_taken(front) as int;
        assert forall|j: int| 0 <= j < records[k].reasons@.len() implies rows(records, w)[at + 1 + j]
            == reason_text((#[trigger] records[k].reasons@[j])@, w) by {
            assert(rows(records, w)[at + 1 + j] == reason_rows(records.last().reasons@, w)[j]);
        }
    }
}

/// Every file is listed below the heading, in the order of the scan: a line
/// that ends in its extents and its verdict, and below it one line for each of
/// its reasons.
#[verifier::spinoff_prover]
#[verifier::rlimit(40)]
pub proof fn law_every_file_is_listed(
    records: &[Record],
    dirs: &[DirectoryFinding],
    vol: Option<&VolumeFinding>,
    lines: Vec<String>,
    k: int,
)
    requires
        call_ensures(render_table, (records, dirs, vol), lines),
        0 <= k < records@.len(),
    ensures
        ({
            let r = records@[k];
            let at = 1 + lines_taken(records@.take(k));
            &&& at + r.reasons@.len() < lines@.len()
            &&& (pad_left(decimal(r.extents as nat), 7, ' ') + "  "@
                + r.verdict_label@).is_suffix_of(lines@[at as int]@)
            &&& forall|j: int|
                0 <= j < r.reasons@.len() ==> (#[trigger] r.reasons@[j])@.is_suffix_of(
                    lines@[at + 1 + j]@,
                )
        }),
{
    let t = texts(lines@);
    let w = name_width(records@);
    let r = records@[k];
    let at = 1 + lines_taken(records@.take(k)) as int;
    lemma_rows(records@, w, k);
    let all = rows(records@, w);
    let body = seq![pad_right("FILE"@, w, ' ') + "  TYPE          SIZE  EXTENTS  VERDICT"@] + all
        + summary_lines(records@);
    assert(t == body + directory_lines(dirs@) + volume_lines(found(vol)));
    assert(t.len() == lines@.len());
    assert(forall|i: int| 0 <= i < all.len() ==> t[1 + i] == #[trigger] all[i]);
    assert(lines@[at]@ == t[at]);
    assert(t[at] == all[at - 1]);
    let tail = pad_left(decimal(r.extents as nat), 7, ' ') + "  "@ + r.verdict_label@;
    let head = pad_right(cut_down(shown(name_in_context(r.path@)), w), w, ' ') + "  "@ + pad_left(
        r.file_type@,
        4,
        ' ',
    ) + "  "@ + pad_left(human_text(r.size), 12, ' ') + "  "@;
    assert(row_text(r, w) =~= head + tail);
    assert forall|j: int| 0 <= j < r.reasons@.len() implies (#[trigger] r.reasons@[j])@.is_suffix_of(
        lines@[at + 1 + j]@,
    ) by {
        assert(t[at + 1 + j] == all[at + j]);
        assert(lines@[at + 1 + j]@ == t[at + 1 + j]);
    }
}

/// Below the files of a report they are counted: all of them, and those that
/// will mount, which are all but the failing and the unreadable ones.
pub proof fn law_files_are_summed_up_below(
    records: &[Record],
    dirs: &[DirectoryFinding],
    vol: Option<&VolumeFinding>,
    lines: Vec<String>,
)
    requires
        call_ensures(render_table, (records, dirs, vol), lines),
        records@.len() > 0,
    ensures
        ({
            let t = tally(records@);
            let n = records@.len();
            let line = lines@[2 + lines_taken(records@) as int]@;
            &&& (decimal(n) + " file(s): "@ + decimal((n - t.failing - t.unreadable) as nat)
                + " mountable ("@ + decimal(t.warned) + " with warnings), "@ + decimal(t.failing)
                + " will not"@).is_prefix_of(line)
            &&& t.unreadable > 0 ==> (decimal(t.unreadable) + " unreadable"@).is_suffix_of(line)
        }),
{
    let t = texts(lines@);
    let w = name_width(records@);
    let at = 2 + lines_taken(records@) as int;
    lemma_rows(records@, w, 0);
    law_the_tally_is_complete(records@);
    let all = rows(records@, w);
    let body = seq![pad_right("FILE"@, w, ' ') + "  TYPE          SIZE  EXTENTS  VERDICT"@] + all
        + summary_lines(records@);
    assert(t == body + directory_lines(dirs@) + volume_lines(found(vol)));
    assert(t.len() == lines@.len());
    assert(t[at] == summary_lines(records@)[1]);
    assert(lines@[at]@ == t[at]);
    let u = tally(records@);
    if u.unreadable > 0 {
        let counted = decimal(records@.len()) + " file(s): "@ + decimal(u.mountable + u.warned)
            + " mountable ("@ + decimal(u.warned) + " with warnings), "@ + decimal(u.failing)
            + " will not"@;
        assert(t[at] =~= counted + ", "@ + (decimal(u.unreadable) + " unreadable"@));
    }
}

/// Every over-full directory is listed with the number of its items, before
/// what is said about the volume.
pub proof fn law_every_full_directory_is_listed(
    records: &[Record],
    dirs: &[DirectoryFinding],
    vol: Option<&VolumeFinding>,
    lines: Vec<String>,
    k: int,
)
    requires
        call_ensures(render_table, (records, dirs, vol), lines),
        0 <= k < dirs@.len(),
    ensures
        ({
            let below: int = match vol {
                Some(v) => if v.dirty {
                    10
                } else {
                    2
                },
                None => 0,
            };
            let first = lines@.len() - below - 3 - dirs@.len();
            let line = lines@[first + k]@;
            let heading = lines@[first - 1]@;
            &&& dirs@.len() == 1 ==> (decimal(1) + " director"@ + "y"@).is_prefix_of(heading)
            &&& dirs@.len() > 1 ==> (decimal(dirs@.len()) + " director"@ + "ies"@).is_prefix_of(
                heading,
            )
            &&& ("  "@ + dirs@[k].path@).is_prefix_of(line)
            &&& (decimal(dirs@[k].items as nat) + " items"@).is_suffix_of(line)
        }),
{
    let t = texts(lines@);
    let below = volume_lines(found(vol));
    let d = directory_lines(dirs@);
    assert(t.len() == lines@.len());
    let n = t.len() - below.len();
    let body = t.take(n - d.len());
    assert(t =~= body + d + below);
    let at = n - 3 - dirs@.len() + k;
    assert(d[2 + k] == directory_rows(dirs@)[k]);
    assert(t[at] == d[2 + k]);
    assert(t[at - k - 1] == d[1]);
    assert(lines@[at - k - 1]@ == t[at - k - 1]);
    assert(lines@[at]@ == t[at]);
    let f = dirs@[k];
    assert(t[at] =~= "  "@ + f.path@ + " — "@ + (decimal(f.items as nat) + " items"@));
}

/// Where no file was found the report says so and has nothing to sum up. A
/// report on files that mount has one heading, the files and two lines that sum
/// them up; files that will not mount add four lines, over-full directories
/// one each and five round them, a dirty volume ten and other flags two.
pub proof fn law_reports_say_what_there_is_to_say(
    records: &[Record],
    dirs: &[DirectoryFinding],
    vol: Option<&VolumeFinding>,
    lines: Vec<String>,
)
    requires
        call_ensures(render_table, (records, dirs, vol), lines),
    ensures
        records@.len() == 0 ==> lines@[0]@ == "no IODD-mountable files found"@,
        lines@.len() == (if records@.len() == 0 {
            1int
        } else {
            3 + lines_taken(records@) as int
        }) + (if exists|i: int|
            0 <= i < records@.len() && ((#[trigger] records@[i]).verdict
                == Some(Verdict::WillNotMount) || records@[i].verdict
                == Some(Verdict::WillNotMountMaybeUnlisted)) {
            4int
        } else {
            0
        }) + (if dirs@.len() > 0 {
            5 + dirs@.len() as int
        } else {
            0
        }) + (match vol {
            Some(v) => if v.dirty {
                10int
            } else {
                2
            },
            None => 0,
        }),
{
    let t = texts(lines@);
    let w = name_width(records@);
    assert(t.len() == lines@.len());
    assert(t[0] == lines@[0]@);
    lemma_failing(records@);
    if records@.len() > 0 {
        lemma_rows(records@, w, 0);
    }
}

proof fn lemma_failing(records: Seq<Record>)
    ensures
        tally(records).failing > 0 <==> exists|i: int|
            0 <= i < records.len() && ((#[trigger] records[i]).verdict == Some(Verdict::WillNotMount)
                || records[i].verdict == Some(Verdict::WillNotMountMaybeUnlisted)),
    decreases records.len(),
{
    if records.len() > 0 {
        let front = records.drop_last();
        lemma_failing(front);
        assert(forall|i: int| 0 <= i < front.len() ==> #[trigger] records[i] == front[i]);
        assert(records.last() == records[records.len() - 1]);
        if exists|i: int|
            0 <= i < front.len() && ((#[trigger] front[i]).verdict == Some(Verdict::WillNotMount)
                || front[i].verdict == Some(Verdict::WillNotMountMaybeUnlisted)) {
            let i = choose|i: int|
                0 <= i < front.len() && ((#[trigger] front[i]).verdict == Some(Verdict::WillNotMount)
                    || front[i].verdict == Some(Verdict::WillNotMountMaybeUnlisted));
            assert(records[i] == front[i]);
        }
    }
}

/// A device alone is called clean exactly when nothing was found on it, and
/// otherwise the finding is spelled out.
pub proof fn law_only_clean_volumes_are_called_clean(
    device: &str,
    info: &VolumeInfo,
    finding: Option<&VolumeFinding>,
    lines: Vec<String>,
)
    requires
        call_ensures(render_volume_only, (device, info, finding), lines),
    ensures
        lines@[0]@ == device@,
        lines@[3]@ == "  flags         0x"@ + hexadecimal(info.flags as nat, 4),
        finding is None ==> lines@.len() == 7 && lines@[5]@
            == "Volume state is clean. No files were examined: pass a mounted path to"@,
        finding matches Some(f) ==> {
            &&& f.dirty ==> lines@.len() == 14 && "VOLUME DIRTY: "@.is_prefix_of(lines@[5]@)
            &&& !f.dirty ==> lines@.len() == 6 && "Volume flags on "@.is_prefix_of(lines@[5]@)
        },
{
    let t = texts(lines@);
    assert(t.len() == lines@.len());
    assert(t[0] == lines@[0]@);
    assert(t[3] == lines@[3]@);
    assert(t[5] == lines@[5]@);
}

/// The column of names is as wide as the longest of them, but no narrower than
/// its heading and no wider than sixty; so a name of up to sixty characters is
/// never cut.
pub proof fn law_the_longest_name_sets_the_width(records: Seq<Record>, k: int)
    requires
        0 <= k < records.len(),
    ensures
        ({
            let n = shown(name_in_context(records[k].path@)).len();
            let w = name_width(records);
            &&& n <= 60 ==> n <= w
            &&& n > 60 ==> w == 60
            &&& w > 4 && w < 60 ==> exists|i: int|
                0 <= i < records.len() && shown(
                    name_in_context((#[trigger] records[i]).path@),
                ).len() == w
        }),
{
    lemma_longest(records);
    assert(shown(name_in_context(records[k].path@)).len() <= longest_name(records));
}

proof fn lemma_longest(records: Seq<Record>)
    ensures
        forall|i: int|
            0 <= i < records.len() ==> shown(name_in_context((#[trigger] records[i]).path@)).len()
                <= longest_name(records),
        longest_name(records) > 0 ==> exists|i: int|
            0 <= i < records.len() && shown(name_in_context((#[trigger] records[i]).path@)).len()
                == longest_name(records),
    decreases records.len(),
{
    if records.len() > 0 {
        let front = records.drop_last();
        lemma_longest(front);
        assert(forall|i: int| 0 <= i < front.len() ==> #[trigger] records[i] == front[i]);
        assert(records[records.len() - 1] == records.last());
        if longest_name(front) > 0 && longest_name(records) == longest_name(front) {
            let i = choose|i: int|
                0 <= i < front.len() && shown(name_in_context((#[trigger] front[i]).path@)).len()
                    == longest_name(front);
            assert(records[i] == front[i]);
        }
    }
}

/// A volume is named by its label with the device behind it, or by the device
/// alone, and a dirty one comes with the commands that clear it.
pub proof fn law_volumes_are_named_in_reports(
    records: &[Record],
    dirs: &[DirectoryFinding],
    vol: &VolumeFinding,
    lines: Vec<String>,
)
    requires
        call_ensures(render_table, (records, dirs, Some(vol)), lines),
    ensures
        ({
            let n = lines@.len() as int;
            let name = match vol.label {
                Some(l) => l@ + " ("@ + vol.device@ + ")"@,
                None => vol.device@,
            };
            &&& vol.dirty ==> lines@[n - 9]@ == "VOLUME DIRTY: "@ + name && ("  ntfsfix -d "@
                + vol.device@).is_prefix_of(lines@[n - 2]@)
            &&& !vol.dirty ==> lines@[n - 1]@ == "Volume flags on "@ + name + ": "@ + join(
                texts(vol.flags@),
                ", "@,
            )
        }),
{
    let t = texts(lines@);
    let n = lines@.len() as int;
    let below = volume_lines(Some(*vol));
    assert(t.len() == n);
    let body = t.take(n - below.len());
    assert(t =~= body + below);
    if vol.dirty {
        assert(t[n - 9] == below[1]);
        assert(t[n - 2] == below[8]);
        assert(lines@[n - 9]@ == t[n - 9]);
        assert(lines@[n - 2]@ == t[n - 2]);
    } else {
        assert(t[n - 1] == below[1]);
        assert(lines@[n - 1]@ == t[n - 1]);
    }
}

/// The line of a file starts with its name, whole where it fits the column, and
/// the columns follow behind it.
#[verifier::spinoff_prover]
#[verifier::rlimit(40)]
pub proof fn law_lines_start_with_the_name(
    records: &[Record],
    dirs: &[DirectoryFinding],
    vol: Option<&VolumeFinding>,
    lines: Vec<String>,
    k: int,
)
    requires
        call_ensures(render_table, (records, dirs, vol), lines),
        0 <= k < records@.len(),
    ensures
        ({
            let r = records@[k];
            let name = shown(name_in_context(r.path@));
            let w = name_width(records@);
            let line = lines@[1 + lines_taken(records@.take(k)) as int]@;
            &&& name.len() <= 60 ==> name.is_prefix_of(line)
            &&& name.len() > 60 ==> line[0] == '…'
            &&& line.skip(w as int) == "  "@ + pad_left(r.file_type@, 4, ' ') + "  "@ + pad_left(
                human_text(r.size),
                12,
                ' ',
            ) + "  "@ + pad_left(decimal(r.extents as nat), 7, ' ') + "  "@ + r.verdict_label@
        }),
{
    let t = texts(lines@);
    let w = name_width(records@);
    let r = records@[k];
    let name = shown(name_in_context(r.path@));
    let at = 1 + lines_taken(records@.take(k)) as int;
    lemma_rows(records@, w, k);
    law_the_longest_name_sets_the_width(records@, k);
    law_names_fill_their_column(records@, r);
    let all = rows(records@, w);
    let body = seq![pad_right("FILE"@, w, ' ') + "  TYPE          SIZE  EXTENTS  VERDICT"@] + all
        + summary_lines(records@);
    assert(t == body + directory_lines(dirs@) + volume_lines(found(vol)));
    assert(t.len() == lines@.len());
    assert(t[at] == all[at - 1]);
    assert(lines@[at]@ == t[at]);
    let column = pad_right(cut_down(name, w), w, ' ');
    let rest = "  "@ + pad_left(r.file_type@, 4, ' ') + "  "@ + pad_left(human_text(r.size), 12, ' ')
        + "  "@ + pad_left(decimal(r.extents as nat), 7, ' ') + "  "@ + r.verdict_label@;
    assert(row_text(r, w) =~= column + rest);
    assert((column + rest).skip(w as int) =~= rest);
    if name.len() <= 60 {
        assert(name.is_prefix_of(column));
    }
}

/// An over-full directory is recorded with its items, and the limit of thirty-two
/// that they exceed.
pub proof fn law_full_directories_are_recorded_with_the_limit<'a>(
    f: &'a DirectoryFinding,
    r: DirRecord,
)
    requires
        call_ensures(<DirRecord as From<&'a DirectoryFinding>>::from, (f,), r),
    ensures
        r.path@ == f.path@,
        r.items == f.items,
        r.limit == 32,
        decimal(f.items as nat).is_prefix_of(r.reason@),
{
}

} // verus!
