//! What `ntfs-contig` says about files, copies and volumes, and which exit code
//! follows.

use vstd::prelude::*;

use super::copy::Report;
use super::error::Run;
use super::fsinfo::{driver_name, driver_note};
use super::volume::{flag_texts, name_texts, VolumeInfo};
use super::FileFacts;
use crate::text::{
    bool_text, bool_word, dec, decimal, hex, hexadecimal, join, joined, json_quoted, json_string,
    line_if, push_line, push_lines, push_text, same_text, texts,
};

verus! {

// ---------------------------------------------------------------------------
// Files
// ---------------------------------------------------------------------------

/// The exit code that one file earns.
///
/// Allocation before contiguity: a sparse file is often fragmented too, and
/// "not allocated" is the more actionable of the two.
pub open spec fn code_of(f: FileFacts) -> u8 {
    if f.sparse() || f.map.any_unwritten {
        5
    } else if f.size > 0 && f.map.runs@.len() != 1 {
        4
    } else {
        0
    }
}

/// The exit code that one file earns.
pub fn file_code(f: &FileFacts) -> (code: u8)
    ensures
        code == code_of(*f),
{
    if f.is_sparse() || f.map.any_unwritten {
        5
    } else if f.size > 0 && !f.is_contiguous() {
        4
    } else {
        0
    }
}

/// The larger of two codes.
pub open spec fn worse(a: u8, b: u8) -> u8 {
    if a < b {
        b
    } else {
        a
    }
}

/// The worst code that a file of `s` earns.
pub open spec fn worst_of(s: Seq<FileFacts>) -> u8
    decreases s.len(),
{
    if s.len() == 0 {
        0
    } else {
        worse(worst_of(s.drop_last()), code_of(s.last()))
    }
}

/// The exit code of `verify`: the worst that a file earns, or zero where only a
/// report was asked for.
pub fn verify(facts: &[FileFacts], report_only: bool) -> (code: u8)
    ensures
        code == if report_only {
            0
        } else {
            worst_of(facts@)
        },
{
    if report_only {
        return 0;
    }
    let mut worst: u8 = 0;
    let mut i: usize = 0;
    while i < facts.len()
        invariant
            i <= facts@.len(),
            worst == worst_of(facts@.take(i as int)),
        decreases facts@.len() - i,
    {
        let code: u8 = file_code(&facts[i]);
        assert(facts@.take(i + 1).drop_last() == facts@.take(i as int));
        if worst < code {
            worst = code;
        }
        i += 1;
    }
    assert(facts@.take(i as int) == facts@);
    worst
}

/// `verify` succeeds exactly when every file is fully allocated, written, and,
/// unless it is empty, in one run.
pub proof fn law_verify_passes_only_sound_files(s: Seq<FileFacts>)
    ensures
        worst_of(s) == 0 <==> forall|i: int|
            0 <= i < s.len() ==> {
                let f = #[trigger] s[i];
                !f.sparse() && !f.map.any_unwritten && (f.size > 0 ==> f.map.runs@.len() == 1)
            },
    decreases s.len(),
{
    if s.len() > 0 {
        let front = s.drop_last();
        law_verify_passes_only_sound_files(front);
        assert forall|i: int| 0 <= i < front.len() implies #[trigger] front[i] == s[i] by {}
        assert(s.last() == s[s.len() - 1]);
        if worst_of(s) == 0 {
            assert forall|i: int| 0 <= i < s.len() implies {
                let f = #[trigger] s[i];
                !f.sparse() && !f.map.any_unwritten && (f.size > 0 ==> f.map.runs@.len() == 1)
            } by {
                if i < front.len() {
                    assert(front[i] == s[i]);
                }
            }
        }
    }
}

/// One run of a file that is not contiguous.
pub open spec fn run_text(i: nat, r: Run) -> Seq<char> {
    "    run "@ + decimal(i) + ": logical="@ + decimal(r.logical as nat) + " physical="@ + decimal(
        r.physical as nat,
    ) + " length="@ + decimal(r.length as nat)
}

/// One line for each run.
pub open spec fn run_texts(runs: Seq<Run>) -> Seq<Seq<char>> {
    Seq::new(runs.len(), |i: int| run_text(i as nat, runs[i]))
}

/// The line about the filesystem.
pub open spec fn filesystem_text(magic: i64) -> Seq<char> {
    "  filesystem    0x"@ + hexadecimal(magic as u64 as nat, 1) + driver_note(magic)
}

/// The report about a file.
pub open spec fn file_lines(path: Seq<char>, f: FileFacts) -> Seq<Seq<char>> {
    seq![
        path,
        "  size          "@ + decimal(f.size as nat),
        "  allocated     "@ + decimal(f.allocated as nat),
        "  sparse        "@ + bool_text(f.sparse()),
        "  raw records   "@ + decimal(f.map.raw_records as nat),
        "  merged runs   "@ + decimal(f.map.runs@.len()) + "   contiguous="@ + bool_text(
            f.map.runs@.len() == 1,
        ),
        "  any unwritten "@ + bool_text(f.map.any_unwritten),
    ] + line_if(f.fs_magic is Some, filesystem_text(f.fs_magic->0)) + line_if(
        f.compressed == Some(true),
        "  compressed    yes"@,
    ) + if f.map.runs@.len() == 1 {
        Seq::empty()
    } else {
        run_texts(f.map.runs@)
    }
}

fn labelled(label: &str, value: &str) -> (s: String)
    ensures
        s@ == label@ + value@,
{
    let mut s = label.to_owned();
    s.append(value);
    s
}

fn run_line(i: u64, r: &Run) -> (s: String)
    ensures
        s@ == run_text(i as nat, *r),
{
    let mut s = "    run ".to_owned();
    s.append(dec(i).as_str());
    s.append(": logical=");
    s.append(dec(r.logical).as_str());
    s.append(" physical=");
    s.append(dec(r.physical).as_str());
    s.append(" length=");
    s.append(dec(r.length).as_str());
    s
}

fn run_lines(runs: &Vec<Run>) -> (lines: Vec<String>)
    ensures
        texts(lines@) == run_texts(runs@),
{
    let mut lines: Vec<String> = Vec::new();
    let mut i: usize = 0;
    while i < runs.len()
        invariant
            i <= runs@.len(),
            texts(lines@) == run_texts(runs@).take(i as int),
        decreases runs@.len() - i,
    {
        push_line(&mut lines, run_line(i as u64, &runs[i]));
        i += 1;
        assert(run_texts(runs@).take(i as int) =~= run_texts(runs@).take(i - 1).push(
            run_texts(runs@)[i - 1],
        ));
    }
    assert(run_texts(runs@).take(i as int) =~= run_texts(runs@));
    lines
}

/// The report about a file, line by line.
pub fn print_report(path: &str, f: &FileFacts) -> (lines: Vec<String>)
    ensures
        texts(lines@) == file_lines(path@, *f),
{
    let mut lines: Vec<String> = Vec::new();
    assert(texts(lines@) =~= Seq::<Seq<char>>::empty());
    push_text(&mut lines, path);
    push_line(&mut lines, labelled("  size          ", dec(f.size).as_str()));
    push_line(&mut lines, labelled("  allocated     ", dec(f.allocated).as_str()));
    push_line(&mut lines, labelled("  sparse        ", bool_word(f.is_sparse())));
    push_line(&mut lines, labelled("  raw records   ", dec(f.map.raw_records as u64).as_str()));
    let mut merged = labelled("  merged runs   ", dec(f.map.runs.len() as u64).as_str());
    merged.append("   contiguous=");
    merged.append(bool_word(f.is_contiguous()));
    push_line(&mut lines, merged);
    push_line(&mut lines, labelled("  any unwritten ", bool_word(f.map.any_unwritten)));
    let ghost base = texts(lines@);
    match f.fs_magic {
        Some(magic) => {
            let mut line = labelled("  filesystem    0x", hex(magic as u64, 1).as_str());
            line.append(driver_name(magic));
            push_line(&mut lines, line);
        },
        None => {},
    }
    assert(texts(lines@) =~= base + line_if(f.fs_magic is Some, filesystem_text(f.fs_magic->0)));
    let ghost base = texts(lines@);
    match f.compressed {
        Some(true) => {
            push_text(&mut lines, "  compressed    yes");
        },
        _ => {},
    }
    assert(texts(lines@) =~= base + line_if(f.compressed == Some(true), "  compressed    yes"@));
    let ghost base = texts(lines@);
    if !f.is_contiguous() {
        push_lines(&mut lines, run_lines(&f.map.runs).as_slice());
    } else {
        assert(base + Seq::<Seq<char>>::empty() =~= base);
    }
    lines
}

/// One run as a JSON object.
pub open spec fn run_json(r: Run) -> Seq<char> {
    "{\"logical\":"@ + decimal(r.logical as nat) + ",\"physical\":"@ + decimal(r.physical as nat)
        + ",\"length\":"@ + decimal(r.length as nat) + "}"@
}

/// Each run as a JSON object.
pub open spec fn runs_json(runs: Seq<Run>) -> Seq<Seq<char>> {
    Seq::new(runs.len(), |i: int| run_json(runs[i]))
}

/// The facts about a file as a JSON object.
pub open spec fn file_json(path: Seq<char>, f: FileFacts) -> Seq<char> {
    "{\"path\":"@ + json_quoted(path) + ",\"size\":"@ + decimal(f.size as nat) + ",\"allocated\":"@
        + decimal(f.allocated as nat) + ",\"sparse\":"@ + bool_text(f.sparse())
        + ",\"raw_records\":"@ + decimal(f.map.raw_records as nat) + ",\"merged_runs\":"@ + decimal(
        f.map.runs@.len(),
    ) + ",\"contiguous\":"@ + bool_text(f.map.runs@.len() == 1) + ",\"any_unwritten\":"@
        + bool_text(f.map.any_unwritten) + ",\"runs\":["@ + join(runs_json(f.map.runs@), ","@)
        + "]}"@
}

fn runs_as_json(runs: &Vec<Run>) -> (v: Vec<String>)
    ensures
        texts(v@) == runs_json(runs@),
{
    let mut v: Vec<String> = Vec::new();
    let mut i: usize = 0;
    while i < runs.len()
        invariant
            i <= runs@.len(),
            texts(v@) == runs_json(runs@).take(i as int),
        decreases runs@.len() - i,
    {
        let r = runs[i];
        let mut s = "{\"logical\":".to_owned();
        s.append(dec(r.logical).as_str());
        s.append(",\"physical\":");
        s.append(dec(r.physical).as_str());
        s.append(",\"length\":");
        s.append(dec(r.length).as_str());
        s.append("}");
        push_line(&mut v, s);
        i += 1;
        assert(runs_json(runs@).take(i as int) =~= runs_json(runs@).take(i - 1).push(
            runs_json(runs@)[i - 1],
        ));
    }
    assert(runs_json(runs@).take(i as int) =~= runs_json(runs@));
    v
}

/// The facts about a file as a JSON object.
pub fn render_json(path: &str, f: &FileFacts) -> (s: String)
    ensures
        s@ == file_json(path@, *f),
{
    let mut s = "{\"path\":".to_owned();
    s.append(json_string(path).as_str());
    s.append(",\"size\":");
    s.append(dec(f.size).as_str());
    s.append(",\"allocated\":");
    s.append(dec(f.allocated).as_str());
    s.append(",\"sparse\":");
    s.append(bool_word(f.is_sparse()));
    s.append(",\"raw_records\":");
    s.append(dec(f.map.raw_records as u64).as_str());
    s.append(",\"merged_runs\":");
    s.append(dec(f.map.runs.len() as u64).as_str());
    s.append(",\"contiguous\":");
    s.append(bool_word(f.is_contiguous()));
    s.append(",\"any_unwritten\":");
    s.append(bool_word(f.map.any_unwritten));
    s.append(",\"runs\":[");
    s.append(joined(runs_as_json(&f.map.runs).as_slice(), ",").as_str());
    s.append("]}");
    s
}

/// JSON objects as a JSON array.
pub fn json_array(records: &[String]) -> (s: String)
    ensures
        s@ == "["@ + join(texts(records@), ","@) + "]"@,
{
    let mut s = "[".to_owned();
    s.append(joined(records, ",").as_str());
    s.append("]");
    s
}

// ---------------------------------------------------------------------------
// Copies
// ---------------------------------------------------------------------------

/// The report about a copy.
pub open spec fn copy_lines(path: Seq<char>, r: Report) -> Seq<Seq<char>> {
    let head = seq![
        path,
        "  bytes         "@ + decimal(r.bytes as nat),
        "  written       "@ + decimal(r.written as nat),
    ];
    let holes = if r.holes_skipped > 0 {
        seq![
            "  holes skipped "@ + decimal(r.holes_skipped as nat),
            "  note: those regions were reserved but never written, so they hold"@,
            "        whatever was previously on those clusters, not zeros."@,
        ]
    } else {
        Seq::empty()
    };
    (head + holes).push("  contiguous    yes (1 extent)"@)
}

/// The report about a copy, line by line.
pub fn report_copy(path: &str, r: &Report) -> (lines: Vec<String>)
    ensures
        texts(lines@) == copy_lines(path@, *r),
{
    let mut lines: Vec<String> = Vec::new();
    assert(texts(lines@) =~= Seq::<Seq<char>>::empty());
    push_text(&mut lines, path);
    push_line(&mut lines, labelled("  bytes         ", dec(r.bytes).as_str()));
    push_line(&mut lines, labelled("  written       ", dec(r.written).as_str()));
    let ghost head = texts(lines@);
    if r.holes_skipped > 0 {
        push_line(&mut lines, labelled("  holes skipped ", dec(r.holes_skipped).as_str()));
        push_text(
            &mut lines,
            "  note: those regions were reserved but never written, so they hold",
        );
        push_text(&mut lines, "        whatever was previously on those clusters, not zeros.");
        assert(texts(lines@) =~= head + seq![
            "  holes skipped "@ + decimal(r.holes_skipped as nat),
            "  note: those regions were reserved but never written, so they hold"@,
            "        whatever was previously on those clusters, not zeros."@,
        ]);
    } else {
        assert(head + Seq::<Seq<char>>::empty() =~= head);
    }
    push_text(&mut lines, "  contiguous    yes (1 extent)");
    lines
}

/// The report about a file that was made contiguous, or already was: one where
/// nothing was written and nothing skipped was left alone.
pub fn report_fix(path: &str, r: &Report) -> (lines: Vec<String>)
    ensures
        texts(lines@) == if r.written == 0 && r.holes_skipped == 0 {
            seq![path@ + ": already contiguous, left alone"@]
        } else {
            copy_lines(path@, *r)
        },
{
    if r.written == 0 && r.holes_skipped == 0 {
        let mut lines: Vec<String> = Vec::new();
        assert(texts(lines@) =~= Seq::<Seq<char>>::empty());
        push_line(&mut lines, labelled(path, ": already contiguous, left alone"));
        return lines;
    }
    report_copy(path, r)
}

// ---------------------------------------------------------------------------
// Volumes
// ---------------------------------------------------------------------------

/// Whether one of the volumes is dirty.
pub open spec fn any_dirty(s: Seq<VolumeInfo>) -> bool {
    exists|i: int| 0 <= i < s.len() && (#[trigger] s[i]).dirty()
}

/// The exit code of `volume`: zero where only a report was asked for or no
/// volume is dirty.
///
/// A dirty volume exits 4: it is not a warning about something that might go
/// wrong, it is the volume declining to mount next time it is attached.
pub fn volume(states: &[VolumeInfo], report_only: bool) -> (code: u8)
    ensures
        code == if !report_only && any_dirty(states@) {
            4u8
        } else {
            0
        },
{
    if report_only {
        return 0;
    }
    let mut i: usize = 0;
    while i < states.len()
        invariant
            i <= states@.len(),
            !report_only,
            forall|j: int| 0 <= j < i ==> !(#[trigger] states@[j]).dirty(),
        decreases states@.len() - i,
    {
        if states[i].is_dirty() {
            assert(any_dirty(states@));
            return 4;
        }
        i += 1;
    }
    0
}

/// A volume's label, or what stands for none.
pub open spec fn label_text(label: Option<String>) -> Seq<char> {
    match label {
        Some(l) => l@,
        None => "(none)"@,
    }
}

/// Names in quotes.
pub open spec fn quoted_names(names: Seq<Seq<char>>) -> Seq<Seq<char>> {
    Seq::new(names.len(), |i: int| "\""@ + names[i] + "\""@)
}

/// The state of a volume as a JSON object.
pub open spec fn volume_json_text(target: Seq<char>, device: Seq<char>, v: VolumeInfo) -> Seq<
    char,
> {
    "{\"target\":"@ + json_quoted(target) + ",\"device\":"@ + json_quoted(device) + ",\"label\":"@
        + (match v.label {
        Some(l) => json_quoted(l@),
        None => "null"@,
    }) + ",\"version\":\""@ + decimal(v.major as nat) + "."@ + decimal(v.minor as nat)
        + "\",\"flags\":"@ + decimal(v.flags as nat) + ",\"flag_names\":["@ + join(
        quoted_names(flag_texts(v.flags)),
        ","@,
    ) + "],\"dirty\":"@ + bool_text(v.dirty()) + "}"@
}

/// The names as strings of their own.
fn owned_names(names: &Vec<&'static str>) -> (v: Vec<String>)
    ensures
        texts(v@) == name_texts(names@),
{
    let mut v: Vec<String> = Vec::new();
    let mut i: usize = 0;
    while i < names.len()
        invariant
            i <= names@.len(),
            texts(v@) == name_texts(names@).take(i as int),
        decreases names@.len() - i,
    {
        push_text(&mut v, names[i]);
        i += 1;
        assert(name_texts(names@).take(i as int) =~= name_texts(names@).take(i - 1).push(
            name_texts(names@)[i - 1],
        ));
    }
    assert(name_texts(names@).take(i as int) =~= name_texts(names@));
    v
}

/// The names of a volume's flags as strings of their own.
pub fn flag_strings(v: &VolumeInfo) -> (names: Vec<String>)
    ensures
        texts(names@) == flag_texts(v.flags),
{
    owned_names(&v.flag_names())
}

fn in_quotes(names: &Vec<String>) -> (v: Vec<String>)
    ensures
        texts(v@) == quoted_names(texts(names@)),
{
    let mut v: Vec<String> = Vec::new();
    let mut i: usize = 0;
    while i < names.len()
        invariant
            i <= names@.len(),
            texts(v@) == quoted_names(texts(names@)).take(i as int),
        decreases names@.len() - i,
    {
        let mut s = "\"".to_owned();
        s.append(names[i].as_str());
        s.append("\"");
        push_line(&mut v, s);
        i += 1;
        assert(quoted_names(texts(names@)).take(i as int) =~= quoted_names(texts(names@)).take(
            i - 1,
        ).push(quoted_names(texts(names@))[i - 1]));
    }
    assert(quoted_names(texts(names@)).take(i as int) =~= quoted_names(texts(names@)));
    v
}

/// The state of a volume as a JSON object.
pub fn volume_json(target: &str, device: &str, v: &VolumeInfo) -> (s: String)
    ensures
        s@ == volume_json_text(target@, device@, *v),
{
    let mut s = "{\"target\":".to_owned();
    s.append(json_string(target).as_str());
    s.append(",\"device\":");
    s.append(json_string(device).as_str());
    s.append(",\"label\":");
    match &v.label {
        Some(l) => {
            s.append(json_string(l.as_str()).as_str());
        },
        None => {
            s.append("null");
        },
    }
    s.append(",\"version\":\"");
    s.append(dec(v.major as u64).as_str());
    s.append(".");
    s.append(dec(v.minor as u64).as_str());
    s.append("\",\"flags\":");
    s.append(dec(v.flags as u64).as_str());
    s.append(",\"flag_names\":[");
    s.append(joined(in_quotes(&flag_strings(v)).as_slice(), ",").as_str());
    s.append("],\"dirty\":");
    s.append(bool_word(v.is_dirty()));
    s.append("}");
    s
}

/// The flags of a volume, with their names where there are any.
pub open spec fn flags_line(v: VolumeInfo) -> Seq<char> {
    let names = flag_texts(v.flags);
    let head = "  flags         0x"@ + hexadecimal(v.flags as nat, 4);
    if names.len() == 0 {
        head
    } else {
        head + "  ("@ + join(names, ", "@) + ")"@
    }
}

/// The report about a volume.
pub open spec fn volume_lines(target: Seq<char>, device: Seq<char>, v: VolumeInfo) -> Seq<
    Seq<char>,
> {
    seq![target] + line_if(device != target, "  device        "@ + device) + seq![
        "  label         "@ + label_text(v.label),
        "  ntfs version  "@ + decimal(v.major as nat) + "."@ + decimal(v.minor as nat),
        flags_line(v),
    ] + if v.dirty() {
        seq![
            "  DIRTY: this volume will not mount until the flag is cleared."@,
            "         Clear it with `ntfsfix -d "@ + device + "`, or chkdsk on Windows."@,
        ]
    } else {
        Seq::empty()
    }
}

/// The report about a volume, line by line.
pub fn volume_report(target: &str, device: &str, v: &VolumeInfo) -> (lines: Vec<String>)
    ensures
        texts(lines@) == volume_lines(target@, device@, *v),
{
    let mut lines: Vec<String> = Vec::new();
    push_text(&mut lines, target);
    assert(texts(lines@) =~= seq![target@]);
    if !same_text(device, target) {
        push_line(&mut lines, labelled("  device        ", device));
    }
    let ghost base = seq![target@] + line_if(device@ != target@, "  device        "@ + device@);
    assert(texts(lines@) =~= base);
    let label = match &v.label {
        Some(l) => l.clone(),
        None => "(none)".to_owned(),
    };
    push_line(&mut lines, labelled("  label         ", label.as_str()));
    let mut version = labelled("  ntfs version  ", dec(v.major as u64).as_str());
    version.append(".");
    version.append(dec(v.minor as u64).as_str());
    push_line(&mut lines, version);
    let names = flag_strings(v);
    let mut flags = labelled("  flags         0x", hex(v.flags as u64, 4).as_str());
    assert(texts(names@).len() == names@.len());
    if names.len() > 0 {
        flags.append("  (");
        flags.append(joined(names.as_slice(), ", ").as_str());
        flags.append(")");
    }
    push_line(&mut lines, flags);
    let ghost body = base + seq![
        "  label         "@ + label_text(v.label),
        "  ntfs version  "@ + decimal(v.major as nat) + "."@ + decimal(v.minor as nat),
        flags_line(*v),
    ];
    assert(texts(lines@) =~= body);
    if v.is_dirty() {
        push_text(&mut lines, "  DIRTY: this volume will not mount until the flag is cleared.");
        let mut fix = labelled("         Clear it with `ntfsfix -d ", device);
        fix.append("`, or chkdsk on Windows.");
        push_line(&mut lines, fix);
        assert(texts(lines@) =~= body + seq![
            "  DIRTY: this volume will not mount until the flag is cleared."@,
            "         Clear it with `ntfsfix -d "@ + device@ + "`, or chkdsk on Windows."@,
        ]);
    } else {
        assert(body + Seq::<Seq<char>>::empty() =~= body);
    }
    lines
}

/// One file earns five where less is allocated than it is long, or part of it
/// was never written; four where it is whole but not in one run; and zero
/// otherwise.
pub proof fn law_files_earn_what_is_wrong_with_them(f: &FileFacts, code: u8)
    requires
        call_ensures(file_code, (f,), code),
    ensures
        code == 5 <==> f.allocated < f.size || f.map.any_unwritten,
        code == 4 <==> f.allocated >= f.size > 0 && !f.map.any_unwritten && f.map.runs@.len() != 1,
        code == 0 || code == 4 || code == 5,
{
}

proof fn lemma_worst(s: Seq<FileFacts>)
    ensures
        forall|i: int| 0 <= i < s.len() ==> code_of(#[trigger] s[i]) <= worst_of(s),
        worst_of(s) > 0 ==> exists|i: int|
            0 <= i < s.len() && code_of(#[trigger] s[i]) == worst_of(s),
    decreases s.len(),
{
    if s.len() > 0 {
        let front = s.drop_last();
        lemma_worst(front);
        assert forall|i: int| 0 <= i < s.len() implies code_of(#[trigger] s[i]) <= worst_of(s) by {
            if i < front.len() {
                assert(front[i] == s[i]);
            }
        }
        if worst_of(s) > 0 {
            if worst_of(front) < code_of(s.last()) {
                assert(code_of(s[s.len() - 1]) == worst_of(s));
            } else {
                let i = choose|i: int|
                    0 <= i < front.len() && code_of(#[trigger] front[i]) == worst_of(front);
                assert(s[i] == front[i]);
            }
        }
    }
}

/// A run over several files exits five where one of them is not wholly there,
/// four where none is like that but one is in pieces, and zero otherwise. A
/// report alone always exits zero.
pub proof fn law_the_worst_file_decides(facts: &[FileFacts], report_only: bool, code: u8)
    requires
        call_ensures(verify, (facts, report_only), code),
    ensures
        report_only ==> code == 0,
        code == 5 <==> !report_only && exists|i: int|
            0 <= i < facts@.len() && ((#[trigger] facts@[i]).allocated < facts@[i].size
                || facts@[i].map.any_unwritten),
        code == 4 ==> exists|i: int|
            0 <= i < facts@.len() && (#[trigger] facts@[i]).size > 0 && facts@[i].map.runs@.len() != 1,
        code == 0 && !report_only ==> forall|i: int|
            0 <= i < facts@.len() && (#[trigger] facts@[i]).size > 0 ==> facts@[i].map.runs@.len()
                == 1,
        code == 0 || code == 4 || code == 5,
{
    let s = facts@;
    lemma_worst(s);
    assert forall|i: int| 0 <= i < s.len() implies code_of(#[trigger] s[i]) <= worst_of(s) by {}
    if worst_of(s) > 0 {
        let i = choose|i: int| 0 <= i < s.len() && code_of(#[trigger] s[i]) == worst_of(s);
        assert(s[i].allocated < s[i].size || s[i].map.any_unwritten || s[i].size > 0);
    }
    if exists|i: int|
        0 <= i < s.len() && ((#[trigger] s[i]).allocated < s[i].size || s[i].map.any_unwritten) {
        let i = choose|i: int|
            0 <= i < s.len() && ((#[trigger] s[i]).allocated < s[i].size
                || s[i].map.any_unwritten);
        assert(code_of(s[i]) == 5);
    }
}

/// A dirty volume exits four however clean the others are, unless only a report
/// was asked for; without one the exit code is zero.
pub proof fn law_one_dirty_volume_is_enough(states: &[VolumeInfo], report_only: bool, code: u8)
    requires
        call_ensures(volume, (states, report_only), code),
    ensures
        code == 4 <==> !report_only && exists|i: int|
            0 <= i < states@.len() && (#[trigger] states@[i]).flags & 1 != 0,
        code == 0 || code == 4,
{
    if exists|i: int| 0 <= i < states@.len() && (#[trigger] states@[i]).flags & 1 != 0 {
        let i = choose|i: int| 0 <= i < states@.len() && (#[trigger] states@[i]).flags & 1 != 0;
        assert(states@[i].dirty());
    }
}

/// A file that is one run is reported without its runs, and any other with a
/// line for each of them behind the rest.
pub proof fn law_runs_are_listed_for_files_in_pieces(path: &str, f: &FileFacts, lines: Vec<String>)
    requires
        call_ensures(print_report, (path, f), lines),
    ensures
        ({
            let extra: int = (if f.fs_magic is Some {
                1int
            } else {
                0
            }) + (if f.compressed == Some(true) {
                1int
            } else {
                0
            });
            let n = f.map.runs@.len() as int;
            &&& lines@[0]@ == path@
            &&& n == 1 ==> lines@.len() == 7 + extra
            &&& n != 1 ==> lines@.len() == 7 + extra + n
            &&& n != 1 ==> forall|i: int|
                0 <= i < n ==> (" length="@ + decimal((#[trigger] f.map.runs@[i]).length as nat)).is_suffix_of(
                    lines@[7 + extra + i]@,
                )
        }),
{
    let t = texts(lines@);
    assert(t.len() == lines@.len());
    assert(lines@[0]@ == t[0]);
    let extra: int = (if f.fs_magic is Some {
        1int
    } else {
        0
    }) + (if f.compressed == Some(true) {
        1int
    } else {
        0
    });
    if f.map.runs@.len() != 1 {
        assert forall|i: int| 0 <= i < f.map.runs@.len() implies (" length="@ + decimal(
            (#[trigger] f.map.runs@[i]).length as nat,
        )).is_suffix_of(lines@[7 + extra + i]@) by {
            let r = f.map.runs@[i];
            let line = lines@[7 + extra + i]@;
            assert(t[7 + extra + i] == run_texts(f.map.runs@)[i]);
            let head = "    run "@ + decimal(i as nat) + ": logical="@ + decimal(r.logical as nat)
                + " physical="@ + decimal(r.physical as nat);
            assert(line =~= head + (" length="@ + decimal(r.length as nat)));
        }
    }
}

/// A copy that skipped holes says so in three lines more, and every copy ends
/// with the word that it is in one piece.
pub proof fn law_skipped_holes_are_owned_up_to(path: &str, r: &Report, lines: Vec<String>)
    requires
        call_ensures(report_copy, (path, r), lines),
    ensures
        lines@[0]@ == path@,
        lines@[1]@ == "  bytes         "@ + decimal(r.bytes as nat),
        lines@[2]@ == "  written       "@ + decimal(r.written as nat),
        r.holes_skipped == 0 ==> lines@.len() == 4,
        r.holes_skipped > 0 ==> lines@.len() == 7 && lines@[3]@ == "  holes skipped "@ + decimal(
            r.holes_skipped as nat,
        ),
        lines@.last()@ == "  contiguous    yes (1 extent)"@,
{
    let t = texts(lines@);
    assert(t.len() == lines@.len());
    assert(t[0] == lines@[0]@);
    assert(t[1] == lines@[1]@);
    assert(t[2] == lines@[2]@);
    assert(t.last() == lines@.last()@);
    if r.holes_skipped > 0 {
        assert(t[3] == lines@[3]@);
    }
}

/// A file that was already in one piece is reported in one line, and any other
/// as the copy that it became.
pub proof fn law_untouched_files_are_reported_in_one_line(
    path: &str,
    r: &Report,
    lines: Vec<String>,
    copied: Vec<String>,
)
    requires
        call_ensures(report_fix, (path, r), lines),
        call_ensures(report_copy, (path, r), copied),
    ensures
        r.written == 0 && r.holes_skipped == 0 ==> lines@.len() == 1 && path@.is_prefix_of(
            lines@[0]@,
        ),
        r.written > 0 || r.holes_skipped > 0 ==> texts(lines@) == texts(copied@),
{
    let t = texts(lines@);
    assert(t.len() == lines@.len());
    if r.written == 0 && r.holes_skipped == 0 {
        assert(t[0] == lines@[0]@);
    }
}

/// The report on a volume names its device where that is not the target itself,
/// and ends with what to do exactly where the volume is dirty.
pub proof fn law_dirty_volumes_come_with_a_remedy(
    target: &str,
    device: &str,
    v: &VolumeInfo,
    lines: Vec<String>,
)
    requires
        call_ensures(volume_report, (target, device, v), lines),
    ensures
        lines@.len() == 4 + (if device@ != target@ {
            1int
        } else {
            0
        }) + (if v.flags & 1 != 0 {
            2int
        } else {
            0
        }),
        lines@[0]@ == target@,
        device@ != target@ ==> lines@[1]@ == "  device        "@ + device@,
        v.flags & 1 != 0 ==> lines@.last()@ == "         Clear it with `ntfsfix -d "@ + device@
            + "`, or chkdsk on Windows."@,
{
    let t = texts(lines@);
    assert(t.len() == lines@.len());
    assert(t[0] == lines@[0]@);
    assert(t[1] == lines@[1]@);
    assert(t.last() == lines@.last()@);
}

/// Whether `part` stands somewhere in `s`.
pub open spec fn says(s: Seq<char>, part: Seq<char>) -> bool {
    exists|front: Seq<char>| #[trigger] (front + part).is_prefix_of(s)
}

/// Whether each of the parts stands somewhere in `s`.
pub open spec fn says_all(s: Seq<char>, parts: Seq<Seq<char>>) -> bool {
    forall|i: int| 0 <= i < parts.len() ==> says(s, #[trigger] parts[i])
}

proof fn lemma_says_more(s: Seq<char>, parts: Seq<Seq<char>>, key: Seq<char>, value: Seq<char>)
    requires
        says_all(s, parts),
    ensures
        says_all(s + key + value, parts.push(key + value)),
{
    let t = s + key + value;
    let more = parts.push(key + value);
    assert forall|i: int| 0 <= i < more.len() implies says(t, #[trigger] more[i]) by {
        if i < parts.len() {
            assert(more[i] == parts[i]);
            let front = choose|front: Seq<char>| #[trigger] (front + parts[i]).is_prefix_of(s);
            assert((front + parts[i]).is_prefix_of(t));
        } else {
            assert((s + (key + value)) =~= t);
            assert((s + (key + value)).is_prefix_of(t));
        }
    }
}

/// The report of a file in JSON gives each figure under its own name.
pub proof fn law_figures_stand_under_their_names(path: &str, f: &FileFacts, s: String)
    requires
        call_ensures(render_json, (path, f), s),
    ensures
        says(s@, "{\"path\":"@ + json_quoted(path@)),
        says(s@, ",\"size\":"@ + decimal(f.size as nat)),
        says(s@, ",\"allocated\":"@ + decimal(f.allocated as nat)),
        f.allocated < f.size ==> says(s@, ",\"sparse\":"@ + "true"@),
        f.allocated >= f.size ==> says(s@, ",\"sparse\":"@ + "false"@),
        says(s@, ",\"raw_records\":"@ + decimal(f.map.raw_records as nat)),
        says(s@, ",\"merged_runs\":"@ + decimal(f.map.runs@.len())),
        f.map.runs@.len() == 1 ==> says(s@, ",\"contiguous\":"@ + "true"@),
        f.map.runs@.len() != 1 ==> says(s@, ",\"contiguous\":"@ + "false"@),
        f.map.any_unwritten ==> says(s@, ",\"any_unwritten\":"@ + "true"@),
        !f.map.any_unwritten ==> says(s@, ",\"any_unwritten\":"@ + "false"@),
{
    let none = Seq::<char>::empty();
    let k0 = "{\"path\":"@;
    let v0 = json_quoted(path@);
    let k1 = ",\"size\":"@;
    let v1 = decimal(f.size as nat);
    let k2 = ",\"allocated\":"@;
    let v2 = decimal(f.allocated as nat);
    let k3 = ",\"sparse\":"@;
    let v3 = bool_text(f.allocated < f.size);
    let k4 = ",\"raw_records\":"@;
    let v4 = decimal(f.map.raw_records as nat);
    let k5 = ",\"merged_runs\":"@;
    let v5 = decimal(f.map.runs@.len());
    let k6 = ",\"contiguous\":"@;
    let v6 = bool_text(f.map.runs@.len() == 1);
    let k7 = ",\"any_unwritten\":"@;
    let v7 = bool_text(f.map.any_unwritten);
    let k8 = ",\"runs\":["@;
    let v8 = join(runs_json(f.map.runs@), ","@);
    let p = Seq::<Seq<char>>::empty();
    let s0 = k0 + v0;
    let s1 = s0 + k1 + v1;
    let s2 = s1 + k2 + v2;
    let s3 = s2 + k3 + v3;
    let s4 = s3 + k4 + v4;
    let s5 = s4 + k5 + v5;
    let s6 = s5 + k6 + v6;
    let s7 = s6 + k7 + v7;
    let s8 = s7 + k8 + v8;
    let p0 = p.push(k0 + v0);
    let p1 = p0.push(k1 + v1);
    let p2 = p1.push(k2 + v2);
    let p3 = p2.push(k3 + v3);
    let p4 = p3.push(k4 + v4);
    let p5 = p4.push(k5 + v5);
    let p6 = p5.push(k6 + v6);
    let p7 = p6.push(k7 + v7);
    let p8 = p7.push(k8 + v8);
    assert(none + k0 + v0 =~= s0);
    lemma_says_more(none, p, k0, v0);
    lemma_says_more(s0, p0, k1, v1);
    lemma_says_more(s1, p1, k2, v2);
    lemma_says_more(s2, p2, k3, v3);
    lemma_says_more(s3, p3, k4, v4);
    lemma_says_more(s4, p4, k5, v5);
    lemma_says_more(s5, p5, k6, v6);
    lemma_says_more(s6, p6, k7, v7);
    lemma_says_more(s7, p7, k8, v8);
    lemma_says_more(s8, p8, "]}"@, none);
    assert(s8 + "]}"@ + none =~= s@);
    let all = p8.push("]}"@ + none);
    assert(says_all(s@, all));
    assert(all[0] == k0 + v0 && all[1] == k1 + v1 && all[2] == k2 + v2 && all[3] == k3 + v3);
    assert(all[4] == k4 + v4 && all[5] == k5 + v5 && all[6] == k6 + v6 && all[7] == k7 + v7);
}

/// The report of a volume in JSON gives each fact under its own name, and
/// `null` for a label that is missing.
pub proof fn law_volume_facts_stand_under_their_names(
    target: &str,
    device: &str,
    v: &VolumeInfo,
    s: String,
)
    requires
        call_ensures(volume_json, (target, device, v), s),
    ensures
        says(s@, "{\"target\":"@ + json_quoted(target@)),
        says(s@, ",\"device\":"@ + json_quoted(device@)),
        v.label is None ==> says(s@, ",\"label\":"@ + "null"@),
        v.label matches Some(l) ==> says(s@, ",\"label\":"@ + json_quoted(l@)),
        says(s@, ",\"version\":\""@ + decimal(v.major as nat)),
        says(s@, "."@ + decimal(v.minor as nat)),
        says(s@, "\",\"flags\":"@ + decimal(v.flags as nat)),
        v.flags & 1 != 0 ==> says(s@, "],\"dirty\":"@ + "true"@),
        v.flags & 1 == 0 ==> says(s@, "],\"dirty\":"@ + "false"@),
{
    let none = Seq::<char>::empty();
    let k0 = "{\"target\":"@;
    let v0 = json_quoted(target@);
    let k1 = ",\"device\":"@;
    let v1 = json_quoted(device@);
    let k2 = ",\"label\":"@;
    let v2 = match v.label {
        Some(l) => json_quoted(l@),
        None => "null"@,
    };
    let k3 = ",\"version\":\""@;
    let v3 = decimal(v.major as nat);
    let k4 = "."@;
    let v4 = decimal(v.minor as nat);
    let k5 = "\",\"flags\":"@;
    let v5 = decimal(v.flags as nat);
    let k6 = ",\"flag_names\":["@;
    let v6 = join(quoted_names(flag_texts(v.flags)), ","@);
    let k7 = "],\"dirty\":"@;
    let v7 = bool_text(v.flags & 1 != 0);
    let p = Seq::<Seq<char>>::empty();
    let s0 = k0 + v0;
    let s1 = s0 + k1 + v1;
    let s2 = s1 + k2 + v2;
    let s3 = s2 + k3 + v3;
    let s4 = s3 + k4 + v4;
    let s5 = s4 + k5 + v5;
    let s6 = s5 + k6 + v6;
    let s7 = s6 + k7 + v7;
    let p0 = p.push(k0 + v0);
    let p1 = p0.push(k1 + v1);
    let p2 = p1.push(k2 + v2);
    let p3 = p2.push(k3 + v3);
    let p4 = p3.push(k4 + v4);
    let p5 = p4.push(k5 + v5);
    let p6 = p5.push(k6 + v6);
    let p7 = p6.push(k7 + v7);
    assert(none + k0 + v0 =~= s0);
    lemma_says_more(none, p, k0, v0);
    lemma_says_more(s0, p0, k1, v1);
    lemma_says_more(s1, p1, k2, v2);
    lemma_says_more(s2, p2, k3, v3);
    lemma_says_more(s3, p3, k4, v4);
    lemma_says_more(s4, p4, k5, v5);
    lemma_says_more(s5, p5, k6, v6);
    lemma_says_more(s6, p6, k7, v7);
    lemma_says_more(s7, p7, "}"@, none);
    assert(s7 + "}"@ + none =~= s@);
    let all = p7.push("}"@ + none);
    assert(says_all(s@, all));
    assert(all[0] == k0 + v0 && all[1] == k1 + v1 && all[2] == k2 + v2 && all[3] == k3 + v3);
    assert(all[4] == k4 + v4 && all[5] == k5 + v5 && all[6] == k6 + v6 && all[7] == k7 + v7);
}

/// The report on a file gives each figure on its own line, under its own name.
pub proof fn law_figures_stand_on_their_lines(path: &str, f: &FileFacts, lines: Vec<String>)
    requires
        call_ensures(print_report, (path, f), lines),
    ensures
        lines@[1]@ == "  size          "@ + decimal(f.size as nat),
        lines@[2]@ == "  allocated     "@ + decimal(f.allocated as nat),
        f.allocated < f.size ==> lines@[3]@ == "  sparse        "@ + "true"@,
        f.allocated >= f.size ==> lines@[3]@ == "  sparse        "@ + "false"@,
        lines@[4]@ == "  raw records   "@ + decimal(f.map.raw_records as nat),
        ("  merged runs   "@ + decimal(f.map.runs@.len())).is_prefix_of(lines@[5]@),
        f.map.runs@.len() == 1 ==> "true"@.is_suffix_of(lines@[5]@),
        f.map.runs@.len() != 1 ==> "false"@.is_suffix_of(lines@[5]@),
        f.map.any_unwritten ==> lines@[6]@ == "  any unwritten "@ + "true"@,
        !f.map.any_unwritten ==> lines@[6]@ == "  any unwritten "@ + "false"@,
        f.fs_magic matches Some(m) ==> ("  filesystem    0x"@ + hexadecimal(
            m as u64 as nat,
            1,
        )).is_prefix_of(lines@[7]@),
        f.fs_magic is None && f.compressed == Some(true) ==> lines@[7]@ == "  compressed    yes"@,
        f.fs_magic is Some && f.compressed == Some(true) ==> lines@[8]@ == "  compressed    yes"@,
{
    let t = texts(lines@);
    assert(t.len() == lines@.len());
    assert(t[1] == lines@[1]@ && t[2] == lines@[2]@ && t[3] == lines@[3]@);
    assert(t[4] == lines@[4]@ && t[5] == lines@[5]@ && t[6] == lines@[6]@);
    if f.fs_magic is Some || f.compressed == Some(true) {
        assert(t[7] == lines@[7]@);
    }
    if f.fs_magic is Some && f.compressed == Some(true) {
        assert(t[8] == lines@[8]@);
    }
}

/// The report on a volume names its label or says that there is none, its
/// version, and its flags in four digits.
pub proof fn law_volumes_are_described(
    target: &str,
    device: &str,
    v: &VolumeInfo,
    lines: Vec<String>,
)
    requires
        call_ensures(volume_report, (target, device, v), lines),
    ensures
        ({
            let at: int = if device@ != target@ {
                2
            } else {
                1
            };
            &&& v.label matches Some(l) ==> lines@[at]@ == "  label         "@ + l@
            &&& v.label is None ==> lines@[at]@ == "  label         "@ + "(none)"@
            &&& lines@[at + 1]@ == "  ntfs version  "@ + decimal(v.major as nat) + "."@ + decimal(
                v.minor as nat,
            )
            &&& ("  flags         0x"@ + hexadecimal(v.flags as nat, 4)).is_prefix_of(
                lines@[at + 2]@,
            )
        }),
{
    let at: int = if device@ != target@ {
        2
    } else {
        1
    };
    let t = texts(lines@);
    assert(t.len() == lines@.len());
    assert(t[at] == lines@[at]@);
    assert(t[at + 1] == lines@[at + 1]@);
    assert(t[at + 2] == lines@[at + 2]@);
}

} // verus!
