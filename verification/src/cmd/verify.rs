//! `iodd verify`: the footer and the extents of a single file.
//!
//! Fragmentation and sparseness always fail: they are the two properties the
//! device actually enforces. Footer problems and uninitialized extents are
//! warnings, because the device mounts such files; `--strict` turns them into
//! a failure.

use vstd::prelude::*;

use crate::bytes::{be_digits, be_field, law_big_endian_fields_hold_digits, starts_with};
use crate::cli::VerifyArgs;
use crate::cmd::create::geometry_line;
use crate::contig::report::{file_lines, print_report};
use crate::contig::FileFacts;
use crate::error::{code_of, Error, Result};
use crate::footer::{
    finding_texts, findings, footer_bytes, fresh, has_cookie, intact,
    law_fresh_footer_has_no_problems, law_only_intact_footers_have_no_problems, lemma_digits,
    parse, starts_with_cookie, Creator, COOKIE,
};
use crate::text::{dec, decimal, join, joined, line_if, push_line, push_text, texts};

verus! {

/// What `verify` has to say about a file.
#[derive(Debug)]
pub struct Verification {
    /// What is reported.
    pub lines: Vec<String>,
    /// What is warned of.
    pub warnings: Vec<String>,
    /// The exit code, or why the file fails.
    pub outcome: Result<u8>,
}

/// What is wrong with the footer of a file, in words.
pub open spec fn footer_findings(size: u64, tail: Seq<u8>) -> Seq<Seq<char>> {
    if size < 512 {
        seq!["the file is too small to hold a footer"@]
    } else {
        finding_texts(tail, Some((size - 512) as u64))
    }
}

/// One line for each finding.
pub open spec fn bullets(findings: Seq<Seq<char>>) -> Seq<Seq<char>> {
    Seq::new(findings.len(), |i: int| "    - "@ + findings[i])
}

/// What is reported about the footer of a file.
pub open spec fn footer_lines(size: u64, tail: Seq<u8>) -> Seq<Seq<char>> {
    let findings = footer_findings(size, tail);
    (if findings.len() == 0 {
        seq!["  footer        valid"@]
    } else {
        seq!["  footer        "@ + decimal(findings.len()) + " problem(s)"@] + bullets(findings)
    }) + if size >= 512 && has_cookie(tail) {
        seq![
            "  virtual size  "@ + decimal(be_field(tail, 48, 8)),
            "  geometry      "@ + decimal(be_field(tail, 56, 2)) + "/"@ + decimal(tail[58] as nat)
                + "/"@ + decimal(tail[59] as nat),
        ]
    } else {
        Seq::empty()
    }
}

/// What is said about extents that were never written.
pub open spec fn unwritten_text() -> Seq<char> {
    "contains uninitialized extents; a guest will see whatever was previously on those clusters, not zeros"@
}

/// Everything that `--strict` fails a file for.
pub open spec fn soft_findings(f: FileFacts, tail: Seq<u8>) -> Seq<Seq<char>> {
    footer_findings(f.size, tail) + line_if(f.map.any_unwritten, unwritten_text())
}

/// What is warned of.
pub open spec fn warning_lines(path: Seq<char>, f: FileFacts, tail: Seq<u8>) -> Seq<Seq<char>> {
    line_if(
        footer_findings(f.size, tail).len() > 0,
        "iodd: warning: footer problems do not prevent mounting"@,
    ) + line_if(f.map.any_unwritten, "iodd: warning: "@ + path + " "@ + unwritten_text())
}

/// Whether a file meets what the device enforces: full allocation, and a single
/// extent unless it is empty.
pub open spec fn passes_gates(f: FileFacts) -> bool {
    !f.sparse() && (f.size > 0 ==> f.map.runs@.len() == 1)
}

/// Whether `e` is why a file fails.
pub open spec fn fails_with(
    e: Error,
    path: Seq<char>,
    f: FileFacts,
    tail: Seq<u8>,
    free: Option<u64>,
) -> bool {
    if f.sparse() {
        e matches Error::Sparse { path: p, allocated, expected } && p@ == path && allocated
            == f.allocated && expected == f.size
    } else if f.size > 0 && f.map.runs@.len() != 1 {
        e matches Error::Fragmented { path: p, runs, free_bytes, largest_free_run } && p@ == path
            && runs == f.map.runs && free_bytes == free && largest_free_run is None
    } else {
        e matches Error::Footer { path: p, reason } && p@ == path && reason@ == join(
            soft_findings(f, tail),
            "; "@,
        )
    }
}

fn push_bullets(lines: &mut Vec<String>, findings: &Vec<String>)
    ensures
        texts(final(lines)@) == texts(old(lines)@) + bullets(texts(findings@)),
{
    let ghost all = bullets(texts(findings@));
    let mut i: usize = 0;
    while i < findings.len()
        invariant
            i <= findings@.len(),
            all == bullets(texts(findings@)),
            texts(lines@) == texts(old(lines)@) + all.take(i as int),
        decreases findings@.len() - i,
    {
        let mut s = "    - ".to_owned();
        s.append(findings[i].as_str());
        push_line(lines, s);
        i += 1;
        assert(all.take(i as int) =~= all.take(i - 1).push(all[i - 1]));
    }
    assert(all.take(i as int) =~= all);
}

/// What is wrong with the footer of a file.
fn find_problems(size: u64, tail: &[u8; 512]) -> (findings: Vec<String>)
    ensures
        texts(findings@) == footer_findings(size, tail@),
        findings@.len() == footer_findings(size, tail@).len(),
{
    let findings = if size < 512 {
        let mut one: Vec<String> = Vec::new();
        push_text(&mut one, "the file is too small to hold a footer");
        assert(texts(one@) =~= footer_findings(size, tail@));
        one
    } else {
        findings(tail, Some(size - 512))
    };
    assert(texts(findings@).len() == findings@.len());
    findings
}

/// Report on the footer of a file.
fn push_footer(lines: &mut Vec<String>, size: u64, tail: &[u8; 512], findings: &Vec<String>)
    requires
        texts(findings@) == footer_findings(size, tail@),
    ensures
        texts(final(lines)@) == texts(old(lines)@) + footer_lines(size, tail@),
{
    let ghost head = texts(lines@);
    assert(texts(findings@).len() == findings@.len());
    let ghost mut said = seq!["  footer        valid"@];
    if findings.len() == 0 {
        push_text(lines, "  footer        valid");
    } else {
        let mut s = "  footer        ".to_owned();
        s.append(dec(findings.len() as u64).as_str());
        s.append(" problem(s)");
        push_line(lines, s);
        push_bullets(lines, findings);
        proof {
            said = seq![s@] + bullets(texts(findings@));
        }
    }
    assert(texts(lines@) =~= head + said);
    if size >= 512 && starts_with(tail, &COOKIE) {
        let (footer, _) = parse(tail, None);
        let mut s = "  virtual size  ".to_owned();
        s.append(dec(footer.virtual_size).as_str());
        push_line(lines, s);
        push_line(lines, geometry_line(&footer.geometry));
    }
    assert(texts(lines@) =~= head + footer_lines(size, tail@));
}

/// What is warned of.
fn warn(path: &str, facts: &FileFacts, bad_footer: bool) -> (warnings: Vec<String>)
    ensures
        texts(warnings@) == line_if(
            bad_footer,
            "iodd: warning: footer problems do not prevent mounting"@,
        ) + line_if(facts.map.any_unwritten, "iodd: warning: "@ + path@ + " "@ + unwritten_text()),
{
    let mut warnings: Vec<String> = Vec::new();
    if bad_footer {
        push_text(&mut warnings, "iodd: warning: footer problems do not prevent mounting");
    }
    if facts.map.any_unwritten {
        let mut s = "iodd: warning: ".to_owned();
        s.append(path);
        s.append(" ");
        s.append(unwritten());
        push_line(&mut warnings, s);
    }
    assert(texts(warnings@) =~= line_if(
        bad_footer,
        "iodd: warning: footer problems do not prevent mounting"@,
    ) + line_if(facts.map.any_unwritten, "iodd: warning: "@ + path@ + " "@ + unwritten_text()));
    warnings
}

fn unwritten() -> (s: &'static str)
    ensures
        s@ == unwritten_text(),
{
    "contains uninitialized extents; a guest will see whatever was previously on those clusters, not zeros"
}

/// Inspect a file out of its facts and its last sector.
///
/// Allocation comes before contiguity: a sparse file is often fragmented too,
/// and "not allocated" is the more actionable of the two. `free` is the free
/// space of the volume, where obtainable.
pub fn run(args: &VerifyArgs, facts: FileFacts, tail: &[u8; 512], free: Option<u64>) -> (v:
    Verification)
    ensures
        texts(v.lines@) == file_lines(args.path@, facts) + footer_lines(facts.size, tail@),
        texts(v.warnings@) == warning_lines(args.path@, facts, tail@),
        v.outcome is Ok <==> passes_gates(facts) && !(args.strict && soft_findings(
            facts,
            tail@,
        ).len() > 0),
        v.outcome matches Ok(code) ==> code == 0,
        v.outcome matches Err(e) ==> fails_with(e, args.path@, facts, tail@, free),
{
    let path = args.path.as_str();
    let mut findings = find_problems(facts.size, tail);
    let mut lines = print_report(path, &facts);
    push_footer(&mut lines, facts.size, tail, &findings);
    let warnings = warn(path, &facts, findings.len() > 0);
    if facts.map.any_unwritten {
        push_text(&mut findings, unwritten());
    }
    assert(texts(findings@) =~= soft_findings(facts, tail@));
    assert(texts(findings@).len() == findings@.len());

    let outcome = if facts.is_sparse() {
        Err(
            Error::Sparse {
                path: path.to_owned(),
                allocated: facts.allocated,
                expected: facts.size,
            },
        )
    } else if facts.size > 0 && !facts.is_contiguous() {
        Err(
            Error::Fragmented {
                path: path.to_owned(),
                runs: facts.map.runs,
                free_bytes: free,
                largest_free_run: None,
            },
        )
    } else if args.strict && findings.len() > 0 {
        Err(Error::Footer { path: path.to_owned(), reason: joined(findings.as_slice(), "; ") })
    } else {
        Ok(0)
    };
    Verification { lines, warnings, outcome }
}

/// What the device enforces is reported as such, and only a file that it would
/// mount is failed for its footer.
pub proof fn law_hard_gates_outrank_the_footer(
    e: Error,
    path: Seq<char>,
    f: FileFacts,
    tail: Seq<u8>,
    free: Option<u64>,
)
    requires
        fails_with(e, path, f, tail, free),
    ensures
        !passes_gates(f) ==> code_of(e) == 4 || code_of(e) == 5,
        passes_gates(f) ==> code_of(e) == 7,
{
}

/// A disk that was laid down as asked passes even `--strict`: whole sectors, a
/// fresh footer, one fully allocated and fully written extent.
pub proof fn law_a_fresh_disk_passes_strict(
    f: FileFacts,
    tail: Seq<u8>,
    virtual_size: u64,
    creator: Creator,
    timestamp: u32,
    unique_id: [u8; 16],
)
    requires
        virtual_size % 512 == 0,
        f.size == virtual_size + 512,
        f.allocated >= f.size,
        f.map.runs@.len() == 1,
        !f.map.any_unwritten,
        tail == footer_bytes(fresh(virtual_size, creator, timestamp, unique_id)),
    ensures
        passes_gates(f),
        soft_findings(f, tail).len() == 0,
{
    law_fresh_footer_has_no_problems(
        virtual_size,
        creator,
        timestamp,
        unique_id,
        Some(virtual_size),
    );
}

/// Whether a file ends in an intact footer that names the file's size without
/// it.
pub open spec fn ends_in_its_footer(size: u64, tail: Seq<u8>) -> bool {
    size >= 512 && intact(tail, Some((size - 512) as u64))
}

proof fn lemma_footer_findings(size: u64, tail: Seq<u8>)
    requires
        tail.len() == 512,
    ensures
        footer_findings(size, tail).len() == 0 <==> ends_in_its_footer(size, tail),
{
    if size >= 512 {
        law_only_intact_footers_have_no_problems(tail, Some((size - 512) as u64));
    }
}

/// A file passes exactly when it is as long as what is allocated for it, or
/// shorter, and lies in one extent unless it is empty; under `--strict` it has to
/// end in its footer and to be written throughout as well. What the device
/// enforces is what it is failed for first.
pub proof fn law_files_fail_for_what_is_wrong_with_them(
    args: &VerifyArgs,
    facts: FileFacts,
    tail: &[u8; 512],
    free: Option<u64>,
    v: Verification,
)
    requires
        call_ensures(run, (args, facts, tail, free), v),
    ensures
        ({
            let short = facts.allocated < facts.size;
            let pieces = facts.size > 0 && facts.map.runs@.len() != 1;
            let odd = !ends_in_its_footer(facts.size, tail@) || facts.map.any_unwritten;
            &&& v.outcome is Ok <==> !short && !pieces && !(args.strict && odd)
            &&& v.outcome matches Ok(code) ==> code == 0
            &&& v.outcome matches Err(e) ==> code_of(e) == if short {
                5u8
            } else if pieces {
                4
            } else {
                7
            }
        }),
{
    lemma_footer_findings(facts.size, tail@);
}

/// Whatever the outcome, a file is warned of exactly when it does not end in its
/// footer or was not written throughout: a footer that names another size than
/// the file's is a warning, and under `--strict` a failure.
pub proof fn law_odd_files_are_warned_of(
    args: &VerifyArgs,
    facts: FileFacts,
    tail: &[u8; 512],
    free: Option<u64>,
    v: Verification,
)
    requires
        call_ensures(run, (args, facts, tail, free), v),
    ensures
        v.warnings@.len() == 0 <==> ends_in_its_footer(facts.size, tail@)
            && !facts.map.any_unwritten,
        v.warnings@.len() == (if ends_in_its_footer(facts.size, tail@) {
            0int
        } else {
            1
        }) + (if facts.map.any_unwritten {
            1int
        } else {
            0
        }),
        texts(v.lines@).contains("  footer        valid"@) <== ends_in_its_footer(
            facts.size,
            tail@,
        ),
{
    lemma_footer_findings(facts.size, tail@);
    assert(texts(v.warnings@).len() == v.warnings@.len());
    let all = file_lines(args.path@, facts) + footer_lines(facts.size, tail@);
    if ends_in_its_footer(facts.size, tail@) {
        let n = file_lines(args.path@, facts).len() as int;
        assert(footer_lines(facts.size, tail@)[0] == "  footer        valid"@);
        assert(all[n] == "  footer        valid"@);
    }
}

/// A file fails with the figures that were found, and the footer of a file that
/// has one is shown as it stands: the size that it names, and its geometry.
pub proof fn law_reports_give_the_figures_found(
    args: &VerifyArgs,
    facts: FileFacts,
    tail: &[u8; 512],
    free: Option<u64>,
    v: Verification,
)
    requires
        call_ensures(run, (args, facts, tail, free), v),
    ensures
        v.outcome matches Err(Error::Sparse { path, allocated, expected }) ==> path@ == args.path@
            && allocated == facts.allocated && expected == facts.size,
        v.outcome matches Err(Error::Fragmented { path, runs, free_bytes, .. }) ==> path@
            == args.path@ && runs@ == facts.map.runs@ && free_bytes == free,
        v.outcome matches Err(Error::Footer { path, .. }) ==> path@ == args.path@,
        facts.size >= 512 && starts_with_cookie(tail@) ==> {
            let n = v.lines@.len() as int;
            &&& v.lines@[n - 2]@ == "  virtual size  "@ + decimal(be_digits(tail@, 48, 8) as nat)
            &&& v.lines@[n - 1]@ == "  geometry      "@ + decimal(be_digits(tail@, 56, 2) as nat)
                + "/"@ + decimal(tail@[58] as nat) + "/"@ + decimal(tail@[59] as nat)
        },
{
    let t = texts(v.lines@);
    let n = v.lines@.len() as int;
    assert(t.len() == n);
    if facts.size >= 512 && starts_with_cookie(tail@) {
        law_big_endian_fields_hold_digits(tail@, 48, 8);
        law_big_endian_fields_hold_digits(tail@, 56, 2);
        lemma_digits(tail@);
        assert(t[n - 2] == v.lines@[n - 2]@);
        assert(t[n - 1] == v.lines@[n - 1]@);
    }
}

} // verus!
