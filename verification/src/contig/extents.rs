//! Extent records and the merge into physical runs.
//!
//! **The query must be bounded to the file size.** Asked past end-of-file,
//! ntfs3 returns an extra `UNWRITTEN` record covering the slack in the final
//! cluster. That record is cluster tail, not file data, and it would make
//! [`any_unwritten`] true forever. [`ExtentScan`] therefore never asks beyond
//! the size that it was made with.
//!
//! **Adjacent records must merge.** A contiguous file can be reported as
//! several physically adjacent records; NTFS run lists split for reasons
//! unrelated to fragmentation. Counting raw records would call such a file
//! fragmented.

use vstd::prelude::*;

use super::error::{Error, Result, Run};
use crate::text::{hex, hexadecimal};

verus! {

/// Asks the driver to write back delayed allocations before it answers.
pub const FIEMAP_FLAG_SYNC: u32 = 0x0001;

pub const FIEMAP_EXTENT_LAST: u32 = 0x0001;

pub const FIEMAP_EXTENT_UNKNOWN: u32 = 0x0002;

pub const FIEMAP_EXTENT_DELALLOC: u32 = 0x0004;

pub const FIEMAP_EXTENT_ENCODED: u32 = 0x0008;

pub const FIEMAP_EXTENT_DATA_INLINE: u32 = 0x0200;

pub const FIEMAP_EXTENT_UNWRITTEN: u32 = 0x0800;

pub const FIEMAP_EXTENT_MERGED: u32 = 0x1000;

/// Flags that mean the map cannot be trusted for a contiguity decision.
pub const UNTRUSTED: u32 = FIEMAP_EXTENT_UNKNOWN | FIEMAP_EXTENT_DELALLOC | FIEMAP_EXTENT_ENCODED
    | FIEMAP_EXTENT_DATA_INLINE;

/// How many extent records to request per round.
pub const BATCH: u32 = 1024;

/// One record exactly as the kernel reported it, before merging.
#[derive(Debug, Clone, Copy, PartialEq, Eq, Structural)]
pub struct Extent {
    pub logical: u64,
    pub physical: u64,
    pub length: u64,
    pub flags: u32,
}

/// The result of mapping a file: merged runs plus the facts a verdict needs.
#[derive(Debug, Clone, PartialEq, Eq)]
pub struct ExtentMap {
    /// Physically contiguous runs, in logical order.
    pub runs: Vec<Run>,
    /// Raw record count, before merging. Diagnostic only.
    pub raw_records: usize,
    /// Any extent flagged `FIEMAP_EXTENT_UNWRITTEN`, i.e. allocated but never
    /// written. Such a region hands the device stale cluster contents.
    pub any_unwritten: bool,
}

impl ExtentMap {
    /// The tool's core question.
    pub fn is_contiguous(&self) -> (r: bool)
        ensures
            r == (self.runs@.len() == 1),
    {
        self.runs.len() == 1
    }
}

// ---------------------------------------------------------------------------
// The merge
// ---------------------------------------------------------------------------

/// `a + b`, or the largest offset where the sum does not fit.
pub open spec fn sat_add(a: u64, b: u64) -> u64 {
    if a + b > u64::MAX {
        u64::MAX
    } else {
        (a + b) as u64
    }
}

/// The records that hold data; a zero-length record is a marker.
pub open spec fn data_records(s: Seq<Extent>) -> Seq<Extent> {
    s.filter(|e: Extent| e.length > 0)
}

/// `s` with `e` behind every record that does not start after it.
pub open spec fn place(s: Seq<Extent>, e: Extent) -> Seq<Extent>
    decreases s.len(),
{
    if s.len() == 0 || s.last().logical <= e.logical {
        s.push(e)
    } else {
        place(s.drop_last(), e).push(s.last())
    }
}

/// The records of `s` in logical order; records that start at the same offset
/// keep the order they came in.
pub open spec fn in_logical_order(s: Seq<Extent>) -> Seq<Extent>
    decreases s.len(),
{
    if s.len() == 0 {
        s
    } else {
        place(in_logical_order(s.drop_last()), s.last())
    }
}

/// Whether `e` continues `r` in both the logical and the physical dimension.
pub open spec fn continues(r: Run, e: Extent) -> bool {
    e.physical == sat_add(r.physical, r.length) && e.logical == sat_add(r.logical, r.length)
}

/// The run that one record starts.
pub open spec fn run_of(e: Extent) -> Run {
    Run { logical: e.logical, physical: e.physical, length: e.length }
}

/// The run `r` with the length of `e` added.
pub open spec fn extended(r: Run, e: Extent) -> Run {
    Run { logical: r.logical, physical: r.physical, length: sat_add(r.length, e.length) }
}

/// The runs that the records of `s` make up, taken one after the other.
pub open spec fn fold_runs(s: Seq<Extent>) -> Seq<Run>
    decreases s.len(),
{
    if s.len() == 0 {
        Seq::empty()
    } else {
        let runs = fold_runs(s.drop_last());
        if runs.len() > 0 && continues(runs.last(), s.last()) {
            runs.drop_last().push(extended(runs.last(), s.last()))
        } else {
            runs.push(run_of(s.last()))
        }
    }
}

/// The physically contiguous runs of a file with these records.
pub open spec fn runs_of(extents: Seq<Extent>) -> Seq<Run> {
    fold_runs(in_logical_order(data_records(extents)))
}

/// `place` inserts at the position behind the last record that does not start
/// after `e`.
proof fn lemma_place_at(s: Seq<Extent>, e: Extent, pos: int)
    requires
        0 <= pos <= s.len(),
        forall|i: int| pos <= i < s.len() ==> s[i].logical > e.logical,
        pos > 0 ==> s[pos - 1].logical <= e.logical,
    ensures
        place(s, e) == s.insert(pos, e),
    decreases s.len(),
{
    if pos == s.len() {
        assert(s.insert(pos, e) == s.push(e));
    } else {
        lemma_place_at(s.drop_last(), e, pos);
        assert(s.insert(pos, e) == s.drop_last().insert(pos, e).push(s.last()));
    }
}

/// The records with data, in logical order.
fn ordered_records(extents: &[Extent]) -> (kept: Vec<Extent>)
    ensures
        kept@ == in_logical_order(data_records(extents@)),
{
    let mut kept: Vec<Extent> = Vec::new();
    let mut i: usize = 0;
    assert(extents@.take(0) == Seq::<Extent>::empty());
    assert(data_records(extents@.take(0)) == Seq::<Extent>::empty()) by {
        reveal(Seq::filter);
    }
    while i < extents.len()
        invariant
            i <= extents@.len(),
            kept@ == in_logical_order(data_records(extents@.take(i as int))),
        decreases extents@.len() - i,
    {
        let e = extents[i];
        let ghost seen = extents@.take(i as int);
        let ghost upto = extents@.take(i + 1);
        assert(upto.drop_last() == seen);
        assert(upto.last() == e);
        assert(data_records(upto) == if e.length > 0 {
            data_records(seen).push(e)
        } else {
            data_records(seen)
        }) by {
            reveal(Seq::filter);
        }
        if e.length > 0 {
            let mut pos: usize = kept.len();
            while pos > 0 && kept[pos - 1].logical > e.logical
                invariant
                    pos <= kept@.len(),
                    forall|j: int| pos <= j < kept@.len() ==> kept@[j].logical > e.logical,
                decreases pos,
            {
                pos -= 1;
            }
            proof {
                lemma_place_at(kept@, e, pos as int);
                let all = data_records(seen).push(e);
                assert(all.drop_last() == data_records(seen));
            }
            kept.insert(pos, e);
        }
        i += 1;
    }
    assert(extents@.take(i as int) == extents@);
    kept
}

/// Fold raw records into physically contiguous runs.
///
/// Zero-length records are dropped: they are markers, not data. A record joins
/// the current run only when it continues it in **both** the logical and
/// physical dimensions; abutting physical offsets alone are not enough, since
/// a hole in the logical space is still a discontinuity.
pub fn merge_runs(extents: &[Extent]) -> (runs: Vec<Run>)
    ensures
        runs@ == runs_of(extents@),
{
    let kept = ordered_records(extents);
    let mut runs: Vec<Run> = Vec::new();
    let mut i: usize = 0;
    assert(kept@.take(0) == Seq::<Extent>::empty());
    while i < kept.len()
        invariant
            i <= kept@.len(),
            runs@ == fold_runs(kept@.take(i as int)),
        decreases kept@.len() - i,
    {
        let e = kept[i];
        let ghost upto = kept@.take(i + 1);
        assert(upto.drop_last() == kept@.take(i as int));
        assert(upto.last() == e);
        let n: usize = runs.len();
        if n > 0 && e.physical == runs[n - 1].physical.saturating_add(runs[n - 1].length)
            && e.logical == runs[n - 1].logical.saturating_add(runs[n - 1].length) {
            let cur = runs[n - 1];
            let longer = Run {
                logical: cur.logical,
                physical: cur.physical,
                length: cur.length.saturating_add(e.length),
            };
            let ghost before = runs@;
            runs.set(n - 1, longer);
            assert(runs@ == before.drop_last().push(longer));
        } else {
            runs.push(Run { logical: e.logical, physical: e.physical, length: e.length });
        }
        i += 1;
    }
    assert(kept@.take(i as int) == kept@);
    runs
}

// ---------------------------------------------------------------------------
// Flags
// ---------------------------------------------------------------------------

/// The untrusted flags that occur in `s`, or-ed together.
pub open spec fn untrusted_in(s: Seq<Extent>) -> u32
    decreases s.len(),
{
    if s.len() == 0 {
        0
    } else {
        untrusted_in(s.drop_last()) | (s.last().flags & UNTRUSTED)
    }
}

/// Whether some record of `s` is allocated but was never written.
pub open spec fn unwritten_in(s: Seq<Extent>) -> bool {
    exists|i: int| 0 <= i < s.len() && #[trigger] s[i].flags & FIEMAP_EXTENT_UNWRITTEN != 0
}

/// Bitwise-or of any untrusted flags present.
pub fn untrusted_flags(extents: &[Extent]) -> (flags: u32)
    ensures
        flags == untrusted_in(extents@),
{
    let mut flags: u32 = 0;
    let mut i: usize = 0;
    while i < extents.len()
        invariant
            i <= extents@.len(),
            flags == untrusted_in(extents@.take(i as int)),
        decreases extents@.len() - i,
    {
        let ghost upto = extents@.take(i + 1);
        assert(upto.drop_last() == extents@.take(i as int));
        flags = flags | (extents[i].flags & UNTRUSTED);
        i += 1;
    }
    assert(extents@.take(i as int) == extents@);
    flags
}

/// True if any extent is allocated but uninitialized.
pub fn any_unwritten(extents: &[Extent]) -> (r: bool)
    ensures
        r == unwritten_in(extents@),
{
    let mut i: usize = 0;
    while i < extents.len()
        invariant
            i <= extents@.len(),
            forall|j: int|
                0 <= j < i ==> #[trigger] extents@[j].flags & FIEMAP_EXTENT_UNWRITTEN == 0,
        decreases extents@.len() - i,
    {
        if extents[i].flags & FIEMAP_EXTENT_UNWRITTEN != 0 {
            assert(extents@[i as int].flags & FIEMAP_EXTENT_UNWRITTEN != 0);
            return true;
        }
        i += 1;
    }
    false
}

/// Why a map with untrusted flags decides nothing.
pub open spec fn untrusted_text(flags: u32) -> Seq<char> {
    "extent map carries untrusted flags (0x"@ + hexadecimal(flags as nat, 4) + ")"@
}

/// Bundle everything a verdict needs from a file's records.
///
/// Fails with [`Error::Unverifiable`] rather than a verdict when the records
/// carry flags that make contiguity undecidable.
pub fn map(extents: &[Extent], path: &str) -> (r: Result<ExtentMap>)
    ensures
        r is Ok <==> untrusted_in(extents@) == 0,
        r matches Ok(m) ==> m.runs@ == runs_of(extents@) && m.raw_records == extents@.len()
            && m.any_unwritten == unwritten_in(extents@),
        r matches Err(e) ==> (e matches Error::Unverifiable { path: p, reason } && p@ == path@
            && reason@ == untrusted_text(untrusted_in(extents@))),
{
    let untrusted: u32 = untrusted_flags(extents);
    if untrusted != 0 {
        let mut reason = "extent map carries untrusted flags (0x".to_owned();
        reason.append(hex(untrusted as u64, 4).as_str());
        reason.append(")");
        return Err(Error::Unverifiable { path: path.to_owned(), reason });
    }
    Ok(
        ExtentMap {
            runs: merge_runs(extents),
            raw_records: extents.len(),
            any_unwritten: any_unwritten(extents),
        },
    )
}

// ---------------------------------------------------------------------------
// Reading the records, round by round
// ---------------------------------------------------------------------------

/// One question to the driver.
#[derive(Debug, Clone, Copy, PartialEq, Eq, Structural)]
pub struct FiemapRequest {
    pub start: u64,
    pub length: u64,
    pub flags: u32,
    pub extent_count: u32,
}

/// The extent records of a file, read round by round.
///
/// Ask [`ExtentScan::request`] what to query, hand the driver's answer to
/// [`ExtentScan::accept`], and stop when there is no request left.
#[derive(Debug, Clone)]
pub struct ExtentScan {
    size: u64,
    start: u64,
    found: Vec<Extent>,
    done: bool,
}

/// What an [`ExtentScan`] has read so far, and where it goes on.
#[verifier::ext_equal]
pub struct ScanState {
    pub size: u64,
    pub start: u64,
    pub found: Seq<Extent>,
    pub done: bool,
}

/// A scan of a file of `size` bytes before the first question.
pub open spec fn scan_begin(size: u64) -> ScanState {
    ScanState { size, start: 0, found: Seq::empty(), done: size == 0 }
}

/// The records that one answer holds: at most a batch, however many the
/// driver says it has.
pub open spec fn answered(mapped: u32, slots: Seq<Extent>) -> Seq<Extent> {
    slots.take(
        if mapped < BATCH {
            mapped as int
        } else {
            BATCH as int
        },
    )
}

/// Whether a record of `s` is marked as the last of the file.
pub open spec fn last_in(s: Seq<Extent>) -> bool {
    exists|i: int| 0 <= i < s.len() && #[trigger] s[i].flags & FIEMAP_EXTENT_LAST != 0
}

/// Where the record `e` ends.
pub open spec fn end_of(e: Extent) -> u64 {
    sat_add(e.logical, e.length)
}

/// The scan after one answer.
///
/// No records is a legitimate answer: an entirely sparse file is all hole and
/// has none. A driver that fails to make progress must not be asked forever.
pub open spec fn scan_step(s: ScanState, mapped: u32, slots: Seq<Extent>) -> ScanState {
    let batch = answered(mapped, slots);
    let found = s.found + batch;
    if s.done {
        s
    } else if batch.len() == 0 {
        ScanState { done: true, ..s }
    } else {
        let next = end_of(batch.last());
        if last_in(batch) || next <= s.start || next >= s.size {
            ScanState { found, done: true, ..s }
        } else {
            ScanState { found, start: next, ..s }
        }
    }
}

impl View for ExtentScan {
    type V = ScanState;

    closed spec fn view(&self) -> ScanState {
        ScanState { size: self.size, start: self.start, found: self.found@, done: self.done }
    }
}

impl ExtentScan {
    /// An unfinished scan always has a part of the file left to ask about.
    pub open spec fn wf(&self) -> bool {
        !self@.done ==> self@.start < self@.size
    }

    /// Start scanning a file of `size` bytes.
    pub fn new(size: u64) -> (scan: ExtentScan)
        ensures
            scan.wf(),
            scan@ == scan_begin(size),
    {
        ExtentScan { size, start: 0, found: Vec::new(), done: size == 0 }
    }

    /// What to ask the driver next; `None` when the scan is finished.
    ///
    /// The question reaches from where the scan stands to the end of the file,
    /// and never past it.
    pub fn request(&self) -> (r: Option<FiemapRequest>)
        requires
            self.wf(),
        ensures
            r is None <==> self@.done,
            r matches Some(q) ==> q.start == self@.start && q.start + q.length == self@.size
                && q.length > 0 && q.flags == FIEMAP_FLAG_SYNC && q.extent_count == BATCH,
    {
        if self.done {
            return None;
        }
        Some(
            FiemapRequest {
                start: self.start,
                length: self.size - self.start,
                flags: FIEMAP_FLAG_SYNC,
                extent_count: BATCH,
            },
        )
    }

    /// Take in an answer: how many records the driver says it mapped, and the
    /// record slots that it filled.
    pub fn accept(&mut self, mapped: u32, slots: &[Extent])
        requires
            old(self).wf(),
            slots@.len() >= mapped || slots@.len() >= BATCH,
        ensures
            final(self).wf(),
            final(self)@ == scan_step(old(self)@, mapped, slots@),
    {
        if self.done {
            return;
        }
        let n: usize = if mapped < BATCH {
            mapped as usize
        } else {
            BATCH as usize
        };
        let ghost batch = answered(mapped, slots@);
        if n == 0 {
            self.done = true;
            return;
        }
        let mut saw_last: bool = false;
        let mut i: usize = 0;
        assert(batch.take(0) == Seq::<Extent>::empty());
        while i < n
            invariant
                i <= n <= slots@.len(),
                n == batch.len(),
                batch == slots@.take(n as int),
                self.size == old(self).size,
                self.start == old(self).start,
                self.done == old(self).done,
                self.found@ == old(self).found@ + batch.take(i as int),
                saw_last == last_in(batch.take(i as int)),
            decreases n - i,
        {
            let e = slots[i];
            let ghost seen = batch.take(i as int);
            let ghost upto = batch.take(i + 1);
            assert(upto == seen.push(e));
            self.found.push(e);
            if e.flags & FIEMAP_EXTENT_LAST != 0 {
                saw_last = true;
                assert(upto[i as int].flags & FIEMAP_EXTENT_LAST != 0);
            }
            proof {
                if last_in(seen) {
                    let k = choose|k: int|
                        0 <= k < seen.len() && #[trigger] seen[k].flags & FIEMAP_EXTENT_LAST != 0;
                    assert(upto[k].flags & FIEMAP_EXTENT_LAST != 0);
                }
                if last_in(upto) {
                    let k = choose|k: int|
                        0 <= k < upto.len() && #[trigger] upto[k].flags & FIEMAP_EXTENT_LAST != 0;
                    if k < i {
                        assert(seen[k].flags & FIEMAP_EXTENT_LAST != 0);
                    }
                }
            }
            i += 1;
        }
        assert(batch.take(n as int) == batch);
        let last = slots[n - 1];
        let next: u64 = last.logical.saturating_add(last.length);
        if saw_last || next <= self.start || next >= self.size {
            self.done = true;
        } else {
            self.start = next;
        }
    }

    /// The records read so far, in the order the driver gave them.
    pub fn records(&self) -> (found: &Vec<Extent>)
        ensures
            found@ == self@.found,
    {
        &self.found
    }
}

/// The error for a query that the filesystem refused.
pub fn query_failed(path: &str, cause: &str) -> (e: Error)
    ensures
        e matches Error::Unverifiable { path: p, reason } && p@ == path@ && reason@
            == "FS_IOC_FIEMAP failed: "@ + cause@,
{
    let mut reason = "FS_IOC_FIEMAP failed: ".to_owned();
    reason.append(cause);
    Error::Unverifiable { path: path.to_owned(), reason }
}

// ---------------------------------------------------------------------------
// Laws
// ---------------------------------------------------------------------------

/// The sum of the lengths of the records of `s`.
pub open spec fn total_length(s: Seq<Extent>) -> nat
    decreases s.len(),
{
    if s.len() == 0 {
        0
    } else {
        total_length(s.drop_last()) + s.last().length as nat
    }
}

/// The sum of the lengths of the runs.
pub open spec fn total_run_length(runs: Seq<Run>) -> nat
    decreases runs.len(),
{
    if runs.len() == 0 {
        0
    } else {
        total_run_length(runs.drop_last()) + runs.last().length as nat
    }
}

/// Whether the records are in logical order.
pub open spec fn ordered(s: Seq<Extent>) -> bool {
    forall|i: int, j: int| 0 <= i <= j < s.len() ==> s[i].logical <= s[j].logical
}

proof fn lemma_place(s: Seq<Extent>, e: Extent)
    requires
        ordered(s),
    ensures
        ordered(place(s, e)),
        place(s, e).to_multiset() == s.to_multiset().insert(e),
        total_length(place(s, e)) == total_length(s) + e.length,
        forall|i: int| 0 <= i < place(s, e).len() ==> #[trigger] place(s, e)[i] == e || s.contains(
            place(s, e)[i],
        ),
        place(s, e).len() == s.len() + 1,
    decreases s.len(),
{
    broadcast use vstd::seq_lib::group_to_multiset_ensures;

    let p = place(s, e);
    if s.len() == 0 || s.last().logical <= e.logical {
        assert(p.drop_last() == s);
        assert(p == s.push(e));
        assert forall|i: int| 0 <= i < p.len() implies #[trigger] p[i] == e || s.contains(p[i]) by {
            if i < s.len() {
                assert(s[i] == p[i]);
            }
        }
    } else {
        let front = s.drop_last();
        lemma_place(front, e);
        let q = place(front, e);
        assert(p == q.push(s.last()));
        assert(p.drop_last() == q);
        assert(s == front.push(s.last()));
        assert forall|i: int| 0 <= i < p.len() implies #[trigger] p[i] == e || s.contains(p[i]) by {
            if i < q.len() {
                assert(q[i] == e || front.contains(q[i]));
                if front.contains(q[i]) {
                    let k = choose|k: int| 0 <= k < front.len() && front[k] == q[i];
                    assert(s[k] == p[i]);
                }
            } else {
                assert(s[s.len() - 1] == p[i]);
            }
        }
        assert forall|i: int, j: int| 0 <= i <= j < p.len() implies p[i].logical <= p[j].logical by {
            if j == q.len() && i < j {
                assert(q[i] == e || front.contains(q[i]));
                if front.contains(q[i]) {
                    let k = choose|k: int| 0 <= k < front.len() && front[k] == q[i];
                    assert(s[k].logical <= s.last().logical);
                }
            }
        }
        assert(s.to_multiset() == front.to_multiset().insert(s.last()));
        assert(p.to_multiset() == q.to_multiset().insert(s.last()));
        assert(p.to_multiset() == s.to_multiset().insert(e));
    }
}

/// Putting records in logical order keeps exactly the records there are.
pub proof fn law_order_keeps_records(s: Seq<Extent>)
    ensures
        ordered(in_logical_order(s)),
        in_logical_order(s).to_multiset() == s.to_multiset(),
        total_length(in_logical_order(s)) == total_length(s),
    decreases s.len(),
{
    broadcast use vstd::seq_lib::group_to_multiset_ensures;

    if s.len() > 0 {
        law_order_keeps_records(s.drop_last());
        lemma_place(in_logical_order(s.drop_last()), s.last());
        assert(s == s.drop_last().push(s.last()));
    }
}

/// Neighbouring runs never continue each other: every pair that could be one
/// run has been made one.
pub proof fn law_runs_are_maximal(extents: Seq<Extent>, i: int)
    requires
        0 <= i < runs_of(extents).len() - 1,
    ensures
        ({
            let a = runs_of(extents)[i];
            let b = runs_of(extents)[i + 1];
            !(b.physical == sat_add(a.physical, a.length) && b.logical == sat_add(
                a.logical,
                a.length,
            ))
        }),
{
    lemma_fold_maximal(in_logical_order(data_records(extents)), i);
}

proof fn lemma_fold_maximal(s: Seq<Extent>, i: int)
    requires
        0 <= i < fold_runs(s).len() - 1,
    ensures
        ({
            let a = fold_runs(s)[i];
            let b = fold_runs(s)[i + 1];
            !(b.physical == sat_add(a.physical, a.length) && b.logical == sat_add(
                a.logical,
                a.length,
            ))
        }),
    decreases s.len(),
{
    let before = fold_runs(s.drop_last());
    if i + 1 < before.len() {
        lemma_fold_maximal(s.drop_last(), i);
    }
}

/// The runs come in logical order.
pub proof fn law_runs_are_ordered(extents: Seq<Extent>, i: int, j: int)
    requires
        0 <= i <= j < runs_of(extents).len(),
    ensures
        runs_of(extents)[i].logical <= runs_of(extents)[j].logical,
{
    let s = in_logical_order(data_records(extents));
    law_order_keeps_records(data_records(extents));
    lemma_fold_ordered(s);
}

proof fn lemma_fold_ordered(s: Seq<Extent>)
    requires
        ordered(s),
    ensures
        forall|i: int, j: int|
            0 <= i <= j < fold_runs(s).len() ==> fold_runs(s)[i].logical <= fold_runs(
                s,
            )[j].logical,
        s.len() > 0 ==> fold_runs(s).len() > 0 && fold_runs(s).last().logical <= s.last().logical,
    decreases s.len(),
{
    if s.len() > 0 {
        let front = s.drop_last();
        assert(ordered(front));
        lemma_fold_ordered(front);
        if front.len() > 0 {
            assert(s[s.len() - 2].logical <= s[s.len() - 1].logical);
        }
    }
}

/// Every run holds data.
pub proof fn law_runs_hold_data(extents: Seq<Extent>, i: int)
    requires
        0 <= i < runs_of(extents).len(),
    ensures
        runs_of(extents)[i].length > 0,
{
    let s = in_logical_order(data_records(extents));
    assert forall|k: int| 0 <= k < s.len() implies #[trigger] s[k].length > 0 by {
        lemma_sorted_record(extents, k);
    }
    lemma_fold_positive(s);
}

proof fn lemma_fold_positive(s: Seq<Extent>)
    requires
        forall|k: int| 0 <= k < s.len() ==> #[trigger] s[k].length > 0,
    ensures
        forall|i: int| 0 <= i < fold_runs(s).len() ==> #[trigger] fold_runs(s)[i].length > 0,
    decreases s.len(),
{
    if s.len() > 0 {
        let front = s.drop_last();
        assert forall|k: int| 0 <= k < front.len() implies #[trigger] front[k].length > 0 by {
            assert(front[k] == s[k]);
        }
        lemma_fold_positive(front);
        assert(s[s.len() - 1].length > 0);
        let before = fold_runs(front);
        let after = fold_runs(s);
        assert forall|i: int| 0 <= i < after.len() implies #[trigger] after[i].length > 0 by {
            if i < before.len() {
                assert(before[i].length > 0);
            }
        }
    }
}

/// Whether every record ends at a 64-bit offset of the file.
pub open spec fn logical_ends_fit(s: Seq<Extent>) -> bool {
    forall|i: int| 0 <= i < s.len() ==> #[trigger] s[i].logical + s[i].length <= u64::MAX
}

/// Whether every record ends at a 64-bit offset of the volume.
pub open spec fn physical_ends_fit(s: Seq<Extent>) -> bool {
    forall|i: int| 0 <= i < s.len() ==> #[trigger] s[i].physical + s[i].length <= u64::MAX
}

/// A record of the ordered sequence is a data record of the report.
proof fn lemma_sorted_record(extents: Seq<Extent>, k: int)
    requires
        0 <= k < in_logical_order(data_records(extents)).len(),
    ensures
        extents.contains(in_logical_order(data_records(extents))[k]),
        in_logical_order(data_records(extents))[k].length > 0,
{
    broadcast use vstd::seq_lib::group_to_multiset_ensures;

    let d = data_records(extents);
    let s = in_logical_order(d);
    law_order_keeps_records(d);
    assert(s.contains(s[k]));
    assert(s.to_multiset().count(s[k]) > 0);
    assert(d.to_multiset().count(s[k]) > 0);
    assert(d.contains(s[k]));
    lemma_filter_contains(extents, s[k]);
    lemma_filter_counts(extents);
}

/// A data record of the report is in the ordered sequence.
proof fn lemma_record_is_sorted(extents: Seq<Extent>, e: Extent)
    requires
        extents.contains(e),
        e.length > 0,
    ensures
        in_logical_order(data_records(extents)).contains(e),
{
    broadcast use vstd::seq_lib::group_to_multiset_ensures;

    let d = data_records(extents);
    let s = in_logical_order(d);
    law_order_keeps_records(d);
    lemma_filter_counts(extents);
    assert(extents.to_multiset().count(e) > 0);
    assert(d.to_multiset().count(e) > 0);
    assert(s.to_multiset().count(e) > 0);
}

proof fn lemma_sorted_ends_fit(extents: Seq<Extent>)
    ensures
        logical_ends_fit(extents) ==> logical_ends_fit(in_logical_order(data_records(extents))),
        physical_ends_fit(extents) ==> physical_ends_fit(in_logical_order(data_records(extents))),
{
    let s = in_logical_order(data_records(extents));
    if logical_ends_fit(extents) {
        assert forall|k: int| 0 <= k < s.len() implies #[trigger] s[k].logical + s[k].length
            <= u64::MAX by {
            lemma_sorted_record(extents, k);
            let i = choose|i: int| 0 <= i < extents.len() && extents[i] == s[k];
            assert(extents[i].logical + extents[i].length <= u64::MAX);
        }
    }
    if physical_ends_fit(extents) {
        assert forall|k: int| 0 <= k < s.len() implies #[trigger] s[k].physical + s[k].length
            <= u64::MAX by {
            lemma_sorted_record(extents, k);
            let i = choose|i: int| 0 <= i < extents.len() && extents[i] == s[k];
            assert(extents[i].physical + extents[i].length <= u64::MAX);
        }
    }
}

/// The last run ends where the last record does, in each dimension in which the
/// ends fit.
proof fn lemma_fold_end(s: Seq<Extent>)
    requires
        s.len() > 0,
    ensures
        fold_runs(s).len() > 0,
        logical_ends_fit(s) ==> fold_runs(s).last().logical + fold_runs(s).last().length
            == s.last().logical + s.last().length,
        physical_ends_fit(s) ==> fold_runs(s).last().physical + fold_runs(s).last().length
            == s.last().physical + s.last().length,
    decreases s.len(),
{
    let front = s.drop_last();
    let e = s.last();
    assert(e == s[s.len() - 1]);
    if front.len() > 0 {
        lemma_fold_end(front);
        assert(front.last() == s[s.len() - 2]);
        if logical_ends_fit(s) {
            assert forall|i: int| 0 <= i < front.len() implies #[trigger] front[i].logical
                + front[i].length <= u64::MAX by {
                assert(front[i] == s[i]);
            }
            assert(s[s.len() - 2].logical + s[s.len() - 2].length <= u64::MAX);
            assert(s[s.len() - 1].logical + s[s.len() - 1].length <= u64::MAX);
        }
        if physical_ends_fit(s) {
            assert forall|i: int| 0 <= i < front.len() implies #[trigger] front[i].physical
                + front[i].length <= u64::MAX by {
                assert(front[i] == s[i]);
            }
            assert(s[s.len() - 2].physical + s[s.len() - 2].length <= u64::MAX);
            assert(s[s.len() - 1].physical + s[s.len() - 1].length <= u64::MAX);
        }
    } else {
        assert(fold_runs(front) == Seq::<Run>::empty());
    }
}

/// Merging loses and invents no bytes: the runs are as long together as the
/// records, as long as the lengths sum up to a 64-bit count, or each record
/// ends at a 64-bit offset of the file or of the volume.
pub proof fn law_merge_keeps_the_length(extents: Seq<Extent>)
    requires
        total_length(extents) <= u64::MAX || logical_ends_fit(extents) || physical_ends_fit(
            extents,
        ),
    ensures
        total_run_length(runs_of(extents)) == total_length(extents),
{
    let d = data_records(extents);
    lemma_data_length(extents);
    law_order_keeps_records(d);
    lemma_sorted_ends_fit(extents);
    lemma_fold_length(in_logical_order(d));
}

proof fn lemma_data_length(s: Seq<Extent>)
    ensures
        total_length(data_records(s)) == total_length(s),
    decreases s.len(),
{
    reveal(Seq::filter);
    if s.len() > 0 {
        lemma_data_length(s.drop_last());
        let d = data_records(s.drop_last());
        if s.last().length > 0 {
            assert(data_records(s) == d.push(s.last()));
            assert(d.push(s.last()).drop_last() == d);
        } else {
            assert(data_records(s) == d);
        }
    }
}

proof fn lemma_fold_length(s: Seq<Extent>)
    requires
        total_length(s) <= u64::MAX || logical_ends_fit(s) || physical_ends_fit(s),
    ensures
        total_run_length(fold_runs(s)) == total_length(s),
        forall|i: int|
            0 <= i < fold_runs(s).len() ==> #[trigger] fold_runs(s)[i].length <= total_length(s),
    decreases s.len(),
{
    if s.len() > 0 {
        let front = s.drop_last();
        let e = s.last();
        assert(e == s[s.len() - 1]);
        assert(logical_ends_fit(s) ==> logical_ends_fit(front)) by {
            assert forall|i: int| 0 <= i < front.len() && logical_ends_fit(s) implies #[trigger]
                front[i].logical + front[i].length <= u64::MAX by {
                assert(front[i] == s[i]);
            }
        }
        assert(physical_ends_fit(s) ==> physical_ends_fit(front)) by {
            assert forall|i: int| 0 <= i < front.len() && physical_ends_fit(s) implies #[trigger]
                front[i].physical + front[i].length <= u64::MAX by {
                assert(front[i] == s[i]);
            }
        }
        lemma_fold_length(front);
        let runs = fold_runs(front);
        if runs.len() > 0 && continues(runs.last(), e) {
            let last = runs.last();
            assert(last.length + e.length <= u64::MAX) by {
                lemma_fold_end(front);
                assert(runs[runs.len() - 1].length <= total_length(front));
                let f = s[s.len() - 2];
                assert(front.last() == f);
                if logical_ends_fit(s) {
                    assert(f.logical + f.length <= u64::MAX);
                    assert(s[s.len() - 1].logical + s[s.len() - 1].length <= u64::MAX);
                } else if physical_ends_fit(s) {
                    assert(f.physical + f.length <= u64::MAX);
                    assert(s[s.len() - 1].physical + s[s.len() - 1].length <= u64::MAX);
                }
            }
            let grown = runs.drop_last().push(extended(last, e));
            assert(grown.drop_last() == runs.drop_last());
        } else {
            assert(runs.push(run_of(e)).drop_last() == runs);
        }
    }
}

/// Whether a record says that byte `logical` of the file is byte `physical` of
/// the volume.
pub open spec fn holds(e: Extent, logical: int, physical: int) -> bool {
    e.logical <= logical < e.logical + e.length && physical == e.physical + (logical - e.logical)
}

/// Whether some record says so.
pub open spec fn places(s: Seq<Extent>, logical: int, physical: int) -> bool {
    exists|i: int| 0 <= i < s.len() && #[trigger] holds(s[i], logical, physical)
}

/// Whether a run says that byte `logical` of the file is byte `physical` of the
/// volume.
pub open spec fn run_holds(r: Run, logical: int, physical: int) -> bool {
    r.logical <= logical < r.logical + r.length && physical == r.physical + (logical - r.logical)
}

/// Whether some run says so.
pub open spec fn runs_place(runs: Seq<Run>, logical: int, physical: int) -> bool {
    exists|i: int| 0 <= i < runs.len() && #[trigger] run_holds(runs[i], logical, physical)
}

/// Merging moves no byte: the runs say that a byte of the file is a byte of the
/// volume exactly where the records do.
pub proof fn law_merge_keeps_bytes_in_place(extents: Seq<Extent>, logical: int, physical: int)
    requires
        logical_ends_fit(extents),
        physical_ends_fit(extents),
    ensures
        runs_place(runs_of(extents), logical, physical) <==> places(extents, logical, physical),
{
    let s = in_logical_order(data_records(extents));
    lemma_sorted_ends_fit(extents);
    lemma_fold_places(s, logical, physical);
    if places(extents, logical, physical) {
        let i = choose|i: int|
            0 <= i < extents.len() && #[trigger] holds(extents[i], logical, physical);
        lemma_record_is_sorted(extents, extents[i]);
        let k = choose|k: int| 0 <= k < s.len() && s[k] == extents[i];
        assert(holds(s[k], logical, physical));
    }
    if places(s, logical, physical) {
        let k = choose|k: int| 0 <= k < s.len() && #[trigger] holds(s[k], logical, physical);
        lemma_sorted_record(extents, k);
        let i = choose|i: int| 0 <= i < extents.len() && extents[i] == s[k];
        assert(holds(extents[i], logical, physical));
    }
}

proof fn lemma_places_last(s: Seq<Extent>, logical: int, physical: int)
    requires
        s.len() > 0,
    ensures
        places(s, logical, physical) <==> places(s.drop_last(), logical, physical) || holds(
            s.last(),
            logical,
            physical,
        ),
{
    let front = s.drop_last();
    if places(s, logical, physical) {
        let i = choose|i: int| 0 <= i < s.len() && #[trigger] holds(s[i], logical, physical);
        if i < front.len() {
            assert(holds(front[i], logical, physical));
        }
    }
    if places(front, logical, physical) {
        let i = choose|i: int|
            0 <= i < front.len() && #[trigger] holds(front[i], logical, physical);
        assert(holds(s[i], logical, physical));
    }
    if holds(s.last(), logical, physical) {
        assert(holds(s[s.len() - 1], logical, physical));
    }
}

proof fn lemma_runs_place_last(runs: Seq<Run>, logical: int, physical: int)
    requires
        runs.len() > 0,
    ensures
        runs_place(runs, logical, physical) <==> runs_place(runs.drop_last(), logical, physical)
            || run_holds(runs.last(), logical, physical),
{
    let front = runs.drop_last();
    if runs_place(runs, logical, physical) {
        let i = choose|i: int|
            0 <= i < runs.len() && #[trigger] run_holds(runs[i], logical, physical);
        if i < front.len() {
            assert(run_holds(front[i], logical, physical));
        }
    }
    if runs_place(front, logical, physical) {
        let i = choose|i: int|
            0 <= i < front.len() && #[trigger] run_holds(front[i], logical, physical);
        assert(run_holds(runs[i], logical, physical));
    }
    if run_holds(runs.last(), logical, physical) {
        assert(run_holds(runs[runs.len() - 1], logical, physical));
    }
}

proof fn lemma_fold_places(s: Seq<Extent>, logical: int, physical: int)
    requires
        logical_ends_fit(s),
        physical_ends_fit(s),
    ensures
        runs_place(fold_runs(s), logical, physical) <==> places(s, logical, physical),
    decreases s.len(),
{
    if s.len() > 0 {
        let front = s.drop_last();
        let e = s.last();
        assert forall|i: int| 0 <= i < front.len() implies #[trigger] front[i].logical
            + front[i].length <= u64::MAX by {
            assert(front[i] == s[i]);
        }
        assert forall|i: int| 0 <= i < front.len() implies #[trigger] front[i].physical
            + front[i].length <= u64::MAX by {
            assert(front[i] == s[i]);
        }
        lemma_fold_places(front, logical, physical);
        lemma_places_last(s, logical, physical);
        let before = fold_runs(front);
        let after = fold_runs(s);
        lemma_runs_place_last(after, logical, physical);
        if before.len() > 0 && continues(before.last(), e) {
            lemma_fold_end(front);
            lemma_fold_end(s);
            lemma_runs_place_last(before, logical, physical);
            assert(after.drop_last() == before.drop_last());
            assert(front.last() == s[s.len() - 2]);
            assert(s[s.len() - 2].logical + s[s.len() - 2].length <= u64::MAX);
            assert(s[s.len() - 2].physical + s[s.len() - 2].length <= u64::MAX);
        } else {
            assert(after.drop_last() == before);
        }
    }
}

/// Whether the records lie end to end, logically and physically.
pub open spec fn end_to_end(s: Seq<Extent>) -> bool {
    forall|k: int|
        #![trigger s[k]]
        0 < k < s.len() ==> s[k].logical == s[0].logical + total_length(s.take(k)) && s[k].physical
            == s[0].physical + total_length(s.take(k))
}

/// A file is contiguous exactly when it has data records and they lie end to
/// end both logically and physically.
pub proof fn law_contiguous_means_end_to_end(extents: Seq<Extent>)
    requires
        logical_ends_fit(extents),
        physical_ends_fit(extents),
    ensures
        runs_of(extents).len() == 1 <==> data_records(extents).len() > 0 && end_to_end(
            in_logical_order(data_records(extents)),
        ),
{
    let d = data_records(extents);
    let s = in_logical_order(d);
    law_order_keeps_records(d);
    assert(s.len() == d.len()) by {
        broadcast use vstd::seq_lib::group_to_multiset_ensures;

        assert(s.to_multiset().len() == d.to_multiset().len());
    }
    lemma_sorted_ends_fit(extents);
    lemma_fold_single(s);
}

proof fn lemma_filter_contains(s: Seq<Extent>, e: Extent)
    requires
        data_records(s).contains(e),
    ensures
        s.contains(e),
{
    s.lemma_filter_contains_rev(|e: Extent| e.length > 0, e);
}

proof fn lemma_fold_single(s: Seq<Extent>)
    requires
        logical_ends_fit(s),
        physical_ends_fit(s),
    ensures
        fold_runs(s).len() == 1 <==> s.len() > 0 && end_to_end(s),
        fold_runs(s).len() == 1 ==> fold_runs(s)[0].logical == s[0].logical && fold_runs(
            s,
        )[0].physical == s[0].physical && fold_runs(s)[0].length == total_length(s),
    decreases s.len(),
{
    if s.len() == 1 {
        assert(s.drop_last() == Seq::<Extent>::empty());
        assert(fold_runs(s.drop_last()) == Seq::<Run>::empty());
        assert(total_length(s.drop_last()) == 0);
    } else if s.len() > 1 {
        let front = s.drop_last();
        assert forall|i: int| 0 <= i < front.len() implies #[trigger] front[i].logical
            + front[i].length <= u64::MAX by {
            assert(front[i] == s[i]);
        }
        assert forall|i: int| 0 <= i < front.len() implies #[trigger] front[i].physical
            + front[i].length <= u64::MAX by {
            assert(front[i] == s[i]);
        }
        lemma_fold_single(front);
        let runs = fold_runs(front);
        lemma_fold_end(front);
        let n = s.len() - 1;
        assert(s.take(n) == front);
        assert(front[0] == s[0]);
        assert(front.last() == s[n - 1]);
        assert(s[n - 1].logical + s[n - 1].length <= u64::MAX);
        assert(s[n - 1].physical + s[n - 1].length <= u64::MAX);
        assert(s[n].logical + s[n].length <= u64::MAX);
        assert forall|k: int| 0 < k < n implies #[trigger] front.take(k) == s.take(k) by {}
        if runs.len() == 1 && continues(runs.last(), s.last()) {
            assert forall|k: int| #![trigger s[k]] 0 < k < s.len() implies s[k].logical
                == s[0].logical + total_length(s.take(k)) && s[k].physical == s[0].physical
                + total_length(s.take(k)) by {
                if k < n {
                    assert(front[k] == s[k]);
                    assert(front.take(k) == s.take(k));
                }
            }
        }
        if end_to_end(s) {
            assert forall|k: int| #![trigger front[k]] 0 < k < front.len() implies front[k].logical
                == front[0].logical + total_length(front.take(k)) && front[k].physical
                == front[0].physical + total_length(front.take(k)) by {
                assert(front[k] == s[k]);
                assert(front.take(k) == s.take(k));
            }
            assert(end_to_end(front));
            assert(s[n].logical == s[0].logical + total_length(s.take(n)));
        }
    }
}

/// Zero-length records change nothing.
pub proof fn law_markers_are_ignored(extents: Seq<Extent>)
    ensures
        runs_of(data_records(extents)) == runs_of(extents),
{
    let d = data_records(extents);
    lemma_filter_idempotent(extents);
    assert(data_records(d) == d);
}

proof fn lemma_filter_idempotent(s: Seq<Extent>)
    ensures
        data_records(data_records(s)) == data_records(s),
    decreases s.len(),
{
    reveal(Seq::filter);
    if s.len() > 0 {
        lemma_filter_idempotent(s.drop_last());
        let d = data_records(s.drop_last());
        if s.last().length > 0 {
            assert(data_records(s) == d.push(s.last()));
            assert(d.push(s.last()).drop_last() == d);
        } else {
            assert(data_records(s) == d);
        }
    }
}

/// A map carries no untrusted flag exactly when no record does.
pub proof fn law_untrusted_is_zero_when_no_record_is(extents: Seq<Extent>)
    ensures
        untrusted_in(extents) == 0 <==> forall|i: int|
            0 <= i < extents.len() ==> #[trigger] extents[i].flags & UNTRUSTED == 0,
    decreases extents.len(),
{
    if extents.len() > 0 {
        let front = extents.drop_last();
        law_untrusted_is_zero_when_no_record_is(front);
        let a = untrusted_in(front);
        let b = extents.last().flags & UNTRUSTED;
        assert(a | b == 0u32 <==> a == 0u32 && b == 0u32) by (bit_vector);
        if untrusted_in(extents) == 0 {
            assert forall|i: int| 0 <= i < extents.len() implies #[trigger] extents[i].flags
                & UNTRUSTED == 0 by {
                if i < front.len() {
                    assert(front[i].flags & UNTRUSTED == 0);
                }
            }
        } else if forall|i: int|
            0 <= i < extents.len() ==> #[trigger] extents[i].flags & UNTRUSTED == 0 {
            assert(extents[extents.len() - 1].flags & UNTRUSTED == 0);
            assert forall|i: int| 0 <= i < front.len() implies #[trigger] front[i].flags & UNTRUSTED
                == 0 by {
                assert(extents[i].flags & UNTRUSTED == 0);
            }
        }
    }
}

/// The order in which a driver reports records does not matter, unless two that
/// hold different data start at the same offset.
pub proof fn law_report_order_does_not_matter(a: Seq<Extent>, b: Seq<Extent>)
    requires
        a.to_multiset() == b.to_multiset(),
        forall|i: int, j: int|
            0 <= i < j < a.len() && a[i].length > 0 && a[j].length > 0 && a[i] != a[j]
                ==> #[trigger] a[i].logical != #[trigger] a[j].logical,
    ensures
        runs_of(a) == runs_of(b),
{
    broadcast use vstd::seq_lib::group_to_multiset_ensures;

    let da = data_records(a);
    let db = data_records(b);
    lemma_filter_multiset(a, b);
    law_order_keeps_records(da);
    law_order_keeps_records(db);
    let sa = in_logical_order(da);
    let sb = in_logical_order(db);
    assert forall|x: Extent, y: Extent| sa.contains(x) && sa.contains(y) && x.logical
        == y.logical implies x == y by {
        let k = choose|k: int| 0 <= k < sa.len() && sa[k] == x;
        let l = choose|l: int| 0 <= l < sa.len() && sa[l] == y;
        lemma_sorted_record(a, k);
        lemma_sorted_record(a, l);
        let i = choose|i: int| 0 <= i < a.len() && a[i] == x;
        let j = choose|j: int| 0 <= j < a.len() && a[j] == y;
        if i < j {
            assert(a[i].logical == a[j].logical);
        } else if j < i {
            assert(a[j].logical == a[i].logical);
        }
    }
    lemma_ordered_unique(sa, sb);
}

proof fn lemma_filter_multiset(a: Seq<Extent>, b: Seq<Extent>)
    requires
        a.to_multiset() == b.to_multiset(),
    ensures
        data_records(a).to_multiset() == data_records(b).to_multiset(),
{
    lemma_filter_counts(a);
    lemma_filter_counts(b);
    assert(data_records(a).to_multiset() =~= data_records(b).to_multiset());
}

proof fn lemma_filter_counts(s: Seq<Extent>)
    ensures
        forall|e: Extent|
            #[trigger] data_records(s).to_multiset().count(e) == if e.length > 0 {
                s.to_multiset().count(e)
            } else {
                0
            },
    decreases s.len(),
{
    broadcast use vstd::seq_lib::group_to_multiset_ensures;

    reveal(Seq::filter);
    if s.len() == 0 {
        assert(data_records(s) == s);
    } else {
        lemma_filter_counts(s.drop_last());
        let d = data_records(s.drop_last());
        assert(s == s.drop_last().push(s.last()));
        assert(s.to_multiset() == s.drop_last().to_multiset().insert(s.last()));
        if s.last().length > 0 {
            assert(data_records(s) == d.push(s.last()));
            assert(data_records(s).to_multiset() == d.to_multiset().insert(s.last()));
        } else {
            assert(data_records(s) == d);
        }
    }
}

proof fn lemma_ordered_unique(a: Seq<Extent>, b: Seq<Extent>)
    requires
        ordered(a),
        ordered(b),
        a.to_multiset() == b.to_multiset(),
        forall|x: Extent, y: Extent|
            a.contains(x) && a.contains(y) && x.logical == y.logical ==> x == y,
    ensures
        a == b,
    decreases a.len(),
{
    broadcast use vstd::seq_lib::group_to_multiset_ensures;

    assert(a.len() == a.to_multiset().len());
    assert(b.len() == b.to_multiset().len());
    if a.len() > 0 {
        let x = a.last();
        let y = b.last();
        assert(a.contains(x));
        assert(b.to_multiset().count(x) > 0);
        assert(b.contains(x));
        let j = choose|j: int| 0 <= j < b.len() && b[j] == x;
        assert(b[j].logical <= b[b.len() - 1].logical);
        assert(b.contains(y));
        assert(a.to_multiset().count(y) > 0);
        assert(a.contains(y));
        let i = choose|i: int| 0 <= i < a.len() && a[i] == y;
        assert(a[i].logical <= a[a.len() - 1].logical);
        assert(x == y);
        let fa = a.drop_last();
        let fb = b.drop_last();
        assert(a == fa.push(x));
        assert(b == fb.push(x));
        assert(fa.to_multiset() =~= a.to_multiset().remove(x));
        assert(fb.to_multiset() =~= b.to_multiset().remove(x));
        assert forall|u: Extent, v: Extent| fa.contains(u) && fa.contains(v) && u.logical
            == v.logical implies u == v by {
            let i = choose|i: int| 0 <= i < fa.len() && fa[i] == u;
            let j = choose|j: int| 0 <= j < fa.len() && fa[j] == v;
            assert(a[i] == u && a[j] == v);
            assert(a.contains(u) && a.contains(v));
        }
        lemma_ordered_unique(fa, fb);
    } else {
        assert(b.len() == 0);
        assert(a =~= b);
    }
}

/// The records that a driver gives for a file of `size` bytes when it reports
/// them all: in order, apart, inside the file, the last one marked.
pub open spec fn honest_records(k: Seq<Extent>, size: u64) -> bool {
    &&& forall|i: int|
        #![trigger k[i]]
        0 <= i < k.len() ==> k[i].length > 0 && k[i].logical < size && k[i].logical + k[i].length
            <= u64::MAX
    &&& forall|i: int, j: int|
        #![trigger k[i], k[j]]
        0 <= i < j < k.len() ==> k[i].logical + k[i].length <= k[j].logical
    &&& forall|i: int|
        #![trigger k[i]]
        0 <= i < k.len() ==> (k[i].flags & FIEMAP_EXTENT_LAST != 0 <==> i == k.len() - 1)
}

/// A scan that has taken the first `n` records of an honest driver, and whose
/// next question is answered with the records that follow, has the next batch
/// and no others; it ends exactly when it has them all, and otherwise asks
/// from further on.
pub proof fn law_scan_reads_every_record(k: Seq<Extent>, n: int, s: ScanState, slots: Seq<Extent>)
    requires
        honest_records(k, s.size),
        0 <= n < k.len(),
        !s.done,
        s.found == k.take(n),
        s.start == if n == 0 {
            0
        } else {
            end_of(k[n - 1])
        },
        slots == k.skip(n),
        slots.len() <= u32::MAX,
    ensures
        ({
            let m = if k.len() - n < BATCH {
                k.len() as int
            } else {
                n + BATCH
            };
            let t = scan_step(s, slots.len() as u32, slots);
            &&& t.found == k.take(m)
            &&& t.done <==> m == k.len()
            &&& !t.done ==> t.start == end_of(k[m - 1]) && s.start < t.start < t.size
        }),
{
    let m: int = if k.len() - n < BATCH {
        k.len() as int
    } else {
        n + BATCH
    };
    let batch = answered(slots.len() as u32, slots);
    assert(batch == k.subrange(n, m));
    assert(s.found + batch == k.take(m));
    assert(batch.last() == k[m - 1]);
    if n > 0 {
        assert(k[n - 1].logical + k[n - 1].length <= k[m - 1].logical);
    }
    if m == k.len() {
        assert(batch[m - 1 - n].flags & FIEMAP_EXTENT_LAST != 0);
        assert(last_in(batch));
    } else {
        assert(!last_in(batch)) by {
            if last_in(batch) {
                let i = choose|i: int|
                    0 <= i < batch.len() && #[trigger] batch[i].flags & FIEMAP_EXTENT_LAST != 0;
                assert(batch[i] == k[n + i]);
            }
        }
        assert(k[m - 1].logical + k[m - 1].length <= k[m].logical);
    }
}

proof fn lemma_gathered(s: Seq<Extent>, mask: u32)
    ensures
        untrusted_in(s) & mask != 0 <==> exists|i: int|
            0 <= i < s.len() && (#[trigger] s[i]).flags & 0x20e & mask != 0,
    decreases s.len(),
{
    if s.len() == 0 {
        assert(0u32 & mask == 0) by (bit_vector);
    } else {
        let front = s.drop_last();
        let a = untrusted_in(front);
        let f = s.last().flags;
        lemma_gathered(front, mask);
        assert(UNTRUSTED == 0x20e) by (bit_vector);
        assert((a | (f & 0x20e)) & mask != 0 <==> a & mask != 0 || f & 0x20e & mask != 0)
            by (bit_vector);
        if a & mask != 0 {
            let i = choose|i: int| 0 <= i < front.len() && (#[trigger] front[i]).flags & 0x20e & mask
                != 0;
            assert(s[i] == front[i]);
        }
        if f & 0x20e & mask != 0 {
            assert(s[s.len() - 1].flags == f);
        }
        if exists|i: int| 0 <= i < s.len() && (#[trigger] s[i]).flags & 0x20e & mask != 0 {
            let i = choose|i: int| 0 <= i < s.len() && (#[trigger] s[i]).flags & 0x20e & mask != 0;
            if i < front.len() {
                assert(front[i] == s[i]);
            }
        }
    }
}

/// A flag is among those gathered exactly when it says that a location is
/// unknown, delayed, encoded or inline, and some record carries it.
pub proof fn law_untrusted_flags_are_gathered_from_records(extents: &[Extent], mask: u32, flags: u32)
    requires
        call_ensures(untrusted_flags, (extents,), flags),
    ensures
        flags & mask != 0 <==> exists|i: int|
            0 <= i < extents@.len() && (#[trigger] extents@[i]).flags & 0x20e & mask != 0,
{
    lemma_gathered(extents@, mask);
}

/// A file is mapped exactly when no record has an unknown, delayed, encoded or
/// inline location. The map counts the records as they came, and tells whether
/// one of them was never written.
pub proof fn law_maps_are_refused_for_their_flags(
    extents: &[Extent],
    path: &str,
    r: Result<ExtentMap>,
)
    requires
        call_ensures(map, (extents, path), r),
    ensures
        r is Ok <==> forall|i: int|
            0 <= i < extents@.len() ==> (#[trigger] extents@[i]).flags & 0x20e == 0,
        r matches Ok(m) ==> m.raw_records == extents@.len() && (m.any_unwritten <==> exists|i: int|
            0 <= i < extents@.len() && (#[trigger] extents@[i]).flags & 0x800 != 0),
        r matches Err(e) ==> (e matches Error::Unverifiable { path: p, .. } && p@ == path@),
{
    law_untrusted_is_zero_when_no_record_is(extents@);
    assert(UNTRUSTED == 0x20e) by (bit_vector);
    if exists|i: int| 0 <= i < extents@.len() && (#[trigger] extents@[i]).flags & 0x800 != 0 {
        let i = choose|i: int| 0 <= i < extents@.len() && (#[trigger] extents@[i]).flags & 0x800 != 0;
        assert(extents@[i].flags & FIEMAP_EXTENT_UNWRITTEN != 0);
    }
}

/// A question starts where the scan stands, ends where the file ends, has
/// delayed allocations written back first, and leaves room for 1024 records.
pub proof fn law_questions_end_with_the_file(scan: &ExtentScan, r: Option<FiemapRequest>)
    requires
        scan.wf(),
        call_ensures(ExtentScan::request, (scan,), r),
    ensures
        r is None <==> scan@.done,
        r matches Some(q) ==> q.start == scan@.start && q.start + q.length == scan@.size && q.length
            > 0 && q.flags == 1 && q.extent_count == 1024,
{
}

/// A scan keeps the records that it has and takes what an answer holds, up to
/// 1024 records. It goes on from the end of the last of them, always further
/// in than before and still inside the file, and stops only where an answer is
/// empty, marks its end or leads nowhere.
pub proof fn law_scans_always_move_on(s: ScanState, mapped: u32, slots: Seq<Extent>)
    requires
        !s.done,
        s.start < s.size,
        mapped <= slots.len() || 1024 <= slots.len(),
    ensures
        ({
            let t = scan_step(s, mapped, slots);
            let n = t.found.len() - s.found.len();
            &&& t.size == s.size
            &&& 0 <= n <= 1024
            &&& n == mapped || n == 1024 && n < mapped
            &&& t.found == s.found + slots.take(n)
            &&& !t.done ==> n > 0 && s.start < t.start < t.size && t.start == slots[n
                - 1].logical + slots[n - 1].length
            &&& t.done ==> n == 0 || slots[n - 1].logical + slots[n - 1].length <= s.start
                || slots[n - 1].logical + slots[n - 1].length >= s.size || exists|i: int|
                0 <= i < n && (#[trigger] slots[i]).flags & 1 != 0
            &&& !t.done ==> forall|i: int|
                0 <= i < n ==> (#[trigger] slots[i]).flags & 1 == 0
        }),
{
    let t = scan_step(s, mapped, slots);
    let batch = answered(mapped, slots);
    let n = batch.len() as int;
    assert(batch == slots.take(n));
    if n == 0 {
        assert(t.found =~= s.found + slots.take(0));
    } else {
        assert(batch.last() == slots[n - 1]);
        if last_in(batch) {
            let i = choose|i: int| 0 <= i < batch.len() && #[trigger] batch[i].flags
                & FIEMAP_EXTENT_LAST != 0;
            assert(slots[i] == batch[i]);
        } else {
            assert forall|i: int| 0 <= i < n implies (#[trigger] slots[i]).flags & 1 == 0 by {
                assert(batch[i] == slots[i]);
            }
        }
    }
}

/// A scan begins at the start of its file with nothing found, and an empty
/// file is not asked about at all.
pub proof fn law_scans_begin_at_the_start(size: u64, scan: ExtentScan)
    requires
        call_ensures(ExtentScan::new, (size,), scan),
    ensures
        scan@.size == size,
        scan@.start == 0,
        scan@.found.len() == 0,
        scan@.done <==> size == 0,
{
}

/// Records that start at the same offset keep the order they came in.
pub proof fn law_ties_keep_their_order(s: Seq<Extent>, at: u64)
    ensures
        in_logical_order(s).filter(|e: Extent| e.logical == at) == s.filter(
            |e: Extent| e.logical == at,
        ),
    decreases s.len(),
{
    let p = |e: Extent| e.logical == at;
    reveal(Seq::filter);
    if s.len() > 0 {
        law_ties_keep_their_order(s.drop_last(), at);
        lemma_place_filtered(in_logical_order(s.drop_last()), s.last(), at);
    }
}

proof fn lemma_place_filtered(s: Seq<Extent>, e: Extent, at: u64)
    ensures
        place(s, e).filter(|x: Extent| x.logical == at) == if e.logical == at {
            s.filter(|x: Extent| x.logical == at).push(e)
        } else {
            s.filter(|x: Extent| x.logical == at)
        },
    decreases s.len(),
{
    reveal(Seq::filter);
    let p = place(s, e);
    if s.len() == 0 || s.last().logical <= e.logical {
        assert(p.drop_last() =~= s);
        assert(p.last() == e);
    } else {
        lemma_place_filtered(s.drop_last(), e, at);
        assert(p.drop_last() =~= place(s.drop_last(), e));
        assert(p.last() == s.last());
    }
}

} // verus!
