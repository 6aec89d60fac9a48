//! Placing a file contiguously: `copy` and `fix`.
//!
//! Both do the same thing underneath: allocate a contiguous target, put the
//! bytes in it, rename it into place. Neither knows anything about disk image
//! formats. A byte-for-byte copy has no opinion about footers, virtual sizes,
//! or geometry, so it cannot get them wrong.
//!
//! A sparse source reads as zeros through the filesystem, so skipping its
//! holes would produce a target that *also* reads as zeros, through the
//! filesystem. Hardware that reads raw sectors sees whatever was on those
//! clusters before. So the default writes the source in full, holes included.
//! [`Options::sparse`] opts out.
//!
//! [`fix`] re-places one file by copying it somewhere contiguous. It cannot
//! move *other* files out of the way, so it needs a contiguous free run at
//! least as large as the file.

use vstd::prelude::*;

use super::allocation::{NoProgress, CHUNK};
use super::error::{Error, Result};
use super::laydown::{Plan, WrittenRule, ZeroRule};
use super::FileFacts;

verus! {

/// Defaults are the cautious ones: do not overwrite, do not skip holes, do
/// not leave debris.
#[derive(Debug, Clone)]
pub struct Options {
    /// Overwrite an existing target.
    pub force: bool,
    /// Skip the source's holes instead of writing them out. Fast, and only
    /// safe when the target's uninitialized contents do not matter.
    pub sparse: bool,
    /// Leave a partial target behind on failure instead of removing it.
    pub keep_on_fail: bool,
}

impl Default for Options {
    fn default() -> (o: Options)
        ensures
            !o.force && !o.sparse && !o.keep_on_fail,
    {
        Options { force: false, sparse: false, keep_on_fail: false }
    }
}

#[derive(Debug, Clone, PartialEq, Eq)]
pub struct Report {
    pub bytes: u64,
    /// Bytes actually written. Below `bytes` only when holes were skipped.
    pub written: u64,
    /// Regions left uninitialized because the source had holes there.
    pub holes_skipped: u64,
}

/// A copy that may go ahead.
#[derive(Debug, Clone, Copy, PartialEq, Eq, Structural)]
pub struct Job {
    /// How many bytes the source has.
    pub len: u64,
    /// Whether the source's holes are skipped.
    pub sparse: bool,
    /// Whether an existing target is replaced.
    pub replace: bool,
    pub keep_on_fail: bool,
}

impl Job {
    /// How the target is laid down in `temp`.
    pub fn plan(&self, target: &str, temp: &str) -> (p: Plan)
        ensures
            p.target@ == target@,
            p.temp@ == temp@,
            p.total == self.len,
            p.zero == ZeroRule::Never,
            p.populate,
            p.written == if self.sparse {
                WrittenRule::Never
            } else {
                WrittenRule::Always
            },
            p.trailer is None,
            !p.recheck,
            p.replace == self.replace,
    {
        Plan {
            target: target.to_owned(),
            temp: temp.to_owned(),
            total: self.len,
            zero: ZeroRule::Never,
            populate: true,
            // Only claim "fully written" when every byte is.
            written: if self.sparse {
                WrittenRule::Never
            } else {
                WrittenRule::Always
            },
            trailer: None,
            recheck: false,
            replace: self.replace,
        }
    }

    /// The report of a copy that wrote every byte, holes included.
    pub fn whole(&self) -> (r: Report)
        ensures
            r.bytes == self.len,
            r.written == self.len,
            r.holes_skipped == 0,
    {
        Report { bytes: self.len, written: self.len, holes_skipped: 0 }
    }
}

/// Whether `e` refuses a copy of `len` bytes onto `dst` for `reason`.
pub open spec fn is_refusal(e: Error, dst: Seq<char>, len: u64, reason: Seq<char>) -> bool {
    e matches Error::Allocation { path, requested, reason: r } && path@ == dst && requested == len
        && r@ == reason
}

fn refusal(dst: &str, len: u64, reason: &str) -> (e: Error)
    ensures
        is_refusal(e, dst@, len, reason@),
{
    Error::Allocation { path: dst.to_owned(), requested: len, reason: reason.to_owned() }
}

/// Byte-for-byte copy of a source of `len` bytes into a contiguous,
/// fully-allocated `dst`: whether it may go ahead, and how.
///
/// `same_file` says whether source and target are the same file, `dst_exists`
/// whether there is a target already.
pub fn copy(dst: &str, len: u64, same_file: bool, dst_exists: bool, opts: &Options) -> (r: Result<
    Job,
>)
    ensures
        r is Ok <==> !same_file && (!dst_exists || opts.force),
        r matches Ok(j) ==> j == (Job {
            len,
            sparse: opts.sparse,
            replace: opts.force,
            keep_on_fail: opts.keep_on_fail,
        }),
        r matches Err(e) ==> is_refusal(
            e,
            dst@,
            len,
            if same_file {
                "the source and the target are the same file"@
            } else {
                "target exists; pass --force to replace it"@
            },
        ),
{
    if same_file {
        return Err(refusal(dst, len, "the source and the target are the same file"));
    }
    if dst_exists && !opts.force {
        return Err(refusal(dst, len, "target exists; pass --force to replace it"));
    }
    Ok(
        Job {
            len,
            sparse: opts.sparse,
            replace: opts.force,
            keep_on_fail: opts.keep_on_fail,
        },
    )
}

/// [`copy`] for callers with no progress reporting.
pub fn copy_quiet(
    dst: &str,
    len: u64,
    same_file: bool,
    dst_exists: bool,
    opts: &Options,
) -> (r: Result<(Job, NoProgress)>)
    ensures
        r is Ok <==> !same_file && (!dst_exists || opts.force),
        r matches Ok(j) ==> j.0 == (Job {
            len,
            sparse: opts.sparse,
            replace: opts.force,
            keep_on_fail: opts.keep_on_fail,
        }),
        r matches Err(e) ==> is_refusal(
            e,
            dst@,
            len,
            if same_file {
                "the source and the target are the same file"@
            } else {
                "target exists; pass --force to replace it"@
            },
        ),
{
    match copy(dst, len, same_file, dst_exists, opts) {
        Ok(job) => Ok((job, NoProgress)),
        Err(e) => Err(e),
    }
}

/// What making a file contiguous takes.
#[derive(Debug, Clone, PartialEq, Eq)]
pub enum Fix {
    /// It is contiguous, fully allocated and written: nothing to do.
    AlreadyGood(Report),
    /// It is copied and replaced.
    Replace(Job),
}

/// Make an existing file contiguous, in place, keeping its name.
///
/// Copies to a contiguous temporary beside it and renames over the original,
/// so the file's *name* survives but its inode does not. Already contiguous is
/// a success. The source *is* the eventual target here, which is safe because
/// the bytes only replace the original at the rename; so the guards of [`copy`]
/// do not apply, and the target is replaced whatever `force` says.
pub fn fix(facts: &FileFacts, opts: &Options) -> (f: Fix)
    ensures
        if facts.map.runs@.len() == 1 && !facts.sparse() && !facts.map.any_unwritten {
            f matches Fix::AlreadyGood(rep) && rep.bytes == facts.size && rep.written == 0
                && rep.holes_skipped == 0
        } else {
            f == Fix::Replace(
                Job {
                    len: facts.size,
                    sparse: opts.sparse,
                    replace: true,
                    keep_on_fail: opts.keep_on_fail,
                },
            )
        },
{
    if facts.is_contiguous() && !facts.is_sparse() && !facts.map.any_unwritten {
        return Fix::AlreadyGood(Report { bytes: facts.size, written: 0, holes_skipped: 0 });
    }
    Fix::Replace(
        Job {
            len: facts.size,
            sparse: opts.sparse,
            replace: true,
            keep_on_fail: opts.keep_on_fail,
        },
    )
}

// ---------------------------------------------------------------------------
// Copying the data extents only
// ---------------------------------------------------------------------------

/// What to do next in a copy that skips holes.
#[derive(Debug, Clone, Copy, PartialEq, Eq, Structural)]
pub enum SparseStep {
    /// `lseek(SEEK_DATA)`
    SeekData { from: u64 },
    /// `lseek(SEEK_HOLE)`
    SeekHole { from: u64 },
    /// Read and write `len` bytes at `offset`.
    Transfer { offset: u64, len: u64 },
    Finished,
}

/// A copy of the source's data extents, leaving the target's holes as whatever
/// `fallocate` reserved.
#[derive(Debug, Clone, Copy, PartialEq, Eq, Structural)]
pub struct SparseCopy {
    len: u64,
    written: u64,
    skipped: u64,
    step: SparseMode,
}

#[derive(Debug, Clone, Copy, PartialEq, Eq, Structural)]
enum SparseMode {
    Data,
    Hole,
    Transfer { end: u64 },
    Done,
}

/// How far a [`SparseCopy`] has come: every byte before `position` was either
/// written or skipped.
pub struct SparseState {
    pub len: u64,
    pub written: u64,
    pub skipped: u64,
    pub position: int,
    pub step: SparseStep,
}

/// The transfer that brings a copy from `at` towards `end`, one buffer at most.
pub open spec fn transfer(at: int, end: int) -> SparseStep {
    SparseStep::Transfer {
        offset: at as u64,
        len: if end - at < CHUNK {
            (end - at) as u64
        } else {
            CHUNK
        },
    }
}

/// The copy after the answer to `SEEK_DATA`: what lies before the data found, or
/// before the end where there is none, is skipped.
pub open spec fn after_data(s: SparseState, found: Option<u64>) -> SparseState {
    let to: int = if found is Some && found->0 < s.len {
        found->0 as int
    } else {
        s.len as int
    };
    SparseState {
        skipped: (s.skipped + (to - s.position)) as u64,
        position: to,
        step: if to == s.len {
            SparseStep::Finished
        } else {
            SparseStep::SeekHole { from: to as u64 }
        },
        ..s
    }
}

/// Where data ends after the answer to `SEEK_HOLE`.
pub open spec fn hole_found(s: SparseState, found: Option<u64>) -> int {
    if found is Some && found->0 < s.len {
        found->0 as int
    } else {
        s.len as int
    }
}

/// The copy after the answer to `SEEK_HOLE`: data is transferred, and data that
/// has gone is looked for again.
pub open spec fn after_hole(s: SparseState, found: Option<u64>) -> SparseState {
    let end = hole_found(s, found);
    SparseState {
        step: if end > s.position {
            transfer(s.position, end)
        } else {
            SparseStep::SeekData { from: s.position as u64 }
        },
        ..s
    }
}

/// The copy after a transfer, inside data that ends at `end`.
pub open spec fn after_transfer(s: SparseState, end: int) -> SparseState {
    let n = s.step->len;
    let to = s.position + n;
    SparseState {
        written: (s.written + n) as u64,
        position: to,
        step: if to < end {
            transfer(to, end)
        } else if to < s.len {
            SparseStep::SeekData { from: to as u64 }
        } else {
            SparseStep::Finished
        },
        ..s
    }
}

impl SparseCopy {
    spec fn at(&self) -> int {
        self.written + self.skipped
    }

    /// What has been done and what comes next.
    pub closed spec fn state(&self) -> SparseState {
        SparseState {
            len: self.len,
            written: self.written,
            skipped: self.skipped,
            position: self.at(),
            step: match self.step {
                SparseMode::Data => SparseStep::SeekData { from: self.at() as u64 },
                SparseMode::Hole => SparseStep::SeekHole { from: self.at() as u64 },
                SparseMode::Transfer { end } => transfer(self.at(), end as int),
                SparseMode::Done => SparseStep::Finished,
            },
        }
    }

    /// Where the data that is being transferred ends.
    pub closed spec fn data_end(&self) -> int {
        match self.step {
            SparseMode::Transfer { end } => end as int,
            _ => self.at(),
        }
    }

    /// The accounts balance, and the copy stays inside the file.
    pub closed spec fn wf(&self) -> bool {
        &&& self.at() <= self.len
        &&& self.step == SparseMode::Data ==> self.at() < self.len
        &&& self.step == SparseMode::Hole ==> self.at() < self.len
        &&& self.step matches SparseMode::Transfer { end } ==> self.at() < end <= self.len
        &&& self.step == SparseMode::Done ==> self.at() == self.len
    }

    /// Start copying a source of `len` bytes.
    pub fn new(len: u64) -> (c: SparseCopy)
        ensures
            c.wf(),
            c.state() == (SparseState {
                len,
                written: 0,
                skipped: 0,
                position: 0,
                step: if len == 0 {
                    SparseStep::Finished
                } else {
                    SparseStep::SeekData { from: 0 }
                },
            }),
    {
        SparseCopy {
            len,
            written: 0,
            skipped: 0,
            step: if len == 0 {
                SparseMode::Done
            } else {
                SparseMode::Data
            },
        }
    }

    /// What to do next.
    pub fn next(&self) -> (s: SparseStep)
        requires
            self.wf(),
        ensures
            s == self.state().step,
    {
        let at: u64 = self.written + self.skipped;
        match self.step {
            SparseMode::Data => SparseStep::SeekData { from: at },
            SparseMode::Hole => SparseStep::SeekHole { from: at },
            SparseMode::Transfer { end } => SparseStep::Transfer {
                offset: at,
                len: if end - at < CHUNK {
                    end - at
                } else {
                    CHUNK
                },
            },
            SparseMode::Done => SparseStep::Finished,
        }
    }

    /// Take in the answer to `SEEK_DATA`: where the next data starts, which is
    /// never before where it was asked from. `None`, or an offset past the end,
    /// means that the rest of the file is hole.
    pub fn data_at(&mut self, found: Option<u64>)
        requires
            old(self).wf(),
            old(self).state().step is SeekData,
            found is Some ==> found->0 >= old(self).state().position,
        ensures
            final(self).wf(),
            final(self).state() == after_data(old(self).state(), found),
    {
        let at: u64 = self.written + self.skipped;
        match found {
            Some(d) => {
                if d < self.len {
                    self.skipped = self.skipped + (d - at);
                    self.step = SparseMode::Hole;
                    return;
                }
            },
            None => {},
        }
        self.skipped = self.skipped + (self.len - at);
        self.step = SparseMode::Done;
    }

    /// Take in the answer to `SEEK_HOLE`: where the data ends, which is never
    /// before where it was asked from. Every file has an implicit hole at its
    /// end, so no answer means the end of the file. Data that has gone by now
    /// is looked for again.
    pub fn hole_at(&mut self, found: Option<u64>)
        requires
            old(self).wf(),
            old(self).state().step is SeekHole,
            found is Some ==> found->0 >= old(self).state().position,
        ensures
            final(self).wf(),
            final(self).data_end() == hole_found(old(self).state(), found),
            final(self).state() == after_hole(old(self).state(), found),
    {
        let end: u64 = match found {
            Some(h) => {
                if h < self.len {
                    h
                } else {
                    self.len
                }
            },
            None => self.len,
        };
        self.step = if end > self.written + self.skipped {
            SparseMode::Transfer { end }
        } else {
            SparseMode::Data
        };
    }

    /// Take in that the transfer was made.
    pub fn transferred(&mut self)
        requires
            old(self).wf(),
            old(self).state().step is Transfer,
        ensures
            final(self).wf(),
            final(self).state() == after_transfer(old(self).state(), old(self).data_end()),
            final(self).data_end() == old(self).data_end(),
    {
        let at: u64 = self.written + self.skipped;
        if let SparseMode::Transfer { end } = self.step {
            let n: u64 = if end - at < CHUNK {
                end - at
            } else {
                CHUNK
            };
            self.written = self.written + n;
            if at + n >= end {
                self.step = if at + n < self.len {
                    SparseMode::Data
                } else {
                    SparseMode::Done
                };
            }
        }
    }

    /// What was done, when the copy is finished.
    pub fn report(&self) -> (r: Report)
        requires
            self.wf(),
            self.state().step is Finished,
        ensures
            r.bytes == self.state().len,
            r.written == self.state().written,
            r.holes_skipped == self.state().skipped,
            r.written + r.holes_skipped == r.bytes,
    {
        Report { bytes: self.len, written: self.written, holes_skipped: self.skipped }
    }
}

/// At every moment of a copy that skips holes, each byte up to where it stands
/// was either written or skipped, and it is finished just when it stands at the
/// end. A step inside the data never reaches past it.
pub proof fn law_every_byte_is_written_or_skipped(c: SparseCopy)
    requires
        c.wf(),
    ensures
        c.state().written + c.state().skipped == c.state().position,
        c.state().position <= c.state().len,
        c.state().step is Finished <==> c.state().position == c.state().len,
        c.state().step matches SparseStep::Transfer { offset, len } ==> offset
            == c.state().position && 0 < len <= CHUNK && offset + len <= c.data_end()
            && c.data_end() <= c.state().len,
{
}

/// A copy goes ahead exactly when the target is not the source, and is not there
/// or may be replaced. It is of the source's length, and skips holes only where
/// that was asked for.
pub proof fn law_copies_never_overwrite_unasked(
    dst: &str,
    len: u64,
    same: bool,
    dst_exists: bool,
    opts: &Options,
    r: Result<Job>,
)
    requires
        call_ensures(copy, (dst, len, same, dst_exists, opts), r),
    ensures
        r is Err <==> same || (dst_exists && !opts.force),
        r matches Ok(j) ==> j.len == len && j.sparse == opts.sparse && j.replace == opts.force
            && j.keep_on_fail == opts.keep_on_fail,
        r matches Err(e) ==> (e matches Error::Allocation { path, requested, reason } && path@ == dst@
            && requested == len && reason@ == if same {
            "the source and the target are the same file"@
        } else {
            "target exists; pass --force to replace it"@
        }),
{
}

/// A file is left alone exactly when it lies in one run, is fully allocated and
/// was written throughout; otherwise it is copied whole and replaced.
pub proof fn law_sound_files_are_left_alone(facts: &FileFacts, opts: &Options, f: Fix)
    requires
        call_ensures(fix, (facts, opts), f),
    ensures
        f is AlreadyGood <==> facts.map.runs@.len() == 1 && facts.allocated >= facts.size
            && !facts.map.any_unwritten,
        f matches Fix::Replace(j) ==> j.len == facts.size && j.replace && j.sparse == opts.sparse
            && j.keep_on_fail == opts.keep_on_fail,
        f matches Fix::AlreadyGood(r) ==> r.bytes == facts.size && r.written == 0,
{
}

/// A copy is laid down over its whole length, filled in from the source, and
/// claimed to be written throughout unless holes were skipped.
pub proof fn law_copies_fill_their_target(j: &Job, target: &str, temp: &str, p: Plan)
    requires
        call_ensures(Job::plan, (j, target, temp), p),
    ensures
        p.total == j.len,
        p.populate,
        p.zero == ZeroRule::Never,
        j.sparse <==> p.written == WrittenRule::Never,
        !j.sparse <==> p.written == WrittenRule::Always,
        p.trailer is None,
        p.replace == j.replace,
        p.target@ == target@,
        p.temp@ == temp@,
{
}

/// A copy that wrote everything reports just that, and one that skipped holes
/// accounts for every byte.
pub proof fn law_reports_account_for_every_byte(j: &Job, whole: Report, c: &SparseCopy, r: Report)
    requires
        call_ensures(Job::whole, (j,), whole),
        c.wf(),
        c.state().step is Finished,
        call_ensures(SparseCopy::report, (c,), r),
    ensures
        whole.bytes == j.len && whole.written == j.len && whole.holes_skipped == 0,
        r.bytes == c.state().len,
        r.written + r.holes_skipped == r.bytes,
{
}

/// A copy that starts has everything before it, looks for data first, and is
/// over at once where there is nothing to copy.
pub proof fn law_sparse_copies_look_for_data_first(len: u64, c: SparseCopy)
    requires
        call_ensures(SparseCopy::new, (len,), c),
    ensures
        c.wf(),
        c.state().len == len && c.state().position == 0 && c.state().written == 0,
        len == 0 <==> c.state().step is Finished,
        len > 0 ==> c.state().step == (SparseStep::SeekData { from: 0 }),
{
}

/// Where a source answers truly, a copy skips only bytes that are no data: it
/// stops at the next data byte, or at the end where there is none, and counts
/// every byte on the way as skipped.
pub proof fn law_only_holes_are_skipped(
    s: SparseState,
    found: Option<u64>,
    data: spec_fn(int) -> bool,
)
    requires
        s.written + s.skipped == s.position < s.len,
        match found {
            Some(d) => s.position <= d && (d < s.len ==> data(d as int)) && forall|i: int|
                s.position <= i < d && i < s.len ==> !#[trigger] data(i),
            None => forall|i: int| s.position <= i < s.len ==> !#[trigger] data(i),
        },
    ensures
        ({
            let t = after_data(s, found);
            &&& t.len == s.len
            &&& t.written == s.written
            &&& t.skipped - s.skipped == t.position - s.position
            &&& s.position <= t.position <= t.len
            &&& forall|i: int| s.position <= i < t.position ==> !#[trigger] data(i)
            &&& t.position < t.len ==> data(t.position) && t.step == (SparseStep::SeekHole {
                from: t.position as u64,
            })
            &&& t.position == t.len ==> t.step is Finished
        }),
{
}

/// Where a source answers truly, a copy transfers only data: it starts where it
/// stands, and goes on up to the hole that was found, or up to the end where
/// there is none. Nothing is skipped there.
pub proof fn law_only_data_is_transferred(
    s: SparseState,
    found: Option<u64>,
    data: spec_fn(int) -> bool,
)
    requires
        s.written + s.skipped == s.position < s.len,
        match found {
            Some(h) => s.position <= h && (h < s.len ==> !data(h as int)) && forall|i: int|
                s.position <= i < h && i < s.len ==> #[trigger] data(i),
            None => forall|i: int| s.position <= i < s.len ==> #[trigger] data(i),
        },
    ensures
        ({
            let t = after_hole(s, found);
            let end = hole_found(s, found);
            &&& t.len == s.len && t.written == s.written && t.skipped == s.skipped && t.position
                == s.position
            &&& s.position <= end <= s.len
            &&& end < s.len ==> !data(end)
            &&& forall|i: int| s.position <= i < end ==> #[trigger] data(i)
            &&& data(s.position) ==> (t.step matches SparseStep::Transfer { offset, len } && offset
                == s.position && 0 < len <= 0x40_0000 && offset + len <= end && (len < 0x40_0000
                ==> offset + len == end))
            &&& !data(s.position) ==> t.step == (SparseStep::SeekData { from: s.position as u64 })
        }),
{
}

/// A transfer counts as written, byte for byte. While data is left the next
/// transfer follows on, and behind it the next data is looked for, up to the
/// end.
pub proof fn law_transfers_count_as_written(s: SparseState, end: int)
    requires
        s.written + s.skipped == s.position,
        s.step matches SparseStep::Transfer { offset, len } && offset == s.position && 0 < len
            && offset + len <= end,
        end <= s.len,
    ensures
        ({
            let t = after_transfer(s, end);
            let n = s.step->len;
            &&& t.len == s.len && t.skipped == s.skipped
            &&& t.written == s.written + n
            &&& t.position == s.position + n
            &&& t.position < end ==> (t.step matches SparseStep::Transfer { offset, len } && offset
                == t.position && 0 < len <= 0x40_0000 && offset + len <= end && (len < 0x40_0000
                ==> offset + len == end))
            &&& end == t.position < t.len ==> t.step == (SparseStep::SeekData {
                from: t.position as u64,
            })
            &&& end == t.position == t.len ==> t.step is Finished
        }),
{
}

/// Quiet copies go ahead and are refused exactly as others are.
pub proof fn law_quiet_copies_are_no_different(
    dst: &str,
    len: u64,
    same: bool,
    dst_exists: bool,
    opts: &Options,
    r: Result<Job>,
    q: Result<(Job, NoProgress)>,
)
    requires
        call_ensures(copy, (dst, len, same, dst_exists, opts), r),
        call_ensures(copy_quiet, (dst, len, same, dst_exists, opts), q),
    ensures
        r is Ok <==> q is Ok,
        r matches Ok(j) ==> q->Ok_0.0 == j,
{
}

/// Unless told otherwise a copy overwrites nothing, skips nothing and leaves
/// nothing behind.
pub proof fn law_copies_are_cautious_by_default(o: Options)
    requires
        call_ensures(Options::default, (), o),
    ensures
        !o.force,
        !o.sparse,
        !o.keep_on_fail,
{
}

} // verus!
