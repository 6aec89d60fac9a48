//! Allocating a contiguous file, and publishing it only once it is good.
//!
//! `fallocate` reserves clusters without writing them. Reads *through the
//! filesystem* return zeros, because the filesystem synthesizes them past the
//! valid data length, but anything reading the raw device sees whatever was on
//! those clusters before. Zeroing is therefore a caller decision.
//!
//! Work happens in a temp file in the target's directory, renamed over the
//! target only on success. A failed run therefore cannot destroy an existing
//! good file, which a straight overwrite would.

use vstd::prelude::*;

use super::error::{Error, Result, Run};
use super::extents::ExtentMap;
use super::fsinfo::{largest_free_run, sat_mul, saturating_product};
use crate::paths::{
    extension_of, inside, join, law_names_read_back, law_parents_are_tidy, lemma_past_last_is,
    name_of, parent, parent_of, plain_name, tidy,
};
use crate::text::{copies, dec, decimal, digit, pad_left, right_aligned};

verus! {

/// Buffer size for zeroing and copying. Large enough to keep the device busy,
/// small enough not to matter for RSS.
pub const CHUNK: u64 = 4 * 1024 * 1024;

/// What `fallocate(2)` managed.
#[derive(Debug, Clone, Copy, PartialEq, Eq, Structural)]
pub enum AllocOutcome {
    /// Space is reserved.
    Reserved,
    /// The filesystem has no `fallocate`. The caller must write the bytes to
    /// allocate them, so a zero pass stops being optional.
    Unsupported,
}

/// The system's error numbers that a decision depends on.
#[derive(Debug, Clone, Copy, PartialEq, Eq, Structural)]
pub enum Errno {
    /// `EINVAL`
    InvalidArgument,
    /// `ENOSYS`
    NoSuchCall,
    /// `EOPNOTSUPP`
    NotSupported,
    Other,
}

/// A system call that failed, and what the system said about it.
#[derive(Debug, Clone)]
pub struct OsFailure {
    pub errno: Errno,
    pub message: String,
}

// ---------------------------------------------------------------------------
// Reserving
// ---------------------------------------------------------------------------

/// What came of reserving `len` bytes with `fallocate(2)`, which is not called
/// for a length of zero.
///
/// A filesystem that cannot preallocate is not fatal: writing the bytes
/// allocates them.
pub fn allocate(len: u64, failure: Option<OsFailure>, path: &str) -> (r: Result<AllocOutcome>)
    ensures
        match failure {
            None => r == Ok::<AllocOutcome, Error>(AllocOutcome::Reserved),
            Some(f) => if len == 0 {
                r == Ok::<AllocOutcome, Error>(AllocOutcome::Reserved)
            } else if f.errno == Errno::NotSupported || f.errno == Errno::NoSuchCall {
                r == Ok::<AllocOutcome, Error>(AllocOutcome::Unsupported)
            } else {
                r matches Err(Error::Allocation { path: p, requested, reason }) && p@ == path@
                    && requested == len && reason == f.message
            },
        },
{
    if len == 0 {
        return Ok(AllocOutcome::Reserved);
    }
    match failure {
        None => Ok(AllocOutcome::Reserved),
        Some(f) => match f.errno {
            Errno::NotSupported | Errno::NoSuchCall => Ok(AllocOutcome::Unsupported),
            _ => Err(
                Error::Allocation { path: path.to_owned(), requested: len, reason: f.message },
            ),
        },
    }
}

/// Whether `e` says that the file at `path` lies in these runs.
pub open spec fn is_fragmented(
    e: Error,
    path: Seq<char>,
    runs: Seq<Run>,
    free_bytes: Option<u64>,
) -> bool {
    e matches Error::Fragmented { path: p, runs: r, free_bytes: f, largest_free_run: l } && p@
        == path && r@ == runs && f == free_bytes && l is None
}

/// Refuse anything that is not a single run.
///
/// Asked immediately after [`allocate`], so a doomed target fails before any
/// data is written.
pub fn require_contiguous(map: ExtentMap, path: &str, free_bytes: Option<u64>) -> (r: Result<()>)
    ensures
        r is Ok <==> map.runs@.len() == 1,
        r matches Err(e) ==> is_fragmented(e, path@, map.runs@, free_bytes),
{
    if map.runs.len() == 1 {
        return Ok(());
    }
    Err(
        Error::Fragmented {
            path: path.to_owned(),
            runs: map.runs,
            free_bytes,
            largest_free_run: largest_free_run(path),
        },
    )
}

/// Post-write checks: still one run, fully allocated, and, when the caller
/// wrote the whole file, no extent left uninitialized.
///
/// `blocks` is the `st_blocks` of the file, or why it could not be had.
pub fn verify_written(
    map: ExtentMap,
    blocks: std::result::Result<u64, String>,
    len: u64,
    path: &str,
    expect_written: bool,
    free_bytes: Option<u64>,
) -> (r: Result<()>)
    ensures
        r is Ok <==> map.runs@.len() == 1 && blocks is Ok && sat_mul(blocks->Ok_0, 512) >= len && !(
        expect_written && map.any_unwritten),
        r matches Err(e) ==> if map.runs@.len() != 1 {
            is_fragmented(e, path@, map.runs@, free_bytes)
        } else if blocks is Err {
            e matches Error::Io { path: p, source } && p@ == path@ && source == blocks->Err_0
        } else if sat_mul(blocks->Ok_0, 512) < len {
            e matches Error::Sparse { path: p, allocated, expected } && p@ == path@ && allocated
                == sat_mul(blocks->Ok_0, 512) && expected == len
        } else {
            e matches Error::Uninitialized { path: p } && p@ == path@
        },
{
    let any_unwritten: bool = map.any_unwritten;
    match require_contiguous(map, path, free_bytes) {
        Ok(()) => {},
        Err(e) => {
            return Err(e);
        },
    }
    let allocated: u64 = match blocks {
        Ok(b) => saturating_product(b, 512),
        Err(source) => {
            return Err(Error::Io { path: path.to_owned(), source });
        },
    };
    if allocated < len {
        return Err(Error::Sparse { path: path.to_owned(), allocated, expected: len });
    }
    // Only meaningful when the whole thing was claimed to be written. Without a
    // zero pass the region is *expected* to be uninitialized.
    if expect_written && any_unwritten {
        return Err(Error::Uninitialized { path: path.to_owned() });
    }
    Ok(())
}

// ---------------------------------------------------------------------------
// The temp file
// ---------------------------------------------------------------------------

/// How many temp names are tried.
pub const TEMP_ATTEMPTS: u32 = 64;

/// The directory that holds `path`, as text: its parent, or `.` where that is
/// empty or missing.
pub open spec fn directory_of(path: Seq<char>) -> Seq<char> {
    match parent_of(path) {
        Some(d) => if d.len() > 0 {
            d
        } else {
            "."@
        },
        None => "."@,
    }
}

/// The directory holding `path`.
///
/// The parent of a bare relative filename is the empty path, which no syscall
/// accepts.
pub fn parent_dir(path: &str) -> (d: String)
    ensures
        d@ == directory_of(path@),
{
    match parent(path) {
        Some(d) => {
            if d.as_str().is_empty() {
                ".".to_owned()
            } else {
                d
            }
        },
        None => ".".to_owned(),
    }
}

/// The name of a process's temp file: hidden, and with a suffix that directory
/// scanners skip.
pub open spec fn temp_text(pid: u32, attempt: u32) -> Seq<char> {
    ".iodd-"@ + decimal(pid as nat) + "-"@ + decimal(attempt as nat) + ".tmp"@
}

/// The path of a temp file in the same directory as `target`.
///
/// Same directory because `rename(2)` cannot cross filesystems, and because a
/// rename within one directory preserves the extent layout.
pub fn temp_path(target: &str, pid: u32, attempt: u32) -> (p: String)
    ensures
        p@ == inside(directory_of(target@), temp_text(pid, attempt)),
{
    let mut name = ".iodd-".to_owned();
    name.append(dec(pid as u64).as_str());
    name.append("-");
    name.append(dec(attempt as u64).as_str());
    name.append(".tmp");
    join(parent_dir(target).as_str(), name.as_str())
}

proof fn lemma_digits(n: nat)
    ensures
        forall|i: int| 0 <= i < decimal(n).len() ==> #[trigger] decimal(n)[i] != '/',
    decreases n,
{
    let s = decimal(n);
    if n >= 10 {
        assert(n / 10 < n);
        lemma_digits(n / 10);
        let front = decimal(n / 10);
        assert(s == front.push(digit(n % 10)));
        assert forall|i: int| 0 <= i < s.len() implies #[trigger] s[i] != '/' by {
            if i < front.len() {
                assert(s[i] == front[i]);
            }
        }
    } else {
        assert(s == seq![digit(n)]);
    }
}

/// A temp file lies in the same directory as its target, under a hidden name
/// with an extension of its own.
pub proof fn law_temp_files_lie_beside_their_target(target: Seq<char>, pid: u32, attempt: u32)
    ensures
        ({
            let temp = inside(directory_of(target), temp_text(pid, attempt));
            &&& directory_of(temp) == directory_of(target)
            &&& name_of(temp) == Some(temp_text(pid, attempt))
            &&& temp_text(pid, attempt)[0] == '.'
            &&& extension_of(temp) == Some("tmp"@)
        }),
{
    let dir = directory_of(target);
    let name = temp_text(pid, attempt);
    reveal_strlit(".iodd-");
    reveal_strlit("-");
    reveal_strlit(".tmp");
    reveal_strlit("tmp");
    reveal_strlit(".");
    lemma_digits(pid as nat);
    lemma_digits(attempt as nat);
    let a = ".iodd-"@ + decimal(pid as nat);
    let b = a + "-"@;
    let c = b + decimal(attempt as nat);
    assert forall|i: int| 0 <= i < name.len() implies #[trigger] name[i] != '/' by {
        if i < 6 {
            assert(name[i] == ".iodd-"@[i]);
        } else if i < a.len() {
            assert(name[i] == decimal(pid as nat)[i - 6]);
        } else if i < b.len() {
            assert(name[i] == '-');
        } else if i < c.len() {
            assert(name[i] == decimal(attempt as nat)[i - b.len()]);
        } else {
            assert(name[i] == ".tmp"@[i - c.len()]);
        }
    }
    assert(name.len() >= 10);
    law_parents_are_tidy(target);
    assert(dir == "."@ ==> dir =~= seq!['.']);
    assert(dir == seq!['/'] ==> tidy(dir.drop_last()) =~= Seq::<char>::empty());
    law_names_read_back(dir, name);
    let n = name.len();
    assert(name[n - 4] == ".tmp"@[0]);
    assert forall|i: int| n - 3 <= i < n implies name[i] != '.' by {
        assert(name[i] == ".tmp"@[i - (n - 4)]);
    }
    lemma_past_last_is(name, '.', n - 3);
    assert(name.skip(n - 3) =~= "tmp"@) by {
        assert forall|i: int| 0 <= i < 3 implies name.skip(n - 3)[i] == "tmp"@[i] by {
            assert(name[n - 3 + i] == ".tmp"@[i + 1]);
        }
    }
}

/// Whether a probe found a contiguous run: the space could be reserved, and it
/// came back in one piece.
pub fn fits_contiguously(outcome: Option<AllocOutcome>, map: Option<&ExtentMap>) -> (r: bool)
    ensures
        r == (outcome == Some(AllocOutcome::Reserved) && map is Some && map->0.runs@.len() == 1),
{
    match (outcome, map) {
        (Some(AllocOutcome::Reserved), Some(m)) => m.is_contiguous(),
        _ => false,
    }
}

/// The path of the file that a contiguity probe reserves and removes.
pub fn probe_path(dir: &str, pid: u32) -> (p: String)
    ensures
        p@ == inside(dir@, ".iodd-probe-"@ + decimal(pid as nat) + ".tmp"@),
{
    let mut name = ".iodd-probe-".to_owned();
    name.append(dec(pid as u64).as_str());
    name.append(".tmp");
    join(dir, name.as_str())
}

/// What to do when a temp file could not be created: the number of the next
/// name to try, or the error to report.
///
/// Creation is exclusive, which makes collisions self-correcting.
pub fn after_temp_failure(
    target: &str,
    pid: u32,
    attempt: u32,
    already_exists: bool,
    message: String,
) -> (r: Result<u32>)
    requires
        attempt < TEMP_ATTEMPTS,
    ensures
        r is Ok <==> already_exists && attempt + 1 < TEMP_ATTEMPTS,
        r matches Ok(next) ==> next == attempt + 1,
        r matches Err(e) ==> (e matches Error::Io { path, source } && if already_exists {
            path@ == directory_of(target@) && source@
                == "could not find an unused temporary filename"@
        } else {
            path@ == inside(directory_of(target@), temp_text(pid, attempt)) && source == message
        }),
{
    if !already_exists {
        return Err(Error::Io { path: temp_path(target, pid, attempt), source: message });
    }
    if attempt + 1 < TEMP_ATTEMPTS {
        return Ok(attempt + 1);
    }
    Err(
        Error::Io {
            path: parent_dir(target),
            source: "could not find an unused temporary filename".to_owned(),
        },
    )
}

/// What becomes of a temp file when its builder is done with it.
#[derive(Debug, Clone, Copy, PartialEq, Eq, Structural)]
pub enum Cleanup {
    /// It was renamed over the target.
    Nothing,
    /// It stays at its temp path, and is never renamed over the target.
    Keep,
    Remove,
}

/// Failure never publishes: an unpublished temp file is removed, or kept where
/// that was asked for.
pub fn cleanup(published: bool, keep_on_fail: bool) -> (c: Cleanup)
    ensures
        c == Cleanup::Nothing <==> published,
        c == Cleanup::Keep <==> !published && keep_on_fail,
{
    if published {
        Cleanup::Nothing
    } else if keep_on_fail {
        Cleanup::Keep
    } else {
        Cleanup::Remove
    }
}

/// What to do when a rename that must not overwrite failed: `Ok` says to fall
/// back to a plain rename.
///
/// The fallback is for a filesystem or kernel without the flag, and only while
/// the target does not exist. Check-then-rename races in principle but is the
/// best available there.
pub fn rename_noreplace(failure: OsFailure, target_exists: bool, to: &str) -> (r: Result<()>)
    ensures
        r is Ok <==> failure.errno != Errno::Other && !target_exists,
        r matches Err(e) ==> (e matches Error::Io { path, source } && path@ == to@ && if failure.errno
            == Errno::Other {
            source == failure.message
        } else {
            source@ == "target appeared while the file was being built"@
        }),
{
    match failure.errno {
        Errno::Other => Err(Error::Io { path: to.to_owned(), source: failure.message }),
        _ => {
            if target_exists {
                return Err(
                    Error::Io {
                        path: to.to_owned(),
                        source: "target appeared while the file was being built".to_owned(),
                    },
                );
            }
            Ok(())
        },
    }
}

// ---------------------------------------------------------------------------
// Probing
// ---------------------------------------------------------------------------

/// The step of a search; less than a sector makes no sense.
pub open spec fn step_of(granularity: u64) -> u64 {
    if granularity < 512 {
        512
    } else {
        granularity
    }
}

/// The binary search over `low` to `high` steps of `gran` bytes, where `fits`
/// says which sizes are granted and `best` is the largest one found so far.
pub open spec fn searched(
    fits: spec_fn(u64) -> bool,
    gran: int,
    low: int,
    high: int,
    best: Option<u64>,
) -> Option<u64>
    decreases high - low + 1,
{
    let half = (low + high) / 2;
    let mid = if half < 1 {
        1
    } else {
        half
    };
    if low < 0 || low > high || high < 1 {
        best
    } else if fits((mid * gran) as u64) {
        searched(fits, gran, mid + 1, high, Some((mid * gran) as u64))
    } else {
        searched(fits, gran, low, mid - 1, best)
    }
}

/// The largest multiple of the step up to `upper` that the search finds.
pub open spec fn probed(fits: spec_fn(u64) -> bool, upper: u64, granularity: u64) -> Option<u64> {
    let gran = step_of(granularity);
    searched(fits, gran as int, 0, (upper / gran) as int, None)
}

/// Whether `fits` always answers as `p` does.
pub open spec fn answers<F: Fn(u64) -> bool>(fits: F, p: spec_fn(u64) -> bool) -> bool {
    forall|n: u64, r: bool| #[trigger] call_ensures(fits, (n,), r) ==> r == p(n)
}

/// Measure the largest contiguous allocation that `fits` currently grants, by
/// binary search, and report it in bytes.
///
/// This is the "largest linear space" figure that makes a refusal actionable:
/// telling an operator their 12 GiB image will not fit is far less use than
/// telling them 8 GiB would.
///
/// Returns `None` when even `granularity` bytes cannot be had contiguously.
pub fn probe_largest_contiguous<F: Fn(u64) -> bool>(fits: F, upper: u64, granularity: u64) -> (r:
    Option<u64>)
    requires
        forall|n: u64| call_requires(fits, (n,)),
    ensures
        r matches Some(n) ==> 0 < n <= upper && n % step_of(granularity) == 0 && call_ensures(
            fits,
            (n,),
            true,
        ),
        forall|p: spec_fn(u64) -> bool| #[trigger]
            answers(fits, p) ==> r == probed(p, upper, granularity),
{
    let gran: u64 = if granularity < 512 {
        512
    } else {
        granularity
    };
    let mut low: u64 = 0;
    let mut high: u64 = upper / gran;
    let mut best: Option<u64> = None;
    proof {
        assert(high * gran <= upper) by (nonlinear_arith)
            requires
                high == upper / gran,
                gran >= 512,
        ;
        assert(high <= upper / 512) by (nonlinear_arith)
            requires
                high == upper / gran,
                gran >= 512,
        ;
    }
    while low <= high && high >= 1
        invariant
            forall|n: u64| call_requires(fits, (n,)),
            gran == step_of(granularity),
            gran >= 512,
            high * gran <= upper,
            high <= upper / 512,
            low <= upper / 512 + 1,
            best matches Some(n) ==> 0 < n <= upper && n % gran == 0 && call_ensures(
                fits,
                (n,),
                true,
            ),
            forall|p: spec_fn(u64) -> bool| #[trigger]
                answers(fits, p) ==> probed(p, upper, granularity) == searched(
                    p,
                    gran as int,
                    low as int,
                    high as int,
                    best,
                ),
        decreases high - low + 1,
    {
        let half: u64 = (low + high) / 2;
        let mid: u64 = if half < 1 {
            1
        } else {
            half
        };
        proof {
            assert(mid * gran <= high * gran) by (nonlinear_arith)
                requires
                    mid <= high,
                    gran >= 0,
            ;
            assert(mid * gran > 0) by (nonlinear_arith)
                requires
                    mid >= 1,
                    gran >= 512,
            ;
            assert((mid * gran) % gran as int == 0) by (nonlinear_arith)
                requires
                    gran >= 512,
            ;
        }
        let size: u64 = mid * gran;
        let ok: bool = fits(size);
        if ok {
            best = Some(size);
            low = mid + 1;
        } else {
            proof {
                assert((mid - 1) * gran <= mid * gran) by (nonlinear_arith)
                    requires
                        gran >= 0,
                ;
            }
            high = mid - 1;
        }
    }
    best
}

/// Where whatever is granted is granted at every smaller size too, the search
/// finds the largest multiple of the step that is granted, and finds none only
/// where not even one step is.
pub proof fn law_probe_finds_the_largest(
    fits: spec_fn(u64) -> bool,
    upper: u64,
    granularity: u64,
    k: int,
)
    requires
        forall|a: u64, b: u64| a <= b && #[trigger] fits(b) ==> #[trigger] fits(a),
        1 <= k <= upper / step_of(granularity),
    ensures
        ({
            let gran = step_of(granularity);
            let found = probed(fits, upper, granularity);
            &&& fits((k * gran) as u64) ==> found is Some && found->0 >= k * gran
            &&& found is Some ==> fits(found->0)
            &&& found is None ==> !fits(gran)
        }),
{
    let gran = step_of(granularity);
    let top = (upper / gran) as int;
    assert(top * gran <= upper) by (nonlinear_arith)
        requires
            top == upper / gran,
            gran >= 512,
    ;
    assert(k * gran <= top * gran) by (nonlinear_arith)
        requires
            k <= top,
            gran >= 0,
    ;
    assert(1 * gran <= k * gran) by (nonlinear_arith)
        requires
            1 <= k,
            gran >= 0,
    ;
    lemma_search(fits, gran, 0, top, None, upper, k);
    lemma_search(fits, gran, 0, top, None, upper, 1);
    assert(1 * gran as int == gran);
}

proof fn lemma_search(
    fits: spec_fn(u64) -> bool,
    gran: u64,
    low: int,
    high: int,
    best: Option<u64>,
    upper: u64,
    k: int,
)
    requires
        gran >= 512,
        0 <= low,
        high * gran <= upper,
        forall|a: u64, b: u64| a <= b && #[trigger] fits(b) ==> #[trigger] fits(a),
        best matches Some(n) ==> fits(n) && n == (low - 1) * gran,
        best is None ==> low == 0,
        1 <= k,
        k * gran <= upper,
        k <= high || !fits((k * gran) as u64),
    ensures
        ({
            let found = searched(fits, gran as int, low, high, best);
            &&& fits((k * gran) as u64) ==> found is Some && found->0 >= k * gran
            &&& found is Some ==> fits(found->0)
        }),
    decreases high - low + 1,
{
    if low > high || high < 1 {
        if fits((k * gran) as u64) {
            assert(k <= high);
            assert(k <= low - 1);
            assert(k * gran <= (low - 1) * gran) by (nonlinear_arith)
                requires
                    k <= low - 1,
                    gran >= 0,
            ;
        }
    } else {
        let half = (low + high) / 2;
        let mid = if half < 1 {
            1
        } else {
            half
        };
        assert(mid * gran <= high * gran) by (nonlinear_arith)
            requires
                mid <= high,
                gran >= 0,
        ;
        assert(mid * gran >= 0) by (nonlinear_arith)
            requires
                mid >= 1,
                gran >= 0,
        ;
        if fits((mid * gran) as u64) {
            lemma_search(fits, gran, mid + 1, high, Some((mid * gran) as u64), upper, k);
        } else {
            assert((mid - 1) * gran <= mid * gran) by (nonlinear_arith)
                requires
                    gran >= 0,
            ;
            if k > mid - 1 {
                assert(mid * gran <= k * gran) by (nonlinear_arith)
                    requires
                        mid <= k,
                        gran >= 0,
                ;
                assert(!fits((k * gran) as u64));
            }
            lemma_search(fits, gran, low, mid - 1, best, upper, k);
        }
    }
}

// ---------------------------------------------------------------------------
// Chunks
// ---------------------------------------------------------------------------

/// A byte range, taken chunk by chunk.
#[derive(Debug, Clone, Copy, PartialEq, Eq, Structural)]
pub struct Chunks {
    pub offset: u64,
    pub end: u64,
}

/// One chunk: where it starts and how long it is.
#[derive(Debug, Clone, Copy, PartialEq, Eq, Structural)]
pub struct Chunk {
    pub offset: u64,
    pub len: u64,
}

/// The chunks that cover `offset` to `end`.
pub open spec fn chunks_between(offset: int, end: int) -> Seq<Chunk>
    decreases end - offset,
{
    if offset >= end {
        Seq::empty()
    } else {
        let len = if end - offset < CHUNK {
            end - offset
        } else {
            CHUNK as int
        };
        seq![Chunk { offset: offset as u64, len: len as u64 }] + chunks_between(offset + len, end)
    }
}

impl Chunks {
    /// The chunks that are still to come.
    pub open spec fn rest(&self) -> Seq<Chunk> {
        chunks_between(self.offset as int, self.end as int)
    }

    /// The bytes from `start` up to `end`; none where `end` does not come after
    /// `start`.
    pub fn new(start: u64, end: u64) -> (c: Chunks)
        ensures
            c.rest() == chunks_between(start as int, end as int),
            c.offset == start,
            c.end == end,
    {
        Chunks { offset: start, end }
    }

    /// The next chunk; `None` when the range is exhausted.
    pub fn next(&mut self) -> (r: Option<Chunk>)
        ensures
            final(self).end == old(self).end,
            match r {
                Some(c) => old(self).rest() == seq![c] + final(self).rest() && final(self).offset
                    == c.offset + c.len,
                None => old(self).rest() == Seq::<Chunk>::empty() && *final(self) == *old(self),
            },
    {
        if self.offset >= self.end {
            return None;
        }
        let left: u64 = self.end - self.offset;
        let len: u64 = if left < CHUNK {
            left
        } else {
            CHUNK
        };
        let c = Chunk { offset: self.offset, len };
        self.offset = self.offset + len;
        Some(c)
    }
}

/// Write zeros over `[start, end)`: the chunks to write.
///
/// This is what turns a reservation into bytes that are actually zero on the
/// device. Without it the region holds whatever was there before.
pub fn zero_region(start: u64, end: u64) -> (c: Chunks)
    ensures
        c.rest() == chunks_between(start as int, end as int),
{
    Chunks::new(start, end)
}

/// The chunks of a range lie end to end, fill it exactly, and none is empty or
/// larger than the buffer.
pub proof fn law_chunks_tile_the_range(start: u64, end: u64, i: int)
    requires
        0 <= i < chunks_between(start as int, end as int).len(),
    ensures
        ({
            let c = chunks_between(start as int, end as int);
            &&& 0 < c[i].len <= CHUNK
            &&& c[0].offset == start
            &&& i + 1 < c.len() ==> c[i + 1].offset == c[i].offset + c[i].len
            &&& i + 1 == c.len() ==> c[i].offset + c[i].len == end
        }),
{
    lemma_chunks(start as int, end as int, i);
}

proof fn lemma_chunks(offset: int, end: int, i: int)
    requires
        0 <= offset,
        end <= u64::MAX,
        0 <= i < chunks_between(offset, end).len(),
    ensures
        ({
            let c = chunks_between(offset, end);
            &&& 0 < c[i].len <= CHUNK
            &&& c[0].offset == offset
            &&& i + 1 < c.len() ==> c[i + 1].offset == c[i].offset + c[i].len
            &&& i + 1 == c.len() ==> c[i].offset + c[i].len == end
        }),
    decreases end - offset,
{
    let len = if end - offset < CHUNK {
        end - offset
    } else {
        CHUNK as int
    };
    let rest = chunks_between(offset + len, end);
    let c = chunks_between(offset, end);
    assert(c.len() == rest.len() + 1);
    assert(forall|j: int| 1 <= j < c.len() ==> c[j] == rest[j - 1]);
    if i > 0 {
        lemma_chunks(offset + len, end, i - 1);
    } else if rest.len() > 0 {
        lemma_chunks(offset + len, end, 0);
    }
}

// ---------------------------------------------------------------------------
// Progress
// ---------------------------------------------------------------------------

/// Progress reporting for the zero pass, which can run for minutes.
pub trait Progress {
    fn update(&mut self, written: u64, total: u64);

    fn finish(&mut self) {
    }
}

/// Discards progress. Used by non-interactive runs.
#[derive(Debug, Clone, Copy)]
pub struct NoProgress;

impl Progress for NoProgress {
    fn update(&mut self, _written: u64, _total: u64) {
    }
}

/// How long a drawn meter stands before it is drawn again, in milliseconds.
pub const METER_INTERVAL: u64 = 500;

/// The share of `total` that is written, in percent.
pub open spec fn percent_of(written: u64, total: u64) -> u64 {
    if total == 0 {
        100
    } else {
        sat_mul(written, 100) / total
    }
}

/// Whether a meter that was last drawn at `last` is drawn again at `now`.
pub open spec fn due(last: u64, now: u64) -> bool {
    now >= last + METER_INTERVAL
}

/// A throttled one-line meter.
#[derive(Debug, Clone)]
pub struct TtyProgress {
    pub label: String,
    /// When it was last drawn, in milliseconds.
    pub last: u64,
}

/// The line that a meter draws.
pub open spec fn meter_text(label: Seq<char>, written: u64, total: u64) -> Seq<char> {
    label + ": "@ + decimal(percent_of(written, total) as nat) + "% ("@ + decimal(written as nat)
        + "/"@ + decimal(total as nat) + " bytes)"@
}

impl TtyProgress {
    /// A meter that counts as drawn at `now`.
    pub fn new(label: String, now: u64) -> (t: TtyProgress)
        ensures
            t.label == label,
            t.last == now,
    {
        TtyProgress { label, last: now }
    }

    /// The line to draw at `now`, if it is time to draw one.
    pub fn update(&mut self, now: u64, written: u64, total: u64) -> (line: Option<String>)
        ensures
            final(self).label == old(self).label,
            line is Some <==> due(old(self).last, now),
            line matches Some(l) ==> l@ == meter_text(old(self).label@, written, total),
            final(self).last == if line is Some {
                now
            } else {
                old(self).last
            },
    {
        if now < self.last || now - self.last < METER_INTERVAL {
            return None;
        }
        self.last = now;
        let percent: u64 = if total == 0 {
            100
        } else {
            saturating_product(written, 100) / total
        };
        let mut l = self.label.clone();
        l.append(": ");
        l.append(dec(percent).as_str());
        l.append("% (");
        l.append(dec(written).as_str());
        l.append("/");
        l.append(dec(total).as_str());
        l.append(" bytes)");
        Some(l)
    }

    /// The line to draw at the end, long enough to cover a meter.
    pub fn finish(&self) -> (line: String)
        ensures
            line@ == self.label@ + ": done"@ + copies(' ', 30),
    {
        let mut l = self.label.clone();
        l.append(": done");
        l.append(right_aligned("", 30, ' ').as_str());
        proof {
            reveal_strlit("");
            assert(pad_left(""@, 30, ' ') =~= copies(' ', 30));
        }
        l
    }
}

// ---------------------------------------------------------------------------
// What holds of every answer
// ---------------------------------------------------------------------------

/// Space counts as reserved where the call succeeds or is not made. Only a
/// filesystem without the call leaves the bytes to be written; every other
/// failure is reported with the length asked for.
pub proof fn law_only_missing_support_is_forgiven(
    len: u64,
    failure: Option<OsFailure>,
    path: &str,
    r: Result<AllocOutcome>,
)
    requires
        call_ensures(allocate, (len, failure, path), r),
    ensures
        r matches Ok(AllocOutcome::Reserved) <==> len == 0 || failure is None,
        r matches Ok(AllocOutcome::Unsupported) <==> len > 0 && (failure matches Some(f) && (f.errno
            is NoSuchCall || f.errno is NotSupported)),
        r matches Err(e) ==> (e matches Error::Allocation { path: p, requested, reason } && p@
            == path@ && requested == len && (failure matches Some(f) && reason == f.message)),
{
}

/// A finished file passes exactly when it is one run, its blocks of 512 bytes
/// hold its whole length, and nothing that should be written was left out. A
/// file in pieces is told so before anything else, and a file that takes too
/// little space before one that was not written.
pub proof fn law_finished_files_are_whole(
    map: ExtentMap,
    blocks: u64,
    len: u64,
    path: &str,
    expect_written: bool,
    free_bytes: Option<u64>,
    r: Result<()>,
)
    requires
        call_ensures(
            verify_written,
            (map, Ok(blocks), len, path, expect_written, free_bytes),
            r,
        ),
    ensures
        r is Ok <==> map.runs@.len() == 1 && blocks * 512 >= len && (expect_written
            ==> !map.any_unwritten),
        r matches Err(Error::Fragmented { .. }) <==> map.runs@.len() != 1,
        r matches Err(Error::Sparse { .. }) <==> map.runs@.len() == 1 && blocks * 512 < len,
        r matches Err(Error::Uninitialized { .. }) <==> map.runs@.len() == 1 && blocks * 512 >= len
            && expect_written && map.any_unwritten,
        r matches Err(Error::Fragmented { runs, free_bytes: f, .. }) ==> runs@ == map.runs@ && f
            == free_bytes,
        r matches Err(Error::Sparse { allocated, expected, .. }) ==> allocated == blocks * 512
            && expected == len,
{
}

/// Right after reserving, a file passes exactly when it is one run, and its
/// runs and the free space are reported otherwise.
pub proof fn law_pieces_are_refused(
    map: ExtentMap,
    path: &str,
    free_bytes: Option<u64>,
    r: Result<()>,
)
    requires
        call_ensures(require_contiguous, (map, path, free_bytes), r),
    ensures
        r is Ok <==> map.runs@.len() == 1,
        r matches Err(e) ==> (e matches Error::Fragmented { path: p, runs, free_bytes: f, .. } && p@
            == path@ && runs@ == map.runs@ && f == free_bytes),
{
}

/// A temp file is looked for under 64 names, one after the other, and only a
/// name that is taken leads on to the next.
pub proof fn law_taken_names_are_passed_over(
    target: &str,
    pid: u32,
    attempt: u32,
    already_exists: bool,
    message: String,
    r: Result<u32>,
)
    requires
        attempt < 64,
        call_ensures(after_temp_failure, (target, pid, attempt, already_exists, message), r),
    ensures
        r is Ok <==> already_exists && attempt < 63,
        r matches Ok(next) ==> next == attempt + 1,
        !already_exists ==> (r matches Err(Error::Io { source, .. }) && source == message),
{
}

/// A temp file is left alone once it is published, and otherwise kept where
/// that was asked for and removed where it was not.
pub proof fn law_only_unpublished_files_are_cleared_away(
    published: bool,
    keep_on_fail: bool,
    c: Cleanup,
)
    requires
        call_ensures(cleanup, (published, keep_on_fail), c),
    ensures
        c is Nothing <==> published,
        c is Keep <==> !published && keep_on_fail,
        c is Remove <==> !published && !keep_on_fail,
{
}

/// A target that exists is never renamed over, and a failure that does not say
/// the flag is missing is reported in the system's words.
pub proof fn law_nothing_is_renamed_over(
    failure: OsFailure,
    target_exists: bool,
    to: &str,
    r: Result<()>,
)
    requires
        call_ensures(rename_noreplace, (failure, target_exists, to), r),
    ensures
        target_exists ==> r is Err,
        failure.errno is Other ==> (r matches Err(Error::Io { path, source }) && path@ == to@
            && source == failure.message),
        !target_exists && (failure.errno is InvalidArgument || failure.errno is NoSuchCall
            || failure.errno is NotSupported) ==> r is Ok,
{
}

/// A probe succeeds exactly when the space is reserved and lies in one run; a
/// filesystem that cannot reserve shows nothing.
pub proof fn law_probes_need_a_reservation(
    outcome: Option<AllocOutcome>,
    map: Option<&ExtentMap>,
    r: bool,
)
    requires
        call_ensures(fits_contiguously, (outcome, map), r),
    ensures
        r <==> (outcome matches Some(AllocOutcome::Reserved)) && (map matches Some(m)
            && m.runs@.len() == 1),
{
}

#[verifier::spinoff_prover]
#[verifier::rlimit(40)]
proof fn lemma_probed<F: Fn(u64) -> bool>(
    fits: F,
    granted: spec_fn(u64) -> bool,
    upper: u64,
    granularity: u64,
    r: Option<u64>,
)
    requires
        answers(fits, granted),
        call_ensures(probe_largest_contiguous::<F>, (fits, upper, granularity), r),
    ensures
        r == probed(granted, upper, granularity),
        r matches Some(n) ==> 0 < n <= upper && n % step_of(granularity) == 0 && granted(n),
{
    assert(answers(fits, granted) ==> r == probed(granted, upper, granularity));
}

/// Where whatever is granted is granted at every smaller size too, the probe
/// reports the largest size that is granted, counted in steps of the
/// granularity but of no less than a sector, and nothing exactly where not one
/// step up to the limit is granted.
pub proof fn law_the_probe_reports_the_largest_step<F: Fn(u64) -> bool>(
    fits: F,
    granted: spec_fn(u64) -> bool,
    upper: u64,
    granularity: u64,
    step: u64,
    k: int,
    r: Option<u64>,
)
    requires
        answers(fits, granted),
        forall|a: u64, b: u64| a <= b && #[trigger] granted(b) ==> #[trigger] granted(a),
        call_ensures(probe_largest_contiguous::<F>, (fits, upper, granularity), r),
        step >= 512,
        step == granularity || granularity < step == 512,
        k >= 1,
        k * step <= upper,
    ensures
        r matches Some(n) ==> 0 < n <= upper && n % step == 0 && granted(n),
        granted((k * step) as u64) ==> (r matches Some(n) && k * step <= n),
        r is None ==> !granted(step),
{
    assert(step == step_of(granularity));
    assert(k <= upper / step) by (nonlinear_arith)
        requires
            k * step <= upper,
            step >= 512,
    ;
    lemma_probed(fits, granted, upper, granularity, r);
    law_probe_finds_the_largest(granted, upper, granularity, k);
}

/// Zeros are written four mebibytes at a time: the chunks start where the range
/// does, follow each other, end where it ends, and only the last is shorter.
/// There are none exactly where the range is empty.
pub proof fn law_zeros_come_in_full_chunks(start: u64, end: u64, c: Chunks, i: int)
    requires
        call_ensures(zero_region, (start, end), c),
    ensures
        c.rest().len() == 0 <==> start >= end,
        0 <= i < c.rest().len() ==> {
            let chunk = c.rest()[i];
            &&& c.rest()[0].offset == start
            &&& 0 < chunk.len <= 0x40_0000
            &&& chunk.offset == start + i * 0x40_0000
            &&& i + 1 < c.rest().len() <==> chunk.offset + 0x40_0000 < end
            &&& i + 1 < c.rest().len() ==> chunk.len == 0x40_0000
            &&& i + 1 == c.rest().len() ==> chunk.offset + chunk.len == end
        },
{
    if 0 <= i < c.rest().len() {
        lemma_full_chunks(start as int, end as int, i);
    }
}

proof fn lemma_full_chunks(offset: int, end: int, i: int)
    requires
        0 <= offset,
        end <= u64::MAX,
        0 <= i < chunks_between(offset, end).len(),
    ensures
        ({
            let c = chunks_between(offset, end);
            &&& 0 < c[i].len <= 0x40_0000
            &&& c[0].offset == offset
            &&& c[i].offset == offset + i * 0x40_0000
            &&& i + 1 < c.len() <==> c[i].offset + 0x40_0000 < end
            &&& i + 1 < c.len() ==> c[i].len == 0x40_0000
            &&& i + 1 == c.len() ==> c[i].offset + c[i].len == end
        }),
    decreases end - offset,
{
    let len: int = if end - offset < 0x40_0000 {
        end - offset
    } else {
        0x40_0000
    };
    let rest = chunks_between(offset + len, end);
    let c = chunks_between(offset, end);
    assert(c.len() == rest.len() + 1);
    assert(forall|j: int| 1 <= j < c.len() ==> c[j] == rest[j - 1]);
    if i > 0 {
        lemma_full_chunks(offset + len, end, i - 1);
    }
}

/// The share that a meter shows is the whole percent that is reached: all of
/// it exactly when everything is written, and of nothing at all.
pub proof fn law_meters_show_whole_percents(written: u64, total: u64)
    requires
        written <= total,
        written * 100 <= u64::MAX,
    ensures
        percent_of(written, total) * total <= written * 100,
        total > 0 ==> written * 100 < (percent_of(written, total) + 1) * total,
        percent_of(written, total) == 100 <==> written == total,
{
    let p = percent_of(written, total) as int;
    if total > 0 {
        vstd::arithmetic::div_mod::lemma_fundamental_div_mod(written * 100, total as int);
        assert(total * p == p * total) by (nonlinear_arith);
        assert((p + 1) * total == p * total + total) by (nonlinear_arith);
        assert(100 * total > 99 * total + total - 1) by (nonlinear_arith)
            requires
                total > 0,
        ;
        if p >= 101 {
            assert(p * total >= 101 * total) by (nonlinear_arith)
                requires
                    p >= 101,
                    total > 0,
            ;
        }
        if p <= 99 {
            assert((p + 1) * total <= 100 * total) by (nonlinear_arith)
                requires
                    p <= 99,
                    total > 0,
            ;
        }
    }
}

/// A file lies in the directory that it was put in, and a bare name in the
/// current one.
pub proof fn law_files_lie_in_their_directory(
    dir: Seq<char>,
    name: Seq<char>,
    p: &str,
    q: &str,
    d: String,
    e: String,
)
    requires
        plain_name(name),
        dir.len() > 0,
        tidy(dir) == dir,
        p@ == inside(dir, name),
        q@ == name,
        call_ensures(parent_dir, (p,), d),
        call_ensures(parent_dir, (q,), e),
    ensures
        d@ == dir,
        e@ == "."@,
{
    law_names_read_back(dir, name);
    law_names_read_back(Seq::empty(), name);
    assert(inside(Seq::empty(), name) == name);
}

/// A meter is drawn again once half a second has gone by, and not before.
pub proof fn law_meters_are_drawn_twice_a_second(last: u64, now: u64)
    ensures
        due(last, now) <==> now - last >= 500,
{
}

} // verus!
