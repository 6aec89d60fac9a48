//! Laying a file down, step by step, and publishing it only when it is good.
//!
//! 1. `fallocate(2)` the full length. Instant, and fails fast on ENOSPC.
//! 2. Map the extents. **More than one run aborts here**, before any data is
//!    written, which on a large target saves an entire pass on the failure
//!    path.
//! 3. Zero, where that was asked for or is what allocates the file.
//! 4. Fill in the data, where there is any.
//! 5. Measure: still one run, fully allocated, and `UNWRITTEN` cleared if the
//!    whole file was written.
//! 6. Write a trailer in place, where there is one.
//! 7. Map again, and look at the compression attribute, which a new file
//!    inherits from its directory.
//! 8. `rename(2)` the temp file over the target.
//!
//! [`Build`] says what to do next and takes in what came of it. It performs
//! nothing itself.

use vstd::prelude::*;

use super::allocation::{
    is_fragmented, require_contiguous, verify_written, AllocOutcome,
};
use super::error::{Error, Result};
use super::extents::ExtentMap;
use super::fsinfo::sat_mul;

verus! {

/// Whether and from where a build zeroes the file.
#[derive(Debug, Clone, Copy, PartialEq, Eq, Structural)]
pub enum ZeroRule {
    /// The data that is filled in is all there is.
    Never,
    /// Zero from `from` on where `asked`. A file that writing has to allocate
    /// is zeroed from its start, asked or not.
    AsAsked { asked: bool, from: u64 },
}

/// When a build claims to have written every byte.
#[derive(Debug, Clone, Copy, PartialEq, Eq, Structural)]
pub enum WrittenRule {
    Always,
    Never,
    WhenZeroed,
}

/// A file to lay down.
#[derive(Debug, Clone)]
pub struct Plan {
    /// Where the file is published.
    pub target: String,
    /// Where it is built.
    pub temp: String,
    /// How long it is, trailer included.
    pub total: u64,
    pub zero: ZeroRule,
    /// Whether there is data to fill in.
    pub populate: bool,
    pub written: WrittenRule,
    /// Where a trailer goes.
    pub trailer: Option<u64>,
    /// Whether contiguity and compression are looked at again before
    /// publishing.
    pub recheck: bool,
    /// Whether an existing target may be replaced.
    pub replace: bool,
}

/// How far a build has come.
#[derive(Debug, Clone, Copy, PartialEq, Eq, Structural)]
pub enum Phase {
    Reserve,
    EarlyMap,
    Zero,
    Populate,
    Measure,
    Trailer,
    Recheck,
    Compression,
    Publish,
    Done,
    Failed,
}

/// What to do next.
#[derive(Debug, Clone, Copy, PartialEq, Eq, Structural)]
pub enum Action {
    Reserve { len: u64 },
    MapExtents { len: u64 },
    Zero { start: u64, end: u64 },
    Populate,
    Measure { len: u64 },
    WriteTrailer { offset: u64 },
    CheckCompression,
    Publish { replace: bool },
    Finished,
    Stopped,
}

/// What came of it.
#[derive(Debug)]
pub enum Event {
    Reserved(AllocOutcome),
    /// The extent map, and the free space of the volume where obtainable.
    Mapped { map: ExtentMap, free_bytes: Option<u64> },
    Zeroed,
    Populated,
    /// The extent map and `st_blocks`, or why the latter could not be had.
    Measured {
        map: ExtentMap,
        blocks: std::result::Result<u64, String>,
        free_bytes: Option<u64>,
    },
    TrailerWritten,
    /// The compression attribute, where the filesystem has one.
    Compression(Option<bool>),
    Published,
    Failed(Error),
}

// ---------------------------------------------------------------------------
// What follows what
// ---------------------------------------------------------------------------

/// Where a build stands, and whether writing has to allocate the file.
pub struct Stage {
    pub phase: Phase,
    pub must_write: bool,
}

/// Whether the file is zeroed.
pub open spec fn zeroes(plan: Plan, must_write: bool) -> bool {
    match plan.zero {
        ZeroRule::Never => false,
        ZeroRule::AsAsked { asked, .. } => asked || must_write,
    }
}

/// Where zeroing starts.
pub open spec fn zero_start(plan: Plan, must_write: bool) -> u64 {
    match plan.zero {
        ZeroRule::AsAsked { from, .. } if !must_write => from,
        _ => 0,
    }
}

/// Whether every byte is claimed to be written.
pub open spec fn claims_written(plan: Plan, must_write: bool) -> bool {
    match plan.written {
        WrittenRule::Always => true,
        WrittenRule::Never => false,
        WrittenRule::WhenZeroed => zeroes(plan, must_write),
    }
}

/// The phase of a build that has nothing behind it. An empty file has no
/// extents, so there is nothing to reserve or to check.
pub open spec fn first_phase(plan: Plan) -> Phase {
    if plan.total == 0 {
        Phase::Publish
    } else {
        Phase::Reserve
    }
}

pub open spec fn populate_phase(plan: Plan) -> Phase {
    if plan.populate {
        Phase::Populate
    } else {
        Phase::Measure
    }
}

pub open spec fn zero_phase(plan: Plan, must_write: bool) -> Phase {
    if zeroes(plan, must_write) {
        Phase::Zero
    } else {
        populate_phase(plan)
    }
}

pub open spec fn recheck_phase(plan: Plan) -> Phase {
    if plan.recheck {
        Phase::Recheck
    } else {
        Phase::Publish
    }
}

pub open spec fn trailer_phase(plan: Plan) -> Phase {
    if plan.trailer is Some {
        Phase::Trailer
    } else {
        recheck_phase(plan)
    }
}

/// Whether a measurement shows a file that may be handed over.
pub open spec fn sound(
    plan: Plan,
    must_write: bool,
    map: ExtentMap,
    blocks: std::result::Result<u64, String>,
) -> bool {
    map.runs@.len() == 1 && blocks is Ok && sat_mul(blocks->Ok_0, 512) >= plan.total && !(
    claims_written(plan, must_write) && map.any_unwritten)
}

/// The stage after an event. An answer to a question that was not asked
/// changes nothing.
pub open spec fn next_stage(plan: Plan, s: Stage, event: Event) -> Stage {
    let failed = Stage { phase: Phase::Failed, ..s };
    match (s.phase, event) {
        (Phase::Done, _) => s,
        (Phase::Failed, _) => s,
        (_, Event::Failed(_)) => failed,
        (Phase::Reserve, Event::Reserved(AllocOutcome::Reserved)) => Stage {
            phase: Phase::EarlyMap,
            ..s
        },
        (Phase::Reserve, Event::Reserved(AllocOutcome::Unsupported)) => Stage {
            phase: zero_phase(plan, true),
            must_write: true,
        },
        (Phase::EarlyMap, Event::Mapped { map, .. }) => if map.runs@.len() == 1 {
            Stage { phase: zero_phase(plan, s.must_write), ..s }
        } else {
            failed
        },
        (Phase::Zero, Event::Zeroed) => Stage { phase: populate_phase(plan), ..s },
        (Phase::Populate, Event::Populated) => Stage { phase: Phase::Measure, ..s },
        (Phase::Measure, Event::Measured { map, blocks, .. }) => if sound(
            plan,
            s.must_write,
            map,
            blocks,
        ) {
            Stage { phase: trailer_phase(plan), ..s }
        } else {
            failed
        },
        (Phase::Trailer, Event::TrailerWritten) => Stage { phase: recheck_phase(plan), ..s },
        (Phase::Recheck, Event::Mapped { map, .. }) => if map.runs@.len() == 1 {
            Stage { phase: Phase::Compression, ..s }
        } else {
            failed
        },
        (Phase::Compression, Event::Compression(c)) => if c == Some(true) {
            failed
        } else {
            Stage { phase: Phase::Publish, ..s }
        },
        (Phase::Publish, Event::Published) => Stage { phase: Phase::Done, ..s },
        _ => s,
    }
}

/// The error that stops a build at an event.
pub open spec fn stopped_by(plan: Plan, s: Stage, event: Event, e: Error) -> bool {
    match event {
        Event::Failed(cause) => e == cause,
        Event::Mapped { map, free_bytes } => is_fragmented(e, plan.temp@, map.runs@, free_bytes),
        Event::Measured { map, blocks, free_bytes } => if map.runs@.len() != 1 {
            is_fragmented(e, plan.temp@, map.runs@, free_bytes)
        } else if blocks is Err {
            e matches Error::Io { path: p, source } && p@ == plan.temp@ && source == blocks->Err_0
        } else if sat_mul(blocks->Ok_0, 512) < plan.total {
            e matches Error::Sparse { path: p, allocated, expected } && p@ == plan.temp@
                && allocated == sat_mul(blocks->Ok_0, 512) && expected == plan.total
        } else {
            e matches Error::Uninitialized { path: p } && p@ == plan.temp@
        },
        Event::Compression(_) => e matches Error::Compressed { path: p } && p@ == plan.target@,
        _ => false,
    }
}

// ---------------------------------------------------------------------------
// The build
// ---------------------------------------------------------------------------

/// A file being laid down.
#[derive(Debug, Clone)]
pub struct Build {
    plan: Plan,
    phase: Phase,
    must_write: bool,
}

impl Build {
    /// What is laid down.
    pub closed spec fn plan_of(&self) -> Plan {
        self.plan
    }

    /// How far it has come.
    pub closed spec fn stage(&self) -> Stage {
        Stage { phase: self.phase, must_write: self.must_write }
    }

    /// Start laying down a file whose temp file has been created.
    pub fn new(plan: Plan) -> (b: Build)
        ensures
            b.plan_of() == plan,
            b.stage() == (Stage { phase: first_phase(plan), must_write: false }),
    {
        let phase = if plan.total == 0 {
            Phase::Publish
        } else {
            Phase::Reserve
        };
        Build { plan, phase, must_write: false }
    }

    fn zeroing(&self) -> (r: bool)
        ensures
            r == zeroes(self.plan_of(), self.stage().must_write),
    {
        match self.plan.zero {
            ZeroRule::Never => false,
            ZeroRule::AsAsked { asked, .. } => asked || self.must_write,
        }
    }

    /// Whether the file is zeroed, wholly or where nothing else is written.
    pub fn is_zeroed(&self) -> (r: bool)
        ensures
            r == zeroes(self.plan_of(), self.stage().must_write),
    {
        self.zeroing()
    }

    /// Whether writing has to allocate the file.
    pub fn must_write(&self) -> (r: bool)
        ensures
            r == self.stage().must_write,
    {
        self.must_write
    }

    /// What to do next.
    pub fn action(&self) -> (a: Action)
        ensures
            a == match self.stage().phase {
                Phase::Reserve => Action::Reserve { len: self.plan_of().total },
                Phase::EarlyMap => Action::MapExtents { len: self.plan_of().total },
                Phase::Zero => Action::Zero {
                    start: zero_start(self.plan_of(), self.stage().must_write),
                    end: self.plan_of().total,
                },
                Phase::Populate => Action::Populate,
                Phase::Measure => Action::Measure { len: self.plan_of().total },
                Phase::Trailer => Action::WriteTrailer {
                    offset: match self.plan_of().trailer {
                        Some(at) => at,
                        None => 0,
                    },
                },
                Phase::Recheck => Action::MapExtents { len: self.plan_of().total },
                Phase::Compression => Action::CheckCompression,
                Phase::Publish => Action::Publish { replace: self.plan_of().replace },
                Phase::Done => Action::Finished,
                Phase::Failed => Action::Stopped,
            },
    {
        match self.phase {
            Phase::Reserve => Action::Reserve { len: self.plan.total },
            Phase::EarlyMap => Action::MapExtents { len: self.plan.total },
            Phase::Zero => {
                let start: u64 = match self.plan.zero {
                    ZeroRule::AsAsked { from, .. } => {
                        if self.must_write {
                            0
                        } else {
                            from
                        }
                    },
                    ZeroRule::Never => 0,
                };
                Action::Zero { start, end: self.plan.total }
            },
            Phase::Populate => Action::Populate,
            Phase::Measure => Action::Measure { len: self.plan.total },
            Phase::Trailer => {
                let offset: u64 = match self.plan.trailer {
                    Some(at) => at,
                    None => 0,
                };
                Action::WriteTrailer { offset }
            },
            Phase::Recheck => Action::MapExtents { len: self.plan.total },
            Phase::Compression => Action::CheckCompression,
            Phase::Publish => Action::Publish { replace: self.plan.replace },
            Phase::Done => Action::Finished,
            Phase::Failed => Action::Stopped,
        }
    }

    fn enter_recheck(&mut self)
        ensures
            final(self).plan_of() == old(self).plan_of(),
            final(self).stage() == (Stage {
                phase: recheck_phase(old(self).plan_of()),
                ..old(self).stage()
            }),
    {
        self.phase = if self.plan.recheck {
            Phase::Recheck
        } else {
            Phase::Publish
        };
    }

    fn enter_populate(&mut self)
        ensures
            final(self).plan_of() == old(self).plan_of(),
            final(self).stage() == (Stage {
                phase: populate_phase(old(self).plan_of()),
                ..old(self).stage()
            }),
    {
        self.phase = if self.plan.populate {
            Phase::Populate
        } else {
            Phase::Measure
        };
    }

    fn enter_zero(&mut self)
        ensures
            final(self).plan_of() == old(self).plan_of(),
            final(self).stage() == (Stage {
                phase: zero_phase(old(self).plan_of(), old(self).stage().must_write),
                ..old(self).stage()
            }),
    {
        if self.zeroing() {
            self.phase = Phase::Zero;
        } else {
            self.enter_populate();
        }
    }

    /// Take in what came of the last action. `Err` is the reason to report when
    /// the build stops there.
    pub fn accept(&mut self, event: Event) -> (r: Result<()>)
        ensures
            final(self).plan_of() == old(self).plan_of(),
            final(self).stage() == next_stage(old(self).plan_of(), old(self).stage(), event),
            r is Err <==> old(self).stage().phase != Phase::Failed && final(self).stage().phase
                == Phase::Failed,
            r matches Err(e) ==> stopped_by(old(self).plan_of(), old(self).stage(), event, e),
    {
        match self.phase {
            Phase::Done | Phase::Failed => {
                return Ok(());
            },
            _ => {},
        }
        match event {
            Event::Failed(e) => {
                self.phase = Phase::Failed;
                return Err(e);
            },
            Event::Reserved(outcome) => {
                if self.phase == Phase::Reserve {
                    match outcome {
                        AllocOutcome::Reserved => {
                            self.phase = Phase::EarlyMap;
                        },
                        AllocOutcome::Unsupported => {
                            self.must_write = true;
                            self.enter_zero();
                        },
                    }
                }
            },
            Event::Mapped { map, free_bytes } => {
                let early: bool = self.phase == Phase::EarlyMap;
                if early || self.phase == Phase::Recheck {
                    match require_contiguous(map, self.plan.temp.as_str(), free_bytes) {
                        Ok(()) => {
                            if early {
                                self.enter_zero();
                            } else {
                                self.phase = Phase::Compression;
                            }
                        },
                        Err(e) => {
                            self.phase = Phase::Failed;
                            return Err(e);
                        },
                    }
                }
            },
            Event::Zeroed => {
                if self.phase == Phase::Zero {
                    self.enter_populate();
                }
            },
            Event::Populated => {
                if self.phase == Phase::Populate {
                    self.phase = Phase::Measure;
                }
            },
            Event::Measured { map, blocks, free_bytes } => {
                if self.phase == Phase::Measure {
                    let expect: bool = match self.plan.written {
                        WrittenRule::Always => true,
                        WrittenRule::Never => false,
                        WrittenRule::WhenZeroed => self.zeroing(),
                    };
                    match verify_written(
                        map,
                        blocks,
                        self.plan.total,
                        self.plan.temp.as_str(),
                        expect,
                        free_bytes,
                    ) {
                        Ok(()) => {
                            match self.plan.trailer {
                                Some(_) => {
                                    self.phase = Phase::Trailer;
                                },
                                None => {
                                    self.enter_recheck();
                                },
                            }
                        },
                        Err(e) => {
                            self.phase = Phase::Failed;
                            return Err(e);
                        },
                    }
                }
            },
            Event::TrailerWritten => {
                if self.phase == Phase::Trailer {
                    self.enter_recheck();
                }
            },
            Event::Compression(c) => {
                if self.phase == Phase::Compression {
                    match c {
                        Some(true) => {
                            self.phase = Phase::Failed;
                            return Err(Error::Compressed { path: self.plan.target.clone() });
                        },
                        _ => {
                            self.phase = Phase::Publish;
                        },
                    }
                }
            },
            Event::Published => {
                if self.phase == Phase::Publish {
                    self.phase = Phase::Done;
                }
            },
        }
        Ok(())
    }
}

// ---------------------------------------------------------------------------
// Laws
// ---------------------------------------------------------------------------

/// Where a build stands after these events.
pub open spec fn after(plan: Plan, events: Seq<Event>) -> Stage
    decreases events.len(),
{
    if events.len() == 0 {
        Stage { phase: first_phase(plan), must_write: false }
    } else {
        next_stage(plan, after(plan, events.drop_last()), events.last())
    }
}

/// Whether event `i` is a measurement that shows a sound file.
pub open spec fn sound_at(plan: Plan, must_write: bool, events: Seq<Event>, i: int) -> bool {
    0 <= i < events.len() && (events[i] matches Event::Measured { map, blocks, .. } && sound(
        plan,
        must_write,
        map,
        blocks,
    ))
}

/// Whether event `i` is an extent map with a single run.
pub open spec fn contiguous_at(events: Seq<Event>, i: int) -> bool {
    0 <= i < events.len() && (events[i] matches Event::Mapped { map, .. } && map.runs@.len() == 1)
}

/// Whether event `i` says that the file is not compressed, as far as the
/// filesystem can tell.
pub open spec fn uncompressed_at(events: Seq<Event>, i: int) -> bool {
    0 <= i < events.len() && (events[i] matches Event::Compression(c) && c != Some(true))
}

/// The phases behind a sound measurement.
pub open spec fn is_measured(phase: Phase) -> bool {
    phase == Phase::Trailer || phase == Phase::Recheck || phase == Phase::Compression || phase
        == Phase::Publish || phase == Phase::Done
}

proof fn lemma_history(plan: Plan, events: Seq<Event>)
    requires
        plan.total > 0,
    ensures
        ({
            let s = after(plan, events);
            &&& is_measured(s.phase) ==> exists|i: int| sound_at(plan, s.must_write, events, i)
            &&& s.phase == Phase::Compression ==> exists|i: int, j: int|
                #![trigger sound_at(plan, s.must_write, events, i), contiguous_at(events, j)]
                sound_at(plan, s.must_write, events, i) && contiguous_at(events, j) && i < j
            &&& plan.recheck && (s.phase == Phase::Publish || s.phase == Phase::Done)
                ==> exists|i: int, j: int, k: int|
                #![trigger sound_at(plan, s.must_write, events, i), contiguous_at(
                    events,
                    j,
                ), uncompressed_at(events, k)]
                sound_at(plan, s.must_write, events, i) && contiguous_at(events, j)
                    && uncompressed_at(events, k) && i < j < k
        }),
    decreases events.len(),
{
    if events.len() > 0 {
        let front = events.drop_last();
        let n = events.len() - 1;
        lemma_history(plan, front);
        let t = after(plan, front);
        let s = after(plan, events);
        assert(events[n] == events.last());
        if is_measured(t.phase) {
            assert(s.must_write == t.must_write);
            let i = choose|i: int| sound_at(plan, t.must_write, front, i);
            assert(events[i] == front[i]);
            assert(sound_at(plan, s.must_write, events, i));
            if t.phase == Phase::Recheck && s.phase == Phase::Compression {
                assert(contiguous_at(events, n));
            }
            if t.phase == Phase::Compression {
                let (i, j) = choose|i: int, j: int|
                    #![trigger sound_at(plan, t.must_write, front, i), contiguous_at(front, j)]
                    sound_at(plan, t.must_write, front, i) && contiguous_at(front, j) && i < j;
                assert(events[i] == front[i] && events[j] == front[j]);
                assert(sound_at(plan, s.must_write, events, i));
                assert(contiguous_at(events, j));
                if s.phase == Phase::Publish {
                    assert(uncompressed_at(events, n));
                }
            }
            if plan.recheck && (t.phase == Phase::Publish || t.phase == Phase::Done) {
                let (i, j, k) = choose|i: int, j: int, k: int|
                    #![trigger sound_at(plan, t.must_write, front, i), contiguous_at(front, j), uncompressed_at(front, k)]
                    sound_at(plan, t.must_write, front, i) && contiguous_at(front, j)
                        && uncompressed_at(front, k) && i < j < k;
                assert(events[i] == front[i] && events[j] == front[j] && events[k] == front[k]);
                assert(sound_at(plan, s.must_write, events, i));
                assert(contiguous_at(events, j));
                assert(uncompressed_at(events, k));
            }
        } else if is_measured(s.phase) {
            assert(t.phase == Phase::Measure);
            assert(sound_at(plan, s.must_write, events, n));
        }
    }
}

/// Nothing is published until it is good: whatever happened before, a build
/// that is about to publish has measured one run, full allocation, and, where
/// it claims to have written everything, no unwritten extent.
pub proof fn law_only_sound_files_are_published(plan: Plan, events: Seq<Event>)
    requires
        plan.total > 0,
        after(plan, events).phase == Phase::Publish,
    ensures
        exists|i: int| sound_at(plan, after(plan, events).must_write, events, i),
{
    lemma_history(plan, events);
}

/// Where the plan asks for it, the file was found in one run again after that
/// measurement, and then not to be compressed, before it is published.
pub proof fn law_rechecked_before_publishing(plan: Plan, events: Seq<Event>)
    requires
        plan.total > 0,
        plan.recheck,
        after(plan, events).phase == Phase::Publish,
    ensures
        exists|i: int, j: int, k: int|
            #![trigger sound_at(plan, after(plan, events).must_write, events, i), contiguous_at(
                events,
                j,
            ), uncompressed_at(events, k)]
            sound_at(plan, after(plan, events).must_write, events, i) && contiguous_at(events, j)
                && uncompressed_at(events, k) && i < j < k,
{
    lemma_history(plan, events);
}

/// How many phases lie behind a build. A failed one has nothing left to do.
pub open spec fn progress(phase: Phase) -> nat {
    match phase {
        Phase::Reserve => 0,
        Phase::EarlyMap => 1,
        Phase::Zero => 2,
        Phase::Populate => 3,
        Phase::Measure => 4,
        Phase::Trailer => 5,
        Phase::Recheck => 6,
        Phase::Compression => 7,
        Phase::Publish => 8,
        Phase::Done => 9,
        Phase::Failed => 9,
    }
}

/// Whether an event says what came of the action that a phase asks for.
pub open spec fn answers(phase: Phase, event: Event) -> bool {
    match phase {
        Phase::Reserve => event is Reserved || event is Failed,
        Phase::EarlyMap => event is Mapped || event is Failed,
        Phase::Zero => event is Zeroed || event is Failed,
        Phase::Populate => event is Populated || event is Failed,
        Phase::Measure => event is Measured || event is Failed,
        Phase::Trailer => event is TrailerWritten || event is Failed,
        Phase::Recheck => event is Mapped || event is Failed,
        Phase::Compression => event is Compression || event is Failed,
        Phase::Publish => event is Published || event is Failed,
        Phase::Done => false,
        Phase::Failed => false,
    }
}

/// Every answer moves a build on, and nothing moves it back. It is published
/// or stopped after nine answers at most.
pub proof fn law_every_answer_moves_on(plan: Plan, s: Stage, event: Event)
    ensures
        progress(next_stage(plan, s, event).phase) >= progress(s.phase),
        answers(s.phase, event) ==> progress(next_stage(plan, s, event).phase) > progress(s.phase),
        progress(s.phase) == 9 <==> s.phase == Phase::Done || s.phase == Phase::Failed,
{
}

/// A failure is final: no event brings a failed build back, so it never
/// publishes.
pub proof fn law_failure_never_publishes(plan: Plan, events: Seq<Event>, more: Seq<Event>)
    requires
        after(plan, events).phase == Phase::Failed,
    ensures
        after(plan, events + more).phase == Phase::Failed,
    decreases more.len(),
{
    if more.len() == 0 {
        assert(events + more == events);
    } else {
        law_failure_never_publishes(plan, events, more.drop_last());
        assert((events + more).drop_last() == events + more.drop_last());
    }
}

/// A fragmented reservation stops the build before anything is written.
pub proof fn law_fragmentation_stops_before_writing(
    plan: Plan,
    events: Seq<Event>,
    map: ExtentMap,
    free_bytes: Option<u64>,
)
    requires
        after(plan, events).phase == Phase::EarlyMap,
        map.runs@.len() != 1,
    ensures
        after(plan, events.push(Event::Mapped { map, free_bytes })).phase == Phase::Failed,
{
    assert(events.push(Event::Mapped { map, free_bytes }).drop_last() == events);
}

// ---------------------------------------------------------------------------
// What a build that publishes has behind it
// ---------------------------------------------------------------------------

/// Whether zeroing is owed: it was asked for, or writing has to allocate the
/// file of a plan that zeroes at all.
pub open spec fn owes_zeros(plan: Plan, must_write: bool) -> bool {
    plan.zero matches ZeroRule::AsAsked { asked, .. } && (asked || must_write)
}

/// Whether event `i` came while the build stood in `phase`.
pub open spec fn stood_in(plan: Plan, events: Seq<Event>, i: int, phase: Phase) -> bool {
    0 <= i < events.len() && after(plan, events.take(i)).phase == phase
}

/// Whether event `i` is the answer to the request to reserve space.
pub open spec fn reserved_at(
    plan: Plan,
    events: Seq<Event>,
    i: int,
    outcome: AllocOutcome,
) -> bool {
    stood_in(plan, events, i, Phase::Reserve) && events[i] == Event::Reserved(outcome)
}

/// Whether event `i` shows that the reservation came back in one run.
pub open spec fn mapped_at(plan: Plan, events: Seq<Event>, i: int) -> bool {
    stood_in(plan, events, i, Phase::EarlyMap) && (events[i] matches Event::Mapped { map, .. }
        && map.runs@.len() == 1)
}

/// Whether event `i` says that the zeros were written.
pub open spec fn zeroed_at(plan: Plan, events: Seq<Event>, i: int) -> bool {
    stood_in(plan, events, i, Phase::Zero) && events[i] is Zeroed
}

/// Whether event `i` says that the data was filled in.
pub open spec fn populated_at(plan: Plan, events: Seq<Event>, i: int) -> bool {
    stood_in(plan, events, i, Phase::Populate) && events[i] is Populated
}

/// Whether event `i` is a measurement of one run and full allocation, without
/// an unwritten extent where the plan claims that every byte was written.
pub open spec fn measured_at(plan: Plan, must_write: bool, events: Seq<Event>, i: int) -> bool {
    stood_in(plan, events, i, Phase::Measure) && (events[i] matches Event::Measured {
        map,
        blocks,
        ..
    } && map.runs@.len() == 1 && (blocks matches Ok(n) && n * 512 >= plan.total) && (map.any_unwritten
        ==> plan.written == WrittenRule::Never || (plan.written == WrittenRule::WhenZeroed
        && !owes_zeros(plan, must_write))))
}

/// Whether event `i` says that the trailer was written.
pub open spec fn trailed_at(plan: Plan, events: Seq<Event>, i: int) -> bool {
    stood_in(plan, events, i, Phase::Trailer) && events[i] is TrailerWritten
}

/// Whether everything that a plan puts into the file was put there before event
/// `n`.
pub open spec fn filled_before(plan: Plan, must_write: bool, events: Seq<Event>, n: int) -> bool {
    &&& owes_zeros(plan, must_write) ==> exists|z: int| z < n && #[trigger] zeroed_at(
        plan,
        events,
        z,
    )
    &&& plan.populate ==> exists|p: int| p < n && #[trigger] populated_at(plan, events, p)
}

/// Whether event `m` measures a file that has been filled.
pub open spec fn prepared_at(plan: Plan, must_write: bool, events: Seq<Event>, m: int) -> bool {
    measured_at(plan, must_write, events, m) && filled_before(plan, must_write, events, m)
}

/// Whether with event `t` a prepared file has its trailer, if there is one.
pub open spec fn sealed_at(plan: Plan, must_write: bool, events: Seq<Event>, t: int) -> bool {
    if plan.trailer is Some {
        trailed_at(plan, events, t) && exists|m: int|
            m < t && #[trigger] prepared_at(plan, must_write, events, m)
    } else {
        prepared_at(plan, must_write, events, t)
    }
}

/// Whether event `j` shows a sealed file in one run again.
pub open spec fn remapped_at(plan: Plan, must_write: bool, events: Seq<Event>, j: int) -> bool {
    stood_in(plan, events, j, Phase::Recheck) && (events[j] matches Event::Mapped { map, .. }
        && map.runs@.len() == 1) && exists|t: int|
        t < j && #[trigger] sealed_at(plan, must_write, events, t)
}

/// Whether event `k` shows such a file not to be compressed.
pub open spec fn cleared_at(plan: Plan, must_write: bool, events: Seq<Event>, k: int) -> bool {
    stood_in(plan, events, k, Phase::Compression) && (events[k] matches Event::Compression(c) && c
        != Some(true)) && exists|j: int|
        j < k && #[trigger] remapped_at(plan, must_write, events, j)
}

/// What a build has behind it in each phase.
pub open spec fn history(plan: Plan, events: Seq<Event>) -> bool {
    let s = after(plan, events);
    let n = events.len() as int;
    &&& s.phase != Phase::Reserve && s.phase != Phase::Failed && !s.must_write ==> exists|r: int|
        #[trigger] reserved_at(plan, events, r, AllocOutcome::Reserved)
    &&& s.must_write ==> exists|r: int| #[trigger] reserved_at(
        plan,
        events,
        r,
        AllocOutcome::Unsupported,
    )
    &&& s.phase == Phase::Reserve || s.phase == Phase::EarlyMap ==> !s.must_write
    &&& (s.phase == Phase::Zero || s.phase == Phase::Populate || s.phase == Phase::Measure
        || is_measured(s.phase)) && !s.must_write ==> exists|m: int| #[trigger] mapped_at(
        plan,
        events,
        m,
    )
    &&& s.phase == Phase::Zero ==> owes_zeros(plan, s.must_write)
    &&& s.phase == Phase::Populate ==> plan.populate && (owes_zeros(plan, s.must_write)
        ==> exists|z: int| z < n && #[trigger] zeroed_at(plan, events, z))
    &&& s.phase == Phase::Measure ==> filled_before(plan, s.must_write, events, n)
    &&& s.phase == Phase::Trailer ==> plan.trailer is Some && exists|m: int| #[trigger]
        prepared_at(plan, s.must_write, events, m)
    &&& s.phase == Phase::Recheck ==> plan.recheck && exists|t: int| #[trigger] sealed_at(
        plan,
        s.must_write,
        events,
        t,
    )
    &&& s.phase == Phase::Compression ==> plan.recheck && exists|j: int| #[trigger] remapped_at(
        plan,
        s.must_write,
        events,
        j,
    )
    &&& (s.phase == Phase::Publish || s.phase == Phase::Done) && plan.recheck ==> exists|k: int|
        #[trigger] cleared_at(plan, s.must_write, events, k)
    &&& (s.phase == Phase::Publish || s.phase == Phase::Done) && !plan.recheck ==> exists|t: int|
        #[trigger] sealed_at(plan, s.must_write, events, t)
}

/// What happened stays so when more happens.
proof fn lemma_past_stays(plan: Plan, events: Seq<Event>, i: int)
    requires
        0 <= i < events.len() - 1,
    ensures
        ({
            let front = events.drop_last();
            &&& events[i] == front[i]
            &&& forall|p: Phase| stood_in(plan, front, i, p) == stood_in(plan, events, i, p)
        }),
{
    assert(events.drop_last().take(i) =~= events.take(i));
}

proof fn lemma_filled_stays(plan: Plan, mw: bool, events: Seq<Event>, n: int)
    requires
        events.len() > 0,
        n < events.len(),
        filled_before(plan, mw, events.drop_last(), n),
    ensures
        filled_before(plan, mw, events, n),
{
    let front = events.drop_last();
    if owes_zeros(plan, mw) {
        let z = choose|z: int| z < n && #[trigger] zeroed_at(plan, front, z);
        lemma_past_stays(plan, events, z);
        assert(zeroed_at(plan, events, z));
    }
    if plan.populate {
        let p = choose|p: int| p < n && #[trigger] populated_at(plan, front, p);
        lemma_past_stays(plan, events, p);
        assert(populated_at(plan, events, p));
    }
}

proof fn lemma_prepared_stays(plan: Plan, mw: bool, events: Seq<Event>, m: int)
    requires
        events.len() > 0,
        prepared_at(plan, mw, events.drop_last(), m),
    ensures
        prepared_at(plan, mw, events, m),
{
    lemma_past_stays(plan, events, m);
    lemma_filled_stays(plan, mw, events, m);
}

proof fn lemma_sealed_stays(plan: Plan, mw: bool, events: Seq<Event>, t: int)
    requires
        events.len() > 0,
        sealed_at(plan, mw, events.drop_last(), t),
    ensures
        sealed_at(plan, mw, events, t),
{
    let front = events.drop_last();
    if plan.trailer is Some {
        lemma_past_stays(plan, events, t);
        let m = choose|m: int| m < t && #[trigger] prepared_at(plan, mw, front, m);
        lemma_prepared_stays(plan, mw, events, m);
    } else {
        lemma_prepared_stays(plan, mw, events, t);
    }
}

proof fn lemma_remapped_stays(plan: Plan, mw: bool, events: Seq<Event>, j: int)
    requires
        events.len() > 0,
        remapped_at(plan, mw, events.drop_last(), j),
    ensures
        remapped_at(plan, mw, events, j),
{
    let front = events.drop_last();
    lemma_past_stays(plan, events, j);
    let t = choose|t: int| t < j && #[trigger] sealed_at(plan, mw, front, t);
    lemma_sealed_stays(plan, mw, events, t);
}

proof fn lemma_cleared_stays(plan: Plan, mw: bool, events: Seq<Event>, k: int)
    requires
        events.len() > 0,
        cleared_at(plan, mw, events.drop_last(), k),
    ensures
        cleared_at(plan, mw, events, k),
{
    let front = events.drop_last();
    lemma_past_stays(plan, events, k);
    let j = choose|j: int| j < k && #[trigger] remapped_at(plan, mw, front, j);
    lemma_remapped_stays(plan, mw, events, j);
}

#[verifier::spinoff_prover]
#[verifier::rlimit(40)]
proof fn lemma_history_holds(plan: Plan, events: Seq<Event>)
    requires
        plan.total > 0,
    ensures
        history(plan, events),
    decreases events.len(),
{
    if events.len() > 0 {
        let front = events.drop_last();
        let n = events.len() - 1;
        lemma_history_holds(plan, front);
        let t = after(plan, front);
        let s = after(plan, events);
        let mw = s.must_write;
        assert(events.take(n) =~= front);
        assert(events[n] == events.last());
        assert(forall|p: Phase| stood_in(plan, events, n, p) == (t.phase == p));
        assert(t.phase != Phase::Reserve ==> t.must_write == mw);
        // The reservation.
        if t.phase != Phase::Reserve && t.phase != Phase::Failed && !t.must_write {
            let r = choose|r: int| #[trigger] reserved_at(plan, front, r, AllocOutcome::Reserved);
            lemma_past_stays(plan, events, r);
            assert(reserved_at(plan, events, r, AllocOutcome::Reserved));
        }
        if t.must_write {
            let r = choose|r: int| #[trigger] reserved_at(
                plan,
                front,
                r,
                AllocOutcome::Unsupported,
            );
            lemma_past_stays(plan, events, r);
            assert(reserved_at(plan, events, r, AllocOutcome::Unsupported));
        }
        if t.phase == Phase::Reserve && s.phase != Phase::Reserve && s.phase != Phase::Failed {
            assert(reserved_at(plan, events, n, AllocOutcome::Reserved) || (mw && reserved_at(
                plan,
                events,
                n,
                AllocOutcome::Unsupported,
            )));
        }
        // The first map.
        if t.phase == Phase::EarlyMap && s.phase != Phase::EarlyMap && s.phase != Phase::Failed {
            assert(mapped_at(plan, events, n));
        }
        if (t.phase == Phase::Zero || t.phase == Phase::Populate || t.phase == Phase::Measure
            || is_measured(t.phase)) && !mw {
            let m = choose|m: int| #[trigger] mapped_at(plan, front, m);
            lemma_past_stays(plan, events, m);
            assert(mapped_at(plan, events, m));
        }
        // The contents.
        if t.phase == Phase::Zero && s.phase != Phase::Zero && s.phase != Phase::Failed {
            assert(zeroed_at(plan, events, n));
        }
        if t.phase == Phase::Populate {
            if owes_zeros(plan, mw) {
                let z = choose|z: int| z < n && #[trigger] zeroed_at(plan, front, z);
                lemma_past_stays(plan, events, z);
                assert(zeroed_at(plan, events, z));
            }
            if s.phase == Phase::Measure {
                assert(populated_at(plan, events, n));
            }
        }
        if t.phase == Phase::Measure {
            lemma_filled_stays(plan, mw, events, n);
            if s.phase == Phase::Measure {
                assert(filled_before(plan, mw, events, n + 1));
            } else if s.phase != Phase::Failed {
                assert(measured_at(plan, mw, events, n));
                assert(prepared_at(plan, mw, events, n));
                if plan.trailer is None {
                    assert(sealed_at(plan, mw, events, n));
                }
            }
        }
        // The trailer.
        if t.phase == Phase::Trailer {
            let m = choose|m: int| #[trigger] prepared_at(plan, mw, front, m);
            lemma_prepared_stays(plan, mw, events, m);
            if s.phase != Phase::Trailer && s.phase != Phase::Failed {
                assert(trailed_at(plan, events, n));
                assert(sealed_at(plan, mw, events, n));
            }
        }
        // The last look.
        if t.phase == Phase::Recheck {
            let q = choose|q: int| #[trigger] sealed_at(plan, mw, front, q);
            lemma_sealed_stays(plan, mw, events, q);
            if s.phase == Phase::Compression {
                assert(remapped_at(plan, mw, events, n));
            }
        }
        if t.phase == Phase::Compression {
            let j = choose|j: int| #[trigger] remapped_at(plan, mw, front, j);
            lemma_remapped_stays(plan, mw, events, j);
            if s.phase == Phase::Publish {
                assert(cleared_at(plan, mw, events, n));
            }
        }
        if t.phase == Phase::Publish || t.phase == Phase::Done {
            if plan.recheck {
                let k = choose|k: int| #[trigger] cleared_at(plan, mw, front, k);
                lemma_cleared_stays(plan, mw, events, k);
            } else {
                let q = choose|q: int| #[trigger] sealed_at(plan, mw, front, q);
                lemma_sealed_stays(plan, mw, events, q);
            }
        }
    }
}

/// Nothing is left out: whatever happened, a build that is about to publish
/// has, in this order, written the zeros that were owed and filled in the data
/// there is, measured the result, and written the trailer there is. Where the
/// plan asks for it, it then found the file in one run again, and not
/// compressed.
pub proof fn law_nothing_is_left_out(plan: Plan, events: Seq<Event>)
    requires
        plan.total > 0,
        after(plan, events).phase == Phase::Publish,
    ensures
        ({
            let mw = after(plan, events).must_write;
            &&& exists|m: int|
                #![trigger measured_at(plan, mw, events, m)]
                {
                    &&& measured_at(plan, mw, events, m)
                    &&& plan.populate ==> exists|p: int|
                        p < m && #[trigger] populated_at(plan, events, p)
                    &&& owes_zeros(plan, mw) ==> exists|z: int|
                        z < m && #[trigger] zeroed_at(plan, events, z)
                    &&& plan.trailer is Some ==> exists|t: int|
                        m < t && #[trigger] trailed_at(plan, events, t)
                }
            &&& plan.recheck ==> exists|k: int| #[trigger] cleared_at(plan, mw, events, k)
        }),
{
    lemma_history_holds(plan, events);
    let mw = after(plan, events).must_write;
    let t = if plan.recheck {
        let k = choose|k: int| #[trigger] cleared_at(plan, mw, events, k);
        let j = choose|j: int| j < k && #[trigger] remapped_at(plan, mw, events, j);
        choose|t: int| t < j && #[trigger] sealed_at(plan, mw, events, t)
    } else {
        choose|t: int| #[trigger] sealed_at(plan, mw, events, t)
    };
    assert(sealed_at(plan, mw, events, t));
    let m = if plan.trailer is Some {
        choose|m: int| m < t && #[trigger] prepared_at(plan, mw, events, m)
    } else {
        t
    };
    assert(prepared_at(plan, mw, events, m));
    assert(measured_at(plan, mw, events, m));
}

/// Nothing is written into a reservation before it was seen to be one run, and
/// the build falls back to writing the whole file exactly where the filesystem
/// could not reserve it.
pub proof fn law_reservations_are_checked_first(plan: Plan, events: Seq<Event>)
    requires
        plan.total > 0,
        after(plan, events).phase == Phase::Zero || after(plan, events).phase == Phase::Populate
            || after(plan, events).phase == Phase::Measure || after(plan, events).phase
            == Phase::Publish,
    ensures
        after(plan, events).must_write ==> exists|r: int| #[trigger] reserved_at(
            plan,
            events,
            r,
            AllocOutcome::Unsupported,
        ),
        !after(plan, events).must_write ==> exists|r: int| #[trigger] reserved_at(
            plan,
            events,
            r,
            AllocOutcome::Reserved,
        ),
        !after(plan, events).must_write ==> exists|m: int| #[trigger] mapped_at(plan, events, m),
{
    lemma_history_holds(plan, events);
}

/// Each step asks for what it is about, over the whole length of the file: the
/// space and the measurements for all of it, the zeros up to its end, and from
/// its start where writing has to allocate it, and the trailer where the plan
/// puts it.
pub proof fn law_steps_ask_for_what_they_need(b: &Build, a: Action)
    requires
        call_ensures(Build::action, (b,), a),
    ensures
        a is Reserve <==> b.stage().phase == Phase::Reserve,
        a is MapExtents <==> b.stage().phase == Phase::EarlyMap || b.stage().phase
            == Phase::Recheck,
        a is Zero <==> b.stage().phase == Phase::Zero,
        a is Populate <==> b.stage().phase == Phase::Populate,
        a is Measure <==> b.stage().phase == Phase::Measure,
        a is WriteTrailer <==> b.stage().phase == Phase::Trailer,
        a is CheckCompression <==> b.stage().phase == Phase::Compression,
        a is Publish <==> b.stage().phase == Phase::Publish,
        a is Finished <==> b.stage().phase == Phase::Done,
        a matches Action::Reserve { len } ==> len == b.plan_of().total,
        a matches Action::MapExtents { len } ==> len == b.plan_of().total,
        a matches Action::Measure { len } ==> len == b.plan_of().total,
        a matches Action::Zero { start, end } ==> end == b.plan_of().total && (
        b.stage().must_write ==> start == 0) && (!b.stage().must_write
            && b.plan_of().zero is AsAsked ==> start == b.plan_of().zero->from),
        a matches Action::WriteTrailer { offset } ==> (b.plan_of().trailer matches Some(at)
            ==> offset == at),
        a matches Action::Publish { replace } ==> replace == b.plan_of().replace,
{
}

/// A build that stops says why: pieces are reported as pieces, with the runs
/// that were seen and the space that is free, missing allocation by how much is
/// missing, and what was never written and what is compressed as such. The
/// temp file is named, but for compression, which is a matter of the target.
pub proof fn law_stops_are_explained(plan: Plan, s: Stage, event: Event, e: Error)
    requires
        stopped_by(plan, s, event, e),
    ensures
        match event {
            Event::Failed(cause) => e == cause,
            Event::Mapped { map, free_bytes } => e matches Error::Fragmented {
                path,
                runs,
                free_bytes: free,
                ..
            } && path@ == plan.temp@ && runs@ == map.runs@ && free == free_bytes,
            Event::Measured { map, blocks, free_bytes } => if map.runs@.len() != 1 {
                e matches Error::Fragmented { path, runs, free_bytes: free, .. } && path@
                    == plan.temp@ && runs@ == map.runs@ && free == free_bytes
            } else {
                match blocks {
                    Err(why) => e matches Error::Io { path, source } && path@ == plan.temp@
                        && source == why,
                    Ok(n) => if n * 512 < plan.total {
                        e matches Error::Sparse { path, allocated, expected } && path@ == plan.temp@
                            && allocated == n * 512 && expected == plan.total
                    } else {
                        e matches Error::Uninitialized { path } && path@ == plan.temp@
                    },
                }
            },
            Event::Compression(_) => e matches Error::Compressed { path } && path@ == plan.target@,
            _ => true,
        },
{
}

/// A build that is not over fails exactly where a step failed, the file is seen
/// in other than one run, its measurement shows too little allocation or, where
/// the plan claims that every byte was written, an unwritten extent, or it is
/// compressed. Any other answer takes it further.
pub proof fn law_builds_fail_only_for_cause(plan: Plan, s: Stage, event: Event)
    requires
        s.phase != Phase::Done,
        s.phase != Phase::Failed,
    ensures
        next_stage(plan, s, event).phase == Phase::Failed <==> match event {
            Event::Failed(_) => true,
            Event::Mapped { map, .. } => (s.phase == Phase::EarlyMap || s.phase == Phase::Recheck)
                && map.runs@.len() != 1,
            Event::Measured { map, blocks, .. } => s.phase == Phase::Measure && (map.runs@.len()
                != 1 || !(blocks matches Ok(n) && n * 512 >= plan.total) || (map.any_unwritten && (
            plan.written == WrittenRule::Always || (plan.written == WrittenRule::WhenZeroed
                && owes_zeros(plan, s.must_write))))),
            Event::Compression(c) => s.phase == Phase::Compression && c == Some(true),
            _ => false,
        },
        answers(s.phase, event) && next_stage(plan, s, event).phase != Phase::Failed ==> progress(
            next_stage(plan, s, event).phase,
        ) > progress(s.phase),
        !answers(s.phase, event) ==> next_stage(plan, s, event) == s,
{
}

/// A file counts as zeroed exactly where its plan lets it be zeroed and either
/// that was asked for or writing has to allocate the file.
pub proof fn law_zeroing_is_asked_for_or_forced(b: &Build, zeroed: bool, forced: bool)
    requires
        call_ensures(Build::is_zeroed, (b,), zeroed),
        call_ensures(Build::must_write, (b,), forced),
    ensures
        forced == b.stage().must_write,
        b.plan_of().zero is Never ==> !zeroed,
        b.plan_of().zero matches ZeroRule::AsAsked { asked, .. } ==> (zeroed <==> asked || forced),
{
}

/// A build starts with nothing written, at the reservation; an empty file has
/// nothing to reserve, and is published as it is.
pub proof fn law_builds_start_with_a_reservation(plan: Plan, b: Build)
    requires
        call_ensures(Build::new, (plan,), b),
    ensures
        b.plan_of() == plan,
        !b.stage().must_write,
        plan.total > 0 ==> b.stage().phase is Reserve,
        plan.total == 0 ==> b.stage().phase is Publish,
{
}

} // verus!
