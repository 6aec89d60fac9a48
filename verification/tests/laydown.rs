use iodd::contig::allocation::AllocOutcome;
use iodd::contig::laydown::{Action, Build, Event, Plan, WrittenRule, ZeroRule};
use iodd::contig::{Error, ExtentMap, Run};

fn plan() -> Plan {
    Plan {
        target: "/d/disk.vhd".to_string(),
        temp: "/d/.iodd-1-0.tmp".to_string(),
        total: 1536,
        zero: ZeroRule::AsAsked { asked: true, from: 512 },
        populate: true,
        written: WrittenRule::WhenZeroed,
        trailer: Some(1024),
        recheck: true,
        replace: false,
    }
}

fn map(runs: usize, any_unwritten: bool) -> ExtentMap {
    let one = Run { logical: 0, physical: 0, length: 1536 };
    ExtentMap { runs: vec![one; runs], raw_records: runs, any_unwritten }
}

fn mapped(runs: usize) -> Event {
    Event::Mapped { map: map(runs, true), free_bytes: Some(5) }
}

fn measured(runs: usize, blocks: u64, unwritten: bool) -> Event {
    Event::Measured { map: map(runs, unwritten), blocks: Ok(blocks), free_bytes: None }
}

fn at_measure(plan: Plan) -> Build {
    let mut b = Build::new(plan);
    b.accept(Event::Reserved(AllocOutcome::Reserved)).expect("reserved");
    b.accept(mapped(1)).expect("mapped");
    b.accept(Event::Zeroed).expect("zeroed");
    b.accept(Event::Populated).expect("populated");
    b
}

#[test]
fn a_file_is_laid_down_in_order() {
    let mut b = Build::new(plan());
    assert_eq!(b.action(), Action::Reserve { len: 1536 });
    b.accept(Event::Reserved(AllocOutcome::Reserved)).expect("reserved");
    assert_eq!(b.action(), Action::MapExtents { len: 1536 });
    b.accept(mapped(1)).expect("mapped");
    assert_eq!(b.action(), Action::Zero { start: 512, end: 1536 });
    b.accept(Event::Zeroed).expect("zeroed");
    assert_eq!(b.action(), Action::Populate);
    b.accept(Event::Populated).expect("populated");
    assert_eq!(b.action(), Action::Measure { len: 1536 });
    b.accept(measured(1, 3, false)).expect("measured");
    assert_eq!(b.action(), Action::WriteTrailer { offset: 1024 });
    b.accept(Event::TrailerWritten).expect("trailer");
    assert_eq!(b.action(), Action::MapExtents { len: 1536 });
    b.accept(mapped(1)).expect("mapped again");
    assert_eq!(b.action(), Action::CheckCompression);
    b.accept(Event::Compression(Some(false))).expect("not compressed");
    assert_eq!(b.action(), Action::Publish { replace: false });
    b.accept(Event::Published).expect("published");
    assert_eq!(b.action(), Action::Finished);
    assert!(b.is_zeroed() && !b.must_write());
}

#[test]
fn without_preallocation_the_whole_file_is_written() {
    let mut p = plan();
    p.zero = ZeroRule::AsAsked { asked: false, from: 512 };
    let mut b = Build::new(p);
    b.accept(Event::Reserved(AllocOutcome::Unsupported)).expect("unsupported");
    assert!(b.must_write() && b.is_zeroed());
    assert_eq!(b.action(), Action::Zero { start: 0, end: 1536 });
}

#[test]
fn steps_that_were_not_asked_for_are_left_out() {
    let mut p = plan();
    p.zero = ZeroRule::Never;
    p.populate = false;
    p.trailer = None;
    p.recheck = false;
    p.written = WrittenRule::Never;
    let mut b = Build::new(p);
    b.accept(Event::Reserved(AllocOutcome::Reserved)).expect("reserved");
    b.accept(mapped(1)).expect("mapped");
    assert_eq!(b.action(), Action::Measure { len: 1536 });
    b.accept(measured(1, 3, true)).expect("measured");
    assert_eq!(b.action(), Action::Publish { replace: false });
}

#[test]
fn fragmentation_stops_a_build_before_anything_is_written() {
    let mut b = Build::new(plan());
    b.accept(Event::Reserved(AllocOutcome::Reserved)).expect("reserved");
    let e = b.accept(mapped(2)).expect_err("fragmented");
    assert!(matches!(e, Error::Fragmented { free_bytes: Some(5), .. }));
    assert_eq!(b.action(), Action::Stopped);
    b.accept(Event::Published).expect("ignored");
    assert_eq!(b.action(), Action::Stopped, "failure never publishes");
}

#[test]
fn only_a_sound_file_goes_on() {
    let e = at_measure(plan()).accept(measured(2, 3, false)).expect_err("split");
    assert!(matches!(e, Error::Fragmented { .. }));
    let e = at_measure(plan()).accept(measured(1, 2, false)).expect_err("sparse");
    assert!(matches!(e, Error::Sparse { allocated: 1024, expected: 1536, .. }));
    let e = at_measure(plan()).accept(measured(1, 3, true)).expect_err("unwritten");
    assert!(matches!(e, Error::Uninitialized { .. }));
    let gone = Event::Measured { map: map(1, false), blocks: Err("gone".to_string()), free_bytes: None };
    let e = at_measure(plan()).accept(gone).expect_err("stat");
    assert_eq!(e.message(), "/d/.iodd-1-0.tmp: gone");
}

#[test]
fn a_compressed_file_is_never_published() {
    let mut b = at_measure(plan());
    b.accept(measured(1, 3, false)).expect("measured");
    b.accept(Event::TrailerWritten).expect("trailer");
    b.accept(mapped(1)).expect("mapped");
    let e = b.accept(Event::Compression(Some(true))).expect_err("compressed");
    assert_eq!(e.message(), "/d/disk.vhd is NTFS-compressed; fixed allocation cannot be guaranteed");
    assert_eq!(b.action(), Action::Stopped);
}

#[test]
fn a_failed_step_is_reported_as_it_came() {
    let mut b = Build::new(plan());
    let cause = Error::Allocation {
        path: "/d/x".to_string(),
        requested: 1536,
        reason: "no space".to_string(),
    };
    let e = b.accept(Event::Failed(cause)).expect_err("failed");
    assert_eq!(e.message(), "could not allocate 1536 bytes for /d/x: no space");
    assert_eq!(b.action(), Action::Stopped);
}

#[test]
fn answers_to_other_questions_change_nothing() {
    let mut b = Build::new(plan());
    b.accept(Event::Published).expect("ignored");
    b.accept(Event::Zeroed).expect("ignored");
    assert_eq!(b.action(), Action::Reserve { len: 1536 });
}
