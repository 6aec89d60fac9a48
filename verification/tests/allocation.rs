use iodd::contig::allocation::{
    after_temp_failure, allocate, cleanup, fits_contiguously, parent_dir, probe_largest_contiguous,
    probe_path, rename_noreplace, require_contiguous, temp_path, verify_written, zero_region,
    AllocOutcome, Cleanup, Errno, NoProgress, OsFailure, Progress, TtyProgress, CHUNK,
    TEMP_ATTEMPTS,
};
use iodd::contig::{Error, ExtentMap, Run};

fn one_run(len: u64) -> ExtentMap {
    ExtentMap {
        runs: vec![Run { logical: 0, physical: 4096, length: len }],
        raw_records: 1,
        any_unwritten: false,
    }
}

fn two_runs() -> ExtentMap {
    ExtentMap {
        runs: vec![
            Run { logical: 0, physical: 4096, length: 512 },
            Run { logical: 512, physical: 9000, length: 512 },
        ],
        raw_records: 2,
        any_unwritten: false,
    }
}

fn failure(errno: Errno) -> OsFailure {
    OsFailure { errno, message: "said so".to_string() }
}

#[test]
fn temp_target_lives_beside_its_target_and_is_hidden() {
    let temp = temp_path("/d/disk.vhd", 42, 0);
    assert_eq!(temp, "/d/.iodd-42-0.tmp");
    assert_eq!(parent_dir(&temp), parent_dir("/d/disk.vhd"), "must share a directory");
    assert_eq!(temp_path("disk.vhd", 42, 1), "./.iodd-42-1.tmp");
    assert_eq!(temp_path("/disk.vhd", 42, 1), "/.iodd-42-1.tmp");
}

#[test]
fn dropping_without_finalize_removes_the_temp_file() {
    assert_eq!(cleanup(false, false), Cleanup::Remove);
}

#[test]
fn keep_on_fail_leaves_the_temp_file_but_never_publishes() {
    assert_eq!(cleanup(false, true), Cleanup::Keep);
    assert_eq!(cleanup(true, true), Cleanup::Nothing);
    assert_eq!(cleanup(true, false), Cleanup::Nothing);
}

#[test]
fn finalize_without_replace_refuses_an_existing_target() {
    let e = rename_noreplace(failure(Errno::Other), true, "/d/disk.vhd").expect_err("refused");
    assert_eq!(e.message(), "/d/disk.vhd: said so");
    let e = rename_noreplace(failure(Errno::NoSuchCall), true, "/d/x").expect_err("refused");
    assert_eq!(e.message(), "/d/x: target appeared while the file was being built");
    assert!(rename_noreplace(failure(Errno::NotSupported), false, "/d/x").is_ok());
}

#[test]
fn concurrent_temp_targets_do_not_collide() {
    let next = after_temp_failure("/d/disk.vhd", 7, 0, true, "exists".to_string()).expect("next");
    assert_eq!(next, 1);
    assert_ne!(temp_path("/d/disk.vhd", 7, 0), temp_path("/d/disk.vhd", 7, next));
    let e = after_temp_failure("/d/disk.vhd", 7, TEMP_ATTEMPTS - 1, true, String::new())
        .expect_err("exhausted");
    assert_eq!(e.message(), "/d: could not find an unused temporary filename");
    let e = after_temp_failure("/d/disk.vhd", 7, 3, false, "denied".to_string()).expect_err("denied");
    assert_eq!(e.message(), "/d/.iodd-7-3.tmp: denied");
}

#[test]
fn allocate_reserves_and_sets_the_length() {
    let outcome = allocate(1024 * 1024, None, "/d/a.bin").expect("allocate");
    assert_eq!(outcome, AllocOutcome::Reserved);
}

#[test]
fn a_filesystem_without_preallocation_is_not_fatal() {
    for errno in [Errno::NotSupported, Errno::NoSuchCall] {
        let outcome = allocate(512, Some(failure(errno)), "/d/a").expect("fallback");
        assert_eq!(outcome, AllocOutcome::Unsupported);
    }
    let e = allocate(512, Some(failure(Errno::Other)), "/d/a").expect_err("failed");
    assert_eq!(e.message(), "could not allocate 512 bytes for /d/a: said so");
    assert_eq!(
        allocate(0, Some(failure(Errno::Other)), "/d/a").expect("empty"),
        AllocOutcome::Reserved
    );
}

#[test]
fn zero_region_writes_actual_zeros() {
    let mut file = vec![0xAB_u8; 128 * 1024];
    let mut chunks = zero_region(0, file.len() as u64);
    while let Some(c) = chunks.next() {
        file[c.offset as usize..(c.offset + c.len) as usize].fill(0);
    }
    assert!(file.iter().all(|&b| b == 0));
}

#[test]
fn zero_region_respects_its_bounds() {
    let mut file = vec![0xAB_u8; 8192];
    let mut chunks = zero_region(4096, 8192);
    while let Some(c) = chunks.next() {
        file[c.offset as usize..(c.offset + c.len) as usize].fill(0);
    }
    assert!(file[..4096].iter().all(|&b| b == 0xAB), "before start must survive");
    assert!(file[4096..].iter().all(|&b| b == 0), "the range must be zeroed");
}

#[test]
fn zero_region_is_a_no_op_for_an_empty_range() {
    assert!(zero_region(100, 100).next().is_none());
    assert!(zero_region(101, 100).next().is_none());
}

#[test]
fn chunks_tile_a_range() {
    let mut chunks = zero_region(3, 3 + 2 * CHUNK + 7);
    let mut at = 3;
    let mut lens = Vec::new();
    while let Some(c) = chunks.next() {
        assert_eq!(c.offset, at);
        at += c.len;
        lens.push(c.len);
    }
    assert_eq!(lens, vec![CHUNK, CHUNK, 7]);
}

#[test]
fn verify_written_accepts_a_freshly_zeroed_file() {
    let len = 256 * 1024;
    assert!(verify_written(one_run(len), Ok(512), len, "/d/v.bin", true, None).is_ok());
}

#[test]
fn verify_written_says_what_is_wrong() {
    let len = 1024;
    let e = verify_written(two_runs(), Ok(2), len, "/d/v", true, Some(9)).expect_err("split");
    assert!(matches!(e, Error::Fragmented { free_bytes: Some(9), .. }));
    let e = verify_written(one_run(len), Ok(1), len, "/d/v", true, None).expect_err("sparse");
    assert!(matches!(e, Error::Sparse { allocated: 512, expected: 1024, .. }));
    let e = verify_written(one_run(len), Err("gone".to_string()), len, "/d/v", true, None)
        .expect_err("stat");
    assert_eq!(e.message(), "/d/v: gone");
    let mut map = one_run(len);
    map.any_unwritten = true;
    let e = verify_written(map.clone(), Ok(2), len, "/d/v", true, None).expect_err("unwritten");
    assert!(matches!(e, Error::Uninitialized { .. }));
    assert!(verify_written(map, Ok(2), len, "/d/v", false, None).is_ok());
}

#[test]
fn one_run_is_contiguous_and_two_are_not() {
    assert!(require_contiguous(one_run(9), "/d/v", None).is_ok());
    let e = require_contiguous(two_runs(), "/d/v", None).expect_err("split");
    assert_eq!(e.message(), "/d/v occupies 2 extents, not 1");
    assert!(fits_contiguously(Some(AllocOutcome::Reserved), Some(&one_run(9))));
    assert!(!fits_contiguously(Some(AllocOutcome::Reserved), Some(&two_runs())));
    assert!(!fits_contiguously(Some(AllocOutcome::Unsupported), Some(&one_run(9))));
    assert!(!fits_contiguously(None, Some(&one_run(9))));
    assert!(!fits_contiguously(Some(AllocOutcome::Reserved), None));
}

#[test]
fn probing_finds_something_on_a_normal_filesystem() {
    const MB: u64 = 1024 * 1024;
    let got = probe_largest_contiguous(|n| n <= 11 * MB + 5, 16 * MB, MB).expect("something");
    assert!(got >= MB, "should find at least the granularity");
    assert!(got <= 16 * MB, "must not exceed the upper bound");
    assert_eq!(got % MB, 0, "must be granularity-aligned");
    assert_eq!(got, 11 * MB);
}

#[test]
fn probing_with_a_zero_bound_returns_nothing() {
    assert_eq!(probe_largest_contiguous(|_| true, 0, 1024 * 1024), None);
}

#[test]
fn probing_finds_the_largest_that_fits() {
    for fits in 0..40_u64 {
        let got = probe_largest_contiguous(|n| n <= fits * 512, 20 * 512, 1);
        let want = fits.min(20) * 512;
        assert_eq!(got, if want == 0 { None } else { Some(want) }, "up to {fits} sectors fit");
    }
    assert_eq!(probe_path("/d", 9), "/d/.iodd-probe-9.tmp");
}

#[test]
fn progress_reports_monotonically_to_completion() {
    struct Rec(Vec<u64>);
    impl Progress for Rec {
        fn update(&mut self, written: u64, _total: u64) {
            self.0.push(written);
        }
    }
    let len = CHUNK * 2 + 7;
    let mut rec = Rec(Vec::new());
    let mut chunks = zero_region(0, len);
    while let Some(c) = chunks.next() {
        rec.update(c.offset + c.len, len);
    }
    rec.finish();
    assert!(rec.0.windows(2).all(|w| w[0] < w[1]), "must be monotonic");
    assert_eq!(rec.0.last().copied(), Some(len), "must reach the total");
    NoProgress.update(1, 2);
}

#[test]
fn a_meter_is_drawn_now_and_again() {
    let mut t = TtyProgress::new("zeroing".to_string(), 1000);
    assert_eq!(t.update(1499, 10, 200), None);
    assert_eq!(t.update(1500, 50, 200).as_deref(), Some("zeroing: 25% (50/200 bytes)"));
    assert_eq!(t.update(1600, 60, 200), None);
    assert_eq!(t.update(2100, 0, 0).as_deref(), Some("zeroing: 100% (0/0 bytes)"));
    assert!(t.finish().starts_with("zeroing: done "));
}
