use iodd::contig::extents::{
    self, any_unwritten, merge_runs, query_failed, untrusted_flags, Extent, ExtentScan, FIEMAP_EXTENT_DELALLOC, FIEMAP_EXTENT_LAST,
    FIEMAP_EXTENT_MERGED, FIEMAP_EXTENT_UNKNOWN, FIEMAP_EXTENT_UNWRITTEN,
};

fn ext(logical: u64, physical: u64, length: u64, flags: u32) -> Extent {
    Extent {
        logical,
        physical,
        length,
        flags,
    }
}

#[test]
fn empty_input_yields_no_runs() {
    assert!(merge_runs(&[]).is_empty());
}

#[test]
fn adjacent_records_fold_into_one_run() {
    let e = [ext(0, 1000, 100, 0), ext(100, 1100, 100, 0)];
    let runs = merge_runs(&e);
    assert_eq!(runs.len(), 1);
    assert_eq!(runs[0].length, 200);
    assert_eq!(runs[0].physical, 1000);
}

#[test]
fn a_physical_gap_splits_runs() {
    let e = [ext(0, 1000, 100, 0), ext(100, 5000, 100, 0)];
    assert_eq!(merge_runs(&e).len(), 2);
}

/// The case a physical-only merge gets wrong: the physical offsets abut,
/// but there is a hole in the logical space, so this is not one run.
#[test]
fn a_logical_gap_splits_even_when_physical_abuts() {
    let e = [ext(0, 1000, 100, 0), ext(999_999, 1100, 100, 0)];
    assert_eq!(merge_runs(&e).len(), 2);
}

#[test]
fn zero_length_records_are_dropped() {
    let e = [ext(0, 1000, 100, 0), ext(100, 1100, 0, FIEMAP_EXTENT_LAST)];
    let runs = merge_runs(&e);
    assert_eq!(runs.len(), 1);
    assert_eq!(runs[0].length, 100);
}

#[test]
fn out_of_order_input_is_sorted_first() {
    let e = [ext(100, 1100, 100, 0), ext(0, 1000, 100, 0)];
    let runs = merge_runs(&e);
    assert_eq!(runs.len(), 1);
    assert_eq!(runs[0].logical, 0);
}

/// Measured on the physical device: the working 40 GiB .rmd, queried with
/// fm_length bounded to the file size, returns exactly one record.
#[test]
fn device_rmd_bounded_query_is_one_run() {
    let e = [ext(
        0,
        203_056_373_760,
        42_949_673_472,
        FIEMAP_EXTENT_LAST | FIEMAP_EXTENT_MERGED,
    )];
    let runs = merge_runs(&e);
    assert_eq!(runs.len(), 1);
    assert_eq!(runs[0].length, 42_949_673_472);
}

/// The same file queried past EOF, as filefrag does. The trailing record is
/// cluster slack: 3584 bytes beyond end-of-file, flagged UNWRITTEN. It
/// happens to abut physically, so merging alone still yields one run — but
/// the run then overruns the file size, and any_unwritten goes true, which
/// would make the post-write check in the allocation sequence fail forever.
/// This is why the query is bounded.
#[test]
fn unbounded_query_picks_up_cluster_slack() {
    let file_size = 42_949_673_472_u64;
    let e = [
        ext(0, 203_056_373_760, file_size, FIEMAP_EXTENT_MERGED),
        ext(
            file_size,
            203_056_373_760 + file_size,
            3584,
            FIEMAP_EXTENT_LAST | FIEMAP_EXTENT_UNWRITTEN | FIEMAP_EXTENT_MERGED,
        ),
    ];
    let runs = merge_runs(&e);
    assert_eq!(runs.len(), 1, "the slack abuts, so it merges");
    assert!(
        runs[0].length > file_size,
        "the merged run overruns the file, corrupting diagnostics"
    );
    assert!(
        any_unwritten(&e),
        "and any_unwritten goes true, which would fail every create"
    );
}

/// Measured: a 1 GiB fallocate on a filled-then-emptied 4 GiB volume came
/// back in two runs, the first ending exactly on the MFT zone boundary.
/// This is the refusal case.
#[test]
fn measured_two_run_fragmentation_is_detected() {
    let e = [
        ext(0, 1_867_776, 535_015_424, 0),
        ext(535_015_424, 2_168_954_880, 538_726_400, FIEMAP_EXTENT_LAST),
    ];
    let runs = merge_runs(&e);
    assert_eq!(runs.len(), 2);
    assert_eq!(
        runs[0].physical + runs[0].length,
        536_883_200,
        "run 0 ends on the MFT zone boundary: 131075 clusters * 4096"
    );
}

/// Measured on deliberately fragmented free space.
#[test]
fn measured_five_run_fragmentation_is_detected() {
    let e = [
        ext(0, 190_513_152, 78_528_512, 0),
        ext(78_528_512, 694_775_808, 253_706_240, 0),
        ext(332_234_752, 1_202_188_288, 253_706_240, 0),
        ext(585_940_992, 1_709_600_768, 253_706_240, 0),
        ext(839_647_232, 2_422_661_120, 234_094_592, FIEMAP_EXTENT_LAST),
    ];
    assert_eq!(merge_runs(&e).len(), 5);
}

#[test]
fn untrusted_flags_are_reported() {
    assert_eq!(untrusted_flags(&[ext(0, 0, 1, 0)]), 0);
    assert_eq!(
        untrusted_flags(&[ext(0, 0, 1, FIEMAP_EXTENT_UNKNOWN)]),
        FIEMAP_EXTENT_UNKNOWN
    );
    assert_eq!(
        untrusted_flags(&[ext(0, 0, 1, FIEMAP_EXTENT_DELALLOC)]),
        FIEMAP_EXTENT_DELALLOC
    );
    // UNWRITTEN is a fact about the data, not a reason to distrust the map.
    assert_eq!(untrusted_flags(&[ext(0, 0, 1, FIEMAP_EXTENT_UNWRITTEN)]), 0);
}

#[test]
fn any_unwritten_detects_uninitialized_extents() {
    assert!(!any_unwritten(&[ext(0, 0, 1, 0)]));
    assert!(any_unwritten(&[
        ext(0, 0, 1, 0),
        ext(1, 1, 1, FIEMAP_EXTENT_UNWRITTEN)
    ]));
}

#[test]
fn saturating_arithmetic_survives_absurd_records() {
    // A hostile or buggy driver must not panic us.
    let e = [ext(0, u64::MAX, u64::MAX, 0), ext(u64::MAX, 0, 1, 0)];
    let _ = merge_runs(&e);
}

#[test]
fn a_zero_length_file_maps_to_nothing() {
    assert!(ExtentScan::new(0).request().is_none());
    let m = extents::map(&[], "/d/empty.bin").expect("map");
    assert!(m.runs.is_empty());
    assert!(!m.any_unwritten);
    assert!(!m.is_contiguous());
}

#[test]
fn a_contiguous_file_reports_one_run() {
    let m = extents::map(&[ext(0, 4096, 100, 0), ext(100, 4196, 50, 0)], "/d/c").expect("map");
    assert!(m.is_contiguous());
    assert_eq!(m.raw_records, 2);
}

#[test]
fn runs_cover_the_file_and_never_overrun_it() {
    let e = [ext(0, 10, 5, 0), ext(5, 15, 5, 0), ext(10, 99, 4, 0), ext(20, 103, 1, 0)];
    let runs = merge_runs(&e);
    assert_eq!(runs.len(), 3);
    assert_eq!(runs.iter().map(|r| r.length).sum::<u64>(), 15);
    assert!(runs.windows(2).all(|w| w[0].logical + w[0].length <= w[1].logical));
}

/// The records add up to more than 64 bits can count, yet each of them ends
/// where 64 bits reach.
#[test]
fn lengths_survive_where_every_end_fits() {
    let half = 1u64 << 63;
    let e = [ext(0, half, half, 0), ext(half, 0, half - 1, 0), ext(0, 0, half, 0)];
    let runs = merge_runs(&e);
    let merged: u128 = runs.iter().map(|r| u128::from(r.length)).sum();
    let reported: u128 = e.iter().map(|r| u128::from(r.length)).sum();
    assert!(reported > u128::from(u64::MAX));
    assert_eq!(merged, reported);
    assert!(runs.iter().all(|r| r.length > 0));
}

#[test]
fn merging_moves_no_byte() {
    let e = [
        ext(10, 99, 4, 0),
        ext(5, 15, 5, 0),
        ext(0, 10, 5, 0),
        ext(14, 103, 0, FIEMAP_EXTENT_LAST),
        ext(20, 103, 2, 0),
    ];
    let runs = merge_runs(&e);
    for logical in 0..30u64 {
        let reported = e
            .iter()
            .find(|r| r.logical <= logical && logical < r.logical + r.length)
            .map(|r| r.physical + (logical - r.logical));
        let merged = runs
            .iter()
            .find(|r| r.logical <= logical && logical < r.logical + r.length)
            .map(|r| r.physical + (logical - r.logical));
        assert_eq!(merged, reported, "byte {logical}");
    }
}

#[test]
fn an_untrusted_map_is_not_believed() {
    let e = extents::map(&[ext(0, 0, 1, FIEMAP_EXTENT_UNKNOWN)], "/d/f").expect_err("untrusted");
    assert_eq!(
        e.message(),
        "could not verify contiguity of /d/f: extent map carries untrusted flags (0x0002)"
    );
    assert_eq!(
        query_failed("/d/f", "not supported").message(),
        "could not verify contiguity of /d/f: FS_IOC_FIEMAP failed: not supported"
    );
}

#[test]
fn the_order_of_a_report_does_not_matter() {
    let mut e = [ext(0, 10, 5, 0), ext(5, 15, 5, 0), ext(10, 99, 4, 0)];
    let runs = merge_runs(&e);
    e.reverse();
    assert_eq!(merge_runs(&e), runs);
    let marker = ext(5, 0, 0, FIEMAP_EXTENT_LAST);
    assert_eq!(merge_runs(&[e[0], marker, e[1], e[2]]), runs);
    assert_eq!(merge_runs(&[marker, e[2], e[0], e[1]]), runs);
}

#[test]
fn a_scan_asks_until_the_file_is_covered() {
    let mut scan = ExtentScan::new(1000);
    let q = scan.request().expect("first");
    assert_eq!((q.start, q.length), (0, 1000));
    scan.accept(2, &[ext(0, 1, 100, 0), ext(100, 900, 200, 0)]);
    let q = scan.request().expect("second");
    assert_eq!((q.start, q.length), (300, 700));
    scan.accept(1, &[ext(300, 5000, 10, FIEMAP_EXTENT_LAST)]);
    assert!(scan.request().is_none());
    assert_eq!(scan.records().len(), 3);
    // A driver that makes no headway, or has nothing to say, ends the scan.
    let mut stuck = ExtentScan::new(1000);
    stuck.accept(1, &[ext(0, 1, 0, 0)]);
    assert!(stuck.request().is_none());
    let mut silent = ExtentScan::new(1000);
    silent.accept(0, &[]);
    assert!(silent.request().is_none());
    assert!(silent.records().is_empty());
}
