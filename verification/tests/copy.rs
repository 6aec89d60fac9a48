use iodd::contig::copy::{copy, copy_quiet, fix, Fix, Options, Report, SparseCopy, SparseStep};
use iodd::contig::laydown::{Action, Build, Event, WrittenRule, ZeroRule};
use iodd::contig::{ExtentMap, FileFacts, Run};

const MB: u64 = 1024 * 1024;

fn contiguous(size: u64) -> FileFacts {
    FileFacts {
        size,
        allocated: size,
        map: ExtentMap {
            runs: vec![Run { logical: 0, physical: 8192, length: size }],
            raw_records: 1,
            any_unwritten: false,
        },
        fs_magic: None,
        compressed: None,
    }
}

/// Copies a source of the given data ranges, skipping its holes.
fn sparse_copy(len: u64, data: &[(u64, u64)]) -> (Report, Vec<(u64, u64)>) {
    let mut written = Vec::new();
    let mut c = SparseCopy::new(len);
    loop {
        match c.next() {
            SparseStep::SeekData { from } => {
                let found = data
                    .iter()
                    .find(|(_, end)| *end > from)
                    .map(|(start, _)| (*start).max(from));
                c.data_at(found);
            }
            SparseStep::SeekHole { from } => {
                let found = data.iter().find(|(s, e)| *s <= from && from < *e).map(|(_, e)| *e);
                c.hole_at(found);
            }
            SparseStep::Transfer { offset, len } => {
                written.push((offset, len));
                c.transferred();
            }
            SparseStep::Finished => return (c.report(), written),
        }
    }
}

#[test]
fn a_copy_is_byte_for_byte() {
    let (job, _) = copy_quiet("/d/dst.bin", 40_000, false, false, &Options::default()).expect("copies");
    let r = job.whole();
    assert_eq!(r.bytes, 40_000);
    assert_eq!(r.written, 40_000);
    assert_eq!(r.holes_skipped, 0);
    let p = job.plan("/d/dst.bin", "/d/t");
    assert_eq!(p.total, 40_000);
    assert_eq!(p.zero, ZeroRule::Never);
    assert_eq!(p.trailer, None);
    assert!(p.populate);
}

/// The default writes holes out, or the target only *looks* like the source to
/// the kernel while differing on the device.
#[test]
fn holes_are_written_out_by_default() {
    let job = copy("/d/dense.bin", 6 * MB, false, false, &Options::default()).expect("copies");
    assert!(!job.sparse);
    assert_eq!(job.whole().written, 6 * MB, "every byte written");
    assert_eq!(job.plan("a", "b").written, WrittenRule::Always);
}

#[test]
fn sparse_mode_skips_the_holes_it_finds() {
    let opts = Options { sparse: true, ..Options::default() };
    let job = copy("/d/c.bin", 6 * MB, false, false, &opts).expect("copies");
    assert_eq!(job.plan("a", "b").written, WrittenRule::Never);
    let (r, written) = sparse_copy(6 * MB, &[(0, MB), (5 * MB, 6 * MB)]);
    assert_eq!(r.bytes, 6 * MB);
    assert_eq!(r.holes_skipped, 4 * MB);
    assert_eq!(r.written, 2 * MB);
    assert_eq!(written, vec![(0, MB), (5 * MB, MB)]);
}

#[test]
fn every_byte_is_written_or_skipped() {
    for (len, data) in [
        (0, vec![]),
        (10, vec![]),
        (10, vec![(0, 10)]),
        (10, vec![(3, 4), (7, 10)]),
        (9 * MB, vec![(MB, 8 * MB)]),
        (10, vec![(2, 50)]),
    ] {
        let (r, written) = sparse_copy(len, &data);
        assert_eq!(r.bytes, len);
        assert_eq!(r.written + r.holes_skipped, len);
        assert_eq!(written.iter().map(|(_, n)| n).sum::<u64>(), r.written);
    }
}

#[test]
fn refusing_to_overwrite_without_force() {
    let err = copy_quiet("/d/dst.bin", 5, false, true, &Options::default()).expect_err("refuses");
    assert!(err.message().contains("target exists"), "{err:?}");
}

#[test]
fn force_replaces_the_target() {
    let opts = Options { force: true, ..Options::default() };
    let job = copy("/d/dst.bin", 12, false, true, &opts).expect("copies");
    assert!(job.replace);
    assert!(job.plan("a", "b").replace);
}

#[test]
fn copying_a_file_onto_itself_is_refused() {
    let opts = Options { force: true, ..Options::default() };
    let err = copy_quiet("/d/src.bin", 4, true, true, &opts).expect_err("refuses");
    assert!(err.message().contains("same file"), "{err:?}");
    assert_eq!(
        err.message(),
        "could not allocate 4 bytes for /d/src.bin: the source and the target are the same file"
    );
}

#[test]
fn an_empty_source_copies_to_an_empty_target() {
    let job = copy("/d/dst.bin", 0, false, false, &Options::default()).expect("copies");
    assert_eq!(job.whole(), Report { bytes: 0, written: 0, holes_skipped: 0 });
    let mut b = Build::new(job.plan("/d/dst.bin", "/d/t"));
    assert_eq!(b.action(), Action::Publish { replace: false }, "nothing to reserve or check");
    b.accept(Event::Published).expect("published");
    assert_eq!(b.action(), Action::Finished);
}

#[test]
fn fix_on_an_already_contiguous_file_changes_nothing() {
    match fix(&contiguous(2 * MB), &Options::default()) {
        Fix::AlreadyGood(r) => {
            assert_eq!(r.written, 0, "nothing rewritten");
            assert_eq!(r.bytes, 2 * MB);
        }
        other => panic!("{other:?}"),
    }
}

#[test]
fn fix_preserves_contents_and_the_name() {
    // Each of the three things that are not good enough leads to a copy of the
    // whole file over the original.
    let mut unwritten = contiguous(6 * MB);
    unwritten.map.any_unwritten = true;
    let mut sparse = contiguous(6 * MB);
    sparse.allocated = 2 * MB;
    let mut split = contiguous(6 * MB);
    split.map.runs.push(Run { logical: 1, physical: 1, length: 1 });
    for facts in [unwritten, sparse, split] {
        match fix(&facts, &Options::default()) {
            Fix::Replace(job) => {
                assert_eq!(job.len, 6 * MB);
                assert!(job.replace && !job.sparse && !job.keep_on_fail);
            }
            other => panic!("{other:?}"),
        }
    }
}
