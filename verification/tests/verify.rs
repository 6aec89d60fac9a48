use iodd::cli::VerifyArgs;
use iodd::cmd::verify::{run, Verification};
use iodd::contig::{ExtentMap, FileFacts, Run};
use iodd::footer::{self, Creator, Footer};

const TS: u32 = 0x31FD_0E4B;
const ID: [u8; 16] = [0x5A; 16];

fn args(path: &str, strict: bool) -> VerifyArgs {
    VerifyArgs {
        path: path.to_string(),
        strict,
    }
}

fn facts(size: u64) -> FileFacts {
    FileFacts {
        size,
        allocated: size,
        map: ExtentMap {
            runs: vec![Run { logical: 0, physical: 4096, length: size }],
            raw_records: 1,
            any_unwritten: false,
        },
        fs_magic: None,
        compressed: None,
    }
}

fn tail(virtual_size: u64) -> [u8; 512] {
    Footer::new(virtual_size, Creator::default(), TS, ID).to_bytes()
}

fn code(v: Verification) -> i32 {
    match v.outcome {
        Ok(code) => i32::from(code),
        Err(e) => e.exit_code(),
    }
}

fn says(lines: &[String], what: &str) -> bool {
    lines.iter().any(|l| l.contains(what))
}

#[test]
fn verify_accepts_a_well_formed_fixed_vhd() {
    let size = 1024 * 1024;
    let v = run(&args("good.vhd", false), facts(size + 512), &tail(size), None);
    assert!(says(&v.lines, "footer        valid"));
    assert!(says(&v.lines, "virtual size  1048576"));
    assert!(v.warnings.is_empty());
    assert_eq!(code(v), 0);
    assert_eq!(code(run(&args("good.vhd", true), facts(size + 512), &tail(size), None)), 0);
}

#[test]
fn verify_reports_the_geometry_it_generated() {
    const SIZE: u64 = 8 * 1024 * 1024;
    let g = footer::chs(SIZE / 512);
    let expected = format!(
        "geometry      {}/{}/{}",
        g.cylinders, g.heads, g.sectors_per_track
    );
    let v = run(&args("geo.vhd", false), facts(SIZE + 512), &tail(SIZE), None);
    assert!(says(&v.lines, &expected), "{:?}", v.lines);
}

#[test]
fn footer_problems_warn_by_default_and_fail_under_strict() {
    let size = 1024 * 1024;
    let mut t = tail(size);
    t[0..8].copy_from_slice(b"EFI PART");
    let v = run(&args("clobbered.vhd", false), facts(size + 512), &t, None);
    assert!(says(&v.lines, "GPT backup header"));
    assert!(says(&v.warnings, "do not prevent mounting"));
    assert_eq!(code(v), 0);
    let v = run(&args("clobbered.vhd", true), facts(size + 512), &t, None);
    assert_eq!(code(v), 7);
}

#[test]
fn a_footerless_file_still_passes_the_hard_gates() {
    let t = [0xAA; 512];
    assert_eq!(code(run(&args("raw.rmd", false), facts(512 * 1024), &t, None)), 0);
    assert_eq!(code(run(&args("raw.rmd", true), facts(512 * 1024), &t, None)), 7);
}

#[test]
fn verify_detects_a_dynamic_vhd() {
    let size = 1024 * 1024;
    let mut t = tail(size);
    t[60..64].copy_from_slice(&3u32.to_be_bytes());
    let v = run(&args("dynamic.vhd", false), facts(size + 512), &t, None);
    assert!(says(&v.lines, "dynamic"));
    assert_eq!(code(v), 0);
}

#[test]
fn verify_detects_a_vhdx_under_a_vhd_name() {
    let v = run(&args("container.vhd", true), facts(1024 * 1024), &[0; 512], None);
    assert_eq!(code(v), 7);
}

#[test]
fn verify_handles_a_file_too_small_for_a_footer() {
    let v = run(&args("tiny.vhd", false), facts(5), &[0; 512], None);
    assert!(says(&v.lines, "too small"));
    assert_eq!(code(v), 0);
}

#[test]
fn verify_accepts_a_fully_allocated_file() {
    assert_eq!(code(run(&args("good.bin", false), facts(512 * 1024), &[0; 512], None)), 0);
}

#[test]
fn verify_rejects_a_sparse_file_with_or_without_strict() {
    for strict in [false, true] {
        let mut f = facts(8 * 1024 * 1024);
        f.allocated = 0;
        f.map.runs.clear();
        let v = run(&args("sparse.bin", strict), f, &[0; 512], None);
        assert_eq!(code(v), 5);
    }
}

#[test]
fn strict_does_not_change_the_hard_gates() {
    for strict in [false, true] {
        let mut f = facts(8 * 1024 * 1024);
        f.allocated = 4096;
        assert_eq!(code(run(&args("sparse.vhd", strict), f, &[0; 512], None)), 5);
        let mut f = facts(8 * 1024 * 1024);
        f.map.runs.push(Run { logical: 1, physical: 2, length: 3 });
        let v = run(&args("split.vhd", strict), f, &[0; 512], Some(99));
        match &v.outcome {
            Err(iodd::error::Error::Fragmented { runs, free_bytes, .. }) => {
                assert_eq!(runs.len(), 2);
                assert_eq!(*free_bytes, Some(99));
            }
            other => panic!("{other:?}"),
        }
        assert_eq!(code(v), 4);
    }
}

/// What `create` produces by default, `verify` accepts; `--strict` still
/// surfaces that it was never written.
#[test]
fn what_create_makes_by_default_verify_accepts() {
    let size = 16 * 1024 * 1024;
    let mut f = facts(size + 512);
    f.map.any_unwritten = true;
    let v = run(&args("d.vhd", false), f.clone(), &tail(size), None);
    assert!(says(&v.warnings, "uninitialized extents"));
    assert_eq!(code(v), 0);
    let v = run(&args("d.vhd", true), f, &tail(size), None);
    match &v.outcome {
        Err(e) => assert!(e.message().contains("uninitialized extents")),
        Ok(_) => panic!("strict must fail"),
    }
    assert_eq!(code(v), 7);
}

#[test]
fn zero_produces_a_file_that_passes_strict() {
    let size = 16 * 1024 * 1024;
    assert_eq!(code(run(&args("z.vhd", true), facts(size + 512), &tail(size), None)), 0);
}

#[test]
fn an_empty_file_has_nothing_to_gate() {
    let mut f = facts(0);
    f.map.runs.clear();
    assert_eq!(code(run(&args("empty", false), f, &[0; 512], None)), 0);
}

#[test]
fn the_report_lists_every_finding() {
    let size = 1024 * 1024;
    let mut t = tail(size);
    t[60..64].copy_from_slice(&3u32.to_be_bytes());
    let mut f = facts(size + 512);
    f.map.any_unwritten = true;
    let v = run(&args("x.vhd", true), f, &t, None);
    let footer_at = v.lines.iter().position(|l| l.starts_with("  footer")).expect("footer line");
    assert_eq!(v.lines[footer_at], "  footer        2 problem(s)");
    assert!(v.lines[footer_at + 1].starts_with("    - disk type is 3"));
    assert!(v.lines[footer_at + 2].starts_with("    - checksum mismatch"));
    assert_eq!(v.lines[footer_at + 3], "  virtual size  1048576");
    assert_eq!(v.warnings.len(), 2);
    match v.outcome {
        Err(e) => assert_eq!(e.message().matches("; ").count(), 3),
        Ok(_) => panic!("strict must fail"),
    }
}
