use iodd::cli::ConvertArgs;
use iodd::cmd::convert::{
    container_note, identify, preflight, qemu_finished, qemu_not_run, qemu_virtual_size,
    reported_size, require_qemu, run, same_file, unsupported_warning, Conversion, RawCopy,
    COPY_CHUNK, QEMU_CONVERT, QEMU_INFO,
};
use iodd::contig::laydown::ZeroRule;
use iodd::footer::{self, Creator, Footer};
use iodd::source::SourceKind;

fn args(out: &str) -> ConvertArgs {
    ConvertArgs {
        source: "/s/src.img".to_string(),
        out: out.to_string(),
        removable: false,
        force: false,
        size: None,
        creator: "iodd".to_string(),
        zero: false,
        keep_on_fail: false,
    }
}

fn conversion(a: &ConvertArgs, source_size: u64) -> Conversion {
    run(a, source_size).1.expect("conversion")
}

#[test]
fn same_file_detects_identity_through_different_paths() {
    assert!(same_file(Some((8, 17)), Some((8, 17))));
    assert!(!same_file(Some((8, 17)), Some((8, 18))), "distinct files must not compare equal");
    assert!(!same_file(Some((8, 17)), Some((9, 17))));
}

#[test]
fn same_file_is_false_when_either_is_missing() {
    assert!(!same_file(None, None));
    assert!(!same_file(Some((1, 2)), None));
    assert!(!same_file(None, Some((1, 2))));
}

#[test]
fn the_footer_describes_the_source_size() {
    let c = conversion(&args("/d/out.vhd"), 2 * 1024 * 1024);
    let raw = c.footer().to_bytes();
    let (parsed, problems) = footer::parse(&raw, Some(2 * 1024 * 1024));
    assert!(problems.is_empty(), "{problems:?}");
    assert_eq!(parsed.virtual_size, 2 * 1024 * 1024);
}

#[test]
fn size_can_enlarge_and_the_tail_is_beyond_the_source() {
    let mut a = args("/d/big.vhd");
    a.size = Some("4M".to_string());
    a.zero = true;
    let c = conversion(&a, 1024 * 1024);
    assert_eq!(c.total_size, 4 * 1024 * 1024 + 512);
    let p = c.plan("t");
    assert_eq!(p.zero, ZeroRule::AsAsked { asked: true, from: 1024 * 1024 });
    assert_eq!(p.trailer, Some(4 * 1024 * 1024));
    assert_eq!(p.total, 4 * 1024 * 1024 + 512);
    assert!(p.populate && p.recheck && !p.replace);
}

#[test]
fn size_smaller_than_the_source_is_refused() {
    let mut a = args("/d/small.vhd");
    a.size = Some("1M".to_string());
    let e = run(&a, 4 * 1024 * 1024).1.expect_err("refused");
    assert_eq!(e.exit_code(), 1);
    assert_eq!(
        e.message(),
        "--size 1048576 is smaller than the source's virtual size 4194304; convert can enlarge but never truncate"
    );
}

#[test]
fn converting_a_file_onto_itself_is_refused() {
    let same = same_file(Some((1, 2)), Some((1, 2)));
    let e = preflight("/d/self.vhd", true, true, same, true).expect_err("refused");
    assert_eq!(e.exit_code(), 1);
    assert_eq!(e.message(), "the source and the target are the same file");
}

#[test]
fn convert_cli_an_existing_target_is_refused_without_force() {
    let e = preflight("/d/out.vhd", false, true, false, true).expect_err("refused");
    assert_eq!(e.exit_code(), 2);
    // An existing target is refused before anything else is looked at.
    assert_eq!(preflight("/d/out.vhd", false, true, true, false).expect_err("refused").exit_code(), 2);
}

#[test]
fn a_missing_target_directory_is_refused() {
    let e = preflight("x/out.vhd", false, false, false, false).expect_err("refused");
    assert_eq!(e.message(), "x is not a directory");
    assert!(preflight("out.vhd", true, true, false, true).is_ok());
}

#[test]
fn convert_cli_removable_defaults_to_rmd() {
    let mut a = args("/d/r");
    a.removable = true;
    assert_eq!(conversion(&a, 64 * 1024).out, "/d/r.rmd");
}

#[test]
fn a_container_source_without_qemu_exits_nine() {
    let mut head = [0u8; 512];
    head[0..4].copy_from_slice(b"QFI\xfb");
    let kind = identify("/s/src.qcow2", false, &head, &[0; 512], 65536).expect("kind");
    assert!(kind.needs_qemu());
    assert_eq!(
        container_note(&kind).as_deref(),
        Some("source is a qcow2 container; using qemu-img")
    );
    let e = require_qemu(false).expect_err("absent");
    assert_eq!(e.exit_code(), 9);
    assert_eq!(
        e.message(),
        "qemu-img: qemu-img is not on PATH; it is required for non-raw sources"
    );
    assert!(require_qemu(true).is_ok());
}

#[test]
fn a_raw_source_needs_no_qemu_at_all() {
    let kind = identify("/s/src.img", false, &[0xC5; 512], &[0xC5; 512], 256 * 1024).expect("kind");
    assert_eq!(kind, SourceKind::Raw);
    assert!(!kind.needs_qemu());
    assert_eq!(container_note(&kind), None);
    assert_eq!(kind.data_len(256 * 1024), 256 * 1024);
}

#[test]
fn a_fixed_vhd_source_is_treated_as_raw() {
    let size = 16 * 1024 * 1024;
    let tail = Footer::new(size, Creator::default(), 1, [1; 16]).to_bytes();
    let kind = identify("/s/fixed.vhd", false, &[0; 512], &tail, size + 512).expect("kind");
    assert!(!kind.needs_qemu());
    // Its footer is left behind, so converting it again keeps its size.
    let c = conversion(&args("/d/again.vhd"), kind.data_len(size + 512));
    assert_eq!(c.virtual_size, size);
    assert_eq!(c.total_size, size + 512);
}

#[test]
fn a_directory_is_no_source() {
    let e = identify("/s", true, &[], &[0; 512], 4096).expect_err("refused");
    assert_eq!(e.message(), "/s is a directory");
}

#[test]
fn an_empty_source_is_refused() {
    let e = run(&args("/d/x.vhd"), 0).1.expect_err("refused");
    assert_eq!(e.message(), "/s/src.img is empty");
    assert_eq!(e.exit_code(), 1);
}

#[test]
fn each_argument_is_checked() {
    let mut a = args("/d/x.vhd");
    a.size = Some("10Q".to_string());
    assert!(run(&a, 512).1.expect_err("unit").message().contains("unrecognized unit"));
    assert_eq!(
        run(&args("/d/x.vhd"), 700).1.expect_err("odd").message(),
        "size 700 is not a multiple of 512 (off by 188)"
    );
    let mut a = args("/d/x.vhd");
    a.creator = "toolong".to_string();
    let (warnings, r) = run(&a, 1024);
    assert!(r.expect_err("tag").message().contains("must be 1 to 4 characters"));
    assert_eq!(warnings.len(), 1);
    assert_eq!(
        run(&args("/d/x.vhd"), u64::MAX - 511).1.expect_err("overflow").message(),
        "size + 512 overflows a 64-bit byte count"
    );
    let (warnings, r) = run(&args("/d/x.rmd"), 1024);
    assert!(r.is_ok());
    assert_eq!(warnings.len(), 2);
    assert!(warnings[0].contains("not a multiple of 1 MiB"));
    assert!(warnings[1].contains("ends in .rmd"));
}

#[test]
fn qemu_flags_keep_the_target_allocated() {
    assert_eq!(QEMU_INFO, ["info", "--output=json"]);
    assert_eq!(QEMU_CONVERT, ["convert", "-n", "-S", "0", "-O", "raw"]);
}

#[test]
fn the_virtual_size_is_read_out_of_the_reply() {
    let reply = b"{\"format\": \"qcow2\", \"virtual-size\": 10485760, \"actual-size\": 200704}";
    assert_eq!(qemu_virtual_size(reply).expect("size"), 10_485_760);
    let none = qemu_virtual_size(b"{\"format\": \"qcow2\"}").expect_err("none");
    assert_eq!(none.message(), "qemu-img: qemu-img info did not report a virtual-size");
    let negative = qemu_virtual_size(b"{\"virtual-size\": -1}").expect_err("none");
    assert_eq!(negative.exit_code(), 9);
    let list = qemu_virtual_size(b"[1, 2]").expect_err("none");
    assert!(list.message().contains("did not report a virtual-size"));
    let bad = qemu_virtual_size(b"not json").expect_err("parse");
    assert!(bad.message().starts_with("qemu-img: could not parse qemu-img info output: "));
    assert_eq!(bad.exit_code(), 9);
    // Bytes that are no UTF-8 are replaced rather than refused.
    let odd = b"{\"filename\": \"\xff\", \"virtual-size\": 512}";
    assert_eq!(qemu_virtual_size(odd).expect("size"), 512);
}

#[test]
fn a_reply_is_judged_by_what_was_read() {
    assert_eq!(reported_size(Ok(Some(7))).expect("size"), 7);
    assert!(reported_size(Ok(None)).is_err());
    assert_eq!(
        reported_size(Err("EOF".to_string())).expect_err("parse").message(),
        "qemu-img: could not parse qemu-img info output: EOF"
    );
}

#[test]
fn qemu_failures_are_explained() {
    assert_eq!(
        qemu_not_run("info", "permission denied").message(),
        "qemu-img: could not run qemu-img info: permission denied"
    );
    assert!(qemu_finished("convert", true, b"noise").is_ok());
    assert_eq!(
        qemu_finished("convert", false, b"  no such file\n").expect_err("failed").message(),
        "qemu-img: qemu-img convert failed: no such file"
    );
}

#[test]
fn conversions_say_what_they_make() {
    let mut a = args("/d/out.vhd");
    a.size = Some("4M".to_string());
    let c = conversion(&a, 1024 * 1024);
    assert_eq!(
        c.announcement(),
        "converting /s/src.img (1 MiB) to /d/out.vhd (4 MiB virtual + 512 footer)"
    );
    let f = Footer::new(c.virtual_size, c.creator, 1, [0; 16]);
    assert_eq!(
        c.report(&f, false),
        vec![
            "  geometry      120/4/17",
            "  contiguous    yes (1 extent)",
            "  zeroed        no",
            "/d/out.vhd created",
        ]
    );
    assert_eq!(
        c.stale_warning(false),
        vec![
            "",
            "iodd: warning: 3 MiB beyond the source was NOT zeroed and holds whatever was previously on those clusters.",
            "iodd: pass --zero if the disk may be seen by anyone else.",
        ]
    );
    assert!(c.stale_warning(true).is_empty());
    assert!(conversion(&args("/d/out.vhd"), 1024 * 1024).stale_warning(false).is_empty());
    assert!(unsupported_warning().ends_with("allocated by writing it"));
}

#[test]
fn a_raw_source_is_copied_byte_for_byte() {
    let source: Vec<u8> = (0..10_000_u32).map(|i| (i % 251) as u8).collect();
    let mut target = vec![0u8; source.len()];
    let mut copy = RawCopy::new(source.len() as u64);
    // Short reads, as a pipe or an interrupted read gives.
    while let Some(want) = copy.next() {
        let at = copy.offset as usize;
        let n = (want as usize).min(777);
        target[at..at + n].copy_from_slice(&source[at..at + n]);
        copy.accept(n as u64);
    }
    assert_eq!(target, source);
    assert_eq!(copy.offset, source.len() as u64);
}

#[test]
fn a_raw_copy_goes_chunk_by_chunk_and_stops_at_the_end() {
    let mut copy = RawCopy::new(2 * COPY_CHUNK + 5);
    assert_eq!(copy.next(), Some(COPY_CHUNK));
    copy.accept(COPY_CHUNK);
    copy.accept(COPY_CHUNK);
    assert_eq!(copy.next(), Some(5));
    copy.accept(0);
    assert_eq!(copy.next(), None, "a source that ends early ends the copy");
    assert_eq!(copy.offset, 2 * COPY_CHUNK);
    assert_eq!(RawCopy::new(0).next(), None);
}
