use iodd::cli::CreateArgs;
use iodd::cmd::create::{
    extension_warning, preflight, report_probe, report_refusal, resolve_extension, run,
    stale_warning, unsupported_warning, Order, Site,
};
use iodd::contig::laydown::{WrittenRule, ZeroRule};
use iodd::contig::Run;
use iodd::error::Error;
use iodd::footer::{self, Creator};

fn args(size: &str, out: &str) -> CreateArgs {
    CreateArgs {
        size: size.to_string(),
        out: out.to_string(),
        removable: false,
        force: false,
        creator: "iodd".to_string(),
        zero: false,
        keep_on_fail: false,
    }
}

fn order(a: &CreateArgs) -> Order {
    run(a).1.expect("order")
}

const CLEAR: Site = Site {
    target_exists: false,
    dir_is_dir: true,
    dir_compressed: None,
};

#[test]
fn extension_defaults_to_vhd_or_rmd() {
    assert_eq!(resolve_extension("/a/disk", false), "/a/disk.vhd");
    assert_eq!(resolve_extension("/a/disk", true), "/a/disk.rmd");
}

#[test]
fn an_explicit_extension_is_honoured() {
    // Including a contradictory one: the operator was specific, so we warn
    // rather than override.
    assert_eq!(resolve_extension("/a/disk.rmd", false), "/a/disk.rmd");
    assert_eq!(resolve_extension("/a/disk.vhd", true), "/a/disk.vhd");
}

#[test]
fn other_recognized_extensions_are_left_alone() {
    // IODD reads .vmdk as fixed-VHD bytes under another name.
    assert_eq!(resolve_extension("/a/disk.vmdk", false), "/a/disk.vmdk");
}

#[test]
fn an_unrecognized_suffix_is_treated_as_part_of_the_name() {
    assert_eq!(resolve_extension("/a/Win11 23H2.v2", false), "/a/Win11 23H2.v2.vhd");
    assert_eq!(resolve_extension("/a/backup.2026.01", true), "/a/backup.2026.01.rmd");
}

#[test]
fn mode_tags_in_filenames_survive() {
    // "&D" and "&DW" are IODD dual-mode tags and live in the filename.
    assert_eq!(resolve_extension("/a/disk&DW", false), "/a/disk&DW.vhd");
}

#[test]
fn resolving_twice_changes_nothing() {
    for out in ["/a/disk", "/a/Win11 23H2.v2", "x", "/a/.hidden", "/a/D.RMD", ".", "..", "/a/..", "x.vhd/"] {
        let once = resolve_extension(out, true);
        assert!(once.starts_with(out));
        assert_eq!(resolve_extension(&once, false), once);
    }
}

#[test]
fn a_contradictory_extension_is_warned_of() {
    assert_eq!(
        extension_warning("/a/disk.RMD", false).as_deref(),
        Some("iodd: warning: --out ends in .rmd but --removable was not given; honouring the extension you gave")
    );
    assert_eq!(
        extension_warning("/a/disk.vhd", true).as_deref(),
        Some("iodd: warning: --out ends in .vhd but --removable was given; honouring the extension you gave")
    );
    assert_eq!(extension_warning("/a/disk.rmd", true), None);
    assert_eq!(extension_warning("/a/disk.vmdk", true), None);
    assert_eq!(extension_warning("/a/disk", true), None);
}

#[test]
fn create_makes_a_file_of_virtual_size_plus_512() {
    let o = order(&args("16M", "/d/d.vhd"));
    assert_eq!(o.total_size, 16 * 1024 * 1024 + 512);
    assert_eq!(o.out, "/d/d.vhd");
    let p = o.plan("/d/.iodd-1-0.tmp");
    assert_eq!(p.total, 16 * 1024 * 1024 + 512);
    assert_eq!(p.trailer, Some(16 * 1024 * 1024));
    assert_eq!(p.target, "/d/d.vhd");
    assert_eq!(p.temp, "/d/.iodd-1-0.tmp");
    assert_eq!(p.zero, ZeroRule::AsAsked { asked: false, from: 0 });
    assert_eq!(p.written, WrittenRule::WhenZeroed);
    assert!(!p.populate && p.recheck && !p.replace);
}

#[test]
fn the_footer_it_writes_parses_back() {
    let o = order(&args("16M", "/d/d.vhd"));
    let raw = o.footer().expect("footer").to_bytes();
    let (parsed, problems) = footer::parse(&raw, Some(16 * 1024 * 1024));
    assert!(problems.is_empty(), "{problems:?}");
    assert_eq!(parsed.virtual_size, 16 * 1024 * 1024);
    assert_eq!(parsed.disk_type, footer::DISK_TYPE_FIXED);
    assert_eq!(parsed.data_offset, footer::DATA_OFFSET_FIXED);
    assert_eq!(parsed.geometry, footer::chs(16 * 1024 * 1024 / 512));
}

#[test]
fn create_cli_removable_defaults_to_rmd() {
    let mut a = args("16M", "/d/r");
    a.removable = true;
    assert_eq!(order(&a).out, "/d/r.rmd");
}

#[test]
fn removable_is_a_raw_image_and_fixed_is_a_vhd() {
    let vhd = order(&args("16M", "/d/a.vhd"));
    let mut a = args("16M", "/d/b.rmd");
    a.removable = true;
    let rmd = order(&a);
    assert!(rmd.announcement().contains("no footer"));

    assert_eq!(vhd.total_size, 16 * 1024 * 1024 + 512, "a .vhd carries a footer");
    assert_eq!(rmd.total_size, 16 * 1024 * 1024, "a .rmd does not");
    // The point of the difference: both give the guest exactly 16 MiB.
    assert_eq!(vhd.total_size - 512, rmd.total_size, "guest-visible sizes must match");
    assert!(rmd.footer().is_none());
    assert_eq!(rmd.plan("t").trailer, None);
}

#[test]
fn an_explicit_rmd_extension_also_means_raw() {
    let o = order(&args("16M", "/d/explicit.rmd"));
    assert_eq!(o.total_size, 16 * 1024 * 1024, "an .rmd is raw however it was requested");
    assert!(o.raw);
    assert!(order(&args("16M", "/d/EXPLICIT.RMD")).raw);
}

#[test]
fn create_cli_an_existing_target_is_refused_without_force() {
    let site = Site { target_exists: true, ..CLEAR };
    let e = preflight("/d/e.vhd", false, &site).expect_err("refused");
    assert_eq!(e.exit_code(), 2);
    assert_eq!(e.message(), "/d/e.vhd already exists (use --force to overwrite)");
}

#[test]
fn force_overwrites() {
    let site = Site { target_exists: true, ..CLEAR };
    assert!(preflight("/d/o.vhd", true, &site).is_ok());
    let mut a = args("16M", "/d/o.vhd");
    a.force = true;
    assert!(order(&a).plan("t").replace);
}

#[test]
fn a_misaligned_size_is_refused() {
    let (warnings, r) = run(&args("1000001", "/d/m.vhd"));
    let e = r.expect_err("refused");
    assert_eq!(e.exit_code(), 1);
    assert_eq!(e.message(), "size 1000001 is not a multiple of 512 (off by 65)");
    assert!(warnings.is_empty());
}

#[test]
fn a_tiny_size_warns_about_the_vendor_minimum() {
    let (warnings, r) = run(&args("1M", "/d/t.vhd"));
    assert!(r.is_ok());
    assert_eq!(
        warnings,
        vec!["iodd: warning: 1 MiB is below the 12 MiB minimum VHD Tool++ enforces; the device may not mount it"]
    );
}

#[test]
fn warnings_come_in_order_and_survive_a_later_error() {
    let mut a = args("1024", "/d/t.rmd");
    let (warnings, r) = run(&a);
    assert!(r.is_ok());
    assert_eq!(warnings.len(), 3);
    assert!(warnings[0].contains("not a multiple of 1 MiB"));
    assert!(warnings[1].contains("12 MiB minimum"));
    assert!(warnings[2].contains("ends in .rmd"));
    a.creator = String::new();
    let (warnings, r) = run(&a);
    assert!(r.is_err());
    assert_eq!(warnings.len(), 2);
}

#[test]
fn a_bad_creator_tag_is_refused() {
    for (bad, why) in [
        ("toolong", "creator tag \"toolong\" must be 1 to 4 characters, got 7"),
        ("", "creator tag \"\" must be 1 to 4 characters, got 0"),
        ("a\nb", "creator tag \"a\\nb\" must be printable ASCII"),
    ] {
        let mut a = args("16M", "/d/c.vhd");
        a.creator = bad.to_string();
        let e = run(&a).1.expect_err("refused");
        assert_eq!(e.exit_code(), 1);
        assert_eq!(e.message(), why);
    }
}

#[test]
fn the_creator_tag_reaches_the_footer() {
    let mut a = args("16M", "/d/ct.vhd");
    a.creator = "abcd".to_string();
    let bytes = order(&a).footer().expect("footer").to_bytes();
    assert_eq!(&bytes[28..32], b"abcd");
}

#[test]
fn a_nonexistent_directory_is_a_usage_error() {
    let o = order(&args("16M", "/nonexistent-zzz/x.vhd"));
    let site = Site { dir_is_dir: false, ..CLEAR };
    let e = preflight(&o.out, o.force, &site).expect_err("refused");
    assert_eq!(e.exit_code(), 1);
    assert_eq!(e.message(), "/nonexistent-zzz is not a directory");
}

#[test]
fn a_compressed_directory_is_refused() {
    let site = Site { dir_compressed: Some(true), ..CLEAR };
    let e = preflight("/d/x.vhd", false, &site).expect_err("refused");
    assert_eq!(e.exit_code(), 6);
    assert!(matches!(e, Error::Compressed { path } if path == "/d"));
    let site = Site { dir_compressed: Some(false), ..CLEAR };
    assert!(preflight("x.vhd", false, &site).is_ok());
    assert!(preflight("x.vhd", false, &CLEAR).is_ok());
}

#[test]
fn a_size_with_no_room_for_a_footer_is_refused() {
    let most = u64::MAX - 511;
    let e = run(&args(&most.to_string(), "/d/x.vhd")).1.expect_err("overflow");
    assert_eq!(e.message(), "size + 512 overflows a 64-bit byte count");
    let raw = order(&args(&most.to_string(), "/d/x.rmd"));
    assert_eq!(raw.total_size, most);
    let below = u64::MAX - 1023;
    assert_eq!(order(&args(&below.to_string(), "/d/x.vhd")).total_size, most);
}

#[test]
fn announcements_name_the_sizes() {
    assert_eq!(
        order(&args("16M", "/d/a.vhd")).announcement(),
        "creating /d/a.vhd (16 MiB virtual + 512 footer = 16777728 bytes)"
    );
    assert_eq!(
        order(&args("16M", "/d/a.rmd")).announcement(),
        "creating /d/a.rmd (raw removable image, 16 MiB = 16777216 bytes, no footer)"
    );
}

#[test]
fn reports_say_what_was_made() {
    let o = order(&args("16M", "/d/a.vhd"));
    let f = footer::Footer::new(o.virtual_size, Creator(*b"abcd"), 1, [0; 16]);
    let mut named = o.clone();
    named.creator = Creator(*b"abcd");
    assert_eq!(
        named.report(&Some(f), true),
        vec![
            "  geometry      481/4/17",
            "  creator       abcd",
            "  contiguous    yes (1 extent)",
            "  zeroed        yes",
            "  guest sees    16 MiB",
            "/d/a.vhd created",
        ]
    );
    assert_eq!(
        order(&args("16M", "/d/a.rmd")).report(&None, false),
        vec![
            "  footer        none (raw removable image)",
            "  contiguous    yes (1 extent)",
            "  zeroed        no",
            "  guest sees    16 MiB",
            "/d/a.rmd created",
        ]
    );
    assert!(stale_warning(true).is_empty());
    let lines = stale_warning(false);
    assert_eq!(lines.len(), 4);
    assert_eq!(lines[0], "");
    assert!(lines[1].contains("NOT zeroed"));
    assert!(lines[3].contains("pass --zero"));
    assert!(unsupported_warning().contains("does not support fallocate"));
}

fn fragmented(n: u64) -> iodd::contig::Error {
    let runs = (0..n)
        .map(|i| Run { logical: i * 1024, physical: i * 4096, length: 1024 })
        .collect();
    iodd::contig::Error::Fragmented {
        path: "/d/t".to_string(),
        runs,
        free_bytes: None,
        largest_free_run: None,
    }
}

#[test]
fn a_refusal_is_explained() {
    assert_eq!(
        report_refusal(&fragmented(2), 2048, false, None).expect("lines"),
        vec![
            "",
            "iodd: 2 KiB could not be allocated in one extent. It came back as 2:",
            "iodd:   run 0: physical=0 length=1 KiB",
            "iodd:   run 1: physical=4096 length=1 KiB",
        ]
    );
    let lines = report_refusal(&fragmented(11), 4096, true, Some(1024)).expect("lines");
    assert_eq!(lines.len(), 2 + 8 + 3);
    assert_eq!(lines[10], "iodd:   ... and 3 more");
    assert!(lines[11].starts_with("iodd: note: --keep-on-fail"));
    assert_eq!(lines[12], "iodd: free space on this volume: 1 KiB");
    let other = iodd::contig::Error::Compressed { path: "/d".to_string() };
    assert!(report_refusal(&other, 1, false, None).is_none());
}

#[test]
fn a_measured_run_is_reported() {
    let lines = report_probe(Some(64 * 1024 * 1024));
    assert_eq!(lines[0], "64 MiB");
    assert_eq!(lines[1], "iodd: a target of 64 MiB or less should succeed right now.");
    assert_eq!(lines.len(), 4);
    let lines = report_probe(None);
    assert_eq!(lines[0], "nothing usable");
    assert_eq!(lines.len(), 3);
}
