use iodd::cli::{DoctorArgs, Format};
use iodd::cmd::doctor::{
    check_directory, check_root, check_volume, exit_code, gather, grade, policy, volume_only,
    Assessment, FileFacts, Policy, Scan, Verdict, RECOGNIZED,
};
use iodd::contig::extents::{self, Extent};
use iodd::contig::volume::{VolumeInfo, VOLUME_IS_DIRTY, VOLUME_MODIFIED_BY_CHKDSK};
use iodd::footer::{
    Creator, Footer, COOKIE, DISK_TYPE_DIFFERENCING, DISK_TYPE_DYNAMIC,
};
use iodd::report::{render_table, Record};

fn facts(ext: &str) -> FileFacts {
    let footer = Footer::new(1_048_576, Creator::default(), 0x3000_0000, [7u8; 16]);
    FileFacts {
        path: format!("/x/f.{ext}"),
        ext: ext.to_string(),
        size: 1_048_576 + 512,
        allocated: 1_048_576 + 512,
        run_count: 1,
        any_unwritten: false,
        head: [0u8; 512],
        tail: footer.to_bytes(),
    }
}

/// A raw image: no footer, because raw types do not use one.
fn raw_facts(ext: &str) -> FileFacts {
    let mut f = facts(ext);
    f.tail = [0u8; 512];
    f
}

fn grade_default(f: &FileFacts) -> Assessment {
    grade(f, &Policy::default())
}

// ---- the happy case ---------------------------------------------------

#[test]
fn a_clean_fixed_vhd_is_mountable() {
    let a = grade_default(&facts("vhd"));
    assert_eq!(a.verdict, Verdict::Mountable, "{:?}", a.reasons);
    assert!(a.reasons.is_empty());
}

#[test]
fn vmdk_uses_the_same_ruleset_as_vhd() {
    // IODD expects fixed-VHD bytes under a .vmdk name.
    assert_eq!(grade_default(&facts("vmdk")).verdict, Verdict::Mountable);
}

// ---- the two hard gates -----------------------------------------------

#[test]
fn a_fragmented_vhd_will_not_mount() {
    let mut f = facts("vhd");
    f.run_count = 3;
    let a = grade_default(&f);
    assert_eq!(a.verdict, Verdict::WillNotMount);
    assert!(a.reasons.iter().any(|r| r.contains("3 fragments")));
}

#[test]
fn a_sparse_vhd_will_not_mount() {
    let mut f = facts("vhd");
    f.allocated = 4096;
    let a = grade_default(&f);
    assert_eq!(a.verdict, Verdict::WillNotMount);
    assert!(a.reasons.iter().any(|r| r.contains("sparse")));
}

// ---- footer problems are warnings -------------------------------------

/// A footerless `.rmd` is **correct**, not a finding.
///
/// Hardware showed the device presents a `.rmd` whole, so a footer would be
/// visible to the guest as trailing disk. Its absence is the right state.
#[test]
fn a_footerless_rmd_is_simply_mountable() {
    let a = grade_default(&raw_facts("rmd"));
    assert_eq!(a.verdict, Verdict::Mountable, "{:?}", a.reasons);
    assert!(
        a.reasons.is_empty(),
        "no findings expected: {:?}",
        a.reasons
    );
}

/// The file that began the investigation: a 40 GiB `.rmd` whose last sector
/// is a GPT backup header. That is exactly what a
/// partitioned raw removable image looks like, so it grades clean.
#[test]
fn the_device_rmd_grades_clean_under_the_corrected_model() {
    let mut f = raw_facts("rmd");
    f.size = 42_949_673_472;
    f.allocated = 42_949_677_056;
    f.tail[0..8].copy_from_slice(b"EFI PART");
    let a = grade_default(&f);
    assert_eq!(a.verdict, Verdict::Mountable, "{:?}", a.reasons);
}

/// A `.rmd` that still carries a VHD footer is the anomaly: the guest will
/// see it as trailing disk, and the file was probably a renamed `.vhd`.
#[test]
fn an_rmd_with_a_footer_is_reported() {
    let a = grade_default(&facts("rmd"));
    assert_eq!(a.verdict, Verdict::Warn, "{:?}", a.reasons);
    assert!(
        a.reasons.iter().any(|r| r.contains("does not use")),
        "{:?}",
        a.reasons
    );
    assert!(
        a.reasons.iter().any(|r| r.contains("retype")),
        "should point at the fix: {:?}",
        a.reasons
    );
}

/// The GPT explanation still applies to a `.vhd`, where the last sector
/// really is supposed to be a footer.
#[test]
fn a_vhd_footer_clobbered_by_gpt_is_a_warning_with_an_explanation() {
    let mut f = facts("vhd");
    f.tail[0..8].copy_from_slice(b"EFI PART");
    let a = grade_default(&f);
    assert_eq!(a.verdict, Verdict::Warn);
    assert!(
        a.reasons.iter().any(|r| r.contains("GPT backup header")),
        "the operator should be told why: {:?}",
        a.reasons
    );
}

#[test]
fn a_fragmented_rmd_will_not_mount() {
    let mut f = raw_facts("rmd");
    f.run_count = 3;
    assert_eq!(grade_default(&f).verdict, Verdict::WillNotMount);
}

#[test]
fn uninitialized_extents_warn_rather_than_fail() {
    let mut f = facts("vhd");
    f.any_unwritten = true;
    let a = grade_default(&f);
    assert_eq!(a.verdict, Verdict::Warn);
    assert!(a.reasons.iter().any(|r| r.contains("uninitialized")));
}

// ---- container misdetection -------------------------------------------

#[test]
fn a_vhdx_under_a_vhd_name_is_reported() {
    let mut f = facts("vhd");
    f.head[0..8].copy_from_slice(b"vhdxfile");
    let a = grade_default(&f);
    assert!(a.reasons.iter().any(|r| r.contains("VHDX")));
}

#[test]
fn a_dynamic_vhd_is_reported() {
    let mut f = facts("vhd");
    f.head[0..8].copy_from_slice(&COOKIE);
    f.head[60..64].copy_from_slice(&DISK_TYPE_DYNAMIC.to_be_bytes());
    let a = grade_default(&f);
    assert!(a.reasons.iter().any(|r| r.contains("dynamic")));
}

#[test]
fn a_differencing_vhd_is_reported() {
    let mut f = facts("vhd");
    f.head[0..8].copy_from_slice(&COOKIE);
    f.head[60..64].copy_from_slice(&DISK_TYPE_DIFFERENCING.to_be_bytes());
    let a = grade_default(&f);
    assert!(a.reasons.iter().any(|r| r.contains("differencing")));
}

#[test]
fn a_real_vmdk_under_a_vmdk_name_is_reported() {
    for magic in [&b"KDMV"[..], &b"# Disk DescriptorFile"[..]] {
        let mut f = facts("vmdk");
        f.head[..magic.len()].copy_from_slice(magic);
        let a = grade_default(&f);
        assert!(
            a.reasons.iter().any(|r| r.contains("VMDK")),
            "{:?}",
            a.reasons
        );
    }
}

/// A fixed VHD renamed to .vmdk is exactly what IODD expects, so the
/// detector must not fire on it.
#[test]
fn fixed_vhd_bytes_under_a_vmdk_name_are_fine() {
    assert_eq!(grade_default(&facts("vmdk")).verdict, Verdict::Mountable);
}

/// Only when a hard gate also fails does a container problem become the
/// "may not be listed" case.
#[test]
fn a_broken_container_that_also_fails_a_gate_may_be_unlisted() {
    let mut f = facts("vhd");
    f.head[0..8].copy_from_slice(b"vhdxfile");
    f.run_count = 5;
    assert_eq!(
        grade_default(&f).verdict,
        Verdict::WillNotMountMaybeUnlisted
    );
}

// ---- ISO ---------------------------------------------------------------

#[test]
fn an_iso_under_the_ceiling_is_mountable() {
    let mut f = facts("iso");
    // Measured on real hardware: a 3-extent ISO works.
    f.run_count = 3;
    assert_eq!(grade_default(&f).verdict, Verdict::Mountable);
}

#[test]
fn an_iso_over_the_ceiling_will_not_mount() {
    let mut f = facts("iso");
    f.run_count = 25;
    assert_eq!(grade_default(&f).verdict, Verdict::WillNotMount);
}

#[test]
fn the_iso_ceiling_is_overridable() {
    let mut f = facts("iso");
    f.run_count = 25;
    let policy = Policy {
        iso_max_fragments: 32,
        ..Policy::default()
    };
    assert_eq!(grade(&f, &policy).verdict, Verdict::Mountable);
}

/// No footer or allocation check applies to ISOs, so a sparse one with a
/// junk tail is still graded on fragments alone.
#[test]
fn an_iso_is_not_graded_on_footer_or_allocation() {
    let mut f = facts("iso");
    f.tail = [0xFFu8; 512];
    f.allocated = 0;
    assert_eq!(grade_default(&f).verdict, Verdict::Mountable);
}

// ---- IMA ---------------------------------------------------------------

#[test]
fn a_contiguous_ima_is_mountable() {
    assert_eq!(grade_default(&raw_facts("ima")).verdict, Verdict::Mountable);
}

#[test]
fn a_fragmented_ima_warns_and_says_the_threshold_is_unknown() {
    let mut f = raw_facts("ima");
    f.run_count = 4;
    let a = grade_default(&f);
    assert_eq!(a.verdict, Verdict::Warn);
    assert!(a.reasons.iter().any(|r| r.contains("undocumented")));
}

// ---- policy ------------------------------------------------------------

#[test]
fn type_filtering_restricts_the_scan_set() {
    let policy = Policy {
        types: vec!["vhd".into(), "rmd".into()],
        ..Policy::default()
    };
    assert!(policy.accepts("vhd"));
    assert!(policy.accepts("rmd"));
    assert!(!policy.accepts("iso"));
    assert!(!policy.accepts("exe"));
}

#[test]
fn an_empty_type_list_accepts_every_recognized_type() {
    let policy = Policy::default();
    for ext in RECOGNIZED {
        assert!(policy.accepts(ext));
    }
    assert!(!policy.accepts("exe"));
    assert!(!policy.accepts("img"), ".img is not scanned");
}

// ---- directory item limit ----------------------------------------------

#[test]
fn a_directory_at_the_limit_is_fine() {
    assert_eq!(check_directory("/x/_ISO", 32), None);
    assert_eq!(check_directory("/x/_ISO", 1), None);
}

#[test]
fn a_directory_over_the_limit_is_reported() {
    let f = check_directory("/x/_ISO", 33).expect("should fire");
    assert_eq!(f.items, 33);
    assert_eq!(f.path, "/x/_ISO");
}

// ---- verdict ordering --------------------------------------------------

/// The aggregate exit code takes the worst verdict, so the ordering has to
/// be right.
#[test]
fn verdicts_order_by_severity() {
    assert!(Verdict::Mountable < Verdict::Warn);
    assert!(Verdict::Warn < Verdict::WillNotMount);
    assert!(Verdict::WillNotMount < Verdict::WillNotMountMaybeUnlisted);
}

// ---- volume state ------------------------------------------------------

fn vol_info(flags: u16) -> VolumeInfo {
    VolumeInfo {
        label: Some("IODD".to_owned()),
        major: 3,
        minor: 1,
        flags,
    }
}

fn dev() -> &'static str {
    "/dev/sdb1"
}

#[test]
fn a_clean_volume_produces_no_finding() {
    assert_eq!(check_volume(dev(), &vol_info(0)), None);
}

#[test]
fn a_dirty_volume_is_reported() {
    let f = check_volume(dev(), &vol_info(VOLUME_IS_DIRTY)).expect("should fire");
    assert!(f.dirty);
    assert_eq!(f.flags, vec!["dirty"]);
    assert_eq!(f.device, dev());
    assert_eq!(f.label.as_deref(), Some("IODD"));
}

/// Flags other than dirty are worth surfacing but do not stop a mount, so
/// they must not be reported as dirty.
#[test]
fn a_non_dirty_flag_is_reported_without_claiming_dirty() {
    let f =
        check_volume(dev(), &vol_info(VOLUME_MODIFIED_BY_CHKDSK)).expect("should fire");
    assert!(!f.dirty);
    assert_eq!(f.flags, vec!["modified-by-chkdsk"]);
}

// ---- exit codes --------------------------------------------------------

fn clean_record() -> Record {
    let f = facts("vhd");
    Record::new(&f, &grade_default(&f))
}

#[test]
fn a_clean_scan_exits_zero() {
    assert_eq!(exit_code(&[clean_record()], &[], None, false), 0);
}

/// The point of the whole volume check: every file can be perfect and the
/// device still unusable, because the volume will not mount.
#[test]
fn a_dirty_volume_fails_the_scan_even_when_every_file_is_sound() {
    let vol = check_volume(dev(), &vol_info(VOLUME_IS_DIRTY)).expect("dirty");
    assert_eq!(exit_code(&[clean_record()], &[], Some(&vol), false), 4);
    assert_eq!(
        exit_code(&[clean_record()], &[], Some(&vol), true),
        4,
        "and under --strict too"
    );
}

#[test]
fn a_non_dirty_volume_flag_does_not_fail_the_scan() {
    let vol = check_volume(dev(), &vol_info(VOLUME_MODIFIED_BY_CHKDSK)).expect("flag");
    assert_eq!(
        exit_code(&[clean_record()], &[], Some(&vol), false),
        0,
        "chkdsk having touched the volume does not stop it mounting"
    );
}

/// Not being able to read the device is the common case without root. It
/// must not change the verdict of an otherwise successful audit.
#[test]
fn an_unreadable_volume_leaves_the_verdict_alone() {
    assert_eq!(exit_code(&[clean_record()], &[], None, false), 0);
    assert_eq!(exit_code(&[clean_record()], &[], None, true), 0);
}

// ---- the command line ---------------------------------------------------

fn doctor_args(types: &[&str]) -> DoctorArgs {
    DoctorArgs {
        root: "/x".to_string(),
        recursive: false,
        no_recursive: false,
        types: types.iter().map(|t| (*t).to_string()).collect(),
        format: Format::Table,
        strict: true,
        iso_max_fragments: 7,
    }
}

#[test]
fn an_unknown_type_filter_is_a_usage_error() {
    let e = policy(&doctor_args(&["vhd", "exe", "zip"])).expect_err("unknown");
    assert_eq!(e.exit_code(), 1);
    assert_eq!(
        e.message(),
        "unknown type \"exe\"; recognized types are vhd, rmd, vmdk, iso, ima"
    );
}

#[test]
fn types_are_read_leniently() {
    let p = policy(&doctor_args(&[" .VHD ", "", "..rmd", " . "])).expect("policy");
    assert_eq!(p.types, vec!["vhd", "rmd"]);
    assert!(p.strict && p.recursive);
    assert_eq!(p.iso_max_fragments, 7);
    assert_eq!(p.max_depth(), usize::MAX);
}

#[test]
fn a_missing_root_is_a_usage_error() {
    let e = check_root("/nonexistent-zzz", false).expect_err("missing");
    assert_eq!(e.exit_code(), 1);
    assert_eq!(e.message(), "/nonexistent-zzz is not a directory");
    assert!(check_root("/x", true).is_ok());
}

// ---- what is scanned ----------------------------------------------------

#[test]
fn no_recursive_scans_only_the_top_level() {
    let mut args = doctor_args(&[]);
    args.no_recursive = true;
    assert_eq!(policy(&args).expect("policy").max_depth(), 1);
}

#[test]
fn nested_files_are_found_by_default() {
    let p = Policy::default();
    assert_eq!(p.max_depth(), usize::MAX);
    assert_eq!(p.candidate("/r/VHDs/nested.vhd").as_deref(), Some("vhd"));
    assert_eq!(p.candidate("/r/_ISO/deep/img.ISO").as_deref(), Some("iso"));
}

#[test]
fn type_filtering_restricts_what_is_scanned() {
    let p = policy(&doctor_args(&["vhd"])).expect("policy");
    assert!(p.candidate("/r/a.vhd").is_some());
    assert!(p.candidate("/r/b.iso").is_none(), "iso should be filtered out");
}

#[test]
fn unrecognized_extensions_are_ignored_entirely() {
    let p = Policy::default();
    assert!(p.candidate("/r/notes.txt").is_none());
    assert!(p.candidate("/r/backup.img").is_none());
    assert!(p.candidate("/r/vhd").is_none());
}

#[test]
fn temp_files_from_create_are_not_scanned() {
    assert!(Policy::default().candidate("/r/.iodd-1234-0.tmp").is_none());
}

#[test]
fn facts_come_from_what_the_system_reports() {
    let e = Extent { logical: 0, physical: 9, length: 1024, flags: 0x800 };
    let m = extents::map(&[e], "/r/a.vhd").expect("map");
    let f = gather("/r/a.vhd", "vhd".to_string(), 1024, 2, &m, [1; 512], [2; 512]);
    assert_eq!(f.path, "/r/a.vhd");
    assert_eq!(f.allocated, 1024);
    assert_eq!(f.run_count, 1);
    assert!(f.any_unwritten);
    assert_eq!(f.head[0], 1);
    assert_eq!(f.tail[0], 2);
}

// ---- the whole scan -----------------------------------------------------

fn record(path: &str, f: &FileFacts) -> Record {
    let mut f = f.clone();
    f.path = path.to_string();
    Record::new(&f, &grade_default(&f))
}

#[test]
fn an_empty_tree_reports_nothing_and_succeeds() {
    let scan = Scan::new();
    let lines = render_table(scan.records(), &[], None);
    assert_eq!(lines, vec!["no IODD-mountable files found"]);
    assert_eq!(exit_code(scan.records(), &[], None, false), 0);
}

#[test]
fn a_scan_is_kept_in_the_order_of_its_paths() {
    let mut scan = Scan::new();
    for path in ["/r/b.vhd", "/r/a/z.vhd", "/r/a-b.vhd", "/r/a/b.vhd", "/r/A.vhd"] {
        scan.add(record(path, &facts("vhd")));
    }
    let mut paths: Vec<&std::path::Path> =
        scan.records().iter().map(|r| std::path::Path::new(r.path.as_str())).collect();
    let found = paths.clone();
    paths.sort();
    assert_eq!(found, paths);
    assert_eq!(found.len(), 5);
    assert_eq!(scan.dirs(), ["/r", "/r/a"]);
}

#[test]
fn a_fragmented_iso_over_the_ceiling_fails_the_aggregate() {
    let p = Policy { iso_max_fragments: 0, ..Policy::default() };
    let f = facts("iso");
    let a = grade(&f, &p);
    assert_eq!(a.verdict.label(), "WILL-NOT-MOUNT");
    assert_eq!(
        a.reasons,
        vec!["1 fragments exceeds the ceiling of 0 (override with --iso-max-fragments)"]
    );
    assert_eq!(exit_code(&[Record::new(&f, &a)], &[], None, false), 4);
}

/// A raw `.rmd` grades clean, so the warning here is a footer where none
/// belongs.
#[test]
fn strict_promotes_warnings_to_a_failing_exit() {
    let r = record("/r/raw.rmd", &facts("rmd"));
    assert_eq!(r.verdict_label, "WARN");
    assert_eq!(exit_code(&[r.clone()], &[], None, false), 0);
    assert_eq!(exit_code(&[r], &[], None, true), 4);
}

#[test]
fn the_summary_counts_by_verdict() {
    let records = [
        record("/r/good.vhd", &facts("vhd")),
        record("/r/warn.rmd", &facts("rmd")),
    ];
    let lines = render_table(&records, &[], None);
    assert!(lines.iter().any(|l| l.contains("2 file(s):")
        && l.contains("mountable")
        && l.contains("warn")));
    assert!(lines.contains(&"2 file(s): 2 mountable (1 with warnings), 0 will not".to_string()));
}

#[test]
fn an_over_full_directory_is_reported() {
    let d = check_directory("/r/_ISO", 40).expect("over-full");
    let lines = render_table(&[], &[d.clone()], None);
    assert!(lines.iter().any(|l| l.contains("32-item limit")));
    assert!(lines.iter().any(|l| l.contains("40 items")));
    assert_eq!(exit_code(&[], &[d], None, false), 0);
}

#[test]
fn a_directory_at_the_limit_is_not_reported() {
    assert_eq!(check_directory("/r/_ISO", 32), None);
}

#[test]
fn strict_fails_on_an_over_full_directory() {
    let d = check_directory("/r/_ISO", 40).expect("over-full");
    assert_eq!(exit_code(&[clean_record()], &[d], None, true), 4);
}

#[test]
fn an_unreadable_file_is_no_verdict() {
    let r = Record::unreadable("/r/a.vhd", "permission denied");
    assert_eq!(exit_code(&[clean_record(), r.clone()], &[], None, false), 1);
    let dirty = check_volume(dev(), &vol_info(VOLUME_IS_DIRTY)).expect("dirty");
    assert_eq!(exit_code(&[r], &[], Some(&dirty), false), 4);
}

#[test]
fn a_block_device_is_judged_by_its_dirty_flag() {
    assert_eq!(volume_only(&vol_info(VOLUME_IS_DIRTY)), 4);
    assert_eq!(volume_only(&vol_info(VOLUME_MODIFIED_BY_CHKDSK)), 0);
}

#[test]
fn contents_alone_never_condemn() {
    for ext in ["vhd", "rmd", "vmdk", "ima"] {
        let mut f = facts(ext);
        f.head[0..8].copy_from_slice(b"vhdxfile");
        f.tail = [0xFF; 512];
        f.any_unwritten = true;
        let a = grade_default(&f);
        assert!(!a.verdict.is_failure(), "{ext}: {:?}", a.reasons);
        assert!(!a.reasons.is_empty());
    }
}
