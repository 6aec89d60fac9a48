use iodd::cmd::doctor::{
    check_directory, check_volume, Assessment, FileFacts, Verdict, VolumeFinding,
};
use iodd::contig::volume::VolumeInfo;
use iodd::report::{
    display_name, escape_control, render_table, render_volume_only, truncate, DirRecord, Record,
};

#[test]
fn display_name_keeps_one_directory_of_context() {
    assert_eq!(display_name("/mnt/_ISO/a.iso"), "_ISO/a.iso");
    assert_eq!(display_name("a.iso"), "a.iso");
}

/// Taken from a real device: an ISO whose filename contains an embedded
/// newline, which split its table row in two and misaligned everything
/// after it.
#[test]
fn a_newline_in_a_filename_does_not_break_the_table() {
    let name = "/mnt/_ISO/Windows Server 2012 R2 with Update 1\n 9600.ISO";
    let shown = display_name(name);
    assert!(
        !shown.contains('\n'),
        "must not emit a raw newline: {shown}"
    );
    assert!(shown.contains("\\n"), "and should show it escaped: {shown}");
}

#[test]
fn control_characters_are_neutered() {
    assert_eq!(escape_control("a\tb"), "a\\tb");
    assert_eq!(escape_control("a\rb"), "a\\rb");
    assert_eq!(escape_control("a\u{1b}[31mred"), "a\\x1b[31mred");
    assert_eq!(escape_control("plain"), "plain");
}

#[test]
fn truncate_keeps_the_tail_within_the_width() {
    // Mode tags and versions live at the end of IODD filenames, so the tail
    // is the part worth keeping. The result is exactly `width` chars,
    // ellipsis included, or the column alignment breaks.
    assert_eq!(truncate("abcdefghij", 5), "…ghij");
    assert_eq!(truncate("abcdefghij", 5).chars().count(), 5);
    assert_eq!(truncate("short", 10), "short");
}

#[test]
fn truncate_counts_characters_not_bytes() {
    // Multi-byte names must not be split mid-character or over-truncated.
    let s = "日本語のファイル名";
    let out = truncate(s, 4);
    assert_eq!(out.chars().count(), 4);
    assert!(out.starts_with('…'));
}

#[test]
fn unreadable_records_carry_no_verdict() {
    let r = Record::unreadable("/x/a.vhd", "permission denied");
    assert!(r.verdict.is_none());
    assert_eq!(r.verdict_label, "UNREADABLE");
    assert_eq!(r.file_type, "vhd");
}

fn record(path: &str, verdict: Option<Verdict>, reasons: &[&str]) -> Record {
    Record {
        path: path.to_string(),
        file_type: "vhd".to_string(),
        size: 1536,
        extents: 12,
        verdict,
        verdict_label: verdict.map_or("UNREADABLE", Verdict::label).to_string(),
        reasons: reasons.iter().map(|r| (*r).to_string()).collect(),
    }
}

#[test]
fn a_record_carries_the_assessment() {
    let f = FileFacts {
        path: "/x/a.vhd".to_string(),
        ext: "vhd".to_string(),
        size: 7,
        allocated: 8,
        run_count: 3,
        any_unwritten: false,
        head: [0; 512],
        tail: [0; 512],
    };
    let a = Assessment { verdict: Verdict::Warn, reasons: vec!["why".to_string()] };
    let r = Record::new(&f, &a);
    assert_eq!(r.path, "/x/a.vhd");
    assert_eq!(r.file_type, "vhd");
    assert_eq!((r.size, r.extents), (7, 3));
    assert_eq!(r.verdict, Some(Verdict::Warn));
    assert_eq!(r.verdict_label, "WARN");
    assert_eq!(r.reasons, vec!["why"]);
}

#[test]
fn the_table_lines_up() {
    let records = [
        record("/mnt/_ISO/a.vhd", Some(Verdict::Mountable), &[]),
        record("/mnt/VHDs/longer name.vhd", Some(Verdict::WillNotMount), &["one", "two"]),
        record("b", None, &[]),
    ];
    assert_eq!(
        render_table(&records, &[], None),
        vec![
            "FILE                  TYPE          SIZE  EXTENTS  VERDICT",
            "_ISO/a.vhd             vhd      1.50 KiB       12  MOUNTABLE",
            "VHDs/longer name.vhd   vhd      1.50 KiB       12  WILL-NOT-MOUNT",
            "                        - one",
            "                        - two",
            "b                      vhd      1.50 KiB       12  UNREADABLE",
            "",
            "3 file(s): 1 mountable (0 with warnings), 1 will not, 1 unreadable",
            "",
            "Files that will not mount cannot be repaired from Linux: nothing here can relocate NTFS clusters.",
            "Consolidate free space on Windows (built-in defrag, or Sysinternals Contig on the single file),",
            "or re-lay the file on a volume with a large enough contiguous free run.",
        ]
    );
}

#[test]
fn long_names_fill_the_column_exactly() {
    let name = "n".repeat(80);
    let lines = render_table(&[record(&name, Some(Verdict::Mountable), &[])], &[], None);
    let column: String = lines[1].chars().take(60).collect();
    assert_eq!(column.chars().count(), 60);
    assert!(column.starts_with('…'));
    assert_eq!(lines[1].chars().nth(60), Some(' '));
}

#[test]
fn over_full_directories_are_listed_apart() {
    let one = check_directory("/r/a", 33).expect("over");
    let two = check_directory("/r/b", 40).expect("over");
    let lines = render_table(&[], &[one.clone()], None);
    assert_eq!(lines[2], "1 directory over the device's 32-item limit:");
    assert_eq!(lines[3], "  /r/a — 33 items");
    let lines = render_table(&[], &[one.clone(), two], None);
    assert_eq!(lines[2], "2 directories over the device's 32-item limit:");
    let r = DirRecord::from(&one);
    assert_eq!((r.path.as_str(), r.items, r.limit), ("/r/a", 33, 32));
    assert!(r.reason.starts_with("33 items exceeds the device's limit of 32 per directory"));
}

#[test]
fn volume_state_is_printed_last() {
    let dirty = VolumeFinding {
        device: "/dev/sdb1".to_string(),
        label: Some("IODD".to_string()),
        flags: vec!["dirty".to_string()],
        dirty: true,
    };
    let lines = render_table(&[], &[], Some(&dirty));
    assert_eq!(lines[2], "VOLUME DIRTY: IODD (/dev/sdb1)");
    assert!(lines.contains(&"  ntfsfix -d /dev/sdb1        # quick clear on Linux".to_string()));
    let flagged = VolumeFinding {
        device: "/dev/sdb1".to_string(),
        label: None,
        flags: vec!["a".to_string(), "b".to_string()],
        dirty: false,
    };
    let lines = render_table(&[], &[], Some(&flagged));
    assert_eq!(lines.last().map(String::as_str), Some("Volume flags on /dev/sdb1: a, b"));
}

#[test]
fn a_block_device_gets_a_report_of_its_own() {
    let info = VolumeInfo { label: None, major: 3, minor: 1, flags: 0 };
    assert_eq!(
        render_volume_only("/dev/sdb1", &info, None),
        vec![
            "/dev/sdb1",
            "  label         (none)",
            "  ntfs version  3.1",
            "  flags         0x0000",
            "",
            "Volume state is clean. No files were examined: pass a mounted path to",
            "grade what is on it.",
        ]
    );
    let info = VolumeInfo { label: Some("X".to_string()), major: 3, minor: 1, flags: 1 };
    let finding = check_volume("/dev/sdb1", &info);
    let lines = render_volume_only("/dev/sdb1", &info, finding.as_ref());
    assert_eq!(lines[1], "  label         X");
    assert_eq!(lines[3], "  flags         0x0001");
    assert_eq!(lines[5], "VOLUME DIRTY: X (/dev/sdb1)");
}

#[test]
fn no_control_character_survives() {
    let all: String = (0..=0xa0_u8).map(char::from).collect();
    assert!(!escape_control(&all).chars().any(char::is_control));
    assert_eq!(escape_control("\u{7f}\u{85}"), "\\x7f\\x85");
    assert_eq!(escape_control("é\u{a0}"), "é\u{a0}");
    assert_eq!(truncate("ab", 0), "…");
}
