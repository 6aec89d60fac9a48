use iodd::contig::copy::Report;
use iodd::contig::report::{
    file_code, flag_strings, json_array, print_report, render_json, report_copy, report_fix,
    verify, volume, volume_json, volume_report,
};
use iodd::contig::volume::{VolumeInfo, VOLUME_IS_DIRTY, VOLUME_MODIFIED_BY_CHKDSK};
use iodd::contig::{ExtentMap, FileFacts, Run};

fn facts(runs: u64) -> FileFacts {
    FileFacts {
        size: 2048,
        allocated: 4096,
        map: ExtentMap {
            runs: (0..runs)
                .map(|i| Run { logical: i * 1024, physical: i * 9000 + 4096, length: 1024 })
                .collect(),
            raw_records: 3,
            any_unwritten: false,
        },
        fs_magic: None,
        compressed: None,
    }
}

fn sparse() -> FileFacts {
    let mut f = facts(2);
    f.allocated = 512;
    f
}

fn info(flags: u16, label: Option<&str>) -> VolumeInfo {
    VolumeInfo { label: label.map(str::to_owned), major: 3, minor: 1, flags }
}

#[test]
fn the_worst_file_decides() {
    assert_eq!(file_code(&facts(1)), 0);
    assert_eq!(file_code(&facts(2)), 4);
    assert_eq!(file_code(&sparse()), 5, "allocation before contiguity");
    let mut unwritten = facts(1);
    unwritten.map.any_unwritten = true;
    assert_eq!(file_code(&unwritten), 5);
    assert_eq!(verify(&[facts(1), sparse(), facts(2)], false), 5);
    assert_eq!(verify(&[facts(2), facts(1)], false), 4);
    assert_eq!(verify(&[facts(1)], false), 0);
    assert_eq!(verify(&[sparse()], true), 0);
    assert_eq!(verify(&[], false), 0);
    let mut empty = facts(0);
    empty.size = 0;
    assert_eq!(file_code(&empty), 0);
}

#[test]
fn a_file_is_reported_line_by_line() {
    let mut f = facts(2);
    f.fs_magic = Some(0x7366_746e);
    f.compressed = Some(true);
    assert_eq!(
        print_report("/d/f", &f),
        vec![
            "/d/f",
            "  size          2048",
            "  allocated     4096",
            "  sparse        false",
            "  raw records   3",
            "  merged runs   2   contiguous=false",
            "  any unwritten false",
            "  filesystem    0x7366746e (ntfs3)",
            "  compressed    yes",
            "    run 0: logical=0 physical=4096 length=1024",
            "    run 1: logical=1024 physical=13096 length=1024",
        ]
    );
    assert_eq!(print_report("/d/f", &facts(1)).len(), 7);
}

#[test]
fn a_file_is_rendered_as_json() {
    let text = render_json("/d/\"f\"\n", &facts(2));
    assert_eq!(
        text,
        "{\"path\":\"/d/\\\"f\\\"\\n\",\"size\":2048,\"allocated\":4096,\"sparse\":false,\"raw_records\":3,\"merged_runs\":2,\"contiguous\":false,\"any_unwritten\":false,\"runs\":[{\"logical\":0,\"physical\":4096,\"length\":1024},{\"logical\":1024,\"physical\":13096,\"length\":1024}]}"
    );
    let value: serde_json::Value = serde_json::from_str(&json_array(&[text.clone(), text])).expect("json");
    assert_eq!(value[1]["path"].as_str(), Some("/d/\"f\"\n"));
    assert_eq!(json_array(&[]), "[]");
}

#[test]
fn json_strings_escape_what_json_asks_for() {
    let text = render_json("\u{0}\u{1f}\u{8}\t\n\u{b}\u{c}\r\"\\/\u{7f}\u{fc}", &facts(1));
    assert!(
        text.starts_with(
            "{\"path\":\"\\u0000\\u001f\\b\\t\\n\\u000b\\f\\r\\\"\\\\/\u{7f}\u{fc}\",\"size\":"
        ),
        "{text}"
    );
}

#[test]
fn sparse_mode_says_what_it_skipped() {
    let r = Report { bytes: 8, written: 4, holes_skipped: 4 };
    let lines = report_copy("/d/c", &r);
    assert_eq!(lines[0], "/d/c");
    assert_eq!(lines[2], "  written       4");
    assert!(lines.iter().any(|l| l.contains("holes skipped 4")));
    assert!(lines.iter().any(|l| l.contains("not zeros")));
    assert_eq!(lines.last().map(String::as_str), Some("  contiguous    yes (1 extent)"));
    let whole = Report { bytes: 8, written: 8, holes_skipped: 0 };
    assert_eq!(report_copy("/d/c", &whole).len(), 4);
    assert_eq!(report_fix("/d/c", &whole), report_copy("/d/c", &whole));
}

#[test]
fn fix_reports_a_file_that_needed_no_work() {
    let r = Report { bytes: 8, written: 0, holes_skipped: 0 };
    assert_eq!(report_fix("/d/c", &r), vec!["/d/c: already contiguous, left alone"]);
}

#[test]
fn a_dirty_volume_exits_four() {
    assert_eq!(volume(&[info(0, None), info(VOLUME_IS_DIRTY, None)], false), 4);
    assert_eq!(volume(&[info(VOLUME_IS_DIRTY, None)], true), 0);
    assert_eq!(volume(&[info(VOLUME_MODIFIED_BY_CHKDSK, None)], false), 0);
    assert_eq!(volume(&[], false), 0);
}

#[test]
fn a_volume_is_reported_line_by_line() {
    let v = info(VOLUME_IS_DIRTY | VOLUME_MODIFIED_BY_CHKDSK, Some("IODD"));
    assert_eq!(flag_strings(&v), vec!["dirty", "modified-by-chkdsk"]);
    assert_eq!(
        volume_report("/mnt", "/dev/sdb1", &v),
        vec![
            "/mnt",
            "  device        /dev/sdb1",
            "  label         IODD",
            "  ntfs version  3.1",
            "  flags         0x8001  (dirty, modified-by-chkdsk)",
            "  DIRTY: this volume will not mount until the flag is cleared.",
            "         Clear it with `ntfsfix -d /dev/sdb1`, or chkdsk on Windows.",
        ]
    );
    assert_eq!(
        volume_report("/dev/sdb1", "/dev/sdb1", &info(0, None)),
        vec![
            "/dev/sdb1",
            "  label         (none)",
            "  ntfs version  3.1",
            "  flags         0x0000",
        ]
    );
}

#[test]
fn a_volume_is_rendered_as_json() {
    assert_eq!(
        volume_json("/mnt", "/dev/sdb1", &info(VOLUME_IS_DIRTY, Some("a\"b"))),
        "{\"target\":\"/mnt\",\"device\":\"/dev/sdb1\",\"label\":\"a\\\"b\",\"version\":\"3.1\",\"flags\":1,\"flag_names\":[\"dirty\"],\"dirty\":true}"
    );
    assert_eq!(
        volume_json("/mnt", "/dev/sdb1", &info(0, None)),
        "{\"target\":\"/mnt\",\"device\":\"/dev/sdb1\",\"label\":null,\"version\":\"3.1\",\"flags\":0,\"flag_names\":[],\"dirty\":false}"
    );
}
