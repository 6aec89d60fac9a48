use iodd::error::{Error, Run};

fn io_err() -> String {
    "entity not found".to_string()
}

/// Asserts every variant against the exit-code table. If a variant
/// is added, `exit_code`'s match stops compiling before this test runs.
#[test]
fn exit_codes_match_the_spec_table() {
    let p = || String::from("/x");
    let cases: Vec<(Error, i32)> = vec![
        (Error::Usage("bad size".into()), 1),
        (
            Error::Io {
                path: p(),
                source: io_err(),
            },
            1,
        ),
        (Error::TargetExists { path: p() }, 2),
        (
            Error::Allocation {
                path: p(),
                requested: 512,
                reason: "ENOSPC".into(),
            },
            3,
        ),
        (
            Error::Fragmented {
                path: p(),
                runs: vec![],
                free_bytes: None,
                largest_free_run: None,
            },
            4,
        ),
        (
            Error::Sparse {
                path: p(),
                allocated: 0,
                expected: 512,
            },
            5,
        ),
        (Error::Uninitialized { path: p() }, 5),
        (Error::Compressed { path: p() }, 6),
        (
            Error::Footer {
                path: p(),
                reason: "bad cookie".into(),
            },
            7,
        ),
        (
            Error::Unverifiable {
                path: p(),
                reason: "ENOTTY".into(),
            },
            8,
        ),
        (
            Error::QemuImg {
                reason: "not found".into(),
            },
            9,
        ),
        (Error::NotImplemented("create"), 1),
    ];
    for (err, code) in cases {
        assert_eq!(err.exit_code(), code, "wrong exit code for {err:?}");
    }
}

#[test]
fn fragmented_message_counts_runs() {
    let err = Error::Fragmented {
        path: String::from("/t.vhd"),
        runs: vec![
            Run {
                logical: 0,
                physical: 1024,
                length: 512,
            },
            Run {
                logical: 512,
                physical: 4096,
                length: 512,
            },
        ],
        free_bytes: None,
        largest_free_run: None,
    };
    assert!(err.message().contains("2 extents"));
}

#[test]
fn every_error_has_its_words() {
    let p = || String::from("/x");
    let cases: Vec<(Error, &str)> = vec![
        (Error::Usage("bad size".into()), "bad size"),
        (Error::Io { path: p(), source: io_err() }, "/x: entity not found"),
        (Error::TargetExists { path: p() }, "/x already exists (use --force to overwrite)"),
        (
            Error::Allocation { path: p(), requested: 512, reason: "ENOSPC".into() },
            "could not allocate 512 bytes for /x: ENOSPC",
        ),
        (
            Error::Sparse { path: p(), allocated: 0, expected: 512 },
            "/x is not fully allocated: 0 bytes allocated, 512 required",
        ),
        (
            Error::Uninitialized { path: p() },
            "/x contains uninitialized extents; the data region was not written",
        ),
        (
            Error::Compressed { path: p() },
            "/x is NTFS-compressed; fixed allocation cannot be guaranteed",
        ),
        (Error::Footer { path: p(), reason: "bad cookie".into() }, "/x: bad cookie"),
        (
            Error::Unverifiable { path: p(), reason: "ENOTTY".into() },
            "could not verify contiguity of /x: ENOTTY",
        ),
        (
            Error::VolumeUnreadable { path: p(), reason: "no NTFS signature".into() },
            "could not read NTFS volume state from /x: no NTFS signature",
        ),
        (Error::QemuImg { reason: "not found".into() }, "qemu-img: not found"),
        (Error::NotImplemented("create"), "create is not implemented yet"),
    ];
    for (err, text) in cases {
        assert_eq!(err.message(), text);
    }
}

#[test]
fn engine_errors_keep_their_code() {
    let p = || String::from("/x");
    let cases = vec![
        iodd::contig::Error::Io { path: p(), source: io_err() },
        iodd::contig::Error::Allocation { path: p(), requested: 1, reason: p() },
        iodd::contig::Error::Fragmented {
            path: p(),
            runs: vec![],
            free_bytes: Some(1),
            largest_free_run: None,
        },
        iodd::contig::Error::Sparse { path: p(), allocated: 1, expected: 2 },
        iodd::contig::Error::Uninitialized { path: p() },
        iodd::contig::Error::Compressed { path: p() },
        iodd::contig::Error::Unverifiable { path: p(), reason: p() },
        iodd::contig::Error::VolumeUnreadable { path: p(), reason: p() },
    ];
    let codes: Vec<i32> = cases
        .into_iter()
        .map(|e| {
            let code = iodd::contig::error::exit_code(&e);
            let same = Error::from(e).exit_code();
            assert_eq!(same, i32::from(code));
            same
        })
        .collect();
    assert_eq!(codes, vec![1, 3, 4, 5, 5, 6, 8, 8]);
}
