use iodd::footer::{
    checksum, chs, parse, Chs, Creator, Footer, FooterProblem, DATA_OFFSET_FIXED,
    DISK_TYPE_DIFFERENCING, DISK_TYPE_DYNAMIC, DISK_TYPE_FIXED, FOOTER_SIZE,
};

const T: u32 = 0x31FD_0E4B;
const ID: [u8; 16] = [0xAB; 16];

// ---- CHS ------------------------------------------------------------

/// The 31-spt escalation has two entry paths, `heads > 16` and the equality
/// `cth >= heads * 1024`. This is the second.
///
/// Derivation: 208896 / 17 = 12288 exactly; heads = ceil(12288/1024) = 12;
/// 12288 >= 12 * 1024 holds with equality, so spt escalates to 31;
/// 208896 / 31 = 6738; 6738 < 16 * 1024, so no further escalation;
/// cylinders = 6738 / 16 = 421.
#[test]
fn chs_equality_path_of_the_31_spt_escalation() {
    assert_eq!(
        chs(208_896),
        Chs {
            cylinders: 421,
            heads: 16,
            sectors_per_track: 31
        }
    );
}

#[test]
fn chs_caps_above_the_addressable_limit() {
    let capped = Chs {
        cylinders: 65535,
        heads: 16,
        sectors_per_track: 255,
    };
    // 200 GiB.
    assert_eq!(chs(419_430_400), capped);
    // 2 TiB, past the VHD format's own practical limit.
    assert_eq!(chs(4_294_967_296), capped);
    assert_eq!(chs(u64::MAX), capped);
}

#[test]
fn chs_product_may_under_cover_and_that_is_correct() {
    // 100 MiB requested exactly. The product is smaller, which is expected:
    // the size fields carry the truth, CHS is legacy geometry.
    let g = chs(204_800);
    assert_eq!(g.product(), 204_612);
    assert!(g.product() < 204_800);
}

#[test]
fn chs_handles_degenerate_sizes() {
    // One sector. heads clamps to 4, cylinders floors to 0.
    let g = chs(1);
    assert_eq!(g.sectors_per_track, 17);
    assert_eq!(g.heads, 4);
    let _ = chs(0);
}

// ---- checksum -------------------------------------------------------


#[test]
fn checksum_ignores_its_own_field() {
    let f = Footer::new(1_048_576, Creator::default(), T, ID);
    let mut bytes = f.to_bytes();
    let first = checksum(&bytes);
    // Scribbling on the checksum field must not change the result.
    bytes[64..68].copy_from_slice(&[0xDE, 0xAD, 0xBE, 0xEF]);
    assert_eq!(checksum(&bytes), first);
}

#[test]
fn generated_footer_is_self_consistent() {
    let f = Footer::new(1_048_576, Creator::default(), T, ID);
    let bytes = f.to_bytes();
    assert_eq!(f.checksum, checksum(&bytes));
    let (parsed, problems) = parse(&bytes, Some(1_048_576));
    assert!(problems.is_empty(), "unexpected problems: {problems:?}");
    assert_eq!(parsed.virtual_size, 1_048_576);
    assert_eq!(parsed.disk_type, DISK_TYPE_FIXED);
    assert_eq!(parsed.data_offset, DATA_OFFSET_FIXED);
}

// ---- round-trip -----------------------------------------------------

#[test]
fn round_trips_across_a_size_table() {
    for size in [
        512_u64,
        1_048_576,
        104_857_600,
        21_474_836_480,
        42_949_672_960,
        137_438_952_960,
        214_748_364_800,
    ] {
        let f = Footer::new(size, Creator::default(), T, ID);
        let (back, problems) = parse(&f.to_bytes(), Some(size));
        assert!(problems.is_empty(), "size {size}: {problems:?}");
        assert_eq!(back, f, "size {size} did not round-trip");
    }
}

#[test]
fn footer_is_exactly_512_bytes_and_mostly_reserved() {
    let f = Footer::new(1_048_576, Creator::default(), T, ID);
    let b = f.to_bytes();
    assert_eq!(b.len(), 512);
    assert!(b[85..].iter().all(|&x| x == 0), "reserved must be zero");
}

// ---- creator --------------------------------------------------------

#[test]
fn creator_pads_to_four_bytes() {
    assert_eq!(Creator::parse("iodd").expect("ok").0, *b"iodd");
    assert_eq!(Creator::parse("io").expect("ok").0, *b"io  ");
    assert_eq!(Creator::parse("x").expect("ok").0, *b"x   ");
}

#[test]
fn creator_rejects_bad_tags() {
    assert!(Creator::parse("").is_err());
    assert!(Creator::parse("toolong").is_err());
    assert!(Creator::parse("kö").is_err(), "non-ASCII");
    assert!(Creator::parse("a\nb").is_err(), "control character");
}

// ---- problems -------------------------------------------------------

fn good() -> [u8; FOOTER_SIZE] {
    Footer::new(1_048_576, Creator::default(), T, ID).to_bytes()
}

/// Re-stamp the checksum so a mutation is reported as its own problem
/// rather than only as a checksum mismatch.
fn restamp(bytes: &mut [u8; FOOTER_SIZE]) {
    let c = checksum(bytes);
    bytes[64..68].copy_from_slice(&c.to_be_bytes());
}

#[test]
fn detects_a_bad_cookie() {
    let mut b = good();
    b[0..8].copy_from_slice(b"EFI PART");
    restamp(&mut b);
    let (_, problems) = parse(&b, Some(1_048_576));
    assert!(
        problems
            .iter()
            .any(|p| matches!(p, FooterProblem::BadCookie { .. }))
    );
    // The GPT case gets a specific explanation, since it is what happens to
    // every footer after a guest partitions the disk.
    let text = problems
        .iter()
        .map(FooterProblem::text)
        .collect::<Vec<_>>()
        .join("; ");
    assert!(text.contains("GPT backup header"), "got: {text}");
}

#[test]
fn detects_a_bad_checksum() {
    let mut b = good();
    b[64] ^= 0xFF;
    let (_, problems) = parse(&b, Some(1_048_576));
    assert!(
        problems
            .iter()
            .any(|p| matches!(p, FooterProblem::BadChecksum { .. }))
    );
}

#[test]
fn detects_dynamic_and_differencing_disks() {
    for (ty, label) in [
        (DISK_TYPE_DYNAMIC, "dynamic"),
        (DISK_TYPE_DIFFERENCING, "differencing"),
    ] {
        let mut b = good();
        b[60..64].copy_from_slice(&ty.to_be_bytes());
        restamp(&mut b);
        let (_, problems) = parse(&b, Some(1_048_576));
        let text = problems
            .iter()
            .map(FooterProblem::text)
            .collect::<Vec<_>>()
            .join("; ");
        assert!(
            problems
                .iter()
                .any(|p| matches!(p, FooterProblem::NotFixed { .. })),
            "{label} not detected"
        );
        assert!(text.contains(label), "got: {text}");
    }
}

#[test]
fn detects_a_header_style_data_offset() {
    let mut b = good();
    b[16..24].copy_from_slice(&512_u64.to_be_bytes());
    restamp(&mut b);
    let (_, problems) = parse(&b, Some(1_048_576));
    assert!(
        problems
            .iter()
            .any(|p| matches!(p, FooterProblem::DataOffsetNotFixed { .. }))
    );
}

#[test]
fn detects_size_fields_disagreeing_with_each_other() {
    let mut b = good();
    b[48..56].copy_from_slice(&2_097_152_u64.to_be_bytes());
    restamp(&mut b);
    let (_, problems) = parse(&b, None);
    assert!(
        problems
            .iter()
            .any(|p| matches!(p, FooterProblem::SizeFieldsDisagree { .. }))
    );
}

#[test]
fn detects_size_disagreeing_with_the_file() {
    let b = good();
    let (_, problems) = parse(&b, Some(999_424));
    assert!(
        problems
            .iter()
            .any(|p| matches!(p, FooterProblem::SizeDisagreesWithFile { .. }))
    );
}

#[test]
fn detects_an_unaligned_virtual_size() {
    let mut b = good();
    b[40..48].copy_from_slice(&1_048_577_u64.to_be_bytes());
    b[48..56].copy_from_slice(&1_048_577_u64.to_be_bytes());
    restamp(&mut b);
    let (_, problems) = parse(&b, None);
    assert!(
        problems
            .iter()
            .any(|p| matches!(p, FooterProblem::VirtualSizeNotAligned { .. }))
    );
}

/// A VHDX under a .vhd name. The device does not mount these, and the
/// message says so.
#[test]
fn explains_a_vhdx_container() {
    let mut b = [0u8; FOOTER_SIZE];
    b[0..8].copy_from_slice(b"vhdxfile");
    let (_, problems) = parse(&b, None);
    let text = problems
        .iter()
        .map(FooterProblem::text)
        .collect::<Vec<_>>()
        .join("; ");
    assert!(text.contains("VHDX"), "got: {text}");
}

/// With a valid cookie, every problem is reported rather than only the
/// first, so an operator sees the whole picture.
#[test]
fn a_real_footer_reports_every_problem_not_just_the_first() {
    let mut b = good();
    b[60..64].copy_from_slice(&3u32.to_be_bytes()); // dynamic
    b[16..24].copy_from_slice(&512u64.to_be_bytes()); // header-style offset
    restamp(&mut b);
    let (_, problems) = parse(&b, Some(1_048_576));
    assert!(
        problems.len() >= 2,
        "both problems should surface, got {problems:?}"
    );
}

/// Without a cookie there is no footer, so the fields below it are
/// meaningless and reporting each as its own problem is cascading noise.
/// This is what the one known-mounting device file looks like.
#[test]
fn a_footerless_tail_reports_exactly_one_problem() {
    for tail in [[0u8; FOOTER_SIZE], [0xAAu8; FOOTER_SIZE]] {
        let (_, problems) = parse(&tail, Some(1_048_576));
        assert_eq!(problems.len(), 1, "expected one finding, got {problems:?}");
        assert!(matches!(problems[0], FooterProblem::BadCookie { .. }));
    }
}

#[test]
fn the_footerless_message_names_the_commonest_causes() {
    let mut gpt = [0u8; FOOTER_SIZE];
    gpt[0..8].copy_from_slice(b"EFI PART");
    let (_, p) = parse(&gpt, None);
    let text = p[0].text();
    assert!(text.contains("GPT backup header"));
    // It must offer the alternative rather than assert a history it cannot
    // know: a raw image that never had a footer looks the same from here.
    assert!(
        text.contains("raw image"),
        "must not claim a cause it cannot observe: {text}"
    );

    let (_, p) = parse(&[0u8; FOOTER_SIZE], None);
    assert!(p[0].text().contains("all zeros"));
}

#[test]
fn now_produces_a_valid_footer() {
    let f = Footer::now(1_048_576, Creator::default());
    let (_, problems) = parse(&f.to_bytes(), Some(1_048_576));
    assert!(problems.is_empty(), "{problems:?}");
    assert!(f.timestamp > 0, "timestamp should be past the VHD epoch");
}

// ---- exact values -------------------------------------------------------

#[test]
fn geometry_follows_every_branch() {
    let g = |n: u64| {
        let c = chs(n);
        (c.cylinders, c.heads, c.sectors_per_track)
    };
    assert_eq!(g(0), (0, 4, 17));
    assert_eq!(g(204_612), (1003, 12, 17));
    assert_eq!(g(204_800), (1003, 12, 17));
    assert_eq!(g(204_816), (1004, 12, 17));
    assert_eq!(g(41_943_040), (41_610, 16, 63));
    assert_eq!(g(65_535 * 16 * 63), (16_191, 16, 255));
    for n in [1, 17, 1_000, 278_528, 507_904, 66_059_279, 66_059_280, u64::MAX] {
        assert!(chs(n).product() <= n);
    }
}

#[test]
fn fields_stand_where_the_format_puts_them() {
    let b = Footer::new(1_048_576, Creator(*b"abcd"), 0x0102_0304, [9; 16]).to_bytes();
    assert_eq!(&b[0..8], b"conectix");
    assert_eq!(&b[8..12], &[0, 0, 0, 2]);
    assert_eq!(&b[12..16], &[0, 1, 0, 0]);
    assert_eq!(&b[16..24], &[0xff; 8]);
    assert_eq!(&b[24..28], &[1, 2, 3, 4]);
    assert_eq!(&b[28..32], b"abcd");
    assert_eq!(&b[36..40], b"Wi2k");
    assert_eq!(&b[40..48], &1_048_576_u64.to_be_bytes());
    assert_eq!(&b[48..56], &1_048_576_u64.to_be_bytes());
    assert_eq!(&b[56..60], &[0, 30, 4, 17]);
    assert_eq!(&b[60..64], &[0, 0, 0, 2]);
    assert_eq!(&b[68..84], &[9; 16]);
    let sum: u32 = b.iter().map(|&x| u32::from(x)).sum::<u32>()
        - b[64..68].iter().map(|&x| u32::from(x)).sum::<u32>();
    assert_eq!(&b[64..68], &(!sum).to_be_bytes());
}

#[test]
fn stamps_count_from_the_vhd_epoch() {
    let at = |unix: u64| Footer::at(512, Creator::default(), unix, [0; 16]).timestamp;
    assert_eq!(at(0), 0);
    assert_eq!(at(946_684_800), 0);
    assert_eq!(at(946_684_801), 1);
    assert_eq!(at(u64::MAX), u32::MAX);
}

#[test]
fn fresh_footers_carry_version_four_identifiers() {
    let a = Footer::now(512, Creator::default());
    let b = Footer::now(512, Creator::default());
    assert_ne!(a.unique_id, b.unique_id);
    assert_eq!(a.unique_id[6] >> 4, 4);
    assert_eq!(a.unique_id[8] >> 6, 2);
}

#[test]
fn tags_are_shown_as_text() {
    assert_eq!(Creator::default().text(), "iodd");
    assert_eq!(Creator(*b"io  ").text(), "io  ");
    assert_eq!(Creator([0xff, b'a', b'b', b'c']).text(), "\u{fffd}abc");
}

#[test]
fn every_problem_has_its_words() {
    let texts: Vec<String> = [
        FooterProblem::BadChecksum { stored: 1, computed: 0xABCD },
        FooterProblem::NotFixed { disk_type: 9 },
        FooterProblem::DataOffsetNotFixed { found: 512 },
        FooterProblem::SizeFieldsDisagree { original: 1, current: 2 },
        FooterProblem::SizeDisagreesWithFile { field: 1, expected: 2 },
        FooterProblem::VirtualSizeNotAligned { virtual_size: 513 },
        FooterProblem::UnexpectedFeatures { found: 3 },
        FooterProblem::UnexpectedFormatVersion { found: 5 },
        FooterProblem::BadCookie { found: [0xAA; 8] },
    ]
    .iter()
    .map(FooterProblem::text)
    .collect();
    assert_eq!(
        texts,
        vec![
            "checksum mismatch: stored 0x00000001, computed 0x0000abcd",
            "disk type is 9, not 2 (fixed)",
            "data offset is 0x0000000000000200, not 0xffffffffffffffff; this is not a fixed VHD",
            "original size 1 disagrees with current size 2",
            "footer size field 1 disagrees with file size minus 512, 2",
            "virtual size 513 is not a multiple of 512",
            "features field is 0x00000003, expected 0x00000002",
            "format version is 0x00000005, expected 0x00010000",
            "no VHD footer: expected the conectix cookie, found [aa, aa, aa, aa, aa, aa, aa, aa]",
        ]
    );
}

#[test]
fn one_changed_byte_is_noticed() {
    for at in 0..FOOTER_SIZE {
        let mut bytes = good();
        bytes[at] ^= 0x10;
        let stored = u32::from_be_bytes([bytes[64], bytes[65], bytes[66], bytes[67]]);
        assert_ne!(stored, checksum(&bytes), "byte {at}");
    }
}
