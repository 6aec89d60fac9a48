use iodd::size::{humanize, mib_alignment_warning, parse, require_512_aligned};


#[test]
fn bare_digits_are_bytes() {
    assert_eq!(parse("512").expect("parse"), 512);
    assert_eq!(parse("1048576").expect("parse"), 1_048_576);
    assert_eq!(parse("0").expect("parse"), 0);
}

#[test]
fn bare_suffixes_are_binary() {
    assert_eq!(parse("1K").expect("parse"), 1024);
    assert_eq!(parse("1M").expect("parse"), 1_048_576);
    assert_eq!(parse("1G").expect("parse"), 1_073_741_824);
    assert_eq!(parse("1T").expect("parse"), 1_099_511_627_776);
}

#[test]
fn ibi_suffixes_are_binary() {
    assert_eq!(parse("1KiB").expect("parse"), 1024);
    assert_eq!(parse("20GiB").expect("parse"), 21_474_836_480);
}

#[test]
fn b_suffixes_are_decimal() {
    assert_eq!(parse("1KB").expect("parse"), 1_000);
    assert_eq!(parse("1MB").expect("parse"), 1_000_000);
    assert_eq!(parse("1GB").expect("parse"), 1_000_000_000);
}

#[test]
fn units_are_case_insensitive() {
    assert_eq!(parse("20g").expect("parse"), parse("20G").expect("parse"));
    assert_eq!(
        parse("20gib").expect("parse"),
        parse("20GiB").expect("parse")
    );
    assert_eq!(parse("20gb").expect("parse"), parse("20GB").expect("parse"));
}

/// The `i` selects binary, not the case. These must not collapse.
#[test]
fn gb_and_gib_stay_distinct() {
    assert_ne!(
        parse("20GB").expect("parse"),
        parse("20GiB").expect("parse")
    );
    assert_eq!(parse("20GB").expect("parse"), 20_000_000_000);
    assert_eq!(parse("20GiB").expect("parse"), 21_474_836_480);
}

/// The size measured on the physical device.
#[test]
fn forty_g_matches_the_device_measurement() {
    assert_eq!(parse("40G").expect("parse"), 42_949_672_960);
    // The file on the device is virtual_size + 512.
    assert_eq!(42_949_672_960_u64 + 512, 42_949_673_472);
}

#[test]
fn whitespace_is_tolerated() {
    assert_eq!(parse("  20G  ").expect("parse"), 21_474_836_480);
}

#[test]
fn junk_is_rejected() {
    for bad in ["", "  ", "G", "abc", "20X", "20 GG", "1.5G", "-1", "20G20"] {
        assert!(parse(bad).is_err(), "{bad:?} should not parse");
    }
}

#[test]
fn overflow_is_rejected_not_wrapped() {
    assert!(parse("999999999999T").is_err());
}

#[test]
fn alignment_rejects_odd_sizes() {
    assert!(require_512_aligned(512).is_ok());
    assert!(require_512_aligned(1_048_576).is_ok());
    assert!(require_512_aligned(513).is_err());
    assert!(require_512_aligned(1).is_err());
    assert!(require_512_aligned(0).is_err(), "zero is not a disk");
}

#[test]
fn mib_warning_fires_only_when_misaligned() {
    assert!(mib_alignment_warning(1_048_576).is_none());
    assert!(mib_alignment_warning(21_474_836_480).is_none());
    assert!(mib_alignment_warning(1_048_576 + 512).is_some());
    // Decimal sizes are the common way to trip this.
    assert!(mib_alignment_warning(20_000_000_000).is_some());
}

#[test]
fn humanize_reads_sensibly() {
    assert_eq!(humanize(512), "512 B");
    assert_eq!(humanize(1024), "1 KiB");
    assert_eq!(humanize(21_474_836_480), "20 GiB");
    assert_eq!(humanize(42_949_673_472), "40 GiB");
}

#[test]
fn each_fault_says_what_is_wrong() {
    let message = |text: &str| parse(text).expect_err("fault").message();
    assert_eq!(message("  "), "size is empty");
    assert_eq!(message("G"), "size \"G\" does not start with a number");
    assert_eq!(
        message("99999999999999999999"),
        "size \"99999999999999999999\" is out of range"
    );
    assert_eq!(
        message("20X"),
        "size \"20X\" has an unrecognized unit \"x\" (use K/M/G/T for binary, KB/MB/GB/TB for decimal)"
    );
    assert_eq!(
        message("999999999999T"),
        "size \"999999999999T\" overflows a 64-bit byte count"
    );
    assert_eq!(
        message("a\tb"),
        "size \"a\\tb\" does not start with a number"
    );
}

#[test]
fn misaligned_sizes_say_by_how_much() {
    let message = |n: u64| require_512_aligned(n).expect_err("fault").message();
    assert_eq!(message(0), "size must be greater than zero");
    assert_eq!(message(1025), "size 1025 is not a multiple of 512 (off by 1)");
    assert_eq!(
        mib_alignment_warning(1_048_576 + 512).as_deref(),
        Some("size 1049088 is not a multiple of 1 MiB; this works but is unusual and may produce surprising guest geometry")
    );
}

#[test]
fn fractions_of_a_unit_are_shown() {
    assert_eq!(humanize(0), "0 B");
    assert_eq!(humanize(1023), "1023 B");
    assert_eq!(humanize(1536), "1.50 KiB");
    assert_eq!(humanize(5 * 1024 * 1024 * 1024 / 2), "2.50 GiB");
    assert_eq!(humanize(1024_u64.pow(4)), "1 TiB");
}

#[test]
fn whole_units_read_back() {
    for bytes in [7_u64, 1024, 3 * 1024 * 1024, 20 * 1024_u64.pow(3), 2 * 1024_u64.pow(4)] {
        assert_eq!(parse(&humanize(bytes)).expect("parse"), bytes);
    }
}
