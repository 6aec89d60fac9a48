use iodd::contig::volume::{
    backing_device, backing_link, decode_label, parse_boot_sector, parse_volume_record, u16_at,
    volume_record_location, BootSector, ATTR_END,
    ATTR_VOLUME_INFORMATION, ATTR_VOLUME_NAME, VOLUME_IS_DIRTY, VOLUME_MODIFIED_BY_CHKDSK,
};

const DEV: &str = "/dev/test";

fn path() -> &'static str {
    DEV
}

/// A minimal but structurally valid NTFS boot sector.
fn boot_sector(spc: u8, clusters_per_mft_record: u8) -> [u8; 512] {
    let mut b = [0u8; 512];
    b[3..11].copy_from_slice(b"NTFS    ");
    b[0x0B..0x0D].copy_from_slice(&512u16.to_le_bytes());
    b[0x0D] = spc;
    b[0x28..0x30].copy_from_slice(&1_000_000u64.to_le_bytes());
    b[0x30..0x38].copy_from_slice(&4u64.to_le_bytes());
    b[0x40] = clusters_per_mft_record;
    b
}

/// A `$Volume` MFT record carrying the given flags and label, with the
/// update sequence array applied as NTFS would write it.
fn volume_record(flags: u16, label: Option<&str>) -> Vec<u8> {
    const SECTOR: usize = 512;
    const SIZE: usize = 1024;
    let mut r = vec![0u8; SIZE];
    r[0..4].copy_from_slice(b"FILE");
    let usa_offset = 0x30u16;
    // One entry for the USN itself, plus one per sector.
    let usa_count = 1 + (SIZE / SECTOR) as u16;
    r[0x04..0x06].copy_from_slice(&usa_offset.to_le_bytes());
    r[0x06..0x08].copy_from_slice(&usa_count.to_le_bytes());
    let first_attr = 0x38u16;
    r[0x14..0x16].copy_from_slice(&first_attr.to_le_bytes());

    let mut off = usize::from(first_attr);

    if let Some(name) = label {
        let utf16: Vec<u8> = name
            .encode_utf16()
            .flat_map(u16::to_le_bytes)
            .collect::<Vec<u8>>();
        let vlen = utf16.len();
        let alen = 0x18 + vlen.next_multiple_of(8);
        r[off..off + 4].copy_from_slice(&ATTR_VOLUME_NAME.to_le_bytes());
        r[off + 4..off + 8].copy_from_slice(&(alen as u32).to_le_bytes());
        r[off + 8] = 0; // resident
        r[off + 0x10..off + 0x14].copy_from_slice(&(vlen as u32).to_le_bytes());
        r[off + 0x14..off + 0x16].copy_from_slice(&0x18u16.to_le_bytes());
        r[off + 0x18..off + 0x18 + vlen].copy_from_slice(&utf16);
        off += alen;
    }

    // $VOLUME_INFORMATION: 12-byte value, flags at offset 10.
    let vlen = 12usize;
    let alen = 0x18 + 16;
    r[off..off + 4].copy_from_slice(&ATTR_VOLUME_INFORMATION.to_le_bytes());
    r[off + 4..off + 8].copy_from_slice(&(alen as u32).to_le_bytes());
    r[off + 8] = 0;
    r[off + 0x10..off + 0x14].copy_from_slice(&(vlen as u32).to_le_bytes());
    r[off + 0x14..off + 0x16].copy_from_slice(&0x18u16.to_le_bytes());
    r[off + 0x18 + 8] = 3; // major
    r[off + 0x18 + 9] = 1; // minor
    r[off + 0x18 + 10..off + 0x18 + 12].copy_from_slice(&flags.to_le_bytes());
    off += alen;

    r[off..off + 4].copy_from_slice(&ATTR_END.to_le_bytes());
    let used = (off + 8) as u32;
    r[0x18..0x1C].copy_from_slice(&used.to_le_bytes());

    // Now perform the substitution NTFS performs on write: stash each
    // sector's last two bytes in the USA and stamp the USN in their place.
    let usn = 0x1234u16;
    let uo = usize::from(usa_offset);
    r[uo..uo + 2].copy_from_slice(&usn.to_le_bytes());
    for i in 1..usize::from(usa_count) {
        let tail = i * SECTOR - 2;
        let real = [r[tail], r[tail + 1]];
        r[uo + i * 2..uo + i * 2 + 2].copy_from_slice(&real);
        r[tail..tail + 2].copy_from_slice(&usn.to_le_bytes());
    }
    r
}

#[test]
fn boot_sector_yields_standard_geometry() {
    // 8 sectors/cluster = 4 KiB clusters; -10 => 1024-byte MFT records.
    let bs = parse_boot_sector(&boot_sector(8, 0xF6), path()).expect("parses");
    assert_eq!(bs.bytes_per_sector, 512);
    assert_eq!(bs.cluster_size, 4096);
    assert_eq!(bs.mft_record_size, 1024);
    assert_eq!(bs.mft_lcn, 4);
}

#[test]
fn mft_record_size_can_be_a_cluster_count() {
    // Positive means "this many clusters", used when clusters are small.
    let bs = parse_boot_sector(&boot_sector(1, 2), path()).expect("parses");
    assert_eq!(bs.cluster_size, 512);
    assert_eq!(bs.mft_record_size, 1024);
}

#[test]
fn large_clusters_use_the_shift_encoding() {
    // 0xF1 = -15 => 32 KiB clusters, beyond what a byte count could hold.
    let bs = parse_boot_sector(&boot_sector(0xF1, 0xF6), path()).expect("parses");
    assert_eq!(bs.cluster_size, 32768);
}

#[test]
fn a_non_ntfs_volume_is_rejected() {
    let mut b = boot_sector(8, 0xF6);
    b[3..11].copy_from_slice(b"MSDOS5.0");
    let err = parse_boot_sector(&b, path()).expect_err("not NTFS");
    assert!(err.message().contains("no NTFS signature"), "{err:?}");
}

#[test]
fn an_implausible_sector_size_is_rejected() {
    let mut b = boot_sector(8, 0xF6);
    b[0x0B..0x0D].copy_from_slice(&777u16.to_le_bytes());
    let err = parse_boot_sector(&b, path()).expect_err("not a power of two");
    assert!(err.message().contains("sector size"), "{err:?}");
}

#[test]
fn a_truncated_boot_sector_is_rejected() {
    assert!(parse_boot_sector(&[0u8; 4], path()).is_err());
}

#[test]
fn a_clean_volume_reads_as_clean() {
    let mut r = volume_record(0, Some("IODD"));
    let info = parse_volume_record(&mut r, 512, path()).expect("parses");
    assert!(!info.is_dirty());
    assert_eq!(info.label.as_deref(), Some("IODD"));
    assert_eq!((info.major, info.minor), (3, 1));
    assert!(info.flag_names().is_empty());
}

#[test]
fn the_dirty_flag_is_read() {
    let mut r = volume_record(VOLUME_IS_DIRTY, Some("IODD"));
    let info = parse_volume_record(&mut r, 512, path()).expect("parses");
    assert!(info.is_dirty());
    assert_eq!(info.flag_names(), vec!["dirty"]);
}

#[test]
fn several_flags_are_reported_together() {
    let mut r = volume_record(VOLUME_IS_DIRTY | VOLUME_MODIFIED_BY_CHKDSK, None);
    let info = parse_volume_record(&mut r, 512, path()).expect("parses");
    assert!(info.is_dirty());
    assert_eq!(info.flag_names(), vec!["dirty", "modified-by-chkdsk"]);
}

#[test]
fn a_volume_without_a_label_is_not_an_error() {
    let mut r = volume_record(0, None);
    let info = parse_volume_record(&mut r, 512, path()).expect("parses");
    assert_eq!(info.label, None);
}

#[test]
fn fixups_are_reversed_rather_than_read_literally() {
    // Put recognisable bytes at the end of the first sector; after the
    // substitution the record holds the USN there, and parsing must
    // restore the original. If fixups were skipped the value would be the
    // USN, which is exactly the class of bug this guards.
    let mut r = volume_record(VOLUME_IS_DIRTY, None);
    assert_eq!(
        u16_at(&r, 510),
        Some(0x1234),
        "the record as written carries the USN in the sector tail"
    );
    parse_volume_record(&mut r, 512, path()).expect("parses");
    assert_eq!(
        u16_at(&r, 510),
        Some(0),
        "after fixups the real bytes are back"
    );
}

#[test]
fn a_torn_record_is_rejected() {
    let mut r = volume_record(0, None);
    // Corrupt one sector's stamped USN: that is precisely the signal that
    // the sector was written at a different time from its neighbours.
    r[510] = 0xFF;
    let err = parse_volume_record(&mut r, 512, path()).expect_err("torn");
    assert!(err.message().contains("torn"), "{err:?}");
}

#[test]
fn a_record_that_is_not_a_file_record_is_rejected() {
    let mut r = volume_record(0, None);
    r[0..4].copy_from_slice(b"BAAD");
    let err = parse_volume_record(&mut r, 512, path()).expect_err("not FILE");
    assert!(err.message().contains("not a FILE record"), "{err:?}");
}

#[test]
fn a_zero_length_attribute_does_not_hang() {
    let mut r = volume_record(0, None);
    let first = usize::from(u16_at(&r, 0x14).expect("offset"));
    // Undo fixups first so the write lands on the real record, then
    // re-stamp is unnecessary because the corruption is in sector 0.
    r[first + 4..first + 8].copy_from_slice(&0u32.to_le_bytes());
    let err = parse_volume_record(&mut r, 512, path()).expect_err("implausible length");
    assert!(err.message().contains("implausible length"), "{err:?}");
}

#[test]
fn a_record_without_volume_information_is_rejected() {
    let mut r = volume_record(0, None);
    let first = usize::from(u16_at(&r, 0x14).expect("offset"));
    r[first..first + 4].copy_from_slice(&ATTR_END.to_le_bytes());
    let err = parse_volume_record(&mut r, 512, path()).expect_err("no info");
    assert!(err.message().contains("$VOLUME_INFORMATION"), "{err:?}");
}

#[test]
fn mft_record_offset_is_lcn_times_cluster_plus_index() {
    let bs = BootSector {
        bytes_per_sector: 512,
        cluster_size: 4096,
        mft_lcn: 786_432,
        mft_record_size: 1024,
        total_sectors: 1_000_000,
    };
    assert_eq!(
        bs.mft_record_offset(3),
        Some(786_432 * 4096 + 3 * 1024),
        "$Volume is the fourth record in the MFT"
    );
}

#[test]
fn mft_record_offset_refuses_to_overflow() {
    let bs = BootSector {
        bytes_per_sector: 512,
        cluster_size: 4096,
        mft_lcn: u64::MAX,
        mft_record_size: 1024,
        total_sectors: 0,
    };
    assert_eq!(bs.mft_record_offset(3), None);
}



#[test]
fn labels_round_trip_through_utf16() {
    let utf16: Vec<u8> = "Café".encode_utf16().flat_map(u16::to_le_bytes).collect();
    assert_eq!(decode_label(&utf16).as_deref(), Some("Café"));
    assert_eq!(decode_label(&[]), None);
    assert_eq!(decode_label(&[0x41]), None, "odd length is not UTF-16");
}

#[test]
fn the_volume_record_is_found() {
    let bs = parse_boot_sector(&boot_sector(8, 0xF6), path()).expect("parses");
    assert_eq!(
        volume_record_location(&bs, path()).expect("found"),
        (4 * 4096 + 3 * 1024, 1024)
    );
    let far = BootSector { mft_lcn: u64::MAX, ..bs };
    let err = volume_record_location(&far, path()).expect_err("overflow");
    assert_eq!(
        err.message(),
        "could not read NTFS volume state from /dev/test: MFT offset overflows"
    );
}

#[test]
fn device_numbers_lead_to_their_link() {
    assert_eq!(backing_link(0x0811), "/sys/dev/block/8:17");
    assert_eq!(backing_link(0x0010_0300), "/sys/dev/block/3:256");
    assert_eq!(backing_link(u64::MAX), "/sys/dev/block/4294967295:4294967295");
}

#[test]
fn links_lead_to_their_device() {
    assert_eq!(
        backing_device("../../devices/pci0/usb1/block/sdb/sdb1").as_deref(),
        Some("/dev/sdb1")
    );
    assert_eq!(backing_device(".."), None);
}

#[test]
fn labels_survive_surrogates_and_padding() {
    let bytes = |s: &str| -> Vec<u8> { s.encode_utf16().flat_map(u16::to_le_bytes).collect() };
    assert_eq!(decode_label(&bytes("a😀b")).as_deref(), Some("a😀b"));
    assert_eq!(decode_label(&bytes("abc\0\0")).as_deref(), Some("abc"));
    assert_eq!(decode_label(&[0x00, 0xD8]).as_deref(), Some("\u{fffd}"));
}
