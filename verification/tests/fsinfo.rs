use iodd::contig::fsinfo::{
    driver_name, free_space, is_compressed, is_ntfs3, largest_free_run, FS_COMPR_FL, NTFS3_MAGIC,
    NTFS_LEGACY_MAGIC,
};
use iodd::contig::{ExtentMap, FileFacts};

#[test]
fn magics_are_the_measured_constants() {
    // Guards a constant nobody would otherwise notice a typo in.
    assert_eq!(NTFS3_MAGIC, 0x7366_746e);
    assert_eq!(NTFS_LEGACY_MAGIC, 0x5346_544e);
}

#[test]
fn a_dev_box_filesystem_is_not_reported_as_ntfs3() {
    assert!(!is_ntfs3(Some(0xEF53)));
    assert!(!is_ntfs3(Some(NTFS_LEGACY_MAGIC)));
    assert!(!is_ntfs3(None));
    assert!(is_ntfs3(Some(NTFS3_MAGIC)));
}

#[test]
fn compression_is_unknown_off_ntfs3() {
    assert_eq!(is_compressed(Some(0xEF53), Some(FS_COMPR_FL)), None);
    assert_eq!(is_compressed(None, Some(FS_COMPR_FL)), None);
    assert_eq!(is_compressed(Some(NTFS3_MAGIC), None), None);
    assert_eq!(is_compressed(Some(NTFS3_MAGIC), Some(FS_COMPR_FL)), Some(true));
    assert_eq!(is_compressed(Some(NTFS3_MAGIC), Some(0)), Some(false));
}

#[test]
fn free_space_is_blocks_times_their_size() {
    assert_eq!(free_space(10, 4096), 40_960);
    assert_eq!(free_space(u64::MAX, 2), u64::MAX);
}

#[test]
fn largest_free_run_is_honestly_unavailable() {
    assert_eq!(largest_free_run("/"), None);
}

#[test]
fn facts_are_gathered_from_what_the_system_says() {
    let map = ExtentMap { runs: vec![], raw_records: 0, any_unwritten: false };
    let f = FileFacts::gather(1025, 2, map.clone(), Some(NTFS3_MAGIC), Some(FS_COMPR_FL));
    assert_eq!(f.allocated, 1024);
    assert!(f.is_sparse());
    assert!(!f.is_contiguous());
    assert_eq!(f.compressed, Some(true));
    let f = FileFacts::gather(1024, u64::MAX, map, None, None);
    assert_eq!(f.allocated, u64::MAX);
    assert!(!f.is_sparse());
    assert_eq!(f.compressed, None);
}

#[test]
fn drivers_are_named() {
    assert_eq!(driver_name(NTFS3_MAGIC), " (ntfs3)");
    assert_eq!(driver_name(NTFS_LEGACY_MAGIC), " (ntfs, legacy driver)");
    assert_eq!(driver_name(0xEF53), "");
}
