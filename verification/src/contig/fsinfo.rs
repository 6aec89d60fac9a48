//! What a filesystem says about itself: ntfs3 detection, the NTFS compression
//! attribute, and free space.
//!
//! The engine is filesystem-agnostic. These checks are ntfs3-specific and are
//! gated on actually being on ntfs3, so running against ext4 during
//! development neither errors nor silently misreports.

use vstd::prelude::*;

verus! {

/// `statfs` `f_type` for the in-kernel ntfs3 driver.
pub const NTFS3_MAGIC: i64 = 0x7366_746e;

/// The legacy read-mostly `ntfs` driver, for reporting only.
pub const NTFS_LEGACY_MAGIC: i64 = 0x5346_544e;

/// `FS_COMPR_FL`: the file is compressed.
pub const FS_COMPR_FL: i64 = 0x0000_0004;

/// `a * b`, or the largest count where the product does not fit.
pub open spec fn sat_mul(a: u64, b: u64) -> u64 {
    if a * b > u64::MAX {
        u64::MAX
    } else {
        (a * b) as u64
    }
}

/// `a * b`, or the largest count where the product does not fit.
pub fn saturating_product(a: u64, b: u64) -> (r: u64)
    ensures
        r == sat_mul(a, b),
{
    match a.checked_mul(b) {
        Some(v) => v,
        None => u64::MAX,
    }
}

/// True when the file lives on a volume mounted by the ntfs3 driver, as far as
/// its `statfs` magic was obtainable.
///
/// A failure to interrogate is reported as "not ntfs3" rather than as an
/// error: every caller uses this only to decide whether an ntfs3-specific
/// check applies.
pub fn is_ntfs3(magic: Option<i64>) -> (r: bool)
    ensures
        r == (magic == Some(NTFS3_MAGIC)),
{
    match magic {
        Some(m) => m == NTFS3_MAGIC,
        None => false,
    }
}

/// Whether the NTFS compression attribute is set, from the `statfs` magic and
/// the inode flags.
///
/// `None` means the filesystem does not expose the attribute, which is not a
/// failure: it is the normal answer on ext4 and on any driver without
/// `FS_IOC_GETFLAGS`.
pub fn is_compressed(magic: Option<i64>, flags: Option<i64>) -> (r: Option<bool>)
    ensures
        r == if magic == Some(NTFS3_MAGIC) && flags is Some {
            Some(flags->0 & FS_COMPR_FL != 0)
        } else {
            None
        },
{
    if !is_ntfs3(magic) {
        return None;
    }
    match flags {
        Some(f) => Some(f & FS_COMPR_FL != 0),
        None => None,
    }
}

/// Free bytes on a volume with `available` free blocks of `block_size` bytes.
pub fn free_space(available: u64, block_size: u64) -> (r: u64)
    ensures
        r == sat_mul(available, block_size),
{
    saturating_product(available, block_size)
}

/// The largest contiguous free run on the volume.
///
/// Always `None`. Determining it requires reading NTFS `$Bitmap`, which ntfs3
/// hides unless the volume was mounted with `showmeta`. The call site exists so
/// the diagnostic slot is wired up if a source ever appears.
pub fn largest_free_run(_path: &str) -> (r: Option<u64>)
    ensures
        r is None,
{
    None
}

/// The note behind a filesystem magic in a report.
pub open spec fn driver_note(magic: i64) -> Seq<char> {
    if magic == NTFS3_MAGIC {
        " (ntfs3)"@
    } else if magic == NTFS_LEGACY_MAGIC {
        " (ntfs, legacy driver)"@
    } else {
        ""@
    }
}

/// The note behind a filesystem magic in a report.
pub fn driver_name(magic: i64) -> (s: &'static str)
    ensures
        s@ == driver_note(magic),
{
    if magic == NTFS3_MAGIC {
        " (ntfs3)"
    } else if magic == NTFS_LEGACY_MAGIC {
        " (ntfs, legacy driver)"
    } else {
        ""
    }
}

/// Compression is known only on ntfs3, and only where the flags could be read;
/// there bit 2 of them tells.
pub proof fn law_compression_is_bit_two(magic: Option<i64>, flags: Option<i64>, r: Option<bool>)
    requires
        call_ensures(is_compressed, (magic, flags), r),
    ensures
        r is Some <==> magic == Some(0x7366_746ei64) && flags is Some,
        r matches Some(b) ==> (b <==> flags->0 & 4 != 0),
{
}

/// Free space is the product of blocks and their size, as far as 64 bits reach.
pub proof fn law_free_space_saturates(available: u64, block_size: u64, r: u64)
    requires
        call_ensures(free_space, (available, block_size), r),
    ensures
        available * block_size <= u64::MAX ==> r == available * block_size,
        available * block_size > u64::MAX ==> r == u64::MAX,
{
}

/// Only the in-kernel driver counts as ntfs3, and a filesystem that could not be
/// asked does not. Both NTFS drivers are noted in a report, and no others.
pub proof fn law_drivers_are_told_by_their_magic(
    magic: i64,
    known: bool,
    unknown: bool,
    note: &'static str,
)
    requires
        call_ensures(is_ntfs3, (Some(magic),), known),
        call_ensures(is_ntfs3, (None,), unknown),
        call_ensures(driver_name, (magic,), note),
    ensures
        known <==> magic == 0x7366_746e,
        !unknown,
        known ==> note@ == " (ntfs3)"@,
        magic == 0x5346_544e ==> note@ == " (ntfs, legacy driver)"@,
        magic != 0x7366_746e && magic != 0x5346_544e ==> note@.len() == 0,
{
    reveal_strlit("");
}

} // verus!
