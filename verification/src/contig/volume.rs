//! NTFS volume state, out of the boot sector and the `$Volume` record.
//!
//! Deliberately shallow: the boot sector, one MFT record, and one attribute
//! within it. This is not an NTFS implementation: it never follows a
//! non-resident attribute's run list, and treats anything it does not
//! recognise as "unreadable" rather than guessing.
//!
//! NTFS mirrors the first four MFT records into `$MFTMirr`, and record 3 is
//! `$Volume`, so the flags read here are stored in two places. `$MFT` is
//! authoritative and is what this module consults.

use vstd::arithmetic::power2::pow2;
use vstd::prelude::*;
use vstd::slice::slice_subrange;

use super::error::{Error, Result};
use crate::bytes::{
    has_prefix, law_little_endian_fields_hold_digits, law_prefixes_agree_byte_by_byte, le_digits,
    le_field, le_value, lemma_byte_ranges, lemma_le_value_round_trip, read_le, starts_with,
};
use crate::paths::{file_name, inside, join, law_names_read_back, name_of, plain_name};
use crate::text::{dec, decimal};

verus! {

/// `$Volume` is always MFT record 3.
pub const VOLUME_MFT_RECORD: u64 = 3;

/// `$VOLUME_NAME`.
pub const ATTR_VOLUME_NAME: u32 = 0x0000_0060;

/// `$VOLUME_INFORMATION`.
pub const ATTR_VOLUME_INFORMATION: u32 = 0x0000_0070;

/// Attribute-list terminator.
pub const ATTR_END: u32 = 0xFFFF_FFFF;

/// The volume was not unmounted cleanly, or the driver hit an error. Windows
/// runs `chkdsk` on next mount; Linux drivers generally refuse to mount at all.
pub const VOLUME_IS_DIRTY: u16 = 0x0001;

/// `$LogFile` should be resized on next mount.
pub const VOLUME_RESIZE_LOG_FILE: u16 = 0x0002;

/// The volume should be upgraded on next mount.
pub const VOLUME_UPGRADE_ON_MOUNT: u16 = 0x0004;

/// Last mounted by Windows NT 4.
pub const VOLUME_MOUNTED_ON_NT4: u16 = 0x0008;

/// A USN journal deletion was interrupted.
pub const VOLUME_DELETE_USN_UNDERWAY: u16 = 0x0010;

/// Object IDs need repair.
pub const VOLUME_REPAIR_OBJECT_ID: u16 = 0x0020;

/// `chkdsk` has modified the volume.
pub const VOLUME_MODIFIED_BY_CHKDSK: u16 = 0x8000;

/// Geometry read out of the NTFS boot sector.
#[derive(Debug, Clone, Copy, PartialEq, Eq, Structural)]
pub struct BootSector {
    pub bytes_per_sector: u32,
    pub cluster_size: u64,
    pub mft_lcn: u64,
    pub mft_record_size: u64,
    pub total_sectors: u64,
}

impl BootSector {
    /// Where an MFT record lies, as a mathematical offset.
    pub open spec fn record_offset(&self, record: u64) -> int {
        self.mft_lcn * self.cluster_size + record * self.mft_record_size
    }

    /// Byte offset of an MFT record; `None` where it exceeds 64 bits.
    pub fn mft_record_offset(&self, record: u64) -> (r: Option<u64>)
        ensures
            r is Some <==> self.record_offset(record) <= u64::MAX,
            r matches Some(at) ==> at == self.record_offset(record),
    {
        proof {
            assert(self.mft_lcn * self.cluster_size >= 0) by (nonlinear_arith);
            assert(record * self.mft_record_size >= 0) by (nonlinear_arith);
        }
        let base = match self.mft_lcn.checked_mul(self.cluster_size) {
            Some(v) => v,
            None => {
                return None;
            },
        };
        let index = match record.checked_mul(self.mft_record_size) {
            Some(v) => v,
            None => {
                return None;
            },
        };
        base.checked_add(index)
    }
}

/// `$VOLUME_INFORMATION`, plus the volume label if one is set.
#[derive(Debug, Clone, PartialEq, Eq)]
pub struct VolumeInfo {
    /// `None` when the volume has no label, which is normal.
    pub label: Option<String>,
    /// NTFS version major, e.g. 3 for the 3.1 written by every Windows since XP.
    pub major: u8,
    pub minor: u8,
    pub flags: u16,
}

/// `name` where the bit is set, nothing otherwise.
pub open spec fn named_bit(flags: u16, bit: u16, name: Seq<char>) -> Seq<Seq<char>> {
    if flags & bit != 0 {
        seq![name]
    } else {
        Seq::empty()
    }
}

/// The names of the volume flags that are set.
pub open spec fn flag_texts(flags: u16) -> Seq<Seq<char>> {
    named_bit(flags, VOLUME_IS_DIRTY, "dirty"@) + named_bit(
        flags,
        VOLUME_RESIZE_LOG_FILE,
        "resize-logfile"@,
    ) + named_bit(flags, VOLUME_UPGRADE_ON_MOUNT, "upgrade-on-mount"@) + named_bit(
        flags,
        VOLUME_MOUNTED_ON_NT4,
        "mounted-on-nt4"@,
    ) + named_bit(flags, VOLUME_DELETE_USN_UNDERWAY, "delete-usn-underway"@) + named_bit(
        flags,
        VOLUME_REPAIR_OBJECT_ID,
        "repair-object-id"@,
    ) + named_bit(flags, VOLUME_MODIFIED_BY_CHKDSK, "modified-by-chkdsk"@)
}

/// The texts that a vector of string slices holds.
pub open spec fn name_texts(v: Seq<&'static str>) -> Seq<Seq<char>> {
    Seq::new(v.len(), |i: int| v[i]@)
}

fn push_named_bit(names: &mut Vec<&'static str>, flags: u16, bit: u16, name: &'static str)
    ensures
        name_texts(final(names)@) == name_texts(old(names)@) + named_bit(flags, bit, name@),
{
    if flags & bit != 0 {
        names.push(name);
    }
}

impl VolumeInfo {
    /// Whether the dirty flag is set.
    pub open spec fn dirty(&self) -> bool {
        self.flags & VOLUME_IS_DIRTY != 0
    }

    /// The volume needs `chkdsk` or `ntfsfix -d` before it will mount again.
    pub fn is_dirty(&self) -> (r: bool)
        ensures
            r == self.dirty(),
    {
        self.flags & VOLUME_IS_DIRTY != 0
    }

    /// Human-readable flag names, for diagnostics. Empty when nothing is set.
    pub fn flag_names(&self) -> (names: Vec<&'static str>)
        ensures
            name_texts(names@) == flag_texts(self.flags),
    {
        let mut names: Vec<&'static str> = Vec::new();
        assert(name_texts(names@) == Seq::<Seq<char>>::empty());
        push_named_bit(&mut names, self.flags, VOLUME_IS_DIRTY, "dirty");
        push_named_bit(&mut names, self.flags, VOLUME_RESIZE_LOG_FILE, "resize-logfile");
        push_named_bit(&mut names, self.flags, VOLUME_UPGRADE_ON_MOUNT, "upgrade-on-mount");
        push_named_bit(&mut names, self.flags, VOLUME_MOUNTED_ON_NT4, "mounted-on-nt4");
        push_named_bit(&mut names, self.flags, VOLUME_DELETE_USN_UNDERWAY, "delete-usn-underway");
        push_named_bit(&mut names, self.flags, VOLUME_REPAIR_OBJECT_ID, "repair-object-id");
        push_named_bit(&mut names, self.flags, VOLUME_MODIFIED_BY_CHKDSK, "modified-by-chkdsk");
        names
    }
}

/// Whether `e` says that the volume at `path` is unreadable for `reason`.
pub open spec fn is_unreadable(e: Error, path: Seq<char>, reason: Seq<char>) -> bool {
    e matches Error::VolumeUnreadable { path: p, reason: r } && p@ == path && r@ == reason
}

fn unreadable(path: &str, reason: &str) -> (e: Error)
    ensures
        is_unreadable(e, path@, reason@),
{
    Error::VolumeUnreadable { path: path.to_owned(), reason: reason.to_owned() }
}

// ---------------------------------------------------------------------------
// Fields
// ---------------------------------------------------------------------------

/// The byte at `off`, if there is one.
pub fn u8_at(b: &[u8], off: usize) -> (r: Option<u8>)
    ensures
        r is Some <==> off < b@.len(),
        r matches Some(v) ==> v == b@[off as int],
{
    if off < b.len() {
        Some(b[off])
    } else {
        None
    }
}

/// The little-endian 16-bit number at `off`, if it lies inside `b`.
pub fn u16_at(b: &[u8], off: usize) -> (r: Option<u16>)
    ensures
        r is Some <==> le_field(b@, off as int, 2) is Some,
        r matches Some(v) ==> le_field(b@, off as int, 2) == Some(v as nat),
{
    proof {
        lemma_byte_ranges();
    }
    match read_le(b, off, 2) {
        Some(v) => Some(v as u16),
        None => None,
    }
}

/// The little-endian 32-bit number at `off`, if it lies inside `b`.
pub fn u32_at(b: &[u8], off: usize) -> (r: Option<u32>)
    ensures
        r is Some <==> le_field(b@, off as int, 4) is Some,
        r matches Some(v) ==> le_field(b@, off as int, 4) == Some(v as nat),
{
    proof {
        lemma_byte_ranges();
    }
    match read_le(b, off, 4) {
        Some(v) => Some(v as u32),
        None => None,
    }
}

/// The little-endian 64-bit number at `off`, if it lies inside `b`.
pub fn u64_at(b: &[u8], off: usize) -> (r: Option<u64>)
    ensures
        r is Some <==> le_field(b@, off as int, 8) is Some,
        r matches Some(v) ==> le_field(b@, off as int, 8) == Some(v as nat),
{
    read_le(b, off, 8)
}

/// Whether `n` is a power of two.
pub open spec fn power_of_two(n: nat) -> bool {
    exists|k: nat| n == #[trigger] pow2(k)
}

/// Whether `n` is a power of two.
pub fn is_power_of_two(n: u64) -> (r: bool)
    ensures
        r == power_of_two(n as nat),
    decreases n,
{
    if n == 0 {
        proof {
            assert forall|k: nat| 0 != #[trigger] pow2(k) by {
                vstd::arithmetic::power2::lemma_pow2_pos(k);
            }
        }
        return false;
    }
    if n == 1 {
        proof {
            vstd::arithmetic::power2::lemma2_to64();
            assert(n as nat == pow2(0));
        }
        return true;
    }
    if n % 2 != 0 {
        proof {
            assert forall|k: nat| n as nat != #[trigger] pow2(k) by {
                vstd::arithmetic::power2::lemma2_to64();
                if k > 0 {
                    vstd::arithmetic::power2::lemma_pow2_unfold(k);
                }
            }
        }
        return false;
    }
    proof {
        let half = (n / 2) as nat;
        if power_of_two(half) {
            let k = choose|k: nat| half == #[trigger] pow2(k);
            vstd::arithmetic::power2::lemma_pow2_unfold(k + 1);
            assert(n as nat == pow2(k + 1));
        }
        if power_of_two(n as nat) {
            let k = choose|k: nat| n as nat == #[trigger] pow2(k);
            vstd::arithmetic::power2::lemma2_to64();
            assert(k > 0);
            vstd::arithmetic::power2::lemma_pow2_unfold(k);
            assert(half == pow2((k - 1) as nat));
        }
    }
    is_power_of_two(n / 2)
}

/// How many `unit`s or how large a power of two a size byte stands for.
///
/// NTFS encodes "clusters per X" as a signed byte: positive is a count,
/// otherwise its magnitude is a binary shift, used when the size exceeds one
/// cluster.
pub open spec fn encoded_size(raw: u8, unit: u64) -> Option<nat> {
    if 1 <= raw <= 127 {
        if unit * raw <= u64::MAX {
            Some((unit * raw) as nat)
        } else {
            None
        }
    } else {
        let shift: nat = if raw == 0 {
            0
        } else {
            (256 - raw) as nat
        };
        if shift < 64 {
            Some(pow2(shift))
        } else {
            None
        }
    }
}

fn sized_field(raw: u8, unit: u64) -> (r: Option<u64>)
    ensures
        r is Some <==> encoded_size(raw, unit) is Some,
        r matches Some(v) ==> encoded_size(raw, unit) == Some(v as nat),
{
    if 1 <= raw && raw <= 127 {
        return unit.checked_mul(raw as u64);
    }
    let shift: u64 = if raw == 0 {
        0
    } else {
        256 - raw as u64
    };
    if shift >= 64 {
        return None;
    }
    proof {
        vstd::bits::lemma_u64_pow2_no_overflow(shift as nat);
        vstd::bits::lemma_u64_shl_is_mul(1, shift);
    }
    Some(1u64 << shift)
}

// ---------------------------------------------------------------------------
// The boot sector
// ---------------------------------------------------------------------------

/// `NTFS` and four spaces, at offset 3 of the boot sector.
pub const OEM_ID: [u8; 8] = [0x4e, 0x54, 0x46, 0x53, 0x20, 0x20, 0x20, 0x20];

/// Whether the boot sector carries the NTFS identifier.
pub open spec fn has_oem_id(b: Seq<u8>) -> bool {
    b.len() >= 11 && b.subrange(3, 11) == OEM_ID@
}

pub open spec fn plausible_sector(n: nat) -> bool {
    256 <= n <= 8192 && power_of_two(n)
}

pub open spec fn plausible_cluster(n: nat) -> bool {
    0 < n <= 2 * 1024 * 1024 && power_of_two(n)
}

pub open spec fn plausible_record(n: nat) -> bool {
    256 <= n <= 65536 && power_of_two(n)
}

/// The geometry that a boot sector states, or why it states none.
pub open spec fn boot_geometry(b: Seq<u8>) -> std::result::Result<BootSector, Seq<char>> {
    let sector = le_field(b, 0x0b, 2);
    let cluster = encoded_size(b[0x0d], sector->0 as u64);
    let total_sectors = le_field(b, 0x28, 8);
    let mft_lcn = le_field(b, 0x30, 8);
    let record = encoded_size(b[0x40], cluster->0 as u64);
    if !has_oem_id(b) {
        Err("no NTFS signature in the boot sector"@)
    } else if sector is None {
        Err("truncated boot sector"@)
    } else if !plausible_sector(sector->0) {
        Err("implausible sector size "@ + decimal(sector->0))
    } else if b.len() <= 0x0d {
        Err("truncated boot sector"@)
    } else if cluster is None {
        Err("implausible cluster size"@)
    } else if !plausible_cluster(cluster->0) {
        Err("implausible cluster size "@ + decimal(cluster->0))
    } else if total_sectors is None || mft_lcn is None {
        Err("truncated"@)
    } else if b.len() <= 0x40 {
        Err("truncated boot sector"@)
    } else if record is None {
        Err("implausible MFT record"@)
    } else if !plausible_record(record->0) {
        Err("implausible MFT record size "@ + decimal(record->0))
    } else {
        Ok(
            BootSector {
                bytes_per_sector: sector->0 as u32,
                cluster_size: cluster->0 as u64,
                mft_lcn: mft_lcn->0 as u64,
                mft_record_size: record->0 as u64,
                total_sectors: total_sectors->0 as u64,
            },
        )
    }
}

fn implausible(path: &str, what: &str, n: u64) -> (e: Error)
    ensures
        is_unreadable(e, path@, what@ + decimal(n as nat)),
{
    let mut reason = what.to_owned();
    reason.append(dec(n).as_str());
    unreadable(path, reason.as_str())
}

/// Parse the NTFS boot sector, the first 512 bytes of the partition.
pub fn parse_boot_sector(boot: &[u8], path: &str) -> (r: Result<BootSector>)
    ensures
        r is Ok <==> boot_geometry(boot@) is Ok,
        r matches Ok(bs) ==> boot_geometry(boot@) == Ok::<BootSector, Seq<char>>(bs),
        r matches Err(e) ==> boot_geometry(boot@) is Err && is_unreadable(
            e,
            path@,
            boot_geometry(boot@)->Err_0,
        ),
{
    if boot.len() < 11 || !starts_with(slice_subrange(boot, 3, 11), &OEM_ID) {
        proof {
            if boot@.len() >= 11 {
                let s = boot@.subrange(3, 11);
                assert(s.take(8) == s);
            }
        }
        return Err(unreadable(path, "no NTFS signature in the boot sector"));
    }
    proof {
        let s = boot@.subrange(3, 11);
        assert(s.take(8) == s);
    }
    let bytes_per_sector: u64 = match u16_at(boot, 0x0b) {
        Some(v) => v as u64,
        None => {
            return Err(unreadable(path, "truncated boot sector"));
        },
    };
    if bytes_per_sector < 256 || bytes_per_sector > 8192 || !is_power_of_two(bytes_per_sector) {
        return Err(implausible(path, "implausible sector size ", bytes_per_sector));
    }
    let spc: u8 = match u8_at(boot, 0x0d) {
        Some(v) => v,
        None => {
            return Err(unreadable(path, "truncated boot sector"));
        },
    };
    let cluster_size: u64 = match sized_field(spc, bytes_per_sector) {
        Some(v) => v,
        None => {
            return Err(unreadable(path, "implausible cluster size"));
        },
    };
    if cluster_size == 0 || cluster_size > 2 * 1024 * 1024 || !is_power_of_two(cluster_size) {
        return Err(implausible(path, "implausible cluster size ", cluster_size));
    }
    let total_sectors: u64 = match u64_at(boot, 0x28) {
        Some(v) => v,
        None => {
            return Err(unreadable(path, "truncated"));
        },
    };
    let mft_lcn: u64 = match u64_at(boot, 0x30) {
        Some(v) => v,
        None => {
            return Err(unreadable(path, "truncated"));
        },
    };
    let cpr: u8 = match u8_at(boot, 0x40) {
        Some(v) => v,
        None => {
            return Err(unreadable(path, "truncated boot sector"));
        },
    };
    let mft_record_size: u64 = match sized_field(cpr, cluster_size) {
        Some(v) => v,
        None => {
            return Err(unreadable(path, "implausible MFT record"));
        },
    };
    // 1024 in every volume anyone will meet, but the field is authoritative.
    if mft_record_size < 256 || mft_record_size > 65536 || !is_power_of_two(mft_record_size) {
        return Err(implausible(path, "implausible MFT record size ", mft_record_size));
    }
    Ok(
        BootSector {
            bytes_per_sector: bytes_per_sector as u32,
            cluster_size,
            mft_lcn,
            mft_record_size,
            total_sectors,
        },
    )
}

/// Where the `$Volume` record lies and how long it is.
///
/// The record of a boot sector from [`parse_boot_sector`] always fits in
/// memory; only its offset can exceed 64 bits.
pub fn volume_record_location(bs: &BootSector, path: &str) -> (r: Result<(u64, usize)>)
    ensures
        r is Ok <==> bs.record_offset(VOLUME_MFT_RECORD) <= u64::MAX && bs.mft_record_size
            <= usize::MAX,
        r matches Ok(at) ==> at.0 == bs.record_offset(VOLUME_MFT_RECORD) && at.1
            == bs.mft_record_size,
        r matches Err(e) ==> is_unreadable(
            e,
            path@,
            if bs.record_offset(VOLUME_MFT_RECORD) > u64::MAX {
                "MFT offset overflows"@
            } else {
                "MFT record larger than addressable memory"@
            },
        ),
{
    let offset: u64 = match bs.mft_record_offset(VOLUME_MFT_RECORD) {
        Some(v) => v,
        None => {
            return Err(unreadable(path, "MFT offset overflows"));
        },
    };
    if bs.mft_record_size > usize::MAX as u64 {
        return Err(unreadable(path, "MFT record larger than addressable memory"));
    }
    Ok((offset, bs.mft_record_size as usize))
}

// ---------------------------------------------------------------------------
// Fixups
// ---------------------------------------------------------------------------

/// A record, and why it could not be put right where it could not.
pub struct Fixed {
    pub record: Seq<u8>,
    pub fault: Option<Seq<char>>,
}

/// `r` with the two bytes at `at` replaced by `v`, least significant first.
pub open spec fn with_u16(r: Seq<u8>, at: int, v: nat) -> Seq<u8> {
    r.update(at, (v % 256) as u8).update(at + 1, (v / 256) as u8)
}

/// Undo the substitution from sector `i` on: each sector's last two bytes must
/// hold the sequence number `usn`, and get back the bytes that the array at
/// `usa` keeps for them.
pub open spec fn unstamp(r: Seq<u8>, sector: int, usa: int, count: int, usn: nat, i: int) -> Fixed
    decreases count - i,
{
    if i >= count {
        Fixed { record: r, fault: None }
    } else {
        let entry = le_field(r, usa + i * 2, 2);
        let tail = i * sector - 2;
        let present = le_field(r, tail, 2);
        if entry is None {
            Fixed { record: r, fault: Some("USA entry outside record"@) }
        } else if present is None {
            Fixed { record: r, fault: Some("sector tail outside record"@) }
        } else if present->0 != usn {
            Fixed {
                record: r,
                fault: Some(
                    "torn MFT record: sector "@ + decimal(i as nat)
                        + " was not written with the rest"@,
                ),
            }
        } else {
            unstamp(with_u16(r, tail, entry->0), sector, usa, count, usn, i + 1)
        }
    }
}

/// The record with its update-sequence-array substitution reversed.
pub open spec fn fixed_up(r: Seq<u8>, sector: int) -> Fixed {
    let usa = le_field(r, 0x04, 2);
    let count = le_field(r, 0x06, 2);
    let usn = le_field(r, usa->0 as int, 2);
    if usa is None || count is None {
        Fixed { record: r, fault: Some("truncated MFT record"@) }
    } else if count->0 == 0 {
        Fixed { record: r, fault: Some("MFT record has no update sequence array"@) }
    } else if (count->0 - 1) * sector != r.len() {
        Fixed { record: r, fault: Some("update sequence array does not span the record"@) }
    } else if usn is None {
        Fixed { record: r, fault: Some("USA outside record"@) }
    } else {
        unstamp(r, sector, usa->0 as int, count->0 as int, usn->0, 1)
    }
}

fn torn(path: &str, sector: u64) -> (e: Error)
    ensures
        is_unreadable(
            e,
            path@,
            "torn MFT record: sector "@ + decimal(sector as nat)
                + " was not written with the rest"@,
        ),
{
    let mut reason = "torn MFT record: sector ".to_owned();
    reason.append(dec(sector).as_str());
    reason.append(" was not written with the rest");
    unreadable(path, reason.as_str())
}

/// Reverse the update-sequence-array substitution, in place.
///
/// NTFS overwrites the last two bytes of every sector in a metadata record
/// with a sequence number, stashing the real bytes in an array in the record
/// header. If a sector was written but its neighbours were not, the numbers
/// disagree and the record is known to be torn. Undoing this is mandatory
/// before reading any field that might straddle a sector boundary.
pub fn apply_fixups(record: &mut [u8], bytes_per_sector: u32, path: &str) -> (r: Result<()>)
    requires
        bytes_per_sector != 1,
    ensures
        final(record)@ == fixed_up(old(record)@, bytes_per_sector as int).record,
        r is Ok <==> fixed_up(old(record)@, bytes_per_sector as int).fault is None,
        r matches Err(e) ==> is_unreadable(
            e,
            path@,
            fixed_up(old(record)@, bytes_per_sector as int).fault->0,
        ),
{
    let ghost start = record@;
    let usa: usize = match u16_at(record, 0x04) {
        Some(v) => v as usize,
        None => {
            return Err(unreadable(path, "truncated MFT record"));
        },
    };
    let count: usize = match u16_at(record, 0x06) {
        Some(v) => v as usize,
        None => {
            return Err(unreadable(path, "truncated MFT record"));
        },
    };
    if count == 0 {
        return Err(unreadable(path, "MFT record has no update sequence array"));
    }
    assert((count - 1) * bytes_per_sector <= 65535 * 0x1_0000_0000) by (nonlinear_arith)
        requires
            1 <= count <= 65535,
    ;
    let span: u64 = (count as u64 - 1) * bytes_per_sector as u64;
    if span != record.len() as u64 {
        return Err(unreadable(path, "update sequence array does not span the record"));
    }
    let usn: u16 = match u16_at(record, usa) {
        Some(v) => v,
        None => {
            return Err(unreadable(path, "USA outside record"));
        },
    };
    let sector: usize = bytes_per_sector as usize;
    let ghost whole = unstamp(start, sector as int, usa as int, count as int, usn as nat, 1);
    let mut i: usize = 1;
    while i < count
        invariant
            1 <= i <= count <= u16::MAX,
            usa <= u16::MAX,
            sector == bytes_per_sector,
            sector != 1,
            (count - 1) * sector == record@.len(),
            record@.len() <= usize::MAX,
            whole == unstamp(record@, sector as int, usa as int, count as int, usn as nat, i as int),
            whole == fixed_up(old(record)@, bytes_per_sector as int),
        decreases count - i,
    {
        let entry: u16 = match u16_at(record, usa + i * 2) {
            Some(v) => v,
            None => {
                return Err(unreadable(path, "USA entry outside record"));
            },
        };
        proof {
            assert(sector >= 2) by {
                if sector == 0 {
                    assert((count - 1) * sector == 0) by (nonlinear_arith)
                        requires
                            sector == 0,
                    ;
                }
            }
            assert(i * sector <= (count - 1) * sector) by (nonlinear_arith)
                requires
                    i <= count - 1,
                    0 <= sector,
            ;
            assert(i * sector >= sector) by (nonlinear_arith)
                requires
                    i >= 1,
                    0 <= sector,
            ;
        }
        let tail: usize = i * sector - 2;
        let present: u16 = match u16_at(record, tail) {
            Some(v) => v,
            None => {
                return Err(unreadable(path, "sector tail outside record"));
            },
        };
        if present != usn {
            return Err(torn(path, i as u64));
        }
        record[tail] = (entry % 256) as u8;
        record[tail + 1] = (entry / 256) as u8;
        i += 1;
    }
    Ok(())
}

// ---------------------------------------------------------------------------
// The label
// ---------------------------------------------------------------------------

/// `char::from_u32`: the character with that code point, where there is one;
/// surrogates and numbers above 0x10ffff have none.
pub assume_specification[ char::from_u32 ](i: u32) -> (r: Option<char>)
    ensures
        r is Some <==> i < 0xd800 || 0xdfff < i <= 0x10ffff,
        r matches Some(c) ==> c == i as char,
;

/// What stands for a surrogate without its partner.
pub const REPLACEMENT: char = '\u{fffd}';

pub open spec fn high_surrogate(u: u16) -> bool {
    0xd800 <= u <= 0xdbff
}

pub open spec fn low_surrogate(u: u16) -> bool {
    0xdc00 <= u <= 0xdfff
}

/// The character that a surrogate pair stands for.
pub open spec fn paired(h: u16, l: u16) -> char {
    (0x10000 + (h - 0xd800) * 0x400 + (l - 0xdc00)) as char
}

/// The text that UTF-16 units stand for; each surrogate without its partner
/// becomes the replacement character.
pub open spec fn from_utf16(u: Seq<u16>) -> Seq<char>
    decreases u.len(),
{
    if u.len() == 0 {
        Seq::empty()
    } else if !high_surrogate(u[0]) && !low_surrogate(u[0]) {
        seq![u[0] as char] + from_utf16(u.skip(1))
    } else if high_surrogate(u[0]) && u.len() >= 2 && low_surrogate(u[1]) {
        seq![paired(u[0], u[1])] + from_utf16(u.skip(2))
    } else {
        seq![REPLACEMENT] + from_utf16(u.skip(1))
    }
}

/// The little-endian 16-bit units of `b`.
pub open spec fn units(b: Seq<u8>) -> Seq<u16> {
    Seq::new(b.len() / 2, |i: int| (b[2 * i] + 256 * b[2 * i + 1]) as u16)
}

/// `s` without the NUL characters at its end.
pub open spec fn trim_nuls(s: Seq<char>) -> Seq<char>
    decreases s.len(),
{
    if s.len() > 0 && s.last() == '\0' {
        trim_nuls(s.drop_last())
    } else {
        s
    }
}

/// The label that a `$VOLUME_NAME` value holds: UTF-16LE, not NUL-terminated.
pub open spec fn label_of(value: Seq<u8>) -> Option<Seq<char>> {
    let label = trim_nuls(from_utf16(units(value)));
    if value.len() == 0 || value.len() % 2 != 0 || label.len() == 0 {
        None
    } else {
        Some(label)
    }
}

fn units_of(value: &[u8]) -> (u: Vec<u16>)
    ensures
        u@ == units(value@),
{
    let mut u: Vec<u16> = Vec::new();
    let n: usize = value.len() / 2;
    let mut i: usize = 0;
    while i < n
        invariant
            i <= n,
            n == value@.len() / 2,
            n <= usize::MAX / 2,
            u@ == units(value@).take(i as int),
        decreases n - i,
    {
        u.push(value[2 * i] as u16 + 256 * value[2 * i + 1] as u16);
        i += 1;
        assert(units(value@).take(i as int) == units(value@).take(i - 1).push(
            units(value@)[i - 1],
        ));
    }
    assert(units(value@).take(i as int) == units(value@));
    u
}

fn char_or_replacement(code: u32) -> (c: char)
    ensures
        code < 0xd800 || 0xdfff < code <= 0x10ffff ==> c == code as char,
{
    match char::from_u32(code) {
        Some(c) => c,
        None => REPLACEMENT,
    }
}

fn decode_units(u: &[u16]) -> (chars: Vec<char>)
    ensures
        chars@ == from_utf16(u@),
{
    let mut chars: Vec<char> = Vec::new();
    let mut i: usize = 0;
    assert(u@.skip(0) == u@);
    while i < u.len()
        invariant
            i <= u@.len(),
            from_utf16(u@) == chars@ + from_utf16(u@.skip(i as int)),
        decreases u@.len() - i,
    {
        let ghost before = chars@;
        let ghost rest = u@.skip(i as int);
        let a: u16 = u[i];
        assert(rest[0] == a);
        assert(rest.skip(1) == u@.skip(i + 1));
        if a < 0xd800 || a > 0xdfff {
            chars.push(char_or_replacement(a as u32));
            i += 1;
        } else if a <= 0xdbff && i + 1 < u.len() && 0xdc00 <= u[i + 1] && u[i + 1] <= 0xdfff {
            let b: u16 = u[i + 1];
            assert(rest[1] == b);
            assert(rest.skip(2) == u@.skip(i + 2));
            chars.push(
                char_or_replacement(0x10000 + (a as u32 - 0xd800) * 0x400 + (b as u32 - 0xdc00)),
            );
            i += 2;
        } else {
            if i + 1 < u.len() {
                assert(rest[1] == u@[i + 1]);
            }
            chars.push(REPLACEMENT);
            i += 1;
        }
        assert(chars@ + from_utf16(u@.skip(i as int)) == before + (seq![chars@.last()]
            + from_utf16(u@.skip(i as int))));
    }
    assert(u@.skip(i as int) == Seq::<u16>::empty());
    assert(chars@ + Seq::<char>::empty() == chars@);
    chars
}

/// Decode a resident `$VOLUME_NAME` value.
pub fn decode_label(value: &[u8]) -> (r: Option<String>)
    ensures
        r is Some <==> label_of(value@) is Some,
        r matches Some(l) ==> label_of(value@) == Some(l@),
{
    if value.len() == 0 || value.len() % 2 != 0 {
        return None;
    }
    let u = units_of(value);
    let chars = decode_units(u.as_slice());
    let mut end: usize = chars.len();
    assert(chars@.take(end as int) == chars@);
    while end > 0 && chars[end - 1] == '\0'
        invariant
            end <= chars@.len(),
            trim_nuls(chars@) == trim_nuls(chars@.take(end as int)),
        decreases end,
    {
        assert(chars@.take(end as int).drop_last() == chars@.take(end - 1));
        end -= 1;
    }
    if end == 0 {
        return None;
    }
    let mut label = String::new();
    let mut i: usize = 0;
    while i < end
        invariant
            i <= end <= chars@.len(),
            label@ == chars@.take(i as int),
        decreases end - i,
    {
        label.push(chars[i]);
        i += 1;
    }
    Some(label)
}

// ---------------------------------------------------------------------------
// The $Volume record
// ---------------------------------------------------------------------------

/// `FILE`, at the start of an MFT record in use.
pub const FILE_MAGIC: [u8; 4] = [0x46, 0x49, 0x4c, 0x45];

/// What the attributes of a record say about the volume.
pub struct Attributes {
    pub label: Option<Seq<char>>,
    pub info: Option<(u8, u8, u16)>,
}

/// The version and flags in a `$VOLUME_INFORMATION` value.
pub open spec fn information_of(value: Seq<u8>) -> Option<(u8, u8, u16)> {
    if value.len() >= 12 {
        Some((value[8], value[9], le_field(value, 10, 2)->0 as u16))
    } else {
        None
    }
}

/// The state after the attribute of type `ty` at `off` of the record `r`, or
/// why that attribute cannot be read.
///
/// Only resident attributes are read. `$VOLUME_INFORMATION` is always
/// resident, and a non-resident `$VOLUME_NAME` would mean following a run
/// list.
pub open spec fn after_attribute(r: Seq<u8>, off: int, ty: nat, seen: Attributes) -> std::result::Result<
    Attributes,
    Seq<char>,
> {
    let resident = off + 8 < r.len() && r[off + 8] == 0;
    let vlen = le_field(r, off + 0x10, 4);
    let voff = le_field(r, off + 0x14, 2);
    let value = r.subrange(off + voff->0, off + voff->0 + vlen->0);
    if !resident || (ty != ATTR_VOLUME_NAME && ty != ATTR_VOLUME_INFORMATION) {
        Ok(seen)
    } else if vlen is None || voff is None {
        Err("attribute truncated"@)
    } else if off + voff->0 + vlen->0 > r.len() {
        Err("attribute value outside record"@)
    } else if ty == ATTR_VOLUME_NAME {
        Ok(Attributes { label: label_of(value), ..seen })
    } else if information_of(value) is None {
        Err("$VOLUME_INFORMATION short"@)
    } else {
        Ok(Attributes { info: information_of(value), ..seen })
    }
}

/// What the attributes from `off` to `end` say, given what was `seen` before
/// them.
pub open spec fn walk(r: Seq<u8>, off: int, end: int, seen: Attributes) -> std::result::Result<
    Attributes,
    Seq<char>,
>
    decreases end - off,
{
    let ty = le_field(r, off, 4);
    let len = le_field(r, off + 4, 4);
    if off >= end {
        Ok(seen)
    } else if ty is None {
        Err("attribute past record"@)
    } else if ty->0 == ATTR_END {
        Ok(seen)
    } else if len is None {
        Err("attribute truncated"@)
    } else if len->0 == 0 || len->0 > end - off {
        Err("attribute has an implausible length"@)
    } else {
        match after_attribute(r, off, ty->0, seen) {
            Err(why) => Err(why),
            Ok(next) => walk(r, off + len->0, end, next),
        }
    }
}

/// The attributes of a record whose fixups have been undone.
pub open spec fn attributes_of(r: Seq<u8>) -> std::result::Result<Attributes, Seq<char>> {
    let first = le_field(r, 0x14, 2);
    let used = le_field(r, 0x18, 4);
    if first is None || used is None {
        Err("truncated"@)
    } else {
        walk(
            r,
            first->0 as int,
            if used->0 < r.len() {
                used->0 as int
            } else {
                r.len() as int
            },
            Attributes { label: None, info: None },
        )
    }
}

/// The volume state that a raw `$Volume` record holds, or why it holds none.
pub open spec fn volume_state(record: Seq<u8>, sector: int) -> std::result::Result<
    Attributes,
    Seq<char>,
> {
    let f = fixed_up(record, sector);
    if !has_prefix(record, FILE_MAGIC@) {
        Err("$Volume is not a FILE record"@)
    } else if f.fault is Some {
        Err(f.fault->0)
    } else {
        match attributes_of(f.record) {
            Err(why) => Err(why),
            Ok(a) => if a.info is None {
                Err("no resident $VOLUME_INFORMATION in $Volume"@)
            } else {
                Ok(a)
            },
        }
    }
}

/// The text inside an optional string.
pub open spec fn opt_text(s: Option<String>) -> Option<Seq<char>> {
    match s {
        Some(t) => Some(t@),
        None => None,
    }
}

/// What has been read of the attributes so far.
struct Seen {
    label: Option<String>,
    info: Option<(u8, u8, u16)>,
}

impl Seen {
    spec fn is(&self, a: Attributes) -> bool {
        opt_text(self.label) == a.label && self.info == a.info
    }
}

proof fn lemma_field_of_tail(r: Seq<u8>, off: int, at: int, width: int)
    requires
        0 <= off <= r.len(),
        0 <= at,
        0 <= width,
    ensures
        le_field(r.subrange(off, r.len() as int), at, width) == le_field(r, off + at, width),
{
    if off + at + width <= r.len() {
        assert(r.subrange(off, r.len() as int).subrange(at, at + width) == r.subrange(
            off + at,
            off + at + width,
        ));
    }
}

/// Reads the attribute of type `ty` at `off`.
fn read_attribute(record: &[u8], off: usize, ty: u32, seen: Seen, path: &str) -> (r: Result<Seen>)
    requires
        off < record@.len(),
    ensures
        forall|a: Attributes|
            #![trigger seen.is(a)]
            seen.is(a) ==> match after_attribute(record@, off as int, ty as nat, a) {
                Ok(next) => r matches Ok(s) && s.is(next),
                Err(why) => r matches Err(e) && is_unreadable(e, path@, why),
            },
{
    let attr = slice_subrange(record, off, record.len());
    proof {
        lemma_field_of_tail(record@, off as int, 0x10, 4);
        lemma_field_of_tail(record@, off as int, 0x14, 2);
    }
    let resident: bool = match u8_at(attr, 8) {
        Some(v) => v == 0,
        None => false,
    };
    if !resident || (ty != ATTR_VOLUME_NAME && ty != ATTR_VOLUME_INFORMATION) {
        return Ok(seen);
    }
    let vlen: usize = match u32_at(attr, 0x10) {
        Some(v) => v as usize,
        None => {
            return Err(unreadable(path, "attribute truncated"));
        },
    };
    let voff: usize = match u16_at(attr, 0x14) {
        Some(v) => v as usize,
        None => {
            return Err(unreadable(path, "attribute truncated"));
        },
    };
    if voff > attr.len() || vlen > attr.len() - voff {
        return Err(unreadable(path, "attribute value outside record"));
    }
    let value = slice_subrange(attr, voff, voff + vlen);
    assert(value@ == record@.subrange(off + voff, off + voff + vlen));
    if ty == ATTR_VOLUME_NAME {
        return Ok(Seen { label: decode_label(value), info: seen.info });
    }
    match (u8_at(value, 8), u8_at(value, 9), u16_at(value, 10)) {
        (Some(major), Some(minor), Some(flags)) => Ok(
            Seen { label: seen.label, info: Some((major, minor, flags)) },
        ),
        _ => Err(unreadable(path, "$VOLUME_INFORMATION short")),
    }
}

/// Walks the attributes of a record whose fixups have been undone.
fn read_attributes(record: &[u8], path: &str) -> (r: Result<Seen>)
    ensures
        match attributes_of(record@) {
            Ok(a) => r matches Ok(s) && s.is(a),
            Err(why) => r matches Err(e) && is_unreadable(e, path@, why),
        },
{
    let first: usize = match u16_at(record, 0x14) {
        Some(v) => v as usize,
        None => {
            return Err(unreadable(path, "truncated"));
        },
    };
    let used: usize = match u32_at(record, 0x18) {
        Some(v) => v as usize,
        None => {
            return Err(unreadable(path, "truncated"));
        },
    };
    let end: usize = if used < record.len() {
        used
    } else {
        record.len()
    };
    let mut seen = Seen { label: None, info: None };
    let mut off: usize = first;
    let ghost mut state = Attributes { label: None, info: None };
    while off < end
        invariant
            end <= record@.len(),
            record@.len() <= usize::MAX,
            seen.is(state),
            attributes_of(record@) == walk(record@, off as int, end as int, state),
        decreases end - off,
    {
        let ty: u32 = match u32_at(record, off) {
            Some(v) => v,
            None => {
                return Err(unreadable(path, "attribute past record"));
            },
        };
        if ty == ATTR_END {
            return Ok(seen);
        }
        let len: usize = match u32_at(record, off + 4) {
            Some(v) => v as usize,
            None => {
                return Err(unreadable(path, "attribute truncated"));
            },
        };
        // A zero length would spin forever; treat it as corruption.
        if len == 0 || len > end - off {
            return Err(unreadable(path, "attribute has an implausible length"));
        }
        let ghost before = state;
        seen = match read_attribute(record, off, ty, seen, path) {
            Ok(s) => s,
            Err(e) => {
                return Err(e);
            },
        };
        proof {
            state = after_attribute(record@, off as int, ty as nat, before)->Ok_0;
        }
        off += len;
    }
    Ok(seen)
}

/// Parse the `$Volume` MFT record. Applies fixups to `record` in place.
///
/// Fails when the record is not a FILE record, is torn, or carries no resident
/// `$VOLUME_INFORMATION`.
pub fn parse_volume_record(record: &mut [u8], bytes_per_sector: u32, path: &str) -> (r: Result<
    VolumeInfo,
>)
    requires
        bytes_per_sector != 1,
    ensures
        final(record)@ == if has_prefix(old(record)@, FILE_MAGIC@) {
            fixed_up(old(record)@, bytes_per_sector as int).record
        } else {
            old(record)@
        },
        match volume_state(old(record)@, bytes_per_sector as int) {
            Ok(a) => r matches Ok(v) && opt_text(v.label) == a.label && a.info == Some(
                (v.major, v.minor, v.flags),
            ),
            Err(why) => r matches Err(e) && is_unreadable(e, path@, why),
        },
{
    if !starts_with(record, &FILE_MAGIC) {
        return Err(unreadable(path, "$Volume is not a FILE record"));
    }
    match apply_fixups(record, bytes_per_sector, path) {
        Ok(()) => {},
        Err(e) => {
            return Err(e);
        },
    }
    let seen = match read_attributes(record, path) {
        Ok(s) => s,
        Err(e) => {
            return Err(e);
        },
    };
    match seen.info {
        Some((major, minor, flags)) => Ok(VolumeInfo { label: seen.label, major, minor, flags }),
        None => Err(unreadable(path, "no resident $VOLUME_INFORMATION in $Volume")),
    }
}

// ---------------------------------------------------------------------------
// Laws
// ---------------------------------------------------------------------------

/// The low byte of a number for an even position, the high byte for an odd one.
pub open spec fn half_of(v: nat, position: int) -> u8 {
    if position % 2 == 0 {
        (v % 256) as u8
    } else {
        (v / 256 % 256) as u8
    }
}

/// Whether byte `j` is one of the last two bytes of its sector.
pub open spec fn in_tail(j: int, sector: int) -> bool {
    j % sector >= sector - 2
}

/// The record `r` with its update sequence array at `usa` filled: the sequence
/// number, then the last two bytes of each of the `n` sectors.
pub open spec fn with_array(r: Seq<u8>, sector: int, usa: int, n: int, usn: nat) -> Seq<u8> {
    Seq::new(
        r.len(),
        |j: int|
            if usa <= j < usa + 2 {
                half_of(usn, j - usa)
            } else if usa + 2 <= j < usa + 2 + 2 * n {
                r[(j - usa) / 2 * sector - 2 + (j - usa) % 2]
            } else {
                r[j]
            },
    )
}

/// The record as NTFS writes it: the array filled, and the sequence number in
/// the last two bytes of each sector from number `from` on, counted from one.
pub open spec fn stamped(r: Seq<u8>, sector: int, usa: int, n: int, usn: nat, from: int) -> Seq<
    u8,
> {
    let a = with_array(r, sector, usa, n, usn);
    Seq::new(
        r.len(),
        |j: int|
            if in_tail(j, sector) && j / sector + 1 >= from {
                half_of(usn, j % sector - (sector - 2))
            } else {
                a[j]
            },
    )
}

/// A record of `n` sectors whose header points at an update sequence array
/// that has room in the record and covers no sector's last two bytes.
pub open spec fn stampable(r: Seq<u8>, sector: int, usa: int, n: int, usn: nat) -> bool {
    &&& sector >= 10
    &&& n >= 1
    &&& r.len() == n * sector
    &&& usn <= u16::MAX
    &&& 8 <= usa
    &&& usa + 2 + 2 * n <= r.len()
    &&& le_field(r, 4, 2) == Some(usa as nat)
    &&& le_field(r, 6, 2) == Some((n + 1) as nat)
    &&& forall|j: int| usa <= j < usa + 2 + 2 * n ==> !#[trigger] in_tail(j, sector)
}

proof fn lemma_two_bytes(r: Seq<u8>, at: int)
    requires
        0 <= at,
        at + 2 <= r.len(),
    ensures
        le_field(r, at, 2) == Some((r[at] + 256 * r[at + 1]) as nat),
{
    let s = r.subrange(at, at + 2);
    assert(s.drop_first().drop_first() == Seq::<u8>::empty());
    assert(le_value(s.drop_first().drop_first()) == 0);
    assert(s.drop_first().first() == r[at + 1]);
    assert(le_value(s.drop_first()) == r[at + 1] as nat);
    assert(le_value(s) == r[at + 1] as nat * 256 + r[at] as nat);
}

proof fn lemma_tail_position(sector: int, i: int, d: int)
    requires
        sector >= 10,
        i >= 1,
        0 <= d < 2,
    ensures
        (i * sector - 2 + d) / sector == i - 1,
        (i * sector - 2 + d) % sector == sector - 2 + d,
        in_tail(i * sector - 2 + d, sector),
{
    assert(i * sector - 2 + d == (i - 1) * sector + (sector - 2 + d)) by (nonlinear_arith);
    vstd::arithmetic::div_mod::lemma_fundamental_div_mod_converse(
        i * sector - 2 + d,
        sector,
        i - 1,
        sector - 2 + d,
    );
}

proof fn lemma_tail_index(sector: int, j: int)
    requires
        sector >= 10,
        0 <= j,
        in_tail(j, sector),
    ensures
        j == (j / sector + 1) * sector - 2 + (j % sector - (sector - 2)),
        0 <= j % sector - (sector - 2) < 2,
{
    vstd::arithmetic::div_mod::lemma_fundamental_div_mod(j, sector);
    assert(sector * (j / sector) + sector == (j / sector + 1) * sector) by (nonlinear_arith);
    vstd::arithmetic::div_mod::lemma_mod_bound(j, sector);
}

/// One sector of a stamped record is put right by one step.
proof fn lemma_unstamp_one(r: Seq<u8>, sector: int, usa: int, n: int, usn: nat, i: int)
    requires
        stampable(r, sector, usa, n, usn),
        1 <= i <= n,
    ensures
        ({
            let t = stamped(r, sector, usa, n, usn, i);
            let tail = i * sector - 2;
            &&& 0 <= tail && tail + 2 <= r.len()
            &&& le_field(t, usa + i * 2, 2) == Some((r[tail] + 256 * r[tail + 1]) as nat)
            &&& le_field(t, tail, 2) == Some(usn)
            &&& with_u16(t, tail, (r[tail] + 256 * r[tail + 1]) as nat) == stamped(
                r,
                sector,
                usa,
                n,
                usn,
                i + 1,
            )
        }),
{
    let t = stamped(r, sector, usa, n, usn, i);
    let a = with_array(r, sector, usa, n, usn);
    let tail = i * sector - 2;
    assert(i * sector <= n * sector) by (nonlinear_arith)
        requires
            i <= n,
            sector >= 0,
    ;
    assert(i * sector >= sector) by (nonlinear_arith)
        requires
            i >= 1,
            sector >= 0,
    ;
    lemma_tail_position(sector, i, 0);
    lemma_tail_position(sector, i, 1);
    // The array entry of this sector, untouched by any stamp.
    let at = usa + i * 2;
    assert(!in_tail(at, sector));
    assert(!in_tail(at + 1, sector));
    assert((at - usa) / 2 == i && (at - usa) % 2 == 0);
    assert((at + 1 - usa) / 2 == i && (at + 1 - usa) % 2 == 1);
    assert(t[at] == r[tail]);
    assert(t[at + 1] == r[tail + 1]);
    lemma_two_bytes(t, at);
    // The stamp itself.
    assert(t[tail] == half_of(usn, 0));
    assert(t[tail + 1] == half_of(usn, 1));
    lemma_two_bytes(t, tail);
    assert(usn % 256 + 256 * (usn / 256 % 256) == usn);
    // Putting the entry back leaves the stamps of the later sectors alone.
    let v = (r[tail] + 256 * r[tail + 1]) as nat;
    assert((v % 256) as u8 == r[tail]);
    assert((v / 256) as u8 == r[tail + 1]);
    let next = stamped(r, sector, usa, n, usn, i + 1);
    let done = with_u16(t, tail, v);
    assert forall|j: int| 0 <= j < r.len() implies done[j] == next[j] by {
        if in_tail(j, sector) {
            lemma_tail_index(sector, j);
            if j / sector + 1 == i {
                assert(j == tail || j == tail + 1);
                assert(!(usa <= j < usa + 2 + 2 * n));
                assert(a[j] == r[j]);
            }
        }
    }
    assert(done =~= next);
}

proof fn lemma_unstamp_all(r: Seq<u8>, sector: int, usa: int, n: int, usn: nat, i: int)
    requires
        stampable(r, sector, usa, n, usn),
        1 <= i <= n + 1,
    ensures
        unstamp(stamped(r, sector, usa, n, usn, i), sector, usa, n + 1, usn, i) == (Fixed {
            record: stamped(r, sector, usa, n, usn, n + 1),
            fault: None,
        }),
    decreases n + 1 - i,
{
    if i <= n {
        lemma_unstamp_one(r, sector, usa, n, usn, i);
        lemma_unstamp_all(r, sector, usa, n, usn, i + 1);
    }
}

/// Fixups undo what NTFS does on write: from a stamped record comes the record
/// that was written, its update sequence array filled and nothing else
/// changed.
pub proof fn law_fixups_undo_stamping(r: Seq<u8>, sector: int, usa: int, n: int, usn: nat)
    requires
        stampable(r, sector, usa, n, usn),
        n < u16::MAX,
    ensures
        fixed_up(stamped(r, sector, usa, n, usn, 1), sector) == (Fixed {
            record: with_array(r, sector, usa, n, usn),
            fault: None,
        }),
{
    let t = stamped(r, sector, usa, n, usn, 1);
    let a = with_array(r, sector, usa, n, usn);
    lemma_unstamp_all(r, sector, usa, n, usn, 1);
    assert(stamped(r, sector, usa, n, usn, n + 1) =~= a) by {
        assert forall|j: int| 0 <= j < r.len() implies stamped(
            r,
            sector,
            usa,
            n,
            usn,
            n + 1,
        )[j] == a[j] by {
            if in_tail(j, sector) && j / sector + 1 >= n + 1 {
                lemma_tail_index(sector, j);
                assert((j / sector + 1) * sector >= (n + 1) * sector) by (nonlinear_arith)
                    requires
                        j / sector + 1 >= n + 1,
                        sector >= 10,
                ;
                assert((n + 1) * sector == n * sector + sector) by (nonlinear_arith);
            }
        }
    }
    // The header survives the stamps.
    assert forall|j: int| 4 <= j < 8 implies t[j] == r[j] by {
        vstd::arithmetic::div_mod::lemma_small_mod(j as nat, sector as nat);
        assert(n * sector >= sector) by (nonlinear_arith)
            requires
                n >= 1,
                sector >= 0,
        ;
    }
    assert(n * sector >= sector) by (nonlinear_arith)
        requires
            n >= 1,
            sector >= 0,
    ;
    lemma_two_bytes(t, 4);
    lemma_two_bytes(r, 4);
    lemma_two_bytes(t, 6);
    lemma_two_bytes(r, 6);
    assert(!in_tail(usa, sector));
    assert(!in_tail(usa + 1, sector));
    assert(t[usa] == half_of(usn, 0));
    assert(t[usa + 1] == half_of(usn, 1));
    lemma_two_bytes(t, usa);
    assert(usn % 256 + 256 * (usn / 256 % 256) == usn);
}

/// A record that is accepted carries the sequence number at the end of every
/// sector: one sector that was not written with the rest is enough to refuse
/// it.
pub proof fn law_accepted_record_is_whole(r: Seq<u8>, sector: int, k: int)
    requires
        sector >= 2,
        fixed_up(r, sector).fault is None,
        1 <= k,
        k * sector <= r.len(),
    ensures
        le_field(r, k * sector - 2, 2) == le_field(r, le_field(r, 4, 2)->0 as int, 2),
{
    let usa = le_field(r, 4, 2)->0 as int;
    let count = le_field(r, 6, 2)->0 as int;
    assert(k < count) by (nonlinear_arith)
        requires
            k * sector <= r.len(),
            (count - 1) * sector == r.len(),
            sector >= 2,
    ;
    lemma_stamps_seen(r, sector, usa, count, le_field(r, usa, 2)->0, 1, k);
}

proof fn lemma_stamps_seen(
    r: Seq<u8>,
    sector: int,
    usa: int,
    count: int,
    usn: nat,
    i: int,
    k: int,
)
    requires
        sector >= 2,
        unstamp(r, sector, usa, count, usn, i).fault is None,
        1 <= i <= k < count,
    ensures
        le_field(r, k * sector - 2, 2) == Some(usn),
    decreases count - i,
{
    if i < k {
        let tail = i * sector - 2;
        let entry = le_field(r, usa + i * 2, 2)->0;
        let next = with_u16(r, tail, entry);
        lemma_stamps_seen(next, sector, usa, count, usn, i + 1, k);
        assert(k * sector - 2 >= tail + 2) by (nonlinear_arith)
            requires
                k >= i + 1,
                sector >= 2,
                tail == i * sector - 2,
        ;
        assert(tail >= 0) by (nonlinear_arith)
            requires
                i >= 1,
                sector >= 2,
                tail == i * sector - 2,
        ;
        let at = k * sector - 2;
        assert(le_field(next, at, 2) is Some);
        assert(next.subrange(at, at + 2) == r.subrange(at, at + 2));
    }
}

/// The UTF-16 units of a text.
pub open spec fn to_utf16(s: Seq<char>) -> Seq<u16>
    decreases s.len(),
{
    if s.len() == 0 {
        Seq::empty()
    } else {
        let c = s[0] as int;
        let head = if c < 0x10000 {
            seq![c as u16]
        } else {
            seq![
                (0xd800 + (c - 0x10000) / 0x400) as u16,
                (0xdc00 + (c - 0x10000) % 0x400) as u16,
            ]
        };
        head + to_utf16(s.skip(1))
    }
}

/// UTF-16 units as bytes, least significant first.
pub open spec fn unit_bytes(u: Seq<u16>) -> Seq<u8> {
    Seq::new(2 * u.len(), |i: int| half_of(u[i / 2] as nat, i))
}

proof fn lemma_code_point(c: char)
    ensures
        0 <= c as int <= 0x10ffff,
        !(0xd800 <= c as int <= 0xdfff),
{
}

proof fn lemma_utf16_round_trip(s: Seq<char>)
    ensures
        from_utf16(to_utf16(s)) == s,
    decreases s.len(),
{
    if s.len() > 0 {
        let c = s[0];
        let rest = to_utf16(s.skip(1));
        let u = to_utf16(s);
        lemma_utf16_round_trip(s.skip(1));
        assert(seq![c] + s.skip(1) == s);
        lemma_code_point(c);
        if (c as int) < 0x10000 {
            assert(u == seq![c as int as u16] + rest);
            assert(u[0] == c as int);
            assert(u.skip(1) == rest);
            assert(u[0] as char == c);
        } else {
            let d = c as int - 0x10000;
            assert(u.skip(2) == rest);
            assert(u[0] == 0xd800 + d / 0x400);
            assert(u[1] == 0xdc00 + d % 0x400);
            assert(paired(u[0], u[1]) == c);
        }
    }
}

/// A label is read back from the UTF-16 bytes that it was stored as. A label
/// that ends in NUL characters loses them, and an empty one reads as none.
pub proof fn law_label_round_trip(label: Seq<char>)
    requires
        label.len() > 0,
        label.last() != '\0',
    ensures
        label_of(unit_bytes(to_utf16(label))) == Some(label),
{
    let u = to_utf16(label);
    let b = unit_bytes(u);
    lemma_utf16_round_trip(label);
    assert(u.len() > 0);
    assert(units(b) =~= u) by {
        assert forall|i: int| 0 <= i < u.len() implies units(b)[i] == u[i] by {
            assert((2 * i) / 2 == i && (2 * i + 1) / 2 == i);
            assert(b[2 * i] == half_of(u[i] as nat, 2 * i));
            assert(b[2 * i + 1] == half_of(u[i] as nat, 2 * i + 1));
            assert(u[i] as nat % 256 + 256 * (u[i] as nat / 256 % 256) == u[i]);
        }
    }
}

/// A volume with no known flag set has no flag names, and any known flag has
/// one.
pub proof fn law_names_tell_the_flags(flags: u16)
    ensures
        flag_texts(flags).len() == 0 <==> flags & 0x803f == 0,
        flags & VOLUME_IS_DIRTY != 0 ==> flag_texts(flags)[0] == "dirty"@,
{
    assert(flags & 0x803f == 0 <==> flags & 0x0001 == 0 && flags & 0x0002 == 0 && flags & 0x0004
        == 0 && flags & 0x0008 == 0 && flags & 0x0010 == 0 && flags & 0x0020 == 0 && flags & 0x8000
        == 0) by (bit_vector);
}

// ---------------------------------------------------------------------------
// What is found in a record
// ---------------------------------------------------------------------------

/// Whether an attribute of type `ty` whose value is kept in the record stands
/// at `off`.
pub open spec fn resident_at(r: Seq<u8>, off: int, ty: int) -> bool {
    off + 8 < r.len() && le_digits(r, off, 4) == ty && r[off + 8] == 0
}

/// Where the value of the attribute at `off` starts.
pub open spec fn value_at(r: Seq<u8>, off: int) -> int {
    off + le_digits(r, off + 20, 2)
}

/// How long the value of the attribute at `off` is.
pub open spec fn value_size(r: Seq<u8>, off: int) -> int {
    le_digits(r, off + 16, 4)
}

/// Whether the value of the attribute at `off` lies in the record and has at
/// least `least` bytes.
pub open spec fn value_lies_inside(r: Seq<u8>, off: int, least: int) -> bool {
    off + 22 <= r.len() && value_at(r, off) + value_size(r, off) <= r.len() && value_size(r, off)
        >= least
}

/// Whether an attribute that is no terminator stands at the `i`th offset, as
/// long as the way to the next one, and can be read if it is a name or an
/// information.
pub open spec fn links(r: Seq<u8>, offs: Seq<int>, end: int, i: int) -> bool {
    &&& 0 <= offs[i] < offs[i + 1] <= end
    &&& offs[i] + 8 <= r.len()
    &&& le_digits(r, offs[i], 4) != 0xffff_ffff
    &&& le_digits(r, offs[i] + 4, 4) == offs[i + 1] - offs[i]
    &&& resident_at(r, offs[i], 0x60) ==> value_lies_inside(r, offs[i], 0)
    &&& resident_at(r, offs[i], 0x70) ==> value_lies_inside(r, offs[i], 12)
}

/// Whether attributes stand end to end at all these offsets but the last.
pub open spec fn laid_end_to_end(r: Seq<u8>, offs: Seq<int>, end: int) -> bool {
    &&& offs.len() >= 1
    &&& 0 <= offs[0]
    &&& end <= r.len()
    &&& forall|i: int| 0 <= i < offs.len() - 1 ==> #[trigger] links(r, offs, end, i)
}

/// Whether the attributes are over at `off`: the used part of the record is, or
/// a terminator stands there.
pub open spec fn over_at(r: Seq<u8>, off: int, end: int) -> bool {
    off >= end || (off + 4 <= r.len() && le_digits(r, off, 4) == 0xffff_ffff)
}

/// Whether the attribute at the `j`th offset is the last one of its type that
/// is resident.
pub open spec fn last_resident(r: Seq<u8>, offs: Seq<int>, j: int, ty: int) -> bool {
    0 <= j < offs.len() - 1 && resident_at(r, offs[j], ty) && forall|i: int|
        j < i < offs.len() - 1 ==> !resident_at(r, #[trigger] offs[i], ty)
}

/// Whether no attribute of a type is resident from the `k`th offset on.
pub open spec fn none_resident(r: Seq<u8>, offs: Seq<int>, k: int, ty: int) -> bool {
    forall|i: int| k <= i < offs.len() - 1 ==> !resident_at(r, #[trigger] offs[i], ty)
}

/// Whether `a` is what the attributes from the `k`th offset on leave of `seen`.
spec fn collects(r: Seq<u8>, offs: Seq<int>, k: int, seen: Attributes, a: Attributes) -> bool {
    &&& none_resident(r, offs, k, 0x70) ==> a.info == seen.info
    &&& none_resident(r, offs, k, 0x60) ==> a.label == seen.label
    &&& forall|j: int|
        #![trigger offs[j]]
        k <= j && last_resident(r, offs, j, 0x70) ==> a.info == Some(
            (
                r[value_at(r, offs[j]) + 8],
                r[value_at(r, offs[j]) + 9],
                le_digits(r, value_at(r, offs[j]) + 10, 2) as u16,
            ),
        )
    &&& forall|j: int|
        #![trigger offs[j]]
        k <= j && last_resident(r, offs, j, 0x60) ==> a.label == label_of(
            r.subrange(value_at(r, offs[j]), value_at(r, offs[j]) + value_size(r, offs[j])),
        )
}

/// What one attribute leaves of what was seen before it.
proof fn lemma_attribute_read(r: Seq<u8>, off: int, seen: Attributes)
    requires
        0 <= off,
        off + 8 <= r.len(),
        resident_at(r, off, 0x60) ==> value_lies_inside(r, off, 0),
        resident_at(r, off, 0x70) ==> value_lies_inside(r, off, 12),
    ensures
        ({
            let next = after_attribute(r, off, le_digits(r, off, 4) as nat, seen);
            let v = value_at(r, off);
            &&& next is Ok
            &&& next->Ok_0.info == if resident_at(r, off, 0x70) {
                Some((r[v + 8], r[v + 9], le_digits(r, v + 10, 2) as u16))
            } else {
                seen.info
            }
            &&& next->Ok_0.label == if resident_at(r, off, 0x60) {
                label_of(r.subrange(v, v + value_size(r, off)))
            } else {
                seen.label
            }
        }),
{
    law_little_endian_fields_hold_digits(r, off, 4);
    law_little_endian_fields_hold_digits(r, off + 16, 4);
    law_little_endian_fields_hold_digits(r, off + 20, 2);
    if resident_at(r, off, 0x70) {
        let v = value_at(r, off);
        let value = r.subrange(v, v + value_size(r, off));
        assert(le_field(value, 10, 2) == le_field(r, v + 10, 2)) by {
            assert(value.subrange(10, 12) =~= r.subrange(v + 10, v + 12));
        }
        law_little_endian_fields_hold_digits(r, v + 10, 2);
    }
}

/// The walk goes on behind an attribute that can be read.
proof fn lemma_walk_step(r: Seq<u8>, off: int, end: int, seen: Attributes, next: Attributes)
    requires
        0 <= off < end <= r.len(),
        off + 8 <= r.len(),
        le_digits(r, off, 4) != 0xffff_ffff,
        0 < le_digits(r, off + 4, 4) <= end - off,
        after_attribute(r, off, le_digits(r, off, 4) as nat, seen) == Ok::<Attributes, Seq<char>>(
            next,
        ),
    ensures
        walk(r, off, end, seen) == walk(r, off + le_digits(r, off + 4, 4), end, next),
{
    law_little_endian_fields_hold_digits(r, off, 4);
    law_little_endian_fields_hold_digits(r, off + 4, 4);
}

/// The walk comes to the last offset with what the attributes before it say.
#[verifier::spinoff_prover]
#[verifier::rlimit(40)]
proof fn lemma_walk_reaches(r: Seq<u8>, offs: Seq<int>, end: int, k: int, seen: Attributes) -> (a:
    Attributes)
    requires
        laid_end_to_end(r, offs, end),
        0 <= k < offs.len(),
    ensures
        walk(r, offs[k], end, seen) == walk(r, offs.last(), end, a),
        collects(r, offs, k, seen, a),
    decreases offs.len() - k,
{
    if k == offs.len() - 1 {
        return seen;
    }
    let off = offs[k];
    assert(links(r, offs, end, k));
    lemma_attribute_read(r, off, seen);
    let next = after_attribute(r, off, le_digits(r, off, 4) as nat, seen)->Ok_0;
    lemma_walk_step(r, off, end, seen, next);
    let rest = lemma_walk_reaches(r, offs, end, k + 1, next);
    lemma_collected(r, offs, k, seen, next, rest);
    rest
}

/// What is seen from an attribute on is what it leaves, and what is seen behind
/// it.
#[verifier::spinoff_prover]
#[verifier::rlimit(40)]
proof fn lemma_collected(
    r: Seq<u8>,
    offs: Seq<int>,
    k: int,
    seen: Attributes,
    next: Attributes,
    a: Attributes,
)
    requires
        0 <= k < offs.len() - 1,
        collects(r, offs, k + 1, next, a),
        next.info == if resident_at(r, offs[k], 0x70) {
            Some(
                (
                    r[value_at(r, offs[k]) + 8],
                    r[value_at(r, offs[k]) + 9],
                    le_digits(r, value_at(r, offs[k]) + 10, 2) as u16,
                ),
            )
        } else {
            seen.info
        },
        next.label == if resident_at(r, offs[k], 0x60) {
            label_of(
                r.subrange(value_at(r, offs[k]), value_at(r, offs[k]) + value_size(r, offs[k])),
            )
        } else {
            seen.label
        },
    ensures
        collects(r, offs, k, seen, a),
{
    if none_resident(r, offs, k, 0x70) {
        assert(!resident_at(r, offs[k], 0x70));
        assert(none_resident(r, offs, k + 1, 0x70));
    }
    if none_resident(r, offs, k, 0x60) {
        assert(!resident_at(r, offs[k], 0x60));
        assert(none_resident(r, offs, k + 1, 0x60));
    }
    assert forall|j: int|
        #![trigger offs[j]]
        k <= j && last_resident(r, offs, j, 0x70) implies a.info == Some(
        (
            r[value_at(r, offs[j]) + 8],
            r[value_at(r, offs[j]) + 9],
            le_digits(r, value_at(r, offs[j]) + 10, 2) as u16,
        ),
    ) by {
        if j == k {
            assert(none_resident(r, offs, k + 1, 0x70));
        }
    }
    assert forall|j: int|
        #![trigger offs[j]]
        k <= j && last_resident(r, offs, j, 0x60) implies a.label == label_of(
        r.subrange(value_at(r, offs[j]), value_at(r, offs[j]) + value_size(r, offs[j])),
    ) by {
        if j == k {
            assert(none_resident(r, offs, k + 1, 0x60));
        }
    }
}

/// Whether a raw record is one whose sectors were written together, and whose
/// attributes, once its fixups are undone, start at the first of these offsets
/// and are laid end to end.
pub open spec fn holds_attributes(record: Seq<u8>, sector: int, offs: Seq<int>) -> bool {
    let r = fixed_up(record, sector).record;
    &&& record.len() >= 4
    &&& record[0] == 0x46 && record[1] == 0x49 && record[2] == 0x4c && record[3] == 0x45
    &&& fixed_up(record, sector).fault is None
    &&& r.len() >= 28
    &&& laid_end_to_end(r, offs, used_end(r))
    &&& offs[0] == le_digits(r, 20, 2)
}

/// The end of the used part of a record.
pub open spec fn used_end(r: Seq<u8>) -> int {
    if le_digits(r, 24, 4) < r.len() {
        le_digits(r, 24, 4)
    } else {
        r.len() as int
    }
}

proof fn lemma_record_walk(record: Seq<u8>, sector: int, offs: Seq<int>) -> (a: Attributes)
    requires
        holds_attributes(record, sector, offs),
    ensures
        has_prefix(record, FILE_MAGIC@),
        offs.last() >= 0,
        ({
            let r = fixed_up(record, sector).record;
            &&& attributes_of(r) == walk(r, offs.last(), used_end(r), a)
            &&& collects(r, offs, 0, (Attributes { label: None, info: None }), a)
        }),
{
    let r = fixed_up(record, sector).record;
    law_prefixes_agree_byte_by_byte(record, FILE_MAGIC@);
    law_little_endian_fields_hold_digits(r, 20, 2);
    law_little_endian_fields_hold_digits(r, 24, 4);
    if offs.len() > 1 {
        assert(links(r, offs, used_end(r), offs.len() - 2));
    }
    lemma_walk_reaches(r, offs, used_end(r), 0, Attributes { label: None, info: None })
}

proof fn lemma_walk_ends(r: Seq<u8>, off: int, end: int, a: Attributes)
    requires
        0 <= off,
        end <= r.len(),
        over_at(r, off, end),
    ensures
        walk(r, off, end, a) == Ok::<Attributes, Seq<char>>(a),
{
    law_little_endian_fields_hold_digits(r, off, 4);
}

/// Whether an attribute that cannot be read stands at `off`.
pub open spec fn broken_at(r: Seq<u8>, off: int, end: int) -> bool {
    &&& off < end
    &&& off + 8 <= r.len()
    &&& le_digits(r, off, 4) != 0xffff_ffff
    &&& {
        ||| le_digits(r, off + 4, 4) == 0
        ||| le_digits(r, off + 4, 4) > end - off
        ||| resident_at(r, off, 0x60) && !value_lies_inside(r, off, 0)
        ||| resident_at(r, off, 0x70) && !value_lies_inside(r, off, 12)
    }
}

proof fn lemma_walk_breaks(r: Seq<u8>, off: int, end: int, a: Attributes)
    requires
        0 <= off,
        end <= r.len(),
        broken_at(r, off, end),
    ensures
        walk(r, off, end, a) is Err,
{
    law_little_endian_fields_hold_digits(r, off, 4);
    law_little_endian_fields_hold_digits(r, off + 4, 4);
    law_little_endian_fields_hold_digits(r, off + 16, 4);
    law_little_endian_fields_hold_digits(r, off + 20, 2);
    assert(after_attribute(r, off, le_digits(r, off, 4) as nat, a) is Err || le_digits(r, off + 4, 4)
        == 0 || le_digits(r, off + 4, 4) > end - off);
}

/// The state of a volume is what its last resident information says, whatever
/// other attributes stand before, between and behind: the version in bytes 8
/// and 9 of the value, the flags in bytes 10 and 11. The label is the last
/// resident name, or none where there is no such name.
pub proof fn law_volume_state_is_found_among_attributes(
    record: Seq<u8>,
    sector: int,
    offs: Seq<int>,
    j: int,
)
    requires
        holds_attributes(record, sector, offs),
        over_at(
            fixed_up(record, sector).record,
            offs.last(),
            used_end(fixed_up(record, sector).record),
        ),
        last_resident(fixed_up(record, sector).record, offs, j, 0x70),
    ensures
        ({
            let r = fixed_up(record, sector).record;
            let v = value_at(r, offs[j]);
            &&& volume_state(record, sector) matches Ok(a) && a.info == Some(
                (r[v + 8], r[v + 9], (r[v + 10] + 256 * r[v + 11]) as u16),
            ) && (none_resident(r, offs, 0, 0x60) ==> a.label is None) && forall|l: int|
                last_resident(r, offs, l, 0x60) ==> a.label == label_of(
                    r.subrange(
                        value_at(r, #[trigger] offs[l]),
                        value_at(r, offs[l]) + value_size(r, offs[l]),
                    ),
                )
        }),
{
    let r = fixed_up(record, sector).record;
    let a = lemma_record_walk(record, sector, offs);
    lemma_walk_ends(r, offs.last(), used_end(r), a);
    let v = value_at(r, offs[j]);
    assert(le_digits(r, v + 10, 2) == r[v + 10] + 256 * r[v + 11]) by {
        reveal_with_fuel(le_digits, 3);
    }
}

/// A record whose attributes hold no resident information is refused for that.
pub proof fn law_a_volume_without_information_is_refused(
    record: Seq<u8>,
    sector: int,
    offs: Seq<int>,
)
    requires
        holds_attributes(record, sector, offs),
        over_at(
            fixed_up(record, sector).record,
            offs.last(),
            used_end(fixed_up(record, sector).record),
        ),
        none_resident(fixed_up(record, sector).record, offs, 0, 0x70),
    ensures
        volume_state(record, sector) == Err::<Attributes, Seq<char>>(
            "no resident $VOLUME_INFORMATION in $Volume"@,
        ),
{
    let r = fixed_up(record, sector).record;
    let a = lemma_record_walk(record, sector, offs);
    lemma_walk_ends(r, offs.last(), used_end(r), a);
}

/// An attribute that claims no length, or more than is left of the used part,
/// makes the record unreadable, whatever was read before it. So does a resident
/// name or information whose value does not lie in the record.
pub proof fn law_broken_attributes_are_refused(record: Seq<u8>, sector: int, offs: Seq<int>)
    requires
        holds_attributes(record, sector, offs),
        broken_at(
            fixed_up(record, sector).record,
            offs.last(),
            used_end(fixed_up(record, sector).record),
        ),
    ensures
        volume_state(record, sector) is Err,
{
    let r = fixed_up(record, sector).record;
    let a = lemma_record_walk(record, sector, offs);
    lemma_walk_breaks(r, offs.last(), used_end(r), a);
}

/// What a size byte stands for: a count of units from 1 to 127, and otherwise
/// the power of two whose exponent is its magnitude as a signed number.
pub open spec fn stated_size(raw: u8, unit: int) -> int {
    if 1 <= raw <= 127 {
        raw * unit
    } else {
        pow2(((256 - raw) % 256) as nat) as int
    }
}

/// Whether `n` is some power of two between two bounds.
pub open spec fn power_between(n: int, low: int, high: int) -> bool {
    low <= n <= high && exists|k: nat| n == #[trigger] pow2(k)
}

/// Whether a boot sector is one of NTFS whose sizes are plausible.
pub open spec fn plausible_boot(b: Seq<u8>) -> bool {
    let sector = le_digits(b, 11, 2);
    let cluster = stated_size(b[13], sector);
    let record = stated_size(b[64], cluster);
    &&& b.len() >= 65
    &&& b[3] == 0x4e && b[4] == 0x54 && b[5] == 0x46 && b[6] == 0x53
    &&& b[7] == 0x20 && b[8] == 0x20 && b[9] == 0x20 && b[10] == 0x20
    &&& power_between(sector, 256, 8192)
    &&& power_between(cluster, 1, 0x20_0000)
    &&& power_between(record, 256, 0x1_0000)
}

proof fn lemma_stated_size(raw: u8, unit: u64)
    requires
        unit <= 0x20_0000,
    ensures
        match encoded_size(raw, unit) {
            Some(n) => n == stated_size(raw, unit as int),
            None => stated_size(raw, unit as int) > 0x20_0000,
        },
        stated_size(raw, unit as int) >= 0,
{
    if 1 <= raw <= 127 {
        assert(0 <= unit * raw <= 0x20_0000 * 127) by (nonlinear_arith)
            requires
                0 <= unit <= 0x20_0000,
                0 <= raw <= 127,
        ;
        assert(unit * raw == raw * unit) by (nonlinear_arith);
    } else {
        let shift = ((256 - raw) % 256) as nat;
        vstd::arithmetic::power2::lemma_pow2_pos(shift);
        if shift >= 64 {
            vstd::arithmetic::power2::lemma2_to64();
            vstd::arithmetic::power2::lemma_pow2_strictly_increases(32, shift);
        }
    }
}

/// A boot sector is accepted exactly when it is one of NTFS with plausible
/// sizes, and each number is read from where NTFS puts it: the sector size from
/// byte 11, the cluster size from byte 13, the sector count from byte 40, the
/// place of the `$MFT` from byte 48 and the size of its records from byte 64.
pub proof fn law_boot_sectors_are_read_field_by_field(b: Seq<u8>)
    ensures
        boot_geometry(b) is Ok <==> plausible_boot(b),
        boot_geometry(b) matches Ok(bs) ==> {
            &&& bs.bytes_per_sector == le_digits(b, 11, 2)
            &&& bs.cluster_size == stated_size(b[13], bs.bytes_per_sector as int)
            &&& bs.total_sectors == le_digits(b, 40, 8)
            &&& bs.mft_lcn == le_digits(b, 48, 8)
            &&& bs.mft_record_size == stated_size(b[64], bs.cluster_size as int)
        },
{
    law_little_endian_fields_hold_digits(b, 11, 2);
    law_little_endian_fields_hold_digits(b, 40, 8);
    law_little_endian_fields_hold_digits(b, 48, 8);
    lemma_byte_ranges();
    if b.len() >= 56 {
        lemma_le_value_round_trip(b.subrange(40, 48));
        lemma_le_value_round_trip(b.subrange(48, 56));
    }
    if b.len() >= 11 {
        law_prefixes_agree_byte_by_byte(b.subrange(3, 11), OEM_ID@);
        let s = b.subrange(3, 11);
        assert(s.take(8) =~= s);
        assert(s[0] == b[3] && s[1] == b[4] && s[2] == b[5] && s[3] == b[6]);
        assert(s[4] == b[7] && s[5] == b[8] && s[6] == b[9] && s[7] == b[10]);
        assert(has_oem_id(b) <==> b[3] == 0x4e && b[4] == 0x54 && b[5] == 0x46 && b[6] == 0x53
            && b[7] == 0x20 && b[8] == 0x20 && b[9] == 0x20 && b[10] == 0x20);
    }
    if has_oem_id(b) && b.len() >= 14 {
        let sector = le_field(b, 11, 2)->0;
        assert(plausible_sector(sector) == power_between(sector as int, 256, 8192));
        if plausible_sector(sector) {
            lemma_stated_size(b[13], sector as u64);
            let cluster = stated_size(b[13], sector as int);
            assert(power_between(cluster, 1, 0x20_0000) == (encoded_size(b[13], sector as u64)
                is Some && plausible_cluster(encoded_size(b[13], sector as u64)->0)));
            if power_between(cluster, 1, 0x20_0000) && b.len() >= 65 {
                lemma_stated_size(b[64], cluster as u64);
                let record = stated_size(b[64], cluster);
                assert(power_between(record, 256, 0x1_0000) == (encoded_size(
                    b[64],
                    cluster as u64,
                ) is Some && plausible_record(encoded_size(b[64], cluster as u64)->0)));
            }
        }
    }
}

/// The `$Volume` record is the fourth of the `$MFT`, one record long.
pub proof fn law_the_volume_record_is_the_fourth(
    bs: &BootSector,
    path: &str,
    r: Result<(u64, usize)>,
)
    requires
        call_ensures(volume_record_location, (bs, path), r),
    ensures
        r matches Ok(at) ==> at.0 == bs.mft_lcn * bs.cluster_size + 3 * bs.mft_record_size && at.1
            == bs.mft_record_size,
        bs.mft_lcn * bs.cluster_size + 3 * bs.mft_record_size <= u64::MAX && bs.mft_record_size
            <= u32::MAX ==> r is Ok,
{
}

/// A record is accepted only where its update sequence array has one entry for
/// each of its sectors, and its length does not change.
pub proof fn law_fixups_span_the_record(r: Seq<u8>, sector: int)
    requires
        sector >= 2,
        fixed_up(r, sector).fault is None,
    ensures
        r.len() >= 8,
        (le_digits(r, 6, 2) - 1) * sector == r.len(),
        fixed_up(r, sector).record.len() == r.len(),
{
    law_little_endian_fields_hold_digits(r, 4, 2);
    law_little_endian_fields_hold_digits(r, 6, 2);
    lemma_unstamp_keeps_length(
        r,
        sector,
        le_field(r, 4, 2)->0 as int,
        le_field(r, 6, 2)->0 as int,
        le_field(r, le_field(r, 4, 2)->0 as int, 2)->0,
        1,
    );
}

proof fn lemma_unstamp_keeps_length(
    r: Seq<u8>,
    sector: int,
    usa: int,
    count: int,
    usn: nat,
    i: int,
)
    requires
        sector >= 2,
        i >= 1,
    ensures
        unstamp(r, sector, usa, count, usn, i).record.len() == r.len(),
    decreases count - i,
{
    if i < count {
        let tail = i * sector - 2;
        assert(tail >= 0) by (nonlinear_arith)
            requires
                i >= 1,
                sector >= 2,
                tail == i * sector - 2,
        ;
        lemma_unstamp_keeps_length(
            with_u16(r, tail, le_field(r, usa + i * 2, 2)->0),
            sector,
            usa,
            count,
            usn,
            i + 1,
        );
    }
}

/// A volume is dirty exactly when the lowest bit of its flags is set.
pub proof fn law_the_lowest_flag_means_dirty(info: &VolumeInfo, r: bool)
    requires
        call_ensures(VolumeInfo::is_dirty, (info,), r),
    ensures
        r <==> info.flags % 2 == 1,
{
    let f = info.flags;
    assert(f & 1 != 0 <==> f % 2 == 1) by (bit_vector);
}

/// A name of an odd number of bytes, or of none, is no label.
pub proof fn law_halves_of_a_character_are_no_label(value: Seq<u8>)
    ensures
        value.len() == 0 || value.len() % 2 == 1 ==> label_of(value) is None,
{
}

// ---------------------------------------------------------------------------
// The device behind a path
// ---------------------------------------------------------------------------

/// Major number of a device number.
pub open spec fn major_of(dev: u64) -> u32 {
    (((dev & 0x0000_0000_000f_ff00) >> 8) | ((dev & 0xffff_f000_0000_0000) >> 32)) as u32
}

/// Minor number of a device number.
pub open spec fn minor_of(dev: u64) -> u32 {
    ((dev & 0x0000_0000_0000_00ff) | ((dev & 0x0000_0fff_fff0_0000) >> 12)) as u32
}

/// `libc::major`, as it is on Linux: bits 8 to 19 of the device number, and
/// bits 44 to 63 above them.
#[verifier::external_body]
fn major(dev: u64) -> (r: u32)
    ensures
        r == major_of(dev),
{
    libc::major(dev)
}

/// `libc::minor`, as it is on Linux: bits 0 to 7 of the device number, and bits
/// 20 to 43 above them.
#[verifier::external_body]
fn minor(dev: u64) -> (r: u32)
    ensures
        r == minor_of(dev),
{
    libc::minor(dev)
}

/// Where sysfs links a block device number to its device.
///
/// The link answers for a mounted filesystem without a mount table to parse.
pub fn backing_link(dev: u64) -> (r: String)
    ensures
        r@ == "/sys/dev/block/"@ + decimal(major_of(dev) as nat) + ":"@ + decimal(
            minor_of(dev) as nat,
        ),
{
    let mut r = "/sys/dev/block/".to_owned();
    r.append(dec(major(dev) as u64).as_str());
    r.append(":");
    r.append(dec(minor(dev) as u64).as_str());
    r
}

/// The node under `/dev` that a sysfs link leads to.
pub fn backing_device(link: &str) -> (r: Option<String>)
    ensures
        r is Some <==> name_of(link@) is Some,
        r matches Some(node) ==> node@ == inside("/dev"@, name_of(link@)->0),
{
    match file_name(link) {
        Some(name) => Some(join("/dev", name.as_str())),
        None => None,
    }
}

proof fn lemma_named_bit(front: Seq<Seq<char>>, flags: u16, bit: u16, name: Seq<char>, x: Seq<char>)
    ensures
        (front + named_bit(flags, bit, name)).contains(x) <==> front.contains(x) || (flags & bit
            != 0 && x == name),
        (front + named_bit(flags, bit, name)).len() == front.len() + if flags & bit != 0 {
            1nat
        } else {
            0
        },
{
    let all = front + named_bit(flags, bit, name);
    if front.contains(x) {
        let i = choose|i: int| 0 <= i < front.len() && front[i] == x;
        assert(all[i] == x);
    }
    if flags & bit != 0 {
        assert(all[front.len() as int] == name);
    }
    if all.contains(x) {
        let i = choose|i: int| 0 <= i < all.len() && all[i] == x;
        if i < front.len() {
            assert(front[i] == x);
        }
    }
}

proof fn lemma_flag_texts(flags: u16, x: Seq<char>)
    ensures
        flag_texts(flags).contains(x) <==> {
            ||| flags & 0x0001 != 0 && x == "dirty"@
            ||| flags & 0x0002 != 0 && x == "resize-logfile"@
            ||| flags & 0x0004 != 0 && x == "upgrade-on-mount"@
            ||| flags & 0x0008 != 0 && x == "mounted-on-nt4"@
            ||| flags & 0x0010 != 0 && x == "delete-usn-underway"@
            ||| flags & 0x0020 != 0 && x == "repair-object-id"@
            ||| flags & 0x8000 != 0 && x == "modified-by-chkdsk"@
        },
{
    let t0 = Seq::<Seq<char>>::empty();
    let t1 = named_bit(flags, 0x0001, "dirty"@);
    let t2 = t1 + named_bit(flags, 0x0002, "resize-logfile"@);
    let t3 = t2 + named_bit(flags, 0x0004, "upgrade-on-mount"@);
    let t4 = t3 + named_bit(flags, 0x0008, "mounted-on-nt4"@);
    let t5 = t4 + named_bit(flags, 0x0010, "delete-usn-underway"@);
    let t6 = t5 + named_bit(flags, 0x0020, "repair-object-id"@);
    assert(t0 + t1 =~= t1);
    assert(!t0.contains(x));
    lemma_named_bit(t0, flags, 0x0001, "dirty"@, x);
    lemma_named_bit(t1, flags, 0x0002, "resize-logfile"@, x);
    lemma_named_bit(t2, flags, 0x0004, "upgrade-on-mount"@, x);
    lemma_named_bit(t3, flags, 0x0008, "mounted-on-nt4"@, x);
    lemma_named_bit(t4, flags, 0x0010, "delete-usn-underway"@, x);
    lemma_named_bit(t5, flags, 0x0020, "repair-object-id"@, x);
    lemma_named_bit(t6, flags, 0x8000, "modified-by-chkdsk"@, x);
}

/// Each known flag is named exactly when its bit is set.
pub proof fn law_flags_are_named_bit_by_bit(info: &VolumeInfo, names: Vec<&'static str>)
    requires
        call_ensures(VolumeInfo::flag_names, (info,), names),
    ensures
        name_texts(names@).contains("dirty"@) <==> info.flags & 0x0001 != 0,
        name_texts(names@).contains("resize-logfile"@) <==> info.flags & 0x0002 != 0,
        name_texts(names@).contains("upgrade-on-mount"@) <==> info.flags & 0x0004 != 0,
        name_texts(names@).contains("mounted-on-nt4"@) <==> info.flags & 0x0008 != 0,
        name_texts(names@).contains("delete-usn-underway"@) <==> info.flags & 0x0010 != 0,
        name_texts(names@).contains("repair-object-id"@) <==> info.flags & 0x0020 != 0,
        name_texts(names@).contains("modified-by-chkdsk"@) <==> info.flags & 0x8000 != 0,
{
    reveal_strlit("dirty");
    reveal_strlit("resize-logfile");
    reveal_strlit("upgrade-on-mount");
    reveal_strlit("mounted-on-nt4");
    reveal_strlit("delete-usn-underway");
    reveal_strlit("repair-object-id");
    reveal_strlit("modified-by-chkdsk");
    assert("dirty"@.len() == 5);
    assert("resize-logfile"@.len() == 14);
    assert("upgrade-on-mount"@.len() == 16);
    assert("mounted-on-nt4"@.len() == 14);
    assert("delete-usn-underway"@.len() == 19);
    assert("repair-object-id"@.len() == 16);
    assert("modified-by-chkdsk"@.len() == 18);
    assert("resize-logfile"@[0] != "mounted-on-nt4"@[0]);
    assert("upgrade-on-mount"@[0] != "repair-object-id"@[0]);
    lemma_flag_texts(info.flags, "dirty"@);
    lemma_flag_texts(info.flags, "resize-logfile"@);
    lemma_flag_texts(info.flags, "upgrade-on-mount"@);
    lemma_flag_texts(info.flags, "mounted-on-nt4"@);
    lemma_flag_texts(info.flags, "delete-usn-underway"@);
    lemma_flag_texts(info.flags, "repair-object-id"@);
    lemma_flag_texts(info.flags, "modified-by-chkdsk"@);
}

/// The number of the device with these major and minor numbers.
pub open spec fn device_number(major: u32, minor: u32) -> u64 {
    ((major as u64 & 0xfff) << 8) | ((major as u64 & 0xffff_f000) << 32) | (minor as u64 & 0xff)
        | ((minor as u64 & 0xffff_ff00) << 12)
}

/// A device is linked under its major and its minor number, with a colon
/// between them.
pub proof fn law_devices_are_linked_by_number(major: u32, minor: u32, link: String)
    requires
        call_ensures(backing_link, (device_number(major, minor),), link),
    ensures
        link@ == "/sys/dev/block/"@ + decimal(major as nat) + ":"@ + decimal(minor as nat),
{
    let dev = device_number(major, minor);
    assert(major_of(dev) == major && minor_of(dev) == minor) by {
        assert(((((dev & 0x0000_0000_000f_ff00) >> 8) | ((dev & 0xffff_f000_0000_0000) >> 32)) as u32
            == major) && ((dev & 0x0000_0000_0000_00ff) | ((dev & 0x0000_0fff_fff0_0000) >> 12)) as u32
            == minor) by (bit_vector)
            requires
                dev == ((major as u64 & 0xfff) << 8) | ((major as u64 & 0xffff_f000) << 32) | (minor
                    as u64 & 0xff) | ((minor as u64 & 0xffff_ff00) << 12),
        ;
    }
}

/// A link to a device leads to the node of that name.
pub proof fn law_nodes_have_the_name_of_their_link(
    dir: Seq<char>,
    name: Seq<char>,
    link: &str,
    r: Option<String>,
)
    requires
        plain_name(name),
        link@ == inside(dir, name),
        call_ensures(backing_device, (link,), r),
    ensures
        r matches Some(node) && node@ == "/dev/"@ + name,
{
    reveal_strlit("/dev");
    reveal_strlit("/dev/");
    reveal_strlit("/");
    law_names_read_back(dir, name);
    assert(name[0] != '/');
    assert("/dev"@.len() == 4 && "/dev"@.last() == 'v');
    assert("/dev"@ + "/"@ =~= "/dev/"@);
}

proof fn lemma_unit_behind(u: Seq<u16>, z: u16)
    requires
        !high_surrogate(z),
        !low_surrogate(z),
    ensures
        from_utf16(u.push(z)) == from_utf16(u).push(z as char),
    decreases u.len(),
{
    let v = u.push(z);
    if u.len() == 0 {
        assert(v.skip(1) =~= Seq::<u16>::empty());
        assert(from_utf16(v.skip(1)) =~= Seq::<char>::empty());
        assert(from_utf16(v) =~= from_utf16(u).push(z as char));
    } else {
        assert(v.skip(1) =~= u.skip(1).push(z));
        lemma_unit_behind(u.skip(1), z);
        if high_surrogate(u[0]) && u.len() >= 2 && low_surrogate(u[1]) {
            assert(v.skip(2) =~= u.skip(2).push(z));
            lemma_unit_behind(u.skip(2), z);
        }
        assert(from_utf16(v) =~= from_utf16(u).push(z as char));
    }
}

/// A unit that is no half of a character stands for the character with its code,
/// behind what the units before it stand for; half a character alone is shown
/// as the replacement character.
pub proof fn law_units_stand_for_characters(u: Seq<u16>, z: u16)
    ensures
        z < 0xd800 || 0xe000 <= z ==> from_utf16(u.push(z)) == from_utf16(u).push(z as char),
        0xd800 <= z < 0xe000 ==> from_utf16(seq![z]) == seq!['\u{fffd}'],
{
    if z < 0xd800 || 0xe000 <= z {
        lemma_unit_behind(u, z);
    } else {
        assert(seq![z].skip(1) =~= Seq::<u16>::empty());
        assert(from_utf16(seq![z].skip(1)) =~= Seq::<char>::empty());
        assert(from_utf16(seq![z]) =~= seq!['\u{fffd}']);
    }
}

/// Zero units behind a label change nothing about it, and alone they are none.
pub proof fn law_zeros_behind_a_label_are_dropped(value: Seq<u8>)
    requires
        value.len() % 2 == 0,
    ensures
        label_of(value + seq![0u8, 0]) == label_of(value),
        label_of(value) matches Some(l) ==> l.len() > 0 && l.last() != '\0',
{
    let longer = value + seq![0u8, 0];
    let u = units(value);
    assert(units(longer) =~= u.push(0)) by {
        assert(longer.len() / 2 == value.len() / 2 + 1);
        assert forall|i: int| 0 <= i < u.len() + 1 implies #[trigger] units(longer)[i] == u.push(
            0,
        )[i] by {
            if i < u.len() {
                assert(longer[2 * i] == value[2 * i]);
                assert(longer[2 * i + 1] == value[2 * i + 1]);
            }
        }
    }
    lemma_unit_behind(u, 0);
    let t = from_utf16(u);
    assert(0u16 as char == '\0');
    assert(t.push('\0').drop_last() =~= t);
    assert(trim_nuls(t.push('\0')) == trim_nuls(t));
    if value.len() == 0 {
        assert(u =~= Seq::<u16>::empty());
        assert(trim_nuls(t).len() == 0);
    }
    lemma_trimmed_nuls(t);
}

proof fn lemma_trimmed_nuls(s: Seq<char>)
    ensures
        trim_nuls(s).len() > 0 ==> trim_nuls(s).last() != '\0',
    decreases s.len(),
{
    if s.len() > 0 && s.last() == '\0' {
        lemma_trimmed_nuls(s.drop_last());
    }
}

} // verus!
