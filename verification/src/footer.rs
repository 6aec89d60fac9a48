//! VHD footer generation and parsing. Pure bytes in, pure bytes out.
//!
//! # Layout, 512 bytes, big-endian
//!
//! | Offset | Size | Field |
//! |---|---|---|
//! | 0 | 8 | Cookie, `conectix` |
//! | 8 | 4 | Features, `0x00000002` |
//! | 12 | 4 | Format version, `0x00010000` |
//! | 16 | 8 | Data offset, `0xFFFFFFFFFFFFFFFF` for fixed |
//! | 24 | 4 | Timestamp, seconds since 2000-01-01Z |
//! | 28 | 4 | Creator application |
//! | 32 | 4 | Creator version |
//! | 36 | 4 | Creator host OS, `Wi2k` |
//! | 40 | 8 | Original size |
//! | 48 | 8 | Current size |
//! | 56 | 4 | Disk geometry: cylinders(2) heads(1) spt(1) |
//! | 60 | 4 | Disk type, `2` for fixed |
//! | 64 | 4 | Checksum |
//! | 68 | 16 | Unique ID |
//! | 84 | 1 | Saved state |
//! | 85 | 427 | Reserved, zero |
//!
//! The device mounts files with no valid footer at all, and a guest that
//! partitions the disk with GPT overwrites the footer with its backup header.
//! So the footer exists for Windows-side tooling, and its problems are
//! warnings rather than failures.

use vstd::prelude::*;
use vstd::utf8::encode_utf8;

use crate::bytes::{
    be_bytes, be_digits, be_field, law_big_endian_fields_hold_digits, lemma_be_bytes_len,
    lemma_be_round_trip, lemma_be_value_round_trip, lemma_byte_ranges, push_be, push_bytes, read_be,
    sector_of,
};
use crate::text::{
    debug_quoted, dec, decimal, hex, hexadecimal, join, joined, lossy_text, push_line, quoted,
    texts, utf8_lossy,
};

verus! {

pub const FOOTER_SIZE: usize = 512;

/// `conectix`
pub const COOKIE: [u8; 8] = [0x63, 0x6f, 0x6e, 0x65, 0x63, 0x74, 0x69, 0x78];

pub const FEATURES: u32 = 0x0000_0002;

pub const FORMAT_VERSION: u32 = 0x0001_0000;

pub const DATA_OFFSET_FIXED: u64 = 0xffff_ffff_ffff_ffff;

pub const CREATOR_VERSION: u32 = 0x0001_0000;

/// `Wi2k`
pub const CREATOR_HOST_OS: u32 = 0x5769_326B;

pub const DISK_TYPE_FIXED: u32 = 2;

pub const DISK_TYPE_DYNAMIC: u32 = 3;

pub const DISK_TYPE_DIFFERENCING: u32 = 4;

/// Unix seconds at the VHD epoch, 2000-01-01T00:00:00Z.
pub const VHD_EPOCH_UNIX: u64 = 946_684_800;

// ---------------------------------------------------------------------------
// Geometry
// ---------------------------------------------------------------------------

/// Legacy CHS geometry. The device does not read it; Windows does.
#[derive(Debug, Clone, Copy, PartialEq, Eq, Structural)]
pub struct Chs {
    pub cylinders: u16,
    pub heads: u8,
    pub sectors_per_track: u8,
}

/// The most sectors that the geometry can address.
pub const MAX_CHS_SECTORS: u64 = 65535 * 16 * 255;

/// From here on a track has 255 sectors.
pub const SPT63_THRESHOLD: u64 = 65535 * 16 * 63;

impl Chs {
    /// The sectors that the geometry addresses.
    pub open spec fn sectors(&self) -> int {
        self.cylinders * self.heads * self.sectors_per_track
    }

    /// Sectors addressable by this geometry. May be *less* than the disk's true
    /// sector count; see [`chs`].
    pub fn product(&self) -> (n: u64)
        ensures
            n == self.sectors(),
    {
        proof {
            assert(0 <= self.cylinders * self.heads <= 65535 * 255) by (nonlinear_arith);
            let x = self.cylinders * self.heads;
            assert(0 <= x * self.sectors_per_track <= 65535 * 255 * 255) by (nonlinear_arith)
                requires
                    0 <= x <= 65535 * 255,
            ;
        }
        self.cylinders as u64 * self.heads as u64 * self.sectors_per_track as u64
    }
}

/// `a / b`, rounded up.
pub open spec fn div_up(a: int, b: int) -> int {
    (a + b - 1) / b
}

/// Heads and sectors per track for a disk of `total` addressable sectors: a
/// track has as few sectors as keep the cylinders below 1024 per head.
pub open spec fn track_layout(total: int) -> (int, int) {
    if total >= SPT63_THRESHOLD {
        (16, 255)
    } else {
        let few = div_up(total / 17, 1024);
        let heads = if few < 4 {
            4
        } else {
            few
        };
        if total / 17 < heads * 1024 && heads <= 16 {
            (heads, 17)
        } else if total / 31 < 16 * 1024 {
            (16, 31)
        } else {
            (16, 63)
        }
    }
}

/// The geometry of a disk of `total_sectors` sectors.
pub open spec fn geometry(total_sectors: u64) -> Chs {
    let total = if total_sectors > MAX_CHS_SECTORS {
        MAX_CHS_SECTORS as int
    } else {
        total_sectors as int
    };
    let (heads, spt) = track_layout(total);
    Chs {
        cylinders: (total / spt / heads) as u16,
        heads: heads as u8,
        sectors_per_track: spt as u8,
    }
}

/// The Microsoft VHD geometry algorithm, floor division throughout.
///
/// `cylinders * heads * sectors_per_track <= total_sectors` is expected and
/// correct. The footer's size fields carry the true byte size; CHS is legacy
/// geometry that Windows reads and the device ignores.
pub fn chs(total_sectors: u64) -> (g: Chs)
    ensures
        g == geometry(total_sectors),
{
    let total: u64 = if total_sectors > MAX_CHS_SECTORS {
        MAX_CHS_SECTORS
    } else {
        total_sectors
    };
    let mut spt: u64 = 255;
    let mut heads: u64 = 16;
    let mut cth: u64 = total / 255;
    if total < SPT63_THRESHOLD {
        spt = 17;
        cth = total / 17;
        heads = (cth + 1023) / 1024;
        if heads < 4 {
            heads = 4;
        }
        if cth >= heads * 1024 || heads > 16 {
            spt = 31;
            heads = 16;
            cth = total / 31;
        }
        if cth >= heads * 1024 {
            spt = 63;
            heads = 16;
            cth = total / 63;
        }
    }
    let cylinders: u64 = cth / heads;
    Chs { cylinders: cylinders as u16, heads: heads as u8, sectors_per_track: spt as u8 }
}

// ---------------------------------------------------------------------------
// Checksum
// ---------------------------------------------------------------------------

/// The sum of the bytes of `s`.
pub open spec fn byte_sum(s: Seq<u8>) -> nat
    decreases s.len(),
{
    if s.len() == 0 {
        0
    } else {
        byte_sum(s.drop_last()) + s.last() as nat
    }
}

/// Ones' complement of the sum of all bytes outside the checksum field.
pub open spec fn checksum_of(b: Seq<u8>) -> u32 {
    (u32::MAX - (byte_sum(b.take(64)) + byte_sum(b.skip(68)))) as u32
}

/// The sum of the bytes of `b[from..to]`.
fn sum_between(b: &[u8; 512], from: usize, to: usize) -> (sum: u32)
    requires
        from <= to <= 512,
    ensures
        sum == byte_sum(b@.subrange(from as int, to as int)),
        sum <= 255 * 512,
{
    let mut sum: u32 = 0;
    let mut i: usize = from;
    while i < to
        invariant
            from <= i <= to <= 512,
            sum == byte_sum(b@.subrange(from as int, i as int)),
            sum <= 255 * (i - from),
        decreases to - i,
    {
        let ghost s = b@.subrange(from as int, i + 1);
        assert(s.drop_last() == b@.subrange(from as int, i as int));
        sum = sum + b[i] as u32;
        i += 1;
    }
    sum
}

/// Ones' complement of the sum of all 512 bytes with the checksum field zeroed.
pub fn checksum(bytes: &[u8; 512]) -> (c: u32)
    ensures
        c == checksum_of(bytes@),
{
    let head: u32 = sum_between(bytes, 0, 64);
    let tail: u32 = sum_between(bytes, 68, 512);
    let sum: u32 = head + tail;
    assert(bytes@.take(64) == bytes@.subrange(0, 64));
    assert(bytes@.skip(68) == bytes@.subrange(68, 512));
    assert(!sum == 0xffff_ffffu32 - sum) by (bit_vector);
    !sum
}

// ---------------------------------------------------------------------------
// Creator
// ---------------------------------------------------------------------------

/// A creator tag: exactly four bytes, right-padded with spaces.
#[derive(Debug, Clone, Copy, PartialEq, Eq)]
pub struct Creator(pub [u8; 4]);

/// `iodd`
pub const DEFAULT_TAG: [u8; 4] = [0x69, 0x6f, 0x64, 0x64];

impl Default for Creator {
    /// The tag of this tool.
    fn default() -> (c: Creator)
        ensures
            c.0@ == DEFAULT_TAG@,
    {
        Creator(DEFAULT_TAG)
    }
}

/// Whether every byte of `b` is printable ASCII.
pub open spec fn printable(b: Seq<u8>) -> bool {
    forall|i: int| 0 <= i < b.len() ==> 0x20 <= #[trigger] b[i] < 0x7f
}

/// `b` with spaces behind it up to four bytes.
pub open spec fn padded_tag(b: Seq<u8>) -> Seq<u8> {
    b + Seq::new((4 - b.len()) as nat, |i: int| 0x20u8)
}

/// Whether a text is a creator tag.
pub open spec fn is_tag(tag: Seq<char>) -> bool {
    let b = encode_utf8(tag);
    1 <= b.len() <= 4 && printable(b)
}

/// What is wrong with a text that is not.
pub open spec fn tag_fault_text(tag: Seq<char>) -> Seq<char> {
    let b = encode_utf8(tag);
    if 1 <= b.len() <= 4 {
        "creator tag "@ + debug_quoted(tag) + " must be printable ASCII"@
    } else {
        "creator tag "@ + debug_quoted(tag) + " must be 1 to 4 characters, got "@ + decimal(b.len())
    }
}

impl Creator {
    /// Accept 1-4 printable ASCII bytes, right-padded with `0x20`.
    pub fn parse(tag: &str) -> (r: std::result::Result<Creator, String>)
        ensures
            r is Ok <==> is_tag(tag@),
            r matches Ok(c) ==> c.0@ == padded_tag(encode_utf8(tag@)),
            r matches Err(m) ==> m@ == tag_fault_text(tag@),
    {
        let bytes = tag.as_bytes();
        let n: usize = bytes.len();
        if n == 0 || n > 4 {
            let mut m = "creator tag ".to_owned();
            m.append(quoted(tag).as_str());
            m.append(" must be 1 to 4 characters, got ");
            m.append(dec(n as u64).as_str());
            return Err(m);
        }
        let mut out: [u8; 4] = [0x20, 0x20, 0x20, 0x20];
        let mut i: usize = 0;
        while i < n
            invariant
                i <= n <= 4,
                n == bytes@.len(),
                bytes@ == encode_utf8(tag@),
                forall|j: int| 0 <= j < i ==> 0x20 <= #[trigger] bytes@[j] < 0x7f,
                forall|j: int| 0 <= j < i ==> #[trigger] out@[j] == bytes@[j],
                forall|j: int| i <= j < 4 ==> #[trigger] out@[j] == 0x20,
            decreases n - i,
        {
            if bytes[i] < 0x20 || bytes[i] >= 0x7f {
                let mut m = "creator tag ".to_owned();
                m.append(quoted(tag).as_str());
                m.append(" must be printable ASCII");
                return Err(m);
            }
            out[i] = bytes[i];
            i += 1;
        }
        assert(out@ =~= padded_tag(bytes@));
        Ok(Creator(out))
    }

    /// The tag as text.
    pub fn text(&self) -> (s: String)
        ensures
            s@ == utf8_lossy(self.0@),
            printable(self.0@) ==> s@ == Seq::new(4, |i: int| self.0@[i] as char),
    {
        lossy_text(&self.0)
    }
}

// ---------------------------------------------------------------------------
// The footer
// ---------------------------------------------------------------------------

/// A parsed or generated fixed-VHD footer.
#[derive(Debug, Clone, PartialEq, Eq)]
pub struct Footer {
    pub virtual_size: u64,
    pub timestamp: u32,
    pub creator: Creator,
    pub creator_version: u32,
    pub creator_host_os: u32,
    pub geometry: Chs,
    pub disk_type: u32,
    pub checksum: u32,
    pub unique_id: [u8; 16],
    pub saved_state: u8,
    pub data_offset: u64,
    pub features: u32,
    pub format_version: u32,
}

/// The 512 bytes of a footer.
pub open spec fn footer_bytes(f: Footer) -> Seq<u8> {
    COOKIE@ + be_bytes(f.features as nat, 4) + be_bytes(f.format_version as nat, 4) + be_bytes(
        f.data_offset as nat,
        8,
    ) + be_bytes(f.timestamp as nat, 4) + f.creator.0@ + be_bytes(f.creator_version as nat, 4)
        + be_bytes(f.creator_host_os as nat, 4) + be_bytes(f.virtual_size as nat, 8) + be_bytes(
        f.virtual_size as nat,
        8,
    ) + be_bytes(f.geometry.cylinders as nat, 2) + seq![
        f.geometry.heads,
        f.geometry.sectors_per_track,
    ] + be_bytes(f.disk_type as nat, 4) + be_bytes(f.checksum as nat, 4) + f.unique_id@ + seq![
        f.saved_state,
    ] + Seq::new(427, |i: int| 0u8)
}

/// Whether `f` holds exactly what the bytes `b` say.
pub open spec fn reads(f: Footer, b: Seq<u8>) -> bool {
    &&& f.virtual_size == be_field(b, 48, 8)
    &&& f.timestamp == be_field(b, 24, 4)
    &&& f.creator.0@ == b.subrange(28, 32)
    &&& f.creator_version == be_field(b, 32, 4)
    &&& f.creator_host_os == be_field(b, 36, 4)
    &&& f.geometry.cylinders == be_field(b, 56, 2)
    &&& f.geometry.heads == b[58]
    &&& f.geometry.sectors_per_track == b[59]
    &&& f.disk_type == be_field(b, 60, 4)
    &&& f.checksum == be_field(b, 64, 4)
    &&& f.unique_id@ == b.subrange(68, 84)
    &&& f.saved_state == b[84]
    &&& f.data_offset == be_field(b, 16, 8)
    &&& f.features == be_field(b, 8, 4)
    &&& f.format_version == be_field(b, 12, 4)
}

/// A fixed-VHD footer for `virtual_size`, before its checksum is known.
pub open spec fn unsummed(
    virtual_size: u64,
    creator: Creator,
    timestamp: u32,
    unique_id: [u8; 16],
) -> Footer {
    Footer {
        virtual_size,
        timestamp,
        creator,
        creator_version: CREATOR_VERSION,
        creator_host_os: CREATOR_HOST_OS,
        geometry: geometry(virtual_size / 512),
        disk_type: DISK_TYPE_FIXED,
        checksum: 0,
        unique_id,
        saved_state: 0,
        data_offset: DATA_OFFSET_FIXED,
        features: FEATURES,
        format_version: FORMAT_VERSION,
    }
}

/// A fixed-VHD footer for `virtual_size`.
pub open spec fn fresh(
    virtual_size: u64,
    creator: Creator,
    timestamp: u32,
    unique_id: [u8; 16],
) -> Footer {
    let f = unsummed(virtual_size, creator, timestamp, unique_id);
    Footer { checksum: checksum_of(footer_bytes(f)), ..f }
}

/// Seconds since the VHD epoch at a Unix time, clamped into 32 bits.
pub open spec fn vhd_time(unix: u64) -> u32 {
    if unix <= VHD_EPOCH_UNIX {
        0
    } else if unix - VHD_EPOCH_UNIX > u32::MAX {
        u32::MAX
    } else {
        (unix - VHD_EPOCH_UNIX) as u32
    }
}

/// The bits that mark an identifier as a version 4 UUID.
pub open spec fn is_v4(id: Seq<u8>) -> bool {
    id.len() == 16 && 0x40 <= id[6] < 0x50 && 0x80 <= id[8] < 0xc0
}

proof fn lemma_footer_len(f: Footer)
    ensures
        footer_bytes(f).len() == 512,
{
    lemma_be_bytes_len(f.features as nat, 4);
    lemma_be_bytes_len(f.format_version as nat, 4);
    lemma_be_bytes_len(f.data_offset as nat, 8);
    lemma_be_bytes_len(f.timestamp as nat, 4);
    lemma_be_bytes_len(f.creator_version as nat, 4);
    lemma_be_bytes_len(f.creator_host_os as nat, 4);
    lemma_be_bytes_len(f.virtual_size as nat, 8);
    lemma_be_bytes_len(f.geometry.cylinders as nat, 2);
    lemma_be_bytes_len(f.disk_type as nat, 4);
    lemma_be_bytes_len(f.checksum as nat, 4);
}

/// `std::time::SystemTime`, opaque here.
#[verifier::external_type_specification]
#[verifier::external_body]
pub struct ExSystemTime(std::time::SystemTime);

/// `SystemTime::now`. Nothing is claimed of the time it reads.
#[verifier::external_body]
fn clock() -> std::time::SystemTime {
    std::time::SystemTime::now()
}

/// `SystemTime::duration_since` with the Unix epoch; `None` for a time before
/// it. The types are opaque, so nothing is claimed of the result.
#[verifier::external_body]
fn since_unix_epoch(t: std::time::SystemTime) -> Option<std::time::Duration> {
    t.duration_since(std::time::UNIX_EPOCH).ok()
}

/// `Duration::as_secs`: the whole seconds of a duration. The type is opaque, so
/// nothing is claimed of the number.
#[verifier::external_body]
fn whole_seconds(d: std::time::Duration) -> u64 {
    d.as_secs()
}

/// `uuid::Uuid::new_v4`, as bytes: random but for the version, in the high half
/// of byte 6, and the variant, in the two high bits of byte 8. Like the outside
/// function it panics where the system yields no random bytes.
#[verifier::external_body]
fn random_id() -> (id: [u8; 16])
    ensures
        is_v4(id@),
{
    *uuid::Uuid::new_v4().as_bytes()
}

impl Footer {
    /// Build a footer for `virtual_size`.
    ///
    /// `timestamp` and `unique_id` are parameters rather than ambient reads so
    /// the result is a function of the arguments. Callers that want the
    /// current time use [`Footer::now`].
    pub fn new(virtual_size: u64, creator: Creator, timestamp: u32, unique_id: [u8; 16]) -> (f:
        Footer)
        ensures
            f == fresh(virtual_size, creator, timestamp, unique_id),
    {
        let mut footer = Footer {
            virtual_size,
            timestamp,
            creator,
            creator_version: CREATOR_VERSION,
            creator_host_os: CREATOR_HOST_OS,
            geometry: chs(virtual_size / 512),
            disk_type: DISK_TYPE_FIXED,
            checksum: 0,
            unique_id,
            saved_state: 0,
            data_offset: DATA_OFFSET_FIXED,
            features: FEATURES,
            format_version: FORMAT_VERSION,
        };
        let sum: u32 = checksum(&footer.to_bytes());
        footer.checksum = sum;
        footer
    }

    /// Build a footer stamped with a Unix time.
    pub fn at(virtual_size: u64, creator: Creator, unix: u64, unique_id: [u8; 16]) -> (f: Footer)
        ensures
            f == fresh(virtual_size, creator, vhd_time(unix), unique_id),
    {
        let since: u64 = unix.saturating_sub(VHD_EPOCH_UNIX);
        let timestamp: u32 = if since > u32::MAX as u64 {
            u32::MAX
        } else {
            since as u32
        };
        Footer::new(virtual_size, creator, timestamp, unique_id)
    }

    /// Build a footer stamped with the current time and a fresh v4 UUID. A
    /// clock that stands before 1970 counts as standing at it.
    pub fn now(virtual_size: u64, creator: Creator) -> (f: Footer)
        ensures
            is_v4(f.unique_id@),
            exists|unix: u64|
                f == fresh(virtual_size, creator, #[trigger] vhd_time(unix), f.unique_id),
    {
        let unix: u64 = match since_unix_epoch(clock()) {
            Some(d) => whole_seconds(d),
            None => 0,
        };
        let id = random_id();
        Footer::at(virtual_size, creator, unix, id)
    }

    /// Serialize to the 512 bytes that go at offset `virtual_size`.
    pub fn to_bytes(&self) -> (b: [u8; 512])
        ensures
            b@ == footer_bytes(*self),
    {
        let mut b: Vec<u8> = Vec::new();
        push_bytes(&mut b, &COOKIE);
        assert(b@ == COOKIE@);
        push_be(&mut b, self.features as u64, 4);
        push_be(&mut b, self.format_version as u64, 4);
        push_be(&mut b, self.data_offset, 8);
        push_be(&mut b, self.timestamp as u64, 4);
        push_bytes(&mut b, &self.creator.0);
        push_be(&mut b, self.creator_version as u64, 4);
        push_be(&mut b, self.creator_host_os as u64, 4);
        push_be(&mut b, self.virtual_size, 8);
        push_be(&mut b, self.virtual_size, 8);
        push_be(&mut b, self.geometry.cylinders as u64, 2);
        let track: [u8; 2] = [self.geometry.heads, self.geometry.sectors_per_track];
        assert(track@ == seq![self.geometry.heads, self.geometry.sectors_per_track]);
        push_bytes(&mut b, &track);
        push_be(&mut b, self.disk_type as u64, 4);
        push_be(&mut b, self.checksum as u64, 4);
        push_bytes(&mut b, &self.unique_id);
        let state: [u8; 1] = [self.saved_state];
        assert(state@ == seq![self.saved_state]);
        push_bytes(&mut b, &state);
        let reserved: [u8; 427] = [0u8; 427];
        assert(reserved@ == Seq::new(427, |i: int| 0u8));
        push_bytes(&mut b, &reserved);
        proof {
            lemma_footer_len(*self);
        }
        sector_of(&b)
    }
}

// ---------------------------------------------------------------------------
// Problems
// ---------------------------------------------------------------------------

/// Something wrong with a footer. A *list* of these is reported rather than the
/// first one found, because every footer finding is a warning and the operator
/// deserves all of them at once.
#[allow(inconsistent_fields)]
#[derive(Debug, Clone, PartialEq, Eq)]
pub enum FooterProblem {
    /// No `conectix`. The commonest real case: a guest partitioned the disk
    /// with GPT and its backup header overwrote the footer.
    BadCookie { found: [u8; 8] },
    BadChecksum { stored: u32, computed: u32 },
    NotFixed { disk_type: u32 },
    DataOffsetNotFixed { found: u64 },
    SizeFieldsDisagree { original: u64, current: u64 },
    SizeDisagreesWithFile { field: u64, expected: u64 },
    VirtualSizeNotAligned { virtual_size: u64 },
    UnexpectedFeatures { found: u32 },
    UnexpectedFormatVersion { found: u32 },
}

/// `EFI PART`, the start of a GPT header.
pub const GPT_SIGNATURE: [u8; 8] = [0x45, 0x46, 0x49, 0x20, 0x50, 0x41, 0x52, 0x54];

/// `vhdxfile`, the start of a VHDX container.
pub const VHDX_SIGNATURE: [u8; 8] = [0x76, 0x68, 0x64, 0x78, 0x66, 0x69, 0x6c, 0x65];

/// Two hexadecimal digits for each byte.
pub open spec fn hex_pairs(b: Seq<u8>) -> Seq<Seq<char>> {
    Seq::new(b.len(), |i: int| hexadecimal(b[i] as nat, 2))
}

/// What is said of bytes that should be the cookie and are not.
pub open spec fn cookie_text(found: Seq<u8>) -> Seq<char> {
    if found == GPT_SIGNATURE@ {
        "no VHD footer: the last sector is a GPT backup header. Either a guest partitioned this disk and overwrote the footer, or the file is a raw image that never had one"@
    } else if forall|i: int| 0 <= i < found.len() ==> #[trigger] found[i] == 0 {
        "no VHD footer: the last sector is all zeros"@
    } else if found == VHDX_SIGNATURE@ {
        "no VHD footer: this is a VHDX container"@
    } else {
        "no VHD footer: expected the conectix cookie, found ["@ + join(hex_pairs(found), ", "@)
            + "]"@
    }
}

/// The name behind a disk type that is not fixed.
pub open spec fn disk_type_note(disk_type: u32) -> Seq<char> {
    if disk_type == DISK_TYPE_DYNAMIC {
        " (dynamic)"@
    } else if disk_type == DISK_TYPE_DIFFERENCING {
        " (differencing)"@
    } else {
        ""@
    }
}

/// What the operator is told about a problem.
pub open spec fn problem_text(p: FooterProblem) -> Seq<char> {
    match p {
        FooterProblem::BadCookie { found } => cookie_text(found@),
        FooterProblem::BadChecksum { stored, computed } => "checksum mismatch: stored 0x"@
            + hexadecimal(stored as nat, 8) + ", computed 0x"@ + hexadecimal(computed as nat, 8),
        FooterProblem::NotFixed { disk_type } => "disk type is "@ + decimal(disk_type as nat)
            + disk_type_note(disk_type) + ", not 2 (fixed)"@,
        FooterProblem::DataOffsetNotFixed { found } => "data offset is 0x"@ + hexadecimal(
            found as nat,
            16,
        ) + ", not 0xffffffffffffffff; this is not a fixed VHD"@,
        FooterProblem::SizeFieldsDisagree { original, current } => "original size "@ + decimal(
            original as nat,
        ) + " disagrees with current size "@ + decimal(current as nat),
        FooterProblem::SizeDisagreesWithFile { field, expected } => "footer size field "@ + decimal(
            field as nat,
        ) + " disagrees with file size minus 512, "@ + decimal(expected as nat),
        FooterProblem::VirtualSizeNotAligned { virtual_size } => "virtual size "@ + decimal(
            virtual_size as nat,
        ) + " is not a multiple of 512"@,
        FooterProblem::UnexpectedFeatures { found } => "features field is 0x"@ + hexadecimal(
            found as nat,
            8,
        ) + ", expected 0x00000002"@,
        FooterProblem::UnexpectedFormatVersion { found } => "format version is 0x"@ + hexadecimal(
            found as nat,
            8,
        ) + ", expected 0x00010000"@,
    }
}

/// Whether two rows of eight bytes are the same.
fn same_eight(a: &[u8; 8], b: &[u8; 8]) -> (r: bool)
    ensures
        r == (a@ == b@),
{
    let mut i: usize = 0;
    while i < 8
        invariant
            i <= 8,
            forall|j: int| 0 <= j < i ==> a@[j] == b@[j],
        decreases 8 - i,
    {
        if a[i] != b[i] {
            return false;
        }
        i += 1;
    }
    assert(a@ =~= b@);
    true
}

fn all_zero(a: &[u8; 8]) -> (r: bool)
    ensures
        r == (forall|i: int| 0 <= i < a@.len() ==> #[trigger] a@[i] == 0),
{
    let mut i: usize = 0;
    while i < 8
        invariant
            i <= 8,
            forall|j: int| 0 <= j < i ==> a@[j] == 0,
        decreases 8 - i,
    {
        if a[i] != 0 {
            assert(a@[i as int] != 0);
            return false;
        }
        i += 1;
    }
    true
}

fn pairs_of(b: &[u8]) -> (v: Vec<String>)
    ensures
        texts(v@) == hex_pairs(b@),
{
    let mut v: Vec<String> = Vec::new();
    let mut i: usize = 0;
    while i < b.len()
        invariant
            i <= b@.len(),
            texts(v@) == hex_pairs(b@).take(i as int),
        decreases b@.len() - i,
    {
        let pair = hex(b[i] as u64, 2);
        let ghost before = v@;
        v.push(pair);
        i += 1;
        assert(texts(v@) =~= texts(before).push(pair@));
        assert(hex_pairs(b@).take(i as int) =~= hex_pairs(b@).take(i - 1).push(
            hex_pairs(b@)[i - 1],
        ));
    }
    assert(hex_pairs(b@).take(i as int) =~= hex_pairs(b@));
    v
}

fn cookie_message(found: &[u8; 8]) -> (m: String)
    ensures
        m@ == cookie_text(found@),
{
    if same_eight(found, &GPT_SIGNATURE) {
        // Do not assert *why*. A guest partitioning a VHD overwrites the footer
        // with its backup GPT, but a raw disk image that never had a footer
        // looks identical from here.
        return "no VHD footer: the last sector is a GPT backup header. Either a guest partitioned this disk and overwrote the footer, or the file is a raw image that never had one".to_owned();
    }
    if all_zero(found) {
        return "no VHD footer: the last sector is all zeros".to_owned();
    }
    if same_eight(found, &VHDX_SIGNATURE) {
        return "no VHD footer: this is a VHDX container".to_owned();
    }
    let mut m = "no VHD footer: expected the conectix cookie, found [".to_owned();
    m.append(joined(pairs_of(found).as_slice(), ", ").as_str());
    m.append("]");
    m
}

impl FooterProblem {
    /// What the operator is told about this problem.
    pub fn text(&self) -> (m: String)
        ensures
            m@ == problem_text(*self),
    {
        match self {
            FooterProblem::BadCookie { found } => cookie_message(found),
            FooterProblem::BadChecksum { stored, computed } => {
                let mut m = "checksum mismatch: stored 0x".to_owned();
                m.append(hex(*stored as u64, 8).as_str());
                m.append(", computed 0x");
                m.append(hex(*computed as u64, 8).as_str());
                m
            },
            FooterProblem::NotFixed { disk_type } => {
                let mut m = "disk type is ".to_owned();
                m.append(dec(*disk_type as u64).as_str());
                if *disk_type == DISK_TYPE_DYNAMIC {
                    m.append(" (dynamic)");
                } else if *disk_type == DISK_TYPE_DIFFERENCING {
                    m.append(" (differencing)");
                } else {
                    m.append("");
                }
                m.append(", not 2 (fixed)");
                m
            },
            FooterProblem::DataOffsetNotFixed { found } => {
                let mut m = "data offset is 0x".to_owned();
                m.append(hex(*found, 16).as_str());
                m.append(", not 0xffffffffffffffff; this is not a fixed VHD");
                m
            },
            FooterProblem::SizeFieldsDisagree { original, current } => {
                let mut m = "original size ".to_owned();
                m.append(dec(*original).as_str());
                m.append(" disagrees with current size ");
                m.append(dec(*current).as_str());
                m
            },
            FooterProblem::SizeDisagreesWithFile { field, expected } => {
                let mut m = "footer size field ".to_owned();
                m.append(dec(*field).as_str());
                m.append(" disagrees with file size minus 512, ");
                m.append(dec(*expected).as_str());
                m
            },
            FooterProblem::VirtualSizeNotAligned { virtual_size } => {
                let mut m = "virtual size ".to_owned();
                m.append(dec(*virtual_size).as_str());
                m.append(" is not a multiple of 512");
                m
            },
            FooterProblem::UnexpectedFeatures { found } => {
                let mut m = "features field is 0x".to_owned();
                m.append(hex(*found as u64, 8).as_str());
                m.append(", expected 0x00000002");
                m
            },
            FooterProblem::UnexpectedFormatVersion { found } => {
                let mut m = "format version is 0x".to_owned();
                m.append(hex(*found as u64, 8).as_str());
                m.append(", expected 0x00010000");
                m
            },
        }
    }
}

// ---------------------------------------------------------------------------
// Parsing
// ---------------------------------------------------------------------------

/// Whether the bytes start with the cookie.
pub open spec fn has_cookie(b: Seq<u8>) -> bool {
    b.take(8) == COOKIE@
}

/// `p` where the condition holds, nothing otherwise.
pub open spec fn problem_if(bad: bool, p: FooterProblem) -> Seq<FooterProblem> {
    if bad {
        seq![p]
    } else {
        Seq::empty()
    }
}

/// Everything that is wrong with a sector that does start with the cookie.
pub open spec fn problems_of(b: Seq<u8>, expected: Option<u64>) -> Seq<FooterProblem> {
    let features = be_field(b, 8, 4) as u32;
    let version = be_field(b, 12, 4) as u32;
    let offset = be_field(b, 16, 8) as u64;
    let original = be_field(b, 40, 8) as u64;
    let current = be_field(b, 48, 8) as u64;
    let disk_type = be_field(b, 60, 4) as u32;
    let stored = be_field(b, 64, 4) as u32;
    problem_if(features != FEATURES, FooterProblem::UnexpectedFeatures { found: features })
        + problem_if(
        version != FORMAT_VERSION,
        FooterProblem::UnexpectedFormatVersion { found: version },
    ) + problem_if(
        offset != DATA_OFFSET_FIXED,
        FooterProblem::DataOffsetNotFixed { found: offset },
    ) + problem_if(
        original != current,
        FooterProblem::SizeFieldsDisagree { original, current },
    ) + problem_if(
        expected is Some && current != expected->0,
        FooterProblem::SizeDisagreesWithFile { field: current, expected: expected->0 },
    ) + problem_if(
        current % 512 != 0,
        FooterProblem::VirtualSizeNotAligned { virtual_size: current },
    ) + problem_if(disk_type != DISK_TYPE_FIXED, FooterProblem::NotFixed { disk_type })
        + problem_if(
        stored != checksum_of(b),
        FooterProblem::BadChecksum { stored, computed: checksum_of(b) },
    )
}

/// Whether `found` is what a footer sector is reported for. Without the cookie
/// it is not a footer, so that is the one thing reported.
pub open spec fn reported(b: Seq<u8>, expected: Option<u64>, found: Seq<FooterProblem>) -> bool {
    if has_cookie(b) {
        found == problems_of(b, expected)
    } else {
        found.len() == 1 && (found[0] matches FooterProblem::BadCookie { found: c } && c@ == b.take(
            8,
        ))
    }
}

fn push_if(problems: &mut Vec<FooterProblem>, bad: bool, p: FooterProblem)
    ensures
        final(problems)@ == old(problems)@ + problem_if(bad, p),
{
    if bad {
        problems.push(p);
    }
}

fn be32(b: &[u8; 512], at: usize) -> (n: u32)
    requires
        at + 4 <= 512,
    ensures
        n == be_field(b@, at as int, 4),
{
    proof {
        lemma_byte_ranges();
    }
    read_be(b, at, 4) as u32
}

fn be64(b: &[u8; 512], at: usize) -> (n: u64)
    requires
        at + 8 <= 512,
    ensures
        n == be_field(b@, at as int, 8),
{
    read_be(b, at, 8)
}

/// Read every field as the bytes give it, applying no judgement.
fn read_fields(bytes: &[u8; 512]) -> (f: Footer)
    ensures
        reads(f, bytes@),
{
    let creator: [u8; 4] = [bytes[28], bytes[29], bytes[30], bytes[31]];
    assert(creator@ =~= bytes@.subrange(28, 32));
    let mut unique_id: [u8; 16] = [0u8; 16];
    let mut i: usize = 0;
    while i < 16
        invariant
            i <= 16,
            forall|j: int| 0 <= j < i ==> #[trigger] unique_id@[j] == bytes@[68 + j],
        decreases 16 - i,
    {
        unique_id[i] = bytes[68 + i];
        i += 1;
    }
    assert(unique_id@ =~= bytes@.subrange(68, 84));
    proof {
        lemma_byte_ranges();
    }
    Footer {
        virtual_size: be64(bytes, 48),
        timestamp: be32(bytes, 24),
        creator: Creator(creator),
        creator_version: be32(bytes, 32),
        creator_host_os: be32(bytes, 36),
        geometry: Chs {
            cylinders: read_be(bytes, 56, 2) as u16,
            heads: bytes[58],
            sectors_per_track: bytes[59],
        },
        disk_type: be32(bytes, 60),
        checksum: be32(bytes, 64),
        unique_id,
        saved_state: bytes[84],
        data_offset: be64(bytes, 16),
        features: be32(bytes, 8),
        format_version: be32(bytes, 12),
    }
}

/// Parse a footer, collecting every problem found.
///
/// Returns the fields as read even when problems exist, so a report can show
/// what the bytes actually said. `expected_virtual_size` is the file size minus
/// 512, when the caller knows it.
pub fn parse(bytes: &[u8; 512], expected_virtual_size: Option<u64>) -> (r: (
    Footer,
    Vec<FooterProblem>,
))
    ensures
        reads(r.0, bytes@),
        reported(bytes@, expected_virtual_size, r.1@),
{
    let mut problems: Vec<FooterProblem> = Vec::new();
    let cookie: [u8; 8] = [
        bytes[0],
        bytes[1],
        bytes[2],
        bytes[3],
        bytes[4],
        bytes[5],
        bytes[6],
        bytes[7],
    ];
    assert(cookie@ =~= bytes@.take(8));
    let fields = read_fields(bytes);
    if !same_eight(&cookie, &COOKIE) {
        // Without the cookie this is not a footer, so reporting its "disk type"
        // and "checksum" as separate problems is cascading noise rather than
        // information.
        problems.push(FooterProblem::BadCookie { found: cookie });
        return (fields, problems);
    }
    let features: u32 = be32(bytes, 8);
    push_if(
        &mut problems,
        features != FEATURES,
        FooterProblem::UnexpectedFeatures { found: features },
    );
    assert(problems@ =~= problem_if(
        features != FEATURES,
        FooterProblem::UnexpectedFeatures { found: features },
    ));
    let version: u32 = be32(bytes, 12);
    push_if(
        &mut problems,
        version != FORMAT_VERSION,
        FooterProblem::UnexpectedFormatVersion { found: version },
    );
    let offset: u64 = be64(bytes, 16);
    push_if(
        &mut problems,
        offset != DATA_OFFSET_FIXED,
        FooterProblem::DataOffsetNotFixed { found: offset },
    );
    let original: u64 = be64(bytes, 40);
    let current: u64 = be64(bytes, 48);
    push_if(
        &mut problems,
        original != current,
        FooterProblem::SizeFieldsDisagree { original, current },
    );
    match expected_virtual_size {
        Some(expected) => {
            push_if(
                &mut problems,
                current != expected,
                FooterProblem::SizeDisagreesWithFile { field: current, expected },
            );
        },
        None => {
            push_if(
                &mut problems,
                false,
                FooterProblem::SizeDisagreesWithFile { field: current, expected: 0 },
            );
        },
    }
    push_if(
        &mut problems,
        current % 512 != 0,
        FooterProblem::VirtualSizeNotAligned { virtual_size: current },
    );
    let disk_type: u32 = be32(bytes, 60);
    push_if(
        &mut problems,
        disk_type != DISK_TYPE_FIXED,
        FooterProblem::NotFixed { disk_type },
    );
    let stored: u32 = be32(bytes, 64);
    let computed: u32 = checksum(bytes);
    push_if(
        &mut problems,
        stored != computed,
        FooterProblem::BadChecksum { stored, computed },
    );
    (fields, problems)
}

/// Each problem in words.
pub open spec fn problem_texts(problems: Seq<FooterProblem>) -> Seq<Seq<char>> {
    Seq::new(problems.len(), |i: int| problem_text(problems[i]))
}

/// What [`parse`] finds wrong with a last sector, in words.
pub open spec fn finding_texts(b: Seq<u8>, expected: Option<u64>) -> Seq<Seq<char>> {
    if has_cookie(b) {
        problem_texts(problems_of(b, expected))
    } else {
        seq![cookie_text(b.take(8))]
    }
}

/// Each problem in words.
pub fn problem_lines(problems: &Vec<FooterProblem>) -> (lines: Vec<String>)
    ensures
        texts(lines@) == problem_texts(problems@),
{
    let mut lines: Vec<String> = Vec::new();
    let mut i: usize = 0;
    while i < problems.len()
        invariant
            i <= problems@.len(),
            texts(lines@) == problem_texts(problems@).take(i as int),
        decreases problems@.len() - i,
    {
        push_line(&mut lines, problems[i].text());
        i += 1;
        assert(problem_texts(problems@).take(i as int) =~= problem_texts(problems@).take(
            i - 1,
        ).push(problem_texts(problems@)[i - 1]));
    }
    assert(problem_texts(problems@).take(i as int) =~= problem_texts(problems@));
    lines
}

/// What [`parse`] finds wrong with a last sector, in words.
pub fn findings(bytes: &[u8; 512], expected_virtual_size: Option<u64>) -> (lines: Vec<String>)
    ensures
        texts(lines@) == finding_texts(bytes@, expected_virtual_size),
{
    let (_, problems) = parse(bytes, expected_virtual_size);
    let lines = problem_lines(&problems);
    assert(problem_texts(problems@) =~= finding_texts(bytes@, expected_virtual_size));
    lines
}

// ---------------------------------------------------------------------------
// Laws
// ---------------------------------------------------------------------------

/// The cylinders of every layout fit their field.
proof fn lemma_cylinders_fit(total: int)
    requires
        0 <= total <= MAX_CHS_SECTORS,
    ensures
        ({
            let (heads, spt) = track_layout(total);
            0 <= total / spt / heads <= 65535
        }),
{
    let (heads, spt) = track_layout(total);
    let cth = total / spt;
    if spt == 255 {
        assert(total / 255 <= 1048560);
        assert(0 <= (total / 255) / 16 <= 65535);
    } else if spt == 63 {
        assert(total / 63 <= 1048560);
        assert(0 <= (total / 63) / 16 <= 65535);
    } else if spt == 31 {
        assert(total / 31 < 16384);
        assert(0 <= (total / 31) / 16 <= 65535);
    } else {
        assert(spt == 17 && 4 <= heads <= 16 && 0 <= cth < heads * 1024);
        assert(0 <= cth / heads < 1024) by (nonlinear_arith)
            requires
                0 <= cth < heads * 1024,
                heads > 0,
        ;
    }
}

/// Every disk has a geometry whose fields hold the quotients exactly, and which
/// addresses no more sectors than the disk has.
pub proof fn law_geometry_never_exceeds_the_disk(total_sectors: u64)
    ensures
        ({
            let g = geometry(total_sectors);
            let total = if total_sectors > MAX_CHS_SECTORS {
                MAX_CHS_SECTORS as int
            } else {
                total_sectors as int
            };
            let (heads, spt) = track_layout(total);
            &&& g.cylinders == total / spt / heads
            &&& g.heads == heads
            &&& g.sectors_per_track == spt
            &&& 4 <= g.heads <= 16
            &&& g.sectors() <= total
        }),
{
    let g = geometry(total_sectors);
    let total = if total_sectors > MAX_CHS_SECTORS {
        MAX_CHS_SECTORS as int
    } else {
        total_sectors as int
    };
    let (heads, spt) = track_layout(total);
    assert(4 <= heads <= 16);
    assert(spt == 17 || spt == 31 || spt == 63 || spt == 255);
    let cth = total / spt;
    let cyl = cth / heads;
    lemma_cylinders_fit(total);
    vstd::arithmetic::div_mod::lemma_fundamental_div_mod(cth, heads);
    vstd::arithmetic::div_mod::lemma_fundamental_div_mod(total, spt);
    vstd::arithmetic::div_mod::lemma_mod_bound(cth, heads);
    vstd::arithmetic::div_mod::lemma_mod_bound(total, spt);
    assert(cyl * heads <= cth) by (nonlinear_arith)
        requires
            cth == heads * cyl + cth % heads,
            0 <= cth % heads,
    ;
    assert(cyl * heads * spt <= cth * spt) by (nonlinear_arith)
        requires
            cyl * heads <= cth,
            spt >= 0,
    ;
    assert(cth * spt <= total) by (nonlinear_arith)
        requires
            total == spt * cth + total % spt,
            0 <= total % spt,
    ;
}

/// The checksum does not read its own field.
pub proof fn law_checksum_ignores_its_own_field(a: Seq<u8>, b: Seq<u8>)
    requires
        a.len() == 512,
        b.len() == 512,
        forall|i: int| 0 <= i < 512 && !(64 <= i < 68) ==> #[trigger] a[i] == b[i],
    ensures
        checksum_of(a) == checksum_of(b),
{
    assert(a.take(64) =~= b.take(64));
    assert(a.skip(68) =~= b.skip(68));
}

proof fn lemma_sum_bound(s: Seq<u8>)
    ensures
        byte_sum(s) <= 255 * s.len(),
    decreases s.len(),
{
    if s.len() > 0 {
        lemma_sum_bound(s.drop_last());
    }
}

proof fn lemma_sum_after_change(s: Seq<u8>, i: int, v: u8)
    requires
        0 <= i < s.len(),
    ensures
        byte_sum(s.update(i, v)) == byte_sum(s) - s[i] + v,
    decreases s.len(),
{
    let t = s.update(i, v);
    if i == s.len() - 1 {
        assert(t.drop_last() =~= s.drop_last());
    } else {
        lemma_sum_after_change(s.drop_last(), i, v);
        assert(t.drop_last() =~= s.drop_last().update(i, v));
    }
}

/// Whichever single byte of a footer is changed, the stored checksum no longer
/// agrees with the contents.
pub proof fn law_one_changed_byte_is_noticed(b: Seq<u8>, i: int, v: u8)
    requires
        b.len() == 512,
        be_field(b, 64, 4) == checksum_of(b),
        0 <= i < 512,
        v != b[i],
    ensures
        be_field(b.update(i, v), 64, 4) != checksum_of(b.update(i, v)),
{
    let c = b.update(i, v);
    lemma_sum_bound(b.take(64));
    lemma_sum_bound(b.skip(68));
    lemma_sum_bound(c.take(64));
    lemma_sum_bound(c.skip(68));
    if 64 <= i < 68 {
        law_checksum_ignores_its_own_field(b, c);
        lemma_be_value_round_trip(b.subrange(64, 68));
        lemma_be_value_round_trip(c.subrange(64, 68));
        assert(b.subrange(64, 68)[i - 64] != c.subrange(64, 68)[i - 64]);
    } else {
        assert(b.subrange(64, 68) =~= c.subrange(64, 68));
        if i < 64 {
            lemma_sum_after_change(b.take(64), i, v);
            assert(c.take(64) =~= b.take(64).update(i, v));
            assert(c.skip(68) =~= b.skip(68));
        } else {
            lemma_sum_after_change(b.skip(68), i - 68, v);
            assert(c.take(64) =~= b.take(64));
            assert(c.skip(68) =~= b.skip(68).update(i - 68, v));
        }
    }
}

proof fn lemma_layout(f: Footer)
    ensures
        ({
            let b = footer_bytes(f);
            &&& b.len() == 512
            &&& b.subrange(0, 8) == COOKIE@
            &&& b.subrange(8, 12) == be_bytes(f.features as nat, 4)
            &&& b.subrange(12, 16) == be_bytes(f.format_version as nat, 4)
            &&& b.subrange(16, 24) == be_bytes(f.data_offset as nat, 8)
            &&& b.subrange(24, 28) == be_bytes(f.timestamp as nat, 4)
            &&& b.subrange(28, 32) == f.creator.0@
            &&& b.subrange(32, 36) == be_bytes(f.creator_version as nat, 4)
            &&& b.subrange(36, 40) == be_bytes(f.creator_host_os as nat, 4)
            &&& b.subrange(40, 48) == be_bytes(f.virtual_size as nat, 8)
            &&& b.subrange(48, 56) == be_bytes(f.virtual_size as nat, 8)
            &&& b.subrange(56, 58) == be_bytes(f.geometry.cylinders as nat, 2)
            &&& b[58] == f.geometry.heads
            &&& b[59] == f.geometry.sectors_per_track
            &&& b.subrange(60, 64) == be_bytes(f.disk_type as nat, 4)
            &&& b.subrange(64, 68) == be_bytes(f.checksum as nat, 4)
            &&& b.subrange(68, 84) == f.unique_id@
            &&& b[84] == f.saved_state
            &&& forall|i: int| 85 <= i < 512 ==> #[trigger] b[i] == 0
        }),
{
    lemma_footer_len(f);
    lemma_be_bytes_len(f.features as nat, 4);
    lemma_be_bytes_len(f.format_version as nat, 4);
    lemma_be_bytes_len(f.data_offset as nat, 8);
    lemma_be_bytes_len(f.timestamp as nat, 4);
    lemma_be_bytes_len(f.creator_version as nat, 4);
    lemma_be_bytes_len(f.creator_host_os as nat, 4);
    lemma_be_bytes_len(f.virtual_size as nat, 8);
    lemma_be_bytes_len(f.geometry.cylinders as nat, 2);
    lemma_be_bytes_len(f.disk_type as nat, 4);
    lemma_be_bytes_len(f.checksum as nat, 4);
    let p1 = COOKIE@;
    let p2 = p1 + be_bytes(f.features as nat, 4);
    let p3 = p2 + be_bytes(f.format_version as nat, 4);
    let p4 = p3 + be_bytes(f.data_offset as nat, 8);
    let p5 = p4 + be_bytes(f.timestamp as nat, 4);
    let p6 = p5 + f.creator.0@;
    let p7 = p6 + be_bytes(f.creator_version as nat, 4);
    let p8 = p7 + be_bytes(f.creator_host_os as nat, 4);
    let p9 = p8 + be_bytes(f.virtual_size as nat, 8);
    let p10 = p9 + be_bytes(f.virtual_size as nat, 8);
    let p11 = p10 + be_bytes(f.geometry.cylinders as nat, 2);
    let p12 = p11 + seq![f.geometry.heads, f.geometry.sectors_per_track];
    let p13 = p12 + be_bytes(f.disk_type as nat, 4);
    let p14 = p13 + be_bytes(f.checksum as nat, 4);
    let p15 = p14 + f.unique_id@;
    let p16 = p15 + seq![f.saved_state];
    let b = p16 + Seq::new(427, |i: int| 0u8);
    assert(b == footer_bytes(f));
    assert(b.take(85) =~= p16);
    lemma_piece(p15, seq![f.saved_state], b, 84, 85);
    lemma_piece(p14, f.unique_id@, b, 68, 84);
    lemma_piece(p13, be_bytes(f.checksum as nat, 4), b, 64, 68);
    lemma_piece(p12, be_bytes(f.disk_type as nat, 4), b, 60, 64);
    lemma_piece(p11, seq![f.geometry.heads, f.geometry.sectors_per_track], b, 58, 60);
    lemma_piece(p10, be_bytes(f.geometry.cylinders as nat, 2), b, 56, 58);
    lemma_piece(p9, be_bytes(f.virtual_size as nat, 8), b, 48, 56);
    lemma_piece(p8, be_bytes(f.virtual_size as nat, 8), b, 40, 48);
    lemma_piece(p7, be_bytes(f.creator_host_os as nat, 4), b, 36, 40);
    lemma_piece(p6, be_bytes(f.creator_version as nat, 4), b, 32, 36);
    lemma_piece(p5, f.creator.0@, b, 28, 32);
    lemma_piece(p4, be_bytes(f.timestamp as nat, 4), b, 24, 28);
    lemma_piece(p3, be_bytes(f.data_offset as nat, 8), b, 16, 24);
    lemma_piece(p2, be_bytes(f.format_version as nat, 4), b, 12, 16);
    lemma_piece(p1, be_bytes(f.features as nat, 4), b, 8, 12);
    assert(b.subrange(84, 85)[0] == f.saved_state);
    assert(b.subrange(58, 60)[0] == f.geometry.heads);
    assert(b.subrange(58, 60)[1] == f.geometry.sectors_per_track);
    assert(b.subrange(0, 8) =~= COOKIE@);
}

/// The piece that follows `front` in `b` is found at its offset, and `front`
/// itself still stands before it.
proof fn lemma_piece(front: Seq<u8>, piece: Seq<u8>, b: Seq<u8>, from: int, to: int)
    requires
        front.len() == from,
        piece.len() == to - from,
        to <= b.len(),
        b.take(to) == front + piece,
    ensures
        b.subrange(from, to) == piece,
        b.take(from) == front,
{
    assert(b.subrange(from, to) =~= piece) by {
        assert forall|i: int| 0 <= i < to - from implies b.subrange(from, to)[i] == piece[i] by {
            assert((front + piece)[from + i] == piece[i]);
            assert(b.take(to)[from + i] == b[from + i]);
        }
    }
    assert(b.take(from) =~= front) by {
        assert forall|i: int| 0 <= i < from implies b.take(from)[i] == front[i] by {
            assert(b.take(to)[i] == (front + piece)[i]);
        }
    }
}

/// A footer is read back from its bytes exactly as it was: every field
/// survives, and nothing else reads the same.
pub proof fn law_footer_round_trip(f: Footer, g: Footer)
    ensures
        reads(f, footer_bytes(f)),
        reads(g, footer_bytes(f)) ==> g == f,
{
    lemma_layout(f);
    lemma_byte_ranges();
    lemma_be_round_trip(f.features as nat, 4);
    lemma_be_round_trip(f.format_version as nat, 4);
    lemma_be_round_trip(f.data_offset as nat, 8);
    lemma_be_round_trip(f.timestamp as nat, 4);
    lemma_be_round_trip(f.creator_version as nat, 4);
    lemma_be_round_trip(f.creator_host_os as nat, 4);
    lemma_be_round_trip(f.virtual_size as nat, 8);
    lemma_be_round_trip(f.geometry.cylinders as nat, 2);
    lemma_be_round_trip(f.disk_type as nat, 4);
    lemma_be_round_trip(f.checksum as nat, 4);
    if reads(g, footer_bytes(f)) {
        lemma_same_array4(g.creator.0, f.creator.0);
        lemma_same_array16(g.unique_id, f.unique_id);
    }
}

proof fn lemma_same_array4(a: [u8; 4], b: [u8; 4])
    requires
        a@ == b@,
    ensures
        a == b,
{
    assert forall|i: int| 0 <= i < 4 implies a[i] == b[i] by {
        assert(a@[i] == b@[i]);
    }
    assert(a =~= b);
}

proof fn lemma_same_array16(a: [u8; 16], b: [u8; 16])
    requires
        a@ == b@,
    ensures
        a == b,
{
    assert forall|i: int| 0 <= i < 16 implies a[i] == b[i] by {
        assert(a@[i] == b@[i]);
    }
    assert(a =~= b);
}

/// A footer is exactly one sector, and the part of it without a field is zero.
pub proof fn law_footer_fills_one_sector(f: Footer)
    ensures
        footer_bytes(f).len() == FOOTER_SIZE,
        has_cookie(footer_bytes(f)),
        forall|i: int| 85 <= i < 512 ==> #[trigger] footer_bytes(f)[i] == 0,
{
    lemma_layout(f);
    assert(footer_bytes(f).take(8) =~= footer_bytes(f).subrange(0, 8));
}

/// A footer made for a whole number of sectors has nothing wrong with it, at
/// the size it was made for and where the size is not known.
pub proof fn law_fresh_footer_has_no_problems(
    virtual_size: u64,
    creator: Creator,
    timestamp: u32,
    unique_id: [u8; 16],
    expected: Option<u64>,
)
    requires
        virtual_size % 512 == 0,
        expected is Some ==> expected == Some(virtual_size),
    ensures
        ({
            let b = footer_bytes(fresh(virtual_size, creator, timestamp, unique_id));
            has_cookie(b) && problems_of(b, expected) == Seq::<FooterProblem>::empty()
        }),
{
    let f = fresh(virtual_size, creator, timestamp, unique_id);
    let u = unsummed(virtual_size, creator, timestamp, unique_id);
    let b = footer_bytes(f);
    law_footer_fills_one_sector(f);
    law_footer_round_trip(f, f);
    lemma_layout(f);
    lemma_byte_ranges();
    lemma_be_round_trip(virtual_size as nat, 8);
    assert(checksum_of(b) == checksum_of(footer_bytes(u))) by {
        lemma_only_checksum_differs(f, u);
        law_footer_fills_one_sector(u);
        law_checksum_ignores_its_own_field(b, footer_bytes(u));
    }
    assert(problems_of(b, expected) =~= Seq::<FooterProblem>::empty());
}

proof fn lemma_only_checksum_differs(f: Footer, g: Footer)
    requires
        g == (Footer { checksum: g.checksum, ..f }),
    ensures
        forall|i: int|
            0 <= i < 512 && !(64 <= i < 68) ==> #[trigger] footer_bytes(f)[i] == footer_bytes(
                g,
            )[i],
{
    lemma_layout(f);
    lemma_layout(g);
    let a = footer_bytes(f);
    let b = footer_bytes(g);
    assert forall|i: int| 0 <= i < 512 && !(64 <= i < 68) implies #[trigger] a[i] == b[i] by {
        if i < 8 {
            assert(a.subrange(0, 8)[i] == b.subrange(0, 8)[i]);
        } else if i < 12 {
            assert(a.subrange(8, 12)[i - 8] == b.subrange(8, 12)[i - 8]);
        } else if i < 16 {
            assert(a.subrange(12, 16)[i - 12] == b.subrange(12, 16)[i - 12]);
        } else if i < 24 {
            assert(a.subrange(16, 24)[i - 16] == b.subrange(16, 24)[i - 16]);
        } else if i < 28 {
            assert(a.subrange(24, 28)[i - 24] == b.subrange(24, 28)[i - 24]);
        } else if i < 32 {
            assert(a.subrange(28, 32)[i - 28] == b.subrange(28, 32)[i - 28]);
        } else if i < 36 {
            assert(a.subrange(32, 36)[i - 32] == b.subrange(32, 36)[i - 32]);
        } else if i < 40 {
            assert(a.subrange(36, 40)[i - 36] == b.subrange(36, 40)[i - 36]);
        } else if i < 48 {
            assert(a.subrange(40, 48)[i - 40] == b.subrange(40, 48)[i - 40]);
        } else if i < 56 {
            assert(a.subrange(48, 56)[i - 48] == b.subrange(48, 56)[i - 48]);
        } else if i < 58 {
            assert(a.subrange(56, 58)[i - 56] == b.subrange(56, 58)[i - 56]);
        } else if i < 60 {
        } else if i < 64 {
            assert(a.subrange(60, 64)[i - 60] == b.subrange(60, 64)[i - 60]);
        } else if i < 84 {
            assert(a.subrange(68, 84)[i - 68] == b.subrange(68, 84)[i - 68]);
        }
    }
}

/// Whether 17 sectors per track will do for `total` sectors: up to 16 heads, of
/// which no more than are needed beyond the first four, keep every head below
/// 1024 tracks.
pub open spec fn seventeen_will_do(total: int) -> bool {
    total / 17 < 4 * 1024 || (total / 17 < 16 * 1024 && (total / 17) % 1024 != 0)
}

/// The geometry of a disk, over its fields. What cannot be addressed is left
/// out. Large disks have 255 sectors per track. Below that a track has 17
/// sectors where that will do, 31 where 16 heads then stay below 1024 tracks
/// each, and 63 only where neither holds. There are 16 heads, except that 17
/// sectors per track go with the fewest heads, at least four, that stay below
/// 1024 tracks each. The cylinders are the whole ones.
pub proof fn law_tracks_are_as_short_as_they_can_be(total_sectors: u64, g: Chs)
    requires
        call_ensures(chs, (total_sectors,), g),
    ensures
        ({
            let total: int = if total_sectors > 65535 * 16 * 255 {
                65535int * 16 * 255
            } else {
                total_sectors as int
            };
            let spt = g.sectors_per_track as int;
            let heads = g.heads as int;
            &&& g.cylinders == total / spt / heads
            &&& spt == 255 <==> total >= 65535 * 16 * 63
            &&& spt == 17 || spt == 31 || spt == 63 || spt == 255
            &&& spt == 17 <==> total < 65535 * 16 * 63 && seventeen_will_do(total)
            &&& spt == 31 <==> total < 65535 * 16 * 63 && !seventeen_will_do(total) && total / 31
                < 16 * 1024
            &&& spt == 17 || spt == 31 ==> total / spt < heads * 1024 && g.cylinders < 1024
            &&& spt != 17 ==> heads == 16
            &&& 4 <= heads <= 16
            &&& spt == 17 && heads > 4 ==> total / 17 > (heads - 1) * 1024
        }),
{
    let total = if total_sectors > MAX_CHS_SECTORS {
        MAX_CHS_SECTORS as int
    } else {
        total_sectors as int
    };
    law_geometry_never_exceeds_the_disk(total_sectors);
    let (heads, spt) = track_layout(total);
    assert(g.heads == heads && g.sectors_per_track == spt);
    if spt == 17 || spt == 31 {
        assert(total / spt < heads * 1024);
        assert((total / spt) / heads < 1024) by (nonlinear_arith)
            requires
                0 <= total / spt < heads * 1024,
                heads >= 4,
        ;
    }
}

/// The sum of the bytes in `b[from..to]`, counted from the front.
#[verifier::opaque]
pub open spec fn sum_from(b: Seq<u8>, from: int, to: int) -> int
    decreases to - from,
{
    if from >= to {
        0
    } else {
        b[from] + sum_from(b, from + 1, to)
    }
}

proof fn lemma_sum_from(b: Seq<u8>, from: int, to: int)
    requires
        0 <= from <= to <= b.len(),
    ensures
        sum_from(b, from, to) == byte_sum(b.subrange(from, to)),
    decreases to - from,
{
    reveal(sum_from);
    if from == to {
        assert(b.subrange(from, to) =~= Seq::<u8>::empty());
    }
    if from < to {
        lemma_sum_from(b, from + 1, to);
        lemma_sum_first(b.subrange(from, to));
        assert(b.subrange(from, to).drop_first() =~= b.subrange(from + 1, to));
    }
}

proof fn lemma_sum_first(s: Seq<u8>)
    requires
        s.len() > 0,
    ensures
        byte_sum(s) == s.first() + byte_sum(s.drop_first()),
    decreases s.len(),
{
    if s.len() > 1 {
        lemma_sum_first(s.drop_last());
        assert(s.drop_last().drop_first() =~= s.drop_first().drop_last());
    } else {
        assert(s.drop_first() =~= Seq::<u8>::empty());
        assert(s.drop_last() =~= Seq::<u8>::empty());
    }
}

/// The checksum and all bytes outside its field add up to 32 set bits.
pub proof fn law_checksums_complete_the_sum(bytes: &[u8; 512], c: u32)
    requires
        call_ensures(checksum, (bytes,), c),
    ensures
        c + sum_from(bytes@, 0, 64) + sum_from(bytes@, 68, 512) == 0xffff_ffff,
{
    let b = bytes@;
    lemma_sum_from(b, 0, 64);
    lemma_sum_from(b, 68, 512);
    assert(b.take(64) =~= b.subrange(0, 64));
    assert(b.skip(68) =~= b.subrange(68, 512));
    lemma_sum_bound(b.take(64));
    lemma_sum_bound(b.skip(68));
}

/// Whether a sector starts with `conectix`.
pub open spec fn starts_with_cookie(b: Seq<u8>) -> bool {
    &&& b[0] == 0x63 && b[1] == 0x6f && b[2] == 0x6e && b[3] == 0x65
    &&& b[4] == 0x63 && b[5] == 0x74 && b[6] == 0x69 && b[7] == 0x78
}

/// Whether the stored checksum of a sector is the one that its bytes call for.
pub open spec fn adds_up(b: Seq<u8>) -> bool {
    be_digits(b, 64, 4) + sum_from(b, 0, 64) + sum_from(b, 68, 512) == 0xffff_ffff
}

/// Whether a sector is an intact footer of a fixed disk, of `size` bytes where
/// that is known.
pub open spec fn intact(b: Seq<u8>, size: Option<u64>) -> bool {
    &&& starts_with_cookie(b)
    &&& be_digits(b, 8, 4) == 2
    &&& be_digits(b, 12, 4) == 0x0001_0000
    &&& be_digits(b, 16, 8) == 0xffff_ffff_ffff_ffff
    &&& be_digits(b, 40, 8) == be_digits(b, 48, 8)
    &&& size matches Some(n) ==> be_digits(b, 48, 8) == n
    &&& be_digits(b, 48, 8) % 512 == 0
    &&& be_digits(b, 60, 4) == 2
    &&& adds_up(b)
}

/// The fields of a footer as the numbers whose digits they hold.
pub proof fn lemma_digits(b: Seq<u8>)
    requires
        b.len() == 512,
    ensures
        has_cookie(b) <==> starts_with_cookie(b),
        be_field(b, 8, 4) == be_digits(b, 8, 4) <= u32::MAX,
        be_field(b, 12, 4) == be_digits(b, 12, 4) <= u32::MAX,
        be_field(b, 16, 8) == be_digits(b, 16, 8) <= u64::MAX,
        be_field(b, 40, 8) == be_digits(b, 40, 8) <= u64::MAX,
        be_field(b, 48, 8) == be_digits(b, 48, 8) <= u64::MAX,
        be_field(b, 60, 4) == be_digits(b, 60, 4) <= u32::MAX,
        be_field(b, 64, 4) == be_digits(b, 64, 4) <= u32::MAX,
        be_field(b, 64, 4) == checksum_of(b) <==> adds_up(b),
{
    lemma_byte_ranges();
    law_big_endian_fields_hold_digits(b, 8, 4);
    law_big_endian_fields_hold_digits(b, 12, 4);
    law_big_endian_fields_hold_digits(b, 16, 8);
    law_big_endian_fields_hold_digits(b, 40, 8);
    law_big_endian_fields_hold_digits(b, 48, 8);
    law_big_endian_fields_hold_digits(b, 60, 4);
    law_big_endian_fields_hold_digits(b, 64, 4);
    lemma_be_value_round_trip(b.subrange(8, 12));
    lemma_be_value_round_trip(b.subrange(12, 16));
    lemma_be_value_round_trip(b.subrange(16, 24));
    lemma_be_value_round_trip(b.subrange(40, 48));
    lemma_be_value_round_trip(b.subrange(48, 56));
    lemma_be_value_round_trip(b.subrange(60, 64));
    lemma_be_value_round_trip(b.subrange(64, 68));
    lemma_sum_from(b, 0, 64);
    lemma_sum_from(b, 68, 512);
    assert(b.take(64) =~= b.subrange(0, 64));
    assert(b.skip(68) =~= b.subrange(68, 512));
    lemma_sum_bound(b.take(64));
    lemma_sum_bound(b.skip(68));
    let t = b.take(8);
    assert(t[0] == b[0] && t[1] == b[1] && t[2] == b[2] && t[3] == b[3]);
    assert(t[4] == b[4] && t[5] == b[5] && t[6] == b[6] && t[7] == b[7]);
    if starts_with_cookie(b) {
        assert(t =~= COOKIE@);
    }
}

/// Nothing is wrong exactly where none of the eight things is.
proof fn lemma_no_problem(b: Seq<u8>, expected: Option<u64>)
    ensures
        problems_of(b, expected).len() == 0 <==> {
            &&& be_field(b, 8, 4) as u32 == FEATURES
            &&& be_field(b, 12, 4) as u32 == FORMAT_VERSION
            &&& be_field(b, 16, 8) as u64 == DATA_OFFSET_FIXED
            &&& be_field(b, 40, 8) as u64 == be_field(b, 48, 8) as u64
            &&& expected is Some ==> be_field(b, 48, 8) as u64 == expected->0
            &&& be_field(b, 48, 8) as u64 % 512 == 0
            &&& be_field(b, 60, 4) as u32 == DISK_TYPE_FIXED
            &&& be_field(b, 64, 4) as u32 == checksum_of(b)
        },
{
}

/// A last sector has nothing wrong with it exactly when it is an intact footer
/// of the size that it should name.
pub proof fn law_only_intact_footers_have_no_problems(b: Seq<u8>, expected: Option<u64>)
    requires
        b.len() == 512,
    ensures
        finding_texts(b, expected).len() == 0 <==> intact(b, expected),
        has_cookie(b) && problems_of(b, expected).len() == 0 <==> intact(b, expected),
{
    lemma_digits(b);
    lemma_no_problem(b, expected);
    assert(finding_texts(b, expected).len() == 0 <==> has_cookie(b) && problems_of(
        b,
        expected,
    ).len() == 0);
}

/// Each thing that is wrong with a footer is reported as what it is, with what
/// was read.
pub proof fn law_problems_say_what_is_wrong(b: Seq<u8>, expected: Option<u64>)
    requires
        b.len() == 512,
        starts_with_cookie(b),
    ensures
        ({
            let ps = problems_of(b, expected);
            let size = be_digits(b, 48, 8) as u64;
            let features = be_digits(b, 8, 4) as u32;
            let version = be_digits(b, 12, 4) as u32;
            let offset = be_digits(b, 16, 8) as u64;
            let original = be_digits(b, 40, 8) as u64;
            let kind = be_digits(b, 60, 4) as u32;
            let stored = be_digits(b, 64, 4) as u32;
            &&& features != 2 ==> ps.contains(
                FooterProblem::UnexpectedFeatures { found: features },
            )
            &&& version != 0x0001_0000 ==> ps.contains(
                FooterProblem::UnexpectedFormatVersion { found: version },
            )
            &&& offset != 0xffff_ffff_ffff_ffff ==> ps.contains(
                FooterProblem::DataOffsetNotFixed { found: offset },
            )
            &&& original != size ==> ps.contains(
                FooterProblem::SizeFieldsDisagree { original, current: size },
            )
            &&& expected matches Some(n) ==> (size != n ==> ps.contains(
                FooterProblem::SizeDisagreesWithFile { field: size, expected: n },
            ))
            &&& size % 512 != 0 ==> ps.contains(
                FooterProblem::VirtualSizeNotAligned { virtual_size: size },
            )
            &&& kind != 2 ==> ps.contains(FooterProblem::NotFixed { disk_type: kind })
            &&& !adds_up(b) ==> ps.contains(
                FooterProblem::BadChecksum { stored, computed: checksum_of(b) },
            )
        }),
{
    lemma_digits(b);
    lemma_problems_contained(b, expected);
}

/// Each problem is reported exactly once, so there are as many as there are
/// things wrong.
pub proof fn law_nothing_right_is_reported(b: Seq<u8>, expected: Option<u64>)
    requires
        b.len() == 512,
        starts_with_cookie(b),
    ensures
        problems_of(b, expected).len() == (if be_digits(b, 8, 4) == 2 {
            0int
        } else {
            1
        }) + (if be_digits(b, 12, 4) == 0x0001_0000 {
            0int
        } else {
            1
        }) + (if be_digits(b, 16, 8) == 0xffff_ffff_ffff_ffff {
            0int
        } else {
            1
        }) + (if be_digits(b, 40, 8) == be_digits(b, 48, 8) {
            0int
        } else {
            1
        }) + (if expected is None || be_digits(b, 48, 8) == expected->0 {
            0int
        } else {
            1
        }) + (if be_digits(b, 48, 8) % 512 == 0 {
            0int
        } else {
            1
        }) + (if be_digits(b, 60, 4) == 2 {
            0int
        } else {
            1
        }) + (if adds_up(b) {
            0int
        } else {
            1
        }),
{
    lemma_digits(b);
    lemma_problem_count(b, expected);
}

proof fn lemma_problem_count(b: Seq<u8>, expected: Option<u64>)
    ensures
        ({
            let p = parts_of(b, expected);
            problems_of(b, expected).len() == p[0].len() + p[1].len() + p[2].len() + p[3].len()
                + p[4].len() + p[5].len() + p[6].len() + p[7].len()
        }),
{
}

/// The element that one of the eight parts contributes.
proof fn lemma_part_of_eight(p: Seq<Seq<FooterProblem>>, k: int)
    requires
        p.len() == 8,
        0 <= k < 8,
        p[k].len() == 1,
    ensures
        (p[0] + p[1] + p[2] + p[3] + p[4] + p[5] + p[6] + p[7]).contains(p[k][0]),
{
    let q = p[0] + p[1] + p[2] + p[3] + p[4] + p[5] + p[6] + p[7];
    let n0 = p[0].len() as int;
    let n1 = n0 + p[1].len();
    let n2 = n1 + p[2].len();
    let n3 = n2 + p[3].len();
    let n4 = n3 + p[4].len();
    let n5 = n4 + p[5].len();
    let n6 = n5 + p[6].len();
    let i: int = if k == 0 {
        0
    } else if k == 1 {
        n0
    } else if k == 2 {
        n1
    } else if k == 3 {
        n2
    } else if k == 4 {
        n3
    } else if k == 5 {
        n4
    } else if k == 6 {
        n5
    } else {
        n6
    };
    assert(q[i] == p[k][0]);
}

/// The eight things that can be wrong, each where it is.
spec fn parts_of(b: Seq<u8>, expected: Option<u64>) -> Seq<Seq<FooterProblem>> {
    let current = be_field(b, 48, 8) as u64;
    let original = be_field(b, 40, 8) as u64;
    seq![
        problem_if(
            be_field(b, 8, 4) as u32 != FEATURES,
            FooterProblem::UnexpectedFeatures { found: be_field(b, 8, 4) as u32 },
        ),
        problem_if(
            be_field(b, 12, 4) as u32 != FORMAT_VERSION,
            FooterProblem::UnexpectedFormatVersion { found: be_field(b, 12, 4) as u32 },
        ),
        problem_if(
            be_field(b, 16, 8) as u64 != DATA_OFFSET_FIXED,
            FooterProblem::DataOffsetNotFixed { found: be_field(b, 16, 8) as u64 },
        ),
        problem_if(
            original != current,
            FooterProblem::SizeFieldsDisagree { original, current },
        ),
        problem_if(
            expected is Some && current != expected->0,
            FooterProblem::SizeDisagreesWithFile { field: current, expected: expected->0 },
        ),
        problem_if(
            current % 512 != 0,
            FooterProblem::VirtualSizeNotAligned { virtual_size: current },
        ),
        problem_if(
            be_field(b, 60, 4) as u32 != DISK_TYPE_FIXED,
            FooterProblem::NotFixed { disk_type: be_field(b, 60, 4) as u32 },
        ),
        problem_if(
            be_field(b, 64, 4) as u32 != checksum_of(b),
            FooterProblem::BadChecksum {
                stored: be_field(b, 64, 4) as u32,
                computed: checksum_of(b),
            },
        ),
    ]
}

/// Every part that holds a problem contributes it.
proof fn lemma_problems_contained(b: Seq<u8>, expected: Option<u64>)
    ensures
        ({
            let ps = problems_of(b, expected);
            let p = parts_of(b, expected);
            &&& p[0].len() == 1 ==> ps.contains(p[0][0])
            &&& p[1].len() == 1 ==> ps.contains(p[1][0])
            &&& p[2].len() == 1 ==> ps.contains(p[2][0])
            &&& p[3].len() == 1 ==> ps.contains(p[3][0])
            &&& p[4].len() == 1 ==> ps.contains(p[4][0])
            &&& p[5].len() == 1 ==> ps.contains(p[5][0])
            &&& p[6].len() == 1 ==> ps.contains(p[6][0])
            &&& p[7].len() == 1 ==> ps.contains(p[7][0])
        }),
{
    let ps = problems_of(b, expected);
    let p = parts_of(b, expected);
    assert(ps == p[0] + p[1] + p[2] + p[3] + p[4] + p[5] + p[6] + p[7]);
    assert forall|k: int| 0 <= k < 8 && #[trigger] p[k].len() == 1 implies ps.contains(
        p[k][0],
    ) by {
        lemma_part_of_eight(p, k);
    }
}

/// A footer that is made for a disk stands as the format lays it out: the
/// cookie, the constants of a fixed disk, the time, the tag, the size twice, the
/// geometry of that many sectors, the checksum that the rest calls for, the
/// identifier, and zeros.
pub proof fn law_fresh_footers_follow_the_format(
    virtual_size: u64,
    creator: Creator,
    timestamp: u32,
    unique_id: [u8; 16],
)
    ensures
        ({
            let b = footer_bytes(fresh(virtual_size, creator, timestamp, unique_id));
            let g = geometry(virtual_size / 512);
            &&& b.len() == 512
            &&& starts_with_cookie(b)
            &&& be_digits(b, 8, 4) == 2
            &&& be_digits(b, 12, 4) == 0x0001_0000
            &&& be_digits(b, 16, 8) == 0xffff_ffff_ffff_ffff
            &&& be_digits(b, 24, 4) == timestamp
            &&& forall|i: int| 0 <= i < 4 ==> #[trigger] b[28 + i] == creator.0@[i]
            &&& be_digits(b, 32, 4) == 0x0001_0000
            &&& be_digits(b, 36, 4) == 0x5769_326b
            &&& be_digits(b, 40, 8) == virtual_size
            &&& be_digits(b, 48, 8) == virtual_size
            &&& be_digits(b, 56, 2) == g.cylinders
            &&& b[58] == g.heads
            &&& b[59] == g.sectors_per_track
            &&& be_digits(b, 60, 4) == 2
            &&& adds_up(b)
            &&& forall|i: int| 0 <= i < 16 ==> #[trigger] b[68 + i] == unique_id@[i]
            &&& forall|i: int| 84 <= i < 512 ==> #[trigger] b[i] == 0
        }),
{
    let f = fresh(virtual_size, creator, timestamp, unique_id);
    let u = unsummed(virtual_size, creator, timestamp, unique_id);
    let b = footer_bytes(f);
    lemma_layout(f);
    law_footer_fills_one_sector(f);
    lemma_byte_ranges();
    lemma_be_round_trip(f.features as nat, 4);
    lemma_be_round_trip(f.format_version as nat, 4);
    lemma_be_round_trip(f.data_offset as nat, 8);
    lemma_be_round_trip(f.timestamp as nat, 4);
    lemma_be_round_trip(f.creator_version as nat, 4);
    lemma_be_round_trip(f.creator_host_os as nat, 4);
    lemma_be_round_trip(f.virtual_size as nat, 8);
    lemma_be_round_trip(f.geometry.cylinders as nat, 2);
    lemma_be_round_trip(f.disk_type as nat, 4);
    lemma_be_round_trip(f.checksum as nat, 4);
    law_big_endian_fields_hold_digits(b, 24, 4);
    law_big_endian_fields_hold_digits(b, 32, 4);
    law_big_endian_fields_hold_digits(b, 36, 4);
    law_big_endian_fields_hold_digits(b, 56, 2);
    lemma_digits(b);
    assert(checksum_of(b) == checksum_of(footer_bytes(u))) by {
        lemma_only_checksum_differs(f, u);
        law_footer_fills_one_sector(u);
        law_checksum_ignores_its_own_field(b, footer_bytes(u));
    }
    assert forall|i: int| 0 <= i < 4 implies #[trigger] b[28 + i] == creator.0@[i] by {
        assert(b.subrange(28, 32)[i] == b[28 + i]);
    }
    assert forall|i: int| 0 <= i < 16 implies #[trigger] b[68 + i] == unique_id@[i] by {
        assert(b.subrange(68, 84)[i] == b[68 + i]);
    }
}

/// Every field is read from where the format puts it.
pub proof fn law_fields_are_read_in_place(
    bytes: &[u8; 512],
    expected: Option<u64>,
    r: (Footer, Vec<FooterProblem>),
)
    requires
        call_ensures(parse, (bytes, expected), r),
    ensures
        r.0.virtual_size == be_digits(bytes@, 48, 8),
        r.0.timestamp == be_digits(bytes@, 24, 4),
        r.0.geometry.cylinders == be_digits(bytes@, 56, 2),
        r.0.geometry.heads == bytes@[58],
        r.0.geometry.sectors_per_track == bytes@[59],
        r.0.disk_type == be_digits(bytes@, 60, 4),
        r.0.checksum == be_digits(bytes@, 64, 4),
        r.0.data_offset == be_digits(bytes@, 16, 8),
        r.0.features == be_digits(bytes@, 8, 4),
        r.0.format_version == be_digits(bytes@, 12, 4),
        r.0.creator_version == be_digits(bytes@, 32, 4),
        r.0.creator_host_os == be_digits(bytes@, 36, 4),
        r.0.saved_state == bytes@[84],
        forall|i: int| 0 <= i < 4 ==> #[trigger] r.0.creator.0@[i] == bytes@[28 + i],
        forall|i: int| 0 <= i < 16 ==> #[trigger] r.0.unique_id@[i] == bytes@[68 + i],
        !starts_with_cookie(bytes@) ==> r.1@.len() == 1 && r.1@[0] is BadCookie,
        starts_with_cookie(bytes@) ==> r.1@ == problems_of(bytes@, expected),
{
    let b = bytes@;
    lemma_digits(b);
    law_big_endian_fields_hold_digits(b, 24, 4);
    law_big_endian_fields_hold_digits(b, 32, 4);
    law_big_endian_fields_hold_digits(b, 36, 4);
    law_big_endian_fields_hold_digits(b, 56, 2);
}

/// A stamp counts the seconds from 2000-01-01 on, as far as 32 bits can.
pub proof fn law_stamps_count_from_the_year_2000(
    virtual_size: u64,
    creator: Creator,
    unix: u64,
    unique_id: [u8; 16],
    f: Footer,
)
    requires
        call_ensures(Footer::at, (virtual_size, creator, unix, unique_id), f),
    ensures
        f.virtual_size == virtual_size,
        f.creator == creator,
        f.unique_id == unique_id,
        unix <= 946_684_800 ==> f.timestamp == 0,
        946_684_800 <= unix <= 946_684_800 + 0xffff_ffff ==> f.timestamp == unix - 946_684_800,
        unix > 946_684_800 + 0xffff_ffff ==> f.timestamp == 0xffff_ffff,
{
}

/// A creator tag is one to four printable characters, kept as they are with
/// spaces behind them.
pub proof fn law_tags_are_padded_with_spaces(
    tag: &str,
    r: std::result::Result<Creator, String>,
)
    requires
        call_ensures(Creator::parse, (tag,), r),
    ensures
        r is Ok <==> 1 <= encode_utf8(tag@).len() <= 4 && forall|i: int|
            0 <= i < encode_utf8(tag@).len() ==> 0x20 <= #[trigger] encode_utf8(tag@)[i] < 0x7f,
        r matches Ok(c) ==> forall|i: int|
            0 <= i < 4 ==> #[trigger] c.0@[i] == if i < encode_utf8(tag@).len() {
                encode_utf8(tag@)[i]
            } else {
                0x20u8
            },
{
}

/// Every problem is told with the figures that make it one: what was found, and
/// what it was held against.
pub proof fn law_problems_are_told_with_their_figures(p: &FooterProblem, m: String)
    requires
        call_ensures(FooterProblem::text, (p,), m),
    ensures
        match *p {
            FooterProblem::BadCookie { .. } => "no VHD footer: "@.is_prefix_of(m@),
            FooterProblem::BadChecksum { stored, computed } => ("checksum mismatch: stored 0x"@
                + hexadecimal(stored as nat, 8)).is_prefix_of(m@) && (", computed 0x"@ + hexadecimal(
                computed as nat,
                8,
            )).is_suffix_of(m@),
            FooterProblem::NotFixed { disk_type } => m@ == "disk type is "@ + decimal(
                disk_type as nat,
            ) + (if disk_type == 3 {
                " (dynamic)"@
            } else if disk_type == 4 {
                " (differencing)"@
            } else {
                ""@
            }) + ", not 2 (fixed)"@,
            FooterProblem::DataOffsetNotFixed { found } => ("data offset is 0x"@ + hexadecimal(
                found as nat,
                16,
            )).is_prefix_of(m@),
            FooterProblem::SizeFieldsDisagree { original, current } => ("original size "@ + decimal(
                original as nat,
            )).is_prefix_of(m@) && ("current size "@ + decimal(current as nat)).is_suffix_of(m@),
            FooterProblem::SizeDisagreesWithFile { field, expected } => ("footer size field "@
                + decimal(field as nat)).is_prefix_of(m@) && ("file size minus 512, "@ + decimal(
                expected as nat,
            )).is_suffix_of(m@),
            FooterProblem::VirtualSizeNotAligned { virtual_size } => ("virtual size "@ + decimal(
                virtual_size as nat,
            )).is_prefix_of(m@),
            FooterProblem::UnexpectedFeatures { found } => ("features field is 0x"@ + hexadecimal(
                found as nat,
                8,
            )).is_prefix_of(m@),
            FooterProblem::UnexpectedFormatVersion { found } => ("format version is 0x"@
                + hexadecimal(found as nat, 8)).is_prefix_of(m@),
        },
{
    match *p {
        FooterProblem::BadCookie { found } => {
            lemma_cookie_text(found@);
        },
        FooterProblem::BadChecksum { stored, computed } => {
            assert(m@ =~= "checksum mismatch: stored 0x"@ + hexadecimal(stored as nat, 8) + (
            ", computed 0x"@ + hexadecimal(computed as nat, 8)));
        },
        FooterProblem::SizeFieldsDisagree { original, current } => {
            reveal_strlit(" disagrees with current size ");
            reveal_strlit("current size ");
            let head = "original size "@ + decimal(original as nat);
            let cut = " disagrees with current size "@.take(16);
            assert(" disagrees with current size "@ =~= cut + "current size "@);
            assert(m@ =~= head + cut + ("current size "@ + decimal(current as nat)));
        },
        FooterProblem::SizeDisagreesWithFile { field, expected } => {
            reveal_strlit(" disagrees with file size minus 512, ");
            reveal_strlit("file size minus 512, ");
            let head = "footer size field "@ + decimal(field as nat);
            let cut = " disagrees with file size minus 512, "@.take(16);
            assert(" disagrees with file size minus 512, "@ =~= cut + "file size minus 512, "@);
            assert(m@ =~= head + cut + ("file size minus 512, "@ + decimal(expected as nat)));
        },
        _ => {},
    }
}

proof fn lemma_cookie_text(found: Seq<u8>)
    ensures
        "no VHD footer: "@.is_prefix_of(cookie_text(found)),
{
    reveal_strlit("no VHD footer: ");
    reveal_strlit(
        "no VHD footer: the last sector is a GPT backup header. Either a guest partitioned this disk and overwrote the footer, or the file is a raw image that never had one",
    );
    reveal_strlit("no VHD footer: the last sector is all zeros");
    reveal_strlit("no VHD footer: this is a VHDX container");
    reveal_strlit("no VHD footer: expected the conectix cookie, found [");
}

/// What stands in the place of a footer is named where its first bytes tell:
/// `EFI PART` for a partition table, zeros for nothing, `vhdxfile` for another
/// container. Anything else is shown byte by byte.
pub proof fn law_what_stands_for_a_footer_is_named(found: [u8; 8], m: String)
    requires
        call_ensures(FooterProblem::text, (&FooterProblem::BadCookie { found },), m),
    ensures
        found@ == seq![0x45u8, 0x46, 0x49, 0x20, 0x50, 0x41, 0x52, 0x54] ==> m@
            == "no VHD footer: the last sector is a GPT backup header. Either a guest partitioned this disk and overwrote the footer, or the file is a raw image that never had one"@,
        found@ == seq![0u8, 0, 0, 0, 0, 0, 0, 0] ==> m@
            == "no VHD footer: the last sector is all zeros"@,
        found@ == seq![0x76u8, 0x68, 0x64, 0x78, 0x66, 0x69, 0x6c, 0x65] ==> m@
            == "no VHD footer: this is a VHDX container"@,
        found@ != seq![0x45u8, 0x46, 0x49, 0x20, 0x50, 0x41, 0x52, 0x54] && found@ != seq![
            0u8,
            0,
            0,
            0,
            0,
            0,
            0,
            0,
        ] && found@ != seq![0x76u8, 0x68, 0x64, 0x78, 0x66, 0x69, 0x6c, 0x65] ==> (join(
            Seq::new(8, |i: int| hexadecimal(found@[i] as nat, 2)),
            ", "@,
        ) + "]"@).is_suffix_of(m@),
{
    let f = found@;
    assert(GPT_SIGNATURE@ =~= seq![0x45u8, 0x46, 0x49, 0x20, 0x50, 0x41, 0x52, 0x54]);
    assert(VHDX_SIGNATURE@ =~= seq![0x76u8, 0x68, 0x64, 0x78, 0x66, 0x69, 0x6c, 0x65]);
    let zeros = seq![0u8, 0, 0, 0, 0, 0, 0, 0];
    if forall|i: int| 0 <= i < f.len() ==> #[trigger] f[i] == 0 {
        assert(f =~= zeros);
    }
    assert(zeros[0] == 0 && GPT_SIGNATURE@[0] == 0x45 && VHDX_SIGNATURE@[0] == 0x76);
    assert(hex_pairs(f) =~= Seq::new(8, |i: int| hexadecimal(f[i] as nat, 2)));
    let pairs = join(hex_pairs(f), ", "@);
    assert("no VHD footer: expected the conectix cookie, found ["@ + pairs + "]"@
        =~= "no VHD footer: expected the conectix cookie, found ["@ + (pairs + "]"@));
}

/// A sector that is no footer is reported for that alone, with the eight bytes
/// that it starts with.
pub proof fn law_other_sectors_are_reported_by_their_start(
    bytes: &[u8; 512],
    expected: Option<u64>,
    r: (Footer, Vec<FooterProblem>),
    i: int,
)
    requires
        call_ensures(parse, (bytes, expected), r),
        !starts_with_cookie(bytes@),
        0 <= i < 8,
    ensures
        r.1@.len() == 1,
        r.1@[0] matches FooterProblem::BadCookie { found } && found@[i] == bytes@[i],
{
    lemma_digits(bytes@);
}

} // verus!
