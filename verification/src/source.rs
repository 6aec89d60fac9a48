//! Identifying what a source image actually is.
//!
//! `convert` handles raw images natively and delegates everything else to
//! `qemu-img`, so it has to tell them apart. By magic numbers rather than by
//! extension, because IODD filenames lie: a `.vmdk` on an IODD is normally
//! fixed-VHD bytes, and a `.vhd` may be a VHDX. An extension is a claim; a
//! magic number is evidence.

use vstd::prelude::*;

use crate::bytes::{
    be_digits, be_field, has_prefix, law_big_endian_fields_hold_digits,
    law_prefixes_agree_byte_by_byte, starts_with,
};
use crate::footer::{self, has_cookie, COOKIE, VHDX_SIGNATURE};

verus! {

/// What a source file turned out to be.
#[derive(Debug, Clone, PartialEq, Eq)]
pub enum SourceKind {
    /// Bytes are the disk image, all of them. Copied directly, no external
    /// tool.
    Raw,
    /// A fixed VHD: the bytes are the disk image *except* the trailing
    /// 512-byte footer.
    ///
    /// Treating a fixed VHD as raw would take its footer to be guest data and
    /// append a second one, growing the virtual disk by 512 bytes, silently,
    /// because the new footer is internally consistent.
    FixedVhd {
        /// File length minus the footer. What the guest actually sees.
        virtual_size: u64,
        /// What the footer claims. Equal to `virtual_size` in a well-formed
        /// file; a mismatch means the file was truncated or extended without
        /// the footer being updated.
        declared_size: u64,
    },
    /// A container `qemu-img` must unpack. Carries the name to report.
    Container(&'static str),
}

/// A [`SourceKind`] with its name as text.
pub enum Kind {
    Raw,
    FixedVhd { virtual_size: u64, declared_size: u64 },
    Container(Seq<char>),
}

impl View for SourceKind {
    type V = Kind;

    open spec fn view(&self) -> Kind {
        match *self {
            SourceKind::Raw => Kind::Raw,
            SourceKind::FixedVhd { virtual_size, declared_size } => Kind::FixedVhd {
                virtual_size,
                declared_size,
            },
            SourceKind::Container(name) => Kind::Container(name@),
        }
    }
}

/// The bytes of a source that are guest data rather than metadata.
pub open spec fn guest_bytes(kind: Kind, file_len: u64) -> u64 {
    match kind {
        Kind::FixedVhd { virtual_size, .. } => virtual_size,
        _ => file_len,
    }
}

impl SourceKind {
    /// Whether only `qemu-img` can unpack this.
    pub fn needs_qemu(&self) -> (r: bool)
        ensures
            r == (self@ is Container),
    {
        matches!(self, SourceKind::Container(_))
    }

    /// Bytes of the source that are guest data rather than metadata.
    pub fn data_len(&self, file_len: u64) -> (n: u64)
        ensures
            n == guest_bytes(self@, file_len),
    {
        match self {
            SourceKind::FixedVhd { virtual_size, .. } => *virtual_size,
            _ => file_len,
        }
    }
}

/// `# Disk DescriptorFile`
pub const VMDK_DESCRIPTOR: [u8; 21] = [
    0x23, 0x20, 0x44, 0x69, 0x73, 0x6b, 0x20, 0x44, 0x65, 0x73, 0x63, 0x72, 0x69, 0x70, 0x74, 0x6f,
    0x72, 0x46, 0x69, 0x6c, 0x65,
];

/// `KDMV`
pub const VMDK_EXTENT: [u8; 4] = [0x4b, 0x44, 0x4d, 0x56];

/// `QFI` and 0xfb
pub const QCOW2: [u8; 4] = [0x51, 0x46, 0x49, 0xfb];

/// `<<< Oracle VM VirtualBox Disk Image >>>`
pub const VDI: [u8; 39] = [
    0x3c, 0x3c, 0x3c, 0x20, 0x4f, 0x72, 0x61, 0x63, 0x6c, 0x65, 0x20, 0x56, 0x4d, 0x20, 0x56, 0x69,
    0x72, 0x74, 0x75, 0x61, 0x6c, 0x42, 0x6f, 0x78, 0x20, 0x44, 0x69, 0x73, 0x6b, 0x20, 0x49, 0x6d,
    0x61, 0x67, 0x65, 0x20, 0x3e, 0x3e, 0x3e,
];

/// `cxsparse`
pub const SPARSE_HEADER: [u8; 8] = [0x63, 0x78, 0x73, 0x70, 0x61, 0x72, 0x73, 0x65];

/// The name of the container whose magic stands at the start of a file.
pub open spec fn container_name(head: Seq<u8>) -> Option<Seq<char>> {
    if has_prefix(head, VMDK_DESCRIPTOR@) {
        Some("VMDK descriptor"@)
    } else if has_prefix(head, VMDK_EXTENT@) {
        Some("VMDK sparse extent"@)
    } else if has_prefix(head, QCOW2@) {
        Some("qcow2"@)
    } else if has_prefix(head, VHDX_SIGNATURE@) {
        Some("VHDX"@)
    } else if has_prefix(head, VDI@) {
        Some("VDI"@)
    } else if has_prefix(head, COOKIE@) {
        Some("VHD"@)
    } else if has_prefix(head, SPARSE_HEADER@) {
        Some("VHD (sparse header)"@)
    } else {
        None
    }
}

/// What the start of a file alone says about it.
pub open spec fn sniffed(head: Seq<u8>) -> Kind {
    match container_name(head) {
        Some(name) => Kind::Container(name),
        None => Kind::Raw,
    }
}

/// What both ends of a file say about it. The start answers for containers;
/// failing that, the cookie in the last sector means a fixed VHD.
pub open spec fn classified(head: Seq<u8>, tail: Seq<u8>, file_len: u64) -> Kind {
    if container_name(head) is Some {
        Kind::Container(container_name(head)->0)
    } else if file_len >= 512 && has_cookie(tail) {
        Kind::FixedVhd {
            virtual_size: (file_len - 512) as u64,
            declared_size: be_field(tail, 48, 8) as u64,
        }
    } else {
        Kind::Raw
    }
}

/// Classify from the first bytes of a file.
///
/// A fixed VHD keeps `conectix` only at the *end*, so a match at offset 0 means
/// a dynamic or differencing VHD, which is a container. That asymmetry is the
/// reason this looks only at the head.
pub fn sniff(head: &[u8]) -> (kind: SourceKind)
    ensures
        kind@ == sniffed(head@),
{
    if starts_with(head, &VMDK_DESCRIPTOR) {
        SourceKind::Container("VMDK descriptor")
    } else if starts_with(head, &VMDK_EXTENT) {
        SourceKind::Container("VMDK sparse extent")
    } else if starts_with(head, &QCOW2) {
        SourceKind::Container("qcow2")
    } else if starts_with(head, &VHDX_SIGNATURE) {
        SourceKind::Container("VHDX")
    } else if starts_with(head, &VDI) {
        SourceKind::Container("VDI")
    } else if starts_with(head, &COOKIE) {
        SourceKind::Container("VHD")
    } else if starts_with(head, &SPARSE_HEADER) {
        SourceKind::Container("VHD (sparse header)")
    } else {
        SourceKind::Raw
    }
}

/// Full classification: head for containers, tail for a fixed VHD's footer.
///
/// The cookie alone decides: a footer with a bad checksum is still plainly a
/// footer, and taking it for guest data because its checksum is wrong would
/// corrupt the very file the operator is trying to rescue.
pub fn classify(head: &[u8], tail: &[u8; 512], file_len: u64) -> (kind: SourceKind)
    ensures
        kind@ == classified(head@, tail@, file_len),
{
    match sniff(head) {
        SourceKind::Container(name) => SourceKind::Container(name),
        _ => {
            if file_len >= 512 && starts_with(tail, &COOKIE) {
                let (fields, _) = footer::parse(tail, None);
                return SourceKind::FixedVhd {
                    virtual_size: file_len - 512,
                    declared_size: fields.virtual_size,
                };
            }
            SourceKind::Raw
        },
    }
}

// ---------------------------------------------------------------------------
// Laws
// ---------------------------------------------------------------------------

/// A container magic at the start outranks a footer at the end.
pub proof fn law_head_outranks_tail(head: Seq<u8>, tail: Seq<u8>, file_len: u64)
    requires
        sniffed(head) is Container,
    ensures
        classified(head, tail, file_len) == sniffed(head),
{
}

/// What follows the cookie decides nothing: a footer with every other field
/// wrong is still a footer, and its 512 bytes are not guest data.
pub proof fn law_cookie_alone_makes_a_fixed_vhd(head: Seq<u8>, tail: Seq<u8>, file_len: u64)
    requires
        sniffed(head) is Raw,
        file_len >= 512,
    ensures
        classified(head, tail, file_len) is FixedVhd <==> has_cookie(tail),
        has_cookie(tail) ==> guest_bytes(classified(head, tail, file_len), file_len) + 512
            == file_len,
        !has_cookie(tail) ==> guest_bytes(classified(head, tail, file_len), file_len) == file_len,
{
}

/// No file starts with two of the magics, so the order in which they are tried
/// does not matter.
pub proof fn law_magics_exclude_each_other(head: Seq<u8>)
    ensures
        has_prefix(head, VMDK_DESCRIPTOR@) ==> head[0] == 0x23,
        has_prefix(head, VMDK_EXTENT@) ==> head[0] == 0x4b,
        has_prefix(head, QCOW2@) ==> head[0] == 0x51,
        has_prefix(head, VHDX_SIGNATURE@) ==> head[0] == 0x76,
        has_prefix(head, VDI@) ==> head[0] == 0x3c,
        has_prefix(head, COOKIE@) ==> head[0] == 0x63 && head[1] == 0x6f,
        has_prefix(head, SPARSE_HEADER@) ==> head[0] == 0x63 && head[1] == 0x78,
{
    lemma_first_byte(head, VMDK_DESCRIPTOR@);
    lemma_first_byte(head, VMDK_EXTENT@);
    lemma_first_byte(head, QCOW2@);
    lemma_first_byte(head, VHDX_SIGNATURE@);
    lemma_first_byte(head, VDI@);
    lemma_first_byte(head, COOKIE@);
    lemma_first_byte(head, SPARSE_HEADER@);
}

proof fn lemma_first_byte(head: Seq<u8>, magic: Seq<u8>)
    requires
        magic.len() >= 2,
    ensures
        has_prefix(head, magic) ==> head[0] == magic[0] && head[1] == magic[1],
{
    if has_prefix(head, magic) {
        assert(head.take(magic.len() as int)[0] == head[0]);
        assert(head.take(magic.len() as int)[1] == head[1]);
    }
}

/// Whether a file starts with the ASCII characters of a text.
pub open spec fn spells(head: Seq<u8>, text: Seq<char>) -> bool {
    head.len() >= text.len() && forall|i: int|
        0 <= i < text.len() ==> #[trigger] head[i] as int == text[i] as int
}

proof fn lemma_spells(head: Seq<u8>, magic: Seq<u8>, text: Seq<char>)
    requires
        magic.len() == text.len(),
        forall|i: int| 0 <= i < magic.len() ==> #[trigger] magic[i] as int == text[i] as int,
    ensures
        has_prefix(head, magic) <==> spells(head, text),
{
    law_prefixes_agree_byte_by_byte(head, magic);
    if spells(head, text) {
        assert forall|i: int| 0 <= i < magic.len() implies #[trigger] head[i] == magic[i] by {
            assert(magic[i] as int == text[i] as int);
        }
    }
    if has_prefix(head, magic) {
        assert forall|i: int| 0 <= i < text.len() implies #[trigger] head[i] as int
            == text[i] as int by {
            assert(magic[i] as int == text[i] as int);
        }
    }
}

/// A file is taken for a container exactly when it starts with one of these
/// magics, and is called by its name. Otherwise its last sector decides: with
/// the cookie of a footer it is a fixed VHD, of the size that is left without
/// it, and without one all of its bytes are guest data.
pub proof fn law_sources_are_told_by_their_magic(
    head: &[u8],
    tail: &[u8; 512],
    file_len: u64,
    kind: SourceKind,
)
    requires
        call_ensures(classify, (head, tail, file_len), kind),
    ensures
        ({
            let h = head@;
            &&& kind@ is Container <==> {
                ||| spells(h, "# Disk DescriptorFile"@)
                ||| spells(h, "KDMV"@)
                ||| spells(h, "vhdxfile"@)
                ||| spells(h, "<<< Oracle VM VirtualBox Disk Image >>>"@)
                ||| spells(h, "conectix"@)
                ||| spells(h, "cxsparse"@)
                ||| spells(h, "QFI"@) && h.len() >= 4 && h[3] == 0xfb
            }
            &&& kind@ is FixedVhd <==> !(kind@ is Container) && file_len >= 512 && spells(
                tail@,
                "conectix"@,
            )
            &&& kind@ matches Kind::FixedVhd { virtual_size, declared_size } ==> virtual_size
                == file_len - 512 && declared_size == be_digits(tail@, 48, 8)
            &&& spells(h, "conectix"@) ==> kind@ == Kind::Container("VHD"@)
            &&& spells(h, "vhdxfile"@) ==> kind@ == Kind::Container("VHDX"@)
            &&& spells(h, "KDMV"@) ==> kind@ == Kind::Container("VMDK sparse extent"@)
            &&& spells(h, "# Disk DescriptorFile"@) ==> kind@ == Kind::Container("VMDK descriptor"@)
            &&& spells(h, "<<< Oracle VM VirtualBox Disk Image >>>"@) ==> kind@ == Kind::Container(
                "VDI"@,
            )
            &&& spells(h, "QFI"@) && h.len() >= 4 && h[3] == 0xfb ==> kind@ == Kind::Container(
                "qcow2"@,
            )
        }),
{
    let h = head@;
    reveal_strlit("# Disk DescriptorFile");
    reveal_strlit("KDMV");
    reveal_strlit("vhdxfile");
    reveal_strlit("<<< Oracle VM VirtualBox Disk Image >>>");
    reveal_strlit("conectix");
    reveal_strlit("cxsparse");
    reveal_strlit("QFI");
    lemma_spells(h, VMDK_DESCRIPTOR@, "# Disk DescriptorFile"@);
    lemma_spells(h, VMDK_EXTENT@, "KDMV"@);
    lemma_spells(h, VHDX_SIGNATURE@, "vhdxfile"@);
    lemma_spells(h, VDI@, "<<< Oracle VM VirtualBox Disk Image >>>"@);
    lemma_spells(h, COOKIE@, "conectix"@);
    lemma_spells(h, SPARSE_HEADER@, "cxsparse"@);
    lemma_spells(tail@, COOKIE@, "conectix"@);
    law_prefixes_agree_byte_by_byte(h, QCOW2@);
    assert(has_prefix(h, QCOW2@) <==> spells(h, "QFI"@) && h.len() >= 4 && h[3] == 0xfb) by {
        let q = QCOW2@;
        assert(q[0] == 0x51 && q[1] == 0x46 && q[2] == 0x49 && q[3] == 0xfb);
        if spells(h, "QFI"@) && h.len() >= 4 && h[3] == 0xfb {
            assert(h[0] as int == "QFI"@[0] as int);
            assert(h[1] as int == "QFI"@[1] as int);
            assert(h[2] as int == "QFI"@[2] as int);
            assert(forall|i: int| 0 <= i < 4 ==> #[trigger] h[i] == q[i]);
        }
        if has_prefix(h, q) {
            assert(h[0] == q[0] && h[1] == q[1] && h[2] == q[2] && h[3] == q[3]);
        }
    }
    law_magics_exclude_each_other(h);
    law_big_endian_fields_hold_digits(tail@, 48, 8);
    crate::bytes::lemma_byte_ranges();
    crate::bytes::lemma_be_value_round_trip(tail@.subrange(48, 56));
}

/// What is copied of a source is all of it, but for the footer of a fixed VHD.
pub proof fn law_footers_are_not_guest_data(kind: &SourceKind, file_len: u64, n: u64, q: bool)
    requires
        call_ensures(SourceKind::data_len, (kind, file_len), n),
        call_ensures(SourceKind::needs_qemu, (kind,), q),
    ensures
        kind@ is FixedVhd ==> n == kind@->virtual_size,
        !(kind@ is FixedVhd) ==> n == file_len,
        q <==> kind@ is Container,
{
}

} // verus!
