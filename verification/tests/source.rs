use iodd::footer::{Creator, Footer};
use iodd::source::{classify, sniff, SourceKind};


fn head_of(bytes: &[u8]) -> Vec<u8> {
    let mut v = bytes.to_vec();
    v.resize(512, 0);
    v
}

#[test]
fn plain_bytes_are_raw() {
    assert_eq!(sniff(&head_of(b"\0\0\0\0")), SourceKind::Raw);
    assert_eq!(sniff(&head_of(&[0xAB; 64])), SourceKind::Raw);
    assert_eq!(sniff(&[]), SourceKind::Raw);
}

#[test]
fn containers_are_recognized() {
    let magics: [(&[u8], &'static str); 7] = [
        (b"# Disk DescriptorFile", "VMDK descriptor"),
        (b"KDMV", "VMDK sparse extent"),
        (b"QFI\xfb", "qcow2"),
        (b"vhdxfile", "VHDX"),
        (b"<<< Oracle VM VirtualBox Disk Image >>>", "VDI"),
        (b"conectix", "VHD"),
        (b"cxsparse", "VHD (sparse header)"),
    ];
    for (magic, name) in magics {
        let got = sniff(&head_of(magic));
        assert_eq!(
            got,
            SourceKind::Container(name),
            "failed to recognize {name}"
        );
        assert!(got.needs_qemu());
    }
}

/// A *fixed* VHD carries `conectix` only in its trailing footer, so head
/// sniffing alone must not call it a container.
#[test]
fn a_fixed_vhd_footer_at_the_end_does_not_make_it_a_container() {
    let mut file = vec![0u8; 2048];
    file[1536..1544].copy_from_slice(b"conectix");
    assert_eq!(sniff(&file[..512]), SourceKind::Raw);
}

// ---- classify: the head/tail distinction -------------------------------

fn footer_bytes(virtual_size: u64) -> [u8; 512] {
    Footer::new(virtual_size, Creator::default(), 0x3000_0000, [3u8; 16]).to_bytes()
}

/// The bug this function exists to prevent: taking a fixed VHD's footer
/// for guest data, which grows the virtual disk by 512 bytes.
#[test]
fn a_fixed_vhd_is_recognized_by_its_tail() {
    let head = [0u8; 512];
    let tail = footer_bytes(16 * 1024 * 1024);
    let len = 16 * 1024 * 1024 + 512;

    assert_eq!(
        classify(&head, &tail, len),
        SourceKind::FixedVhd {
            virtual_size: 16 * 1024 * 1024,
            declared_size: 16 * 1024 * 1024,
        }
    );
}

#[test]
fn a_raw_image_with_no_footer_stays_raw() {
    let head = [0u8; 512];
    let tail = [0u8; 512];
    assert_eq!(classify(&head, &tail, 1_048_576), SourceKind::Raw);
}

/// A container at the head wins: a dynamic VHD also carries `conectix` in
/// its trailing footer, and qemu must still unpack it.
#[test]
fn a_container_head_outranks_a_footer_tail() {
    let mut head = [0u8; 512];
    head[..8].copy_from_slice(b"conectix");
    let tail = footer_bytes(1024);
    assert_eq!(
        classify(&head, &tail, 4096),
        SourceKind::Container("VHD"),
        "a dynamic VHD has a footer too, but needs unpacking"
    );
}

/// A damaged footer is still a footer. Falling back to raw here would
/// append a second one and corrupt the file being rescued.
#[test]
fn a_footer_with_a_bad_checksum_is_still_a_fixed_vhd() {
    let mut tail = footer_bytes(1_048_576);
    tail[64] ^= 0xFF; // checksum field
    assert!(matches!(
        classify(&[0u8; 512], &tail, 1_048_576 + 512),
        SourceKind::FixedVhd { .. }
    ));
}

#[test]
fn a_footer_declaring_a_different_size_is_reported_not_hidden() {
    let tail = footer_bytes(999 * 512);
    let got = classify(&[0u8; 512], &tail, 1_048_576 + 512);
    assert_eq!(
        got,
        SourceKind::FixedVhd {
            virtual_size: 1_048_576,
            declared_size: 999 * 512,
        },
        "the caller decides what to do about the disagreement"
    );
}

#[test]
fn a_file_shorter_than_a_footer_is_raw() {
    assert_eq!(classify(&[0u8; 512], &[0u8; 512], 256), SourceKind::Raw);
}

#[test]
fn data_len_excludes_only_a_vhd_footer() {
    let vhd = SourceKind::FixedVhd {
        virtual_size: 1000,
        declared_size: 1000,
    };
    assert_eq!(vhd.data_len(1512), 1000);
    assert_eq!(SourceKind::Raw.data_len(1512), 1512);
    assert_eq!(SourceKind::Container("qcow2").data_len(1512), 1512);
}

/// But at offset 0 it is a dynamic or differencing VHD, which qemu must
/// unpack.
#[test]
fn a_vhd_footer_copy_at_offset_zero_is_a_container() {
    assert_eq!(sniff(&head_of(b"conectix")), SourceKind::Container("VHD"));
}

#[test]
fn a_short_file_does_not_panic() {
    assert_eq!(sniff(b"KD"), SourceKind::Raw);
    assert_eq!(sniff(b""), SourceKind::Raw);
}
