//! Re-signing an injected image.

use decmpfs::addon::{decode, encode, fnv1a64};
use decmpfs::inject::dispatch::inject_decmpfs;
use decmpfs::inject::sign::{
    is_signable, report_signing, resign, resign_macho, try_resign, SignStep,
};
use decmpfs::platform::Host;
use decmpfs::producer::{package, Refusal};
use decmpfs::section::{find_section_macho, read_self_section};

const IDENTIFIER: &str = "dev.socket.napi.compressed-addon";

fn put_u32(bytes: &mut [u8], off: usize, value: u32) {
    bytes[off..off + 4].copy_from_slice(&value.to_le_bytes());
}

fn put_u64(bytes: &mut [u8], off: usize, value: u64) {
    bytes[off..off + 8].copy_from_slice(&value.to_le_bytes());
}

fn get_u32(bytes: &[u8], off: usize) -> u32 {
    u32::from_le_bytes([bytes[off], bytes[off + 1], bytes[off + 2], bytes[off + 3]])
}

// An unsigned arm64 bundle for macOS 11 that a signer accepts.
fn bundle() -> Vec<u8> {
    let mut m = vec![0u8; 0x4100];
    put_u32(&mut m, 0, 0xfeed_facf);
    put_u32(&mut m, 4, 0x0100_000c);
    put_u32(&mut m, 12, 8); // MH_BUNDLE
    put_u32(&mut m, 16, 3);
    put_u32(&mut m, 20, 152 + 24 + 72);
    // __TEXT
    put_u32(&mut m, 32, 0x19);
    put_u32(&mut m, 36, 152);
    m[40..46].copy_from_slice(b"__TEXT");
    put_u64(&mut m, 32 + 32, 0x4000);
    put_u64(&mut m, 32 + 48, 0x4000);
    put_u32(&mut m, 32 + 56, 5);
    put_u32(&mut m, 32 + 60, 5);
    put_u32(&mut m, 32 + 64, 1);
    m[104..110].copy_from_slice(b"__text");
    m[120..126].copy_from_slice(b"__TEXT");
    put_u64(&mut m, 104 + 40, 0x10);
    put_u32(&mut m, 104 + 48, 0x1000);
    // LC_BUILD_VERSION: macOS 11
    put_u32(&mut m, 184, 0x32);
    put_u32(&mut m, 188, 24);
    put_u32(&mut m, 192, 1);
    put_u32(&mut m, 196, 0x000b_0000);
    put_u32(&mut m, 200, 0x000b_0000);
    // __LINKEDIT
    let le = 208;
    put_u32(&mut m, le, 0x19);
    put_u32(&mut m, le + 4, 72);
    m[le + 8..le + 18].copy_from_slice(b"__LINKEDIT");
    put_u64(&mut m, le + 24, 0x4000);
    put_u64(&mut m, le + 32, 0x4000);
    put_u64(&mut m, le + 40, 0x4000);
    put_u64(&mut m, le + 48, 0x100);
    put_u32(&mut m, le + 56, 1);
    put_u32(&mut m, le + 60, 1);
    m
}

fn holds(hay: &[u8], needle: &[u8]) -> bool {
    hay.windows(needle.len()).any(|w| w == needle)
}

#[test]
fn elf_and_pe_pass_through_on_every_host() {
    for host in [Host::MacOs, Host::Linux, Host::Windows, Host::Other] {
        for image in [&b"\x7fELF and more"[..], &b"MZ and more"[..], &b""[..], &b"\xcf\xfa\xed"[..]]
        {
            assert_eq!(resign(host, image, IDENTIFIER).unwrap(), image);
            assert_eq!(try_resign(host, image, IDENTIFIER).unwrap().unwrap(), image);
        }
    }
}

#[test]
fn a_macho_is_refused_off_macos() {
    for host in [Host::Linux, Host::Windows, Host::Other] {
        assert_eq!(
            resign(host, &bundle(), IDENTIFIER).unwrap_err(),
            "cross-building a darwin target needs an ad-hoc Mach-O signature, which this non-macOS host cannot produce; build darwin addons on a macOS host"
        );
    }
}

#[test]
fn a_bundle_is_signed_ad_hoc() {
    let image = bundle();
    assert!(is_signable(&image));
    let signed = resign_macho(&image, IDENTIFIER).unwrap();
    assert_ne!(signed, image);
    assert!(signed.len() > image.len());
    // One more load command: the signature's.
    assert_eq!(get_u32(&signed, 16), 4);
    assert_eq!(get_u32(&signed, 208 + 72), 0x1d);
    // The signature is a superblob that names the image, and covers what was there.
    let at = get_u32(&signed, 208 + 72 + 8) as usize;
    assert_eq!(&signed[at..at + 4], &[0xfa, 0xde, 0x0c, 0xc0]);
    assert!(holds(&signed[at..], IDENTIFIER.as_bytes()));
    // Everything else stays where it was, but for the sizes of __LINKEDIT.
    assert_eq!(&signed[..16], &image[..16]);
    assert_eq!(&signed[24..208 + 32], &image[24..208 + 32]);
    assert_eq!(&signed[208 + 40..208 + 48], &image[208 + 40..208 + 48]);
    assert_eq!(&signed[208 + 56..280], &image[208 + 56..280]);
    assert_eq!(&signed[280 + 16..0x4100], &image[280 + 16..0x4100]);
    // The same image and identifier give the same signature; another identifier not.
    assert_eq!(resign(Host::MacOs, &image, IDENTIFIER).unwrap(), signed);
    assert_ne!(resign(Host::MacOs, &image, "other").unwrap(), signed);
}

fn get_be(bytes: &[u8], off: usize) -> u32 {
    u32::from_be_bytes([bytes[off], bytes[off + 1], bytes[off + 2], bytes[off + 3]])
}

fn put_be(bytes: &mut [u8], off: usize, value: u32) {
    bytes[off..off + 4].copy_from_slice(&value.to_be_bytes());
}

#[test]
fn a_signed_image_is_signed_anew() {
    let once = resign_macho(&bundle(), IDENTIFIER).unwrap();
    assert!(is_signable(&once));
    let at = get_u32(&once, 280 + 8) as usize;
    // It keeps its own identifier, and its load commands.
    let twice = try_resign(Host::MacOs, &once, "other").unwrap().unwrap();
    assert_eq!(get_u32(&twice, 16), 4);
    assert_eq!(get_u32(&twice, 280), 0x1d);
    assert_eq!(&twice[..208 + 32], &once[..208 + 32]);
    assert_eq!(&twice[296..at], &once[296..at]);
    let anew = get_u32(&twice, 280 + 8) as usize;
    assert_eq!(&twice[anew..anew + 4], &[0xfa, 0xde, 0x0c, 0xc0]);
    assert!(holds(&twice[anew..], IDENTIFIER.as_bytes()));
    assert!(!holds(&twice[anew..], b"other"));
}

#[test]
fn a_signature_that_cannot_be_read_is_told_apart() {
    let signed = resign_macho(&bundle(), IDENTIFIER).unwrap();
    let at = get_u32(&signed, 280 + 8) as usize;
    let size = get_u32(&signed, 280 + 12);
    assert_eq!(get_be(&signed, at + 12), 0); // the code directory's slot
    let cd = at + get_be(&signed, at + 16) as usize;
    assert_eq!(get_be(&signed, cd), 0xfade_0c02);
    let with = |off: usize, value: u32| {
        let mut m = signed.clone();
        put_be(&mut m, off, value);
        m
    };
    assert!(is_signable(&with(cd + 12, 2)));
    // More blobs than fit; a blob outside of it, or behind the next.
    assert!(!is_signable(&with(at + 8, size)));
    assert!(!is_signable(&with(at + 16, size)));
    assert!(!is_signable(&with(at + 24, 8)));
    // Entitlements and constraints.
    for slot in [5, 8, 9, 10, 11] {
        assert!(!is_signable(&with(at + 20, slot)));
    }
    assert!(is_signable(&with(at + 20, 7)));
    // The identifier, the digests or the team outside of the code directory.
    for field in [16, 20, 24, 28, 48] {
        assert!(!is_signable(&with(cd + field, 0xffff_ffff)), "{field}");
    }
    let mut m = signed.clone();
    m[cd + 36] = 0;
    assert!(!is_signable(&m));
    let mut m = signed.clone();
    m[cd + 39] = 32;
    assert!(!is_signable(&m));
    // A signature outside of __LINKEDIT.
    let mut m = signed.clone();
    put_u32(&mut m, 280 + 8, 0x3000);
    assert!(!is_signable(&m));
    put_u32(&mut m, 280 + 8, at as u32 + 1);
    assert!(!is_signable(&m));
    assert!(try_resign(Host::MacOs, &m, IDENTIFIER).is_none());
    // What is no signature is what the signer itself refuses, and so is a blob that is
    // longer than its place.
    for m in [with(at, 0), with(cd + 4, size)] {
        assert!(is_signable(&m));
        let message = resign_macho(&m, IDENTIFIER).unwrap_err();
        assert!(message.starts_with("import_settings_from_macho: "), "{message}");
    }
    // A second signature command is written anew like the first.
    let mut m = signed.clone();
    put_u32(&mut m, 184, 0x1d);
    put_u32(&mut m, 192, at as u32);
    put_u32(&mut m, 196, size);
    assert!(is_signable(&m));
    let anew = resign_macho(&m, IDENTIFIER).unwrap();
    assert_eq!(get_u32(&anew, 192), get_u32(&anew, 280 + 8));
    assert_eq!(get_u32(&anew, 196), get_u32(&anew, 280 + 12));
    assert_eq!(&anew[296..at], &m[296..at]);
    // Data behind the signature is what the signer itself refuses.
    let mut m = signed.clone();
    put_u32(&mut m, 280 + 12, size - 16);
    assert!(is_signable(&m));
    let message = resign_macho(&m, IDENTIFIER).unwrap_err();
    assert!(message.starts_with("write_signed_binary: "), "{message}");
}

#[test]
fn an_injected_bundle_keeps_its_section_when_signed() {
    let body = b"NAPCSECT\x01\0\0\0\0\0\0\0payload".to_vec();
    let injected = inject_decmpfs(&bundle(), &body).unwrap();
    assert!(is_signable(&injected));
    let signed = try_resign(Host::MacOs, &injected, IDENTIFIER).unwrap().unwrap();
    assert_eq!(find_section_macho(&signed), Some(&body[..]));
    let section = read_self_section(Host::MacOs, &signed).unwrap();
    assert_eq!(section.content_hash, 1);
    assert_eq!(section.payload, b"payload");
}

#[test]
fn a_packaged_bundle_loads_back() {
    let mut raw = vec![0xcf, 0xfa, 0xed, 0xfe];
    raw.extend_from_slice(&[9u8; 5000]);
    let payload = encode(&raw, 16).unwrap();
    let image = match package(Host::MacOs, &bundle(), &raw, &payload) {
        Ok(image) => image,
        Err(refusal) => panic!("{refusal:?}"),
    };
    let section = read_self_section(Host::MacOs, &image).unwrap();
    assert_eq!(section.content_hash, fnv1a64(&raw));
    assert_eq!(decode(&section.payload).unwrap(), raw);
}

#[test]
fn unsignable_images_are_told_apart() {
    let good = bundle();
    // A segment command that is too small for its fields.
    let mut m = good.clone();
    put_u32(&mut m, 208 + 4, 64);
    assert!(!is_signable(&m));
    // A command that is too small for its head.
    let mut m = good.clone();
    put_u32(&mut m, 188, 4);
    assert!(!is_signable(&m));
    // An empty __LINKEDIT behind the end of the file.
    let mut m = good.clone();
    put_u64(&mut m, 208 + 40, 0x4101);
    put_u64(&mut m, 208 + 48, 0);
    assert!(!is_signable(&m));
    // A segment that overlaps the load commands without containing them.
    let mut m = good.clone();
    put_u64(&mut m, 32 + 48, 0x100);
    assert!(!is_signable(&m));
    let mut m = good.clone();
    put_u64(&mut m, 32 + 40, 0x20);
    put_u64(&mut m, 32 + 48, 0x3fe0);
    assert!(!is_signable(&m));
    // The first section inside the load commands.
    let mut m = good.clone();
    put_u32(&mut m, 104 + 48, 0x20);
    assert!(!is_signable(&m));
    assert!(try_resign(Host::MacOs, &m, IDENTIFIER).is_none());
}

#[test]
fn an_image_with_an_entry_point_is_signed() {
    let mut m = bundle();
    put_u32(&mut m, 12, 2); // MH_EXECUTE
    put_u32(&mut m, 184, 0x8000_0028);
    put_u64(&mut m, 192, 0x1000);
    put_u64(&mut m, 200, 0);
    assert!(is_signable(&m));
    let signed = resign_macho(&m, IDENTIFIER).unwrap();
    assert_eq!(get_u32(&signed, 16), 4);
    assert_eq!(&signed[280 + 16..0x4100], &m[280 + 16..0x4100]);
    // Its address has to be one.
    put_u64(&mut m, 32 + 24, u64::MAX - 0xfff);
    assert!(!is_signable(&m));
    put_u64(&mut m, 32 + 24, u64::MAX - 0x1000);
    assert!(is_signable(&m));
    assert!(resign_macho(&m, IDENTIFIER).is_ok());
}

#[test]
fn segments_need_not_be_in_the_order_of_their_bytes() {
    // __DATA comes behind __LINKEDIT among the commands, and in front of it in the file.
    let mut m = bundle();
    put_u32(&mut m, 16, 4);
    put_u32(&mut m, 20, 152 + 24 + 72 + 72);
    put_u64(&mut m, 32 + 48, 0x2000);
    put_u32(&mut m, 280, 0x19);
    put_u32(&mut m, 284, 72);
    m[288..294].copy_from_slice(b"__DATA");
    put_u64(&mut m, 280 + 24, 0x8000);
    put_u64(&mut m, 280 + 32, 0x2000);
    put_u64(&mut m, 280 + 40, 0x2000);
    put_u64(&mut m, 280 + 48, 0x2000);
    for (i, byte) in m[0x1000..].iter_mut().enumerate() {
        *byte = i as u8;
    }
    assert!(is_signable(&m));
    let signed = resign_macho(&m, IDENTIFIER).unwrap();
    assert_eq!(get_u32(&signed, 16), 5);
    assert_eq!(get_u32(&signed, 352), 0x1d);
    assert_eq!(&signed[352 + 16..0x4100], &m[352 + 16..0x4100]);
}

// The bundle with one more segment command behind its own, and `__TEXT` cut short.
fn bundle_with(cmd: u32, size: usize, name: &[u8], fileoff: u64, filesize: u64) -> Vec<u8> {
    let mut m = bundle();
    put_u32(&mut m, 16, 4);
    put_u32(&mut m, 20, (152 + 24 + 72 + size) as u32);
    put_u64(&mut m, 32 + 48, 0x2000);
    put_u32(&mut m, 280, cmd);
    put_u32(&mut m, 284, size as u32);
    m[288..288 + name.len()].copy_from_slice(name);
    if cmd == 1 {
        put_u32(&mut m, 280 + 32, fileoff as u32);
        put_u32(&mut m, 280 + 36, filesize as u32);
    } else {
        put_u64(&mut m, 280 + 40, fileoff);
        put_u64(&mut m, 280 + 48, filesize);
    }
    for (i, byte) in m[0x1000..].iter_mut().enumerate() {
        *byte = i as u8;
    }
    m
}

#[test]
fn a_32_bit_segment_is_written_back() {
    let m = bundle_with(1, 56, b"__DATA", 0x2000, 0x1000);
    assert!(is_signable(&m));
    let signed = resign_macho(&m, IDENTIFIER).unwrap();
    assert_eq!(get_u32(&signed, 280 + 56), 0x1d);
    assert_eq!(&signed[352..0x4100], &m[352..0x4100]);
    // So is a 32-bit __LINKEDIT, with new sizes.
    let mut m = bundle_with(1, 56, b"__LINKEDIT", 0x4000, 0x100);
    m[216..226].copy_from_slice(b"__DATA\0\0\0\0");
    put_u64(&mut m, 208 + 40, 0x2000);
    put_u64(&mut m, 208 + 48, 0x2000);
    assert!(is_signable(&m));
    let signed = resign_macho(&m, IDENTIFIER).unwrap();
    assert_eq!(get_u32(&signed, 280 + 36) as usize, signed.len() - 0x4000);
    assert_eq!(&signed[..16], &m[..16]);
    assert_eq!(&signed[24..280 + 28], &m[24..280 + 28]);
    assert_eq!(&signed[280 + 32..280 + 36], &m[280 + 32..280 + 36]);
    assert_eq!(&signed[280 + 40..280 + 56], &m[280 + 40..280 + 56]);
    assert_eq!(&signed[352..0x4100], &m[352..0x4100]);
    // One too small for its fields is told apart.
    assert!(!is_signable(&bundle_with(1, 48, b"__DATA", 0x2000, 0x1000)));
}

#[test]
fn segments_may_share_the_start_of_the_file() {
    let m = bundle_with(0x19, 72, b"__DATA", 0, 0x4000);
    assert!(is_signable(&m));
    let signed = resign_macho(&m, IDENTIFIER).unwrap();
    assert_eq!(&signed[368..0x4100], &m[368..0x4100]);
    // Each goes on where the one before it ended.
    assert!(!is_signable(&bundle_with(0x19, 72, b"__DATA", 0, 0x1fff)));
    // The bytes of __PAGEZERO are never written.
    let m = bundle_with(0x19, 72, b"__PAGEZERO", 0, 0x1fff);
    assert!(is_signable(&m));
    assert_eq!(&resign_macho(&m, IDENTIFIER).unwrap()[368..0x4100], &m[368..0x4100]);
    // Behind a segment at the start, one among the load commands is refused.
    let m = bundle_with(0x19, 72, b"__DATA", 0x40, 0x1000);
    assert!(is_signable(&m));
    let message = resign_macho(&m, IDENTIFIER).unwrap_err();
    assert!(message.starts_with("write_signed_binary: "), "{message}");
}

#[test]
fn a_segment_may_follow_the_load_commands_at_once() {
    let mut m = bundle();
    put_u64(&mut m, 32 + 40, 296);
    put_u64(&mut m, 32 + 48, 0x4000 - 296);
    assert!(is_signable(&m));
    let once = resign_macho(&m, IDENTIFIER).unwrap();
    assert_eq!(&once[296..0x4100], &m[296..0x4100]);
    // The signature's command is there now.
    assert!(is_signable(&once));
    let twice = resign_macho(&once, IDENTIFIER).unwrap();
    assert_eq!(&twice[296..0x4100], &m[296..0x4100]);
}

#[test]
fn malformed_images_are_refused_with_a_message() {
    let good = bundle();
    // Shorter than its header.
    let message = resign_macho(&good[..31], IDENTIFIER).unwrap_err();
    assert!(message.starts_with("import_settings_from_macho: "), "{message}");
    // Shorter than its load commands.
    let message = resign_macho(&good[..240], IDENTIFIER).unwrap_err();
    assert!(message.starts_with("import_settings_from_macho: "), "{message}");
    // Shorter than its segments.
    let message = resign_macho(&good[..0x40ff], IDENTIFIER).unwrap_err();
    assert!(message.starts_with("import_settings_from_macho: "), "{message}");
    // No load commands at all.
    let mut m = good.clone();
    put_u32(&mut m, 16, 0);
    assert!(is_signable(&m));
    let message = resign_macho(&m, IDENTIFIER).unwrap_err();
    assert!(message.starts_with("write_signed_binary: "), "{message}");
    // No __LINKEDIT.
    let mut m = good.clone();
    m[208 + 8] = b'X';
    assert!(is_signable(&m));
    let message = resign_macho(&m, IDENTIFIER).unwrap_err();
    assert!(message.starts_with("write_signed_binary: "), "{message}");
    // No section.
    let mut m = good.clone();
    put_u32(&mut m, 96, 0);
    assert!(is_signable(&m));
    let message = resign_macho(&m, IDENTIFIER).unwrap_err();
    assert!(message.starts_with("write_signed_binary: "), "{message}");
    // __LINKEDIT is not the last segment, wherever the others are.
    let mut m = bundle_with(0x19, 72, b"__DATA", 0x4000, 0x100);
    put_u64(&mut m, 32 + 48, 0x10);
    assert!(is_signable(&m));
    let message = resign_macho(&m, IDENTIFIER).unwrap_err();
    assert!(message.starts_with("write_signed_binary: "), "{message}");
    // A segment in front of the end of an earlier one.
    let mut m = good.clone();
    put_u64(&mut m, 208 + 40, 0x2000);
    assert!(is_signable(&m));
    let message = resign_macho(&m, IDENTIFIER).unwrap_err();
    assert!(message.starts_with("write_signed_binary: "), "{message}");
}

#[test]
fn a_signer_that_refuses_is_reported_with_its_step() {
    // Not enough room behind the load commands for one more.
    let mut m = bundle();
    put_u32(&mut m, 104 + 48, 208 + 72 + 8);
    assert!(is_signable(&m));
    let message = resign_macho(&m, IDENTIFIER).unwrap_err();
    assert!(message.starts_with("write_signed_binary: "), "{message}");
    // More load commands than their size allows.
    let mut m = bundle();
    put_u32(&mut m, 20, 8);
    let message = resign_macho(&m, IDENTIFIER).unwrap_err();
    assert!(message.starts_with("import_settings_from_macho: "), "{message}");
    assert_eq!(
        report_signing(Err((SignStep::Open, "saw".to_string()))).unwrap_err(),
        "MachOSigner::new: saw"
    );
    assert_eq!(report_signing(Ok(vec![1, 2])).unwrap(), [1, 2]);
}

#[test]
fn packaging_says_which_part_refused() {
    match package(Host::Linux, b"no object", b"raw", b"payload") {
        Err(Refusal::Inject(saw)) => {
            assert_eq!(saw, "unrecognized stub format: not a 64-bit LE Mach-O, ELF, or PE")
        }
        other => panic!("{other:?}"),
    }
    match package(Host::Linux, &bundle(), b"raw", b"payload") {
        Err(Refusal::Sign(saw)) => assert!(saw.starts_with("cross-building"), "{saw}"),
        other => panic!("{other:?}"),
    }
    // An entry point without an address is none that the signer can take.
    let mut m = bundle();
    put_u32(&mut m, 184, 0x8000_0028);
    put_u64(&mut m, 32 + 24, u64::MAX);
    match package(Host::MacOs, &m, b"raw", b"payload") {
        Err(Refusal::Sign(saw)) => assert_eq!(saw, "the image cannot be taken apart and signed"),
        other => panic!("{other:?}"),
    }
}
