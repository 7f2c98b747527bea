//! The section body, the three readers, and the minimal objects.

use decmpfs::addon::{decode, encode, fnv1a64, is_native_binary};
use decmpfs::platform::Host;
use decmpfs::section::{
    build_section_payload, find_section, find_section_elf, find_section_macho, find_section_pe,
    name_eq, parse_section_payload, read_self_section,
};
use decmpfs::synthetic::synthetic_object_with_section;

const HOSTS: [Host; 3] = [Host::MacOs, Host::Linux, Host::Windows];

// A minimal "loadable" payload: native magic so is_native_binary accepts it.
fn fake_addon() -> Vec<u8> {
    let mut raw = vec![0x7f, 0x45, 0x4c, 0x46]; // ELF
    raw.extend_from_slice(&[7u8; 9000]);
    raw
}

fn stub_with_section(host: Host, raw: &[u8]) -> Vec<u8> {
    let payload = encode(raw, 3).unwrap();
    let body = build_section_payload(fnv1a64(raw), &payload);
    synthetic_object_with_section(host, &body)
}

#[test]
fn name_eq_matches_null_padded_slot() {
    assert!(name_eq(b"__DECMPFS\0\0\0\0\0\0\0", b"__DECMPFS"));
    assert!(name_eq(b"SMOL\0\0\0\0\0\0\0\0\0\0\0\0", b"SMOL"));
    assert!(!name_eq(b"__DECMPFSX\0\0\0\0\0\0", b"__DECMPFS"));
    assert!(!name_eq(b"__DECMPF\0\0\0\0\0\0\0\0", b"__DECMPFS"));
}

#[test]
fn rejects_non_object_file() {
    for host in HOSTS {
        assert!(find_section(host, b"not a binary at all").is_none());
        assert!(find_section(host, &[]).is_none());
    }
}

#[test]
fn build_and_parse_section_payload_round_trip() {
    let body = build_section_payload(0xfeed_face_dead_beef, b"the-zstd-bytes");
    let got = parse_section_payload(&body).expect("parses");
    assert_eq!(got.content_hash, 0xfeed_face_dead_beef);
    assert_eq!(got.payload, b"the-zstd-bytes");
    // Empty payload is still a valid (header-only) body.
    assert!(parse_section_payload(&build_section_payload(0, b"")).is_some());
}

#[test]
fn parse_section_payload_rejects_bad_input() {
    assert!(parse_section_payload(b"short").is_none());
    assert!(parse_section_payload(b"WRONGMAG\0\0\0\0\0\0\0\0").is_none());
}

#[test]
fn section_body_has_the_documented_bytes() {
    let body = build_section_payload(0x0102_0304_0506_0708, b"zz");
    assert_eq!(body, b"NAPCSECT\x08\x07\x06\x05\x04\x03\x02\x01zz");
    // A body that parses is the one that is built from what it parses to.
    let got = parse_section_payload(&body).unwrap();
    assert_eq!(build_section_payload(got.content_hash, &got.payload), body);
    // One byte short of a header.
    assert!(parse_section_payload(&body[..15]).is_none());
}

#[test]
fn reads_decmpfs_from_a_synthetic_object() {
    for host in HOSTS {
        let body = build_section_payload(0x0123_4567_89ab_cdef, b"the-zstd-payload-bytes");
        let obj = synthetic_object_with_section(host, &body);
        let got = read_self_section(host, &obj).expect("section found");
        assert_eq!(got.content_hash, 0x0123_4567_89ab_cdef);
        assert_eq!(got.payload, b"the-zstd-payload-bytes");
    }
    assert!(synthetic_object_with_section(Host::Other, b"x").is_empty());
    assert!(find_section(Host::Other, b"x").is_none());
}

#[test]
fn synthetic_objects_have_their_known_sizes() {
    let body = b"0123456789".to_vec();
    assert_eq!(synthetic_object_with_section(Host::MacOs, &body).len(), 184 + 10);
    assert_eq!(synthetic_object_with_section(Host::Linux, &body).len(), 64 + 10 + 20 + 3 * 64);
    assert_eq!(synthetic_object_with_section(Host::Windows, &body).len(), 128 + 10);
}

#[test]
fn readers_refuse_each_others_formats() {
    let body = build_section_payload(1, b"p");
    let macho = synthetic_object_with_section(Host::MacOs, &body);
    let elf = synthetic_object_with_section(Host::Linux, &body);
    let pe = synthetic_object_with_section(Host::Windows, &body);
    assert_eq!(find_section_macho(&macho), Some(&body[..]));
    assert_eq!(find_section_elf(&elf), Some(&body[..]));
    assert_eq!(find_section_pe(&pe), Some(&body[..]));
    assert!(find_section_macho(&elf).is_none());
    assert!(find_section_macho(&pe).is_none());
    assert!(find_section_elf(&macho).is_none());
    assert!(find_section_elf(&pe).is_none());
    assert!(find_section_pe(&macho).is_none());
    assert!(find_section_pe(&elf).is_none());
}

#[test]
fn truncated_images_have_no_section() {
    for host in HOSTS {
        let body = build_section_payload(7, b"payload");
        let obj = synthetic_object_with_section(host, &body);
        // The last fields of an ELF section header are not read.
        let read = if host == Host::Linux { obj.len() - 24 } else { obj.len() };
        for len in 0..read {
            assert!(find_section(host, &obj[..len]).is_none(), "{host:?} {len}");
        }
    }
}

#[test]
fn elf_reader_takes_32_bit_and_big_endian_images() {
    // ELF32 BE: [ehdr 52][body][shstrtab][2 section headers of 40 bytes].
    let body = b"the body".to_vec();
    let names = b"\0.DECMPFS\0";
    let body_off = 52usize;
    let names_off = body_off + body.len();
    let shoff = names_off + names.len();
    let mut e = vec![0u8; shoff + 2 * 40];
    e[0..4].copy_from_slice(b"\x7fELF");
    e[4] = 1;
    e[5] = 2;
    e[32..36].copy_from_slice(&(shoff as u32).to_be_bytes());
    e[46..48].copy_from_slice(&40u16.to_be_bytes());
    e[48..50].copy_from_slice(&2u16.to_be_bytes());
    e[50..52].copy_from_slice(&0u16.to_be_bytes());
    e[body_off..names_off].copy_from_slice(&body);
    e[names_off..shoff].copy_from_slice(names);
    e[shoff + 16..shoff + 20].copy_from_slice(&(names_off as u32).to_be_bytes());
    e[shoff + 20..shoff + 24].copy_from_slice(&(names.len() as u32).to_be_bytes());
    let sh = shoff + 40;
    e[sh..sh + 4].copy_from_slice(&1u32.to_be_bytes());
    e[sh + 16..sh + 20].copy_from_slice(&(body_off as u32).to_be_bytes());
    e[sh + 20..sh + 24].copy_from_slice(&(body.len() as u32).to_be_bytes());
    assert_eq!(find_section_elf(&e), Some(&body[..]));
}

#[test]
fn detects_native_magics() {
    assert!(is_native_binary(&[0x7f, 0x45, 0x4c, 0x46, 0, 0])); // ELF
    assert!(is_native_binary(&[0xcf, 0xfa, 0xed, 0xfe])); // Mach-O 64 LE
    assert!(is_native_binary(&[0xfe, 0xed, 0xfa, 0xcf])); // Mach-O 64 BE
    assert!(is_native_binary(&[0xce, 0xfa, 0xed, 0xfe])); // Mach-O 32 LE
    assert!(is_native_binary(&[0xfe, 0xed, 0xfa, 0xce])); // Mach-O 32 BE
    assert!(is_native_binary(&[0xca, 0xfe, 0xba, 0xbe])); // Mach-O universal
    assert!(is_native_binary(&[0xbe, 0xba, 0xfe, 0xca])); // Mach-O universal swapped
    assert!(is_native_binary(&[0x4d, 0x5a, 0x90, 0x00])); // PE "MZ"
    assert!(!is_native_binary(b"NAPC"));
    assert!(!is_native_binary(&[0x00, 0x01]));
    assert!(!is_native_binary(&[0x7f, 0x45])); // too short
}

#[test]
fn content_hash_is_fnv1a() {
    assert_eq!(fnv1a64(b""), 0xcbf2_9ce4_8422_2325);
    assert_eq!(fnv1a64(b"a"), 0xaf63_dc4c_8601_ec8c);
    assert_eq!(fnv1a64(b"foobar"), 0x8594_4171_f739_67e8);
}

#[test]
fn decode_roundtrips_zstd() {
    let raw = fake_addon();
    let payload = zstd::encode_all(&raw[..], 3).unwrap();
    assert_eq!(decode(&payload).unwrap(), raw);
}

#[test]
fn encode_shrinks_and_decodes_back_at_every_level() {
    let raw = fake_addon();
    for level in [1, 3, 16, 22] {
        let payload = encode(&raw, level).unwrap();
        assert!(payload.len() < raw.len() / 10, "level {level}");
        assert_eq!(decode(&payload).unwrap(), raw, "level {level}");
    }
    assert_eq!(decode(&encode(b"", 16).unwrap()).unwrap(), b"");
}

#[test]
fn decode_is_none_on_corrupt_payload() {
    assert!(decode(b"not a zstd frame").is_none());
}

#[test]
fn section_round_trips_the_content_hash() {
    let raw = fake_addon();
    for host in HOSTS {
        let section = read_self_section(host, &stub_with_section(host, &raw)).expect("section");
        assert_eq!(section.content_hash, fnv1a64(&raw));
        assert_eq!(decode(&section.payload).unwrap(), raw);
        // A file with no parseable section → None.
        assert!(read_self_section(host, &fake_addon()).is_none());
    }
}
