//! Injecting into ELF, PE and Mach-O stubs.

use decmpfs::inject::dispatch::{inject, inject_decmpfs};
use decmpfs::inject::elf::inject_elf;
use decmpfs::inject::error::InjectError;
use decmpfs::inject::macho::{build_segment_lc, inject_macho, read_layout};
use decmpfs::inject::pe::inject_pe;
use decmpfs::section::{find_section_elf, find_section_macho, find_section_pe, name_eq};

fn put_u16(bytes: &mut [u8], off: usize, value: u16) {
    bytes[off..off + 2].copy_from_slice(&value.to_le_bytes());
}

fn put_u32(bytes: &mut [u8], off: usize, value: u32) {
    bytes[off..off + 4].copy_from_slice(&value.to_le_bytes());
}

fn put_u64(bytes: &mut [u8], off: usize, value: u64) {
    bytes[off..off + 8].copy_from_slice(&value.to_le_bytes());
}

fn get_u16(bytes: &[u8], off: usize) -> u16 {
    u16::from_le_bytes([bytes[off], bytes[off + 1]])
}

fn get_u32(bytes: &[u8], off: usize) -> u32 {
    u32::from_le_bytes([bytes[off], bytes[off + 1], bytes[off + 2], bytes[off + 3]])
}

fn get_u64(bytes: &[u8], off: usize) -> u64 {
    get_u32(bytes, off) as u64 | (get_u32(bytes, off + 4) as u64) << 32
}

// A minimal valid ELF64 LE: header + ".shstrtab" + a 2-entry section table
// (NULL, .shstrtab) — enough for inject_elf to grow.
fn minimal_elf64() -> Vec<u8> {
    let shstr: &[u8] = b"\0.shstrtab\0"; // ".shstrtab" at name offset 1
    let shoff = 80usize;
    let mut e = vec![0u8; shoff + 2 * 64];
    e[0..4].copy_from_slice(b"\x7fELF");
    e[4] = 2; // 64-bit
    e[5] = 1; // little-endian
    e[6] = 1; // version
    put_u64(&mut e, 40, shoff as u64); // e_shoff
    put_u16(&mut e, 58, 64); // e_shentsize
    put_u16(&mut e, 60, 2); // e_shnum
    put_u16(&mut e, 62, 1); // e_shstrndx
    e[64..64 + shstr.len()].copy_from_slice(shstr);
    let sh1 = shoff + 64; // section header [1] = .shstrtab
    put_u32(&mut e, sh1, 1); // sh_name -> ".shstrtab"
    put_u32(&mut e, sh1 + 4, 3); // sh_type = SHT_STRTAB
    put_u64(&mut e, sh1 + 24, 64); // sh_offset
    put_u64(&mut e, sh1 + 32, shstr.len() as u64); // sh_size
    e
}

fn elf_find_section(f: &[u8], want: &str) -> Option<Vec<u8>> {
    let shoff = get_u64(f, 40) as usize;
    let shentsize = get_u16(f, 58) as usize;
    let shnum = get_u16(f, 60) as usize;
    let shstrndx = get_u16(f, 62) as usize;
    let strh = shoff + shstrndx * shentsize;
    let so = get_u64(f, strh + 24) as usize;
    let ss = get_u64(f, strh + 32) as usize;
    let strtab = f.get(so..so + ss)?;
    for i in 0..shnum {
        let sh = shoff + i * shentsize;
        let nm = get_u32(f, sh) as usize;
        let end = strtab.get(nm..)?.iter().position(|&b| b == 0)? + nm;
        if &strtab[nm..end] == want.as_bytes() {
            let off = get_u64(f, sh + 24) as usize;
            let sz = get_u64(f, sh + 32) as usize;
            return Some(f.get(off..off + sz)?.to_vec());
        }
    }
    None
}

// A minimal PE32+ with one section and header slack for a second header.
fn minimal_pe() -> Vec<u8> {
    let pe = 0x40usize;
    let coff = pe + 4;
    let opt_off = coff + 20;
    let opt_size = 0x70usize;
    let sect_table = opt_off + opt_size;
    let size_of_headers = 0x200usize;
    let mut p = vec![0u8; size_of_headers];
    p[0..2].copy_from_slice(b"MZ");
    put_u32(&mut p, 0x3c, pe as u32);
    p[pe..pe + 4].copy_from_slice(b"PE\0\0");
    put_u16(&mut p, coff + 2, 1); // NumberOfSections
    put_u16(&mut p, coff + 16, opt_size as u16); // SizeOfOptionalHeader
    put_u16(&mut p, opt_off, 0x20b); // PE32+ magic
    put_u32(&mut p, opt_off + 32, 0x1000); // SectionAlignment
    put_u32(&mut p, opt_off + 36, 0x200); // FileAlignment
    put_u32(&mut p, opt_off + 56, 0x1000); // SizeOfImage
    put_u32(&mut p, opt_off + 60, size_of_headers as u32); // SizeOfHeaders
    p[sect_table..sect_table + 5].copy_from_slice(b".text");
    put_u32(&mut p, sect_table + 8, 0x10); // VirtualSize
    put_u32(&mut p, sect_table + 12, 0x1000); // VirtualAddress
    put_u32(&mut p, sect_table + 16, 0x200); // SizeOfRawData
    put_u32(&mut p, sect_table + 20, 0x200); // PointerToRawData
    p
}

fn pe_find_section(f: &[u8], want: &str) -> Option<Vec<u8>> {
    let pe = get_u32(f, 0x3c) as usize;
    let coff = pe + 4;
    let nsec = get_u16(f, coff + 2) as usize;
    let optsz = get_u16(f, coff + 16) as usize;
    let st = coff + 20 + optsz;
    for i in 0..nsec {
        let sh = st + i * 40;
        let name = f.get(sh..sh + 8)?;
        if name_eq(name, want.as_bytes()) {
            let vs = get_u32(f, sh + 8) as usize;
            let rs = get_u32(f, sh + 16) as usize;
            let rp = get_u32(f, sh + 20) as usize;
            return Some(f.get(rp..rp + vs.min(rs))?.to_vec());
        }
    }
    None
}

const LINKEDIT_LC: usize = 32 + 152;
const SYMTAB_LC: usize = LINKEDIT_LC + 72;
const SIGNATURE_LC: usize = SYMTAB_LC + 24;

// A 64-bit arm64 bundle: __TEXT with one section at 0x1000, __LINKEDIT at 0x4000,
// a symbol table, and, where `signed`, a signature at the end of __LINKEDIT.
fn minimal_macho(signed: bool) -> Vec<u8> {
    let mut m = vec![0u8; 0x4100];
    put_u32(&mut m, 0, 0xfeed_facf);
    put_u32(&mut m, 4, 0x0100_000c); // CPU_TYPE_ARM64
    put_u32(&mut m, 12, 8); // MH_BUNDLE
    put_u32(&mut m, 16, if signed { 4 } else { 3 });
    put_u32(&mut m, 20, 152 + 72 + 24 + if signed { 16 } else { 0 });
    // __TEXT
    put_u32(&mut m, 32, 0x19);
    put_u32(&mut m, 36, 152);
    m[40..46].copy_from_slice(b"__TEXT");
    put_u64(&mut m, 32 + 32, 0x4000); // vmsize
    put_u64(&mut m, 32 + 48, 0x4000); // filesize
    put_u32(&mut m, 32 + 64, 1); // nsects
    m[104..110].copy_from_slice(b"__text");
    m[120..126].copy_from_slice(b"__TEXT");
    put_u64(&mut m, 104 + 40, 0x10); // size
    put_u32(&mut m, 104 + 48, 0x1000); // offset
    for (i, b) in m[0x1000..0x4000].iter_mut().enumerate() {
        *b = (i % 251) as u8;
    }
    // __LINKEDIT
    put_u32(&mut m, LINKEDIT_LC, 0x19);
    put_u32(&mut m, LINKEDIT_LC + 4, 72);
    m[LINKEDIT_LC + 8..LINKEDIT_LC + 18].copy_from_slice(b"__LINKEDIT");
    put_u64(&mut m, LINKEDIT_LC + 24, 0x8000); // vmaddr
    put_u64(&mut m, LINKEDIT_LC + 32, 0x4000); // vmsize
    put_u64(&mut m, LINKEDIT_LC + 40, 0x4000); // fileoff
    put_u64(&mut m, LINKEDIT_LC + 48, 0x100); // filesize
    for (i, b) in m[0x4000..0x4100].iter_mut().enumerate() {
        *b = 255 - (i % 256) as u8;
    }
    // LC_SYMTAB: symbols, and an absent string table.
    put_u32(&mut m, SYMTAB_LC, 0x02);
    put_u32(&mut m, SYMTAB_LC + 4, 24);
    put_u32(&mut m, SYMTAB_LC + 8, 0x4010);
    put_u32(&mut m, SYMTAB_LC + 16, 0);
    if signed {
        put_u32(&mut m, SIGNATURE_LC, 0x1d);
        put_u32(&mut m, SIGNATURE_LC + 4, 16);
        put_u32(&mut m, SIGNATURE_LC + 8, 0x4080);
        put_u32(&mut m, SIGNATURE_LC + 12, 0x80);
    }
    m
}

#[test]
fn elf_injection_round_trips_and_preserves_existing_sections() {
    let body = b"NAPCSECT-elf-section-body-bytes".to_vec();
    let out = inject_elf(&minimal_elf64(), &body).expect("inject");
    assert_eq!(elf_find_section(&out, ".DECMPFS"), Some(body));
    assert!(elf_find_section(&out, ".shstrtab").is_some(), "old section intact");
}

#[test]
fn elf_injection_has_the_documented_layout() {
    let stub = minimal_elf64();
    let body = b"0123456789abc".to_vec();
    let out = inject_elf(&stub, &body).unwrap();
    assert_eq!(find_section_elf(&out), Some(&body[..]));
    // Data at 208, names at 224, table at 224 + 11 + 9 rounded up.
    assert_eq!(&out[208..221], &body[..]);
    assert_eq!(&out[224..244], b"\0.shstrtab\0.DECMPFS\0");
    assert_eq!(get_u64(&out, 40), 248);
    assert_eq!(get_u16(&out, 60), 3);
    assert_eq!(get_u16(&out, 62), 1);
    assert_eq!(out.len(), 248 + 3 * 64);
    // The stub's own bytes stay, all but the two fields of the header.
    assert_eq!(&out[..40], &stub[..40]);
    assert_eq!(&out[48..60], &stub[48..60]);
    assert_eq!(&out[62..208], &stub[62..]);
    // The new entry: PROGBITS, not allocated.
    let entry = 248 + 2 * 64;
    assert_eq!(get_u32(&out, entry), 11);
    assert_eq!(get_u32(&out, entry + 4), 1);
    assert_eq!(get_u64(&out, entry + 8), 0);
    assert_eq!(get_u64(&out, entry + 48), 1);
}

#[test]
fn elf_injection_names_what_is_wrong() {
    let good = minimal_elf64();
    let mut e = good.clone();
    e[4] = 1;
    assert_eq!(inject_elf(&e, b"x"), Err(InjectError::NotElf64));
    let mut e = good.clone();
    e[5] = 2;
    assert_eq!(inject_elf(&e, b"x"), Err(InjectError::NotLittleEndian));
    assert_eq!(inject_elf(&good[..59], b"x"), Err(InjectError::Truncated { bits: 16, at: 58 }));
    let mut e = good.clone();
    put_u16(&mut e, 58, 40);
    assert_eq!(inject_elf(&e, b"x"), Err(InjectError::HeaderSize { size: 40 }));
    assert_eq!(
        inject_decmpfs(&e, b"x").unwrap_err(),
        "unexpected ELF64 e_shentsize 40 (want 64)"
    );
    assert_eq!(inject_elf(&good[..61], b"x"), Err(InjectError::Truncated { bits: 16, at: 60 }));
    assert_eq!(inject_elf(&good[..63], b"x"), Err(InjectError::Truncated { bits: 16, at: 62 }));
    let mut e = good.clone();
    put_u16(&mut e, 62, 2);
    assert_eq!(inject_elf(&e, b"x"), Err(InjectError::NoSectionTable));
    let mut e = good.clone();
    put_u64(&mut e, 40, u64::MAX);
    assert_eq!(inject_elf(&e, b"x"), Err(InjectError::TableOutOfRange));
    let mut e = good.clone();
    put_u64(&mut e, 80 + 64 + 32, 1 << 40);
    assert_eq!(inject_elf(&e, b"x"), Err(InjectError::NamesOutOfRange));
}

#[test]
fn pe_injection_round_trips_via_virtual_size() {
    let body = b"NAPCSECT-pe-section-body".to_vec();
    let out = inject_pe(&minimal_pe(), &body).expect("inject");
    // SizeOfRawData is FileAlignment-padded; the reader uses VirtualSize, so the
    // retrieved bytes are exactly the body — no trailing zero-fill.
    assert_eq!(pe_find_section(&out, ".DECMPFS"), Some(body));
}

#[test]
fn pe_injection_has_the_documented_layout() {
    let stub = minimal_pe();
    let body = b"NAPCSECT-pe-section-body".to_vec();
    let out = inject_pe(&stub, &body).unwrap();
    assert_eq!(find_section_pe(&out), Some(&body[..]));
    assert_eq!(out.len(), 0x400);
    let header = 0x40 + 24 + 0x70 + 40;
    assert_eq!(&out[header..header + 8], b".DECMPFS");
    assert_eq!(get_u32(&out, header + 8), 24); // VirtualSize
    assert_eq!(get_u32(&out, header + 12), 0x2000); // VirtualAddress
    assert_eq!(get_u32(&out, header + 16), 0x200); // SizeOfRawData
    assert_eq!(get_u32(&out, header + 20), 0x200); // PointerToRawData
    assert_eq!(get_u32(&out, header + 36), 0x4000_0040);
    assert_eq!(get_u16(&out, 0x46), 2);
    assert_eq!(get_u32(&out, 0x40 + 24 + 56), 0x3000); // SizeOfImage
    assert_eq!(pe_find_section(&out, ".text").unwrap().len(), 0x10);
    // Nothing else of the stub changed.
    for i in 0..stub.len() {
        let written = (header..header + 40).contains(&i)
            || (0x46..0x48).contains(&i)
            || (0x40 + 80..0x40 + 84).contains(&i);
        assert!(written || out[i] == stub[i], "byte {i}");
    }
}

#[test]
fn pe_injection_names_what_is_wrong() {
    let good = minimal_pe();
    assert_eq!(inject_pe(&good[..0x3f], b"x"), Err(InjectError::Truncated { bits: 32, at: 0x3c }));
    let mut p = good.clone();
    p[0x40] = b'Q';
    assert_eq!(inject_pe(&p, b"x"), Err(InjectError::BadNtSignature));
    assert_eq!(inject_pe(&good[..0x47], b"x"), Err(InjectError::Truncated { bits: 16, at: 0x46 }));
    let mut p = good.clone();
    put_u32(&mut p, 0x40 + 24 + 36, 0);
    assert_eq!(inject_pe(&p, b"x"), Err(InjectError::ZeroAlignment));
    let mut p = good.clone();
    put_u32(&mut p, 0x40 + 24 + 60, 0x100);
    assert_eq!(inject_pe(&p, b"x"), Err(InjectError::NoSectionSlack));
    // Headers that claim to be larger than the file.
    let mut p = good.clone();
    put_u16(&mut p, 0x40 + 20, 0x3f00);
    put_u16(&mut p, 0x46, 0);
    put_u32(&mut p, 0x40 + 24 + 60, 0x1_0000);
    assert_eq!(inject_pe(&p, b"x"), Err(InjectError::HeadersOutOfRange));
    // A section table that leaves the file.
    let mut p = good.clone();
    put_u16(&mut p, 0x46, 200);
    put_u32(&mut p, 0x40 + 24 + 60, 0x1_0000);
    assert!(matches!(inject_pe(&p, b"x"), Err(InjectError::Truncated { bits: 32, .. })));
}

#[test]
fn dispatch_rejects_unknown_format() {
    assert!(inject_decmpfs(b"not an object file", b"x").is_err());
}

#[test]
fn dispatch_goes_by_the_magic() {
    let body = b"body".to_vec();
    let elf = minimal_elf64();
    let pe = minimal_pe();
    let macho = minimal_macho(false);
    assert_eq!(inject_decmpfs(&elf, &body).unwrap(), inject_elf(&elf, &body).unwrap());
    assert_eq!(inject_decmpfs(&pe, &body).unwrap(), inject_pe(&pe, &body).unwrap());
    assert_eq!(inject_decmpfs(&macho, &body).unwrap(), inject_macho(&macho, &body).unwrap());
    assert_eq!(inject(b"", &body), Err(InjectError::UnknownFormat));
    assert_eq!(
        inject_decmpfs(b"\x7fELG", &body).unwrap_err(),
        "unrecognized stub format: not a 64-bit LE Mach-O, ELF, or PE"
    );
}

#[test]
fn macho_layout_is_read_off_the_load_commands() {
    let lay = read_layout(&minimal_macho(true)).unwrap();
    assert_eq!(lay.page_size, 0x4000);
    assert_eq!(lay.linkedit_lc_off, LINKEDIT_LC as u64);
    assert_eq!(lay.linkedit_fileoff, 0x4000);
    assert_eq!(lay.linkedit_vmaddr, 0x8000);
    assert_eq!(lay.first_section_offset, 0x1000);
    assert_eq!(lay.end_of_lc, SIGNATURE_LC as u64 + 16);
    assert_eq!(lay.linkedit_pointers, [SYMTAB_LC as u64 + 8, SYMTAB_LC as u64 + 16]);
    let sig = lay.code_sig.unwrap();
    assert_eq!((sig.lc_off, sig.dataoff), (SIGNATURE_LC as u64, 0x4080));
    assert!(read_layout(&minimal_macho(false)).unwrap().code_sig.is_none());
}

#[test]
fn macho_injection_moves_every_linkedit_offset() {
    // The one-offset commands take the place of the symbol table's command.
    for cmd in [
        0x1eu32, 0x26, 0x29, 0x2b, 0x2e, 0x36, 0x16, 0x8000_0033, 0x8000_0034,
    ] {
        let mut m = minimal_macho(false);
        put_u32(&mut m, SYMTAB_LC, cmd);
        put_u32(&mut m, SYMTAB_LC + 8, 0x4020);
        put_u32(&mut m, SYMTAB_LC + 16, 0x4030);
        let out = inject_macho(&m, b"body").unwrap();
        assert_eq!(get_u32(&out, SYMTAB_LC + 152 + 8), 0x8020, "{cmd:#x}");
        assert_eq!(get_u32(&out, SYMTAB_LC + 152 + 16), 0x4030, "{cmd:#x}");
    }
}

#[test]
fn macho_pages_are_4k_off_arm() {
    let mut m = minimal_macho(false);
    put_u32(&mut m, 4, 0x0100_0007);
    assert_eq!(read_layout(&m).unwrap().page_size, 0x1000);
}

#[test]
fn macho_injection_round_trips_and_keeps_what_is_mapped() {
    for signed in [false, true] {
        let mut stub = minimal_macho(signed);
        put_u64(&mut stub, LINKEDIT_LC + 32, 0x8000);
        let body = b"NAPCSECT-macho-section-body".to_vec();
        let out = inject_macho(&stub, &body).unwrap();
        assert_eq!(find_section_macho(&out), Some(&body[..]));
        let end = if signed { 0x4080 } else { 0x4100 };
        assert_eq!(out.len(), end + 0x4000);
        // Mapped bytes keep their offsets; __LINKEDIT's move by a page.
        assert_eq!(&out[0x1000..0x4000], &stub[0x1000..0x4000]);
        assert_eq!(&out[0x8000..], &stub[0x4000..end]);
        // The new command, read-only.
        assert_eq!(&out[LINKEDIT_LC + 8..LINKEDIT_LC + 12], b"SMOL");
        assert_eq!(get_u32(&out, LINKEDIT_LC + 56), 1);
        assert_eq!(get_u32(&out, LINKEDIT_LC + 60), 1);
        // __LINKEDIT's own command follows.
        let le = LINKEDIT_LC + 152;
        assert_eq!(&out[le + 8..le + 18], b"__LINKEDIT");
        assert_eq!(get_u64(&out, le + 24), 0xc000);
        assert_eq!(get_u64(&out, le + 40), 0x8000);
        assert_eq!(get_u64(&out, le + 48), if signed { 0x80 } else { 0x100 });
        assert_eq!(get_u64(&out, le + 32), if signed { 0x4000 } else { 0x8000 });
        // Pointers move; an absent table stays absent.
        assert_eq!(get_u32(&out, SYMTAB_LC + 152 + 8), 0x8010);
        assert_eq!(get_u32(&out, SYMTAB_LC + 152 + 16), 0);
        // The signature command is gone.
        assert_eq!(get_u32(&out, 16), 4);
        assert_eq!(get_u32(&out, 20), 152 + 72 + 24 + 152);
        if signed {
            assert_eq!(&out[SIGNATURE_LC + 152..SIGNATURE_LC + 168], &[0u8; 16]);
        }
    }
}

#[test]
fn segment_command_has_the_documented_bytes() {
    let lc = build_segment_lc(0x123, 0x4000, 0x8000, 0xc000);
    assert_eq!(lc.len(), 152);
    assert_eq!(get_u32(&lc, 0), 0x19);
    assert_eq!(get_u32(&lc, 4), 152);
    assert_eq!(get_u64(&lc, 24), 0xc000);
    assert_eq!(get_u64(&lc, 32), 0x4000);
    assert_eq!(get_u64(&lc, 40), 0x8000);
    assert_eq!(get_u64(&lc, 48), 0x123);
    assert_eq!(&lc[72..81], b"__DECMPFS");
    assert_eq!(&lc[88..92], b"SMOL");
    assert_eq!(get_u64(&lc, 104), 0xc000);
    assert_eq!(get_u64(&lc, 112), 0x123);
    assert_eq!(get_u32(&lc, 120), 0x8000);
    assert_eq!(get_u32(&lc, 124), 2);
}

#[test]
fn macho_injection_names_what_is_wrong() {
    let good = minimal_macho(true);
    let mut m = good.clone();
    m[0] = 0;
    assert_eq!(inject_macho(&m, b"x"), Err(InjectError::BadMachMagic));
    assert_eq!(inject_macho(&good[..3], b"x"), Err(InjectError::Truncated { bits: 32, at: 0 }));
    let mut m = good.clone();
    put_u32(&mut m, 36, 4);
    assert_eq!(
        inject_decmpfs(&m, b"x").unwrap_err(),
        "malformed load command at 32 (cmdsize 4)"
    );
    let mut m = good.clone();
    m[LINKEDIT_LC + 8] = b'X';
    assert_eq!(
        inject_decmpfs(&m, b"x").unwrap_err(),
        "no __LINKEDIT segment to anchor the new section"
    );
    let mut m = good.clone();
    put_u32(&mut m, 104 + 48, 0);
    assert_eq!(
        inject_decmpfs(&m, b"x").unwrap_err(),
        "no mapped section to bound the header slack"
    );
    let mut m = good.clone();
    put_u32(&mut m, 104 + 48, SIGNATURE_LC as u32 + 16 + 151);
    assert_eq!(
        inject_decmpfs(&m, b"x").unwrap_err(),
        "header slack 151 < 152 bytes for the new segment command; rebuild the stub with -headerpad,0x1000"
    );
    let mut m = good.clone();
    put_u32(&mut m, 104 + 48, 0x20);
    assert_eq!(inject_macho(&m, b"x"), Err(InjectError::CorruptLayout));
    let mut m = good.clone();
    put_u32(&mut m, SIGNATURE_LC + 8, 0x3fff);
    assert_eq!(
        inject_decmpfs(&m, b"x").unwrap_err(),
        "code signature precedes __LINKEDIT (corrupt layout)"
    );
    let mut m = good.clone();
    put_u32(&mut m, SYMTAB_LC + 8, 0xffff_f000);
    assert_eq!(inject_macho(&m, b"x"), Err(InjectError::CorruptLayout));
    let mut m = good.clone();
    put_u64(&mut m, LINKEDIT_LC + 24, u64::MAX);
    assert_eq!(inject_macho(&m, b"x"), Err(InjectError::CorruptLayout));
}

#[test]
fn every_refusal_has_its_message() {
    let texts = [
        (InjectError::Truncated { bits: 64, at: 40 }, "truncated u64 at offset 40"),
        (InjectError::BadMachMagic, "not a 64-bit little-endian Mach-O (bad magic)"),
        (InjectError::NotElf64, "only 64-bit ELF is supported (32-bit producer is a follow-up)"),
        (InjectError::NotLittleEndian, "only little-endian ELF is supported"),
        (InjectError::NoSectionTable, "ELF has no usable section header table"),
        (InjectError::TableOutOfRange, "section header table out of range"),
        (InjectError::NamesOutOfRange, ".shstrtab out of range"),
        (InjectError::BadNtSignature, "not a PE (bad NT signature)"),
        (InjectError::ZeroAlignment, "zero PE Section/FileAlignment"),
        (
            InjectError::NoSectionSlack,
            "no PE header slack for a new section header (needs SizeOfHeaders room)",
        ),
    ];
    for (error, text) in texts {
        assert_eq!(error.message(), text);
    }
    for error in [InjectError::CorruptLayout, InjectError::HeadersOutOfRange, InjectError::TooLarge]
    {
        assert!(!error.message().is_empty());
    }
}
