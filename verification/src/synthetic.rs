//! Minimal object files that carry the section, for exercising a loader without a
//! real addon.

use vstd::prelude::*;

use crate::bytes::{append, group_widths, le16, le16_bytes, le32, le32_bytes, le64, le64_bytes,
    lemma_le16_same, lemma_le32_same, lemma_le64_same, lemma_put16, lemma_put32, lemma_put64,
    overwrite, put_bytes, put_u16, put_u32, put_u64, zeroed, zeros};
use crate::platform::Host;
use crate::section::{dos_magic, elf_headers, elf_magic, elf_section, elf_table, macho_commands,
    macho_section, macho_section_name, macho_sections, nt_signature, pe_headers, pe_section,
    plain_section_name, section_in, segment_name, string_at, ElfTable, Scan, LC_SEGMENT_64,
    MH_MAGIC_64};

verus! {

/// The header and one segment command with one section, for content of this length
/// behind them.
pub open spec fn macho_front(len: int) -> Seq<u8> {
    let magic = overwrite(zeros(184), 0, le32_bytes(MH_MAGIC_64 as int));
    let counted = overwrite(magic, 16, le32_bytes(1));
    let typed = overwrite(counted, 32, le32_bytes(LC_SEGMENT_64 as int));
    let sized = overwrite(typed, 36, le32_bytes(152));
    let named = overwrite(sized, 40, segment_name());
    let one = overwrite(named, 96, le32_bytes(1));
    let titled = overwrite(one, 104, macho_section_name());
    let owned = overwrite(titled, 120, segment_name());
    let long = overwrite(owned, 144, le64_bytes(len));
    overwrite(long, 152, le32_bytes(184))
}

/// A minimal Mach-O file: its header, one segment command, the body.
pub open spec fn macho_object(body: Seq<u8>) -> Seq<u8> {
    macho_front(body.len() as int) + body
}

/// The ELF header, for content of this length behind it.
pub open spec fn elf_front(len: int) -> Seq<u8> {
    let magic = overwrite(zeros(64), 0, elf_magic());
    let kind = overwrite(magic, 4, seq![2u8, 1, 1]);
    let pointed = overwrite(kind, 40, le64_bytes(64 + len + 20));
    let sized = overwrite(pointed, 58, le16_bytes(64));
    let counted = overwrite(sized, 60, le16_bytes(3));
    overwrite(counted, 62, le16_bytes(2))
}

/// The names of the sections, behind an empty one.
pub open spec fn elf_name_table() -> Seq<u8> {
    seq![0u8] + plain_section_name() + seq![
        0u8,
        0x2e,
        0x73,
        0x68,
        0x73,
        0x74,
        0x72,
        0x74,
        0x61,
        0x62,
        0,
    ]
}

/// A section header.
pub open spec fn elf_section_header(name: int, off: int, size: int) -> Seq<u8> {
    let named = overwrite(zeros(64), 0, le32_bytes(name));
    let placed = overwrite(named, 24, le64_bytes(off));
    overwrite(placed, 32, le64_bytes(size))
}

/// A minimal ELF file: its header, the body, the section names, and three section
/// headers: an empty one, the body's, and that of the names.
pub open spec fn elf_object(body: Seq<u8>) -> Seq<u8> {
    let len = body.len() as int;
    elf_front(len) + body + elf_name_table() + zeros(64) + elf_section_header(1, 64, len)
        + elf_section_header(10, 64 + len, 20)
}

/// The DOS header, the COFF header and one section header, for content of this
/// length behind them.
pub open spec fn pe_front(len: int) -> Seq<u8> {
    let magic = overwrite(zeros(128), 0, dos_magic());
    let pointed = overwrite(magic, 0x3c, le32_bytes(0x40));
    let signed = overwrite(pointed, 0x40, nt_signature());
    let counted = overwrite(signed, 0x46, le16_bytes(1));
    let named = overwrite(counted, 88, plain_section_name());
    let long = overwrite(named, 96, le32_bytes(len % 0x1_0000_0000));
    let sized = overwrite(long, 104, le32_bytes(len % 0x1_0000_0000));
    overwrite(sized, 108, le32_bytes(128))
}

/// A minimal PE file: its headers, the body.
pub open spec fn pe_object(body: Seq<u8>) -> Seq<u8> {
    pe_front(body.len() as int) + body
}

/// A minimal object file of the host's format, with a section that holds the body.
pub open spec fn synthetic(host: Host, body: Seq<u8>) -> Seq<u8> {
    match host {
        Host::MacOs => macho_object(body),
        Host::Linux => elf_object(body),
        Host::Windows => pe_object(body),
        Host::Other => seq![],
    }
}

/// Builds a minimal Mach-O file.
fn build_macho(body: &[u8]) -> (r: Vec<u8>)
    ensures
        r@ == macho_object(body@),
{
    broadcast use group_widths;

    let segment = vec![0x53u8, 0x4d, 0x4f, 0x4c];
    assert(segment@ =~= segment_name());
    let section = vec![0x5fu8, 0x5f, 0x44, 0x45, 0x43, 0x4d, 0x50, 0x46, 0x53];
    assert(section@ =~= macho_section_name());
    let mut m: Vec<u8> = zeroed(184);
    put_u32(&mut m, 0, MH_MAGIC_64);
    put_u32(&mut m, 16, 1);
    put_u32(&mut m, 32, LC_SEGMENT_64);
    put_u32(&mut m, 36, 152);
    put_bytes(&mut m, 40, segment.as_slice());
    put_u32(&mut m, 96, 1);
    put_bytes(&mut m, 104, section.as_slice());
    put_bytes(&mut m, 120, segment.as_slice());
    put_u64(&mut m, 144, body.len() as u64);
    put_u32(&mut m, 152, 184);
    append(&mut m, body);
    m
}

/// Builds a section header.
fn build_section_header(name: u32, off: u64, size: u64) -> (r: Vec<u8>)
    ensures
        r@ == elf_section_header(name as int, off as int, size as int),
{
    let mut h: Vec<u8> = zeroed(64);
    put_u32(&mut h, 0, name);
    put_u64(&mut h, 24, off);
    put_u64(&mut h, 32, size);
    h
}

/// Builds a minimal ELF file.
fn build_elf(body: &[u8]) -> (r: Vec<u8>)
    requires
        body@.len() <= usize::MAX - 1024,
    ensures
        r@ == elf_object(body@),
{
    let len: u64 = body.len() as u64;
    let magic = vec![0x7fu8, 0x45, 0x4c, 0x46];
    assert(magic@ =~= elf_magic());
    let kind = vec![2u8, 1, 1];
    assert(kind@ =~= seq![2u8, 1, 1]);
    let mut e: Vec<u8> = zeroed(64);
    put_bytes(&mut e, 0, magic.as_slice());
    put_bytes(&mut e, 4, kind.as_slice());
    put_u64(&mut e, 40, 64 + len + 20);
    put_u16(&mut e, 58, 64);
    put_u16(&mut e, 60, 3);
    put_u16(&mut e, 62, 2);
    append(&mut e, body);
    let names = vec![0u8, 0x2e, 0x44, 0x45, 0x43, 0x4d, 0x50, 0x46, 0x53, 0, 0x2e, 0x73, 0x68,
        0x73, 0x74, 0x72, 0x74, 0x61, 0x62, 0];
    assert(names@ =~= elf_name_table());
    append(&mut e, names.as_slice());
    let none = zeroed(64);
    append(&mut e, none.as_slice());
    let first = build_section_header(1, 64, len);
    append(&mut e, first.as_slice());
    let second = build_section_header(10, 64 + len, 20);
    append(&mut e, second.as_slice());
    e
}

/// Builds a minimal PE file.
fn build_pe(body: &[u8]) -> (r: Vec<u8>)
    ensures
        r@ == pe_object(body@),
{
    let len: u32 = (body.len() as u64 % 0x1_0000_0000) as u32;
    let mz = vec![0x4du8, 0x5a];
    assert(mz@ =~= dos_magic());
    let nt = vec![0x50u8, 0x45, 0, 0];
    assert(nt@ =~= nt_signature());
    let name = vec![0x2eu8, 0x44, 0x45, 0x43, 0x4d, 0x50, 0x46, 0x53];
    assert(name@ =~= plain_section_name());
    let mut p: Vec<u8> = zeroed(128);
    put_bytes(&mut p, 0, mz.as_slice());
    put_u32(&mut p, 0x3c, 0x40);
    put_bytes(&mut p, 0x40, nt.as_slice());
    put_u16(&mut p, 0x46, 1);
    put_bytes(&mut p, 88, name.as_slice());
    put_u32(&mut p, 96, len);
    put_u32(&mut p, 104, len);
    put_u32(&mut p, 108, 128);
    append(&mut p, body);
    p
}

/// Builds a minimal object file of the host's format with one section that holds
/// exactly the body.
pub fn synthetic_object_with_section(host: Host, body: &[u8]) -> (r: Vec<u8>)
    requires
        body@.len() <= usize::MAX - 1024,
    ensures
        r@ == synthetic(host, body@),
{
    match host {
        Host::MacOs => build_macho(body),
        Host::Linux => build_elf(body),
        Host::Windows => build_pe(body),
        Host::Other => Vec::new(),
    }
}

/// A loader finds the body in the Mach-O file.
proof fn lemma_macho_found(body: Seq<u8>)
    requires
        body.len() < 0x1_0000_0000_0000_0000,
    ensures
        macho_section(macho_object(body)) == Some(body),
{
    broadcast use group_widths;

    let len = body.len() as int;
    let s = macho_object(body);
    let magic = overwrite(zeros(184), 0, le32_bytes(MH_MAGIC_64 as int));
    let counted = overwrite(magic, 16, le32_bytes(1));
    let typed = overwrite(counted, 32, le32_bytes(LC_SEGMENT_64 as int));
    let sized = overwrite(typed, 36, le32_bytes(152));
    let named = overwrite(sized, 40, segment_name());
    let one = overwrite(named, 96, le32_bytes(1));
    let titled = overwrite(one, 104, macho_section_name());
    let owned = overwrite(titled, 120, segment_name());
    let long = overwrite(owned, 144, le64_bytes(len));
    let off = overwrite(long, 152, le32_bytes(184));
    assert(off == macho_front(len));
    lemma_put32(zeros(184), 0, MH_MAGIC_64 as int);
    assert(s.subrange(0, 4) =~= magic.subrange(0, 4));
    lemma_le32_same(s, 0, magic, 0);
    lemma_put32(magic, 16, 1);
    assert(s.subrange(16, 20) =~= counted.subrange(16, 20));
    lemma_le32_same(s, 16, counted, 16);
    lemma_put32(counted, 32, LC_SEGMENT_64 as int);
    assert(s.subrange(32, 36) =~= typed.subrange(32, 36));
    lemma_le32_same(s, 32, typed, 32);
    lemma_put32(typed, 36, 152);
    assert(s.subrange(36, 40) =~= sized.subrange(36, 40));
    lemma_le32_same(s, 36, sized, 36);
    assert(s.subrange(40, 56).take(4) =~= segment_name());
    lemma_put32(named, 96, 1);
    assert(s.subrange(96, 100) =~= one.subrange(96, 100));
    lemma_le32_same(s, 96, one, 96);
    assert(s.subrange(104, 120).take(9) =~= macho_section_name());
    lemma_put64(owned, 144, len);
    assert(s.subrange(144, 152) =~= long.subrange(144, 152));
    lemma_le64_same(s, 144, long, 144);
    lemma_put32(long, 152, 184);
    assert(s.subrange(152, 156) =~= off.subrange(152, 156));
    lemma_le32_same(s, 152, off, 152);
    assert(s.subrange(184, 184 + len) =~= body);
    assert(macho_sections(s, 104, 1) == Scan::Stop(Some(body)));
    assert(macho_commands(s, 32, 1) == Some(body));
}

/// What a section header holds, where it lies at `at`.
proof fn lemma_elf_header(s: Seq<u8>, at: int, name: int, off: int, size: int)
    requires
        0 <= at,
        at + 64 <= s.len(),
        s.subrange(at, at + 64) == elf_section_header(name, off, size),
        0 <= name < 0x1_0000_0000,
        0 <= off < 0x1_0000_0000_0000_0000,
        0 <= size < 0x1_0000_0000_0000_0000,
    ensures
        le32(s, at) == name,
        le64(s, at + 24) == off,
        le64(s, at + 32) == size,
{
    broadcast use group_widths;

    let named = overwrite(zeros(64), 0, le32_bytes(name));
    let placed = overwrite(named, 24, le64_bytes(off));
    let h = overwrite(placed, 32, le64_bytes(size));
    let part = s.subrange(at, at + 64);
    lemma_put32(zeros(64), 0, name);
    assert(s.subrange(at, at + 4) =~= part.subrange(0, 4));
    assert(h.subrange(0, 4) =~= named.subrange(0, 4));
    lemma_le32_same(s, at, named, 0);
    lemma_put64(named, 24, off);
    assert(s.subrange(at + 24, at + 32) =~= part.subrange(24, 32));
    assert(h.subrange(24, 32) =~= placed.subrange(24, 32));
    lemma_le64_same(s, at + 24, placed, 24);
    lemma_put64(placed, 32, size);
    assert(s.subrange(at + 32, at + 40) =~= part.subrange(32, 40));
    lemma_le64_same(s, at + 32, h, 32);
}

/// A loader finds the body in the ELF file.
proof fn lemma_elf_found(body: Seq<u8>)
    requires
        body.len() <= usize::MAX - 1024,
    ensures
        elf_section(elf_object(body)) == Some(body),
{
    broadcast use group_widths;

    let len = body.len() as int;
    let s = elf_object(body);
    let shoff = 64 + len + 20;
    let front = elf_front(len);
    let magic = overwrite(zeros(64), 0, elf_magic());
    let kind = overwrite(magic, 4, seq![2u8, 1, 1]);
    let pointed = overwrite(kind, 40, le64_bytes(shoff));
    let sized = overwrite(pointed, 58, le16_bytes(64));
    let counted = overwrite(sized, 60, le16_bytes(3));
    assert(front == overwrite(counted, 62, le16_bytes(2)));
    assert(s.len() == shoff + 192);
    assert(s.take(4) =~= elf_magic());
    assert(s[4] == 2 && s[5] == 1);
    lemma_put64(kind, 40, shoff);
    assert(s.subrange(40, 48) =~= pointed.subrange(40, 48));
    lemma_le64_same(s, 40, pointed, 40);
    lemma_put16(pointed, 58, 64);
    assert(s.subrange(58, 60) =~= sized.subrange(58, 60));
    lemma_le16_same(s, 58, sized, 58);
    lemma_put16(sized, 60, 3);
    assert(s.subrange(60, 62) =~= counted.subrange(60, 62));
    lemma_le16_same(s, 60, counted, 60);
    lemma_put16(counted, 62, 2);
    assert(s.subrange(62, 64) =~= front.subrange(62, 64));
    lemma_le16_same(s, 62, front, 62);
    let t = elf_table(s)->0;
    assert(t == (ElfTable {
        wide: true,
        little: true,
        shoff,
        shentsize: 64,
        shnum: 3,
        shstrndx: 2,
    }));
    // The headers.
    assert(s.subrange(shoff + 64, shoff + 128) =~= elf_section_header(1, 64, len));
    lemma_elf_header(s, shoff + 64, 1, 64, len);
    assert(s.subrange(shoff + 128, shoff + 192) =~= elf_section_header(10, 64 + len, 20));
    lemma_elf_header(s, shoff + 128, 10, 64 + len, 20);
    assert(le32(s, shoff) == 0) by {
        assert(s.subrange(shoff, shoff + 4) =~= zeros(64).subrange(0, 4));
        lemma_le32_same(s, shoff, zeros(64), 0);
        reveal(le32);
        reveal(le16);
    }
    // The names.
    let names = elf_name_table();
    assert(s.subrange(64 + len, 64 + len + 20) =~= names);
    assert(t.extent(s, t.header(2)) == Some(names));
    assert(!string_at(names, 0, plain_section_name())) by {
        let part = names.subrange(0, 8);
        assert(part[0] == 0);
        assert(plain_section_name()[0] == 0x2e);
    }
    assert(string_at(names, 1, plain_section_name())) by {
        assert(names.subrange(1, 9) =~= plain_section_name());
    }
    // The walk.
    assert(s.subrange(64, 64 + len) =~= body);
    assert(t.extent(s, t.header(1)) == Some(body));
    assert(t.header(0) == shoff && t.header(1) == shoff + 64);
    assert(elf_headers(s, t, names, 1) == Some(body));
    assert(elf_headers(s, t, names, 0) == Some(body));
}

/// A loader finds the body in the PE file.
proof fn lemma_pe_found(body: Seq<u8>)
    requires
        body.len() < 0x1_0000_0000,
    ensures
        pe_section(pe_object(body)) == Some(body),
{
    broadcast use group_widths;

    let len = body.len() as int;
    let s = pe_object(body);
    let magic = overwrite(zeros(128), 0, dos_magic());
    let pointed = overwrite(magic, 0x3c, le32_bytes(0x40));
    let signed = overwrite(pointed, 0x40, nt_signature());
    let counted = overwrite(signed, 0x46, le16_bytes(1));
    let named = overwrite(counted, 88, plain_section_name());
    let long = overwrite(named, 96, le32_bytes(len));
    let sized = overwrite(long, 104, le32_bytes(len));
    let front = overwrite(sized, 108, le32_bytes(128));
    assert(front == pe_front(len));
    assert(s.take(2) =~= dos_magic());
    lemma_put32(magic, 0x3c, 0x40);
    assert(s.subrange(0x3c, 0x40) =~= pointed.subrange(0x3c, 0x40));
    lemma_le32_same(s, 0x3c, pointed, 0x3c);
    assert(s.subrange(0x40, 0x44) =~= nt_signature());
    lemma_put16(signed, 0x46, 1);
    assert(s.subrange(0x46, 0x48) =~= counted.subrange(0x46, 0x48));
    lemma_le16_same(s, 0x46, counted, 0x46);
    assert(le16(s, 84) == 0) by {
        assert(s.subrange(84, 86) =~= zeros(128).subrange(84, 86));
        lemma_le16_same(s, 84, zeros(128), 84);
        reveal(le16);
    }
    assert(s.subrange(88, 96) =~= plain_section_name());
    assert(plain_section_name().take(8) =~= plain_section_name());
    lemma_put32(named, 96, len);
    assert(s.subrange(96, 100) =~= long.subrange(96, 100));
    lemma_le32_same(s, 96, long, 96);
    lemma_put32(long, 104, len);
    assert(s.subrange(104, 108) =~= sized.subrange(104, 108));
    lemma_le32_same(s, 104, sized, 104);
    lemma_put32(sized, 108, 128);
    assert(s.subrange(108, 112) =~= front.subrange(108, 112));
    lemma_le32_same(s, 108, front, 108);
    assert(s.subrange(128, 128 + len) =~= body);
    assert(pe_headers(s, 88, 1) == Some(body));
}

/// A loader finds exactly the body in a minimal object file of its own format. The
/// length of a PE section has 32 bits.
pub proof fn law_synthetic_object_holds_body(host: Host, body: Seq<u8>)
    requires
        host != Host::Other,
        body.len() <= usize::MAX - 1024,
        host == Host::Windows ==> body.len() < 0x1_0000_0000,
    ensures
        section_in(host, synthetic(host, body)) == Some(body),
{
    match host {
        Host::MacOs => lemma_macho_found(body),
        Host::Linux => lemma_elf_found(body),
        Host::Windows => lemma_pe_found(body),
        Host::Other => {},
    }
}

/// A minimal object file has nothing but what it needs: the body behind its headers, and in
/// the ELF file the section names and three section headers behind that. A platform
/// without a format has an empty one.
pub proof fn law_synthetic_object_is_minimal(body: Seq<u8>)
    ensures
        ({
            let macho = synthetic(Host::MacOs, body);
            macho.len() == 184 + body.len() && macho.skip(184) == body
        }),
        ({
            let elf = synthetic(Host::Linux, body);
            &&& elf.len() == 64 + body.len() + 20 + 3 * 64
            &&& elf.subrange(64, 64 + body.len() as int) == body
            &&& elf.take(7) == seq![0x7fu8, 0x45, 0x4c, 0x46, 2, 1, 1]
        }),
        ({
            let pe = synthetic(Host::Windows, body);
            pe.len() == 128 + body.len() && pe.skip(128) == body
        }),
        synthetic(Host::Other, body).len() == 0,
{
    broadcast use group_widths;

    assert(synthetic(Host::MacOs, body).skip(184) =~= body);
    assert(synthetic(Host::Linux, body).subrange(64, 64 + body.len() as int) =~= body);
    assert(synthetic(Host::Linux, body).take(7) =~= seq![0x7fu8, 0x45, 0x4c, 0x46, 2, 1, 1]);
    assert(synthetic(Host::Windows, body).skip(128) =~= body);
}

} // verus!
