//! Injecting into an ELF image.
//!
//! A loader maps an image from its program headers and ignores the section table,
//! so the section is appended: its data, a grown name table, and a fresh section
//! header table go to the end of the file, and the ELF header is pointed there.

use vstd::prelude::*;

use crate::bytes::{aligned, append, bytes_at, group_widths, le16, le16_bytes, le32, le32_bytes,
    le64, le64_bytes, lemma_aligned, lemma_le16_same, lemma_le32_same, lemma_le64_same,
    lemma_overwrite_apart, lemma_put16, lemma_put32, lemma_put64, overwrite, pad_to, put_u16,
    put_u32, put_u64, round_up, u16_at, u64_at, window, zeroed, zeros};
use crate::inject::error::InjectError;
use crate::section::{elf_headers, elf_magic, elf_section, elf_table, plain_section_name, string_at,
    ElfTable};

verus! {

/// What an injection has to know of an ELF stub.
pub struct ElfPlan {
    pub shoff: int,
    pub shnum: int,
    pub shstrndx: int,
    pub names_off: int,
    pub names_size: int,
}

/// What an injection has to know of an ELF stub, or why it is refused.
pub open spec fn elf_plan(stub: Seq<u8>) -> Result<ElfPlan, InjectError> {
    let shoff = le64(stub, 40);
    let shnum = le16(stub, 60);
    let shstrndx = le16(stub, 62);
    let names_off = le64(stub, shoff + shstrndx * 64 + 24);
    let names_size = le64(stub, shoff + shstrndx * 64 + 32);
    if stub.len() < 5 || stub[4] != 2 {
        Err(InjectError::NotElf64)
    } else if stub.len() < 6 || stub[5] != 1 {
        Err(InjectError::NotLittleEndian)
    } else if stub.len() < 60 {
        Err(InjectError::Truncated { bits: 16, at: 58 })
    } else if le16(stub, 58) != 64 {
        Err(InjectError::HeaderSize { size: le16(stub, 58) as u64 })
    } else if stub.len() < 62 {
        Err(InjectError::Truncated { bits: 16, at: 60 })
    } else if stub.len() < 64 {
        Err(InjectError::Truncated { bits: 16, at: 62 })
    } else if shstrndx >= shnum {
        Err(InjectError::NoSectionTable)
    } else if shoff + shnum * 64 > stub.len() {
        Err(InjectError::TableOutOfRange)
    } else if names_off + names_size > stub.len() {
        Err(InjectError::NamesOutOfRange)
    } else {
        Ok(ElfPlan { shoff, shnum, shstrndx, names_off, names_size })
    }
}

/// Where the section's data starts in the result.
pub open spec fn elf_data_off(stub: Seq<u8>) -> int {
    aligned(stub.len() as int, 8)
}

/// Where the grown name table starts in the result.
pub open spec fn elf_names_off(stub: Seq<u8>, body: Seq<u8>) -> int {
    aligned(elf_data_off(stub) + body.len(), 8)
}

/// Where the fresh section header table starts in the result.
pub open spec fn elf_table_off(stub: Seq<u8>, body: Seq<u8>, p: ElfPlan) -> int {
    aligned(elf_names_off(stub, body) + p.names_size + 9, 8)
}

/// The length of the result.
pub open spec fn elf_total(stub: Seq<u8>, body: Seq<u8>, p: ElfPlan) -> int {
    elf_table_off(stub, body, p) + p.shnum * 64 + 64
}

/// The grown name table: the old names and `.DECMPFS`.
pub open spec fn elf_names(stub: Seq<u8>, p: ElfPlan) -> Seq<u8> {
    stub.subrange(p.names_off, p.names_off + p.names_size) + plain_section_name() + seq![0u8]
}

/// The section header of the new section: `SHT_PROGBITS`, not allocated, named by
/// what the grown name table holds behind the old names.
pub open spec fn elf_entry(names_size: int, data_off: int, size: int) -> Seq<u8> {
    let named = overwrite(zeros(64), 0, le32_bytes(names_size % 0x1_0000_0000));
    let typed = overwrite(named, 4, le32_bytes(1));
    let placed = overwrite(typed, 24, le64_bytes(data_off));
    let sized = overwrite(placed, 32, le64_bytes(size));
    overwrite(sized, 48, le64_bytes(1))
}

/// The fresh section header table: the old headers, the name table's one pointed
/// at the grown table, and the new section's.
pub open spec fn elf_headers_table(stub: Seq<u8>, body: Seq<u8>, p: ElfPlan) -> Seq<u8> {
    let old_headers = stub.subrange(p.shoff, p.shoff + p.shnum * 64);
    let moved = overwrite(
        old_headers,
        p.shstrndx * 64 + 24,
        le64_bytes(elf_names_off(stub, body)),
    );
    let grown = overwrite(moved, p.shstrndx * 64 + 32, le64_bytes(p.names_size + 9));
    grown + elf_entry(p.names_size, elf_data_off(stub), body.len() as int)
}

/// The stub with its ELF header pointed at the fresh table, which has one more
/// entry.
pub open spec fn elf_head(stub: Seq<u8>, body: Seq<u8>, p: ElfPlan) -> Seq<u8> {
    let pointed = overwrite(stub, 40, le64_bytes(elf_table_off(stub, body, p)));
    overwrite(pointed, 60, le16_bytes((p.shnum + 1) % 0x1_0000))
}

/// The stub's bytes, the section's data, the grown name table and the fresh section
/// header table, each from a multiple of eight on.
pub open spec fn elf_assembled(stub: Seq<u8>, body: Seq<u8>, p: ElfPlan) -> Seq<u8> {
    elf_head(stub, body, p) + zeros(elf_data_off(stub) - stub.len()) + body + zeros(
        elf_names_off(stub, body) - elf_data_off(stub) - body.len(),
    ) + elf_names(stub, p) + zeros(
        elf_table_off(stub, body, p) - elf_names_off(stub, body) - p.names_size - 9,
    ) + elf_headers_table(stub, body, p)
}

/// The stub with the section injected, or why it is refused.
pub open spec fn elf_injected(stub: Seq<u8>, body: Seq<u8>) -> Result<Seq<u8>, InjectError> {
    match elf_plan(stub) {
        Err(e) => Err(e),
        Ok(p) => if elf_total(stub, body, p) > usize::MAX {
            Err(InjectError::TooLarge)
        } else {
            Ok(elf_assembled(stub, body, p))
        },
    }
}

/// The plan's fields as machine numbers.
struct ElfShape {
    shoff: usize,
    shnum: usize,
    shstrndx: usize,
    names_off: usize,
    names_size: usize,
}

impl ElfShape {
    spec fn plan(self) -> ElfPlan {
        ElfPlan {
            shoff: self.shoff as int,
            shnum: self.shnum as int,
            shstrndx: self.shstrndx as int,
            names_off: self.names_off as int,
            names_size: self.names_size as int,
        }
    }
}

/// Reads what an injection has to know of an ELF stub.
fn read_plan(stub: &[u8]) -> (r: Result<ElfShape, InjectError>)
    ensures
        match elf_plan(stub@) {
            Err(e) => r == Err::<ElfShape, InjectError>(e),
            Ok(p) => r matches Ok(shape) && shape.plan() == p,
        },
{
    broadcast use group_widths;

    if stub.len() < 5 || stub[4] != 2 {
        return Err(InjectError::NotElf64);
    }
    if stub.len() < 6 || stub[5] != 1 {
        return Err(InjectError::NotLittleEndian);
    }
    let shentsize: u16 = match u16_at(stub, 58, 0) {
        Some(v) => v,
        None => return Err(InjectError::Truncated { bits: 16, at: 58 }),
    };
    if shentsize != 64 {
        return Err(InjectError::HeaderSize { size: shentsize as u64 });
    }
    let shnum: u16 = match u16_at(stub, 60, 0) {
        Some(v) => v,
        None => return Err(InjectError::Truncated { bits: 16, at: 60 }),
    };
    let shstrndx: u16 = match u16_at(stub, 62, 0) {
        Some(v) => v,
        None => return Err(InjectError::Truncated { bits: 16, at: 62 }),
    };
    let shoff: u64 = match u64_at(stub, 40, 0) {
        Some(v) => v,
        None => return Err(InjectError::Truncated { bits: 64, at: 40 }),
    };
    if shstrndx >= shnum {
        return Err(InjectError::NoSectionTable);
    }
    let len: usize = stub.len();
    if bytes_at(stub, shoff, shnum as u64 * 64).is_none() {
        return Err(InjectError::TableOutOfRange);
    }
    let hdr: u64 = shoff + shstrndx as u64 * 64;
    let names_off: u64 = match u64_at(stub, hdr, 24) {
        Some(v) => v,
        None => return Err(InjectError::TableOutOfRange),
    };
    let names_size: u64 = match u64_at(stub, hdr, 32) {
        Some(v) => v,
        None => return Err(InjectError::TableOutOfRange),
    };
    if bytes_at(stub, names_off, names_size).is_none() {
        return Err(InjectError::NamesOutOfRange);
    }
    Ok(
        ElfShape {
            shoff: shoff as usize,
            shnum: shnum as usize,
            shstrndx: shstrndx as usize,
            names_off: names_off as usize,
            names_size: names_size as usize,
        },
    )
}

/// Builds the section header of the new section.
fn build_entry(names_size: usize, data_off: usize, size: usize) -> (r: Vec<u8>)
    ensures
        r@ == elf_entry(names_size as int, data_off as int, size as int),
        r@.len() == 64,
{
    let mut entry: Vec<u8> = zeroed(64);
    put_u32(&mut entry, 0, (names_size as u64 % 0x1_0000_0000) as u32);
    put_u32(&mut entry, 4, 1);
    put_u64(&mut entry, 24, data_off as u64);
    put_u64(&mut entry, 32, size as u64);
    put_u64(&mut entry, 48, 1);
    entry
}

/// Adds a section named `.DECMPFS` with this body to an ELF stub.
pub fn inject_elf(stub: &[u8], body: &[u8]) -> (r: Result<Vec<u8>, InjectError>)
    ensures
        match elf_injected(stub@, body@) {
            Err(e) => r == Err::<Vec<u8>, InjectError>(e),
            Ok(image) => r matches Ok(v) && v@ == image,
        },
{
    broadcast use group_widths;

    let shape = match read_plan(stub) {
        Ok(shape) => shape,
        Err(e) => return Err(e),
    };
    let ghost p = shape.plan();
    let len: usize = stub.len();
    let body_len: usize = body.len();
    let data_off: u128 = round_up(len as u128, 8);
    let names_off: u128 = round_up(data_off + body_len as u128, 8);
    let table_off: u128 = round_up(names_off + shape.names_size as u128 + 9, 8);
    let total: u128 = table_off + shape.shnum as u128 * 64 + 64;
    if total > usize::MAX as u128 {
        return Err(InjectError::TooLarge);
    }
    let table_off: usize = table_off as usize;

    let mut out: Vec<u8> = Vec::with_capacity(total as usize);
    append(&mut out, stub);
    put_u64(&mut out, 40, table_off as u64);
    put_u16(&mut out, 60, ((shape.shnum as u64 + 1) % 0x1_0000) as u16);
    assert(out@ == elf_head(stub@, body@, p));
    // The section's data.
    pad_to(&mut out, data_off as usize);
    append(&mut out, body);
    // The grown name table. The new name lies behind the old ones.
    pad_to(&mut out, names_off as usize);
    append(
        &mut out,
        vstd::slice::slice_subrange(stub, shape.names_off, shape.names_off + shape.names_size),
    );
    let name = vec![0x2eu8, 0x44, 0x45, 0x43, 0x4d, 0x50, 0x46, 0x53, 0];
    append(&mut out, name.as_slice());
    let ghost front = out@;
    pad_to(&mut out, table_off);
    let ghost before_table = out@;
    assert(before_table.len() == table_off);
    // The fresh section header table.
    let mut table: Vec<u8> = Vec::with_capacity(shape.shnum * 64 + 64);
    append(
        &mut table,
        vstd::slice::slice_subrange(stub, shape.shoff, shape.shoff + shape.shnum * 64),
    );
    put_u64(&mut table, shape.shstrndx * 64 + 24, names_off as u64);
    put_u64(&mut table, shape.shstrndx * 64 + 32, shape.names_size as u64 + 9);
    let entry = build_entry(shape.names_size, data_off as usize, body_len);
    append(&mut table, entry.as_slice());
    assert(table@ =~= elf_headers_table(stub@, body@, p));
    append(&mut out, table.as_slice());
    proof {
        assert(name@ =~= plain_section_name() + seq![0u8]);
        assert(out@ =~= elf_assembled(stub@, body@, p));
    }
    Ok(out)
}

/// Where the parts of an injected image lie.
proof fn lemma_places(stub: Seq<u8>, body: Seq<u8>, p: ElfPlan)
    requires
        elf_plan(stub) == Ok::<ElfPlan, InjectError>(p),
    ensures
        stub.len() <= elf_data_off(stub),
        elf_data_off(stub) + body.len() <= elf_names_off(stub, body),
        elf_names_off(stub, body) + p.names_size + 9 <= elf_table_off(stub, body, p),
        0 <= p.shoff,
        0 <= p.shstrndx < p.shnum < 0x1_0000,
        0 <= p.names_off,
        0 <= p.names_size,
        p.shoff + p.shnum * 64 <= stub.len(),
        p.names_off + p.names_size <= stub.len(),
        64 <= stub.len(),
        elf_head(stub, body, p).len() == stub.len(),
        elf_names(stub, p).len() == p.names_size + 9,
        elf_headers_table(stub, body, p).len() == p.shnum * 64 + 64,
        elf_assembled(stub, body, p).len() == elf_total(stub, body, p),
{
    broadcast use group_widths;

    lemma_aligned(stub.len() as int, 8);
    lemma_aligned(elf_data_off(stub) + body.len(), 8);
    lemma_aligned(elf_names_off(stub, body) + p.names_size + 9, 8);
}

/// The parts of an injected image are where it says.
proof fn lemma_parts(stub: Seq<u8>, body: Seq<u8>, p: ElfPlan)
    requires
        elf_plan(stub) == Ok::<ElfPlan, InjectError>(p),
    ensures
        ({
            let out = elf_assembled(stub, body, p);
            let names_off = elf_names_off(stub, body);
            let table_off = elf_table_off(stub, body, p);
            &&& out.subrange(0, stub.len() as int) == elf_head(stub, body, p)
            &&& window(out, elf_data_off(stub), body.len() as int) == Some(body)
            &&& window(out, names_off, p.names_size + 9) == Some(elf_names(stub, p))
            &&& out.subrange(table_off, elf_total(stub, body, p)) == elf_headers_table(
                stub,
                body,
                p,
            )
        }),
{
    lemma_places(stub, body, p);
    let out = elf_assembled(stub, body, p);
    assert(out.subrange(0, stub.len() as int) =~= elf_head(stub, body, p));
    let data_off = elf_data_off(stub);
    assert(out.subrange(data_off, data_off + body.len()) =~= body);
    let names_off = elf_names_off(stub, body);
    assert(out.subrange(names_off, names_off + p.names_size + 9) =~= elf_names(stub, p));
    let table_off = elf_table_off(stub, body, p);
    assert(out.subrange(table_off, elf_total(stub, body, p)) =~= elf_headers_table(
        stub,
        body,
        p,
    ));
}

/// What a stretch of a part holds, the image holds where the part lies.
proof fn lemma_nested(out: Seq<u8>, from: int, to: int, at: int, n: int)
    requires
        0 <= from <= from + at,
        0 <= at,
        0 <= n,
        from + at + n <= to <= out.len(),
    ensures
        out.subrange(from + at, from + at + n) == out.subrange(from, to).subrange(at, at + n),
{
    assert(out.subrange(from + at, from + at + n) =~= out.subrange(from, to).subrange(at, at + n));
}

/// The ELF header of an injected image.
proof fn lemma_head(stub: Seq<u8>, body: Seq<u8>, p: ElfPlan)
    requires
        elf_plan(stub) == Ok::<ElfPlan, InjectError>(p),
        stub.take(4) == elf_magic(),
        p.shnum < 0xffff,
        elf_total(stub, body, p) <= usize::MAX,
    ensures
        elf_table(elf_assembled(stub, body, p)) == Some(
            ElfTable {
                wide: true,
                little: true,
                shoff: elf_table_off(stub, body, p),
                shentsize: 64,
                shnum: p.shnum + 1,
                shstrndx: p.shstrndx,
            },
        ),
{
    broadcast use group_widths;

    lemma_places(stub, body, p);
    lemma_parts(stub, body, p);
    let out = elf_assembled(stub, body, p);
    let table_off = elf_table_off(stub, body, p);
    let head = elf_head(stub, body, p);
    let pointed = overwrite(stub, 40, le64_bytes(table_off));
    let len = stub.len() as int;
    assert(head =~= out.subrange(0, len));
    assert(out.take(4) =~= stub.take(4));
    assert(out[4] == head[4] && out[5] == head[5]);
    // e_shoff
    lemma_nested(out, 0, len, 40, 8);
    lemma_overwrite_apart(pointed, 60, le16_bytes((p.shnum + 1) % 0x1_0000), 40, 8);
    lemma_put64(stub, 40, table_off);
    lemma_le64_same(out, 40, pointed, 40);
    // e_shentsize
    lemma_nested(out, 0, len, 58, 2);
    lemma_overwrite_apart(pointed, 60, le16_bytes((p.shnum + 1) % 0x1_0000), 58, 2);
    lemma_overwrite_apart(stub, 40, le64_bytes(table_off), 58, 2);
    lemma_le16_same(out, 58, stub, 58);
    // e_shnum
    lemma_nested(out, 0, len, 60, 2);
    lemma_put16(pointed, 60, p.shnum + 1);
    lemma_le16_same(out, 60, head, 60);
    // e_shstrndx
    lemma_nested(out, 0, len, 62, 2);
    lemma_overwrite_apart(pointed, 60, le16_bytes((p.shnum + 1) % 0x1_0000), 62, 2);
    lemma_overwrite_apart(stub, 40, le64_bytes(table_off), 62, 2);
    lemma_le16_same(out, 62, stub, 62);
}

/// The header of the new section in an injected image.
proof fn lemma_new_entry(stub: Seq<u8>, body: Seq<u8>, p: ElfPlan)
    requires
        elf_plan(stub) == Ok::<ElfPlan, InjectError>(p),
        p.names_size < 0x1_0000_0000,
        elf_total(stub, body, p) <= usize::MAX,
    ensures
        ({
            let out = elf_assembled(stub, body, p);
            let sh = elf_table_off(stub, body, p) + p.shnum * 64;
            &&& le32(out, sh) == p.names_size
            &&& le32(out, sh + 4) == 1
            &&& le64(out, sh + 8) == 0
            &&& le64(out, sh + 24) == elf_data_off(stub)
            &&& le64(out, sh + 32) == body.len()
        }),
{
    broadcast use group_widths;

    lemma_places(stub, body, p);
    lemma_parts(stub, body, p);
    let out = elf_assembled(stub, body, p);
    let base = elf_table_off(stub, body, p);
    let total = elf_total(stub, body, p);
    let table = elf_headers_table(stub, body, p);
    let sh = base + p.shnum * 64;
    let data_off = elf_data_off(stub);
    let size = body.len() as int;
    let entry = elf_entry(p.names_size, data_off, size);
    assert(out.subrange(sh, sh + 64) =~= entry) by {
        lemma_nested(out, base, total, p.shnum * 64, 64);
        assert(table.subrange(p.shnum * 64, p.shnum * 64 + 64) =~= entry);
    }
    lemma_entry(p.names_size, data_off, size);
    lemma_nested(out, sh, sh + 64, 0, 4);
    lemma_le32_same(out, sh, entry, 0);
    lemma_nested(out, sh, sh + 64, 4, 4);
    lemma_le32_same(out, sh + 4, entry, 4);
    lemma_nested(out, sh, sh + 64, 8, 8);
    lemma_le64_same(out, sh + 8, entry, 8);
    lemma_nested(out, sh, sh + 64, 24, 8);
    lemma_le64_same(out, sh + 24, entry, 24);
    lemma_nested(out, sh, sh + 64, 32, 8);
    lemma_le64_same(out, sh + 32, entry, 32);
}

/// What the new section header holds.
proof fn lemma_entry(names_size: int, data_off: int, size: int)
    requires
        0 <= names_size < 0x1_0000_0000,
        0 <= data_off < 0x1_0000_0000_0000_0000,
        0 <= size < 0x1_0000_0000_0000_0000,
    ensures
        ({
            let entry = elf_entry(names_size, data_off, size);
            &&& entry.len() == 64
            &&& le32(entry, 0) == names_size
            &&& le32(entry, 4) == 1
            &&& le64(entry, 8) == 0
            &&& le64(entry, 24) == data_off
            &&& le64(entry, 32) == size
        }),
{
    broadcast use group_widths;

    let blank = zeros(64);
    let named = overwrite(blank, 0, le32_bytes(names_size));
    let typed = overwrite(named, 4, le32_bytes(1));
    let placed = overwrite(typed, 24, le64_bytes(data_off));
    let sized = overwrite(placed, 32, le64_bytes(size));
    let entry = overwrite(sized, 48, le64_bytes(1));
    lemma_put32(blank, 0, names_size);
    assert(entry.subrange(0, 4) =~= named.subrange(0, 4));
    lemma_le32_same(entry, 0, named, 0);
    lemma_put32(named, 4, 1);
    assert(entry.subrange(4, 8) =~= typed.subrange(4, 8));
    lemma_le32_same(entry, 4, typed, 4);
    lemma_put64(typed, 24, data_off);
    assert(entry.subrange(24, 32) =~= placed.subrange(24, 32));
    lemma_le64_same(entry, 24, placed, 24);
    lemma_put64(placed, 32, size);
    assert(entry.subrange(32, 40) =~= sized.subrange(32, 40));
    lemma_le64_same(entry, 32, sized, 32);
    assert(le64(entry, 8) == 0) by {
        assert(entry.subrange(8, 16) =~= zeros(8).subrange(0, 8));
        lemma_le64_same(entry, 8, zeros(8), 0);
        reveal(le64);
        reveal(le32);
        reveal(le16);
    }
}

/// The name table's header in an injected image.
proof fn lemma_names_entry(stub: Seq<u8>, body: Seq<u8>, p: ElfPlan)
    requires
        elf_plan(stub) == Ok::<ElfPlan, InjectError>(p),
        elf_total(stub, body, p) <= usize::MAX,
    ensures
        ({
            let out = elf_assembled(stub, body, p);
            let sh = elf_table_off(stub, body, p) + p.shstrndx * 64;
            &&& le64(out, sh + 24) == elf_names_off(stub, body)
            &&& le64(out, sh + 32) == p.names_size + 9
        }),
{
    broadcast use group_widths;

    lemma_places(stub, body, p);
    lemma_parts(stub, body, p);
    let out = elf_assembled(stub, body, p);
    let base = elf_table_off(stub, body, p);
    let total = elf_total(stub, body, p);
    let table = elf_headers_table(stub, body, p);
    let at = p.shstrndx * 64;
    let old_headers = stub.subrange(p.shoff, p.shoff + p.shnum * 64);
    let moved = overwrite(old_headers, at + 24, le64_bytes(elf_names_off(stub, body)));
    let grown = overwrite(moved, at + 32, le64_bytes(p.names_size + 9));
    lemma_put64(old_headers, at + 24, elf_names_off(stub, body));
    lemma_put64(moved, at + 32, p.names_size + 9);
    lemma_nested(out, base, total, at + 24, 8);
    assert(table.subrange(at + 24, at + 32) =~= moved.subrange(at + 24, at + 32));
    lemma_le64_same(out, base + at + 24, moved, at + 24);
    lemma_nested(out, base, total, at + 32, 8);
    assert(table.subrange(at + 32, at + 40) =~= grown.subrange(at + 32, at + 40));
    lemma_le64_same(out, base + at + 32, grown, at + 32);
}

/// Injecting leaves the sections that a stub has as they are: in the fresh table,
/// the header of every section but the name table is the old one, byte for byte,
/// and the name table keeps its own name and type. The stub's bytes stay where
/// they were, all but the two fields of the ELF header that point at the table, so
/// every header still describes the same data. Behind the old names the name table
/// gains one.
pub proof fn law_elf_keeps_sections(stub: Seq<u8>, body: Seq<u8>, i: int)
    requires
        elf_plan(stub) matches Ok(p) && 0 <= i < p.shnum,
        elf_injected(stub, body) is Ok,
    ensures
        elf_plan(stub) matches Ok(p) && elf_injected(stub, body) matches Ok(out) && {
            let old_header = p.shoff + i * 64;
            let header = elf_table_off(stub, body, p) + i * 64;
            &&& out.len() >= header + 64
            &&& i != p.shstrndx ==> out.subrange(header, header + 64) == stub.subrange(
                old_header,
                old_header + 64,
            )
            &&& out.subrange(header, header + 24) == stub.subrange(old_header, old_header + 24)
            &&& out.subrange(0, 40) == stub.subrange(0, 40)
            &&& out.subrange(48, 60) == stub.subrange(48, 60)
            &&& out.subrange(62, stub.len() as int) == stub.subrange(62, stub.len() as int)
            &&& elf_names(stub, p).take(p.names_size) == stub.subrange(
                p.names_off,
                p.names_off + p.names_size,
            )
        },
{
    broadcast use group_widths;

    let p = elf_plan(stub)->Ok_0;
    lemma_places(stub, body, p);
    lemma_parts(stub, body, p);
    let out = elf_assembled(stub, body, p);
    let base = elf_table_off(stub, body, p);
    let total = elf_total(stub, body, p);
    let table = elf_headers_table(stub, body, p);
    let len = stub.len() as int;
    let old_header = p.shoff + i * 64;
    lemma_nested(out, base, total, i * 64, 64);
    lemma_nested(out, base, total, i * 64, 24);
    if i != p.shstrndx {
        assert(table.subrange(i * 64, i * 64 + 64) =~= stub.subrange(old_header, old_header + 64));
    }
    assert(table.subrange(i * 64, i * 64 + 24) =~= stub.subrange(old_header, old_header + 24));
    let head = elf_head(stub, body, p);
    lemma_nested(out, 0, len, 0, 40);
    assert(head.subrange(0, 40) =~= stub.subrange(0, 40));
    lemma_nested(out, 0, len, 48, 12);
    assert(head.subrange(48, 60) =~= stub.subrange(48, 60));
    lemma_nested(out, 0, len, 62, len - 62);
    assert(head.subrange(62, len) =~= stub.subrange(62, len));
    assert(elf_names(stub, p).take(p.names_size) =~= stub.subrange(
        p.names_off,
        p.names_off + p.names_size,
    ));
}

/// The name of section `i` of a stub, read in the grown name table, is neither
/// outside of it nor `.DECMPFS`.
pub open spec fn named_apart(stub: Seq<u8>, p: ElfPlan, i: int) -> bool {
    let name = le32(stub, p.shoff + i * 64);
    name <= p.names_size + 9 && !string_at(elf_names(stub, p), name, plain_section_name())
}

/// A walk over section headers passes those that are not named `.DECMPFS`.
proof fn lemma_walk(s: Seq<u8>, t: ElfTable, names: Seq<u8>, i: int, n: int)
    requires
        0 <= i <= n <= t.shnum,
        forall|k: int|
            i <= k < n ==> {
                &&& #[trigger] t.header(k) + 4 <= s.len()
                &&& elf32_name(s, t, k) <= names.len()
                &&& !string_at(names, elf32_name(s, t, k), plain_section_name())
            },
    ensures
        elf_headers(s, t, names, i) == elf_headers(s, t, names, n),
    decreases n - i,
{
    if i < n {
        assert(t.header(i) + 4 <= s.len());
        lemma_walk(s, t, names, i + 1, n);
    }
}

/// The name offset in the header of section `k`.
spec fn elf32_name(s: Seq<u8>, t: ElfTable, k: int) -> int {
    crate::section::elf32(s, t.header(k), t.little)
}

/// Reading an injected image gives the injected body back.
pub proof fn law_elf_round_trip(stub: Seq<u8>, body: Seq<u8>)
    requires
        stub.take(4) == elf_magic(),
        elf_injected(stub, body) is Ok,
        elf_plan(stub) matches Ok(p) && {
            &&& p.shnum < 0xffff
            &&& p.names_size < 0x1_0000_0000
            &&& forall|i: int| 0 <= i < p.shnum ==> #[trigger] named_apart(stub, p, i)
        },
    ensures
        elf_injected(stub, body) matches Ok(out) && elf_section(out) == Some(body),
{
    broadcast use group_widths;

    let p = elf_plan(stub)->Ok_0;
    let out = elf_assembled(stub, body, p);
    lemma_places(stub, body, p);
    lemma_parts(stub, body, p);
    lemma_head(stub, body, p);
    lemma_names_entry(stub, body, p);
    lemma_new_entry(stub, body, p);
    let t = elf_table(out)->0;
    let names = elf_names(stub, p);
    assert(t.extent(out, t.header(t.shstrndx)) == Some(names));
    assert forall|k: int| 0 <= k < p.shnum implies {
        &&& #[trigger] t.header(k) + 4 <= out.len()
        &&& elf32_name(out, t, k) <= names.len()
        &&& !string_at(names, elf32_name(out, t, k), plain_section_name())
    } by {
        law_elf_keeps_sections(stub, body, k);
        assert(named_apart(stub, p, k));
        let old_header = p.shoff + k * 64;
        lemma_nested(out, t.header(k), t.header(k) + 24, 0, 4);
        lemma_nested(stub, old_header, old_header + 24, 0, 4);
        lemma_le32_same(out, t.header(k), stub, old_header);
    }
    lemma_walk(out, t, names, 0, p.shnum);
    assert(names.subrange(p.names_size, p.names_size + 8) =~= plain_section_name());
    assert(names[p.names_size + 8] == 0);
    assert(string_at(names, p.names_size, plain_section_name()));
    assert(t.extent(out, t.header(p.shnum)) == Some(body));
}

/// An ELF stub is taken exactly where it is a 64-bit little-endian one with section headers
/// of the usual size, and its section header table and its name table are whole.
pub proof fn law_elf_accepts_whole_tables(stub: Seq<u8>, body: Seq<u8>)
    ensures
        ({
            let shoff = le64(stub, 40);
            let shnum = le16(stub, 60);
            let header = shoff + le16(stub, 62) * 64;
            let names_size = le64(stub, header + 32);
            let data_off = aligned(stub.len() as int, 8);
            let names_off = aligned(data_off + body.len(), 8);
            let wide = stub.len() >= 5 && stub[4] == 2;
            let little = stub.len() >= 6 && stub[5] == 1;
            let listed = stub.len() >= 64 && le16(stub, 58) == 64 && le16(stub, 62) < shnum && shoff
                + shnum * 64 <= stub.len();
            let named = le64(stub, header + 24) + names_size <= stub.len();
            &&& elf_injected(stub, body) is Ok <==> wide && little && listed && named && aligned(
                names_off + names_size + 9,
                8,
            ) + (shnum + 1) * 64 <= usize::MAX
            &&& !wide ==> elf_injected(stub, body) == Err::<Seq<u8>, InjectError>(
                InjectError::NotElf64,
            )
            &&& wide && !little ==> elf_injected(stub, body) == Err::<Seq<u8>, InjectError>(
                InjectError::NotLittleEndian,
            )
            &&& wide && little && listed && !named ==> elf_injected(stub, body) == Err::<
                Seq<u8>,
                InjectError,
            >(InjectError::NamesOutOfRange)
            &&& wide && little && stub.len() >= 64 && le16(stub, 58) != 64 ==> elf_injected(
                stub,
                body,
            ) == Err::<Seq<u8>, InjectError>(
                InjectError::HeaderSize { size: le16(stub, 58) as u64 },
            )
        }),
{
    broadcast use group_widths;

}

/// What the new section header holds, whatever its numbers.
proof fn lemma_entry_rest(names_size: int, data_off: int, size: int)
    ensures
        ({
            let entry = elf_entry(names_size, data_off, size);
            &&& entry.len() == 64
            &&& le32(entry, 0) == names_size % 0x1_0000_0000
            &&& le64(entry, 48) == 1
            &&& forall|j: int| 8 <= j < 24 || 40 <= j < 48 || 56 <= j < 64 ==> #[trigger] entry[j]
                == 0
        }),
{
    broadcast use group_widths;

    let blank = zeros(64);
    let named = overwrite(blank, 0, le32_bytes(names_size % 0x1_0000_0000));
    let typed = overwrite(named, 4, le32_bytes(1));
    let placed = overwrite(typed, 24, le64_bytes(data_off));
    let sized = overwrite(placed, 32, le64_bytes(size));
    let entry = overwrite(sized, 48, le64_bytes(1));
    lemma_put32(blank, 0, names_size % 0x1_0000_0000);
    assert(entry.subrange(0, 4) =~= named.subrange(0, 4));
    lemma_le32_same(entry, 0, named, 0);
    lemma_put64(sized, 48, 1);
}

/// Behind the stub's bytes come the body, the old names with `.DECMPFS`, and the fresh table,
/// each from the next multiple of eight on, and nothing else but zeros. The ELF header is
/// pointed at the table and counts one entry more.
pub proof fn law_elf_section_is_appended(stub: Seq<u8>, body: Seq<u8>)
    requires
        elf_injected(stub, body) is Ok,
    ensures
        elf_injected(stub, body) matches Ok(out) && {
            let shoff = le64(stub, 40);
            let shnum = le16(stub, 60);
            let header = shoff + le16(stub, 62) * 64;
            let old_off = le64(stub, header + 24);
            let names_size = le64(stub, header + 32);
            let data_off = aligned(stub.len() as int, 8);
            let names_off = aligned(data_off + body.len(), 8);
            let table = aligned(names_off + names_size + 9, 8);
            &&& out.len() == table + (shnum + 1) * 64
            &&& le64(out, 40) == table
            &&& le16(out, 60) == (shnum + 1) % 0x1_0000
            &&& out.subrange(data_off, data_off + body.len()) == body
            &&& out.subrange(names_off, names_off + names_size) == stub.subrange(
                old_off,
                old_off + names_size,
            )
            &&& out.subrange(names_off + names_size, names_off + names_size + 9) == seq![
                0x2eu8, 0x44, 0x45, 0x43, 0x4d, 0x50, 0x46, 0x53, 0,
            ]
            &&& forall|j: int|
                stub.len() <= j < data_off || data_off + body.len() <= j < names_off || names_off
                    + names_size + 9 <= j < table ==> #[trigger] out[j] == 0
            &&& le64(out, table + le16(stub, 62) * 64 + 24) == names_off
            &&& le64(out, table + le16(stub, 62) * 64 + 32) == names_size + 9
        },
{
    broadcast use group_widths;

    let p = elf_plan(stub)->Ok_0;
    let out = elf_assembled(stub, body, p);
    lemma_places(stub, body, p);
    lemma_parts(stub, body, p);
    lemma_names_entry(stub, body, p);
    let len = stub.len() as int;
    let table = elf_table_off(stub, body, p);
    let names_off = elf_names_off(stub, body);
    let head = elf_head(stub, body, p);
    let pointed = overwrite(stub, 40, le64_bytes(table));
    lemma_nested(out, 0, len, 40, 8);
    lemma_overwrite_apart(pointed, 60, le16_bytes((p.shnum + 1) % 0x1_0000), 40, 8);
    lemma_put64(stub, 40, table);
    lemma_le64_same(out, 40, pointed, 40);
    lemma_nested(out, 0, len, 60, 2);
    lemma_put16(pointed, 60, (p.shnum + 1) % 0x1_0000);
    lemma_le16_same(out, 60, head, 60);
    let names = elf_names(stub, p);
    let to = names_off + p.names_size + 9;
    lemma_nested(out, names_off, to, 0, p.names_size);
    lemma_nested(out, names_off, to, p.names_size, 9);
    assert(names.subrange(0, p.names_size) =~= stub.subrange(
        p.names_off,
        p.names_off + p.names_size,
    ));
    assert(names.subrange(p.names_size, p.names_size + 9) =~= seq![
        0x2eu8, 0x44, 0x45, 0x43, 0x4d, 0x50, 0x46, 0x53, 0,
    ]);
}

/// The new section header is the last one of the fresh table.
proof fn lemma_entry_place(stub: Seq<u8>, body: Seq<u8>, p: ElfPlan)
    requires
        elf_plan(stub) == Ok::<ElfPlan, InjectError>(p),
    ensures
        ({
            let sh = elf_table_off(stub, body, p) + p.shnum * 64;
            elf_assembled(stub, body, p).subrange(sh, sh + 64) == elf_entry(
                p.names_size,
                elf_data_off(stub),
                body.len() as int,
            )
        }),
{
    lemma_places(stub, body, p);
    lemma_parts(stub, body, p);
    let out = elf_assembled(stub, body, p);
    let base = elf_table_off(stub, body, p);
    let entry = elf_entry(p.names_size, elf_data_off(stub), body.len() as int);
    let table = elf_headers_table(stub, body, p);
    lemma_nested(out, base, elf_total(stub, body, p), p.shnum * 64, 64);
    assert(table.subrange(p.shnum * 64, p.shnum * 64 + 64) =~= entry);
}

/// The new section header reads the same in the image.
proof fn lemma_entry_reads(out: Seq<u8>, sh: int, names_size: int, data_off: int, size: int)
    requires
        0 <= sh,
        sh + 64 <= out.len(),
        0 <= data_off < 0x1_0000_0000_0000_0000,
        0 <= size < 0x1_0000_0000_0000_0000,
        out.subrange(sh, sh + 64) == elf_entry(names_size, data_off, size),
    ensures
        le32(out, sh) == names_size % 0x1_0000_0000,
        le32(out, sh + 4) == 1,
        le64(out, sh + 24) == data_off,
        le64(out, sh + 32) == size,
        le64(out, sh + 48) == 1,
        forall|j: int| 8 <= j < 24 || 40 <= j < 48 || 56 <= j < 64 ==> out[#[trigger] (sh + j)] == 0,
{
    let entry = elf_entry(names_size, data_off, size);
    lemma_entry_rest(names_size, data_off, size);
    lemma_entry(names_size % 0x1_0000_0000, data_off, size);
    assert(elf_entry(names_size % 0x1_0000_0000, data_off, size) == entry);
    lemma_nested(out, sh, sh + 64, 0, 4);
    lemma_le32_same(out, sh, entry, 0);
    lemma_nested(out, sh, sh + 64, 4, 4);
    lemma_le32_same(out, sh + 4, entry, 4);
    lemma_nested(out, sh, sh + 64, 24, 8);
    lemma_le64_same(out, sh + 24, entry, 24);
    lemma_nested(out, sh, sh + 64, 32, 8);
    lemma_le64_same(out, sh + 32, entry, 32);
    lemma_nested(out, sh, sh + 64, 48, 8);
    lemma_le64_same(out, sh + 48, entry, 48);
    assert forall|j: int| 8 <= j < 24 || 40 <= j < 48 || 56 <= j < 64 implies out[#[trigger] (sh
        + j)] == 0 by {
        assert(out.subrange(sh, sh + 64)[j] == out[sh + j]);
    }
}

/// The last entry of the fresh table is the new section's: named by what the name table has
/// gained, of the kind that holds program data, not loaded, in one piece where the body is.
pub proof fn law_elf_new_header(stub: Seq<u8>, body: Seq<u8>)
    requires
        elf_injected(stub, body) is Ok,
    ensures
        elf_injected(stub, body) matches Ok(out) && {
            let sh = out.len() - 64;
            let header = le64(stub, 40) + le16(stub, 62) * 64;
            &&& sh == le64(out, 40) + le16(stub, 60) * 64
            &&& le32(out, sh) == le64(stub, header + 32) % 0x1_0000_0000
            &&& le32(out, sh + 4) == 1
            &&& le64(out, sh + 24) == aligned(stub.len() as int, 8)
            &&& le64(out, sh + 32) == body.len()
            &&& le64(out, sh + 48) == 1
            &&& forall|j: int| 8 <= j < 24 || 40 <= j < 48 || 56 <= j < 64 ==> out[#[trigger] (sh
                + j)] == 0
        },
{
    broadcast use group_widths;

    let p = elf_plan(stub)->Ok_0;
    let out = elf_assembled(stub, body, p);
    law_elf_section_is_appended(stub, body);
    lemma_places(stub, body, p);
    lemma_parts(stub, body, p);
    lemma_entry_place(stub, body, p);
    lemma_entry_reads(
        out,
        elf_table_off(stub, body, p) + p.shnum * 64,
        p.names_size,
        elf_data_off(stub),
        body.len() as int,
    );
}

/// An ELF stub that is cut short is refused for the first field that is missing, and one whose
/// section header table is not there, or not whole, for that.
pub proof fn law_elf_refuses_missing_tables(stub: Seq<u8>, body: Seq<u8>)
    requires
        stub.len() >= 6,
        stub[4] == 2,
        stub[5] == 1,
    ensures
        ({
            let refused = elf_injected(stub, body);
            &&& stub.len() < 60 ==> refused == Err::<Seq<u8>, InjectError>(
                InjectError::Truncated { bits: 16, at: 58 },
            )
            &&& le16(stub, 58) == 64 && 60 <= stub.len() < 62 ==> refused == Err::<
                Seq<u8>,
                InjectError,
            >(InjectError::Truncated { bits: 16, at: 60 })
            &&& le16(stub, 58) == 64 && 62 <= stub.len() < 64 ==> refused == Err::<
                Seq<u8>,
                InjectError,
            >(InjectError::Truncated { bits: 16, at: 62 })
            &&& le16(stub, 58) == 64 && stub.len() >= 64 && le16(stub, 62) >= le16(stub, 60)
                ==> refused == Err::<Seq<u8>, InjectError>(InjectError::NoSectionTable)
            &&& le16(stub, 58) == 64 && stub.len() >= 64 && le16(stub, 62) < le16(stub, 60) && le64(
                stub,
                40,
            ) + le16(stub, 60) * 64 > stub.len() ==> refused == Err::<Seq<u8>, InjectError>(
                InjectError::TableOutOfRange,
            )
        }),
{
}

} // verus!
