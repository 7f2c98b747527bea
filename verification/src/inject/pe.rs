//! Injecting into a PE image.
//!
//! One more section header goes into the slack behind the section table, and the
//! raw data to the end of the file.

use vstd::prelude::*;

use crate::bytes::{aligned, append, bytes_at, group_widths, le16, le16_bytes, le32, le32_bytes,
    lemma_aligned, lemma_le16_same, lemma_le32_same, lemma_put16, lemma_put32, overwrite, pad_to,
    put_bytes, put_u16, put_u32, round_up, same_bytes, window, zeros};
use crate::inject::error::InjectError;
use crate::inject::fields::{need16, need32, u16_le, u32_le};
use crate::section::{dos_magic, nt_signature, pe_headers, pe_section, plain_section_name,
    slot_holds};

verus! {

/// What an injection has to know of a PE stub.
pub struct PePlan {
    /// Where the NT signature is.
    pub pe: int,
    pub num_sections: int,
    pub opt_size: int,
    pub section_align: int,
    pub file_align: int,
    /// The end of the highest section in memory.
    pub va_end: int,
}

impl PePlan {
    /// Where the section table starts.
    pub open spec fn table(self) -> int {
        self.pe + 24 + self.opt_size
    }

    /// Where the header of section `i` starts.
    pub open spec fn header(self, i: int) -> int {
        self.table() + i * 40
    }

    /// Where the new section header goes.
    pub open spec fn new_header(self) -> int {
        self.header(self.num_sections)
    }
}

/// The end in memory of the highest of the sections from `i` to `n`, given the
/// highest so far. The section table is at `table`.
pub open spec fn pe_va_end(
    stub: Seq<u8>,
    table: int,
    i: int,
    n: int,
    highest: int,
) -> Result<int, InjectError>
    decreases n - i,
{
    if i >= n {
        Ok(highest)
    } else {
        let sh = table + i * 40;
        match need32(stub, sh + 12) {
            Err(e) => Err(e),
            Ok(va) => {
                let end = va + le32(stub, sh + 8);
                pe_va_end(
                    stub,
                    table,
                    i + 1,
                    n,
                    if end > highest {
                        end
                    } else {
                        highest
                    },
                )
            },
        }
    }
}

/// What the headers behind the NT signature at `pe` say, or why they are refused.
pub open spec fn pe_headers_plan(stub: Seq<u8>, pe: int) -> Result<PePlan, InjectError> {
    match (
        need16(stub, pe + 6),
        need16(stub, pe + 20),
        need32(stub, pe + 56),
        need32(stub, pe + 60),
        need32(stub, pe + 84),
    ) {
        (Err(e), _, _, _, _) => Err(e),
        (_, Err(e), _, _, _) => Err(e),
        (_, _, Err(e), _, _) => Err(e),
        (_, _, _, Err(e), _) => Err(e),
        (Ok(num_sections), Ok(opt_size), Ok(section_align), Ok(file_align), size_of_headers) => {
            let table = pe + 24 + opt_size;
            if section_align == 0 || file_align == 0 {
                Err(InjectError::ZeroAlignment)
            } else {
                match size_of_headers {
                    Err(e) => Err(e),
                    Ok(size) => if table + num_sections * 40 + 40 > size {
                        Err(InjectError::NoSectionSlack)
                    } else {
                        match pe_va_end(stub, table, 0, num_sections, 0) {
                            Err(e) => Err(e),
                            Ok(va_end) => Ok(
                                PePlan {
                                    pe,
                                    num_sections,
                                    opt_size,
                                    section_align,
                                    file_align,
                                    va_end,
                                },
                            ),
                        }
                    },
                }
            }
        },
    }
}

/// What an injection has to know of a PE stub, or why it is refused.
pub open spec fn pe_plan(stub: Seq<u8>) -> Result<PePlan, InjectError> {
    match need32(stub, 0x3c) {
        Err(e) => Err(e),
        Ok(pe) => if window(stub, pe, 4) != Some(nt_signature()) {
            Err(InjectError::BadNtSignature)
        } else {
            pe_headers_plan(stub, pe)
        },
    }
}

/// Where the section's raw data starts in the result.
pub open spec fn pe_data_off(stub: Seq<u8>, p: PePlan) -> int {
    aligned(stub.len() as int, p.file_align)
}

/// How much raw data the section has in the result.
pub open spec fn pe_data_size(body: Seq<u8>, p: PePlan) -> int {
    aligned(body.len() as int, p.file_align)
}

/// Where the section goes in memory.
pub open spec fn pe_va(p: PePlan) -> int {
    aligned(p.va_end, p.section_align)
}

/// The length of the result.
pub open spec fn pe_total(stub: Seq<u8>, body: Seq<u8>, p: PePlan) -> int {
    pe_data_off(stub, p) + pe_data_size(body, p)
}

/// The stub and the section's raw data, which is padded to the file alignment.
pub open spec fn pe_grown(stub: Seq<u8>, body: Seq<u8>, p: PePlan) -> Seq<u8> {
    stub + zeros(pe_data_off(stub, p) - stub.len()) + body + zeros(
        pe_data_size(body, p) - body.len(),
    )
}

/// `s` with the new section header written at `at`: its name, its length and its
/// address in memory, its length and its offset on disk, and its flags for
/// initialized, readable data.
pub open spec fn pe_with_header(s: Seq<u8>, at: int, body: int, va: int, size: int, off: int) -> Seq<
    u8,
> {
    let named = overwrite(s, at, plain_section_name());
    let long = overwrite(named, at + 8, le32_bytes(body % 0x1_0000_0000));
    let mapped = overwrite(long, at + 12, le32_bytes(va % 0x1_0000_0000));
    let sized = overwrite(mapped, at + 16, le32_bytes(size % 0x1_0000_0000));
    let placed = overwrite(sized, at + 20, le32_bytes(off % 0x1_0000_0000));
    overwrite(placed, at + 36, le32_bytes(0x4000_0040))
}

/// The grown stub with the new section header, one more section, and the size of
/// the image in memory.
pub open spec fn pe_assembled(stub: Seq<u8>, body: Seq<u8>, p: PePlan) -> Seq<u8> {
    let headed = pe_with_header(
        pe_grown(stub, body, p),
        p.new_header(),
        body.len() as int,
        pe_va(p),
        pe_data_size(body, p),
        pe_data_off(stub, p),
    );
    let counted = overwrite(headed, p.pe + 6, le16_bytes((p.num_sections + 1) % 0x1_0000));
    overwrite(
        counted,
        p.pe + 80,
        le32_bytes(aligned(pe_va(p) + body.len(), p.section_align) % 0x1_0000_0000),
    )
}

/// The stub with the section injected, or why it is refused.
pub open spec fn pe_injected(stub: Seq<u8>, body: Seq<u8>) -> Result<Seq<u8>, InjectError> {
    match pe_plan(stub) {
        Err(e) => Err(e),
        Ok(p) => if pe_total(stub, body, p) > usize::MAX {
            Err(InjectError::TooLarge)
        } else if p.new_header() + 40 > pe_total(stub, body, p) {
            Err(InjectError::HeadersOutOfRange)
        } else {
            Ok(pe_assembled(stub, body, p))
        },
    }
}

/// The plan's fields as machine numbers.
struct PeShape {
    pe: u64,
    num_sections: u16,
    opt_size: u16,
    section_align: u32,
    file_align: u32,
    va_end: u64,
}

impl PeShape {
    spec fn plan(self) -> PePlan {
        PePlan {
            pe: self.pe as int,
            num_sections: self.num_sections as int,
            opt_size: self.opt_size as int,
            section_align: self.section_align as int,
            file_align: self.file_align as int,
            va_end: self.va_end as int,
        }
    }

    /// The numbers are in the ranges of the fields that they were read from.
    spec fn wf(self) -> bool {
        &&& self.pe <= 0xffff_ffff
        &&& self.va_end <= 0x1_ffff_fffe
        &&& self.section_align > 0
        &&& self.file_align > 0
    }
}

/// Reads what an injection has to know of a PE stub.
fn read_plan(stub: &[u8]) -> (r: Result<PeShape, InjectError>)
    ensures
        match pe_plan(stub@) {
            Err(e) => r == Err::<PeShape, InjectError>(e),
            Ok(p) => r matches Ok(shape) && shape.plan() == p && shape.wf(),
        },
{
    broadcast use group_widths;

    let pe: u64 = match u32_le(stub, 0x3c) {
        Ok(v) => v as u64,
        Err(e) => return Err(e),
    };
    let nt = vec![0x50u8, 0x45, 0, 0];
    assert(nt@ =~= nt_signature());
    match bytes_at(stub, pe, 4) {
        Some(signature) => if !same_bytes(signature, nt.as_slice()) {
            return Err(InjectError::BadNtSignature);
        },
        None => return Err(InjectError::BadNtSignature),
    }
    let num_sections: u16 = match u16_le(stub, pe + 6) {
        Ok(v) => v,
        Err(e) => return Err(e),
    };
    let opt_size: u16 = match u16_le(stub, pe + 20) {
        Ok(v) => v,
        Err(e) => return Err(e),
    };
    let section_align: u32 = match u32_le(stub, pe + 56) {
        Ok(v) => v,
        Err(e) => return Err(e),
    };
    let file_align: u32 = match u32_le(stub, pe + 60) {
        Ok(v) => v,
        Err(e) => return Err(e),
    };
    if section_align == 0 || file_align == 0 {
        return Err(InjectError::ZeroAlignment);
    }
    let size_of_headers: u32 = match u32_le(stub, pe + 84) {
        Ok(v) => v,
        Err(e) => return Err(e),
    };
    let table: u64 = pe + 24 + opt_size as u64;
    if table + num_sections as u64 * 40 + 40 > size_of_headers as u64 {
        return Err(InjectError::NoSectionSlack);
    }
    let mut highest: u64 = 0;
    let mut i: u16 = 0;
    while i < num_sections
        invariant
            i <= num_sections,
            table <= 0xffff_ffff + 24 + 0xffff,
            highest <= 0x1_ffff_fffe,
            pe_va_end(stub@, table as int, 0, num_sections as int, 0) matches Err(e) ==> pe_plan(
                stub@,
            ) == Err::<PePlan, InjectError>(e),
            pe_va_end(stub@, table as int, 0, num_sections as int, 0) == pe_va_end(
                stub@,
                table as int,
                i as int,
                num_sections as int,
                highest as int,
            ),
        decreases num_sections - i,
    {
        broadcast use group_widths;

        let sh: u64 = table + i as u64 * 40;
        let va: u32 = match u32_le(stub, sh + 12) {
            Ok(v) => v,
            Err(e) => return Err(e),
        };
        let vsize: u32 = match u32_le(stub, sh + 8) {
            Ok(v) => v,
            Err(e) => return Err(e),
        };
        let end: u64 = va as u64 + vsize as u64;
        if end > highest {
            highest = end;
        }
        i += 1;
    }
    Ok(PeShape { pe, num_sections, opt_size, section_align, file_align, va_end: highest })
}

/// Writes the new section header.
fn write_header(out: &mut Vec<u8>, at: usize, body: u128, va: u128, size: u128, off: u128)
    requires
        at + 40 <= old(out)@.len(),
    ensures
        final(out)@ == pe_with_header(
            old(out)@,
            at as int,
            body as int,
            va as int,
            size as int,
            off as int,
        ),
{
    let name = vec![0x2eu8, 0x44, 0x45, 0x43, 0x4d, 0x50, 0x46, 0x53];
    let len: usize = out.len();
    assert(name@ =~= plain_section_name());
    put_bytes(out, at, name.as_slice());
    put_u32(out, at + 8, (body % 0x1_0000_0000) as u32);
    put_u32(out, at + 12, (va % 0x1_0000_0000) as u32);
    put_u32(out, at + 16, (size % 0x1_0000_0000) as u32);
    put_u32(out, at + 20, (off % 0x1_0000_0000) as u32);
    put_u32(out, at + 36, 0x4000_0040);
}

/// Adds a section named `.DECMPFS` with this body to a PE stub.
pub fn inject_pe(stub: &[u8], body: &[u8]) -> (r: Result<Vec<u8>, InjectError>)
    ensures
        match pe_injected(stub@, body@) {
            Err(e) => r == Err::<Vec<u8>, InjectError>(e),
            Ok(image) => r matches Ok(v) && v@ == image,
        },
{
    broadcast use group_widths;

    let shape = match read_plan(stub) {
        Ok(shape) => shape,
        Err(e) => return Err(e),
    };
    let ghost p = shape.plan();
    let len: usize = stub.len();
    let body_len: usize = body.len();
    let data_off: u128 = round_up(len as u128, shape.file_align as u128);
    let data_size: u128 = round_up(body_len as u128, shape.file_align as u128);
    let total: u128 = data_off + data_size;
    if total > usize::MAX as u128 {
        return Err(InjectError::TooLarge);
    }
    let new_header: u64 = shape.pe + 24 + shape.opt_size as u64 + shape.num_sections as u64 * 40;
    if (new_header + 40) as u128 > total {
        return Err(InjectError::HeadersOutOfRange);
    }
    // The section goes behind the highest one in memory.
    let va: u128 = round_up(shape.va_end as u128, shape.section_align as u128);
    let image_size: u128 = round_up(va + body_len as u128, shape.section_align as u128);

    let mut out: Vec<u8> = Vec::with_capacity(total as usize);
    append(&mut out, stub);
    pad_to(&mut out, data_off as usize);
    append(&mut out, body);
    pad_to(&mut out, total as usize);
    assert(out@ =~= pe_grown(stub@, body@, p));
    write_header(&mut out, new_header as usize, body_len as u128, va, data_size, data_off);
    put_u16(
        &mut out,
        shape.pe as usize + 6,
        ((shape.num_sections as u32 + 1) % 0x1_0000) as u16,
    );
    put_u32(&mut out, shape.pe as usize + 80, (image_size % 0x1_0000_0000) as u32);
    Ok(out)
}

/// Two stretches of an image have no byte in common.
pub open spec fn apart(a: int, n: int, b: int, m: int) -> bool {
    a + n <= b || b + m <= a
}

/// Injecting changes nothing of a stub but one header's room, the number of
/// sections and the size of the image in memory: every other byte stays where it
/// was, so the sections that the stub has keep their headers and their data.
pub proof fn law_pe_keeps_bytes(stub: Seq<u8>, body: Seq<u8>, j: int)
    requires
        pe_injected(stub, body) is Ok,
        0 <= j < stub.len(),
        pe_plan(stub) matches Ok(p) && apart(j, 1, p.new_header(), 40) && apart(j, 1, p.pe + 6, 2)
            && apart(j, 1, p.pe + 80, 4),
    ensures
        pe_injected(stub, body) matches Ok(out) && out.len() >= stub.len() && out[j] == stub[j],
{
    broadcast use group_widths;

    let p = pe_plan(stub)->Ok_0;
    lemma_plan_ranges(stub, p);
    lemma_aligned(stub.len() as int, p.file_align);
    lemma_aligned(body.len() as int, p.file_align);
}

/// The ranges of a plan's fields.
proof fn lemma_plan_ranges(stub: Seq<u8>, p: PePlan)
    requires
        pe_plan(stub) == Ok::<PePlan, InjectError>(p),
    ensures
        0 <= p.pe,
        p.pe == le32(stub, 0x3c),
        p.pe + 88 <= stub.len(),
        stub.len() >= 0x40,
        p.num_sections == le16(stub, p.pe + 6),
        p.opt_size == le16(stub, p.pe + 20),
        0 <= p.num_sections < 0x1_0000,
        0 <= p.opt_size,
        0 < p.section_align < 0x1_0000_0000,
        0 < p.file_align < 0x1_0000_0000,
        stub.subrange(p.pe, p.pe + 4) == nt_signature(),
{
    broadcast use group_widths;

}

/// What the written section header holds.
proof fn lemma_header(s: Seq<u8>, at: int, body: int, va: int, size: int, off: int)
    requires
        0 <= at,
        at + 40 <= s.len(),
        0 <= body < 0x1_0000_0000,
        0 <= size < 0x1_0000_0000,
        0 <= off < 0x1_0000_0000,
    ensures
        ({
            let t = pe_with_header(s, at, body, va, size, off);
            &&& t.len() == s.len()
            &&& t.subrange(at, at + 8) == plain_section_name()
            &&& le32(t, at + 8) == body
            &&& le32(t, at + 16) == size
            &&& le32(t, at + 20) == off
            &&& forall|j: int| 0 <= j < s.len() && apart(j, 1, at, 40) ==> t[j] == s[j]
        }),
{
    broadcast use group_widths;

    let named = overwrite(s, at, plain_section_name());
    let long = overwrite(named, at + 8, le32_bytes(body));
    let mapped = overwrite(long, at + 12, le32_bytes(va % 0x1_0000_0000));
    let sized = overwrite(mapped, at + 16, le32_bytes(size));
    let placed = overwrite(sized, at + 20, le32_bytes(off));
    let t = overwrite(placed, at + 36, le32_bytes(0x4000_0040));
    assert(t == pe_with_header(s, at, body, va, size, off));
    assert(t.subrange(at, at + 8) =~= plain_section_name());
    lemma_put32(named, at + 8, body);
    assert(t.subrange(at + 8, at + 12) =~= long.subrange(at + 8, at + 12));
    lemma_le32_same(t, at + 8, long, at + 8);
    lemma_put32(mapped, at + 16, size);
    assert(t.subrange(at + 16, at + 20) =~= sized.subrange(at + 16, at + 20));
    lemma_le32_same(t, at + 16, sized, at + 16);
    lemma_put32(sized, at + 20, off);
    assert(t.subrange(at + 20, at + 24) =~= placed.subrange(at + 20, at + 24));
    lemma_le32_same(t, at + 20, placed, at + 20);
}

/// A walk over section headers passes those that are not named `.DECMPFS`.
proof fn lemma_walk(s: Seq<u8>, p: PePlan, i: int, n: int, total: int)
    requires
        0 <= i <= n <= total,
        p.header(n) <= s.len(),
        forall|k: int|
            i <= k < n ==> !slot_holds(
                s.subrange(#[trigger] p.header(k), p.header(k) + 8),
                plain_section_name(),
            ),
    ensures
        pe_headers(s, p.header(i), total - i) == pe_headers(s, p.header(n), total - n),
    decreases n - i,
{
    if i < n {
        assert(p.header(i + 1) == p.header(i) + 40);
        assert(p.header(i) + 8 <= s.len());
        lemma_walk(s, p, i + 1, n, total);
    }
}

/// Where the section's place can be written down: its header touches neither the
/// section's own data nor a field that leads to it, and its length and offset fit
/// their fields.
pub open spec fn pe_has_place(stub: Seq<u8>, body: Seq<u8>, p: PePlan) -> bool {
    &&& p.num_sections < 0xffff
    &&& pe_data_size(body, p) < 0x1_0000_0000
    &&& pe_data_off(stub, p) < 0x1_0000_0000
    &&& apart(p.new_header(), 40, pe_data_off(stub, p), body.len() as int)
    &&& apart(p.new_header(), 24, p.pe + 80, 4)
    &&& apart(p.new_header(), 40, 0x3c, 4)
    &&& apart(p.pe + 6, 2, 0x3c, 4)
}

/// Reading an injected image gives the injected body back, without the padding of
/// its raw data.
pub proof fn law_pe_round_trip(stub: Seq<u8>, body: Seq<u8>)
    requires
        stub.take(2) == dos_magic(),
        pe_injected(stub, body) is Ok,
        pe_plan(stub) matches Ok(p) && pe_has_place(stub, body, p) && forall|i: int|
            0 <= i < p.num_sections ==> !slot_holds(
                pe_assembled(stub, body, p).subrange(#[trigger] p.header(i), p.header(i) + 8),
                plain_section_name(),
            ),
    ensures
        pe_injected(stub, body) matches Ok(out) && pe_section(out) == Some(body),
{
    broadcast use group_widths;

    let p = pe_plan(stub)->Ok_0;
    lemma_plan_ranges(stub, p);
    lemma_aligned(stub.len() as int, p.file_align);
    lemma_aligned(body.len() as int, p.file_align);
    let pe = p.pe;
    let at = p.new_header();
    let len = body.len() as int;
    let off = pe_data_off(stub, p);
    let size = pe_data_size(body, p);
    let grown = pe_grown(stub, body, p);
    let headed = pe_with_header(grown, at, len, pe_va(p), size, off);
    let counted = overwrite(headed, pe + 6, le16_bytes((p.num_sections + 1) % 0x1_0000));
    let out = pe_assembled(stub, body, p);
    assert(grown.len() == pe_total(stub, body, p));
    lemma_header(grown, at, len, pe_va(p), size, off);
    // The way to the section table.
    assert(out.take(2) =~= stub.take(2));
    assert(out.subrange(0x3c, 0x40) =~= stub.subrange(0x3c, 0x40));
    lemma_le32_same(out, 0x3c, stub, 0x3c);
    assert(out.subrange(pe, pe + 4) =~= stub.subrange(pe, pe + 4));
    lemma_put16(headed, pe + 6, p.num_sections + 1);
    assert(out.subrange(pe + 6, pe + 8) =~= counted.subrange(pe + 6, pe + 8));
    lemma_le16_same(out, pe + 6, counted, pe + 6);
    assert(out.subrange(pe + 20, pe + 22) =~= stub.subrange(pe + 20, pe + 22));
    lemma_le16_same(out, pe + 20, stub, pe + 20);
    assert(p.header(0) == p.table());
    lemma_walk(out, p, 0, p.num_sections, p.num_sections + 1);
    // The new header.
    assert(out.subrange(at, at + 8) =~= headed.subrange(at, at + 8));
    assert(plain_section_name().take(8) =~= plain_section_name());
    assert(out.subrange(at + 8, at + 12) =~= headed.subrange(at + 8, at + 12));
    lemma_le32_same(out, at + 8, headed, at + 8);
    assert(out.subrange(at + 16, at + 20) =~= headed.subrange(at + 16, at + 20));
    lemma_le32_same(out, at + 16, headed, at + 16);
    assert(out.subrange(at + 20, at + 24) =~= headed.subrange(at + 20, at + 24));
    lemma_le32_same(out, at + 20, headed, at + 20);
    // The data.
    assert(out.subrange(off, off + len) =~= body);
}

} // verus!
