//! What an injected PE image holds, byte by byte.

use vstd::prelude::*;

use crate::bytes::{aligned, group_widths, law_aligned_is_least_multiple, le16, le16_bytes, le32,
    le32_bytes, lemma_aligned, lemma_le16_same, lemma_le32_same, lemma_put16, lemma_put32,
    overwrite};
use crate::inject::error::InjectError;
use crate::inject::pe::{apart, pe_assembled, pe_data_off, pe_data_size, pe_grown, pe_injected,
    pe_plan, pe_total, pe_va, pe_va_end, pe_with_header, PePlan};

verus! {

/// Where the section table of a PE image starts.
pub open spec fn section_table(s: Seq<u8>) -> int {
    le32(s, 0x3c) + 24 + le16(s, le32(s, 0x3c) + 20)
}

/// The highest end in memory is not below that of any section, and it is that of one, if it
/// is not what the search started from.
proof fn lemma_va_end(s: Seq<u8>, table: int, i: int, n: int, highest: int)
    requires
        0 <= i <= n,
        0 <= table,
    ensures
        pe_va_end(s, table, i, n, highest) matches Ok(end) ==> {
            &&& highest <= end
            &&& forall|k: int|
                i <= k < n ==> #[trigger] le32(s, table + k * 40 + 12) + le32(
                    s,
                    table + k * 40 + 8,
                ) <= end
            &&& end == highest || exists|k: int|
                i <= k < n && end == #[trigger] le32(s, table + k * 40 + 12) + le32(
                    s,
                    table + k * 40 + 8,
                )
            &&& i < n ==> table + (n - 1) * 40 + 16 <= s.len()
        },
        i == n || table + (n - 1) * 40 + 16 <= s.len() ==> pe_va_end(s, table, i, n, highest) is Ok,
    decreases n - i,
{
    if i < n {
        let end = le32(s, table + i * 40 + 12) + le32(s, table + i * 40 + 8);
        let next = if end > highest {
            end
        } else {
            highest
        };
        lemma_va_end(s, table, i + 1, n, next);
    }
}

/// What an injection reads of a PE stub is what its headers say: the signature is where
/// the DOS header points, the fields are at their places in the headers behind it, and the
/// end in memory is that of the highest section.
pub proof fn law_pe_plan_reads_headers(stub: Seq<u8>)
    ensures
        pe_plan(stub) matches Ok(p) ==> {
            let pe = le32(stub, 0x3c);
            let n = le16(stub, pe + 6);
            let table = pe + 24 + le16(stub, pe + 20);
            &&& p.pe == pe
            &&& stub.subrange(pe, pe + 4) == seq![0x50u8, 0x45, 0, 0]
            &&& p.num_sections == n
            &&& p.table() == table
            &&& p.new_header() == table + n * 40
            &&& p.section_align == le32(stub, pe + 56) && p.section_align > 0
            &&& p.file_align == le32(stub, pe + 60) && p.file_align > 0
            &&& forall|i: int|
                0 <= i < n ==> #[trigger] le32(stub, table + i * 40 + 12) + le32(
                    stub,
                    table + i * 40 + 8,
                ) <= p.va_end
            &&& p.va_end == 0 || exists|i: int|
                0 <= i < n && p.va_end == #[trigger] le32(stub, table + i * 40 + 12) + le32(
                    stub,
                    table + i * 40 + 8,
                )
        },
{
    broadcast use group_widths;

    if pe_plan(stub) is Ok {
        let pe = le32(stub, 0x3c);
        lemma_va_end(stub, pe + 24 + le16(stub, pe + 20), 0, le16(stub, pe + 6), 0);
        assert(stub.subrange(pe, pe + 4) =~= seq![0x50u8, 0x45, 0, 0]);
    }
}

/// A PE stub is taken exactly where its headers are whole: the signature and the header
/// fields are there, neither alignment is zero, every section has a header, the room that
/// the stub gives its headers has place for one more, and that lies in the result. A
/// section table that leaves no such room is refused for that.
pub proof fn law_pe_accepts_whole_headers(stub: Seq<u8>, body: Seq<u8>)
    ensures
        ({
            let pe = le32(stub, 0x3c);
            let n = le16(stub, pe + 6);
            let table = pe + 24 + le16(stub, pe + 20);
            let whole = stub.len() >= 0x40 && pe + 88 <= stub.len() && stub.subrange(pe, pe + 4)
                == seq![0x50u8, 0x45, 0, 0] && le32(stub, pe + 56) != 0 && le32(stub, pe + 60) != 0;
            let room = table + n * 40 + 40 <= le32(stub, pe + 84);
            let listed = n == 0 || table + (n - 1) * 40 + 16 <= stub.len();
            let size = aligned(stub.len() as int, le32(stub, pe + 60)) + aligned(
                body.len() as int,
                le32(stub, pe + 60),
            );
            &&& whole && room && listed && size <= usize::MAX && table + n * 40 + 40 <= size
                <==> pe_injected(stub, body) is Ok
            &&& whole && !room ==> pe_injected(stub, body) == Err::<Seq<u8>, InjectError>(
                InjectError::NoSectionSlack,
            )
            &&& stub.len() >= 0x40 && pe + 4 <= stub.len() && stub.subrange(pe, pe + 4) != seq![
                0x50u8,
                0x45,
                0,
                0,
            ] ==> pe_injected(stub, body) == Err::<Seq<u8>, InjectError>(
                InjectError::BadNtSignature,
            )
        }),
{
    broadcast use group_widths;

    let pe = le32(stub, 0x3c);
    let n = le16(stub, pe + 6);
    let table = pe + 24 + le16(stub, pe + 20);
    lemma_va_end(stub, table, 0, n, 0);
    assert(crate::section::nt_signature() =~= seq![0x50u8, 0x45, 0, 0]);
}

/// What the written section header holds.
proof fn lemma_header_fields(s: Seq<u8>, at: int, body: int, va: int, size: int, off: int)
    requires
        0 <= at,
        at + 40 <= s.len(),
    ensures
        ({
            let t = pe_with_header(s, at, body, va, size, off);
            &&& t.len() == s.len()
            &&& t.subrange(at, at + 8) == seq![0x2eu8, 0x44, 0x45, 0x43, 0x4d, 0x50, 0x46, 0x53]
            &&& le32(t, at + 8) == body % 0x1_0000_0000
            &&& le32(t, at + 12) == va % 0x1_0000_0000
            &&& le32(t, at + 16) == size % 0x1_0000_0000
            &&& le32(t, at + 20) == off % 0x1_0000_0000
            &&& le32(t, at + 36) == 0x4000_0040
            &&& forall|j: int|
                0 <= j < s.len() && (apart(j, 1, at, 40) || at + 24 <= j < at + 36)
                    ==> #[trigger] t[j] == s[j]
        }),
{
    broadcast use group_widths;

    let name = crate::section::plain_section_name();
    let named = overwrite(s, at, name);
    let long = overwrite(named, at + 8, le32_bytes(body % 0x1_0000_0000));
    let mapped = overwrite(long, at + 12, le32_bytes(va % 0x1_0000_0000));
    let sized = overwrite(mapped, at + 16, le32_bytes(size % 0x1_0000_0000));
    let placed = overwrite(sized, at + 20, le32_bytes(off % 0x1_0000_0000));
    let t = overwrite(placed, at + 36, le32_bytes(0x4000_0040));
    assert(t == pe_with_header(s, at, body, va, size, off));
    assert(name =~= seq![0x2eu8, 0x44, 0x45, 0x43, 0x4d, 0x50, 0x46, 0x53]);
    assert(t.subrange(at, at + 8) =~= name);
    lemma_put32(named, at + 8, body % 0x1_0000_0000);
    assert(t.subrange(at + 8, at + 12) =~= long.subrange(at + 8, at + 12));
    lemma_le32_same(t, at + 8, long, at + 8);
    lemma_put32(long, at + 12, va % 0x1_0000_0000);
    assert(t.subrange(at + 12, at + 16) =~= mapped.subrange(at + 12, at + 16));
    lemma_le32_same(t, at + 12, mapped, at + 12);
    lemma_put32(mapped, at + 16, size % 0x1_0000_0000);
    assert(t.subrange(at + 16, at + 20) =~= sized.subrange(at + 16, at + 20));
    lemma_le32_same(t, at + 16, sized, at + 16);
    lemma_put32(sized, at + 20, off % 0x1_0000_0000);
    assert(t.subrange(at + 20, at + 24) =~= placed.subrange(at + 20, at + 24));
    lemma_le32_same(t, at + 20, placed, at + 20);
    lemma_put32(placed, at + 36, 0x4000_0040);
}

/// The stages of an injection into a PE stub, read at the fields of the headers.
proof fn lemma_assembled(stub: Seq<u8>, body: Seq<u8>, p: PePlan)
    requires
        pe_plan(stub) == Ok::<PePlan, InjectError>(p),
        pe_injected(stub, body) is Ok,
        apart(p.new_header(), 40, p.pe + 80, 4),
    ensures
        ({
            let out = pe_assembled(stub, body, p);
            let at = p.new_header();
            &&& p.pe + 88 <= stub.len() <= out.len()
            &&& at >= p.pe + 24
            &&& at + 40 <= out.len()
            &&& out.subrange(at, at + 8) == seq![0x2eu8, 0x44, 0x45, 0x43, 0x4d, 0x50, 0x46, 0x53]
            &&& le32(out, at + 8) == body.len() % 0x1_0000_0000
            &&& le32(out, at + 12) == pe_va(p) % 0x1_0000_0000
            &&& le32(out, at + 16) == pe_data_size(body, p) % 0x1_0000_0000
            &&& le32(out, at + 20) == pe_data_off(stub, p) % 0x1_0000_0000
            &&& le32(out, at + 36) == 0x4000_0040
            &&& le16(out, p.pe + 6) == (p.num_sections + 1) % 0x1_0000
            &&& le32(out, p.pe + 80) == aligned(pe_va(p) + body.len(), p.section_align)
                % 0x1_0000_0000
            &&& forall|j: int|
                0 <= j < out.len() && apart(j, 1, at, 40) && apart(j, 1, p.pe + 6, 2) && apart(
                    j,
                    1,
                    p.pe + 80,
                    4,
                ) ==> #[trigger] out[j] == pe_grown(stub, body, p)[j]
        }),
{
    broadcast use group_widths;

    lemma_aligned(stub.len() as int, p.file_align);
    lemma_aligned(body.len() as int, p.file_align);
    let at = p.new_header();
    let grown = pe_grown(stub, body, p);
    assert(grown.len() == pe_total(stub, body, p));
    let size = pe_data_size(body, p);
    let off = pe_data_off(stub, p);
    let headed = pe_with_header(grown, at, body.len() as int, pe_va(p), size, off);
    lemma_header_fields(grown, at, body.len() as int, pe_va(p), size, off);
    let number = (p.num_sections + 1) % 0x1_0000;
    let counted = overwrite(headed, p.pe + 6, le16_bytes(number));
    let image = aligned(pe_va(p) + body.len(), p.section_align) % 0x1_0000_0000;
    let out = pe_assembled(stub, body, p);
    assert(out == overwrite(counted, p.pe + 80, le32_bytes(image)));
    lemma_put16(headed, p.pe + 6, number);
    assert(out.subrange(p.pe + 6, p.pe + 8) =~= counted.subrange(p.pe + 6, p.pe + 8));
    lemma_le16_same(out, p.pe + 6, counted, p.pe + 6);
    lemma_put32(counted, p.pe + 80, image);
    assert(out.subrange(at, at + 8) =~= headed.subrange(at, at + 8));
    assert(out.subrange(at + 8, at + 12) =~= headed.subrange(at + 8, at + 12));
    lemma_le32_same(out, at + 8, headed, at + 8);
    assert(out.subrange(at + 12, at + 16) =~= headed.subrange(at + 12, at + 16));
    lemma_le32_same(out, at + 12, headed, at + 12);
    assert(out.subrange(at + 16, at + 20) =~= headed.subrange(at + 16, at + 20));
    lemma_le32_same(out, at + 16, headed, at + 16);
    assert(out.subrange(at + 20, at + 24) =~= headed.subrange(at + 20, at + 24));
    lemma_le32_same(out, at + 20, headed, at + 20);
    assert(out.subrange(at + 36, at + 40) =~= headed.subrange(at + 36, at + 40));
    lemma_le32_same(out, at + 36, headed, at + 36);
}

/// In memory the new section lies behind every section that the stub has, at the next
/// multiple of the section alignment, and the image ends at the next multiple behind that.
/// Both are written down by their lowest 32 bits. So where they fit 32 bits, the new
/// section overlaps none, and the size of the image covers every section of the result.
pub proof fn law_pe_section_overlaps_none(stub: Seq<u8>, body: Seq<u8>, k: int) -> (place: (int, int))
    requires
        pe_injected(stub, body) is Ok,
        0 <= k,
        apart(section_table(stub) + le16(stub, le32(stub, 0x3c) + 6) * 40, 40, le32(stub, 0x3c) + 80, 4),
    ensures
        pe_injected(stub, body) matches Ok(out) && {
            let pe = le32(stub, 0x3c);
            let n = le16(stub, pe + 6);
            let table = pe + 24 + le16(stub, pe + 20);
            let align = le32(stub, pe + 56);
            let (va, end) = place;
            &&& le32(out, table + n * 40 + 12) == va % 0x1_0000_0000
            &&& le32(out, pe + 80) == end % 0x1_0000_0000
            &&& va % align == 0
            &&& end % align == 0
            &&& 0 <= va
            &&& va + body.len() <= end
            &&& forall|i: int|
                0 <= i < n ==> #[trigger] le32(stub, table + i * 40 + 12) + le32(
                    stub,
                    table + i * 40 + 8,
                ) <= va
            // No lower place would do.
            &&& (forall|i: int|
                0 <= i < n ==> #[trigger] le32(stub, table + i * 40 + 12) + le32(
                    stub,
                    table + i * 40 + 8,
                ) <= k * align) ==> va <= k * align
            &&& va + body.len() <= k * align ==> end <= k * align
        },
{
    broadcast use group_widths;

    let p = pe_plan(stub)->Ok_0;
    law_pe_plan_reads_headers(stub);
    lemma_assembled(stub, body, p);
    let align = p.section_align;
    let va = pe_va(p);
    let end = aligned(va + body.len(), align);
    lemma_va_end(stub, p.table(), 0, p.num_sections, 0);
    assert(0 <= p.va_end);
    assert(0 <= k * align) by (nonlinear_arith)
        requires
            0 <= k,
            0 < align,
    ;
    law_aligned_is_least_multiple(p.va_end, align, k);
    law_aligned_is_least_multiple(va + body.len(), align, k);
    (va, end)
}

/// The new section's header: its name, the length of the body, where its raw data lies
/// and how much that is, and that it is initialized data that may be read. The data is
/// behind the stub's bytes, at the next multiple of the file alignment, and is padded with
/// zeros to one; nothing follows it. One more section is counted.
pub proof fn law_pe_section_is_appended(stub: Seq<u8>, body: Seq<u8>, k: int)
    requires
        pe_injected(stub, body) is Ok,
        apart(section_table(stub) + le16(stub, le32(stub, 0x3c) + 6) * 40, 40, le32(stub, 0x3c) + 80, 4),
    ensures
        pe_injected(stub, body) matches Ok(out) && {
            let pe = le32(stub, 0x3c);
            let n = le16(stub, pe + 6);
            let at = pe + 24 + le16(stub, pe + 20) + n * 40;
            let align = le32(stub, pe + 60);
            let off = aligned(stub.len() as int, align);
            let size = aligned(body.len() as int, align);
            &&& off % align == 0 && stub.len() <= off
            &&& stub.len() <= k * align ==> off <= k * align
            &&& size % align == 0 && body.len() <= size
            &&& body.len() <= k * align ==> size <= k * align
            &&& out.len() == off + size
            &&& out.subrange(at, at + 8) == seq![0x2eu8, 0x44, 0x45, 0x43, 0x4d, 0x50, 0x46, 0x53]
            &&& le32(out, at + 8) == body.len() % 0x1_0000_0000
            &&& le32(out, at + 16) == size % 0x1_0000_0000
            &&& le32(out, at + 20) == off % 0x1_0000_0000
            &&& le32(out, at + 36) == 0x4000_0040
            &&& le16(out, pe + 6) == (n + 1) % 0x1_0000
            &&& forall|j: int|
                at + 40 <= off && off <= j < out.len() ==> #[trigger] out[j] == if j - off
                    < body.len() {
                    body[j - off]
                } else {
                    0
                }
            &&& forall|j: int|
                at + 40 <= stub.len() && stub.len() <= j < off ==> #[trigger] out[j] == 0
            &&& forall|j: int|
                0 <= j < stub.len() && apart(j, 1, at, 40) && apart(j, 1, pe + 6, 2) && apart(
                    j,
                    1,
                    pe + 80,
                    4,
                ) ==> #[trigger] out[j] == stub[j]
        },
{
    broadcast use group_widths;

    let p = pe_plan(stub)->Ok_0;
    law_pe_plan_reads_headers(stub);
    lemma_assembled(stub, body, p);
    law_aligned_is_least_multiple(stub.len() as int, p.file_align, k);
    law_aligned_is_least_multiple(body.len() as int, p.file_align, k);
}

/// A PE stub that is cut short is refused for the first field that is missing, and one with an
/// alignment of zero for that.
pub proof fn law_pe_refuses_missing_fields(stub: Seq<u8>, body: Seq<u8>)
    ensures
        ({
            let pe = le32(stub, 0x3c);
            let signed = stub.len() >= 0x40 && pe + 4 <= stub.len() && stub.subrange(pe, pe + 4)
                == seq![0x50u8, 0x45, 0, 0];
            let refused = pe_injected(stub, body);
            &&& stub.len() < 0x40 ==> refused == Err::<Seq<u8>, InjectError>(
                InjectError::Truncated { bits: 32, at: 0x3c },
            )
            &&& stub.len() >= 0x40 && pe + 4 > stub.len() ==> refused == Err::<Seq<u8>, InjectError>(
                InjectError::BadNtSignature,
            )
            &&& signed && stub.len() < pe + 8 ==> refused == Err::<Seq<u8>, InjectError>(
                InjectError::Truncated { bits: 16, at: (pe + 6) as u64 },
            )
            &&& signed && pe + 8 <= stub.len() < pe + 22 ==> refused == Err::<Seq<u8>, InjectError>(
                InjectError::Truncated { bits: 16, at: (pe + 20) as u64 },
            )
            &&& signed && pe + 22 <= stub.len() < pe + 60 ==> refused == Err::<Seq<u8>, InjectError>(
                InjectError::Truncated { bits: 32, at: (pe + 56) as u64 },
            )
            &&& signed && pe + 60 <= stub.len() < pe + 64 ==> refused == Err::<Seq<u8>, InjectError>(
                InjectError::Truncated { bits: 32, at: (pe + 60) as u64 },
            )
            &&& signed && pe + 64 <= stub.len() && (le32(stub, pe + 56) == 0 || le32(stub, pe + 60)
                == 0) ==> refused == Err::<Seq<u8>, InjectError>(InjectError::ZeroAlignment)
        }),
{
    broadcast use group_widths;

    let pe = le32(stub, 0x3c);
    assert(crate::section::nt_signature() =~= seq![0x50u8, 0x45, 0, 0]);
}

} // verus!
