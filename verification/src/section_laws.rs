//! What the readers of the `__DECMPFS` section find, in terms of an image's bytes.

use vstd::prelude::*;

use crate::bytes::{be16, be32, be64, group_widths, le16, le32, le64, le64_bytes, lemma_le64_bytes,
    lemma_le64_same};
use crate::inject::macho_laws::command_off;
use crate::platform::Host;
use crate::section::{carried, dos_magic, elf_headers, elf_magic, elf_section, elf_table,
    macho_commands, macho_section, macho_section_name, macho_sections, nt_signature, parsed_body,
    pe_headers, pe_section, plain_section_name, section_body, section_in, section_magic,
    segment_name, slot_holds, string_at, ElfTable};

verus! {

/// A section body is its magic, the content hash, least significant byte first, and the
/// payload.
pub proof fn law_body_is_magic_hash_payload(content_hash: u64, payload: Seq<u8>)
    ensures
        ({
            let raw = section_body(content_hash, payload);
            &&& raw.len() == 16 + payload.len()
            &&& raw.take(8) == seq![0x4eu8, 0x41, 0x50, 0x43, 0x53, 0x45, 0x43, 0x54]
            &&& le64(raw, 8) == content_hash
            &&& raw.skip(16) == payload
        }),
{
    broadcast use group_widths;

    let raw = section_body(content_hash, payload);
    let hash = le64_bytes(content_hash as int);
    lemma_le64_bytes(content_hash as int);
    assert(raw.take(8) =~= seq![0x4eu8, 0x41, 0x50, 0x43, 0x53, 0x45, 0x43, 0x54]);
    assert(raw.subrange(8, 16) =~= hash.subrange(0, 8));
    lemma_le64_same(raw, 8, hash, 0);
    assert(raw.skip(16) =~= payload);
}

/// A section body parses exactly where it has the magic and a whole header, and to what
/// stands behind the magic.
pub proof fn law_body_parses_by_magic(raw: Seq<u8>)
    ensures
        match parsed_body(raw) {
            Some((content_hash, payload)) => {
                &&& raw.len() == 16 + payload.len()
                &&& raw.take(8) == seq![0x4eu8, 0x41, 0x50, 0x43, 0x53, 0x45, 0x43, 0x54]
                &&& content_hash == le64(raw, 8)
                &&& payload == raw.skip(16)
            },
            None => raw.len() < 16 || raw.take(8) != seq![
                0x4eu8, 0x41, 0x50, 0x43, 0x53, 0x45, 0x43, 0x54,
            ],
        },
{
    broadcast use group_widths;

    assert(section_magic() =~= seq![
        0x4eu8, 0x41, 0x50, 0x43, 0x53, 0x45, 0x43, 0x54,
    ]);
}

/// A slot holds a name where it is that name and NULs, byte by byte.
pub proof fn law_slot_is_padded_name(slot: Seq<u8>, want: Seq<u8>)
    ensures
        slot_holds(slot, want) <==> slot.len() >= want.len() && forall|i: int|
            0 <= i < slot.len() ==> #[trigger] slot[i] == if i < want.len() {
                want[i]
            } else {
                0
            },
{
    if slot_holds(slot, want) {
        assert forall|i: int| 0 <= i < slot.len() implies #[trigger] slot[i] == if i < want.len() {
            want[i]
        } else {
            0
        } by {
            if i < want.len() {
                assert(slot.take(want.len() as int)[i] == want[i]);
            }
        }
    } else if slot.len() >= want.len() {
        if slot.take(want.len() as int) == want {
        } else {
            assert(!(slot.take(want.len() as int) =~= want));
        }
    }
}

/// Section header `j` of a PE image is named `.DECMPFS`.
pub open spec fn pe_named(s: Seq<u8>, table: int, j: int) -> bool {
    s.subrange(table + 40 * j, table + 40 * j + 8) == seq![
        0x2eu8, 0x44, 0x45, 0x43, 0x4d, 0x50, 0x46, 0x53,
    ]
}

/// An eight-byte slot holds the name exactly where it is the name.
proof fn lemma_pe_named(s: Seq<u8>, table: int, j: int)
    requires
        0 <= table + 40 * j,
        table + 40 * j + 8 <= s.len(),
    ensures
        pe_named(s, table, j) <==> slot_holds(
            s.subrange(table + 40 * j, table + 40 * j + 8),
            plain_section_name(),
        ),
{
    let slot = s.subrange(table + 40 * j, table + 40 * j + 8);
    assert(plain_section_name() =~= seq![0x2eu8, 0x44, 0x45, 0x43, 0x4d, 0x50, 0x46, 0x53]);
    assert(slot.take(8) =~= slot);
}

/// A walk over PE section headers passes those with other names.
proof fn lemma_pe_walk(s: Seq<u8>, table: int, i: int, k: int, n: int)
    requires
        0 <= table,
        0 <= i <= k <= n,
        forall|j: int| i <= j < k ==> !#[trigger] pe_named(s, table, j),
        k < n ==> table + 40 * k + 8 <= s.len(),
    ensures
        k < n ==> pe_headers(s, table + 40 * i, n - i) == pe_headers(s, table + 40 * k, n - k),
        k == n ==> pe_headers(s, table + 40 * i, n - i) is None,
    decreases k - i,
{
    if i < k {
        if table + 40 * i + 8 <= s.len() {
            lemma_pe_named(s, table, i);
            lemma_pe_walk(s, table, i + 1, k, n);
        }
    }
}

/// The section of a PE image is what the first header named `.DECMPFS` describes: as many
/// bytes from its place in the file on as the smaller of its sizes, in memory and on disk,
/// says. Without such a header, or where the bytes are not all there, there is none.
pub proof fn law_pe_reader_takes_first_named(s: Seq<u8>, k: int)
    requires
        0 <= k <= le16(s, le32(s, 0x3c) + 6),
        s.len() >= 0x40,
        s[0] == 0x4d,
        s[1] == 0x5a,
        le32(s, 0x3c) + 22 <= s.len(),
        s.subrange(le32(s, 0x3c), le32(s, 0x3c) + 4) == seq![0x50u8, 0x45, 0, 0],
        ({
            let pe = le32(s, 0x3c);
            let table = pe + 24 + le16(s, pe + 20);
            &&& forall|j: int| 0 <= j < k ==> !#[trigger] pe_named(s, table, j)
            &&& k < le16(s, pe + 6) ==> table + 40 * k + 24 <= s.len() && pe_named(s, table, k)
        }),
    ensures
        ({
            let pe = le32(s, 0x3c);
            let header = pe + 24 + le16(s, pe + 20) + 40 * k;
            let in_memory = le32(s, header + 8);
            let on_disk = le32(s, header + 16);
            let n = if in_memory <= on_disk {
                in_memory
            } else {
                on_disk
            };
            let off = le32(s, header + 20);
            pe_section(s) == if k < le16(s, pe + 6) && off + n <= s.len() {
                Some(s.subrange(off, off + n))
            } else {
                None
            }
        }),
{
    broadcast use group_widths;

    let pe = le32(s, 0x3c);
    let table = pe + 24 + le16(s, pe + 20);
    let n = le16(s, pe + 6);
    assert(s.take(2) =~= dos_magic());
    assert(nt_signature() =~= seq![0x50u8, 0x45, 0, 0]);
    lemma_pe_walk(s, table, 0, k, n);
    if k < n {
        lemma_pe_named(s, table, k);
    }
}

/// Nothing but a PE image has a PE section.
pub proof fn law_pe_reader_wants_marks(s: Seq<u8>)
    ensures
        pe_section(s) is Some ==> {
            let pe = le32(s, 0x3c);
            &&& s.len() >= 0x40
            &&& s[0] == 0x4d
            &&& s[1] == 0x5a
            &&& pe + 22 <= s.len()
            &&& s.subrange(pe, pe + 4) == seq![0x50u8, 0x45, 0, 0]
        },
{
    if pe_section(s) is Some {
        assert(s.take(2)[0] == dos_magic()[0]);
        assert(s.take(2)[1] == dos_magic()[1]);
        assert(nt_signature() =~= seq![0x50u8, 0x45, 0, 0]);
    }
}

/// The load command at `off` is a segment named `SMOL`.
pub open spec fn smol_at(s: Seq<u8>, off: int) -> bool {
    le32(s, off) == 0x19 && s.subrange(off + 8, off + 24) == seq![
        0x53u8, 0x4d, 0x4f, 0x4c, 0, 0, 0, 0, 0, 0, 0, 0, 0, 0, 0, 0,
    ]
}

/// Section header `m` of those from `soff` on is named `__DECMPFS`.
pub open spec fn decmpfs_at(s: Seq<u8>, soff: int, m: int) -> bool {
    s.subrange(soff + 80 * m, soff + 80 * m + 16) == seq![
        0x5fu8, 0x5f, 0x44, 0x45, 0x43, 0x4d, 0x50, 0x46, 0x53, 0, 0, 0, 0, 0, 0, 0,
    ]
}

/// The padded names and what the slots hold.
proof fn lemma_macho_names(s: Seq<u8>, at: int)
    requires
        0 <= at,
        at + 16 <= s.len(),
    ensures
        slot_holds(s.subrange(at, at + 16), segment_name()) <==> s.subrange(at, at + 16) == seq![
            0x53u8, 0x4d, 0x4f, 0x4c, 0, 0, 0, 0, 0, 0, 0, 0, 0, 0, 0, 0,
        ],
        slot_holds(s.subrange(at, at + 16), macho_section_name()) <==> s.subrange(at, at + 16)
            == seq![
            0x5fu8, 0x5f, 0x44, 0x45, 0x43, 0x4d, 0x50, 0x46, 0x53, 0, 0, 0, 0, 0, 0, 0,
        ],
{
    let slot = s.subrange(at, at + 16);
    let segment = seq![0x53u8, 0x4d, 0x4f, 0x4c, 0, 0, 0, 0, 0, 0, 0, 0, 0, 0, 0, 0];
    let section = seq![0x5fu8, 0x5f, 0x44, 0x45, 0x43, 0x4d, 0x50, 0x46, 0x53, 0, 0, 0, 0, 0, 0, 0];
    law_slot_is_padded_name(slot, segment_name());
    law_slot_is_padded_name(slot, macho_section_name());
    if slot_holds(slot, segment_name()) {
        assert(slot =~= segment);
    }
    if slot_holds(slot, macho_section_name()) {
        assert(slot =~= section);
    }
}

/// A walk over Mach-O section headers passes those with other names.
proof fn lemma_macho_sections(s: Seq<u8>, soff: int, i: int, m: int, n: int)
    requires
        0 <= soff,
        0 <= i <= m <= n,
        forall|j: int| i <= j < m ==> !#[trigger] decmpfs_at(s, soff, j),
        m > i ==> soff + 80 * (m - 1) + 16 <= s.len(),
    ensures
        macho_sections(s, soff + 80 * i, n - i) == macho_sections(s, soff + 80 * m, n - m),
    decreases m - i,
{
    if i < m {
        lemma_macho_names(s, soff + 80 * i);
        assert(!decmpfs_at(s, soff, i));
        lemma_macho_sections(s, soff, i + 1, m, n);
    }
}

/// Load command `k` is whole, and it is no segment `SMOL` with a section `__DECMPFS`.
pub open spec fn passed_over(s: Seq<u8>, k: int) -> bool {
    let off = command_off(s, k);
    let nsects = le32(s, off + 64);
    &&& off + 8 <= s.len()
    &&& le32(s, off + 4) >= 8
    &&& le32(s, off) == 0x19 ==> off + 24 <= s.len()
    &&& smol_at(s, off) ==> {
        &&& off + 68 <= s.len()
        &&& nsects > 0 ==> off + 72 + 80 * (nsects - 1) + 16 <= s.len()
        &&& forall|m: int| 0 <= m < nsects ==> !#[trigger] decmpfs_at(s, off + 72, m)
    }
}

/// A walk over load commands passes those that hold no section.
proof fn lemma_macho_walk(s: Seq<u8>, i: int, k: int, n: int)
    requires
        0 <= i <= k <= n,
        0 <= command_off(s, i),
        forall|j: int| i <= j < k ==> #[trigger] passed_over(s, j),
    ensures
        macho_commands(s, command_off(s, i), n - i) == macho_commands(
            s,
            command_off(s, k),
            n - k,
        ),
        0 <= command_off(s, k),
    decreases k - i,
{
    broadcast use group_widths;

    if i < k {
        let off = command_off(s, i);
        assert(passed_over(s, i));
        assert(command_off(s, i + 1) == off + le32(s, off + 4));
        if le32(s, off) == 0x19 {
            lemma_macho_names(s, off + 8);
            if smol_at(s, off) {
                let nsects = le32(s, off + 64);
                lemma_macho_sections(s, off + 72, 0, nsects, nsects);
            }
        }
        lemma_macho_walk(s, i + 1, k, n);
    }
}

/// The section of a Mach-O image is what the first header named `__DECMPFS` in a segment
/// named `SMOL` describes: as many bytes from its file offset on as its size says. Where they
/// are not all there, there is none.
pub proof fn law_macho_reader_takes_first_named(s: Seq<u8>, k: int, m: int)
    requires
        s.len() >= 20,
        le32(s, 0) == 0xfeed_facf,
        0 <= k < le32(s, 16),
        forall|j: int| 0 <= j < k ==> #[trigger] passed_over(s, j),
        ({
            let off = command_off(s, k);
            let header = off + 72 + 80 * m;
            &&& le32(s, off + 4) >= 8
            &&& smol_at(s, off)
            &&& 0 <= m < le32(s, off + 64)
            &&& header + 52 <= s.len()
            &&& forall|j: int| 0 <= j < m ==> !#[trigger] decmpfs_at(s, off + 72, j)
            &&& decmpfs_at(s, off + 72, m)
        }),
    ensures
        ({
            let header = command_off(s, k) + 72 + 80 * m;
            let off = le32(s, header + 48);
            let n = le64(s, header + 40);
            macho_section(s) == if off + n <= s.len() {
                Some(s.subrange(off, off + n))
            } else {
                None
            }
        }),
{
    broadcast use group_widths;

    let off = command_off(s, k);
    assert(command_off(s, 0) == 32);
    lemma_macho_walk(s, 0, k, le32(s, 16));
    lemma_macho_names(s, off + 8);
    lemma_macho_sections(s, off + 72, 0, m, le32(s, off + 64));
    lemma_macho_names(s, off + 72 + 80 * m);
}

/// A Mach-O image has no section where it is not marked as one, or none of its load
/// commands is a segment `SMOL` with a section `__DECMPFS`.
pub proof fn law_macho_reader_finds_no_other(s: Seq<u8>)
    ensures
        s.len() < 20 || le32(s, 0) != 0xfeed_facf ==> macho_section(s) is None,
        (forall|j: int| 0 <= j < le32(s, 16) ==> #[trigger] passed_over(s, j)) ==> macho_section(
            s,
        ) is None,
{
    broadcast use group_widths;

    assert(command_off(s, 0) == 32);
    if forall|j: int| 0 <= j < le32(s, 16) ==> #[trigger] passed_over(s, j) {
        lemma_macho_walk(s, 0, le32(s, 16), le32(s, 16));
    }
}

/// A number of an ELF image is read in the byte order that its fifth byte gives: least
/// significant byte first where that is one, most significant first elsewhere. The class
/// byte before it says where the header has the section header table, and how it counts.
pub proof fn law_elf_table_by_class_and_order(s: Seq<u8>)
    ensures
        match elf_table(s) {
            None => s.len() < 52 || s.take(4) != seq![0x7fu8, 0x45, 0x4c, 0x46] || (s[4] == 2
                && s.len() < 64),
            Some(t) => {
                &&& s.take(4) == seq![0x7fu8, 0x45, 0x4c, 0x46]
                &&& t.wide <==> s[4] == 2
                &&& t.little <==> s[5] == 1
                &&& s[4] == 2 && s[5] == 1 ==> {
                    &&& s.len() >= 64
                    &&& t.shoff == le64(s, 40)
                    &&& t.shentsize == le16(s, 58)
                    &&& t.shnum == le16(s, 60)
                    &&& t.shstrndx == le16(s, 62)
                }
                &&& s[4] == 2 && s[5] != 1 ==> {
                    &&& s.len() >= 64
                    &&& t.shoff == be64(s, 40)
                    &&& t.shentsize == be16(s, 58)
                    &&& t.shnum == be16(s, 60)
                    &&& t.shstrndx == be16(s, 62)
                }
                &&& s[4] != 2 && s[5] == 1 ==> {
                    &&& s.len() >= 52
                    &&& t.shoff == le32(s, 32)
                    &&& t.shentsize == le16(s, 46)
                    &&& t.shnum == le16(s, 48)
                    &&& t.shstrndx == le16(s, 50)
                }
                &&& s[4] != 2 && s[5] != 1 ==> {
                    &&& s.len() >= 52
                    &&& t.shoff == be32(s, 32)
                    &&& t.shentsize == be16(s, 46)
                    &&& t.shnum == be16(s, 48)
                    &&& t.shstrndx == be16(s, 50)
                }
            },
        },
{
    assert(elf_magic() =~= seq![0x7fu8, 0x45, 0x4c, 0x46]);
}

/// The bytes that an ELF section header describes, by the image's class and byte order.
pub proof fn law_elf_header_describes_bytes(s: Seq<u8>, t: ElfTable, i: int)
    requires
        0 <= i,
    ensures
        ({
            let sh = t.shoff + i * t.shentsize;
            let (off, n, end) = if t.wide && t.little {
                (le64(s, sh + 24), le64(s, sh + 32), sh + 40)
            } else if t.wide {
                (be64(s, sh + 24), be64(s, sh + 32), sh + 40)
            } else if t.little {
                (le32(s, sh + 16), le32(s, sh + 20), sh + 24)
            } else {
                (be32(s, sh + 16), be32(s, sh + 20), sh + 24)
            };
            &&& t.header(i) == sh
            &&& t.extent(s, t.header(i)) == if end <= s.len() && 0 <= off && 0 <= n && off + n
                <= s.len() {
                Some(s.subrange(off, off + n))
            } else {
                None
            }
        }),
{
}

/// A string in a table ends at a NUL or with the table.
pub proof fn law_string_ends_at_nul(strtab: Seq<u8>, at: int, want: Seq<u8>)
    requires
        0 <= at,
    ensures
        string_at(strtab, at, want) <==> {
            &&& at + want.len() <= strtab.len()
            &&& forall|i: int| 0 <= i < want.len() ==> strtab[#[trigger] (at + i)] == want[i]
            &&& at + want.len() == strtab.len() || strtab[at + want.len()] == 0
        },
{
    if at + want.len() <= strtab.len() {
        let part = strtab.subrange(at, at + want.len());
        assert forall|i: int| 0 <= i < want.len() implies part[i] == strtab[#[trigger] (at + i)] by {}
        if forall|i: int| 0 <= i < want.len() ==> strtab[#[trigger] (at + i)] == want[i] {
            assert forall|i: int| 0 <= i < want.len() implies part[i] == want[i] by {
                assert(strtab[at + i] == want[i]);
            }
            assert(part =~= want);
        }
    }
}

/// The name offset in the header of section `j`.
pub open spec fn elf_name(s: Seq<u8>, t: ElfTable, j: int) -> int {
    if t.little {
        le32(s, t.shoff + j * t.shentsize)
    } else {
        be32(s, t.shoff + j * t.shentsize)
    }
}

/// Section header `j` of an ELF image can be read, and its name is another one.
pub open spec fn elf_passed(s: Seq<u8>, t: ElfTable, strtab: Seq<u8>, j: int) -> bool {
    &&& t.shoff + j * t.shentsize + 4 <= s.len()
    &&& elf_name(s, t, j) <= strtab.len()
    &&& !string_at(
        strtab,
        elf_name(s, t, j),
        seq![0x2eu8, 0x44, 0x45, 0x43, 0x4d, 0x50, 0x46, 0x53],
    )
}

/// A walk over ELF section headers passes those with other names.
proof fn lemma_elf_walk(s: Seq<u8>, t: ElfTable, strtab: Seq<u8>, i: int, k: int)
    requires
        0 <= i <= k <= t.shnum,
        forall|j: int| i <= j < k ==> #[trigger] elf_passed(s, t, strtab, j),
    ensures
        elf_headers(s, t, strtab, i) == elf_headers(s, t, strtab, k),
    decreases k - i,
{
    if i < k {
        assert(elf_passed(s, t, strtab, i));
        assert(plain_section_name() =~= seq![0x2eu8, 0x44, 0x45, 0x43, 0x4d, 0x50, 0x46, 0x53]);
        assert(t.header(i) == t.shoff + i * t.shentsize);
        lemma_elf_walk(s, t, strtab, i + 1, k);
    }
}

/// The section of an ELF image is what the first section header named `.DECMPFS` describes,
/// by the names that the name table's header describes. Without such a header there is none.
pub proof fn law_elf_reader_takes_first_named(s: Seq<u8>, t: ElfTable, strtab: Seq<u8>, k: int)
    requires
        elf_table(s) == Some(t),
        t.shstrndx < t.shnum,
        t.extent(s, t.shoff + t.shstrndx * t.shentsize) == Some(strtab),
        0 <= k <= t.shnum,
        forall|j: int| 0 <= j < k ==> #[trigger] elf_passed(s, t, strtab, j),
        k < t.shnum ==> t.shoff + k * t.shentsize + 4 <= s.len() && string_at(
            strtab,
            elf_name(s, t, k),
            seq![0x2eu8, 0x44, 0x45, 0x43, 0x4d, 0x50, 0x46, 0x53],
        ),
    ensures
        elf_section(s) == if k < t.shnum {
            t.extent(s, t.shoff + k * t.shentsize)
        } else {
            None
        },
{
    assert(t.header(t.shstrndx) == t.shoff + t.shstrndx * t.shentsize);
    assert(t.header(k) == t.shoff + k * t.shentsize);
    assert(plain_section_name() =~= seq![0x2eu8, 0x44, 0x45, 0x43, 0x4d, 0x50, 0x46, 0x53]);
    lemma_elf_walk(s, t, strtab, 0, k);
}

/// Each host reads the object format that it loads, and a platform that loads none of them
/// finds nothing.
pub proof fn law_host_reads_its_format(host: Host, s: Seq<u8>)
    ensures
        host is MacOs ==> section_in(host, s) == macho_section(s),
        host is Linux ==> section_in(host, s) == elf_section(s),
        host is Windows ==> section_in(host, s) == pe_section(s),
        host is Other ==> section_in(host, s) is None,
        match section_in(host, s) {
            Some(body) => carried(host, s) == parsed_body(body),
            None => carried(host, s) is None,
        },
{
}

} // verus!
