//! The `__DECMPFS` section of a stub image: its body, and where an image keeps it.
//!
//! A producer injects a named section (Mach-O `SMOL/__DECMPFS`, ELF `.DECMPFS`,
//! PE `.DECMPFS`) whose body is `[magic][content hash, u64 LE][zstd payload]`. A
//! section is covered by the code signature and located through the image's own
//! section table, so the file stays strictly valid.
//!
//! Every reader here is total: an image that is cut short, or whose offsets point
//! outside of it, has no section.

use vstd::prelude::*;

use crate::bytes::{append, be16, be32, be64, bytes_at, le16, le32, le64, le64_bytes,
    lemma_le64_bounds, lemma_le64_bytes, lemma_le64_same, lemma_le64_unique, same_bytes, u16_at,
    u16_be_at, u32_at, u32_be_at, u64_at, u64_be_at, window};
use crate::platform::Host;

verus! {

/// Marks a Mach-O image: 64-bit, little-endian.
pub const MH_MAGIC_64: u32 = 0xfeed_facf;

/// The Mach-O load command that describes a segment.
pub const LC_SEGMENT_64: u32 = 0x19;

/// The head of a section body, `NAPCSECT`.
pub open spec fn section_magic() -> Seq<u8> {
    seq![0x4e, 0x41, 0x50, 0x43, 0x53, 0x45, 0x43, 0x54]
}

/// The Mach-O segment that holds the section, `SMOL`.
pub open spec fn segment_name() -> Seq<u8> {
    seq![0x53, 0x4d, 0x4f, 0x4c]
}

/// The Mach-O section, `__DECMPFS`.
pub open spec fn macho_section_name() -> Seq<u8> {
    seq![0x5f, 0x5f, 0x44, 0x45, 0x43, 0x4d, 0x50, 0x46, 0x53]
}

/// The ELF and PE section, `.DECMPFS`.
pub open spec fn plain_section_name() -> Seq<u8> {
    seq![0x2e, 0x44, 0x45, 0x43, 0x4d, 0x50, 0x46, 0x53]
}

/// The first bytes of every ELF image.
pub open spec fn elf_magic() -> Seq<u8> {
    seq![0x7f, 0x45, 0x4c, 0x46]
}

/// The first bytes of every PE image, `MZ`.
pub open spec fn dos_magic() -> Seq<u8> {
    seq![0x4d, 0x5a]
}

/// The signature in front of a PE image's COFF header, `PE\0\0`.
pub open spec fn nt_signature() -> Seq<u8> {
    seq![0x50, 0x45, 0, 0]
}

/// The validated contents of a stub's section.
pub struct SectionData {
    /// FNV-1a of the raw addon: names the cache file without decoding the payload.
    pub content_hash: u64,
    /// The compressed raw addon.
    pub payload: Vec<u8>,
}

impl View for SectionData {
    type V = (u64, Seq<u8>);

    open spec fn view(&self) -> (u64, Seq<u8>) {
        (self.content_hash, self.payload@)
    }
}

/// The section body for an addon with this content hash and compressed payload.
pub open spec fn section_body(content_hash: u64, payload: Seq<u8>) -> Seq<u8> {
    section_magic() + le64_bytes(content_hash as int) + payload
}

/// What a section body holds: `None` unless it starts with the magic and holds
/// a whole header.
pub open spec fn parsed_body(raw: Seq<u8>) -> Option<(u64, Seq<u8>)> {
    if raw.len() >= 16 && raw.take(8) == section_magic() {
        Some((le64(raw, 8) as u64, raw.skip(16)))
    } else {
        None
    }
}

/// Parsing a section body gives back what it was built from.
pub proof fn law_parse_undoes_build(content_hash: u64, payload: Seq<u8>)
    ensures
        parsed_body(section_body(content_hash, payload)) == Some((content_hash, payload)),
{
    broadcast use crate::bytes::group_widths;

    lemma_le64_bytes(content_hash as int);
    let raw = section_body(content_hash, payload);
    let hash = le64_bytes(content_hash as int);
    assert(raw.take(8) =~= section_magic());
    assert(raw.skip(16) =~= payload);
    assert(raw.subrange(8, 16) =~= hash.subrange(0, 8));
    lemma_le64_same(raw, 8, hash, 0);
}

/// A body that parses is the body built from what it parses to: the format has
/// one encoding of each value.
pub proof fn law_build_undoes_parse(raw: Seq<u8>)
    requires
        parsed_body(raw) is Some,
    ensures
        parsed_body(raw) matches Some((content_hash, payload)) && section_body(
            content_hash,
            payload,
        ) == raw,
{
    lemma_le64_bounds(raw, 8);
    lemma_le64_unique(raw, 8);
    assert(raw =~= raw.take(8) + raw.subrange(8, 16) + raw.skip(16));
}

/// Parses a section body.
pub fn parse_section_payload(raw: &[u8]) -> (r: Option<SectionData>)
    ensures
        r matches Some(d) ==> parsed_body(raw@) == Some(d@),
        r is None ==> parsed_body(raw@) is None,
{
    if raw.len() < 16 {
        return None;
    }
    let head = vstd::slice::slice_subrange(raw, 0, 8);
    let magic = vec![0x4eu8, 0x41, 0x50, 0x43, 0x53, 0x45, 0x43, 0x54];
    assert(magic@ =~= section_magic());
    assert(head@ =~= raw@.take(8));
    if !same_bytes(head, magic.as_slice()) {
        return None;
    }
    let content_hash: u64 = match u64_at(raw, 8, 0) {
        Some(h) => h,
        None => return None,
    };
    let rest = vstd::slice::slice_subrange(raw, 16, raw.len());
    assert(rest@ =~= raw@.skip(16));
    let mut payload: Vec<u8> = Vec::new();
    append(&mut payload, rest);
    assert(payload@ =~= raw@.skip(16));
    Some(SectionData { content_hash, payload })
}

/// Assembles the section body that a producer injects.
pub fn build_section_payload(content_hash: u64, zstd_payload: &[u8]) -> (r: Vec<u8>)
    ensures
        r@ == section_body(content_hash, zstd_payload@),
{
    let mut out: Vec<u8> = vec![0x4eu8, 0x41, 0x50, 0x43, 0x53, 0x45, 0x43, 0x54,
        0, 0, 0, 0, 0, 0, 0, 0];
    crate::bytes::put_u64(&mut out, 8, content_hash);
    proof {
        crate::bytes::lemma_le64_len(content_hash as int);
    }
    assert(out@ =~= section_magic() + le64_bytes(content_hash as int));
    append(&mut out, zstd_payload);
    out
}

/// A NUL-padded name slot holds `want`: the leading bytes match and the rest is NUL.
pub open spec fn slot_holds(slot: Seq<u8>, want: Seq<u8>) -> bool {
    &&& slot.len() >= want.len()
    &&& slot.take(want.len() as int) == want
    &&& forall|i: int| want.len() <= i < slot.len() ==> slot[i] == 0
}

/// Whether a NUL-padded fixed-width name slot holds `want`.
pub fn name_eq(slot: &[u8], want: &[u8]) -> (r: bool)
    ensures
        r == slot_holds(slot@, want@),
{
    if slot.len() < want.len() {
        return false;
    }
    let head = vstd::slice::slice_subrange(slot, 0, want.len());
    assert(head@ =~= slot@.take(want@.len() as int));
    if !same_bytes(head, want) {
        return false;
    }
    let mut i: usize = want.len();
    while i < slot.len()
        invariant
            want@.len() <= i <= slot@.len(),
            forall|k: int| want@.len() <= k < i ==> slot@[k] == 0,
        decreases slot@.len() - i,
    {
        if slot[i] != 0 {
            return false;
        }
        i += 1;
    }
    true
}

/// How a walk over one segment's sections ends.
pub enum Scan {
    /// The answer for the whole image.
    Stop(Option<Seq<u8>>),
    /// None of the segment's sections has the name.
    Pass,
}

/// The walk over `left` section headers from `soff` on, for the one named
/// `__DECMPFS`.
pub open spec fn macho_sections(s: Seq<u8>, soff: int, left: int) -> Scan
    decreases left,
{
    if left <= 0 {
        Scan::Pass
    } else if soff + 16 > s.len() {
        Scan::Stop(None)
    } else if slot_holds(s.subrange(soff, soff + 16), macho_section_name()) {
        if soff + 52 > s.len() {
            Scan::Stop(None)
        } else {
            Scan::Stop(window(s, le32(s, soff + 48), le64(s, soff + 40)))
        }
    } else {
        macho_sections(s, soff + 80, left - 1)
    }
}

/// Whether the load command at `off` is a segment named `SMOL`.
pub open spec fn is_smol_segment(s: Seq<u8>, off: int) -> bool {
    le32(s, off) == LC_SEGMENT_64 && slot_holds(s.subrange(off + 8, off + 24), segment_name())
}

/// The walk over `left` load commands from `off` on, for a `SMOL` segment with
/// a `__DECMPFS` section.
pub open spec fn macho_commands(s: Seq<u8>, off: int, left: int) -> Option<Seq<u8>>
    decreases left,
{
    if left <= 0 || off + 8 > s.len() || le32(s, off + 4) < 8 {
        None
    } else if le32(s, off) == LC_SEGMENT_64 && off + 24 > s.len() {
        None
    } else if is_smol_segment(s, off) {
        if off + 68 > s.len() {
            None
        } else {
            match macho_sections(s, off + 72, le32(s, off + 64)) {
                Scan::Stop(found) => found,
                Scan::Pass => macho_commands(s, off + le32(s, off + 4), left - 1),
            }
        }
    } else {
        macho_commands(s, off + le32(s, off + 4), left - 1)
    }
}

/// The section body in a 64-bit little-endian Mach-O image.
pub open spec fn macho_section(s: Seq<u8>) -> Option<Seq<u8>> {
    if s.len() < 20 || le32(s, 0) != MH_MAGIC_64 {
        None
    } else {
        macho_commands(s, 32, le32(s, 16))
    }
}

/// Walks one segment's section headers. `Err` is the answer for the whole image.
fn find_in_sections(bytes: &[u8], start: u64, nsects: u32) -> (r: Result<(), Option<&[u8]>>)
    ensures
        match macho_sections(bytes@, start as int, nsects as int) {
            Scan::Pass => r is Ok,
            Scan::Stop(None) => r matches Err(None),
            Scan::Stop(Some(found)) => r matches Err(Some(v)) && v@ == found,
        },
{
    let want = vec![0x5fu8, 0x5f, 0x44, 0x45, 0x43, 0x4d, 0x50, 0x46, 0x53];
    assert(want@ =~= macho_section_name());
    let len: usize = bytes.len();
    let mut soff: u64 = start;
    let mut left: u32 = nsects;
    while left > 0
        invariant
            want@ == macho_section_name(),
            bytes@.len() <= u64::MAX,
            macho_sections(bytes@, start as int, nsects as int) == macho_sections(
                bytes@,
                soff as int,
                left as int,
            ),
        decreases left,
    {
        let name = match bytes_at(bytes, soff, 16) {
            Some(name) => name,
            None => return Err(None),
        };
        if name_eq(name, want.as_slice()) {
            return match (u64_at(bytes, soff, 40), u32_at(bytes, soff, 48)) {
                (Some(size), Some(offset)) => Err(bytes_at(bytes, offset as u64, size)),
                _ => Err(None),
            };
        }
        match soff.checked_add(80) {
            Some(next) => soff = next,
            None => {
                proof {
                    reveal_with_fuel(macho_sections, 2);
                }
                if left > 1 {
                    return Err(None);
                }
                return Ok(());
            },
        }
        left -= 1;
    }
    Ok(())
}

/// Finds the section body in a 64-bit little-endian Mach-O image.
pub fn find_section_macho(bytes: &[u8]) -> (r: Option<&[u8]>)
    ensures
        r matches Some(v) ==> macho_section(bytes@) == Some(v@),
        r is None ==> macho_section(bytes@) is None,
{
    match u32_at(bytes, 0, 0) {
        Some(magic) => if magic != MH_MAGIC_64 {
            return None;
        },
        None => return None,
    }
    let ncmds: u32 = match u32_at(bytes, 16, 0) {
        Some(n) => n,
        None => return None,
    };
    let want = vec![0x53u8, 0x4d, 0x4f, 0x4c];
    assert(want@ =~= segment_name());
    let len: usize = bytes.len();
    let mut off: u64 = 32;
    let mut left: u32 = ncmds;
    while left > 0
        invariant
            want@ == segment_name(),
            bytes@.len() <= u64::MAX,
            macho_section(bytes@) == macho_commands(bytes@, off as int, left as int),
        decreases left,
    {
        let (cmd, cmdsize): (u32, u32) = match (u32_at(bytes, off, 0), u32_at(bytes, off, 4)) {
            (Some(cmd), Some(cmdsize)) => (cmd, cmdsize),
            _ => return None,
        };
        if cmdsize < 8 {
            return None;
        }
        if cmd == LC_SEGMENT_64 {
            let name = match bytes_at(bytes, off + 8, 16) {
                Some(name) => name,
                None => return None,
            };
            if name_eq(name, want.as_slice()) {
                let nsects: u32 = match u32_at(bytes, off, 64) {
                    Some(n) => n,
                    None => return None,
                };
                match off.checked_add(72) {
                    Some(start) => match find_in_sections(bytes, start, nsects) {
                        Err(found) => return found,
                        Ok(()) => {},
                    },
                    None => if nsects > 0 {
                        return None;
                    },
                }
            }
        }
        match off.checked_add(cmdsize as u64) {
            Some(next) => off = next,
            None => {
                proof {
                    reveal_with_fuel(macho_commands, 2);
                }
                return None;
            },
        }
        left -= 1;
    }
    None
}

/// The 16-bit number at `off` in the image's byte order.
pub open spec fn elf16(s: Seq<u8>, off: int, little: bool) -> int {
    if little {
        le16(s, off)
    } else {
        be16(s, off)
    }
}

/// The 32-bit number at `off` in the image's byte order.
pub open spec fn elf32(s: Seq<u8>, off: int, little: bool) -> int {
    if little {
        le32(s, off)
    } else {
        be32(s, off)
    }
}

/// The 64-bit number at `off` in the image's byte order.
pub open spec fn elf64(s: Seq<u8>, off: int, little: bool) -> int {
    if little {
        le64(s, off)
    } else {
        be64(s, off)
    }
}

/// What an ELF header says of the section header table.
pub struct ElfTable {
    pub wide: bool,
    pub little: bool,
    pub shoff: int,
    pub shentsize: int,
    pub shnum: int,
    pub shstrndx: int,
}

impl ElfTable {
    /// Where the header of section `i` starts.
    pub open spec fn header(self, i: int) -> int {
        self.shoff + i * self.shentsize
    }

    /// How much of a section header has to exist for its extent to be read.
    pub open spec fn extent_end(self) -> int {
        if self.wide {
            40
        } else {
            24
        }
    }

    /// The file offset that the section header at `sh` gives.
    pub open spec fn offset_in(self, s: Seq<u8>, sh: int) -> int {
        if self.wide {
            elf64(s, sh + 24, self.little)
        } else {
            elf32(s, sh + 16, self.little)
        }
    }

    /// The size that the section header at `sh` gives.
    pub open spec fn size_in(self, s: Seq<u8>, sh: int) -> int {
        if self.wide {
            elf64(s, sh + 32, self.little)
        } else {
            elf32(s, sh + 20, self.little)
        }
    }

    /// The bytes that the section header at `sh` describes.
    pub open spec fn extent(self, s: Seq<u8>, sh: int) -> Option<Seq<u8>> {
        if sh + self.extent_end() > s.len() {
            None
        } else {
            window(s, self.offset_in(s, sh), self.size_in(s, sh))
        }
    }
}

/// The section header table that an ELF image declares.
pub open spec fn elf_table(s: Seq<u8>) -> Option<ElfTable> {
    if s.len() < 6 || s.take(4) != elf_magic() {
        None
    } else if s[4] == 2 {
        if s.len() < 64 {
            None
        } else {
            let little = s[5] == 1;
            Some(
                ElfTable {
                    wide: true,
                    little,
                    shoff: elf64(s, 40, little),
                    shentsize: elf16(s, 58, little),
                    shnum: elf16(s, 60, little),
                    shstrndx: elf16(s, 62, little),
                },
            )
        }
    } else {
        if s.len() < 52 {
            None
        } else {
            let little = s[5] == 1;
            Some(
                ElfTable {
                    wide: false,
                    little,
                    shoff: elf32(s, 32, little),
                    shentsize: elf16(s, 46, little),
                    shnum: elf16(s, 48, little),
                    shstrndx: elf16(s, 50, little),
                },
            )
        }
    }
}

/// The string that starts at `at` in a table of NUL-terminated strings is `want`.
/// The table's end terminates a string too.
pub open spec fn string_at(strtab: Seq<u8>, at: int, want: Seq<u8>) -> bool {
    &&& 0 <= at && at + want.len() <= strtab.len()
    &&& strtab.subrange(at, at + want.len()) == want
    &&& at + want.len() < strtab.len() ==> strtab[at + want.len()] == 0
}

/// The walk over the section headers from `i` on, for the one named `.DECMPFS`.
pub open spec fn elf_headers(s: Seq<u8>, t: ElfTable, strtab: Seq<u8>, i: int) -> Option<Seq<u8>>
    decreases t.shnum - i,
{
    if i >= t.shnum || t.header(i) + 4 > s.len() {
        None
    } else {
        let name = elf32(s, t.header(i), t.little);
        if name > strtab.len() {
            None
        } else if string_at(strtab, name, plain_section_name()) {
            t.extent(s, t.header(i))
        } else {
            elf_headers(s, t, strtab, i + 1)
        }
    }
}

/// The section body in an ELF image.
pub open spec fn elf_section(s: Seq<u8>) -> Option<Seq<u8>> {
    match elf_table(s) {
        None => None,
        Some(t) => if t.shstrndx >= t.shnum {
            None
        } else {
            match t.extent(s, t.header(t.shstrndx)) {
                None => None,
                Some(strtab) => elf_headers(s, t, strtab, 0),
            }
        },
    }
}

/// Reads numbers of an ELF image in its byte order and word size.
struct ElfReader<'a> {
    bytes: &'a [u8],
    wide: bool,
    little: bool,
}

impl<'a> ElfReader<'a> {
    fn half(&self, at: u64) -> (r: Option<u16>)
        ensures
            r matches Some(v) ==> at + 2 <= self.bytes@.len() && v == elf16(
                self.bytes@,
                at as int,
                self.little,
            ),
            r is None ==> at + 2 > self.bytes@.len(),
    {
        if self.little {
            u16_at(self.bytes, at, 0)
        } else {
            u16_be_at(self.bytes, at, 0)
        }
    }

    fn word(&self, base: u64, rel: u64) -> (r: Option<u32>)
        ensures
            r matches Some(v) ==> base + rel + 4 <= self.bytes@.len() && v == elf32(
                self.bytes@,
                base + rel,
                self.little,
            ),
            r is None ==> base + rel + 4 > self.bytes@.len(),
    {
        if self.little {
            u32_at(self.bytes, base, rel)
        } else {
            u32_be_at(self.bytes, base, rel)
        }
    }

    fn double(&self, base: u64, rel: u64) -> (r: Option<u64>)
        ensures
            r matches Some(v) ==> base + rel + 8 <= self.bytes@.len() && v == elf64(
                self.bytes@,
                base + rel,
                self.little,
            ),
            r is None ==> base + rel + 8 > self.bytes@.len(),
    {
        if self.little {
            u64_at(self.bytes, base, rel)
        } else {
            u64_be_at(self.bytes, base, rel)
        }
    }

    /// The bytes that the section header at `sh` describes.
    fn extent(&self, sh: u64, Ghost(t): Ghost<ElfTable>) -> (r: Option<&'a [u8]>)
        requires
            t.wide == self.wide,
            t.little == self.little,
        ensures
            r matches Some(v) ==> t.extent(self.bytes@, sh as int) == Some(v@),
            r is None ==> t.extent(self.bytes@, sh as int) is None,
    {
        if self.wide {
            match (self.double(sh, 24), self.double(sh, 32)) {
                (Some(off), Some(size)) => bytes_at(self.bytes, off, size),
                _ => None,
            }
        } else {
            match (self.word(sh, 16), self.word(sh, 20)) {
                (Some(off), Some(size)) => bytes_at(self.bytes, off as u64, size as u64),
                _ => None,
            }
        }
    }
}

/// Whether the string at `at` in a table of NUL-terminated strings is `want`.
fn string_is(strtab: &[u8], at: usize, want: &[u8]) -> (r: bool)
    requires
        at <= strtab@.len(),
    ensures
        r == string_at(strtab@, at as int, want@),
{
    if want.len() > strtab.len() - at {
        return false;
    }
    let end: usize = at + want.len();
    if !same_bytes(vstd::slice::slice_subrange(strtab, at, end), want) {
        return false;
    }
    end == strtab.len() || strtab[end] == 0
}

/// Finds the section body in an ELF image.
pub fn find_section_elf(bytes: &[u8]) -> (r: Option<&[u8]>)
    ensures
        r matches Some(v) ==> elf_section(bytes@) == Some(v@),
        r is None ==> elf_section(bytes@) is None,
{
    if bytes.len() < 6 {
        return None;
    }
    let magic = vec![0x7fu8, 0x45, 0x4c, 0x46];
    let head = vstd::slice::slice_subrange(bytes, 0, 4);
    assert(magic@ =~= elf_magic());
    assert(head@ =~= bytes@.take(4));
    if !same_bytes(head, magic.as_slice()) {
        return None;
    }
    let wide: bool = bytes[4] == 2;
    let little: bool = bytes[5] == 1;
    let reader = ElfReader { bytes, wide, little };
    let shoff: u64 = if wide {
        match reader.double(40, 0) {
            Some(v) => v,
            None => return None,
        }
    } else {
        match reader.word(32, 0) {
            Some(v) => v as u64,
            None => return None,
        }
    };
    let sizes_at: u64 = if wide {
        58
    } else {
        46
    };
    let (shentsize, shnum, shstrndx): (u16, u16, u16) = match (
        reader.half(sizes_at),
        reader.half(sizes_at + 2),
        reader.half(sizes_at + 4),
    ) {
        (Some(size), Some(num), Some(ndx)) => (size, num, ndx),
        _ => return None,
    };
    let ghost t = ElfTable {
        wide,
        little,
        shoff: shoff as int,
        shentsize: shentsize as int,
        shnum: shnum as int,
        shstrndx: shstrndx as int,
    };
    assert(elf_table(bytes@) == Some(t));
    if shstrndx >= shnum {
        return None;
    }
    let str_hdr: u64 = match header_offset(shoff, shstrndx, shentsize) {
        Some(at) => at,
        None => return None,
    };
    let strtab = match reader.extent(str_hdr, Ghost(t)) {
        Some(strtab) => strtab,
        None => return None,
    };
    let want = vec![0x2eu8, 0x44, 0x45, 0x43, 0x4d, 0x50, 0x46, 0x53];
    assert(want@ =~= plain_section_name());
    let mut i: u16 = 0;
    while i < shnum
        invariant
            reader.bytes@ == bytes@,
            reader.wide == t.wide,
            reader.little == t.little,
            shnum == t.shnum,
            shoff == t.shoff,
            shentsize == t.shentsize,
            i <= shnum,
            want@ == plain_section_name(),
            bytes@.len() <= u64::MAX,
            elf_section(bytes@) == elf_headers(bytes@, t, strtab@, i as int),
        decreases shnum - i,
    {
        let sh: u64 = match header_offset(shoff, i, shentsize) {
            Some(at) => at,
            None => return None,
        };
        let name: u32 = match reader.word(sh, 0) {
            Some(name) => name,
            None => return None,
        };
        if name as u64 > strtab.len() as u64 {
            return None;
        }
        if string_is(strtab, name as usize, want.as_slice()) {
            return reader.extent(sh, Ghost(t));
        }
        i += 1;
    }
    None
}

/// Where the header of section `i` starts. `None` is past the end of any image.
fn header_offset(shoff: u64, i: u16, shentsize: u16) -> (r: Option<u64>)
    ensures
        r matches Some(at) ==> at == shoff + i * shentsize,
        r is None ==> shoff + i * shentsize > u64::MAX,
{
    assert(0 <= i * shentsize <= 0xffff * 0xffff) by (nonlinear_arith)
        requires
            i <= 0xffff,
            shentsize <= 0xffff,
    ;
    shoff.checked_add(i as u64 * shentsize as u64)
}

/// The walk over `left` section headers from `sh` on, for the one named `.DECMPFS`.
///
/// The section's length is its virtual size: the raw data on disk is padded up to
/// the file alignment. It never exceeds the raw data.
pub open spec fn pe_headers(s: Seq<u8>, sh: int, left: int) -> Option<Seq<u8>>
    decreases left,
{
    if left <= 0 || sh + 8 > s.len() {
        None
    } else if slot_holds(s.subrange(sh, sh + 8), plain_section_name()) {
        if sh + 24 > s.len() {
            None
        } else {
            let virtual_size = le32(s, sh + 8);
            let raw_size = le32(s, sh + 16);
            window(
                s,
                le32(s, sh + 20),
                if virtual_size <= raw_size {
                    virtual_size
                } else {
                    raw_size
                },
            )
        }
    } else {
        pe_headers(s, sh + 40, left - 1)
    }
}

/// The section body in a PE image.
pub open spec fn pe_section(s: Seq<u8>) -> Option<Seq<u8>> {
    if s.len() < 0x40 || s.take(2) != dos_magic() {
        None
    } else {
        let pe = le32(s, 0x3c);
        if pe + 22 > s.len() || s.subrange(pe, pe + 4) != nt_signature() {
            None
        } else {
            pe_headers(s, pe + 24 + le16(s, pe + 20), le16(s, pe + 6))
        }
    }
}

/// Finds the section body in a PE image.
pub fn find_section_pe(bytes: &[u8]) -> (r: Option<&[u8]>)
    ensures
        r matches Some(v) ==> pe_section(bytes@) == Some(v@),
        r is None ==> pe_section(bytes@) is None,
{
    if bytes.len() < 2 {
        return None;
    }
    let mz = vec![0x4du8, 0x5a];
    let head = vstd::slice::slice_subrange(bytes, 0, 2);
    assert(mz@ =~= dos_magic());
    assert(head@ =~= bytes@.take(2));
    if !same_bytes(head, mz.as_slice()) {
        return None;
    }
    let pe: u64 = match u32_at(bytes, 0x3c, 0) {
        Some(v) => v as u64,
        None => return None,
    };
    let signature = match bytes_at(bytes, pe, 4) {
        Some(s) => s,
        None => return None,
    };
    let nt = vec![0x50u8, 0x45, 0, 0];
    assert(nt@ =~= nt_signature());
    if !same_bytes(signature, nt.as_slice()) {
        return None;
    }
    let (num_sections, opt_size): (u16, u16) = match (u16_at(bytes, pe, 6), u16_at(bytes, pe, 20)) {
        (Some(n), Some(size)) => (n, size),
        _ => return None,
    };
    let want = vec![0x2eu8, 0x44, 0x45, 0x43, 0x4d, 0x50, 0x46, 0x53];
    assert(want@ =~= plain_section_name());
    let mut sh: u64 = pe + 24 + opt_size as u64;
    let mut left: u16 = num_sections;
    while left > 0
        invariant
            want@ == plain_section_name(),
            sh <= 0xffff_ffff + 24 + 0xffff + 40 * (0xffff - left),
            pe_section(bytes@) == pe_headers(bytes@, sh as int, left as int),
        decreases left,
    {
        let name = match bytes_at(bytes, sh, 8) {
            Some(name) => name,
            None => return None,
        };
        if name_eq(name, want.as_slice()) {
            return match (u32_at(bytes, sh, 8), u32_at(bytes, sh, 16), u32_at(bytes, sh, 20)) {
                (Some(virtual_size), Some(raw_size), Some(data_off)) => {
                    let len: u32 = if virtual_size <= raw_size {
                        virtual_size
                    } else {
                        raw_size
                    };
                    bytes_at(bytes, data_off as u64, len as u64)
                },
                _ => None,
            };
        }
        sh += 40;
        left -= 1;
    }
    None
}

/// The section body in an image of the host's object format.
pub open spec fn section_in(host: Host, s: Seq<u8>) -> Option<Seq<u8>> {
    match host {
        Host::MacOs => macho_section(s),
        Host::Linux => elf_section(s),
        Host::Windows => pe_section(s),
        Host::Other => None,
    }
}

/// Finds the section body in an image of the host's object format.
pub fn find_section(host: Host, bytes: &[u8]) -> (r: Option<&[u8]>)
    ensures
        r matches Some(v) ==> section_in(host, bytes@) == Some(v@),
        r is None ==> section_in(host, bytes@) is None,
{
    match host {
        Host::MacOs => find_section_macho(bytes),
        Host::Linux => find_section_elf(bytes),
        Host::Windows => find_section_pe(bytes),
        Host::Other => None,
    }
}

/// What a stub image carries: the content hash and the compressed payload.
pub open spec fn carried(host: Host, image: Seq<u8>) -> Option<(u64, Seq<u8>)> {
    match section_in(host, image) {
        Some(body) => parsed_body(body),
        None => None,
    }
}

/// Reads and validates the section of a stub's own image. `None` is an image that
/// is no compressed stub.
pub fn read_self_section(host: Host, image: &[u8]) -> (r: Option<SectionData>)
    ensures
        r matches Some(d) ==> carried(host, image@) == Some(d@),
        r is None ==> carried(host, image@) is None,
{
    match find_section(host, image) {
        Some(body) => parse_section_payload(body),
        None => None,
    }
}

} // verus!
