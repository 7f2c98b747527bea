//! Injecting into a Mach-O image.
//!
//! A read-only `SMOL/__DECMPFS` segment command goes in front of the `__LINKEDIT`
//! one, into the slack behind the load commands. `__LINKEDIT` and every file offset
//! that points into it move down by the page-rounded size of the section, and the
//! stale code signature is dropped. The result is unsigned.

use vstd::prelude::*;

use crate::bytes::{aligned, append, group_widths, le32, le32_bytes, le64, le64_bytes,
    overwrite, pad_to, put_bytes, put_u32, put_u64, round_up, zeroed, zeros};
use crate::inject::error::InjectError;
use crate::inject::fields::{need32, need64, u32_le, u64_le};
use crate::section::{macho_section_name, name_eq, segment_name, slot_holds, LC_SEGMENT_64,
    MH_MAGIC_64};

verus! {

pub const LC_SYMTAB: u32 = 0x02;

pub const LC_DYSYMTAB: u32 = 0x0b;

pub const LC_DYLD_INFO: u32 = 0x22;

pub const LC_DYLD_INFO_ONLY: u32 = 0x8000_0022;

pub const LC_TWOLEVEL_HINTS: u32 = 0x16;

pub const LC_SEGMENT_SPLIT_INFO: u32 = 0x1e;

pub const LC_FUNCTION_STARTS: u32 = 0x26;

pub const LC_DATA_IN_CODE: u32 = 0x29;

pub const LC_DYLIB_CODE_SIGN_DRS: u32 = 0x2b;

pub const LC_LINKER_OPTIMIZATION_HINT: u32 = 0x2e;

pub const LC_ATOM_INFO: u32 = 0x36;

pub const LC_CODE_SIGNATURE: u32 = 0x1d;

pub const LC_DYLD_CHAINED_FIXUPS: u32 = 0x8000_0034;

pub const LC_DYLD_EXPORTS_TRIE: u32 = 0x8000_0033;

pub const CPU_TYPE_ARM64: u32 = 0x0100_000c;

/// Read-only memory. A segment that is writable and executable as well is refused
/// when the image is mapped, whatever its signature.
pub const VM_PROT_READ: u32 = 1;

/// The segment in front of which the new one goes, `__LINKEDIT`.
pub open spec fn linkedit_name() -> Seq<u8> {
    seq![0x5f, 0x5f, 0x4c, 0x49, 0x4e, 0x4b, 0x45, 0x44, 0x49, 0x54]
}

/// The `__LINKEDIT` segment command.
pub struct Linkedit {
    /// Where the command is.
    pub lc_off: int,
    pub fileoff: int,
    pub vmaddr: int,
}

/// The code signature command.
pub struct Signature {
    /// Where the command is.
    pub lc_off: int,
    /// Where the signature is.
    pub dataoff: int,
}

/// What a walk over load commands has seen.
pub struct MachoWalk {
    pub linkedit: Option<Linkedit>,
    pub code_sig: Option<Signature>,
    /// The lowest file offset of a mapped section.
    pub first_section: Option<int>,
    /// Where the 32-bit fields are that hold a file offset into `__LINKEDIT`.
    pub pointers: Seq<int>,
}

/// A load command of this type holds one file offset into `__LINKEDIT`, in its first
/// field. The signature's does too, but is dropped.
pub open spec fn is_linkedit_data(cmd: int) -> bool {
    ||| cmd == LC_FUNCTION_STARTS
    ||| cmd == LC_DATA_IN_CODE
    ||| cmd == LC_DYLD_CHAINED_FIXUPS
    ||| cmd == LC_DYLD_EXPORTS_TRIE
    ||| cmd == LC_SEGMENT_SPLIT_INFO
    ||| cmd == LC_DYLIB_CODE_SIGN_DRS
    ||| cmd == LC_LINKER_OPTIMIZATION_HINT
    ||| cmd == LC_ATOM_INFO
    ||| cmd == LC_TWOLEVEL_HINTS
}

/// The fields of a load command of this type that hold a file offset into
/// `__LINKEDIT`, relative to the command.
pub open spec fn linkedit_fields(cmd: int) -> Seq<int> {
    if cmd == LC_DYLD_INFO || cmd == LC_DYLD_INFO_ONLY {
        seq![8, 16, 24, 32, 40]
    } else if cmd == LC_SYMTAB {
        seq![8, 16]
    } else if cmd == LC_DYSYMTAB {
        seq![32, 40, 48, 56, 64, 72]
    } else if is_linkedit_data(cmd) {
        seq![8]
    } else {
        seq![]
    }
}

/// Those fields of the command at `off`.
pub open spec fn pointer_fields(cmd: int, off: int) -> Seq<int> {
    Seq::new(linkedit_fields(cmd).len(), |i: int| off + linkedit_fields(cmd)[i])
}

/// The lowest file offset among `left` section headers from `soff` on, given the
/// lowest so far. A section at offset zero is zero-filled and not in the file.
pub open spec fn lowest_section(
    s: Seq<u8>,
    soff: int,
    left: int,
    lowest: Option<int>,
) -> Result<Option<int>, InjectError>
    decreases left,
{
    if left <= 0 {
        Ok(lowest)
    } else {
        match need32(s, soff + 48) {
            Err(e) => Err(e),
            Ok(offset) => lowest_section(
                s,
                soff + 80,
                left - 1,
                if offset != 0 && (lowest matches Some(l) ==> offset < l) {
                    Some(offset)
                } else {
                    lowest
                },
            ),
        }
    }
}

/// What a walk has seen once it has passed the segment command at `off`.
pub open spec fn segment_seen(s: Seq<u8>, off: int, w: MachoWalk) -> Result<
    MachoWalk,
    InjectError,
> {
    if off + 24 > s.len() {
        Err(InjectError::CorruptLayout)
    } else {
        match (need64(s, off + 40), need32(s, off + 64)) {
            (Err(e), _) => Err(e),
            (_, Err(e)) => Err(e),
            (Ok(fileoff), Ok(nsects)) => match lowest_section(
                s,
                off + 72,
                nsects,
                w.first_section,
            ) {
                Err(e) => Err(e),
                Ok(first_section) => {
                    let linkedit = if slot_holds(s.subrange(off + 8, off + 24), linkedit_name()) {
                        Some(Linkedit { lc_off: off, fileoff, vmaddr: le64(s, off + 24) })
                    } else {
                        w.linkedit
                    };
                    Ok(MachoWalk { linkedit, first_section, ..w })
                },
            },
        }
    }
}

/// What a walk has seen once it has passed the load command at `off`.
pub open spec fn command_seen(s: Seq<u8>, off: int, w: MachoWalk) -> Result<
    MachoWalk,
    InjectError,
> {
    let cmd = le32(s, off);
    if cmd == LC_SEGMENT_64 {
        segment_seen(s, off, w)
    } else if cmd == LC_CODE_SIGNATURE {
        match need32(s, off + 8) {
            Err(e) => Err(e),
            Ok(dataoff) => Ok(
                MachoWalk { code_sig: Some(Signature { lc_off: off, dataoff }), ..w },
            ),
        }
    } else {
        Ok(MachoWalk { pointers: w.pointers + pointer_fields(cmd, off), ..w })
    }
}

/// The walk over `left` load commands from `off` on: what it has seen in the end,
/// and where the load commands end.
pub open spec fn macho_walk(s: Seq<u8>, off: int, left: int, w: MachoWalk) -> Result<
    (MachoWalk, int),
    InjectError,
>
    decreases left,
{
    if left <= 0 {
        Ok((w, off))
    } else {
        match (need32(s, off), need32(s, off + 4)) {
            (Err(e), _) => Err(e),
            (_, Err(e)) => Err(e),
            (Ok(_), Ok(cmdsize)) => if cmdsize < 8 || off + cmdsize > s.len() {
                Err(InjectError::MalformedCommand { at: off as u64, cmdsize: cmdsize as u64 })
            } else {
                match command_seen(s, off, w) {
                    Err(e) => Err(e),
                    Ok(seen) => macho_walk(s, off + cmdsize, left - 1, seen),
                }
            },
        }
    }
}

/// What an injection has to know of a Mach-O stub.
pub struct MachoLayout {
    pub page_size: int,
    pub linkedit: Linkedit,
    pub code_sig: Option<Signature>,
    pub first_section: int,
    pub end_of_lc: int,
    pub pointers: Seq<int>,
}

/// Nothing seen yet.
pub open spec fn nothing_seen() -> MachoWalk {
    MachoWalk { linkedit: None, code_sig: None, first_section: None, pointers: seq![] }
}

/// What an injection has to know of a Mach-O stub, or why it is refused.
pub open spec fn macho_layout(s: Seq<u8>) -> Result<MachoLayout, InjectError> {
    if s.len() > i64::MAX {
        Err(InjectError::TooLarge)
    } else {
        match (need32(s, 0), need32(s, 4), need32(s, 16)) {
            (Err(e), _, _) => Err(e),
            (Ok(magic), cputype, ncmds) => if magic != MH_MAGIC_64 {
                Err(InjectError::BadMachMagic)
            } else {
                match (cputype, ncmds) {
                    (Err(e), _) => Err(e),
                    (_, Err(e)) => Err(e),
                    (Ok(cputype), Ok(ncmds)) => match macho_walk(s, 32, ncmds, nothing_seen()) {
                        Err(e) => Err(e),
                        Ok((w, end_of_lc)) => match (w.linkedit, w.first_section) {
                            (None, _) => Err(InjectError::NoLinkedit),
                            (_, None) => Err(InjectError::NoMappedSection),
                            (Some(linkedit), Some(first_section)) => Ok(
                                MachoLayout {
                                    page_size: if cputype == CPU_TYPE_ARM64 {
                                        0x4000
                                    } else {
                                        0x1000
                                    },
                                    linkedit,
                                    code_sig: w.code_sig,
                                    first_section,
                                    end_of_lc,
                                    pointers: w.pointers,
                                },
                            ),
                        },
                    },
                }
            },
        }
    }
}

/// A found code signature command.
pub struct CodeSig {
    pub lc_off: u64,
    pub dataoff: u64,
}

/// The structural anchors found by walking the load commands once.
pub struct Layout {
    pub page_size: u64,
    /// Where the `__LINKEDIT` segment command is: the splice point.
    pub linkedit_lc_off: u64,
    pub linkedit_fileoff: u64,
    pub linkedit_vmaddr: u64,
    pub code_sig: Option<CodeSig>,
    /// The load commands must not overrun the first mapped section.
    pub first_section_offset: u64,
    pub end_of_lc: u64,
    /// The fields that point into `__LINKEDIT`, by their place in the stub.
    pub linkedit_pointers: Vec<u64>,
}

/// Offsets as mathematical integers.
pub open spec fn ints(offsets: Seq<u64>) -> Seq<int> {
    Seq::new(offsets.len(), |i: int| offsets[i] as int)
}

/// A found code signature command as a mathematical value.
pub open spec fn sig_view(sig: Option<CodeSig>) -> Option<Signature> {
    match sig {
        None => None,
        Some(c) => Some(Signature { lc_off: c.lc_off as int, dataoff: c.dataoff as int }),
    }
}

impl View for Layout {
    type V = MachoLayout;

    open spec fn view(&self) -> MachoLayout {
        MachoLayout {
            page_size: self.page_size as int,
            linkedit: Linkedit {
                lc_off: self.linkedit_lc_off as int,
                fileoff: self.linkedit_fileoff as int,
                vmaddr: self.linkedit_vmaddr as int,
            },
            code_sig: sig_view(self.code_sig),
            first_section: self.first_section_offset as int,
            end_of_lc: self.end_of_lc as int,
            pointers: ints(self.linkedit_pointers@),
        }
    }
}

/// The state of the walk over load commands.
struct Walk {
    linkedit: Option<(u64, u64, u64)>,
    code_sig: Option<CodeSig>,
    first_section: Option<u32>,
    pointers: Vec<u64>,
}

impl View for Walk {
    type V = MachoWalk;

    closed spec fn view(&self) -> MachoWalk {
        MachoWalk {
            linkedit: match self.linkedit {
                None => None,
                Some((lc_off, fileoff, vmaddr)) => Some(
                    Linkedit {
                        lc_off: lc_off as int,
                        fileoff: fileoff as int,
                        vmaddr: vmaddr as int,
                    },
                ),
            },
            code_sig: sig_view(self.code_sig),
            first_section: match self.first_section {
                None => None,
                Some(v) => Some(v as int),
            },
            pointers: ints(self.pointers@),
        }
    }
}

/// The fields of a load command of this type that point into `__LINKEDIT`.
fn fields_of(cmd: u32) -> (r: Vec<u64>)
    ensures
        ints(r@) == linkedit_fields(cmd as int),
        forall|i: int| 0 <= i < r@.len() ==> r@[i] <= 72,
{
    let fields: Vec<u64> = if cmd == LC_DYLD_INFO || cmd == LC_DYLD_INFO_ONLY {
        // rebase, bind, weak bind, lazy bind and export tables.
        vec![8, 16, 24, 32, 40]
    } else if cmd == LC_SYMTAB {
        // The symbols and their names.
        vec![8, 16]
    } else if cmd == LC_DYSYMTAB {
        // Contents, modules, external references, indirect symbols, and external
        // and local relocations.
        vec![32, 40, 48, 56, 64, 72]
    } else if cmd == LC_FUNCTION_STARTS || cmd == LC_DATA_IN_CODE || cmd == LC_DYLD_CHAINED_FIXUPS
        || cmd == LC_DYLD_EXPORTS_TRIE || cmd == LC_SEGMENT_SPLIT_INFO || cmd
        == LC_DYLIB_CODE_SIGN_DRS || cmd == LC_LINKER_OPTIMIZATION_HINT || cmd == LC_ATOM_INFO
        || cmd == LC_TWOLEVEL_HINTS {
        vec![8]
    } else {
        Vec::new()
    };
    assert(ints(fields@) =~= linkedit_fields(cmd as int));
    fields
}

/// Adds the fields of the command at `off` that point into `__LINKEDIT`.
fn add_pointers(pointers: &mut Vec<u64>, cmd: u32, off: u64)
    requires
        off <= i64::MAX,
    ensures
        ints(final(pointers)@) == ints(old(pointers)@) + pointer_fields(cmd as int, off as int),
{
    let fields = fields_of(cmd);
    let mut i: usize = 0;
    assert(ints(pointers@) =~= ints(pointers@) + pointer_fields(cmd as int, off as int).take(0));
    while i < fields.len()
        invariant
            i <= fields@.len(),
            off <= i64::MAX,
            ints(fields@) == linkedit_fields(cmd as int),
            forall|k: int| 0 <= k < fields@.len() ==> fields@[k] <= 72,
            ints(pointers@) == ints(old(pointers)@) + pointer_fields(
                cmd as int,
                off as int,
            ).take(i as int),
        decreases fields@.len() - i,
    {
        let ghost before = pointers@;
        assert(ints(fields@)[i as int] == fields@[i as int]);
        pointers.push(off + fields[i]);
        i += 1;
        assert(ints(pointers@) =~= ints(before).push(off + fields@[i - 1]));
        assert(pointer_fields(cmd as int, off as int).take(i as int) =~= pointer_fields(
            cmd as int,
            off as int,
        ).take(i - 1).push(off + fields@[i - 1]));
    }
    assert(pointer_fields(cmd as int, off as int).take(i as int) =~= pointer_fields(
        cmd as int,
        off as int,
    ));
}

spec fn some_int(v: Option<u32>) -> Option<int> {
    match v {
        None => None,
        Some(n) => Some(n as int),
    }
}

/// The lowest file offset among section headers, given the lowest so far.
fn walk_sections(bytes: &[u8], start: u64, nsects: u32, lowest: Option<u32>) -> (r: Result<
    Option<u32>,
    InjectError,
>)
    requires
        bytes@.len() <= i64::MAX,
        start <= i64::MAX + 80,
    ensures
        match lowest_section(bytes@, start as int, nsects as int, some_int(lowest)) {
            Err(e) => r == Err::<Option<u32>, InjectError>(e),
            Ok(v) => r matches Ok(n) && some_int(n) == v,
        },
{
    let mut low = lowest;
    let mut soff: u64 = start;
    let mut left: u32 = nsects;
    while left > 0
        invariant
            bytes@.len() <= i64::MAX,
            soff <= i64::MAX + 80,
            lowest_section(bytes@, start as int, nsects as int, some_int(lowest))
                == lowest_section(bytes@, soff as int, left as int, some_int(low)),
        decreases left,
    {
        let offset: u32 = match u32_le(bytes, soff + 48) {
            Ok(v) => v,
            Err(e) => return Err(e),
        };
        if offset != 0 {
            match low {
                Some(l) => if offset < l {
                    low = Some(offset);
                },
                None => low = Some(offset),
            }
        }
        soff += 80;
        left -= 1;
    }
    Ok(low)
}

/// Takes in the segment command at `off`.
fn walk_segment(bytes: &[u8], off: u64, w: Walk) -> (r: Result<Walk, InjectError>)
    requires
        bytes@.len() <= i64::MAX,
        off + 8 <= bytes@.len(),
    ensures
        match segment_seen(bytes@, off as int, w@) {
            Err(e) => r == Err::<Walk, InjectError>(e),
            Ok(seen) => r matches Ok(v) && v@ == seen,
        },
{
    if off + 24 > bytes.len() as u64 {
        return Err(InjectError::CorruptLayout);
    }
    let name = vstd::slice::slice_subrange(bytes, off as usize + 8, off as usize + 24);
    let fileoff: u64 = match u64_le(bytes, off + 40) {
        Ok(v) => v,
        Err(e) => return Err(e),
    };
    let nsects: u32 = match u32_le(bytes, off + 64) {
        Ok(v) => v,
        Err(e) => return Err(e),
    };
    let first_section = match walk_sections(bytes, off + 72, nsects, w.first_section) {
        Ok(v) => v,
        Err(e) => return Err(e),
    };
    let mut w = w;
    let want = vec![0x5fu8, 0x5f, 0x4c, 0x49, 0x4e, 0x4b, 0x45, 0x44, 0x49, 0x54];
    assert(want@ =~= linkedit_name());
    if name_eq(name, want.as_slice()) {
        let vmaddr: u64 = match u64_le(bytes, off + 24) {
            Ok(v) => v,
            Err(e) => return Err(e),
        };
        w.linkedit = Some((off, fileoff, vmaddr));
    }
    w.first_section = first_section;
    Ok(w)
}

/// Takes in the load command at `off`.
fn walk_command(bytes: &[u8], off: u64, cmd: u32, w: Walk) -> (r: Result<Walk, InjectError>)
    requires
        bytes@.len() <= i64::MAX,
        off + 8 <= bytes@.len(),
        cmd == le32(bytes@, off as int),
    ensures
        match command_seen(bytes@, off as int, w@) {
            Err(e) => r == Err::<Walk, InjectError>(e),
            Ok(seen) => r matches Ok(v) && v@ == seen,
        },
{
    if cmd == LC_SEGMENT_64 {
        return walk_segment(bytes, off, w);
    }
    let mut w = w;
    if cmd == LC_CODE_SIGNATURE {
        match u32_le(bytes, off + 8) {
            Ok(dataoff) => {
                w.code_sig = Some(CodeSig { lc_off: off, dataoff: dataoff as u64 });
                Ok(w)
            },
            Err(e) => Err(e),
        }
    } else {
        add_pointers(&mut w.pointers, cmd, off);
        Ok(w)
    }
}

/// Walks the header and the load commands once, recording every anchor that an
/// injection touches. Refuses anything but a 64-bit little-endian Mach-O.
pub fn read_layout(bytes: &[u8]) -> (r: Result<Layout, InjectError>)
    ensures
        match macho_layout(bytes@) {
            Err(e) => r == Err::<Layout, InjectError>(e),
            Ok(lay) => r matches Ok(v) && v@ == lay,
        },
{
    broadcast use group_widths;

    if bytes.len() as u64 > 0x7fff_ffff_ffff_ffff {
        return Err(InjectError::TooLarge);
    }
    match u32_le(bytes, 0) {
        Ok(magic) => if magic != MH_MAGIC_64 {
            return Err(InjectError::BadMachMagic);
        },
        Err(e) => return Err(e),
    }
    let cputype: u32 = match u32_le(bytes, 4) {
        Ok(v) => v,
        Err(e) => return Err(e),
    };
    let page_size: u64 = if cputype == CPU_TYPE_ARM64 {
        0x4000
    } else {
        0x1000
    };
    let ncmds: u32 = match u32_le(bytes, 16) {
        Ok(v) => v,
        Err(e) => return Err(e),
    };
    let mut w = Walk { linkedit: None, code_sig: None, first_section: None, pointers: Vec::new() };
    assert(w@.pointers =~= seq![]);
    let ghost whole = macho_walk(bytes@, 32, ncmds as int, nothing_seen());
    assert(whole matches Err(e) ==> macho_layout(bytes@) == Err::<MachoLayout, InjectError>(e));
    let mut off: u64 = 32;
    let mut left: u32 = ncmds;
    while left > 0
        invariant
            bytes@.len() <= i64::MAX,
            off <= i64::MAX,
            whole == macho_walk(bytes@, off as int, left as int, w@),
            whole matches Err(e) ==> macho_layout(bytes@) == Err::<MachoLayout, InjectError>(e),
        decreases left,
    {
        let cmd: u32 = match u32_le(bytes, off) {
            Ok(v) => v,
            Err(e) => return Err(e),
        };
        let cmdsize: u32 = match u32_le(bytes, off + 4) {
            Ok(v) => v,
            Err(e) => return Err(e),
        };
        if cmdsize < 8 || off + cmdsize as u64 > bytes.len() as u64 {
            return Err(InjectError::MalformedCommand { at: off, cmdsize: cmdsize as u64 });
        }
        match walk_command(bytes, off, cmd, w) {
            Ok(seen) => w = seen,
            Err(e) => return Err(e),
        }
        off += cmdsize as u64;
        left -= 1;
    }
    let (linkedit_lc_off, linkedit_fileoff, linkedit_vmaddr): (u64, u64, u64) = match w.linkedit {
        Some(found) => found,
        None => return Err(InjectError::NoLinkedit),
    };
    match w.first_section {
        None => Err(InjectError::NoMappedSection),
        Some(first) => Ok(
            Layout {
                page_size,
                linkedit_lc_off,
                linkedit_fileoff,
                linkedit_vmaddr,
                code_sig: w.code_sig,
                first_section_offset: first as u64,
                end_of_lc: off,
                linkedit_pointers: w.pointers,
            },
        ),
    }
}

/// The new segment command: a read-only segment `SMOL` with one section,
/// `__DECMPFS`. The segment's size on disk and the section's are the body's; the
/// size in memory is page-rounded.
pub open spec fn segment_lc(body_len: int, delta: int, fileoff: int, vmaddr: int) -> Seq<u8> {
    let typed = overwrite(zeros(152), 0, le32_bytes(LC_SEGMENT_64 as int));
    let sized = overwrite(typed, 4, le32_bytes(152));
    let named = overwrite(sized, 8, segment_name());
    let mapped = overwrite(named, 24, le64_bytes(vmaddr));
    let rounded = overwrite(mapped, 32, le64_bytes(delta));
    let placed = overwrite(rounded, 40, le64_bytes(fileoff));
    let filled = overwrite(placed, 48, le64_bytes(body_len));
    let most = overwrite(filled, 56, le32_bytes(VM_PROT_READ as int));
    let initial = overwrite(most, 60, le32_bytes(VM_PROT_READ as int));
    let counted = overwrite(initial, 64, le32_bytes(1));
    section_header(counted, body_len, fileoff, vmaddr)
}

/// The command `s` with its section header.
pub open spec fn section_header(s: Seq<u8>, body_len: int, fileoff: int, vmaddr: int) -> Seq<u8> {
    let named = overwrite(s, 72, macho_section_name());
    let owned = overwrite(named, 88, segment_name());
    let mapped = overwrite(owned, 104, le64_bytes(vmaddr));
    let sized = overwrite(mapped, 112, le64_bytes(body_len));
    let placed = overwrite(sized, 120, le32_bytes(fileoff % 0x1_0000_0000));
    overwrite(placed, 124, le32_bytes(2))
}

/// Builds the new segment command.
pub fn build_segment_lc(body_len: u64, delta: u64, fileoff: u64, vmaddr: u64) -> (r: Vec<u8>)
    ensures
        r@ == segment_lc(body_len as int, delta as int, fileoff as int, vmaddr as int),
        r@.len() == 152,
{
    let segment = vec![0x53u8, 0x4d, 0x4f, 0x4c];
    assert(segment@ =~= segment_name());
    let section = vec![0x5fu8, 0x5f, 0x44, 0x45, 0x43, 0x4d, 0x50, 0x46, 0x53];
    assert(section@ =~= macho_section_name());
    let mut lc: Vec<u8> = zeroed(152);
    put_u32(&mut lc, 0, LC_SEGMENT_64);
    put_u32(&mut lc, 4, 152);
    put_bytes(&mut lc, 8, segment.as_slice());
    put_u64(&mut lc, 24, vmaddr);
    put_u64(&mut lc, 32, delta);
    put_u64(&mut lc, 40, fileoff);
    put_u64(&mut lc, 48, body_len);
    put_u32(&mut lc, 56, VM_PROT_READ);
    put_u32(&mut lc, 60, VM_PROT_READ);
    put_u32(&mut lc, 64, 1);
    put_bytes(&mut lc, 72, section.as_slice());
    put_bytes(&mut lc, 88, segment.as_slice());
    put_u64(&mut lc, 104, vmaddr);
    put_u64(&mut lc, 112, body_len);
    put_u32(&mut lc, 120, (fileoff % 0x1_0000_0000) as u32);
    put_u32(&mut lc, 124, 2);
    lc
}

/// By how much `__LINKEDIT` moves.
pub open spec fn macho_delta(body: Seq<u8>, lay: MachoLayout) -> int {
    aligned(body.len() as int, lay.page_size)
}

/// Where `__LINKEDIT`'s bytes end in a stub of this length. The old signature
/// trails them and is left out.
pub open spec fn linkedit_end(len: int, lay: MachoLayout) -> int {
    match lay.code_sig {
        Some(sig) => sig.dataoff,
        None => len,
    }
}

/// The stub with the new command spliced in, and the section's content where
/// `__LINKEDIT` was. The commands from `__LINKEDIT`'s on move into the slack, so
/// nothing behind the load commands and in front of `__LINKEDIT` moves.
pub open spec fn macho_spliced(stub: Seq<u8>, body: Seq<u8>, lay: MachoLayout) -> Seq<u8> {
    let lc_off = lay.linkedit.lc_off;
    let delta = macho_delta(body, lay);
    stub.take(lc_off) + segment_lc(
        body.len() as int,
        delta,
        lay.linkedit.fileoff,
        lay.linkedit.vmaddr,
    ) + stub.subrange(lc_off, lay.end_of_lc) + stub.subrange(
        lay.end_of_lc + 152,
        lay.linkedit.fileoff,
    ) + body + zeros(delta - body.len()) + stub.subrange(
        lay.linkedit.fileoff,
        linkedit_end(stub.len() as int, lay),
    )
}

/// `s` with the `__LINKEDIT` command at `at` moved by `delta`. Where the signature
/// was left out, `kept` is what remains of the segment: it claims no more than
/// that.
pub open spec fn moved_linkedit(
    s: Seq<u8>,
    at: int,
    delta: int,
    kept: Option<int>,
    page_size: int,
) -> Result<Seq<u8>, InjectError> {
    match need64(s, at + 40) {
        Err(e) => Err(e),
        Ok(fileoff) => {
            let placed = overwrite(s, at + 40, le64_bytes(fileoff + delta));
            let vmaddr = le64(placed, at + 24);
            let mapped = overwrite(placed, at + 24, le64_bytes(vmaddr + delta));
            if fileoff + delta > u64::MAX || vmaddr + delta > u64::MAX {
                Err(InjectError::CorruptLayout)
            } else {
                match kept {
                    None => Ok(mapped),
                    Some(n) => if at + 56 > s.len() {
                        Err(InjectError::CorruptLayout)
                    } else {
                        let filled = overwrite(mapped, at + 48, le64_bytes(n));
                        Ok(overwrite(filled, at + 32, le64_bytes(aligned(n, page_size))))
                    },
                }
            }
        },
    }
}

/// Where a field of the stub is once the new command is spliced in at `lc_off`.
pub open spec fn shifted(at: int, lc_off: int) -> int {
    if at >= lc_off {
        at + 152
    } else {
        at
    }
}

/// `s` with the file offset at `at` moved by `delta`. Zero marks an absent table.
pub open spec fn bumped(s: Seq<u8>, at: int, delta: int) -> Result<Seq<u8>, InjectError> {
    match need32(s, at) {
        Err(e) => Err(e),
        Ok(current) => if current == 0 {
            Ok(s)
        } else if current + delta % 0x1_0000_0000 > u32::MAX {
            Err(InjectError::CorruptLayout)
        } else {
            Ok(overwrite(s, at, le32_bytes(current + delta % 0x1_0000_0000)))
        },
    }
}

/// `s` with the file offsets from the `i`-th on moved by `delta`.
pub open spec fn all_bumped(
    s: Seq<u8>,
    pointers: Seq<int>,
    i: int,
    lc_off: int,
    delta: int,
) -> Result<Seq<u8>, InjectError>
    decreases pointers.len() - i,
{
    if i >= pointers.len() {
        Ok(s)
    } else {
        match bumped(s, shifted(pointers[i], lc_off), delta) {
            Err(e) => Err(e),
            Ok(t) => all_bumped(t, pointers, i + 1, lc_off, delta),
        }
    }
}

/// `s` with this many load commands of this size in its header.
pub open spec fn counted(s: Seq<u8>, ncmds: int, sizeofcmds: int) -> Seq<u8> {
    overwrite(overwrite(s, 16, le32_bytes(ncmds)), 20, le32_bytes(sizeofcmds))
}

/// `s` with the new command counted, and the signature command, which is at `sig`,
/// zeroed and not counted. In the stub there were `ncmds` commands of `sizeofcmds`
/// bytes.
pub open spec fn stripped(
    s: Seq<u8>,
    sig: Option<int>,
    ncmds: int,
    sizeofcmds: int,
) -> Result<Seq<u8>, InjectError> {
    if ncmds + 1 > u32::MAX || sizeofcmds + 152 > u32::MAX {
        Err(InjectError::CorruptLayout)
    } else {
        match sig {
            None => Ok(counted(s, ncmds + 1, sizeofcmds + 152)),
            Some(at) => match need32(s, at + 4) {
                Err(e) => Err(e),
                Ok(cmdsize) => if cmdsize > sizeofcmds + 152 {
                    Err(InjectError::CorruptLayout)
                } else {
                    Ok(counted(overwrite(s, at, zeros(cmdsize)), ncmds, sizeofcmds + 152 - cmdsize))
                },
            },
        }
    }
}

/// Why a stub with this layout has no room for the section.
pub open spec fn macho_refused(stub: Seq<u8>, body: Seq<u8>, lay: MachoLayout) -> Option<
    InjectError,
> {
    let slack = lay.first_section - lay.end_of_lc;
    let start = lay.linkedit.fileoff;
    let end = linkedit_end(stub.len() as int, lay);
    if slack < 0 {
        Some(InjectError::CorruptLayout)
    } else if slack < 152 {
        Some(InjectError::NoHeaderSlack { slack: slack as u64 })
    } else if end < start {
        Some(InjectError::SignatureBeforeLinkedit)
    } else if start < lay.end_of_lc + 152 || stub.len() < end {
        Some(InjectError::CorruptLayout)
    } else if end + macho_delta(body, lay) > usize::MAX {
        Some(InjectError::TooLarge)
    } else {
        None
    }
}

/// What remains of `__LINKEDIT` where the signature was left out.
pub open spec fn linkedit_kept(lay: MachoLayout) -> Option<int> {
    match lay.code_sig {
        Some(sig) => Some(sig.dataoff - lay.linkedit.fileoff),
        None => None,
    }
}

/// Where the signature command is once the new command is spliced in.
pub open spec fn stale_command(lay: MachoLayout) -> Option<int> {
    match lay.code_sig {
        Some(sig) => Some(sig.lc_off + 152),
        None => None,
    }
}

/// The stub with the section injected, or why it is refused.
pub open spec fn macho_injected(stub: Seq<u8>, body: Seq<u8>) -> Result<Seq<u8>, InjectError> {
    match macho_layout(stub) {
        Err(e) => Err(e),
        Ok(lay) => match macho_refused(stub, body, lay) {
            Some(e) => Err(e),
            None => {
                let lc_off = lay.linkedit.lc_off;
                let delta = macho_delta(body, lay);
                match moved_linkedit(
                    macho_spliced(stub, body, lay),
                    lc_off + 152,
                    delta,
                    linkedit_kept(lay),
                    lay.page_size,
                ) {
                    Err(e) => Err(e),
                    Ok(moved) => match all_bumped(moved, lay.pointers, 0, lc_off, delta) {
                        Err(e) => Err(e),
                        Ok(pointed) => stripped(
                            pointed,
                            stale_command(lay),
                            le32(stub, 16),
                            le32(stub, 20),
                        ),
                    },
                }
            },
        },
    }
}

/// What every layout that could be read satisfies.
pub open spec fn layout_wf(s: Seq<u8>, lay: MachoLayout) -> bool {
    &&& lay.page_size == 0x4000 || lay.page_size == 0x1000
    &&& 32 <= lay.linkedit.lc_off
    &&& lay.linkedit.lc_off + 8 <= lay.end_of_lc
    &&& lay.end_of_lc <= s.len() <= i64::MAX
    &&& 0 <= lay.linkedit.fileoff <= u64::MAX
    &&& 0 <= lay.linkedit.vmaddr <= u64::MAX
    &&& 0 < lay.first_section <= u32::MAX
    &&& lay.code_sig matches Some(sig) ==> 32 <= sig.lc_off && sig.lc_off + 8 <= lay.end_of_lc && 0
        <= sig.dataoff <= u32::MAX
    &&& forall|i: int|
        0 <= i < lay.pointers.len() ==> 32 <= #[trigger] lay.pointers[i] < lay.end_of_lc + 72
}

/// What every walk that has come to `off` satisfies.
spec fn walk_wf(s: Seq<u8>, off: int, w: MachoWalk) -> bool {
    &&& 32 <= off
    &&& w.linkedit matches Some(l) ==> 32 <= l.lc_off && l.lc_off + 8 <= off && 0 <= l.fileoff
        <= u64::MAX && 0 <= l.vmaddr <= u64::MAX
    &&& w.first_section matches Some(v) ==> 0 < v <= u32::MAX
    &&& w.code_sig matches Some(sig) ==> 32 <= sig.lc_off && sig.lc_off + 8 <= off && 0
        <= sig.dataoff <= u32::MAX
    &&& forall|i: int|
        0 <= i < w.pointers.len() ==> 32 <= #[trigger] w.pointers[i] < off + 72
}

proof fn lemma_lowest(s: Seq<u8>, soff: int, left: int, lowest: Option<int>)
    requires
        lowest matches Some(v) ==> 0 < v <= u32::MAX,
    ensures
        lowest_section(s, soff, left, lowest) matches Ok(Some(v)) ==> 0 < v <= u32::MAX,
    decreases left,
{
    broadcast use group_widths;

    if left > 0 && soff + 52 <= s.len() {
        let offset = le32(s, soff + 48);
        let next = if offset != 0 && (lowest matches Some(l) ==> offset < l) {
            Some(offset)
        } else {
            lowest
        };
        lemma_lowest(s, soff + 80, left - 1, next);
    }
}

proof fn lemma_walk_wf(s: Seq<u8>, off: int, left: int, w: MachoWalk)
    requires
        walk_wf(s, off, w),
    ensures
        macho_walk(s, off, left, w) matches Ok((seen, end)) ==> walk_wf(s, end, seen) && (left > 0
            ==> end <= s.len()),
    decreases left,
{
    broadcast use group_widths;

    if left > 0 && off + 8 <= s.len() {
        let cmd = le32(s, off);
        let cmdsize = le32(s, off + 4);
        if cmdsize >= 8 && off + cmdsize <= s.len() {
            lemma_lowest(s, off + 72, le32(s, off + 64), w.first_section);
            if let Ok(seen) = command_seen(s, off, w) {
                assert(walk_wf(s, off + cmdsize, seen)) by {
                    let fields = pointer_fields(cmd, off);
                    assert forall|i: int| 0 <= i < fields.len() implies off < #[trigger] fields[i]
                        <= off + 72 by {
                        assert(fields[i] == off + linkedit_fields(cmd)[i]);
                    }
                    assert(fields.len() > 0 ==> seen.pointers == w.pointers + fields);
                }
                lemma_walk_wf(s, off + cmdsize, left - 1, seen);
            }
        }
    }
}

proof fn lemma_layout_wf(s: Seq<u8>)
    ensures
        macho_layout(s) matches Ok(lay) ==> layout_wf(s, lay),
{
    broadcast use group_widths;

    lemma_walk_wf(s, 32, le32(s, 16), nothing_seen());
}

/// Moves the `__LINKEDIT` command by `delta`.
fn move_linkedit(
    out: &mut Vec<u8>,
    at: u64,
    delta: u64,
    kept: Option<u64>,
    page_size: u64,
) -> (r: Result<(), InjectError>)
    requires
        at <= 0xffff_ffff_ffff_f000,
        page_size <= 0x4000,
        kept matches Some(n) ==> n <= u32::MAX,
    ensures
        match moved_linkedit(
            old(out)@,
            at as int,
            delta as int,
            match kept {
                None => None,
                Some(n) => Some(n as int),
            },
            page_size as int,
        ) {
            Err(e) => r == Err::<(), InjectError>(e),
            Ok(t) => r is Ok && final(out)@ == t,
        },
        final(out)@.len() == old(out)@.len(),
{
    let len: usize = out.len();
    let fileoff: u64 = match u64_le(out.as_slice(), at + 40) {
        Ok(v) => v,
        Err(e) => return Err(e),
    };
    match fileoff.checked_add(delta) {
        Some(v) => put_u64(out, at as usize + 40, v),
        None => return Err(InjectError::CorruptLayout),
    }
    let vmaddr: u64 = match u64_le(out.as_slice(), at + 24) {
        Ok(v) => v,
        Err(e) => return Err(e),
    };
    match vmaddr.checked_add(delta) {
        Some(v) => put_u64(out, at as usize + 24, v),
        None => return Err(InjectError::CorruptLayout),
    }
    match kept {
        None => Ok(()),
        Some(n) => {
            if at + 56 > len as u64 {
                return Err(InjectError::CorruptLayout);
            }
            put_u64(out, at as usize + 48, n);
            put_u64(out, at as usize + 32, round_up(n as u128, page_size as u128) as u64);
            Ok(())
        },
    }
}

/// Moves every file offset that points into `__LINKEDIT` by `delta`.
fn bump_pointers(out: &mut Vec<u8>, pointers: &Vec<u64>, lc_off: u64, delta: u64) -> (r: Result<
    (),
    InjectError,
>)
    requires
        forall|i: int| 0 <= i < pointers@.len() ==> #[trigger] pointers@[i] <= 0xffff_ffff_ffff_f000,
    ensures
        match all_bumped(old(out)@, ints(pointers@), 0, lc_off as int, delta as int) {
            Err(e) => r == Err::<(), InjectError>(e),
            Ok(t) => r is Ok && final(out)@ == t,
        },
        final(out)@.len() == old(out)@.len(),
{
    let step: u64 = delta % 0x1_0000_0000;
    let mut i: usize = 0;
    while i < pointers.len()
        invariant
            i <= pointers@.len(),
            out@.len() == old(out)@.len(),
            step == delta as int % 0x1_0000_0000,
            forall|k: int|
                0 <= k < pointers@.len() ==> #[trigger] pointers@[k] <= 0xffff_ffff_ffff_f000,
            all_bumped(old(out)@, ints(pointers@), 0, lc_off as int, delta as int) == all_bumped(
                out@,
                ints(pointers@),
                i as int,
                lc_off as int,
                delta as int,
            ),
        decreases pointers@.len() - i,
    {
        let len: usize = out.len();
        let at: u64 = if pointers[i] >= lc_off {
            pointers[i] + 152
        } else {
            pointers[i]
        };
        assert(at == shifted(ints(pointers@)[i as int], lc_off as int));
        let current: u32 = match u32_le(out.as_slice(), at) {
            Ok(v) => v,
            Err(e) => return Err(e),
        };
        if current != 0 {
            let moved: u64 = current as u64 + step;
            if moved > 0xffff_ffff {
                return Err(InjectError::CorruptLayout);
            }
            put_u32(out, at as usize, moved as u32);
        }
        i += 1;
    }
    Ok(())
}

/// Zeroes the bytes from `from` on, up to `n` of them.
fn zero_out(out: &mut Vec<u8>, from: usize, n: usize)
    requires
        from <= old(out)@.len(),
    ensures
        final(out)@ == overwrite(old(out)@, from as int, zeros(n as int)),
{
    let end: usize = if n < out.len() - from {
        from + n
    } else {
        out.len()
    };
    let mut i: usize = from;
    while i < end
        invariant
            from <= i <= end <= out@.len(),
            end <= from + n,
            out@.len() == old(out)@.len(),
            forall|k: int|
                0 <= k < out@.len() ==> #[trigger] out@[k] == if from <= k < i {
                    0
                } else {
                    old(out)@[k]
                },
        decreases end - i,
    {
        out.set(i, 0);
        i += 1;
    }
    assert(out@ =~= overwrite(old(out)@, from as int, zeros(n as int)));
}

/// Counts the new command, and drops the signature command.
fn strip_signature(out: &mut Vec<u8>, sig: Option<u64>, ncmds: u32, sizeofcmds: u32) -> (r: Result<
    (),
    InjectError,
>)
    requires
        old(out)@.len() >= 32,
        sig matches Some(at) ==> at <= 0xffff_ffff_ffff_f000,
    ensures
        match stripped(
            old(out)@,
            match sig {
                None => None,
                Some(at) => Some(at as int),
            },
            ncmds as int,
            sizeofcmds as int,
        ) {
            Err(e) => r == Err::<(), InjectError>(e),
            Ok(t) => r is Ok && final(out)@ == t,
        },
{
    let len: usize = out.len();
    if ncmds == 0xffff_ffff || sizeofcmds > 0xffff_ffff - 152 {
        return Err(InjectError::CorruptLayout);
    }
    let (ncmds, sizeofcmds): (u32, u32) = match sig {
        None => (ncmds + 1, sizeofcmds + 152),
        Some(at) => {
            let cmdsize: u32 = match u32_le(out.as_slice(), at + 4) {
                Ok(v) => v,
                Err(e) => return Err(e),
            };
            if cmdsize > sizeofcmds + 152 {
                return Err(InjectError::CorruptLayout);
            }
            zero_out(out, at as usize, cmdsize as usize);
            (ncmds, sizeofcmds + 152 - cmdsize)
        },
    };
    put_u32(out, 16, ncmds);
    put_u32(out, 20, sizeofcmds);
    Ok(())
}

/// Splices the new command and the section's content into a stub.
fn splice(stub: &[u8], body: &[u8], lay: &Layout) -> (r: Result<Vec<u8>, InjectError>)
    requires
        layout_wf(stub@, lay@),
    ensures
        match macho_refused(stub@, body@, lay@) {
            Some(e) => r == Err::<Vec<u8>, InjectError>(e),
            None => r matches Ok(v) && v@ == macho_spliced(stub@, body@, lay@) && v@.len()
                == linkedit_end(stub@.len() as int, lay@) + macho_delta(body@, lay@) && macho_delta(
                body@,
                lay@,
            ) <= u64::MAX,
        },
{
    let len: usize = stub.len();
    let body_len: usize = body.len();
    if lay.first_section_offset < lay.end_of_lc {
        return Err(InjectError::CorruptLayout);
    }
    let slack: u64 = lay.first_section_offset - lay.end_of_lc;
    if slack < 152 {
        return Err(InjectError::NoHeaderSlack { slack });
    }
    let start: u64 = lay.linkedit_fileoff;
    let end: u64 = match &lay.code_sig {
        Some(sig) => sig.dataoff,
        None => len as u64,
    };
    if end < start {
        return Err(InjectError::SignatureBeforeLinkedit);
    }
    if start < lay.end_of_lc + 152 || (len as u64) < end {
        return Err(InjectError::CorruptLayout);
    }
    let delta: u128 = round_up(body_len as u128, lay.page_size as u128);
    if end as u128 + delta > usize::MAX as u128 {
        return Err(InjectError::TooLarge);
    }
    let lc_off: usize = lay.linkedit_lc_off as usize;
    let end_of_lc: usize = lay.end_of_lc as usize;
    let total: usize = end as usize + delta as usize;
    let new_lc = build_segment_lc(body_len as u64, delta as u64, start, lay.linkedit_vmaddr);
    let mut out: Vec<u8> = Vec::with_capacity(total);
    append(&mut out, vstd::slice::slice_subrange(stub, 0, lc_off));
    append(&mut out, new_lc.as_slice());
    append(&mut out, vstd::slice::slice_subrange(stub, lc_off, end_of_lc));
    append(&mut out, vstd::slice::slice_subrange(stub, end_of_lc + 152, start as usize));
    append(&mut out, body);
    pad_to(&mut out, start as usize + delta as usize);
    append(&mut out, vstd::slice::slice_subrange(stub, start as usize, end as usize));
    assert(out@ =~= macho_spliced(stub@, body@, lay@));
    Ok(out)
}

/// Adds a section `SMOL/__DECMPFS` with this body to a Mach-O stub.
pub fn inject_macho(stub: &[u8], body: &[u8]) -> (r: Result<Vec<u8>, InjectError>)
    ensures
        match macho_injected(stub@, body@) {
            Err(e) => r == Err::<Vec<u8>, InjectError>(e),
            Ok(image) => r matches Ok(v) && v@ == image,
        },
{
    broadcast use group_widths;

    let lay = match read_layout(stub) {
        Ok(lay) => lay,
        Err(e) => return Err(e),
    };
    proof {
        lemma_layout_wf(stub@);
        assert forall|i: int| 0 <= i < lay.linkedit_pointers@.len() implies
            #[trigger] lay.linkedit_pointers@[i] <= 0xffff_ffff_ffff_f000 by {
            assert(lay@.pointers[i] == lay.linkedit_pointers@[i]);
        }
    }
    let len: usize = stub.len();
    let mut out = match splice(stub, body, &lay) {
        Ok(out) => out,
        Err(e) => return Err(e),
    };
    let delta: u64 = round_up(body.len() as u128, lay.page_size as u128) as u64;
    let (kept, stale): (Option<u64>, Option<u64>) = match &lay.code_sig {
        Some(sig) => (Some(sig.dataoff - lay.linkedit_fileoff), Some(sig.lc_off + 152)),
        None => (None, None),
    };
    match move_linkedit(&mut out, lay.linkedit_lc_off + 152, delta, kept, lay.page_size) {
        Ok(()) => {},
        Err(e) => return Err(e),
    }
    match bump_pointers(&mut out, &lay.linkedit_pointers, lay.linkedit_lc_off, delta) {
        Ok(()) => {},
        Err(e) => return Err(e),
    }
    let ncmds: u32 = match u32_le(stub, 16) {
        Ok(v) => v,
        Err(e) => return Err(e),
    };
    let sizeofcmds: u32 = match u32_le(stub, 20) {
        Ok(v) => v,
        Err(e) => return Err(e),
    };
    match strip_signature(&mut out, stale, ncmds, sizeofcmds) {
        Ok(()) => Ok(out),
        Err(e) => Err(e),
    }
}

} // verus!
