//! Signing an injected image, so that the new section is covered by the signature.

use vstd::prelude::*;
use vstd::string::*;

use crate::bytes::{aligned, group_widths, le32, le64, lemma_aligned, round_up, same_bytes, u32_at,
    u64_at};
use crate::inject::dispatch::{has_macho_magic, is_macho};
use crate::inject::macho::{linkedit_name, LC_CODE_SIGNATURE};
use crate::inject::superblob::{signature_fits, take_signature};
use crate::platform::Host;
use crate::section::LC_SEGMENT_64;
use crate::text::joined;

verus! {

pub const LC_SEGMENT: u32 = 0x01;

pub const LC_MAIN: u32 = 0x8000_0028;

/// What a walk over load commands has seen.
pub struct SegmentWalk {
    /// How far the segments reach that have the first bytes of the file.
    pub head: Option<int>,
    /// Whether one of those ends in front of what is written already.
    pub clash: bool,
    /// Whether another segment starts among the load commands.
    pub low: bool,
    /// The highest file offset of a segment, and whether it is that of `__LINKEDIT`.
    pub last: Option<(int, bool)>,
    /// The offset of the first section.
    pub section: Option<int>,
    /// The file offset and the size of `__LINKEDIT`.
    pub linkedit: Option<(int, int)>,
    /// The address and the file offset of the first `__TEXT` segment.
    pub text: Option<(int, int)>,
    /// The offset of the first entry point.
    pub entry: Option<int>,
    /// The file offset and the size of the first signature.
    pub signature: Option<(int, int)>,
}

/// Nothing seen yet.
pub open spec fn no_segment() -> SegmentWalk {
    SegmentWalk {
        head: None,
        clash: false,
        low: false,
        last: None,
        section: None,
        linkedit: None,
        text: None,
        entry: None,
        signature: None,
    }
}

/// A NUL-terminated name slot holds `__LINKEDIT`.
pub open spec fn names_linkedit(slot: Seq<u8>) -> bool {
    slot.len() == 16 && slot.take(10) == linkedit_name() && slot[10] == 0
}

/// `__TEXT`, and the NUL that ends it.
pub open spec fn text_name() -> Seq<u8> {
    seq![0x5fu8, 0x5f, 0x54, 0x45, 0x58, 0x54, 0]
}

/// A NUL-terminated name slot holds `__TEXT`.
pub open spec fn names_text(slot: Seq<u8>) -> bool {
    slot.len() == 16 && slot.take(7) == text_name()
}

/// `__PAGEZERO`, and the NUL that ends it.
pub open spec fn pagezero_name() -> Seq<u8> {
    seq![0x5fu8, 0x5f, 0x50, 0x41, 0x47, 0x45, 0x5a, 0x45, 0x52, 0x4f, 0]
}

/// A NUL-terminated name slot holds `__PAGEZERO`.
pub open spec fn names_pagezero(slot: Seq<u8>) -> bool {
    slot.len() == 16 && slot.take(11) == pagezero_name()
}

/// A load command of this kind is a segment: a 64-bit one, or a 32-bit one.
pub open spec fn is_segment(cmd: int) -> bool {
    cmd == LC_SEGMENT_64 || cmd == LC_SEGMENT
}

/// How large a segment command is without its sections.
pub open spec fn segment_size(cmd: int) -> int {
    if cmd == LC_SEGMENT {
        56
    } else {
        72
    }
}

/// Where the segment whose command is at `off` is mapped.
pub open spec fn segment_vmaddr(s: Seq<u8>, off: int) -> int {
    if le32(s, off) == LC_SEGMENT {
        le32(s, off + 24)
    } else {
        le64(s, off + 24)
    }
}

/// Where the bytes of the segment whose command is at `off` start.
pub open spec fn segment_fileoff(s: Seq<u8>, off: int) -> int {
    if le32(s, off) == LC_SEGMENT {
        le32(s, off + 32)
    } else {
        le64(s, off + 40)
    }
}

/// How many bytes the segment has whose command is at `off`.
pub open spec fn segment_filesize(s: Seq<u8>, off: int) -> int {
    if le32(s, off) == LC_SEGMENT {
        le32(s, off + 36)
    } else {
        le64(s, off + 48)
    }
}

/// How many sections the segment has whose command is at `off`.
pub open spec fn segment_nsects(s: Seq<u8>, off: int) -> int {
    if le32(s, off) == LC_SEGMENT {
        le32(s, off + 48)
    } else {
        le32(s, off + 64)
    }
}

/// What the walk has seen once it has passed the segment command at `off`, where the
/// load commands that are written end at `start`. `None` is a command too small for
/// its fields, or a second `__LINKEDIT`. The bytes of a segment are written, but for
/// those of `__PAGEZERO`. The first ones of the file are: a segment that has these, too,
/// goes on from there.
pub open spec fn segment_fits(s: Seq<u8>, off: int, start: int, w: SegmentWalk) -> Option<
    SegmentWalk,
> {
    let fileoff = segment_fileoff(s, off);
    let filesize = segment_filesize(s, off);
    let slot = s.subrange(off + 8, off + 24);
    let linkedit = names_linkedit(slot);
    let written = filesize > 0 && !linkedit && !names_pagezero(slot);
    let reach = match w.head {
        Some(reach) => reach,
        None => start,
    };
    if le32(s, off + 4) < segment_size(le32(s, off)) || (linkedit && w.linkedit is Some) {
        None
    } else {
        Some(
            SegmentWalk {
                head: if written && fileoff == 0 {
                    Some(filesize)
                } else {
                    w.head
                },
                clash: w.clash || (written && fileoff == 0 && filesize < reach),
                low: w.low || (written && 0 < fileoff < start),
                last: match w.last {
                    Some((highest, last)) => if fileoff < highest {
                        Some((highest, last))
                    } else {
                        Some((fileoff, linkedit))
                    },
                    None => Some((fileoff, linkedit)),
                },
                section: if w.section is None && segment_nsects(s, off) > 0 && off + 152
                    <= s.len() {
                    Some(le32(s, off + 120))
                } else {
                    w.section
                },
                linkedit: if linkedit {
                    Some((fileoff, filesize))
                } else {
                    w.linkedit
                },
                text: if w.text is None && names_text(slot) {
                    Some((segment_vmaddr(s, off), fileoff))
                } else {
                    w.text
                },
                ..w
            },
        )
    }
}

/// What the walk has seen once it has passed the load command at `off`. `None` is a
/// command too small for its fields, or a second `__LINKEDIT`.
pub open spec fn command_fits(s: Seq<u8>, off: int, start: int, w: SegmentWalk) -> Option<
    SegmentWalk,
> {
    let cmd = le32(s, off);
    let cmdsize = le32(s, off + 4);
    if cmdsize < 8 || ((cmd == LC_MAIN || cmd == LC_CODE_SIGNATURE) && cmdsize < 16) {
        None
    } else if is_segment(cmd) {
        segment_fits(s, off, start, w)
    } else if cmd == LC_CODE_SIGNATURE && w.signature is None {
        Some(SegmentWalk { signature: Some((le32(s, off + 8), le32(s, off + 12))), ..w })
    } else if cmd == LC_MAIN && w.entry is None {
        Some(SegmentWalk { entry: Some(le64(s, off + 8)), ..w })
    } else {
        Some(w)
    }
}

/// The walk over `left` load commands from `off` on.
pub open spec fn commands_fit(s: Seq<u8>, off: int, left: int, start: int, w: SegmentWalk) -> Option<
    SegmentWalk,
>
    decreases left,
{
    if left <= 0 {
        Some(w)
    } else {
        match command_fits(s, off, start, w) {
            None => None,
            Some(seen) => commands_fit(s, off + le32(s, off + 4), left - 1, start, seen),
        }
    }
}

/// Where `left` load commands from `off` on end.
pub open spec fn commands_end(s: Seq<u8>, off: int, left: int) -> int
    decreases left,
{
    if left <= 0 {
        off
    } else {
        commands_end(s, off + le32(s, off + 4), left - 1)
    }
}

/// Where the first signature command is among `left` load commands from `off` on.
pub open spec fn signature_at(s: Seq<u8>, off: int, left: int) -> Option<int>
    decreases left,
{
    if left <= 0 {
        None
    } else if le32(s, off) == LC_CODE_SIGNATURE {
        Some(off)
    } else {
        signature_at(s, off + le32(s, off + 4), left - 1)
    }
}

/// Where the load commands end that are written for an image: one is added to them
/// where none is a signature.
pub open spec fn written_end(s: Seq<u8>) -> int {
    let end = commands_end(s, 32, le32(s, 16));
    match signature_at(s, 32, le32(s, 16)) {
        Some(at) => end,
        None => end + 16,
    }
}

/// What there is to see of an image's load commands.
pub open spec fn segments_of(s: Seq<u8>) -> Option<SegmentWalk> {
    commands_fit(s, 32, le32(s, 16), written_end(s), no_segment())
}

/// The bytes of the segment whose command is at `off` reach past the end of the image.
pub open spec fn segment_cut(s: Seq<u8>, off: int) -> bool {
    &&& is_segment(le32(s, off))
    &&& le32(s, off + 4) >= segment_size(le32(s, off))
    &&& segment_filesize(s, off) > 0
    &&& segment_fileoff(s, off) + segment_filesize(s, off) > s.len()
}

/// One of `left` load commands from `off` on, or the segment that it stands for,
/// reaches past the end of the image.
pub open spec fn commands_cut(s: Seq<u8>, off: int, left: int) -> bool
    decreases left,
{
    left > 0 && {
        let next = off + le32(s, off + 4);
        off + 8 > s.len() || next > s.len() || segment_cut(s, off) || commands_cut(
            s,
            next,
            left - 1,
        )
    }
}

/// What the signer reads first can be read: the address of the entry point, if there is
/// one, and the signature, if there is one, which lies in `__LINKEDIT`.
pub open spec fn settings_fit(s: Seq<u8>, w: SegmentWalk) -> bool {
    &&& match (w.signature, w.linkedit) {
        (Some((dataoff, datasize)), Some((fileoff, filesize))) => fileoff <= dataoff && dataoff
            + datasize <= fileoff + filesize <= s.len() && signature_fits(
            s.subrange(dataoff, dataoff + datasize),
        ),
        _ => true,
    }
    &&& match (w.entry, w.text) {
        (Some(entry), Some((vmaddr, fileoff))) => fileoff <= vmaddr && vmaddr - fileoff + entry
            <= u64::MAX,
        _ => true,
    }
}

/// A signature that covers an image up to `limit`, and the bytes of `__LINKEDIT` in front
/// of it, which start at `fileoff`, are counted by 32-bit numbers. A signature has up to
/// 52 bytes for each page that it covers, and less than 8192 besides.
pub open spec fn signature_counts(limit: int, fileoff: int) -> bool {
    let at = aligned(limit, 16);
    at <= u32::MAX && at - fileoff + 52 * (limit / 4096 + 1) + 8192 <= u32::MAX
}

/// What is written of an image can be taken from it. That comes to pass only where the
/// last segment is `__LINKEDIT`, which lies inside of the image. The segments that start
/// with the file follow one another, and no other one starts among the load commands,
/// unless these are written first: then it is refused. The signature and the load
/// commands can be counted, and where there is no signature, the first section lies
/// behind the load commands, which end at `end`.
pub open spec fn layout_fits(s: Seq<u8>, w: SegmentWalk, end: int, start: int) -> bool {
    match (w.last, w.linkedit) {
        (Some((highest, true)), Some((fileoff, filesize))) => {
            &&& !w.clash
            &&& w.low ==> w.head is Some
            &&& fileoff + filesize <= s.len()
            &&& fileoff >= start || (fileoff > 0 && w.head is Some)
            &&& match w.signature {
                Some((dataoff, datasize)) => signature_counts(dataoff, fileoff) && dataoff
                    - fileoff + datasize <= u32::MAX,
                None => {
                    &&& signature_counts(fileoff + filesize, fileoff)
                    &&& le32(s, 20) + 16 <= u32::MAX
                    &&& w.section matches Some(offset) ==> offset >= end
                },
            }
        },
        _ => true,
    }
}

/// An image for which the signer has an answer: it signs it, or says what is wrong
/// with it. Either it can be taken apart and written back, or it ends in front of the
/// end of its header, of a load command or of a segment, which the signer sees first.
pub open spec fn signable(s: Seq<u8>) -> bool {
    &&& s.len() <= i64::MAX
    &&& is_macho(s)
    &&& s.len() < 32 || commands_cut(s, 32, le32(s, 16)) || (segments_of(s) matches Some(w)
        && settings_fit(s, w) && layout_fits(
        s,
        w,
        commands_end(s, 32, le32(s, 16)),
        written_end(s),
    ))
}

/// What a walk over load commands has seen.
struct Segments {
    head: Option<u64>,
    clash: bool,
    low: bool,
    last: Option<(u64, bool)>,
    section: Option<u32>,
    linkedit: Option<(u64, u64)>,
    text: Option<(u64, u64)>,
    entry: Option<u64>,
    signature: Option<(u32, u32)>,
}

/// A number, if there is one.
spec fn int_of(v: Option<u64>) -> Option<int> {
    match v {
        None => None,
        Some(v) => Some(v as int),
    }
}

/// Two numbers, if they are there.
spec fn ints_of(v: Option<(u64, u64)>) -> Option<(int, int)> {
    match v {
        None => None,
        Some((a, b)) => Some((a as int, b as int)),
    }
}

impl View for Segments {
    type V = SegmentWalk;

    closed spec fn view(&self) -> SegmentWalk {
        SegmentWalk {
            head: int_of(self.head),
            clash: self.clash,
            low: self.low,
            last: match self.last {
                None => None,
                Some((highest, last)) => Some((highest as int, last)),
            },
            section: match self.section {
                None => None,
                Some(v) => Some(v as int),
            },
            linkedit: ints_of(self.linkedit),
            text: ints_of(self.text),
            entry: int_of(self.entry),
            signature: match self.signature {
                None => None,
                Some((dataoff, datasize)) => Some((dataoff as int, datasize as int)),
            },
        }
    }
}

/// Whether a name slot holds `__LINKEDIT`.
fn slot_is_linkedit(slot: &[u8]) -> (r: bool)
    requires
        slot@.len() == 16,
    ensures
        r == names_linkedit(slot@),
{
    let want = vec![0x5fu8, 0x5f, 0x4c, 0x49, 0x4e, 0x4b, 0x45, 0x44, 0x49, 0x54];
    assert(want@ =~= linkedit_name());
    let head = vstd::slice::slice_subrange(slot, 0, 10);
    assert(head@ =~= slot@.take(10));
    same_bytes(head, want.as_slice()) && slot[10] == 0
}

/// Whether a name slot holds `__TEXT`.
fn slot_is_text(slot: &[u8]) -> (r: bool)
    requires
        slot@.len() == 16,
    ensures
        r == names_text(slot@),
{
    let want = vec![0x5fu8, 0x5f, 0x54, 0x45, 0x58, 0x54, 0];
    assert(want@ =~= text_name());
    let head = vstd::slice::slice_subrange(slot, 0, 7);
    assert(head@ =~= slot@.take(7));
    same_bytes(head, want.as_slice())
}

/// Whether a name slot holds `__PAGEZERO`.
fn slot_is_pagezero(slot: &[u8]) -> (r: bool)
    requires
        slot@.len() == 16,
    ensures
        r == names_pagezero(slot@),
{
    let want = vec![0x5fu8, 0x5f, 0x50, 0x41, 0x47, 0x45, 0x5a, 0x45, 0x52, 0x4f, 0];
    assert(want@ =~= pagezero_name());
    let head = vstd::slice::slice_subrange(slot, 0, 11);
    assert(head@ =~= slot@.take(11));
    same_bytes(head, want.as_slice())
}

/// What a segment command says of its segment.
struct Fields {
    vmaddr: u64,
    fileoff: u64,
    filesize: u64,
    nsects: u32,
}

/// Reads the segment command at `off`. `None` is one too small for its fields.
fn read_fields(bytes: &[u8], off: u64) -> (r: Option<Fields>)
    requires
        off + 8 <= bytes@.len() <= i64::MAX,
        off + le32(bytes@, off + 4) <= bytes@.len(),
    ensures
        match r {
            Some(f) => le32(bytes@, off + 4) >= segment_size(le32(bytes@, off as int)) && f.vmaddr
                == segment_vmaddr(bytes@, off as int) && f.fileoff == segment_fileoff(
                bytes@,
                off as int,
            ) && f.filesize == segment_filesize(bytes@, off as int) && f.nsects == segment_nsects(
                bytes@,
                off as int,
            ),
            None => le32(bytes@, off + 4) < segment_size(le32(bytes@, off as int)),
        },
{
    let (cmd, cmdsize): (u32, u32) = match (u32_at(bytes, off, 0), u32_at(bytes, off, 4)) {
        (Some(cmd), Some(cmdsize)) => (cmd, cmdsize),
        _ => return None,
    };
    if cmd == LC_SEGMENT {
        if cmdsize < 56 {
            return None;
        }
        match (
            u32_at(bytes, off, 24),
            u32_at(bytes, off, 32),
            u32_at(bytes, off, 36),
            u32_at(bytes, off, 48),
        ) {
            (Some(vmaddr), Some(fileoff), Some(filesize), Some(nsects)) => Some(
                Fields {
                    vmaddr: vmaddr as u64,
                    fileoff: fileoff as u64,
                    filesize: filesize as u64,
                    nsects,
                },
            ),
            _ => None,
        }
    } else {
        if cmdsize < 72 {
            return None;
        }
        match (
            u64_at(bytes, off, 24),
            u64_at(bytes, off, 40),
            u64_at(bytes, off, 48),
            u32_at(bytes, off, 64),
        ) {
            (Some(vmaddr), Some(fileoff), Some(filesize), Some(nsects)) => Some(
                Fields { vmaddr, fileoff, filesize, nsects },
            ),
            _ => None,
        }
    }
}

/// Takes in the segment command at `off`.
fn take_segment(bytes: &[u8], off: u64, start: u64, w: Segments) -> (r: Option<Segments>)
    requires
        off + 8 <= bytes@.len() <= i64::MAX,
        off + le32(bytes@, off + 4) <= bytes@.len(),
    ensures
        match segment_fits(bytes@, off as int, start as int, w@) {
            None => r is None,
            Some(seen) => r matches Some(v) && v@ == seen,
        },
{
    broadcast use group_widths;

    let f: Fields = match read_fields(bytes, off) {
        Some(f) => f,
        None => return None,
    };
    let len: u64 = bytes.len() as u64;
    let slot = vstd::slice::slice_subrange(bytes, off as usize + 8, off as usize + 24);
    let linkedit: bool = slot_is_linkedit(slot);
    if linkedit && w.linkedit.is_some() {
        return None;
    }
    let mut w = w;
    if f.filesize > 0 && !linkedit && !slot_is_pagezero(slot) {
        if f.fileoff == 0 {
            let reach: u64 = match w.head {
                Some(reach) => reach,
                None => start,
            };
            if f.filesize < reach {
                w.clash = true;
            }
            w.head = Some(f.filesize);
        } else if f.fileoff < start {
            w.low = true;
        }
    }
    let higher: bool = match w.last {
        Some((highest, _)) => f.fileoff >= highest,
        None => true,
    };
    if higher {
        w.last = Some((f.fileoff, linkedit));
    }
    if w.section.is_none() && f.nsects > 0 && off + 152 <= len {
        w.section = u32_at(bytes, off, 120);
    }
    if linkedit {
        w.linkedit = Some((f.fileoff, f.filesize));
    }
    if w.text.is_none() && slot_is_text(slot) {
        w.text = Some((f.vmaddr, f.fileoff));
    }
    Some(w)
}

/// Takes in the load command at `off`.
fn take_command(bytes: &[u8], off: u64, start: u64, w: Segments) -> (r: Option<Segments>)
    requires
        off + 8 <= bytes@.len() <= i64::MAX,
        off + le32(bytes@, off + 4) <= bytes@.len(),
    ensures
        match command_fits(bytes@, off as int, start as int, w@) {
            None => r is None,
            Some(seen) => r matches Some(v) && v@ == seen,
        },
{
    let (cmd, cmdsize): (u32, u32) = match (u32_at(bytes, off, 0), u32_at(bytes, off, 4)) {
        (Some(cmd), Some(cmdsize)) => (cmd, cmdsize),
        _ => return None,
    };
    if cmdsize < 8 || ((cmd == LC_MAIN || cmd == LC_CODE_SIGNATURE) && cmdsize < 16) {
        return None;
    }
    if cmd == LC_SEGMENT_64 || cmd == LC_SEGMENT {
        return take_segment(bytes, off, start, w);
    }
    let mut w = w;
    if cmd == LC_CODE_SIGNATURE && w.signature.is_none() {
        match (u32_at(bytes, off, 8), u32_at(bytes, off, 12)) {
            (Some(dataoff), Some(datasize)) => w.signature = Some((dataoff, datasize)),
            _ => return None,
        }
    } else if cmd == LC_MAIN && w.entry.is_none() {
        match u64_at(bytes, off, 8) {
            Some(entry) => w.entry = Some(entry),
            None => return None,
        }
    }
    Some(w)
}

/// Walks the load commands for what the signer needs.
fn take_commands(bytes: &[u8], ncmds: u32, start: u64) -> (r: Option<Segments>)
    requires
        32 <= bytes@.len() <= i64::MAX,
        !commands_cut(bytes@, 32, ncmds as int),
    ensures
        match commands_fit(bytes@, 32, ncmds as int, start as int, no_segment()) {
            None => r is None,
            Some(seen) => r matches Some(v) && v@ == seen,
        },
{
    let mut w = Segments {
        head: None,
        clash: false,
        low: false,
        last: None,
        section: None,
        linkedit: None,
        text: None,
        entry: None,
        signature: None,
    };
    let ghost whole = commands_fit(bytes@, 32, ncmds as int, start as int, no_segment());
    let mut off: u64 = 32;
    let mut left: u32 = ncmds;
    while left > 0
        invariant
            off <= bytes@.len() <= i64::MAX,
            !commands_cut(bytes@, off as int, left as int),
            whole == commands_fit(bytes@, off as int, left as int, start as int, w@),
            whole == commands_fit(bytes@, 32, ncmds as int, start as int, no_segment()),
        decreases left,
    {
        let cmdsize: u32 = match u32_at(bytes, off, 4) {
            Some(v) => v,
            None => return None,
        };
        match take_command(bytes, off, start, w) {
            Some(seen) => w = seen,
            None => return None,
        }
        off += cmdsize as u64;
        left -= 1;
    }
    Some(w)
}

/// Whether the bytes of the segment whose command is at `off` reach past the end.
fn is_segment_cut(bytes: &[u8], off: u64) -> (r: bool)
    requires
        off + 8 <= bytes@.len() <= i64::MAX,
        off + le32(bytes@, off + 4) <= bytes@.len(),
    ensures
        r == segment_cut(bytes@, off as int),
{
    let len: u64 = bytes.len() as u64;
    match u32_at(bytes, off, 0) {
        Some(cmd) => if cmd != LC_SEGMENT_64 && cmd != LC_SEGMENT {
            return false;
        },
        None => return false,
    }
    match read_fields(bytes, off) {
        Some(f) => f.filesize > 0 && (f.fileoff > len || f.filesize > len - f.fileoff),
        None => false,
    }
}

/// Where the load commands end, and whether one of them is a signature, if they and
/// their segments lie inside of the image.
fn find_end(bytes: &[u8], ncmds: u32) -> (r: Option<(u64, bool)>)
    requires
        32 <= bytes@.len() <= i64::MAX,
    ensures
        match r {
            Some((end, signed)) => end == commands_end(bytes@, 32, ncmds as int) && end
                <= bytes@.len() && signed == (signature_at(bytes@, 32, ncmds as int) is Some)
                && !commands_cut(bytes@, 32, ncmds as int),
            None => commands_cut(bytes@, 32, ncmds as int),
        },
{
    let mut off: u64 = 32;
    let mut left: u32 = ncmds;
    let mut signed: bool = false;
    while left > 0
        invariant
            32 <= off <= bytes@.len() <= i64::MAX,
            commands_end(bytes@, 32, ncmds as int) == commands_end(
                bytes@,
                off as int,
                left as int,
            ),
            commands_cut(bytes@, 32, ncmds as int) == commands_cut(
                bytes@,
                off as int,
                left as int,
            ),
            (signature_at(bytes@, 32, ncmds as int) is Some) == (signed || signature_at(
                bytes@,
                off as int,
                left as int,
            ) is Some),
        decreases left,
    {
        let (cmd, cmdsize): (u32, u32) = match (u32_at(bytes, off, 0), u32_at(bytes, off, 4)) {
            (Some(cmd), Some(cmdsize)) => (cmd, cmdsize),
            _ => return None,
        };
        if cmdsize as u64 > bytes.len() as u64 - off || is_segment_cut(bytes, off) {
            return None;
        }
        if cmd == LC_CODE_SIGNATURE {
            signed = true;
        }
        off += cmdsize as u64;
        left -= 1;
    }
    Some((off, signed))
}

/// Whether what the signer reads first can be read.
fn check_settings(image: &[u8], w: &Segments) -> (r: bool)
    requires
        image@.len() <= i64::MAX,
    ensures
        r == settings_fit(image@, w@),
{
    let len: u64 = image.len() as u64;
    match (w.signature, w.linkedit) {
        (Some((dataoff, datasize)), Some((fileoff, filesize))) => {
            let stop: u64 = dataoff as u64 + datasize as u64;
            if (dataoff as u64) < fileoff || fileoff > len || filesize > len - fileoff || stop
                > fileoff + filesize || !take_signature(
                vstd::slice::slice_subrange(image, dataoff as usize, stop as usize),
            ) {
                return false;
            }
        },
        _ => {},
    }
    match (w.entry, w.text) {
        (Some(entry), Some((vmaddr, fileoff))) => fileoff <= vmaddr && entry <= u64::MAX - (vmaddr
            - fileoff),
        _ => true,
    }
}

/// Whether a signature that covers an image up to `limit` can be counted.
fn check_counts(limit: u64, fileoff: u64) -> (r: bool)
    requires
        fileoff <= limit <= i64::MAX,
    ensures
        r == signature_counts(limit as int, fileoff as int),
{
    proof {
        lemma_aligned(limit as int, 16);
    }
    if limit > 0xffff_ffff {
        return false;
    }
    let at: u64 = round_up(limit as u128, 16) as u64;
    at <= 0xffff_ffff && at - fileoff + 52 * (limit / 4096 + 1) + 8192 <= 0xffff_ffff
}

/// Whether what is written of an image can be taken from it.
fn check_layout(image: &[u8], w: &Segments, end: u64, start: u64) -> (r: bool)
    requires
        32 <= image@.len() <= i64::MAX,
        settings_fit(image@, w@),
    ensures
        r == layout_fits(image@, w@, end as int, start as int),
{
    let len: u64 = image.len() as u64;
    let (fileoff, filesize): (u64, u64) = match (w.last, w.linkedit) {
        (Some((_, true)), Some((fileoff, filesize))) => (fileoff, filesize),
        _ => return true,
    };
    if w.clash || (w.low && w.head.is_none()) || fileoff > len || filesize > len - fileoff {
        return false;
    }
    if fileoff < start && (fileoff == 0 || w.head.is_none()) {
        return false;
    }
    match w.signature {
        Some((dataoff, datasize)) => check_counts(dataoff as u64, fileoff) && dataoff as u64
            - fileoff + datasize as u64 <= 0xffff_ffff,
        None => {
            let size: u32 = match u32_at(image, 20, 0) {
                Some(v) => v,
                None => return false,
            };
            if !check_counts(fileoff + filesize, fileoff) || size > 0xffff_ffff - 16 {
                return false;
            }
            match w.section {
                Some(offset) => offset as u64 >= end,
                None => true,
            }
        },
    }
}

/// Whether the signer has an answer for an image.
pub fn is_signable(image: &[u8]) -> (r: bool)
    ensures
        r == signable(image@),
{
    if image.len() as u64 > 0x7fff_ffff_ffff_ffff || !has_macho_magic(image) {
        return false;
    }
    if image.len() < 32 {
        return true;
    }
    let ncmds: u32 = match u32_at(image, 16, 0) {
        Some(v) => v,
        None => return false,
    };
    let (end, signed): (u64, bool) = match find_end(image, ncmds) {
        Some(found) => found,
        None => return true,
    };
    let start: u64 = if signed {
        end
    } else {
        end + 16
    };
    match take_commands(image, ncmds, start) {
        Some(w) => check_settings(image, &w) && check_layout(image, &w, end, start),
        None => false,
    }
}

/// Where the `__LINKEDIT` segment command is among `left` load commands from `off` on.
pub open spec fn linkedit_at(s: Seq<u8>, off: int, left: int) -> Option<int>
    decreases left,
{
    if left <= 0 {
        None
    } else if is_segment(le32(s, off)) && names_linkedit(s.subrange(off + 8, off + 24)) {
        Some(off)
    } else {
        linkedit_at(s, off + le32(s, off + 4), left - 1)
    }
}

/// Byte `j` says where the signature is: it lies in a signature command among `left`
/// load commands from `off` on.
pub open spec fn points_to_signature(s: Seq<u8>, off: int, left: int, j: int) -> bool
    decreases left,
{
    left > 0 && ((le32(s, off) == LC_CODE_SIGNATURE && off + 8 <= j < off + 16)
        || points_to_signature(s, off + le32(s, off + 4), left - 1, j))
}

/// Byte `j` of an image is one that signing writes anew: the sizes of `__LINKEDIT`, whose
/// command is at `linkedit`, and where the signature is; in an image without one, the
/// count and the size of the load commands, and the command that is appended to them.
pub open spec fn rewritten(image: Seq<u8>, linkedit: int, j: int) -> bool {
    let ncmds = le32(image, 16);
    let end = commands_end(image, 32, ncmds);
    ||| if le32(image, linkedit) == LC_SEGMENT {
        linkedit + 28 <= j < linkedit + 32 || linkedit + 36 <= j < linkedit + 40
    } else {
        linkedit + 32 <= j < linkedit + 40 || linkedit + 48 <= j < linkedit + 56
    }
    ||| points_to_signature(image, 32, ncmds, j)
    ||| signature_at(image, 32, ncmds) is None && (16 <= j < 24 || end <= j < end + 16)
}

/// A signed image keeps the one that was signed. The load commands and segments of that
/// lie inside of it, and the segments behind the load commands, but for those that start
/// with the file. Up to the old signature, or the end of what `__LINKEDIT` held, every
/// byte that is not written anew stays where it was. One more load command is counted
/// where there was no signature.
pub open spec fn keeps_image(image: Seq<u8>, signed: Seq<u8>) -> bool {
    let ncmds = le32(image, 16);
    let signature = signature_at(image, 32, ncmds);
    &&& 32 <= image.len()
    &&& !commands_cut(image, 32, ncmds)
    &&& segments_of(image) matches Some(w) && !w.low
    &&& linkedit_at(image, 32, ncmds) matches Some(linkedit) && {
        let fileoff = segment_fileoff(image, linkedit);
        let stop = match signature {
            Some(at) => le32(image, at + 8),
            None => fileoff + segment_filesize(image, linkedit),
        };
        &&& written_end(image) <= fileoff
        &&& stop <= signed.len()
        &&& le32(signed, 16) == if signature is None {
            ncmds + 1
        } else {
            ncmds
        }
        &&& forall|j: int|
            0 <= j < stop && !rewritten(image, linkedit, j) ==> #[trigger] signed[j] == image[j]
    }
}

/// Where signing failed.
#[derive(Debug, Clone, Copy, PartialEq, Eq, Structural)]
pub enum SignStep {
    /// Taking over settings from the image.
    Import,
    /// Taking the image apart.
    Open,
    /// Writing the signed image.
    Write,
}

/// The image that `apple_codesign` gives when it signs this one ad hoc under this
/// identifier, or the step that fails and what it says of that.
pub uninterp spec fn adhoc_signed(image: Seq<u8>, identifier: Seq<char>) -> Result<
    Seq<u8>,
    (SignStep, Seq<char>),
>;

/// Signs an image ad hoc: `SigningSettings::import_settings_from_macho` on default
/// settings, `SigningSettings::set_binary_identifier`, `MachOSigner::new` and
/// `MachOSigner::write_signed_binary` of `apple_codesign`. Without a signing key the
/// signature is an ad-hoc one, which holds no time and nothing random: the result is
/// the same for the same image and identifier. The signer copies the load commands,
/// with new sizes for `__LINKEDIT` and a new place for the signature, for which it
/// appends a command where there is none, and copies everything up to the old
/// signature or the end of `__LINKEDIT`. The new signature goes there. It takes the
/// segments in the order of their file offsets, and refuses those that overlap. From
/// an old signature it takes over the code directory's identifier, flags and runtime
/// version: the import sets them for the one image in the file, which goes before the
/// identifier that is set for the file. Left out is an image that the signer would slice
/// out of range, count by too small a number, or find unlike what it asserts; one with
/// a load command shorter than its fields, which it would read otherwise once it is
/// written; one whose first segment starts among the load commands, but not at the
/// start of the file, which it would misplace; and one whose signature holds
/// entitlements or constraints, whose writer panics on some.
#[verifier::external_body]
fn sign_adhoc(image: &[u8], identifier: &str) -> (r: Result<Vec<u8>, (SignStep, String)>)
    requires
        signable(image@),
    ensures
        match r {
            Ok(v) => adhoc_signed(image@, identifier@) == Ok::<Seq<u8>, (SignStep, Seq<char>)>(v@)
                && keeps_image(image@, v@),
            Err((step, saw)) => adhoc_signed(image@, identifier@) == Err::<
                Seq<u8>,
                (SignStep, Seq<char>),
            >((step, saw@)),
        },
{
    let mut settings = apple_codesign::SigningSettings::default();
    settings.import_settings_from_macho(image).map_err(|e| (SignStep::Import, e.to_string()))?;
    settings.set_binary_identifier(apple_codesign::SettingsScope::Main, identifier);
    let signer = apple_codesign::MachOSigner::new(image).map_err(
        |e| (SignStep::Open, e.to_string()),
    )?;
    let mut out: Vec<u8> = Vec::new();
    signer.write_signed_binary(&settings, &mut out).map_err(
        |e| (SignStep::Write, e.to_string()),
    )?;
    Ok(out)
}

/// The message for a step that failed, given what it said.
pub open spec fn sign_failure(step: SignStep, saw: Seq<char>) -> Seq<char> {
    match step {
        SignStep::Import => "import_settings_from_macho: "@ + saw,
        SignStep::Open => "MachOSigner::new: "@ + saw,
        SignStep::Write => "write_signed_binary: "@ + saw,
    }
}

/// What signing returns, given what the signer does.
pub open spec fn signing_result(
    outcome: Result<Seq<u8>, (SignStep, Seq<char>)>,
) -> Result<Seq<u8>, Seq<char>> {
    match outcome {
        Ok(image) => Ok(image),
        Err((step, saw)) => Err(sign_failure(step, saw)),
    }
}

/// What signing returns, given what the signer did.
pub fn report_signing(outcome: Result<Vec<u8>, (SignStep, String)>) -> (r: Result<Vec<u8>, String>)
    ensures
        match outcome {
            Ok(v) => r matches Ok(image) && image@ == v@,
            Err((step, saw)) => r matches Err(message) && message@ == sign_failure(step, saw@),
        },
{
    match outcome {
        Ok(image) => Ok(image),
        Err((step, saw)) => {
            let prefix = match step {
                SignStep::Import => "import_settings_from_macho: ",
                SignStep::Open => "MachOSigner::new: ",
                SignStep::Write => "write_signed_binary: ",
            };
            Err(joined(prefix, saw.as_str()))
        },
    }
}

/// Signs a Mach-O image ad hoc, so that the new section is covered. The identifier is
/// stamped where the image carries no signature, and so no identifier of its own: an
/// injected image carries none.
pub fn resign_macho(injected: &[u8], identifier: &str) -> (r: Result<Vec<u8>, String>)
    requires
        signable(injected@),
    ensures
        match signing_result(adhoc_signed(injected@, identifier@)) {
            Ok(image) => r matches Ok(v) && v@ == image,
            Err(text) => r matches Err(message) && message@ == text,
        },
        r matches Ok(v) ==> keeps_image(injected@, v@),
{
    report_signing(sign_adhoc(injected, identifier))
}

/// The message where a Mach-O image is to be signed on a host that cannot.
pub open spec fn cross_build_text() -> Seq<char> {
    "cross-building a darwin target needs an ad-hoc Mach-O signature, which this non-macOS host cannot produce; build darwin addons on a macOS host"@
}

/// What re-signing an image returns. ELF and PE images pass through: their loaders
/// enforce no signature. A Mach-O image is signed on a macOS host; elsewhere it is
/// refused rather than shipped unsigned.
pub open spec fn resigned(host: Host, injected: Seq<u8>, identifier: Seq<char>) -> Result<
    Seq<u8>,
    Seq<char>,
> {
    if !is_macho(injected) {
        Ok(injected)
    } else if host == Host::MacOs {
        signing_result(adhoc_signed(injected, identifier))
    } else {
        Err(cross_build_text())
    }
}

/// Re-signs an injected image.
pub fn resign(host: Host, injected: &[u8], identifier: &str) -> (r: Result<Vec<u8>, String>)
    requires
        host == Host::MacOs && is_macho(injected@) ==> signable(injected@),
    ensures
        match resigned(host, injected@, identifier@) {
            Ok(image) => r matches Ok(v) && v@ == image,
            Err(text) => r matches Err(message) && message@ == text,
        },
        is_macho(injected@) ==> (r matches Ok(v) ==> keeps_image(injected@, v@)),
{
    if !has_macho_magic(injected) {
        let mut out: Vec<u8> = Vec::new();
        crate::bytes::append(&mut out, injected);
        assert(out@ =~= injected@);
        return Ok(out);
    }
    if host == Host::MacOs {
        resign_macho(injected, identifier)
    } else {
        Err(
            "cross-building a darwin target needs an ad-hoc Mach-O signature, which this non-macOS host cannot produce; build darwin addons on a macOS host".to_owned(),
        )
    }
}

/// Re-signs an injected image, if it can be: `None` is a Mach-O image on a macOS host
/// that the signer cannot take apart and write back.
pub fn try_resign(host: Host, injected: &[u8], identifier: &str) -> (r: Option<
    Result<Vec<u8>, String>,
>)
    ensures
        r is None <==> host == Host::MacOs && is_macho(injected@) && !signable(injected@),
        r matches Some(done) ==> match resigned(host, injected@, identifier@) {
            Ok(image) => done matches Ok(v) && v@ == image,
            Err(text) => done matches Err(message) && message@ == text,
        },
        is_macho(injected@) ==> (r matches Some(Ok(v)) ==> signable(injected@) && keeps_image(
            injected@,
            v@,
        )),
{
    if host == Host::MacOs && has_macho_magic(injected) && !is_signable(injected) {
        return None;
    }
    Some(resign(host, injected, identifier))
}

/// What needs no signature passes through unchanged, on every host.
pub proof fn law_unsigned_formats_pass_through(
    host: Host,
    injected: Seq<u8>,
    identifier: Seq<char>,
)
    requires
        !is_macho(injected),
    ensures
        resigned(host, injected, identifier) == Ok::<Seq<u8>, Seq<char>>(injected),
{
}

/// A Mach-O image never leaves a host other than macOS unsigned.
pub proof fn law_no_unsigned_macho(host: Host, injected: Seq<u8>, identifier: Seq<char>)
    requires
        is_macho(injected),
        host != Host::MacOs,
    ensures
        resigned(host, injected, identifier) is Err,
{
}

/// On macOS a Mach-O image becomes what the signer makes of it; a failure names the call that
/// failed and says what it said. Elsewhere it is refused.
pub proof fn law_resigned_by_host(host: Host, injected: Seq<u8>, identifier: Seq<char>)
    requires
        is_macho(injected),
    ensures
        host == Host::MacOs ==> resigned(host, injected, identifier) == match adhoc_signed(
            injected,
            identifier,
        ) {
            Ok(image) => Ok(image),
            Err((SignStep::Import, saw)) => Err("import_settings_from_macho: "@ + saw),
            Err((SignStep::Open, saw)) => Err("MachOSigner::new: "@ + saw),
            Err((SignStep::Write, saw)) => Err("write_signed_binary: "@ + saw),
        },
        host != Host::MacOs ==> resigned(host, injected, identifier) == Err::<Seq<u8>, Seq<char>>(
            "cross-building a darwin target needs an ad-hoc Mach-O signature, which this non-macOS host cannot produce; build darwin addons on a macOS host"@,
        ),
{
}

} // verus!
