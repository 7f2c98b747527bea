//! What the walk over a Mach-O stub's load commands finds, in terms of its bytes.

use vstd::prelude::*;

use crate::bytes::{group_widths, le32, le64};
use crate::inject::error::InjectError;
use crate::inject::macho::{command_seen, linkedit_fields, linkedit_name, lowest_section,
    macho_layout, macho_walk, nothing_seen, pointer_fields, MachoWalk};
use crate::inject::macho_laws::command_off;
use crate::section::slot_holds;

verus! {

/// Load command `k` is a segment named `__LINKEDIT`.
pub open spec fn names_linkedit(s: Seq<u8>, k: int) -> bool {
    let off = command_off(s, k);
    le32(s, off) == 0x19 && s.subrange(off + 8, off + 24) == seq![
        0x5fu8, 0x5f, 0x4c, 0x49, 0x4e, 0x4b, 0x45, 0x44, 0x49, 0x54, 0, 0, 0, 0, 0, 0,
    ]
}

/// Load command `k` is a code signature.
pub open spec fn names_signature(s: Seq<u8>, k: int) -> bool {
    le32(s, command_off(s, k)) == 0x1d
}

/// A load command of type `cmd` holds a file offset into `__LINKEDIT` at `f`: the symbol
/// table and its names; the six tables of the dynamic symbol table; the five of the dyld
/// information; and the data of a command that has nothing else.
pub open spec fn holds_offset(cmd: int, f: int) -> bool {
    ||| cmd == 0x02 && (f == 8 || f == 16)
    ||| cmd == 0x0b && (f == 32 || f == 40 || f == 48 || f == 56 || f == 64 || f == 72)
    ||| (cmd == 0x22 || cmd == 0x8000_0022) && (f == 8 || f == 16 || f == 24 || f == 32 || f == 40)
    ||| (cmd == 0x16 || cmd == 0x1e || cmd == 0x26 || cmd == 0x29 || cmd == 0x2b || cmd == 0x2e
        || cmd == 0x36 || cmd == 0x8000_0033 || cmd == 0x8000_0034) && f == 8
}

/// The file offset in section header `m` of those from `soff` on.
pub open spec fn offset_of(s: Seq<u8>, soff: int, m: int) -> int {
    le32(s, soff + 80 * m + 48)
}

/// How many section headers load command `k` has.
pub open spec fn sections_of(s: Seq<u8>, k: int) -> int {
    if le32(s, command_off(s, k)) == 0x19 {
        le32(s, command_off(s, k) + 64)
    } else {
        0
    }
}

/// The file offset of section `m` of load command `k`.
pub open spec fn section_offset(s: Seq<u8>, k: int, m: int) -> int {
    offset_of(s, command_off(s, k) + 72, m)
}

/// Load command `k` is in the image, and so is what an injection reads of it.
pub open spec fn whole_command(s: Seq<u8>, k: int) -> bool {
    let off = command_off(s, k);
    let cmd = le32(s, off);
    let nsects = le32(s, off + 64);
    &&& off + 8 <= s.len()
    &&& le32(s, off + 4) >= 8
    &&& off + le32(s, off + 4) <= s.len()
    &&& cmd == 0x19 ==> off + 68 <= s.len() && (nsects == 0 || off + 72 + 80 * (nsects - 1) + 52
        <= s.len())
    &&& cmd == 0x1d ==> off + 12 <= s.len()
}

/// A padded name and what a slot holds.
proof fn lemma_named(s: Seq<u8>, k: int)
    requires
        command_off(s, k) + 24 <= s.len(),
        0 <= command_off(s, k),
    ensures
        ({
            let off = command_off(s, k);
            names_linkedit(s, k) <==> le32(s, off) == 0x19 && slot_holds(
                s.subrange(off + 8, off + 24),
                linkedit_name(),
            )
        }),
{
    let off = command_off(s, k);
    let slot = s.subrange(off + 8, off + 24);
    let padded = seq![
        0x5fu8, 0x5f, 0x4c, 0x49, 0x4e, 0x4b, 0x45, 0x44, 0x49, 0x54, 0, 0, 0, 0, 0, 0,
    ];
    assert(padded.len() == 16);
    if slot_holds(slot, linkedit_name()) {
        assert forall|j: int| 0 <= j < 16 implies slot[j] == padded[j] by {
            if j < 10 {
                assert(slot.take(10)[j] == linkedit_name()[j]);
            }
        }
        assert(slot =~= padded);
    }
    if slot == padded {
        assert(slot.take(10) =~= linkedit_name());
    }
}

/// The lowest of file offsets: none is lower but zero, and one is it.
proof fn lemma_lowest(s: Seq<u8>, soff: int, left: int, lowest: Option<int>)
    requires
        0 <= left,
    ensures
        lowest_section(s, soff, left, lowest) is Ok <==> left == 0 || soff + 80 * (left - 1) + 52
            <= s.len(),
        lowest_section(s, soff, left, lowest) matches Ok(Some(x)) ==> {
            &&& lowest matches Some(l) ==> x <= l
            &&& forall|m: int|
                0 <= m < left ==> #[trigger] offset_of(s, soff, m) == 0 || x <= offset_of(
                    s,
                    soff,
                    m,
                )
            &&& lowest == Some(x) || x != 0 && exists|m: int|
                0 <= m < left && #[trigger] offset_of(s, soff, m) == x
        },
        lowest_section(s, soff, left, lowest) matches Ok(None) ==> lowest is None && forall|m: int|
            0 <= m < left ==> #[trigger] offset_of(s, soff, m) == 0,
    decreases left,
{
    if left > 0 && soff + 52 <= s.len() {
        let offset = le32(s, soff + 48);
        assert(offset_of(s, soff, 0) == offset);
        let next = if offset != 0 && (lowest matches Some(l) ==> offset < l) {
            Some(offset)
        } else {
            lowest
        };
        lemma_lowest(s, soff + 80, left - 1, next);
        assert forall|m: int| 1 <= m < left implies #[trigger] offset_of(s, soff, m) == offset_of(
            s,
            soff + 80,
            m - 1,
        ) by {}
        assert forall|m: int| 0 <= m < left - 1 implies #[trigger] offset_of(s, soff + 80, m)
            == offset_of(s, soff, m + 1) by {}
    }
}

/// A walk succeeds where every load command is whole.
proof fn lemma_walk_whole(s: Seq<u8>, i: int, n: int, w: MachoWalk)
    requires
        0 <= i <= n,
        0 <= command_off(s, i),
    ensures
        macho_walk(s, command_off(s, i), n - i, w) is Ok <==> forall|k: int|
            i <= k < n ==> #[trigger] whole_command(s, k),
        macho_walk(s, command_off(s, i), n - i, w) matches Ok((_, end)) ==> end == command_off(s, n),
    decreases n - i,
{
    broadcast use group_widths;

    if i < n {
        let off = command_off(s, i);
        assert(command_off(s, i + 1) == off + le32(s, off + 4));
        if off + 72 <= s.len() {
            lemma_lowest(s, off + 72, le32(s, off + 64), w.first_section);
        } else if off + 68 <= s.len() {
            lemma_lowest(s, off + 72, le32(s, off + 64), w.first_section);
        }
        let passes = off + 8 <= s.len() && le32(s, off + 4) >= 8 && off + le32(s, off + 4)
            <= s.len() && command_seen(s, off, w) is Ok;
        assert(passes <==> whole_command(s, i));
        if passes {
            let seen = command_seen(s, off, w)->Ok_0;
            lemma_walk_whole(s, i + 1, n, seen);
        }
    }
}

/// What a walk has seen of `__LINKEDIT` is the last command that names it.
proof fn lemma_walk_linkedit(s: Seq<u8>, i: int, n: int, w: MachoWalk)
    requires
        0 <= i <= n,
        0 <= command_off(s, i),
        macho_walk(s, command_off(s, i), n - i, w) is Ok,
    ensures
        macho_walk(s, command_off(s, i), n - i, w) matches Ok((seen, _)) && {
            ||| seen.linkedit == w.linkedit && forall|j: int|
                i <= j < n ==> !#[trigger] names_linkedit(s, j)
            ||| exists|k: int|
                {
                    &&& i <= k < n
                    &&& #[trigger] names_linkedit(s, k)
                    &&& seen.linkedit matches Some(l) && l.lc_off == command_off(s, k) && l.fileoff
                        == le64(s, l.lc_off + 40) && l.vmaddr == le64(s, l.lc_off + 24)
                    &&& forall|j: int| k < j < n ==> !#[trigger] names_linkedit(s, j)
                }
        },
    decreases n - i,
{
    broadcast use group_widths;

    if i < n {
        let off = command_off(s, i);
        let seen = command_seen(s, off, w)->Ok_0;
        assert(command_off(s, i + 1) == off + le32(s, off + 4));
        if le32(s, off) == 0x19 {
            lemma_named(s, i);
        }
        lemma_walk_linkedit(s, i + 1, n, seen);
    }
}

/// What a walk has seen of a signature is the last one.
proof fn lemma_walk_signature(s: Seq<u8>, i: int, n: int, w: MachoWalk)
    requires
        0 <= i <= n,
        macho_walk(s, command_off(s, i), n - i, w) is Ok,
    ensures
        macho_walk(s, command_off(s, i), n - i, w) matches Ok((seen, _)) && {
            ||| seen.code_sig == w.code_sig && forall|j: int|
                i <= j < n ==> !#[trigger] names_signature(s, j)
            ||| exists|k: int|
                {
                    &&& i <= k < n
                    &&& #[trigger] names_signature(s, k)
                    &&& seen.code_sig matches Some(sig) && sig.lc_off == command_off(s, k)
                        && sig.dataoff == le32(s, sig.lc_off + 8)
                    &&& forall|j: int| k < j < n ==> !#[trigger] names_signature(s, j)
                }
        },
    decreases n - i,
{
    if i < n {
        let off = command_off(s, i);
        let seen = command_seen(s, off, w)->Ok_0;
        assert(command_off(s, i + 1) == off + le32(s, off + 4));
        lemma_walk_signature(s, i + 1, n, seen);
        assert(names_signature(s, i) <==> le32(s, off) == 0x1d);
    }
}

/// Field `f` of load command `k`.
pub open spec fn field_at(s: Seq<u8>, k: int, f: int) -> int {
    command_off(s, k) + f
}

/// Those fields of one command are the ones that its type has.
pub proof fn lemma_fields(cmd: int, off: int)
    ensures
        forall|f: int| #[trigger] holds_offset(cmd, f) ==> pointer_fields(cmd, off).contains(off + f),
        forall|m: int|
            0 <= m < pointer_fields(cmd, off).len() ==> holds_offset(
                cmd,
                #[trigger] pointer_fields(cmd, off)[m] - off,
            ),
{
    let fields = linkedit_fields(cmd);
    let all = pointer_fields(cmd, off);
    assert forall|f: int| #[trigger] holds_offset(cmd, f) implies all.contains(off + f) by {
        let m: int = if cmd == 0x02 {
            if f == 8 { 0 } else { 1 }
        } else if cmd == 0x0b {
            (f - 32) / 8
        } else if cmd == 0x22 || cmd == 0x8000_0022 {
            (f - 8) / 8
        } else {
            0
        };
        assert(0 <= m < fields.len());
        assert(fields[m] == f);
        assert(all[m] == off + f);
    }
    assert forall|m: int| 0 <= m < all.len() implies holds_offset(cmd, #[trigger] all[m] - off) by {
        assert(all[m] == off + fields[m]);
    }
}

/// The file offsets that a walk has seen are those in the commands it has passed.
proof fn lemma_walk_pointers(s: Seq<u8>, i: int, n: int, w: MachoWalk)
    requires
        0 <= i <= n,
        macho_walk(s, command_off(s, i), n - i, w) is Ok,
    ensures
        macho_walk(s, command_off(s, i), n - i, w) matches Ok((seen, _)) && {
            &&& forall|p: int| #[trigger] w.pointers.contains(p) ==> seen.pointers.contains(p)
            &&& forall|k: int, f: int|
                i <= k < n && holds_offset(le32(s, command_off(s, k)), f) ==> seen.pointers.contains(
                    #[trigger] field_at(s, k, f),
                )
            &&& forall|p: int| #[trigger]
                seen.pointers.contains(p) ==> w.pointers.contains(p) || exists|k: int, f: int|
                    i <= k < n && holds_offset(le32(s, command_off(s, k)), f) && p
                        == #[trigger] field_at(s, k, f)
        },
    decreases n - i,
{
    if i < n {
        let off = command_off(s, i);
        let cmd = le32(s, off);
        let next = command_seen(s, off, w)->Ok_0;
        assert(command_off(s, i + 1) == off + le32(s, off + 4));
        lemma_walk_pointers(s, i + 1, n, next);
        lemma_fields(cmd, off);
        let seen = macho_walk(s, off, n - i, w)->Ok_0.0;
        let fields = pointer_fields(cmd, off);
        if cmd == 0x19 || cmd == 0x1d {
            assert(next.pointers == w.pointers);
        } else {
            let both = w.pointers + fields;
            assert(next.pointers == both);
            assert forall|p: int| both.contains(p) <==> w.pointers.contains(p) || fields.contains(
                p,
            ) by {
                if w.pointers.contains(p) {
                    let m = choose|m: int| 0 <= m < w.pointers.len() && w.pointers[m] == p;
                    assert(both[m] == p);
                }
                if fields.contains(p) {
                    let m = choose|m: int| 0 <= m < fields.len() && fields[m] == p;
                    assert(both[w.pointers.len() + m] == p);
                }
                if both.contains(p) {
                    let m = choose|m: int| 0 <= m < both.len() && both[m] == p;
                    if m < w.pointers.len() {
                        assert(w.pointers[m] == p);
                    } else {
                        assert(fields[m - w.pointers.len()] == p);
                    }
                }
            }
        }
        assert forall|p: int| #[trigger] w.pointers.contains(p) implies seen.pointers.contains(p) by {
            assert(next.pointers.contains(p));
        }
        assert forall|k: int, f: int|
            i <= k < n && holds_offset(le32(s, command_off(s, k)), f) implies seen.pointers.contains(
            #[trigger] field_at(s, k, f),
        ) by {
            if k == i {
                assert(fields.contains(off + f));
                assert(next.pointers.contains(field_at(s, k, f)));
            }
        }
        assert forall|p: int| #[trigger] seen.pointers.contains(p) implies w.pointers.contains(p)
            || exists|k: int, f: int|
            i <= k < n && holds_offset(le32(s, command_off(s, k)), f) && p == #[trigger] field_at(
                s,
                k,
                f,
            ) by {
            if next.pointers.contains(p) && !w.pointers.contains(p) {
                assert(fields.contains(p));
                let m = choose|m: int| 0 <= m < fields.len() && fields[m] == p;
                assert(holds_offset(cmd, fields[m] - off));
                assert(p == field_at(s, i, p - off));
            }
        }
    }
}

/// The first mapped section that a walk has seen is the lowest one.
proof fn lemma_walk_sections(s: Seq<u8>, i: int, n: int, w: MachoWalk)
    requires
        0 <= i <= n,
        macho_walk(s, command_off(s, i), n - i, w) is Ok,
    ensures
        macho_walk(s, command_off(s, i), n - i, w) matches Ok((seen, _)) && match seen.first_section {
            Some(x) => {
                &&& w.first_section matches Some(l) ==> x <= l
                &&& forall|k: int, m: int|
                    i <= k < n && 0 <= m < sections_of(s, k) ==> #[trigger] section_offset(s, k, m)
                        == 0 || x <= section_offset(s, k, m)
                &&& w.first_section == Some(x) || x != 0 && exists|k: int, m: int|
                    i <= k < n && 0 <= m < sections_of(s, k) && #[trigger] section_offset(s, k, m)
                        == x
            },
            None => w.first_section is None && forall|k: int, m: int|
                i <= k < n && 0 <= m < sections_of(s, k) ==> #[trigger] section_offset(s, k, m) == 0,
        },
    decreases n - i,
{
    broadcast use group_widths;

    if i < n {
        let off = command_off(s, i);
        let cmd = le32(s, off);
        let next = command_seen(s, off, w)->Ok_0;
        assert(command_off(s, i + 1) == off + le32(s, off + 4));
        lemma_walk_sections(s, i + 1, n, next);
        if cmd == 0x19 {
            lemma_lowest(s, off + 72, le32(s, off + 64), w.first_section);
            assert forall|m: int| 0 <= m < sections_of(s, i) implies #[trigger] section_offset(s, i, m)
                == offset_of(s, off + 72, m) by {}
            if next.first_section is Some && next.first_section != w.first_section {
                let x = next.first_section->0;
                let m = choose|m: int|
                    0 <= m < sections_of(s, i) && #[trigger] offset_of(s, off + 72, m) == x;
                assert(section_offset(s, i, m) == x);
            }
        }
    }
}

/// What an injection goes by is what the load commands say. `__LINKEDIT` is the last
/// segment of that name, and the signature the last of its kind; where none is found, there
/// is none. The first mapped section is the lowest file offset that is not zero. Pages are
/// larger on ARM.
pub proof fn law_macho_layout_reads_commands(stub: Seq<u8>) -> (k: int)
    requires
        macho_layout(stub) is Ok,
    ensures
        macho_layout(stub) matches Ok(lay) && {
            let n = le32(stub, 16);
            &&& 0 <= k < n
            &&& names_linkedit(stub, k)
            &&& forall|j: int| k < j < n ==> !#[trigger] names_linkedit(stub, j)
            &&& lay.linkedit.lc_off == command_off(stub, k)
            &&& lay.linkedit.fileoff == le64(stub, command_off(stub, k) + 40)
            &&& lay.linkedit.vmaddr == le64(stub, command_off(stub, k) + 24)
            &&& lay.end_of_lc == command_off(stub, n)
            &&& lay.page_size == if le32(stub, 4) == 0x0100_000c {
                0x4000int
            } else {
                0x1000
            }
            &&& match lay.code_sig {
                None => forall|j: int| 0 <= j < n ==> !#[trigger] names_signature(stub, j),
                Some(sig) => exists|c: int|
                    {
                        &&& 0 <= c < n
                        &&& #[trigger] names_signature(stub, c)
                        &&& sig.lc_off == command_off(stub, c)
                        &&& sig.dataoff == le32(stub, command_off(stub, c) + 8)
                        &&& forall|j: int| c < j < n ==> !#[trigger] names_signature(stub, j)
                    },
            }
            &&& lay.first_section != 0
            &&& forall|j: int, m: int|
                0 <= j < n && 0 <= m < sections_of(stub, j) ==> #[trigger] section_offset(stub, j, m)
                    == 0 || lay.first_section <= section_offset(stub, j, m)
            &&& exists|j: int, m: int|
                0 <= j < n && 0 <= m < sections_of(stub, j) && #[trigger] section_offset(stub, j, m)
                    == lay.first_section
        },
{
    broadcast use group_widths;

    let n = le32(stub, 16);
    let w = nothing_seen();
    assert(command_off(stub, 0) == 32);
    lemma_walk_whole(stub, 0, n, w);
    lemma_walk_linkedit(stub, 0, n, w);
    lemma_walk_signature(stub, 0, n, w);
    lemma_walk_sections(stub, 0, n, w);
    let seen = macho_walk(stub, 32, n, w)->Ok_0.0;
    choose|k: int|
        {
            &&& 0 <= k < n
            &&& #[trigger] names_linkedit(stub, k)
            &&& seen.linkedit matches Some(l) && l.lc_off == command_off(stub, k) && l.fileoff
                == le64(stub, l.lc_off + 40) && l.vmaddr == le64(stub, l.lc_off + 24)
            &&& forall|j: int| k < j < n ==> !#[trigger] names_linkedit(stub, j)
        }
}

/// The fields that an injection moves are those of the commands' types, no more and no
/// fewer.
pub proof fn law_macho_layout_finds_fields(stub: Seq<u8>, p: int)
    requires
        macho_layout(stub) is Ok,
    ensures
        macho_layout(stub) matches Ok(lay) && (lay.pointers.contains(p) <==> exists|k: int, f: int|
            0 <= k < le32(stub, 16) && holds_offset(le32(stub, command_off(stub, k)), f) && p
                == #[trigger] field_at(stub, k, f)),
{
    let n = le32(stub, 16);
    let w = nothing_seen();
    assert(command_off(stub, 0) == 32);
    lemma_walk_pointers(stub, 0, n, w);
    let seen = macho_walk(stub, 32, n, w)->Ok_0.0;
    assert(!w.pointers.contains(p));
}

/// A Mach-O image can be read where it is marked as one, every load command is whole, one
/// names `__LINKEDIT`, and some section is mapped; elsewhere the first of these that fails
/// is what it is refused for.
pub proof fn law_macho_layout_of_whole_image(stub: Seq<u8>)
    requires
        stub.len() <= i64::MAX,
    ensures
        ({
            let n = le32(stub, 16);
            let marked = stub.len() >= 20 && le32(stub, 0) == 0xfeed_facf;
            let whole = marked && forall|k: int| 0 <= k < n ==> #[trigger] whole_command(stub, k);
            let linked = exists|k: int| 0 <= k < n && #[trigger] names_linkedit(stub, k);
            let mapped = exists|j: int, m: int|
                0 <= j < n && 0 <= m < sections_of(stub, j) && #[trigger] section_offset(stub, j, m)
                    != 0;
            &&& macho_layout(stub) is Ok <==> whole && linked && mapped
            &&& stub.len() >= 4 && le32(stub, 0) != 0xfeed_facf ==> macho_layout(stub) == Err::<
                crate::inject::macho::MachoLayout,
                InjectError,
            >(InjectError::BadMachMagic)
            &&& whole && !linked ==> macho_layout(stub) == Err::<
                crate::inject::macho::MachoLayout,
                InjectError,
            >(InjectError::NoLinkedit)
            &&& whole && linked && !mapped ==> macho_layout(stub) == Err::<
                crate::inject::macho::MachoLayout,
                InjectError,
            >(InjectError::NoMappedSection)
        }),
{
    broadcast use group_widths;

    let n = le32(stub, 16);
    let w = nothing_seen();
    assert(command_off(stub, 0) == 32);
    lemma_walk_whole(stub, 0, n, w);
    if macho_walk(stub, 32, n, w) is Ok {
        lemma_walk_linkedit(stub, 0, n, w);
        lemma_walk_sections(stub, 0, n, w);
    }
}

/// A walk comes to each load command that only whole ones are in front of.
proof fn lemma_walk_reaches(s: Seq<u8>, i: int, k: int, n: int, w: MachoWalk) -> (seen: MachoWalk)
    requires
        0 <= i <= k <= n,
        0 <= command_off(s, i),
        forall|j: int| i <= j < k ==> #[trigger] whole_command(s, j),
    ensures
        macho_walk(s, command_off(s, i), n - i, w) == macho_walk(s, command_off(s, k), n - k, seen),
        0 <= command_off(s, k),
    decreases k - i,
{
    broadcast use group_widths;

    if i < k {
        let off = command_off(s, i);
        assert(whole_command(s, i));
        assert(command_off(s, i + 1) == off + le32(s, off + 4));
        lemma_lowest(s, off + 72, le32(s, off + 64), w.first_section);
        lemma_walk_reaches(s, i + 1, k, n, command_seen(s, off, w)->Ok_0)
    } else {
        w
    }
}

/// The first load command that is too small, or reaches past the end of the image, is what
/// it is refused for, with its place and its size; one that the image ends in front of is
/// refused as cut short.
pub proof fn law_macho_refuses_malformed_command(stub: Seq<u8>, k: int)
    requires
        20 <= stub.len() <= i64::MAX,
        le32(stub, 0) == 0xfeed_facf,
        0 <= k < le32(stub, 16),
        forall|j: int| 0 <= j < k ==> #[trigger] whole_command(stub, j),
    ensures
        ({
            let off = command_off(stub, k);
            let cmdsize = le32(stub, off + 4);
            &&& off + 8 <= stub.len() && (cmdsize < 8 || off + cmdsize > stub.len())
                ==> macho_layout(stub) == Err::<crate::inject::macho::MachoLayout, InjectError>(
                InjectError::MalformedCommand { at: off as u64, cmdsize: cmdsize as u64 },
            )
            &&& off + 4 > stub.len() ==> macho_layout(stub) == Err::<
                crate::inject::macho::MachoLayout,
                InjectError,
            >(InjectError::Truncated { bits: 32, at: off as u64 })
            &&& off + 4 <= stub.len() < off + 8 ==> macho_layout(stub) == Err::<
                crate::inject::macho::MachoLayout,
                InjectError,
            >(InjectError::Truncated { bits: 32, at: (off + 4) as u64 })
        }),
{
    assert(command_off(stub, 0) == 32);
    let seen = lemma_walk_reaches(stub, 0, k, le32(stub, 16), nothing_seen());
}

} // verus!
