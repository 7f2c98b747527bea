//! Which images the signer is given, in terms of their bytes.

use vstd::prelude::*;

use crate::bytes::{aligned, be32, group_widths, le32, le64};
use crate::inject::macho_laws::command_off;
use crate::inject::sign::{command_fits, commands_cut, commands_end, commands_fit, names_linkedit,
    names_pagezero, names_text, no_segment, segment_cut, segments_of, signable, signature_at, written_end,
    SegmentWalk};
use crate::inject::superblob::{blob_fits, directory_fits, signature_fits};

verus! {

/// Load command `k` is a segment, of either width.
pub open spec fn segment_at(s: Seq<u8>, k: int) -> bool {
    le32(s, command_off(s, k)) == 0x19 || le32(s, command_off(s, k)) == 0x01
}

/// Where the bytes of segment `k` start in the file.
pub open spec fn file_start(s: Seq<u8>, k: int) -> int {
    if le32(s, command_off(s, k)) == 0x01 {
        le32(s, command_off(s, k) + 32)
    } else {
        le64(s, command_off(s, k) + 40)
    }
}

/// How many bytes segment `k` has in the file.
pub open spec fn file_size(s: Seq<u8>, k: int) -> int {
    if le32(s, command_off(s, k)) == 0x01 {
        le32(s, command_off(s, k) + 36)
    } else {
        le64(s, command_off(s, k) + 48)
    }
}

/// Where segment `k` is mapped.
pub open spec fn address(s: Seq<u8>, k: int) -> int {
    if le32(s, command_off(s, k)) == 0x01 {
        le32(s, command_off(s, k) + 24)
    } else {
        le64(s, command_off(s, k) + 24)
    }
}

/// Load command `k` is a segment with sections, and the first section header is in the image.
pub open spec fn sectioned(s: Seq<u8>, k: int) -> bool {
    let off = command_off(s, k);
    segment_at(s, k) && off + 152 <= s.len() && if le32(s, off) == 0x01 {
        le32(s, off + 48) > 0
    } else {
        le32(s, off + 64) > 0
    }
}

/// Load command `k` is a segment named `__LINKEDIT`.
pub open spec fn linkedit_here(s: Seq<u8>, k: int) -> bool {
    segment_at(s, k) && s.subrange(command_off(s, k) + 8, command_off(s, k) + 19) == seq![
        0x5fu8, 0x5f, 0x4c, 0x49, 0x4e, 0x4b, 0x45, 0x44, 0x49, 0x54, 0,
    ]
}

/// Load command `k` is a segment named `__TEXT`.
pub open spec fn text_here(s: Seq<u8>, k: int) -> bool {
    segment_at(s, k) && s.subrange(command_off(s, k) + 8, command_off(s, k) + 15) == seq![
        0x5fu8, 0x5f, 0x54, 0x45, 0x58, 0x54, 0,
    ]
}

/// Load command `k` is a segment named `__PAGEZERO`.
pub open spec fn pagezero_here(s: Seq<u8>, k: int) -> bool {
    segment_at(s, k) && s.subrange(command_off(s, k) + 8, command_off(s, k) + 19) == seq![
        0x5fu8, 0x5f, 0x50, 0x41, 0x47, 0x45, 0x5a, 0x45, 0x52, 0x4f, 0,
    ]
}

/// Load command `k` is a signature.
pub open spec fn signature_here(s: Seq<u8>, k: int) -> bool {
    le32(s, command_off(s, k)) == 0x1d
}

/// Load command `k` is an entry point.
pub open spec fn entry_here(s: Seq<u8>, k: int) -> bool {
    le32(s, command_off(s, k)) == 0x8000_0028
}

/// The bytes of segment `k` are written as they are.
pub open spec fn written(s: Seq<u8>, k: int) -> bool {
    segment_at(s, k) && file_size(s, k) > 0 && !linkedit_here(s, k) && !pagezero_here(s, k)
}

/// Load command `k` is as large as its fields.
pub open spec fn sized(s: Seq<u8>, k: int) -> bool {
    let cmd = le32(s, command_off(s, k));
    let cmdsize = le32(s, command_off(s, k) + 4);
    &&& cmdsize >= 8
    &&& cmd == 0x8000_0028 || cmd == 0x1d ==> cmdsize >= 16
    &&& cmd == 0x19 ==> cmdsize >= 72
    &&& cmd == 0x01 ==> cmdsize >= 56
}

/// Load command `k`, and the segment that it stands for, lie in the image.
pub open spec fn inside(s: Seq<u8>, k: int) -> bool {
    let off = command_off(s, k);
    let cmd = le32(s, off);
    let cmdsize = le32(s, off + 4);
    &&& off + 8 <= s.len()
    &&& off + cmdsize <= s.len()
    &&& (cmd == 0x19 && cmdsize >= 72 || cmd == 0x01 && cmdsize >= 56) && file_size(s, k) > 0
        ==> file_start(s, k) + file_size(s, k) <= s.len()
}

/// Of the load commands from `i` to `n`, this is the first signature.
pub open spec fn first_signature(s: Seq<u8>, i: int, n: int, k: int) -> bool {
    i <= k < n && signature_here(s, k) && forall|j: int| i <= j < k ==> !#[trigger] signature_here(s, j)
}

/// Of the load commands from `i` to `n`, this is the first entry point.
pub open spec fn first_entry(s: Seq<u8>, i: int, n: int, k: int) -> bool {
    i <= k < n && entry_here(s, k) && forall|j: int| i <= j < k ==> !#[trigger] entry_here(s, j)
}

/// Of the load commands from `i` to `n`, this is the first segment named `__TEXT`.
pub open spec fn first_text(s: Seq<u8>, i: int, n: int, k: int) -> bool {
    i <= k < n && text_here(s, k) && forall|j: int| i <= j < k ==> !#[trigger] text_here(s, j)
}

/// Of the load commands from `i` to `n`, this is the first segment with sections.
pub open spec fn first_sectioned(s: Seq<u8>, i: int, n: int, k: int) -> bool {
    i <= k < n && sectioned(s, k) && forall|j: int| i <= j < k ==> !#[trigger] sectioned(s, j)
}

/// Of the load commands from `i` to `n`, this is the segment that starts last in the file,
/// and the last of those.
pub open spec fn starts_last(s: Seq<u8>, i: int, n: int, k: int) -> bool {
    &&& i <= k < n
    &&& segment_at(s, k)
    &&& forall|j: int| i <= j < k && #[trigger] segment_at(s, j) ==> file_start(s, j) <= file_start(s, k)
    &&& forall|j: int| k < j < n && #[trigger] segment_at(s, j) ==> file_start(s, j) < file_start(s, k)
}

/// The padded names.
proof fn lemma_slots(s: Seq<u8>, k: int)
    requires
        0 <= command_off(s, k),
        command_off(s, k) + 24 <= s.len(),
        segment_at(s, k),
    ensures
        ({
            let off = command_off(s, k);
            let slot = s.subrange(off + 8, off + 24);
            &&& names_linkedit(slot) <==> linkedit_here(s, k)
            &&& names_text(slot) <==> text_here(s, k)
            &&& names_pagezero(slot) <==> pagezero_here(s, k)
        }),
{
    let off = command_off(s, k);
    let slot = s.subrange(off + 8, off + 24);
    let linkedit = seq![0x5fu8, 0x5f, 0x4c, 0x49, 0x4e, 0x4b, 0x45, 0x44, 0x49, 0x54, 0];
    let eleven = s.subrange(off + 8, off + 19);
    assert(slot.take(11) =~= eleven);
    assert(slot.take(7) =~= s.subrange(off + 8, off + 15));
    if names_linkedit(slot) {
        assert forall|j: int| 0 <= j < 11 implies eleven[j] == linkedit[j] by {
            if j < 10 {
                assert(slot.take(10)[j] == crate::inject::macho::linkedit_name()[j]);
            }
        }
        assert(eleven =~= linkedit);
    }
    if linkedit_here(s, k) {
        assert(slot[10] == eleven[10]);
        assert(slot.take(10) =~= crate::inject::macho::linkedit_name()) by {
            assert forall|j: int| 0 <= j < 10 implies slot.take(10)[j] == linkedit[j] by {
                assert(eleven[j] == slot[j]);
            }
        }
    }
    assert(crate::inject::sign::text_name() =~= seq![0x5fu8, 0x5f, 0x54, 0x45, 0x58, 0x54, 0]);
    assert(crate::inject::sign::pagezero_name() =~= seq![
        0x5fu8, 0x5f, 0x50, 0x41, 0x47, 0x45, 0x5a, 0x45, 0x52, 0x4f, 0,
    ]);
}

/// An image is cut where one of its load commands, or a segment, is not inside of it.
proof fn lemma_cut(s: Seq<u8>, i: int, n: int)
    requires
        0 <= i <= n,
    ensures
        commands_cut(s, command_off(s, i), n - i) <==> exists|k: int|
            i <= k < n && !#[trigger] inside(s, k),
    decreases n - i,
{
    if i < n {
        let off = command_off(s, i);
        let next = command_off(s, i + 1);
        assert(next == off + le32(s, off + 4));
        lemma_cut(s, i + 1, n);
        assert((off + 8 > s.len() || next > s.len() || segment_cut(s, off)) <==> !inside(s, i));
        assert(commands_cut(s, off, n - i) <==> !inside(s, i) || commands_cut(s, next, n - i - 1));
        if exists|k: int| i <= k < n && !#[trigger] inside(s, k) {
            let k = choose|k: int| i <= k < n && !#[trigger] inside(s, k);
            assert(k == i || i + 1 <= k < n && !inside(s, k));
        }
    }
}

/// Where load commands end, and the first signature among them.
proof fn lemma_ends(s: Seq<u8>, i: int, n: int)
    requires
        0 <= i <= n,
    ensures
        commands_end(s, command_off(s, i), n - i) == command_off(s, n),
        match signature_at(s, command_off(s, i), n - i) {
            Some(at) => exists|k: int| #[trigger] first_signature(s, i, n, k) && at == command_off(s, k),
            None => forall|k: int| i <= k < n ==> !#[trigger] signature_here(s, k),
        },
    decreases n - i,
{
    if i < n {
        assert(command_off(s, i + 1) == command_off(s, i) + le32(s, command_off(s, i) + 4));
        lemma_ends(s, i + 1, n);
        if signature_here(s, i) {
            assert(first_signature(s, i, n, i));
        } else if signature_at(s, command_off(s, i + 1), n - i - 1) is Some {
            let k = choose|k: int|
                #[trigger] first_signature(s, i + 1, n, k) && signature_at(
                    s,
                    command_off(s, i + 1),
                    n - i - 1,
                ) == Some(command_off(s, k));
            assert(first_signature(s, i, n, k));
        }
    }
}

/// At most one of the load commands from `i` to `n` is `__LINKEDIT`'s.
pub open spec fn one_linkedit(s: Seq<u8>, i: int, n: int) -> bool {
    forall|j: int, k: int|
        i <= j < k < n && #[trigger] linkedit_here(s, j) ==> !#[trigger] linkedit_here(s, k)
}

/// A walk passes load commands that are as large as their fields, with one `__LINKEDIT`.
proof fn lemma_passes(s: Seq<u8>, i: int, n: int, start: int, w: SegmentWalk)
    requires
        0 <= i <= n,
        0 <= command_off(s, i),
        forall|k: int| i <= k < n ==> #[trigger] inside(s, k),
    ensures
        commands_fit(s, command_off(s, i), n - i, start, w) is Some <==> {
            &&& forall|k: int| i <= k < n ==> #[trigger] sized(s, k)
            &&& one_linkedit(s, i, n)
            &&& w.linkedit is Some ==> forall|k: int| i <= k < n ==> !#[trigger] linkedit_here(s, k)
        },
    decreases n - i,
{
    broadcast use group_widths;

    if i < n {
        let off = command_off(s, i);
        assert(command_off(s, i + 1) == off + le32(s, off + 4));
        assert(inside(s, i));
        if sized(s, i) && segment_at(s, i) {
            lemma_slots(s, i);
        }
        let seen = command_fits(s, off, start, w);
        assert(!sized(s, i) ==> seen is None);
        assert(sized(s, i) ==> (seen is None <==> linkedit_here(s, i) && w.linkedit is Some));
        if seen is Some {
            lemma_passes(s, i + 1, n, start, seen->0);
            assert(seen->0.linkedit is Some <==> w.linkedit is Some || linkedit_here(s, i));
        }
    }
}

/// What a walk has seen of `__LINKEDIT`, of a signature and of an entry point.
proof fn lemma_seen_places(s: Seq<u8>, i: int, n: int, start: int, w: SegmentWalk)
    requires
        0 <= i <= n,
        0 <= command_off(s, i),
        forall|k: int| i <= k < n ==> #[trigger] inside(s, k) && sized(s, k),
        commands_fit(s, command_off(s, i), n - i, start, w) is Some,
    ensures
        commands_fit(s, command_off(s, i), n - i, start, w) matches Some(seen) && {
            &&& match seen.linkedit {
                Some((at, size)) => seen.linkedit == w.linkedit && (forall|k: int|
                    i <= k < n ==> !#[trigger] linkedit_here(s, k)) || exists|k: int|
                    i <= k < n && #[trigger] linkedit_here(s, k) && at == file_start(s, k) && size
                        == file_size(s, k),
                None => w.linkedit is None && forall|k: int|
                    i <= k < n ==> !#[trigger] linkedit_here(s, k),
            }
            &&& match w.signature {
                Some(_) => seen.signature == w.signature,
                None => match seen.signature {
                    Some((at, size)) => exists|k: int| #[trigger]
                        first_signature(s, i, n, k) && at == le32(s, command_off(s, k) + 8) && size
                            == le32(s, command_off(s, k) + 12),
                    None => forall|k: int| i <= k < n ==> !#[trigger] signature_here(s, k),
                },
            }
            &&& match w.entry {
                Some(_) => seen.entry == w.entry,
                None => match seen.entry {
                    Some(at) => exists|k: int| #[trigger]
                        first_entry(s, i, n, k) && at == le64(s, command_off(s, k) + 8),
                    None => forall|k: int| i <= k < n ==> !#[trigger] entry_here(s, k),
                },
            }
        },
    decreases n - i,
{
    broadcast use group_widths;

    if i < n {
        let off = command_off(s, i);
        assert(command_off(s, i + 1) == off + le32(s, off + 4));
        assert(inside(s, i));
        if segment_at(s, i) {
            lemma_slots(s, i);
        }
        let next = command_fits(s, off, start, w)->0;
        lemma_seen_places(s, i + 1, n, start, next);
        let seen = commands_fit(s, off, n - i, start, w)->0;
        assert(signature_here(s, i) <==> le32(s, off) == 0x1d);
        assert(entry_here(s, i) <==> le32(s, off) == 0x8000_0028);
        if w.signature is None && seen.signature is Some {
            if signature_here(s, i) {
                assert(first_signature(s, i, n, i));
            } else {
                let (at, size) = seen.signature->0;
                let k = choose|k: int| #[trigger]
                    first_signature(s, i + 1, n, k) && at == le32(s, command_off(s, k) + 8) && size
                        == le32(s, command_off(s, k) + 12);
                assert(first_signature(s, i, n, k));
            }
        }
        if w.entry is None && seen.entry is Some {
            if entry_here(s, i) {
                assert(first_entry(s, i, n, i));
            } else {
                let at = seen.entry->0;
                let k = choose|k: int| #[trigger]
                    first_entry(s, i + 1, n, k) && at == le64(s, command_off(s, k) + 8);
                assert(first_entry(s, i, n, k));
            }
        }
    }
}

/// What a walk has seen of `__TEXT`, of the first section and of the last segment.
proof fn lemma_seen_segments(s: Seq<u8>, i: int, n: int, start: int, w: SegmentWalk)
    requires
        0 <= i <= n,
        0 <= command_off(s, i),
        forall|k: int| i <= k < n ==> #[trigger] inside(s, k) && sized(s, k),
        commands_fit(s, command_off(s, i), n - i, start, w) is Some,
    ensures
        commands_fit(s, command_off(s, i), n - i, start, w) matches Some(seen) && {
            &&& match w.text {
                Some(_) => seen.text == w.text,
                None => match seen.text {
                    Some((vmaddr, at)) => exists|k: int| #[trigger]
                        first_text(s, i, n, k) && vmaddr == address(s, k) && at == file_start(s, k),
                    None => forall|k: int| i <= k < n ==> !#[trigger] text_here(s, k),
                },
            }
            &&& match w.section {
                Some(_) => seen.section == w.section,
                None => match seen.section {
                    Some(offset) => exists|k: int| #[trigger]
                        first_sectioned(s, i, n, k) && offset == le32(s, command_off(s, k) + 120),
                    None => forall|k: int| i <= k < n ==> !#[trigger] sectioned(s, k),
                },
            }
            &&& match seen.last {
                Some((highest, last)) => {
                    ||| seen.last == w.last && forall|j: int|
                        i <= j < n && #[trigger] segment_at(s, j) ==> file_start(s, j) < highest
                    ||| (w.last matches Some((before, _)) ==> before <= highest) && exists|k: int|
                        #[trigger] starts_last(s, i, n, k) && highest == file_start(s, k) && last
                            == linkedit_here(s, k)
                },
                None => w.last is None && forall|j: int| i <= j < n ==> !#[trigger] segment_at(s, j),
            }
        },
    decreases n - i,
{
    broadcast use group_widths;

    if i < n {
        let off = command_off(s, i);
        assert(command_off(s, i + 1) == off + le32(s, off + 4));
        assert(inside(s, i));
        if segment_at(s, i) {
            lemma_slots(s, i);
        }
        let next = command_fits(s, off, start, w)->0;
        lemma_seen_segments(s, i + 1, n, start, next);
        let seen = commands_fit(s, off, n - i, start, w)->0;
        if w.text is None && seen.text is Some {
            if text_here(s, i) {
                assert(first_text(s, i, n, i));
            } else {
                let (vmaddr, at) = seen.text->0;
                let k = choose|k: int| #[trigger]
                    first_text(s, i + 1, n, k) && vmaddr == address(s, k) && at == file_start(s, k);
                assert(first_text(s, i, n, k));
            }
        }
        if w.section is None && seen.section is Some {
            if sectioned(s, i) {
                assert(first_sectioned(s, i, n, i));
            } else {
                let offset = seen.section->0;
                let k = choose|k: int| #[trigger]
                    first_sectioned(s, i + 1, n, k) && offset == le32(s, command_off(s, k) + 120);
                assert(first_sectioned(s, i, n, k));
            }
        }
        if seen.last is Some {
            let (highest, last) = seen.last->0;
            if exists|k: int|
                #[trigger] starts_last(s, i + 1, n, k) && highest == file_start(s, k) && last
                    == linkedit_here(s, k) {
                let k = choose|k: int|
                    #[trigger] starts_last(s, i + 1, n, k) && highest == file_start(s, k) && last
                        == linkedit_here(s, k);
                if next.last matches Some((before, _)) && before <= highest {
                    assert(starts_last(s, i, n, k));
                } else if !segment_at(s, i) {
                    assert(starts_last(s, i, n, k));
                }
            } else if segment_at(s, i) && next.last != w.last {
                assert(starts_last(s, i, n, i));
            } else if segment_at(s, i) && w.last == Some((file_start(s, i), linkedit_here(s, i))) {
                assert(starts_last(s, i, n, i));
            }
        }
    }
}

/// The bytes of segment `k` are written, and start with the file.
pub open spec fn heads(s: Seq<u8>, k: int) -> bool {
    written(s, k) && file_start(s, k) == 0
}

/// What a walk has seen of the segments that start with the file, or among the load commands.
proof fn lemma_seen_heads(s: Seq<u8>, i: int, n: int, start: int, w: SegmentWalk)
    requires
        0 <= i <= n,
        0 <= command_off(s, i),
        forall|k: int| i <= k < n ==> #[trigger] inside(s, k) && sized(s, k),
        commands_fit(s, command_off(s, i), n - i, start, w) is Some,
    ensures
        commands_fit(s, command_off(s, i), n - i, start, w) matches Some(seen) && {
            let reach = match w.head {
                Some(reach) => reach,
                None => start,
            };
            &&& seen.head is Some <==> w.head is Some || exists|k: int|
                i <= k < n && #[trigger] heads(s, k)
            &&& seen.low <==> w.low || exists|k: int|
                i <= k < n && #[trigger] written(s, k) && 0 < file_start(s, k) < start
            &&& !seen.clash <==> {
                &&& !w.clash
                &&& forall|k: int| i <= k < n && #[trigger] heads(s, k) ==> reach <= file_size(s, k)
                &&& forall|j: int, k: int|
                    i <= j < k < n && #[trigger] heads(s, j) && #[trigger] heads(s, k) ==> file_size(
                        s,
                        j,
                    ) <= file_size(s, k)
            }
        },
    decreases n - i,
{
    broadcast use group_widths;

    if i < n {
        let off = command_off(s, i);
        assert(command_off(s, i + 1) == off + le32(s, off + 4));
        assert(inside(s, i));
        if segment_at(s, i) {
            lemma_slots(s, i);
        }
        let next = command_fits(s, off, start, w)->0;
        lemma_seen_heads(s, i + 1, n, start, next);
        let seen = commands_fit(s, off, n - i, start, w)->0;
        let reach = match w.head {
            Some(reach) => reach,
            None => start,
        };
        if heads(s, i) {
            assert(next.head == Some(file_size(s, i)));
        } else {
            assert(next.head == w.head);
        }
        if !seen.clash {
            assert forall|j: int, k: int|
                i <= j < k < n && #[trigger] heads(s, j) && #[trigger] heads(s, k) implies file_size(
                s,
                j,
            ) <= file_size(s, k) by {}
            assert forall|k: int| i <= k < n && #[trigger] heads(s, k) implies reach <= file_size(
                s,
                k,
            ) by {
                if heads(s, i) && k > i {
                    assert(file_size(s, i) <= file_size(s, k));
                }
            }
        }
        if !w.clash && (forall|k: int|
            i <= k < n && #[trigger] heads(s, k) ==> reach <= file_size(s, k)) && (forall|
            j: int,
            k: int,
        |
            i <= j < k < n && #[trigger] heads(s, j) && #[trigger] heads(s, k) ==> file_size(s, j)
                <= file_size(s, k)) {
            assert(!next.clash);
            assert forall|k: int| i + 1 <= k < n && #[trigger] heads(s, k) implies (
            match next.head {
                Some(reach) => reach,
                None => start,
            }) <= file_size(s, k) by {
                if heads(s, i) {
                    assert(file_size(s, i) <= file_size(s, k));
                }
            }
            assert(!seen.clash);
        }
        assert(next.low <==> w.low || (written(s, i) && 0 < file_start(s, i) < start));
        if exists|k: int| i <= k < n && #[trigger] heads(s, k) {
            let k = choose|k: int| i <= k < n && #[trigger] heads(s, k);
            assert(k == i || i + 1 <= k < n && heads(s, k));
        }
    }
}

/// A signature that covers an image up to `limit`, with `__LINKEDIT` from `at` on, is counted
/// by 32-bit numbers: its place, and the size of what `__LINKEDIT` then holds, for which up
/// to 52 bytes a page of 4096 and 8192 more are reckoned.
pub open spec fn counted_by_32_bits(limit: int, at: int) -> bool {
    aligned(limit, 16) <= 0xffff_ffff && aligned(limit, 16) - at + 52 * (limit / 4096 + 1) + 8192
        <= 0xffff_ffff
}

/// What the signer is given is a Mach-O image. Either it is cut short, so that a load command
/// or a segment reaches past its end, which the signer sees itself. Or its load commands
/// are as large as their fields, at most one is `__LINKEDIT`'s, and the signer can read
/// the old signature, which lies in `__LINKEDIT`, and the entry point's address; and if
/// `__LINKEDIT` starts last, it lies in the image and behind the load commands, the
/// segments that start with the file grow from one to the next and hold the load commands,
/// no other starts among these unless there is such a one, the numbers fit, and
/// the first section leaves the load commands room.
pub proof fn law_signable_by_load_commands(s: Seq<u8>)
    requires
        32 <= s.len() <= i64::MAX,
        le32(s, 0) == 0xfeed_facf,
    ensures
        ({
            let n = le32(s, 16);
            let end = command_off(s, n);
            let signed = exists|k: int| 0 <= k < n && #[trigger] signature_here(s, k);
            let start = if signed {
                end
            } else {
                end + 16
            };
            let headed = exists|k: int| 0 <= k < n && #[trigger] heads(s, k);
            signable(s) <==> {
                ||| exists|k: int| 0 <= k < n && !#[trigger] inside(s, k)
                ||| {
                    &&& forall|k: int| 0 <= k < n ==> #[trigger] sized(s, k)
                    &&& one_linkedit(s, 0, n)
                    &&& forall|c: int, l: int| #[trigger]
                        first_signature(s, 0, n, c) && 0 <= l < n && #[trigger] linkedit_here(s, l)
                            ==> {
                            let at = le32(s, command_off(s, c) + 8);
                            let size = le32(s, command_off(s, c) + 12);
                            &&& file_start(s, l) <= at
                            &&& at + size <= file_start(s, l) + file_size(s, l) <= s.len()
                            &&& signature_fits(s.subrange(at, at + size))
                        }
                    &&& forall|m: int, t: int| #[trigger]
                        first_entry(s, 0, n, m) && #[trigger] first_text(s, 0, n, t) ==> file_start(
                            s,
                            t,
                        ) <= address(s, t) && address(s, t) - file_start(s, t) + le64(
                            s,
                            command_off(s, m) + 8,
                        ) <= u64::MAX
                    &&& forall|l: int| #[trigger]
                        linkedit_here(s, l) && starts_last(s, 0, n, l) ==> {
                            &&& file_start(s, l) + file_size(s, l) <= s.len()
                            &&& file_start(s, l) >= start || (file_start(s, l) > 0 && headed)
                            &&& forall|k: int|
                                0 <= k < n && #[trigger] heads(s, k) ==> start <= file_size(s, k)
                            &&& forall|j: int, k: int|
                                0 <= j < k < n && #[trigger] heads(s, j) && #[trigger] heads(s, k)
                                    ==> file_size(s, j) <= file_size(s, k)
                            &&& (exists|k: int|
                                0 <= k < n && #[trigger] written(s, k) && 0 < file_start(s, k)
                                    < start) ==> headed
                            &&& forall|c: int| #[trigger]
                                first_signature(s, 0, n, c) ==> {
                                    let at = le32(s, command_off(s, c) + 8);
                                    counted_by_32_bits(at, file_start(s, l)) && at - file_start(
                                        s,
                                        l,
                                    ) + le32(s, command_off(s, c) + 12) <= 0xffff_ffff
                                }
                            &&& !signed ==> {
                                &&& counted_by_32_bits(
                                    file_start(s, l) + file_size(s, l),
                                    file_start(s, l),
                                )
                                &&& le32(s, 20) + 16 <= 0xffff_ffff
                                &&& forall|q: int| #[trigger]
                                    first_sectioned(s, 0, n, q) ==> le32(s, command_off(s, q) + 120)
                                        >= end
                            }
                        }
                }
            }
        }),
{
    broadcast use group_widths;

    let n = le32(s, 16);
    assert(command_off(s, 0) == 32);
    lemma_cut(s, 0, n);
    lemma_ends(s, 0, n);
    let end = command_off(s, n);
    let start = written_end(s);
    let none = no_segment();
    if forall|k: int| 0 <= k < n ==> #[trigger] inside(s, k) {
        lemma_passes(s, 0, n, start, none);
        if segments_of(s) is Some {
            assert forall|k: int| 0 <= k < n implies #[trigger] inside(s, k) && sized(s, k) by {
                assert(sized(s, k));
            }
            lemma_seen_places(s, 0, n, start, none);
            lemma_seen_segments(s, 0, n, start, none);
            lemma_seen_heads(s, 0, n, start, none);
        }
    }
}

/// A code directory is whole where its magic is right, its digests have a length, its page size
/// is a power of two below 2^32, and its identifier, its team, if it is of a version
/// that has one, and its digests lie in it.
pub proof fn law_directory_is_whole(b: Seq<u8>)
    ensures
        directory_fits(b) <==> {
            &&& b.len() >= 44
            &&& be32(b, 0) == 0xfade_0c02
            &&& b[36] > 0
            &&& b[39] < 32
            &&& be32(b, 20) <= b.len()
            &&& be32(b, 8) >= 0x2_0200 && b.len() >= 52 ==> be32(b, 48) <= b.len()
            &&& be32(b, 16) + be32(b, 28) * b[36] <= b.len()
            &&& be32(b, 24) * b[36] <= be32(b, 16)
        },
{
}

/// A signature's blobs lie one behind the other in it. None holds entitlements, in slot 5, or
/// a constraint, in slots 8 to 11, and what is in slot 0 is a whole code directory, if it
/// is as long as it says.
pub proof fn law_signature_blobs_lie_in_order(d: Seq<u8>, i: int)
    requires
        d.len() >= 12,
        be32(d, 0) == 0xfade_0cc0,
        signature_fits(d),
        0 <= i < be32(d, 8),
    ensures
        12 + 8 * be32(d, 8) <= d.len(),
        be32(d, 8 * i + 12) != 5,
        !(8 <= be32(d, 8 * i + 12) <= 11),
        ({
            let off = be32(d, 8 * i + 16);
            let end = if i + 1 < be32(d, 8) {
                be32(d, 8 * i + 24)
            } else {
                d.len() as int
            };
            &&& off <= end <= d.len()
            &&& be32(d, 8 * i + 12) == 0 && off + 8 <= end && off + be32(d, off + 4) <= end
                ==> directory_fits(d.subrange(off, off + be32(d, off + 4)))
        }),
{
    assert(blob_fits(d, be32(d, 8), i));
}

/// What is no signature is none to be held to that, and a signature without blobs is whole.
pub proof fn law_other_data_is_no_signature(d: Seq<u8>)
    ensures
        d.len() < 12 || be32(d, 0) != 0xfade_0cc0 ==> signature_fits(d),
        d.len() >= 12 && be32(d, 0) == 0xfade_0cc0 && be32(d, 8) == 0 ==> signature_fits(d),
        d.len() >= 12 && be32(d, 0) == 0xfade_0cc0 && 12 + 8 * be32(d, 8) > d.len()
            ==> !signature_fits(d),
{
}

/// A signature of one blob, the whole code directory behind the index, is whole.
pub proof fn law_directory_alone_is_whole(d: Seq<u8>)
    requires
        d.len() >= 20,
        be32(d, 0) == 0xfade_0cc0,
        be32(d, 8) == 1,
        be32(d, 12) == 0,
        be32(d, 16) == 20,
        directory_fits(d.skip(20)),
        be32(d, 24) == d.len() - 20,
    ensures
        signature_fits(d),
{
    assert(d.subrange(20, d.len() as int) =~= d.skip(20));
    assert(blob_fits(d, 1, 0));
}

/// The signer is given Mach-O images alone. One that ends in its header is for it to refuse.
pub proof fn law_signer_is_given_macho_alone(s: Seq<u8>)
    ensures
        signable(s) ==> s.len() >= 4 && le32(s, 0) == 0xfeed_facf,
        4 <= s.len() < 32 && le32(s, 0) == 0xfeed_facf ==> signable(s),
        s.len() > i64::MAX ==> !signable(s),
{
}

} // verus!
