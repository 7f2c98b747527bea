//! What a signed image gives back.

use vstd::prelude::*;

use crate::bytes::{group_widths, le32, le64, lemma_aligned, lemma_le32_same, lemma_le64_same};
use crate::inject::macho::{linkedit_name, macho_injected, macho_layout, LC_CODE_SIGNATURE};
use crate::inject::macho_laws::{law_macho_linkedit_follows, lemma_section_command,
    no_earlier_segment, section_command, sound};
use crate::inject::sign::{command_fits, commands_cut, commands_end, commands_fit, is_segment,
    keeps_image, linkedit_at, names_linkedit, no_segment, points_to_signature, rewritten, signable,
    signature_at, written_end, SegmentWalk};
use crate::section::{is_smol_segment, macho_commands, macho_section, macho_sections, segment_name,
    slot_holds, Scan, LC_SEGMENT_64};

verus! {

/// A slot that holds `SMOL` does not name `__LINKEDIT`.
proof fn lemma_names_differ(slot: Seq<u8>)
    requires
        slot_holds(slot, segment_name()),
    ensures
        !names_linkedit(slot),
{
    assert(slot.take(4)[0] == slot[0]);
    if names_linkedit(slot) {
        assert(slot.take(10)[0] == slot[0]);
        assert(segment_name()[0] != linkedit_name()[0]);
    }
}

/// A slot that holds `__LINKEDIT` names it.
proof fn lemma_names_same(slot: Seq<u8>)
    requires
        slot.len() == 16,
        slot_holds(slot, linkedit_name()),
    ensures
        names_linkedit(slot),
{
}

/// The command at `smol` is a section's, and `__LINKEDIT`'s follows it.
spec fn paired(s: Seq<u8>, smol: int) -> bool {
    &&& is_smol_segment(s, smol)
    &&& le32(s, smol + 4) == 152
    &&& 0 < le64(s, smol + 40)
    &&& 0 < le64(s, smol + 48)
    &&& le32(s, smol + 152) == LC_SEGMENT_64
    &&& names_linkedit(s.subrange(smol + 160, smol + 176))
}

/// What a walk has seen stays seen: that a segment starts among the load commands, and
/// which `__LINKEDIT` and which signature there is.
proof fn lemma_stays(s: Seq<u8>, off: int, left: int, start: int, w: SegmentWalk)
    requires
        commands_fit(s, off, left, start, w) is Some,
    ensures
        commands_fit(s, off, left, start, w) matches Some(seen) && {
            &&& w.low ==> seen.low
            &&& w.linkedit is Some ==> seen.linkedit == w.linkedit
            &&& w.signature is Some ==> seen.signature == w.signature
        },
    decreases left,
{
    if left > 0 {
        let seen = command_fits(s, off, start, w)->0;
        lemma_stays(s, off + le32(s, off + 4), left - 1, start, seen);
    }
}

/// In an image whose segments lie behind its load commands, a section's command in front
/// of `__LINKEDIT`'s is in front of the only one of that name, and the section's bytes
/// lie behind the load commands, too.
proof fn lemma_pair(
    s: Seq<u8>,
    off: int,
    left: int,
    start: int,
    w: SegmentWalk,
    smol: int,
    rest: int,
)
    requires
        commands_fit(s, off, left, start, w) matches Some(seen) && !seen.low,
        !commands_cut(s, off, left),
        section_command(s, off, left) == Some((smol, rest)),
        rest >= 2,
        paired(s, smol),
    ensures
        off <= smol,
        smol + 224 <= commands_end(s, off, left),
        w.linkedit is None,
        commands_fit(s, off, left, start, w) matches Some(seen) && seen.linkedit == Some(
            (le64(s, smol + 192), le64(s, smol + 200)),
        ),
        linkedit_at(s, off, left) == Some(smol + 152),
        le64(s, smol + 40) >= start,
    decreases left,
{
    let cmdsize = le32(s, off + 4);
    let seen = command_fits(s, off, start, w)->0;
    if off == smol && is_smol_segment(s, off) {
        lemma_names_differ(s.subrange(off + 8, off + 24));
        assert(commands_fit(s, off + 152, left - 1, start, seen) is Some);
        let both = command_fits(s, off + 152, start, seen)->0;
        let last = off + 152 + le32(s, off + 156);
        assert(!commands_cut(s, off + 152, left - 1));
        lemma_ends(s, last, left - 2, start, both);
        lemma_stays(s, last, left - 2, start, both);
        assert(commands_end(s, off + 152, left - 1) == commands_end(s, last, left - 2));
        assert(linkedit_at(s, off + 152, left - 1) == Some(off + 152));
        assert(!both.low);
        assert(!seen.low);
    } else {
        lemma_pair(s, off + cmdsize, left - 1, start, seen, smol, rest);
    }
}

/// Load commands end no earlier than they start.
proof fn lemma_ends(s: Seq<u8>, off: int, left: int, start: int, w: SegmentWalk)
    requires
        commands_fit(s, off, left, start, w) is Some,
        !commands_cut(s, off, left),
    ensures
        off <= commands_end(s, off, left),
        left > 0 || off <= s.len() ==> commands_end(s, off, left) <= s.len(),
    decreases left,
{
    if left > 0 {
        let seen = command_fits(s, off, start, w)->0;
        lemma_ends(s, off + le32(s, off + 4), left - 1, start, seen);
    }
}

/// The signature that a walk has seen is the first one.
proof fn lemma_first_signature(s: Seq<u8>, off: int, left: int, start: int, w: SegmentWalk)
    requires
        commands_fit(s, off, left, start, w) is Some,
        w.signature is None,
    ensures
        commands_fit(s, off, left, start, w) matches Some(seen) && match signature_at(s, off, left) {
            Some(at) => seen.signature == Some((le32(s, at + 8), le32(s, at + 12))),
            None => seen.signature is None,
        },
    decreases left,
{
    if left > 0 {
        let seen = command_fits(s, off, start, w)->0;
        let next = off + le32(s, off + 4);
        if le32(s, off) == LC_CODE_SIGNATURE {
            lemma_stays(s, next, left - 1, start, seen);
        } else {
            lemma_first_signature(s, next, left - 1, start, seen);
        }
    }
}

/// What says where the signature is lies behind the head of a load command, and among
/// the load commands.
proof fn lemma_points(s: Seq<u8>, off: int, left: int, start: int, w: SegmentWalk, j: int)
    requires
        commands_fit(s, off, left, start, w) is Some,
        !commands_cut(s, off, left),
        points_to_signature(s, off, left, j),
    ensures
        off + 8 <= j < commands_end(s, off, left),
    decreases left,
{
    let seen = command_fits(s, off, start, w)->0;
    let next = off + le32(s, off + 4);
    lemma_ends(s, next, left - 1, start, seen);
    if points_to_signature(s, next, left - 1, j) {
        lemma_points(s, next, left - 1, start, seen, j);
    }
}

/// A reader of a signed image comes to the section's command as it does in the image
/// that was signed, and finds it as it was.
proof fn lemma_reader(
    s: Seq<u8>,
    v: Seq<u8>,
    off: int,
    left: int,
    more: int,
    start: int,
    w: SegmentWalk,
    smol: int,
    rest: int,
)
    requires
        32 <= off,
        0 <= more,
        commands_fit(s, off, left, start, w) is Some,
        !commands_cut(s, off, left),
        section_command(s, off, left) == Some((smol, rest)),
        rest >= 2,
        paired(s, smol),
        smol + 184 <= s.len(),
        smol + 184 <= v.len(),
        forall|j: int|
            off <= j < smol + 184 && !points_to_signature(s, off, left, j) ==> #[trigger] v[j]
                == s[j],
    ensures
        macho_commands(v, off, left + more) == macho_commands(v, smol, rest + more),
        forall|j: int| smol <= j < smol + 184 ==> #[trigger] v[j] == s[j],
    decreases left,
{
    let cmdsize = le32(s, off + 4);
    let next = off + cmdsize;
    let seen = command_fits(s, off, start, w)->0;
    if is_smol_segment(s, off) {
        let both = command_fits(s, off + 152, start, seen)->0;
        let last = off + 152 + le32(s, off + 156);
        assert(commands_fit(s, off + 152, left - 1, start, seen) is Some);
        assert(!commands_cut(s, off + 152, left - 1));
        assert forall|j: int| smol <= j < smol + 184 implies #[trigger] v[j] == s[j] by {
            if points_to_signature(s, off, left, j) {
                assert(points_to_signature(s, off + 152, left - 1, j));
                assert(points_to_signature(s, last, left - 2, j));
                lemma_points(s, last, left - 2, start, both, j);
            }
        }
    } else {
        lemma_not_behind(s, next, left - 1, start, seen, smol, rest);
        assert forall|j: int|
            off <= j < off + 8 || (is_segment(le32(s, off)) && off <= j < off + 24) implies #[trigger] v[j]
            == s[j] by {
            if points_to_signature(s, off, left, j) && points_to_signature(s, next, left - 1, j) {
                lemma_points(s, next, left - 1, start, seen, j);
            }
        }
        assert(v.subrange(off, off + 4) =~= s.subrange(off, off + 4));
        lemma_le32_same(v, off, s, off);
        assert(v.subrange(off + 4, off + 8) =~= s.subrange(off + 4, off + 8));
        lemma_le32_same(v, off + 4, s, off + 4);
        if le32(s, off) == LC_SEGMENT_64 {
            assert(v.subrange(off + 8, off + 24) =~= s.subrange(off + 8, off + 24));
        }
        lemma_reader(s, v, next, left - 1, more, start, seen, smol, rest);
    }
}

/// A found section command is not in front of where the search started.
proof fn lemma_not_behind(
    s: Seq<u8>,
    off: int,
    left: int,
    start: int,
    w: SegmentWalk,
    smol: int,
    rest: int,
)
    requires
        commands_fit(s, off, left, start, w) is Some,
        section_command(s, off, left) == Some((smol, rest)),
    ensures
        off <= smol,
    decreases left,
{
    if !is_smol_segment(s, off) {
        let seen = command_fits(s, off, start, w)->0;
        lemma_not_behind(s, off + le32(s, off + 4), left - 1, start, seen, smol, rest);
    }
}

/// What a signed image keeps of the one that was signed: a reader comes to the section's
/// command, which is as it was, and so is everything between the section's start and
/// `__LINKEDIT`.
proof fn lemma_kept(image: Seq<u8>, signed: Seq<u8>, at: int, rest: int) -> (left: int)
    requires
        signable(image),
        keeps_image(image, signed),
        section_command(image, 32, le32(image, 16)) == Some((at, rest)),
        rest >= 2,
        paired(image, at),
    ensures
        32 <= at,
        at + 224 <= image.len(),
        at + 184 <= signed.len(),
        0 < left,
        le32(signed, 0) == le32(image, 0),
        macho_commands(signed, 32, le32(signed, 16)) == macho_commands(signed, at, left),
        forall|j: int| at <= j < at + 184 ==> #[trigger] signed[j] == image[j],
        le64(image, at + 192) <= signed.len(),
        forall|j: int|
            le64(image, at + 40) <= j < le64(image, at + 192) ==> #[trigger] signed[j] == image[j],
{
    broadcast use group_widths;

    let ncmds = le32(image, 16);
    let end = commands_end(image, 32, ncmds);
    let start = written_end(image);
    let w = no_segment();
    let signature = signature_at(image, 32, ncmds);
    lemma_pair(image, 32, ncmds, start, w, at, rest);
    lemma_ends(image, 32, ncmds, start, w);
    lemma_first_signature(image, 32, ncmds, start, w);
    let fileoff = le64(image, at + 192);
    let stop = match signature {
        Some(sig) => le32(image, sig + 8),
        None => fileoff + le64(image, at + 200),
    };
    assert(fileoff <= stop);
    assert forall|j: int|
        0 <= j < stop && !(16 <= j < 24) && !(at + 184 <= j < start) && !points_to_signature(
            image,
            32,
            ncmds,
            j,
        ) implies #[trigger] signed[j] == image[j] by {
        assert(!rewritten(image, at + 152, j));
    }
    assert forall|j: int| 0 <= j < 32 || end <= j implies !#[trigger] points_to_signature(
        image,
        32,
        ncmds,
        j,
    ) by {
        if points_to_signature(image, 32, ncmds, j) {
            lemma_points(image, 32, ncmds, start, w, j);
        }
    }
    assert(signed.subrange(0, 4) =~= image.subrange(0, 4));
    lemma_le32_same(signed, 0, image, 0);
    let more = le32(signed, 16) - ncmds;
    lemma_reader(image, signed, 32, ncmds, more, start, w, at, rest);
    rest + more
}

/// Signing keeps what was injected: a reader of the signed image finds the same body.
pub proof fn law_signed_image_keeps_section(stub: Seq<u8>, body: Seq<u8>, signed: Seq<u8>)
    requires
        body.len() > 0,
        macho_layout(stub) matches Ok(lay) && sound(stub, lay) && no_earlier_segment(stub, lay)
            && lay.linkedit.fileoff < 0x1_0000_0000,
        macho_injected(stub, body) matches Ok(image) && signable(image) && keeps_image(
            image,
            signed,
        ),
    ensures
        macho_section(signed) == Some(body),
{
    broadcast use group_widths;

    let image = macho_injected(stub, body)->Ok_0;
    let lay = macho_layout(stub)->Ok_0;
    let at = lay.linkedit.lc_off;
    let start = lay.linkedit.fileoff;
    lemma_section_command(stub, body);
    law_macho_linkedit_follows(stub, body);
    lemma_aligned(body.len() as int, lay.page_size);
    let (first, rest) = section_command(image, 32, le32(image, 16))->0;
    lemma_names_same(image.subrange(at + 160, at + 176));
    let left = lemma_kept(image, signed, at, rest);
    // The section's command.
    assert(signed.subrange(at, at + 4) =~= image.subrange(at, at + 4));
    lemma_le32_same(signed, at, image, at);
    assert(signed.subrange(at + 4, at + 8) =~= image.subrange(at + 4, at + 8));
    lemma_le32_same(signed, at + 4, image, at + 4);
    assert(signed.subrange(at + 8, at + 24) =~= image.subrange(at + 8, at + 24));
    assert(signed.subrange(at + 64, at + 68) =~= image.subrange(at + 64, at + 68));
    lemma_le32_same(signed, at + 64, image, at + 64);
    assert(signed.subrange(at + 72, at + 88) =~= image.subrange(at + 72, at + 88));
    assert(signed.subrange(at + 112, at + 120) =~= image.subrange(at + 112, at + 120));
    lemma_le64_same(signed, at + 112, image, at + 112);
    assert(signed.subrange(at + 120, at + 124) =~= image.subrange(at + 120, at + 124));
    lemma_le32_same(signed, at + 120, image, at + 120);
    // The body.
    assert(signed.subrange(start, start + body.len()) =~= image.subrange(
        start,
        start + body.len(),
    ));
    assert(macho_sections(signed, at + 72, 1) == Scan::Stop(Some(body)));
}

} // verus!
