//! What an injected Mach-O image keeps, and what it gives back.

use vstd::prelude::*;

use crate::bytes::{aligned, group_widths, law_aligned_is_least_multiple, le16, le32, le32_bytes,
    le64, le64_bytes, lemma_aligned, lemma_le32_same, lemma_le64_same, lemma_put32, lemma_put64,
    overwrite, window, zeros};
use crate::inject::error::InjectError;
use crate::inject::macho::{all_bumped, bumped, command_seen, counted, linkedit_end,
    linkedit_fields, linkedit_kept, linkedit_name, macho_delta, macho_injected, macho_layout,
    macho_refused, macho_spliced, macho_walk, moved_linkedit, nothing_seen, pointer_fields,
    segment_lc, shifted, stale_command, stripped, Linkedit, MachoLayout, MachoWalk,
    Signature, LC_CODE_SIGNATURE};
use crate::inject::macho_walk_laws::{field_at, holds_offset, law_macho_layout_finds_fields,
    lemma_fields};
use crate::section::{is_smol_segment, macho_commands, macho_section, macho_section_name,
    macho_sections, segment_name, slot_holds, Scan, LC_SEGMENT_64, MH_MAGIC_64};

verus! {

/// Where load command `i` starts.
pub open spec fn command_off(s: Seq<u8>, i: int) -> int
    decreases i,
{
    if i <= 0 {
        32
    } else {
        command_off(s, i - 1) + le32(s, command_off(s, i - 1) + 4)
    }
}

/// The load command at `off` is as large as the fields that an injection uses.
pub open spec fn well_sized(s: Seq<u8>, off: int) -> bool {
    let cmd = le32(s, off);
    let cmdsize = le32(s, off + 4);
    &&& cmd == LC_SEGMENT_64 ==> cmdsize >= 24
    &&& cmd == LC_SEGMENT_64 && slot_holds(s.subrange(off + 8, off + 24), linkedit_name())
        ==> cmdsize >= 56
    &&& forall|k: int|
        0 <= k < linkedit_fields(cmd).len() ==> #[trigger] linkedit_fields(cmd)[k] + 4 <= cmdsize
}

/// A stub whose load commands are as large as their fields, with the signature
/// command, if there is one, behind `__LINKEDIT`'s.
pub open spec fn sound(s: Seq<u8>, lay: MachoLayout) -> bool {
    &&& forall|i: int| 0 <= i < le32(s, 16) ==> #[trigger] well_sized(s, command_off(s, i))
    &&& lay.code_sig matches Some(sig) ==> sig.lc_off > lay.linkedit.lc_off
}

/// A field at `p` lies in load command `k`, which is neither a segment nor the
/// signature.
spec fn owned(s: Seq<u8>, k: int, p: int) -> bool {
    &&& command_off(s, k) + 8 <= p
    &&& p + 4 <= command_off(s, k + 1)
    &&& le32(s, command_off(s, k)) != LC_SEGMENT_64
    &&& le32(s, command_off(s, k)) != LC_CODE_SIGNATURE
}

/// Load command `k` lies in the image, and the next one behind it.
spec fn linked(s: Seq<u8>, k: int) -> bool {
    32 <= command_off(s, k) && command_off(s, k) + 8 <= command_off(s, k + 1) <= s.len()
}

/// The first `n` load commands lie in the image, one behind the other.
spec fn chained(s: Seq<u8>, n: int) -> bool {
    forall|k: int| 0 <= k < n ==> #[trigger] linked(s, k)
}

/// `l` is what load command `k` says of `__LINKEDIT`.
spec fn linkedit_is(s: Seq<u8>, k: int, l: Linkedit) -> bool {
    &&& l.lc_off == command_off(s, k)
    &&& le32(s, l.lc_off) == LC_SEGMENT_64
    &&& slot_holds(s.subrange(l.lc_off + 8, l.lc_off + 24), linkedit_name())
    &&& l.lc_off + 56 <= command_off(s, k + 1)
    &&& l.fileoff == le64(s, l.lc_off + 40)
    &&& l.vmaddr == le64(s, l.lc_off + 24)
}

/// `sig` is load command `k`, a signature.
spec fn signature_is(s: Seq<u8>, k: int, sig: Signature) -> bool {
    sig.lc_off == command_off(s, k) && le32(s, sig.lc_off) == LC_CODE_SIGNATURE
}

/// A field at `p` lies in one of the first `i` load commands.
spec fn owned_within(s: Seq<u8>, i: int, p: int) -> bool {
    exists|k: int| 0 <= k < i && #[trigger] owned(s, k, p)
}

/// The fields are in the first `i` load commands, apart and in order.
spec fn pointers_placed(s: Seq<u8>, i: int, pointers: Seq<int>) -> bool {
    &&& forall|m: int| 0 <= m < pointers.len() ==> owned_within(s, i, #[trigger] pointers[m])
    &&& forall|a: int, b: int|
        0 <= a < b < pointers.len() ==> #[trigger] pointers[a] + 4 <= #[trigger] pointers[b]
    &&& forall|m: int| 0 <= m < pointers.len() ==> #[trigger] pointers[m] + 4 <= command_off(s, i)
}

/// What a walk over the first `i` load commands has seen is in them.
spec fn placed(s: Seq<u8>, i: int, w: MachoWalk) -> bool {
    &&& chained(s, i)
    &&& w.linkedit matches Some(l) ==> exists|k: int| 0 <= k < i && #[trigger] linkedit_is(s, k, l)
    &&& w.code_sig matches Some(sig) ==> exists|k: int|
        0 <= k < i && #[trigger] signature_is(s, k, sig)
    &&& pointers_placed(s, i, w.pointers)
}

/// Load commands are in the order of their numbers.
proof fn lemma_order(s: Seq<u8>, i: int, j: int, n: int)
    requires
        chained(s, n),
        0 <= i < j <= n,
    ensures
        32 <= command_off(s, i),
        command_off(s, i) + 8 <= command_off(s, i + 1) <= command_off(s, j) <= s.len(),
    decreases j - i,
{
    assert(linked(s, i));
    if i + 1 < j {
        lemma_order(s, i + 1, j, n);
    }
}

/// The fields of one more load command.
proof fn lemma_step_pointers(s: Seq<u8>, i: int, pointers: Seq<int>)
    requires
        0 <= i,
        pointers_placed(s, i, pointers),
        well_sized(s, command_off(s, i)),
        linked(s, i),
    ensures
        ({
            let off = command_off(s, i);
            let cmd = le32(s, off);
            &&& cmd != LC_SEGMENT_64 && cmd != LC_CODE_SIGNATURE ==> pointers_placed(
                s,
                i + 1,
                pointers + pointer_fields(cmd, off),
            )
            &&& pointers_placed(s, i + 1, pointers)
        }),
{
    let off = command_off(s, i);
    let cmd = le32(s, off);
    let next = command_off(s, i + 1);
    assert(next == off + le32(s, off + 4));
    let n = pointers.len() as int;
    assert forall|m: int| 0 <= m < n implies owned_within(s, i + 1, #[trigger] pointers[m]) by {
        assert(owned_within(s, i, pointers[m]));
    }
    assert forall|m: int| 0 <= m < n implies #[trigger] pointers[m] + 4 <= next by {
        assert(pointers[m] + 4 <= off);
    }
    assert(pointers_placed(s, i + 1, pointers));
    if cmd != LC_SEGMENT_64 && cmd != LC_CODE_SIGNATURE {
        let fields = pointer_fields(cmd, off);
        let both = pointers + fields;
        assert forall|m: int| 0 <= m < fields.len() implies off + 8 <= #[trigger] fields[m]
            && fields[m] + 4 <= next by {
            assert(fields[m] == off + linkedit_fields(cmd)[m]);
        }
        assert forall|a: int, b: int| 0 <= a < b < fields.len() implies #[trigger] fields[a] + 4
            <= #[trigger] fields[b] by {
            assert(fields[a] == off + linkedit_fields(cmd)[a]);
            assert(fields[b] == off + linkedit_fields(cmd)[b]);
        }
        assert forall|m: int| 0 <= m < both.len() implies owned_within(
            s,
            i + 1,
            #[trigger] both[m],
        ) by {
            if m < n {
                assert(both[m] == pointers[m]);
            } else {
                assert(both[m] == fields[m - n]);
                assert(owned(s, i, both[m]));
            }
        }
        assert forall|a: int, b: int| 0 <= a < b < both.len() implies #[trigger] both[a] + 4
            <= #[trigger] both[b] by {
            if b < n {
                assert(pointers[a] + 4 <= pointers[b]);
            } else if a < n {
                assert(pointers[a] + 4 <= off);
                assert(off + 8 <= fields[b - n]);
            } else {
                assert(fields[a - n] + 4 <= fields[b - n]);
            }
        }
        assert forall|m: int| 0 <= m < both.len() implies #[trigger] both[m] + 4 <= next by {
            if m < n {
                assert(pointers[m] + 4 <= off);
            } else {
                assert(both[m] == fields[m - n]);
            }
        }
    }
}

/// One more load command keeps what a walk has seen in its place.
proof fn lemma_step(s: Seq<u8>, i: int, w: MachoWalk, seen: MachoWalk)
    requires
        0 <= i,
        placed(s, i, w),
        well_sized(s, command_off(s, i)),
        linked(s, i),
        command_seen(s, command_off(s, i), w) == Ok::<MachoWalk, InjectError>(seen),
    ensures
        placed(s, i + 1, seen),
{
    let off = command_off(s, i);
    let cmd = le32(s, off);
    assert(command_off(s, i + 1) == off + le32(s, off + 4));
    lemma_step_pointers(s, i, w.pointers);
    if seen.linkedit is Some {
        let l = seen.linkedit->0;
        if cmd == LC_SEGMENT_64 && slot_holds(s.subrange(off + 8, off + 24), linkedit_name()) {
            assert(linkedit_is(s, i, l));
        } else {
            let k = choose|k: int| 0 <= k < i && #[trigger] linkedit_is(s, k, l);
            assert(linkedit_is(s, k, l));
        }
    }
    if seen.code_sig is Some {
        let sig = seen.code_sig->0;
        if cmd == LC_CODE_SIGNATURE {
            assert(signature_is(s, i, sig));
        } else {
            let k = choose|k: int| 0 <= k < i && #[trigger] signature_is(s, k, sig);
            assert(signature_is(s, k, sig));
        }
    }
}

/// What a whole walk has seen is in the load commands.
proof fn lemma_placed(s: Seq<u8>, i: int, n: int, w: MachoWalk)
    requires
        0 <= i <= n,
        placed(s, i, w),
        32 <= command_off(s, i),
        forall|k: int| 0 <= k < n ==> #[trigger] well_sized(s, command_off(s, k)),
    ensures
        macho_walk(s, command_off(s, i), n - i, w) matches Ok((seen, end)) ==> placed(s, n, seen)
            && end == command_off(s, n),
    decreases n - i,
{
    broadcast use group_widths;

    let off = command_off(s, i);
    if i < n && off + 8 <= s.len() {
        let cmdsize = le32(s, off + 4);
        assert(command_off(s, i + 1) == off + cmdsize);
        if cmdsize >= 8 && off + cmdsize <= s.len() {
            if let Ok(seen) = command_seen(s, off, w) {
                assert(well_sized(s, command_off(s, i)));
                lemma_step(s, i, w, seen);
                lemma_placed(s, i + 1, n, seen);
            }
        }
    }
}

/// What was seen of a sound stub is in its load commands.
proof fn lemma_layout(s: Seq<u8>, lay: MachoLayout) -> (w: MachoWalk)
    requires
        macho_layout(s) == Ok::<MachoLayout, InjectError>(lay),
        sound(s, lay),
    ensures
        placed(s, le32(s, 16), w),
        w.linkedit == Some(lay.linkedit),
        w.code_sig == lay.code_sig,
        w.pointers == lay.pointers,
        lay.end_of_lc == command_off(s, le32(s, 16)),
        lay.end_of_lc <= s.len(),
        20 <= s.len() <= i64::MAX,
        le32(s, 0) == MH_MAGIC_64,
        lay.page_size == 0x4000 || lay.page_size == 0x1000,
{
    broadcast use group_widths;

    let n = le32(s, 16);
    let w = nothing_seen();
    assert(placed(s, 0, w));
    assert(command_off(s, 0) == 32);
    lemma_placed(s, 0, n, w);
    let (seen, end) = macho_walk(s, 32, n, w)->Ok_0;
    let k = choose|k: int| 0 <= k < n && #[trigger] linkedit_is(s, k, lay.linkedit);
    lemma_order(s, k, n, n);
    seen
}

/// Moving file offsets leaves every other byte as it was.
proof fn lemma_bumps_keep(s: Seq<u8>, pointers: Seq<int>, i: int, lc_off: int, delta: int)
    requires
        0 <= i,
    ensures
        all_bumped(s, pointers, i, lc_off, delta) matches Ok(t) ==> t.len() == s.len() && forall|
            j: int,
        |
            0 <= j < s.len() && (forall|m: int|
                i <= m < pointers.len() ==> !(shifted(#[trigger] pointers[m], lc_off) <= j
                    < shifted(pointers[m], lc_off) + 4)) ==> #[trigger] t[j] == s[j],
    decreases pointers.len() - i,
{
    broadcast use group_widths;

    if i < pointers.len() {
        if let Ok(next) = bumped(s, shifted(pointers[i], lc_off), delta) {
            lemma_bumps_keep(next, pointers, i + 1, lc_off, delta);
            if let Ok(t) = all_bumped(next, pointers, i + 1, lc_off, delta) {
                assert forall|j: int|
                    0 <= j < s.len() && (forall|m: int|
                        i <= m < pointers.len() ==> !(shifted(#[trigger] pointers[m], lc_off) <= j
                            < shifted(pointers[m], lc_off) + 4)) implies #[trigger] t[j]
                    == s[j] by {
                    assert(!(shifted(pointers[i], lc_off) <= j < shifted(pointers[i], lc_off) + 4));
                    assert(next[j] == s[j]);
                }
            }
        }
    }
}

/// The stages of an injection that succeeds.
struct Stages {
    lay: MachoLayout,
    spliced: Seq<u8>,
    moved: Seq<u8>,
    pointed: Seq<u8>,
    out: Seq<u8>,
}

/// The stub is read and accepted, and the new command is spliced in.
spec fn accepted(stub: Seq<u8>, body: Seq<u8>, g: Stages) -> bool {
    &&& macho_layout(stub) == Ok::<MachoLayout, InjectError>(g.lay)
    &&& macho_refused(stub, body, g.lay) is None
    &&& g.spliced == macho_spliced(stub, body, g.lay)
}

/// `__LINKEDIT` and the file offsets into it are moved.
spec fn relocated(body: Seq<u8>, g: Stages) -> bool {
    let lay = g.lay;
    &&& moved_linkedit(
        g.spliced,
        lay.linkedit.lc_off + 152,
        macho_delta(body, lay),
        linkedit_kept(lay),
        lay.page_size,
    ) == Ok::<Seq<u8>, InjectError>(g.moved)
    &&& all_bumped(g.moved, lay.pointers, 0, lay.linkedit.lc_off, macho_delta(body, lay)) == Ok::<
        Seq<u8>,
        InjectError,
    >(g.pointed)
}

spec fn staged(stub: Seq<u8>, body: Seq<u8>, g: Stages) -> bool {
    &&& accepted(stub, body, g)
    &&& relocated(body, g)
    &&& stripped(g.pointed, stale_command(g.lay), le32(stub, 16), le32(stub, 20)) == Ok::<
        Seq<u8>,
        InjectError,
    >(g.out)
}

proof fn lemma_staged(stub: Seq<u8>, body: Seq<u8>) -> (g: Stages)
    requires
        macho_injected(stub, body) is Ok,
    ensures
        staged(stub, body, g),
        macho_injected(stub, body) == Ok::<Seq<u8>, InjectError>(g.out),
{
    let lay = macho_layout(stub)->Ok_0;
    let delta = macho_delta(body, lay);
    let spliced = macho_spliced(stub, body, lay);
    let moved = moved_linkedit(
        spliced,
        lay.linkedit.lc_off + 152,
        delta,
        linkedit_kept(lay),
        lay.page_size,
    )->Ok_0;
    let pointed = all_bumped(moved, lay.pointers, 0, lay.linkedit.lc_off, delta)->Ok_0;
    let out = macho_injected(stub, body)->Ok_0;
    Stages { lay, spliced, moved, pointed, out }
}

/// Where the spliced stub has its parts.
proof fn lemma_spliced(stub: Seq<u8>, body: Seq<u8>, g: Stages)
    requires
        accepted(stub, body, g),
        sound(stub, g.lay),
    ensures
        ({
            let lc_off = g.lay.linkedit.lc_off;
            let end = linkedit_end(stub.len() as int, g.lay);
            let start = g.lay.linkedit.fileoff;
            let delta = macho_delta(body, g.lay);
            let lc = segment_lc(body.len() as int, delta, start, g.lay.linkedit.vmaddr);
            &&& 32 <= lc_off
            &&& lc_off + 56 <= g.lay.end_of_lc
            &&& g.lay.end_of_lc + 152 <= start <= end <= stub.len()
            &&& 0 <= body.len() <= delta
            &&& lc.len() == 152
            &&& g.spliced.len() == end + delta
            &&& forall|j: int| 0 <= j < lc_off ==> #[trigger] g.spliced[j] == stub[j]
            &&& g.spliced.subrange(lc_off, lc_off + 152) == lc
            &&& forall|j: int|
                lc_off + 152 <= j < g.lay.end_of_lc + 152 ==> #[trigger] g.spliced[j] == stub[j
                    - 152]
            &&& forall|j: int|
                g.lay.end_of_lc + 152 <= j < start ==> #[trigger] g.spliced[j] == stub[j]
            &&& g.spliced.subrange(start, start + body.len()) == body
            &&& g.spliced.subrange(start + delta, end + delta) == stub.subrange(start, end)
        }),
{
    broadcast use group_widths;

    let lay = g.lay;
    let w = lemma_layout(stub, lay);
    let n = le32(stub, 16);
    let lc_off = lay.linkedit.lc_off;
    let k = choose|k: int| 0 <= k < n && #[trigger] linkedit_is(stub, k, g.lay.linkedit);
    lemma_order(stub, k, n, n);
    lemma_aligned(body.len() as int, lay.page_size);
    let start = lay.linkedit.fileoff;
    let end = linkedit_end(stub.len() as int, lay);
    let delta = macho_delta(body, lay);
    let lc = segment_lc(body.len() as int, delta, start, lay.linkedit.vmaddr);
    assert(lc.len() == 152);
    assert(g.spliced.len() == end + delta);
    assert(g.spliced.subrange(lc_off, lc_off + 152) =~= lc);
    assert(g.spliced.subrange(start, start + body.len()) =~= body);
    assert(g.spliced.subrange(start + delta, end + delta) =~= stub.subrange(start, end));
}

/// Byte `j` is none that an injection writes once the new command is spliced in.
spec fn untouched(g: Stages, j: int) -> bool {
    let at = g.lay.linkedit.lc_off + 152;
    &&& !(at + 24 <= j < at + 56)
    &&& !(16 <= j < 24)
    &&& forall|m: int|
        0 <= m < g.lay.pointers.len() ==> !(shifted(#[trigger] g.lay.pointers[m], at - 152) <= j
            < shifted(g.lay.pointers[m], at - 152) + 4)
    &&& stale_command(g.lay) matches Some(sig) ==> !(sig <= j < sig + le32(g.pointed, sig + 4))
}

/// Bytes that are not written stay.
proof fn lemma_untouched(stub: Seq<u8>, body: Seq<u8>, g: Stages)
    requires
        staged(stub, body, g),
        sound(stub, g.lay),
    ensures
        g.moved.len() == g.spliced.len(),
        g.pointed.len() == g.spliced.len(),
        g.out.len() == g.spliced.len(),
        forall|j: int| 0 <= j < g.out.len() && untouched(g, j) ==> #[trigger] g.out[j] == g.spliced[j],
{
    broadcast use group_widths;

    let lay = g.lay;
    let lc_off = lay.linkedit.lc_off;
    let delta = macho_delta(body, lay);
    lemma_spliced(stub, body, g);
    lemma_bumps_keep(g.moved, lay.pointers, 0, lc_off, delta);
    assert forall|j: int| 0 <= j < g.out.len() && untouched(g, j) implies #[trigger] g.out[j]
        == g.spliced[j] by {
        assert(g.moved[j] == g.spliced[j]);
        assert(g.pointed[j] == g.moved[j]);
    }
}

/// A field that points into `__LINKEDIT` stays within its command: in front of the
/// new command, or behind it and behind `__LINKEDIT`'s, and in front of the slack.
proof fn lemma_pointer(stub: Seq<u8>, body: Seq<u8>, g: Stages, m: int)
    requires
        accepted(stub, body, g),
        sound(stub, g.lay),
        0 <= m < g.lay.pointers.len(),
    ensures
        ({
            let lc_off = g.lay.linkedit.lc_off;
            let p = g.lay.pointers[m];
            &&& 40 <= p
            &&& p < lc_off ==> p + 4 <= lc_off
            &&& p >= lc_off ==> p >= lc_off + 56 + 8
            &&& p + 4 <= g.lay.end_of_lc
        }),
{
    let w = lemma_layout(stub, g.lay);
    let n = le32(stub, 16);
    let lc_off = g.lay.linkedit.lc_off;
    let p = w.pointers[m];
    let k = choose|k: int| 0 <= k < n && #[trigger] linkedit_is(stub, k, g.lay.linkedit);
    assert(owned_within(stub, n, w.pointers[m]));
    let o = choose|o: int| 0 <= o < n && #[trigger] owned(stub, o, p);
    lemma_order(stub, o, n, n);
    lemma_order(stub, k, n, n);
    if o < k {
        lemma_order(stub, o, k, n);
    } else if k < o {
        lemma_order(stub, k, o, n);
    }
}

/// The stale signature command lies behind `__LINKEDIT`'s, and its size is the one
/// that the stub gives it.
proof fn lemma_signature(stub: Seq<u8>, body: Seq<u8>, g: Stages)
    requires
        accepted(stub, body, g),
        relocated(body, g),
        sound(stub, g.lay),
    ensures
        g.lay.code_sig matches Some(sig) ==> {
            let cmdsize = le32(stub, sig.lc_off + 4);
            &&& g.lay.linkedit.lc_off + 56 <= sig.lc_off
            &&& cmdsize >= 8
            &&& sig.lc_off + cmdsize <= g.lay.end_of_lc
            &&& le32(g.pointed, sig.lc_off + 156) == cmdsize
        },
{
    broadcast use group_widths;

    if g.lay.code_sig is Some {
        let sig = g.lay.code_sig->0;
        let w = lemma_layout(stub, g.lay);
        let n = le32(stub, 16);
        let lc_off = g.lay.linkedit.lc_off;
        let delta = macho_delta(body, g.lay);
        lemma_spliced(stub, body, g);
        let k = choose|k: int| 0 <= k < n && #[trigger] linkedit_is(stub, k, g.lay.linkedit);
        let c = choose|c: int| 0 <= c < n && #[trigger] signature_is(stub, c, sig);
        lemma_order(stub, c, n, n);
        if c <= k {
            if c < k {
                lemma_order(stub, c, k, n);
            }
            assert(false);
        }
        lemma_order(stub, k, c, n);
        let at = sig.lc_off + 156;
        assert(command_off(stub, c + 1) == sig.lc_off + le32(stub, sig.lc_off + 4));
        lemma_bumps_keep(g.moved, g.lay.pointers, 0, lc_off, delta);
        assert forall|j: int| at <= j < at + 4 implies #[trigger] g.pointed[j] == stub[j - 152] by {
            assert forall|m: int| 0 <= m < g.lay.pointers.len() implies !(shifted(
                #[trigger] g.lay.pointers[m],
                lc_off,
            ) <= j < shifted(g.lay.pointers[m], lc_off) + 4) by {
                lemma_pointer(stub, body, g, m);
                let p = w.pointers[m];
                assert(owned_within(stub, n, w.pointers[m]));
                let o = choose|o: int| 0 <= o < n && #[trigger] owned(stub, o, p);
                if o < c {
                    lemma_order(stub, o, c, n);
                } else if c < o {
                    lemma_order(stub, c, o, n);
                }
            }
            assert(g.moved[j] == g.spliced[j]);
        }
        assert(g.pointed.subrange(at, at + 4) =~= stub.subrange(at - 152, at - 148));
        lemma_le32_same(g.pointed, at, stub, at - 152);
    }
}

/// What lies behind the load commands is not written to, nor is the new command.
proof fn lemma_quiet(stub: Seq<u8>, body: Seq<u8>, g: Stages, j: int)
    requires
        staged(stub, body, g),
        sound(stub, g.lay),
        g.lay.linkedit.lc_off <= j < g.lay.linkedit.lc_off + 152 || g.lay.end_of_lc + 152 <= j
            < g.out.len(),
    ensures
        untouched(g, j),
{
    lemma_spliced(stub, body, g);
    lemma_signature(stub, body, g);
    assert forall|m: int| 0 <= m < g.lay.pointers.len() implies !(shifted(
        #[trigger] g.lay.pointers[m],
        g.lay.linkedit.lc_off,
    ) <= j < shifted(g.lay.pointers[m], g.lay.linkedit.lc_off) + 4) by {
        lemma_pointer(stub, body, g, m);
    }
}

/// Nothing that a stub maps moves: between the load commands and `__LINKEDIT` every
/// byte keeps its offset, and so does the first mapped section, which lies there.
pub proof fn law_macho_keeps_mapped(stub: Seq<u8>, body: Seq<u8>, j: int)
    requires
        macho_injected(stub, body) is Ok,
        macho_layout(stub) matches Ok(lay) && sound(stub, lay) && lay.end_of_lc + 152 <= j
            < lay.linkedit.fileoff,
    ensures
        macho_injected(stub, body) matches Ok(out) && macho_layout(stub) matches Ok(lay)
            && out.len() > j && out[j] == stub[j] && lay.first_section >= lay.end_of_lc + 152,
{
    let g = lemma_staged(stub, body);
    lemma_spliced(stub, body, g);
    lemma_untouched(stub, body, g);
    lemma_quiet(stub, body, g, j);
}

/// The bytes of `__LINKEDIT`, without the stale signature, move down by the
/// page-rounded size of the section, and nothing follows them.
pub proof fn law_macho_moves_linkedit(stub: Seq<u8>, body: Seq<u8>)
    requires
        macho_injected(stub, body) is Ok,
        macho_layout(stub) matches Ok(lay) && sound(stub, lay),
    ensures
        macho_injected(stub, body) matches Ok(out) && macho_layout(stub) matches Ok(lay) && {
            let start = lay.linkedit.fileoff;
            let end = linkedit_end(stub.len() as int, lay);
            let delta = macho_delta(body, lay);
            out.skip(start + delta) == stub.subrange(start, end)
        },
{
    let g = lemma_staged(stub, body);
    lemma_spliced(stub, body, g);
    lemma_untouched(stub, body, g);
    let start = g.lay.linkedit.fileoff;
    let end = linkedit_end(stub.len() as int, g.lay);
    let delta = macho_delta(body, g.lay);
    assert forall|j: int| start + delta <= j < end + delta implies #[trigger] g.out[j]
        == g.spliced[j] by {
        lemma_quiet(stub, body, g, j);
    }
    assert(g.out.skip(start + delta) =~= g.spliced.subrange(start + delta, end + delta));
}

/// What the new segment command holds.
proof fn lemma_segment(body_len: int, delta: int, fileoff: int, vmaddr: int)
    requires
        0 <= body_len <= u64::MAX,
        0 <= fileoff,
    ensures
        ({
            let lc = segment_lc(body_len, delta, fileoff, vmaddr);
            &&& lc.len() == 152
            &&& le32(lc, 0) == LC_SEGMENT_64
            &&& le32(lc, 4) == 152
            &&& slot_holds(lc.subrange(8, 24), segment_name())
            &&& fileoff <= u64::MAX ==> le64(lc, 40) == fileoff
            &&& le64(lc, 48) == body_len
            &&& le32(lc, 56) == 1
            &&& le32(lc, 60) == 1
            &&& le32(lc, 64) == 1
            &&& slot_holds(lc.subrange(72, 88), macho_section_name())
            &&& le64(lc, 112) == body_len
            &&& le32(lc, 120) == fileoff % 0x1_0000_0000
        }),
{
    broadcast use group_widths;

    let typed = overwrite(zeros(152), 0, le32_bytes(LC_SEGMENT_64 as int));
    let sized = overwrite(typed, 4, le32_bytes(152));
    let named = overwrite(sized, 8, segment_name());
    let mapped = overwrite(named, 24, le64_bytes(vmaddr));
    let rounded = overwrite(mapped, 32, le64_bytes(delta));
    let placed = overwrite(rounded, 40, le64_bytes(fileoff));
    let filled = overwrite(placed, 48, le64_bytes(body_len));
    let most = overwrite(filled, 56, le32_bytes(1));
    let initial = overwrite(most, 60, le32_bytes(1));
    let one = overwrite(initial, 64, le32_bytes(1));
    let titled = overwrite(one, 72, macho_section_name());
    let owned = overwrite(titled, 88, segment_name());
    let at = overwrite(owned, 104, le64_bytes(vmaddr));
    let long = overwrite(at, 112, le64_bytes(body_len));
    let off = overwrite(long, 120, le32_bytes(fileoff % 0x1_0000_0000));
    let lc = overwrite(off, 124, le32_bytes(2));
    assert(lc == segment_lc(body_len, delta, fileoff, vmaddr));
    lemma_put32(zeros(152), 0, LC_SEGMENT_64 as int);
    assert(lc.subrange(0, 4) =~= typed.subrange(0, 4));
    lemma_le32_same(lc, 0, typed, 0);
    lemma_put32(typed, 4, 152);
    assert(lc.subrange(4, 8) =~= sized.subrange(4, 8));
    lemma_le32_same(lc, 4, sized, 4);
    assert(lc.subrange(8, 24).take(4) =~= segment_name());
    if fileoff <= u64::MAX {
        lemma_put64(rounded, 40, fileoff);
    }
    assert(lc.subrange(40, 48) =~= placed.subrange(40, 48));
    lemma_le64_same(lc, 40, placed, 40);
    lemma_put64(placed, 48, body_len);
    assert(lc.subrange(48, 56) =~= filled.subrange(48, 56));
    lemma_le64_same(lc, 48, filled, 48);
    lemma_put32(filled, 56, 1);
    assert(lc.subrange(56, 60) =~= most.subrange(56, 60));
    lemma_le32_same(lc, 56, most, 56);
    lemma_put32(most, 60, 1);
    assert(lc.subrange(60, 64) =~= initial.subrange(60, 64));
    lemma_le32_same(lc, 60, initial, 60);
    lemma_put32(initial, 64, 1);
    assert(lc.subrange(64, 68) =~= one.subrange(64, 68));
    lemma_le32_same(lc, 64, one, 64);
    assert(lc.subrange(72, 88).take(9) =~= macho_section_name());
    lemma_put64(at, 112, body_len);
    assert(lc.subrange(112, 120) =~= long.subrange(112, 120));
    lemma_le64_same(lc, 112, long, 112);
    lemma_put32(long, 120, fileoff % 0x1_0000_0000);
    assert(lc.subrange(120, 124) =~= off.subrange(120, 124));
    lemma_le32_same(lc, 120, off, 120);
}

/// The new command is in the result as it was built.
proof fn lemma_new_command(stub: Seq<u8>, body: Seq<u8>, g: Stages)
    requires
        staged(stub, body, g),
        sound(stub, g.lay),
    ensures
        ({
            let l = g.lay.linkedit;
            &&& g.out.len() >= l.lc_off + 152
            &&& g.out.subrange(l.lc_off, l.lc_off + 152) == segment_lc(
                body.len() as int,
                macho_delta(body, g.lay),
                l.fileoff,
                l.vmaddr,
            )
        }),
{
    lemma_spliced(stub, body, g);
    lemma_untouched(stub, body, g);
    let lc_off = g.lay.linkedit.lc_off;
    assert forall|j: int| lc_off <= j < lc_off + 152 implies #[trigger] g.out[j]
        == g.spliced[j] by {
        lemma_quiet(stub, body, g, j);
    }
    assert(g.out.subrange(lc_off, lc_off + 152) =~= g.spliced.subrange(lc_off, lc_off + 152));
}

/// A 32-bit number in a stretch reads the same in the whole.
proof fn lemma_within32(out: Seq<u8>, from: int, to: int, at: int)
    requires
        0 <= from <= to <= out.len(),
        0 <= at,
        from + at + 4 <= to,
    ensures
        le32(out, from + at) == le32(out.subrange(from, to), at),
{
    let part = out.subrange(from, to);
    assert(out.subrange(from + at, from + at + 4) =~= part.subrange(at, at + 4));
    lemma_le32_same(out, from + at, part, at);
}

/// A 64-bit number in a stretch reads the same in the whole.
proof fn lemma_within64(out: Seq<u8>, from: int, to: int, at: int)
    requires
        0 <= from <= to <= out.len(),
        0 <= at,
        from + at + 8 <= to,
    ensures
        le64(out, from + at) == le64(out.subrange(from, to), at),
{
    let part = out.subrange(from, to);
    assert(out.subrange(from + at, from + at + 8) =~= part.subrange(at, at + 8));
    lemma_le64_same(out, from + at, part, at);
}

/// The new segment is read-only: neither its most nor its initial protection lets
/// it be written or executed.
pub proof fn law_macho_segment_is_read_only(stub: Seq<u8>, body: Seq<u8>)
    requires
        macho_injected(stub, body) is Ok,
        macho_layout(stub) matches Ok(lay) && sound(stub, lay),
    ensures
        macho_injected(stub, body) matches Ok(out) && macho_layout(stub) matches Ok(lay) && {
            let at = lay.linkedit.lc_off;
            &&& is_smol_segment(out, at)
            &&& le32(out, at + 56) == 1
            &&& le32(out, at + 60) == 1
        },
{
    broadcast use group_widths;

    let g = lemma_staged(stub, body);
    let l = g.lay.linkedit;
    lemma_spliced(stub, body, g);
    lemma_new_command(stub, body, g);
    lemma_segment(body.len() as int, macho_delta(body, g.lay), l.fileoff, l.vmaddr);
    let lc = g.out.subrange(l.lc_off, l.lc_off + 152);
    lemma_within32(g.out, l.lc_off, l.lc_off + 152, 0);
    lemma_within32(g.out, l.lc_off, l.lc_off + 152, 56);
    lemma_within32(g.out, l.lc_off, l.lc_off + 152, 60);
    assert(g.out.subrange(l.lc_off + 8, l.lc_off + 24) =~= lc.subrange(8, 24));
}

/// A load command in front of the new one reads as it does in the stub.
proof fn lemma_earlier_command(stub: Seq<u8>, body: Seq<u8>, g: Stages, i: int)
    requires
        staged(stub, body, g),
        sound(stub, g.lay),
        0 <= i < le32(stub, 16),
        command_off(stub, i) < g.lay.linkedit.lc_off,
    ensures
        ({
            let off = command_off(stub, i);
            &&& 32 <= off
            &&& off + 8 <= g.lay.linkedit.lc_off <= g.out.len()
            &&& le32(stub, off + 4) >= 8
            &&& le32(g.out, off) == le32(stub, off)
            &&& le32(g.out, off + 4) == le32(stub, off + 4)
            &&& le32(stub, off) == LC_SEGMENT_64 ==> off + 24 <= g.lay.linkedit.lc_off
                && g.out.subrange(off + 8, off + 24) == stub.subrange(off + 8, off + 24)
        }),
{
    broadcast use group_widths;

    let w = lemma_layout(stub, g.lay);
    let n = le32(stub, 16);
    let off = command_off(stub, i);
    let lc_off = g.lay.linkedit.lc_off;
    lemma_spliced(stub, body, g);
    lemma_untouched(stub, body, g);
    lemma_signature(stub, body, g);
    let k = choose|k: int| 0 <= k < n && #[trigger] linkedit_is(stub, k, g.lay.linkedit);
    if k < i {
        lemma_order(stub, k, i, n);
    }
    lemma_order(stub, i, k, n);
    assert(command_off(stub, i + 1) == off + le32(stub, off + 4));
    assert(well_sized(stub, command_off(stub, i)));
    assert forall|j: int|
        off <= j < off + 8 || (le32(stub, off) == LC_SEGMENT_64 && off <= j < command_off(
            stub,
            i + 1,
        )) implies #[trigger] g.out[j] == stub[j] by {
        assert forall|m: int| 0 <= m < g.lay.pointers.len() implies !(shifted(
            #[trigger] g.lay.pointers[m],
            lc_off,
        ) <= j < shifted(g.lay.pointers[m], lc_off) + 4) by {
            lemma_pointer(stub, body, g, m);
            assert(owned_within(stub, n, w.pointers[m]));
            let o = choose|o: int| 0 <= o < n && #[trigger] owned(stub, o, w.pointers[m]);
            if o < i {
                lemma_order(stub, o, i, n);
            } else if i < o {
                lemma_order(stub, i, o, n);
            }
        }
        assert(untouched(g, j));
    }
    assert(g.out.subrange(off, off + 4) =~= stub.subrange(off, off + 4));
    lemma_le32_same(g.out, off, stub, off);
    assert(g.out.subrange(off + 4, off + 8) =~= stub.subrange(off + 4, off + 8));
    lemma_le32_same(g.out, off + 4, stub, off + 4);
    if le32(stub, off) == LC_SEGMENT_64 {
        assert(g.out.subrange(off + 8, off + 24) =~= stub.subrange(off + 8, off + 24));
    }
}

/// None of a stub's segments in front of `__LINKEDIT` is named `SMOL` already.
pub open spec fn no_earlier_segment(s: Seq<u8>, lay: MachoLayout) -> bool {
    forall|i: int|
        0 <= i < le32(s, 16) && command_off(s, i) < lay.linkedit.lc_off ==> !is_smol_segment(
            s,
            #[trigger] command_off(s, i),
        )
}

/// A walk over the result's load commands comes to the new one.
proof fn lemma_reach(stub: Seq<u8>, body: Seq<u8>, g: Stages, i: int, k: int, total: int)
    requires
        staged(stub, body, g),
        sound(stub, g.lay),
        no_earlier_segment(stub, g.lay),
        0 <= i <= k < le32(stub, 16),
        linkedit_is(stub, k, g.lay.linkedit),
        k < total,
    ensures
        macho_commands(g.out, command_off(stub, i), total - i) == macho_commands(
            g.out,
            g.lay.linkedit.lc_off,
            total - k,
        ),
    decreases k - i,
{
    if i < k {
        let w = lemma_layout(stub, g.lay);
        let off = command_off(stub, i);
        lemma_order(stub, i, k, le32(stub, 16));
        lemma_earlier_command(stub, body, g, i);
        assert(command_off(stub, i + 1) == off + le32(stub, off + 4));
        assert(!is_smol_segment(stub, command_off(stub, i)));
        lemma_reach(stub, body, g, i + 1, k, total);
    }
}

/// The header of the result.
proof fn lemma_header(stub: Seq<u8>, body: Seq<u8>, g: Stages)
    requires
        staged(stub, body, g),
        sound(stub, g.lay),
    ensures
        g.out.len() >= 32,
        le32(g.out, 0) == MH_MAGIC_64,
        le32(g.out, 16) == le32(stub, 16) + if g.lay.code_sig is Some {
            0int
        } else {
            1int
        },
        le32(g.out, 20) == le32(stub, 20) + 152 - match g.lay.code_sig {
            Some(sig) => le32(stub, sig.lc_off + 4),
            None => 0,
        },
{
    broadcast use group_widths;

    let w = lemma_layout(stub, g.lay);
    lemma_spliced(stub, body, g);
    lemma_untouched(stub, body, g);
    lemma_signature(stub, body, g);
    assert forall|j: int| 0 <= j < 4 implies #[trigger] g.out[j] == stub[j] by {
        assert forall|m: int| 0 <= m < g.lay.pointers.len() implies !(shifted(
            #[trigger] g.lay.pointers[m],
            g.lay.linkedit.lc_off,
        ) <= j < shifted(g.lay.pointers[m], g.lay.linkedit.lc_off) + 4) by {
            lemma_pointer(stub, body, g, m);
        }
        assert(untouched(g, j));
    }
    assert(g.out.subrange(0, 4) =~= stub.subrange(0, 4));
    lemma_le32_same(g.out, 0, stub, 0);
    let (s, ncmds, size) = match g.lay.code_sig {
        Some(sig) => {
            let cmdsize = le32(stub, sig.lc_off + 4);
            (
                overwrite(g.pointed, sig.lc_off + 152, zeros(cmdsize)),
                le32(stub, 16),
                le32(stub, 20) + 152 - cmdsize,
            )
        },
        None => (g.pointed, le32(stub, 16) + 1, le32(stub, 20) + 152),
    };
    assert(g.out == counted(s, ncmds, size));
    let first = overwrite(s, 16, le32_bytes(ncmds));
    lemma_put32(s, 16, ncmds);
    assert(g.out.subrange(16, 20) =~= first.subrange(16, 20));
    lemma_le32_same(g.out, 16, first, 16);
    lemma_put32(first, 20, size);
}

/// Reading an injected image gives the injected body back.
pub proof fn law_macho_round_trip(stub: Seq<u8>, body: Seq<u8>)
    requires
        macho_injected(stub, body) is Ok,
        macho_layout(stub) matches Ok(lay) && sound(stub, lay) && no_earlier_segment(stub, lay)
            && lay.linkedit.fileoff < 0x1_0000_0000,
    ensures
        macho_injected(stub, body) matches Ok(out) && macho_section(out) == Some(body),
{
    broadcast use group_widths;

    let g = lemma_staged(stub, body);
    let l = g.lay.linkedit;
    let out = g.out;
    let w = lemma_layout(stub, g.lay);
    let n = le32(stub, 16);
    lemma_spliced(stub, body, g);
    lemma_untouched(stub, body, g);
    lemma_header(stub, body, g);
    let k = choose|k: int| 0 <= k < n && #[trigger] linkedit_is(stub, k, l);
    assert(command_off(stub, 0) == 32);
    lemma_reach(stub, body, g, 0, k, le32(out, 16));
    // The new command and its section.
    law_macho_segment_is_read_only(stub, body);
    lemma_new_command(stub, body, g);
    lemma_segment(body.len() as int, macho_delta(body, g.lay), l.fileoff, l.vmaddr);
    let at = l.lc_off;
    let lc = out.subrange(at, at + 152);
    lemma_within32(out, at, at + 152, 4);
    lemma_within32(out, at, at + 152, 64);
    lemma_within64(out, at, at + 152, 112);
    lemma_within32(out, at, at + 152, 120);
    assert(out.subrange(at + 72, at + 88) =~= lc.subrange(72, 88));
    lemma_body(stub, body, g);
    assert(macho_sections(out, at + 72, 1) == Scan::Stop(Some(body)));
}

/// The first segment command named `SMOL` among `left` load commands from `off` on:
/// where it is, and how many commands are left there.
pub open spec fn section_command(s: Seq<u8>, off: int, left: int) -> Option<(int, int)>
    decreases left,
{
    if left <= 0 {
        None
    } else if is_smol_segment(s, off) {
        Some((off, left))
    } else {
        section_command(s, off + le32(s, off + 4), left - 1)
    }
}

/// The new command is the first one named `SMOL` in the result.
proof fn lemma_first(stub: Seq<u8>, body: Seq<u8>, g: Stages, i: int, k: int, total: int)
    requires
        staged(stub, body, g),
        sound(stub, g.lay),
        no_earlier_segment(stub, g.lay),
        0 <= i <= k < le32(stub, 16),
        linkedit_is(stub, k, g.lay.linkedit),
        k < total,
        is_smol_segment(g.out, g.lay.linkedit.lc_off),
    ensures
        section_command(g.out, command_off(stub, i), total - i) == Some(
            (g.lay.linkedit.lc_off, total - k),
        ),
    decreases k - i,
{
    if i < k {
        let w = lemma_layout(stub, g.lay);
        let off = command_off(stub, i);
        lemma_order(stub, i, k, le32(stub, 16));
        lemma_earlier_command(stub, body, g, i);
        assert(command_off(stub, i + 1) == off + le32(stub, off + 4));
        assert(!is_smol_segment(stub, command_off(stub, i)));
        lemma_first(stub, body, g, i + 1, k, total);
    }
}

/// `__LINKEDIT`'s command, which follows the new one, keeps its head and its name.
proof fn lemma_linkedit_head(stub: Seq<u8>, body: Seq<u8>, g: Stages)
    requires
        staged(stub, body, g),
        sound(stub, g.lay),
    ensures
        ({
            let at = g.lay.linkedit.lc_off;
            &&& at + 208 <= g.out.len()
            &&& le32(g.out, at + 152) == LC_SEGMENT_64
            &&& slot_holds(g.out.subrange(at + 160, at + 176), linkedit_name())
        }),
{
    let w = lemma_layout(stub, g.lay);
    let at = g.lay.linkedit.lc_off;
    let out = g.out;
    let k = choose|k: int|
        0 <= k < le32(stub, 16) && #[trigger] linkedit_is(stub, k, g.lay.linkedit);
    lemma_spliced(stub, body, g);
    lemma_untouched(stub, body, g);
    lemma_signature(stub, body, g);
    assert forall|j: int| at + 152 <= j < at + 176 implies #[trigger] out[j] == stub[j - 152] by {
        assert forall|m: int| 0 <= m < g.lay.pointers.len() implies !(shifted(
            #[trigger] g.lay.pointers[m],
            at,
        ) <= j < shifted(g.lay.pointers[m], at) + 4) by {
            lemma_pointer(stub, body, g, m);
        }
        assert(untouched(g, j));
    }
    assert(out.subrange(at + 152, at + 156) =~= stub.subrange(at, at + 4));
    lemma_le32_same(out, at + 152, stub, at);
    assert(out.subrange(at + 160, at + 176) =~= stub.subrange(at + 8, at + 24));
}

/// The section's content is where `__LINKEDIT` was.
proof fn lemma_body(stub: Seq<u8>, body: Seq<u8>, g: Stages)
    requires
        staged(stub, body, g),
        sound(stub, g.lay),
    ensures
        window(g.out, g.lay.linkedit.fileoff, body.len() as int) == Some(body),
{
    let start = g.lay.linkedit.fileoff;
    lemma_spliced(stub, body, g);
    lemma_untouched(stub, body, g);
    assert forall|j: int| start <= j < start + body.len() implies #[trigger] g.out[j]
        == g.spliced[j] by {
        lemma_quiet(stub, body, g, j);
    }
    assert(g.out.subrange(start, start + body.len()) =~= g.spliced.subrange(
        start,
        start + body.len(),
    ));
}

/// The new command and `__LINKEDIT`'s in the result: one behind the other, with the
/// section's place and size in the first.
pub proof fn lemma_section_command(stub: Seq<u8>, body: Seq<u8>)
    requires
        macho_injected(stub, body) is Ok,
        macho_layout(stub) matches Ok(lay) && sound(stub, lay) && no_earlier_segment(stub, lay)
            && lay.linkedit.fileoff < 0x1_0000_0000,
    ensures
        macho_injected(stub, body) matches Ok(out) && macho_layout(stub) matches Ok(lay) && {
            let at = lay.linkedit.lc_off;
            &&& 32 <= at
            &&& at + 208 <= out.len()
            &&& section_command(out, 32, le32(out, 16)) matches Some((first, left)) && first == at
                && left >= 2
            &&& is_smol_segment(out, at)
            &&& le32(out, at + 4) == 152
            &&& le64(out, at + 40) == lay.linkedit.fileoff
            &&& le64(out, at + 48) == body.len()
            &&& le32(out, at + 64) == 1
            &&& slot_holds(out.subrange(at + 72, at + 88), macho_section_name())
            &&& le64(out, at + 112) == body.len()
            &&& le32(out, at + 120) == lay.linkedit.fileoff
            &&& 0 < lay.linkedit.fileoff
            &&& le32(out, at + 152) == LC_SEGMENT_64
            &&& slot_holds(out.subrange(at + 160, at + 176), linkedit_name())
            &&& window(out, lay.linkedit.fileoff, body.len() as int) == Some(body)
        },
{
    broadcast use group_widths;

    let g = lemma_staged(stub, body);
    let l = g.lay.linkedit;
    let out = g.out;
    let w = lemma_layout(stub, g.lay);
    let n = le32(stub, 16);
    lemma_spliced(stub, body, g);
    lemma_signature(stub, body, g);
    lemma_header(stub, body, g);
    let k = choose|k: int| 0 <= k < n && #[trigger] linkedit_is(stub, k, l);
    assert(command_off(stub, 0) == 32);
    law_macho_segment_is_read_only(stub, body);
    lemma_first(stub, body, g, 0, k, le32(out, 16));
    if g.lay.code_sig is Some {
        let sig = g.lay.code_sig->0;
        let c = choose|c: int| 0 <= c < n && #[trigger] signature_is(stub, c, sig);
        if c < k {
            lemma_order(stub, c, k, n);
        }
    }
    lemma_new_command(stub, body, g);
    lemma_segment(body.len() as int, macho_delta(body, g.lay), l.fileoff, l.vmaddr);
    let at = l.lc_off;
    let lc = out.subrange(at, at + 152);
    lemma_within32(out, at, at + 152, 4);
    lemma_within64(out, at, at + 152, 40);
    lemma_within64(out, at, at + 152, 48);
    lemma_within32(out, at, at + 152, 64);
    lemma_within64(out, at, at + 152, 112);
    lemma_within32(out, at, at + 152, 120);
    assert(out.subrange(at + 72, at + 88) =~= lc.subrange(72, 88));
    lemma_linkedit_head(stub, body, g);
    lemma_body(stub, body, g);
}

/// Every file offset into `__LINKEDIT` is moved with it: where the field is in the
/// result, it holds the old offset and the distance. Zero marks an absent table
/// and stays.
pub proof fn law_macho_moves_pointers(stub: Seq<u8>, body: Seq<u8>, m: int)
    requires
        macho_injected(stub, body) is Ok,
        macho_layout(stub) matches Ok(lay) && sound(stub, lay) && 0 <= m < lay.pointers.len(),
    ensures
        macho_injected(stub, body) matches Ok(out) && macho_layout(stub) matches Ok(lay) && {
            let held = le32(stub, lay.pointers[m]);
            let holds = le32(out, shifted(lay.pointers[m], lay.linkedit.lc_off));
            if held == 0 {
                holds == 0
            } else {
                holds == held + macho_delta(body, lay) % 0x1_0000_0000
            }
        },
{
    broadcast use group_widths;

    let g = lemma_staged(stub, body);
    let w = lemma_layout(stub, g.lay);
    let n = le32(stub, 16);
    let lc_off = g.lay.linkedit.lc_off;
    let delta = macho_delta(body, g.lay);
    let p = g.lay.pointers[m];
    let at = shifted(p, lc_off);
    lemma_spliced(stub, body, g);
    lemma_untouched(stub, body, g);
    lemma_signature(stub, body, g);
    lemma_pointer(stub, body, g, m);
    // What the field holds before it is moved.
    assert(g.moved.subrange(at, at + 4) =~= stub.subrange(p, p + 4));
    lemma_le32_same(g.moved, at, stub, p);
    assert forall|a: int, b: int| 0 <= a < b < g.lay.pointers.len() implies shifted(
        #[trigger] g.lay.pointers[a],
        lc_off,
    ) + 4 <= shifted(#[trigger] g.lay.pointers[b], lc_off) by {
        assert(w.pointers[a] + 4 <= w.pointers[b]);
    }
    lemma_bumped_once(g.moved, g.lay.pointers, 0, lc_off, delta, m);
    // What is written afterwards is elsewhere.
    assert forall|j: int| at <= j < at + 4 implies #[trigger] g.out[j] == g.pointed[j] by {
        if g.lay.code_sig is Some {
            let sig = g.lay.code_sig->0;
            let c = choose|c: int| 0 <= c < n && #[trigger] signature_is(stub, c, sig);
            assert(command_off(stub, c + 1) == sig.lc_off + le32(stub, sig.lc_off + 4));
            assert(owned_within(stub, n, w.pointers[m]));
            let o = choose|o: int| 0 <= o < n && #[trigger] owned(stub, o, p);
            if o < c {
                lemma_order(stub, o, c, n);
            } else if c < o {
                lemma_order(stub, c, o, n);
            }
        }
    }
    assert(g.out.subrange(at, at + 4) =~= g.pointed.subrange(at, at + 4));
    lemma_le32_same(g.out, at, g.pointed, at);
}

/// Of fields that are apart and in order, each is moved once.
proof fn lemma_bumped_once(
    s: Seq<u8>,
    pointers: Seq<int>,
    i: int,
    lc_off: int,
    delta: int,
    m: int,
)
    requires
        0 <= i <= m < pointers.len(),
        0 <= shifted(pointers[m], lc_off),
        0 <= delta,
        forall|a: int, b: int|
            0 <= a < b < pointers.len() ==> shifted(#[trigger] pointers[a], lc_off) + 4 <= shifted(
                #[trigger] pointers[b],
                lc_off,
            ),
    ensures
        all_bumped(s, pointers, i, lc_off, delta) matches Ok(t) ==> {
            let at = shifted(pointers[m], lc_off);
            let held = le32(s, at);
            &&& t.len() == s.len()
            &&& at + 4 <= s.len()
            &&& le32(t, at) == if held == 0 {
                0
            } else {
                held + delta % 0x1_0000_0000
            }
        },
    decreases m - i,
{
    broadcast use group_widths;

    let at = shifted(pointers[m], lc_off);
    if let Ok(next) = bumped(s, shifted(pointers[i], lc_off), delta) {
        if i < m {
            lemma_bumped_once(next, pointers, i + 1, lc_off, delta, m);
            assert(shifted(pointers[i], lc_off) + 4 <= shifted(pointers[m], lc_off));
            if at + 4 <= s.len() {
                assert(next.subrange(at, at + 4) =~= s.subrange(at, at + 4));
                lemma_le32_same(next, at, s, at);
            }
        } else {
            lemma_bumps_keep(next, pointers, i + 1, lc_off, delta);
            if let Ok(t) = all_bumped(next, pointers, i + 1, lc_off, delta) {
                let held = le32(s, at);
                if held != 0 {
                    lemma_put32(s, at, held + delta % 0x1_0000_0000);
                }
                assert forall|j: int| at <= j < at + 4 implies #[trigger] t[j] == next[j] by {
                    assert forall|b: int| i + 1 <= b < pointers.len() implies !(shifted(
                        #[trigger] pointers[b],
                        lc_off,
                    ) <= j < shifted(pointers[b], lc_off) + 4) by {
                        assert(shifted(pointers[m], lc_off) + 4 <= shifted(pointers[b], lc_off));
                    }
                }
                assert(t.subrange(at, at + 4) =~= next.subrange(at, at + 4));
                lemma_le32_same(t, at, next, at);
            }
        }
    }
}

/// The `__LINKEDIT` command, which follows the new one, says where its bytes are in
/// the result: its file offset and its address are moved by the same distance.
/// Where a signature was dropped, it claims the bytes that are left, and maps the
/// pages that they take; elsewhere both sizes stay.
#[verifier::rlimit(40)]
pub proof fn law_macho_linkedit_follows(stub: Seq<u8>, body: Seq<u8>)
    requires
        macho_injected(stub, body) is Ok,
        macho_layout(stub) matches Ok(lay) && sound(stub, lay),
    ensures
        macho_injected(stub, body) matches Ok(out) && macho_layout(stub) matches Ok(lay) && {
            let at = lay.linkedit.lc_off + 152;
            let delta = macho_delta(body, lay);
            &&& le64(out, at + 40) == lay.linkedit.fileoff + delta
            &&& le64(out, at + 24) == lay.linkedit.vmaddr + delta
            &&& match lay.code_sig {
                Some(sig) => {
                    let kept = sig.dataoff - lay.linkedit.fileoff;
                    le64(out, at + 48) == kept && le64(out, at + 32) == aligned(
                        kept,
                        lay.page_size,
                    )
                },
                None => {
                    let lc_off = lay.linkedit.lc_off;
                    le64(out, at + 48) == le64(stub, lc_off + 48) && le64(out, at + 32) == le64(
                        stub,
                        lc_off + 32,
                    )
                },
            }
        },
{
    broadcast use group_widths;

    let g = lemma_staged(stub, body);
    let w = lemma_layout(stub, g.lay);
    let lay = g.lay;
    let l = lay.linkedit;
    let lc_off = l.lc_off;
    let delta = macho_delta(body, lay);
    let at = lc_off + 152;
    let k = choose|k: int| 0 <= k < le32(stub, 16) && #[trigger] linkedit_is(stub, k, l);
    lemma_spliced(stub, body, g);
    lemma_untouched(stub, body, g);
    lemma_signature(stub, body, g);
    lemma_bumps_keep(g.moved, lay.pointers, 0, lc_off, delta);
    // What the command holds before it is moved.
    let s = g.spliced;
    assert(s.subrange(at + 40, at + 48) =~= stub.subrange(lc_off + 40, lc_off + 48));
    lemma_le64_same(s, at + 40, stub, lc_off + 40);
    assert(s.subrange(at + 24, at + 32) =~= stub.subrange(lc_off + 24, lc_off + 32));
    lemma_le64_same(s, at + 24, stub, lc_off + 24);
    // The move.
    let placed = overwrite(s, at + 40, le64_bytes(l.fileoff + delta));
    assert(placed.subrange(at + 24, at + 32) =~= s.subrange(at + 24, at + 32));
    lemma_le64_same(placed, at + 24, s, at + 24);
    let mapped = overwrite(placed, at + 24, le64_bytes(l.vmaddr + delta));
    lemma_put64(s, at + 40, l.fileoff + delta);
    lemma_put64(placed, at + 24, l.vmaddr + delta);
    assert(g.moved.subrange(at + 40, at + 48) =~= placed.subrange(at + 40, at + 48));
    lemma_le64_same(g.moved, at + 40, placed, at + 40);
    assert(g.moved.subrange(at + 24, at + 32) =~= mapped.subrange(at + 24, at + 32));
    lemma_le64_same(g.moved, at + 24, mapped, at + 24);
    if lay.code_sig is Some {
        let kept = linkedit_kept(lay)->0;
        let filled = overwrite(mapped, at + 48, le64_bytes(kept));
        lemma_put64(mapped, at + 48, kept);
        assert(g.moved.subrange(at + 48, at + 56) =~= filled.subrange(at + 48, at + 56));
        lemma_le64_same(g.moved, at + 48, filled, at + 48);
        lemma_put64(filled, at + 32, aligned(kept, lay.page_size));
    } else {
        assert(g.moved.subrange(at + 48, at + 56) =~= stub.subrange(lc_off + 48, lc_off + 56));
        lemma_le64_same(g.moved, at + 48, stub, lc_off + 48);
        assert(g.moved.subrange(at + 32, at + 40) =~= stub.subrange(lc_off + 32, lc_off + 40));
        lemma_le64_same(g.moved, at + 32, stub, lc_off + 32);
    }
    // What is written afterwards is elsewhere.
    assert forall|j: int| at + 24 <= j < at + 56 implies #[trigger] g.out[j] == g.moved[j] by {
        assert forall|m: int| 0 <= m < lay.pointers.len() implies !(shifted(
            #[trigger] lay.pointers[m],
            lc_off,
        ) <= j < shifted(lay.pointers[m], lc_off) + 4) by {
            lemma_pointer(stub, body, g, m);
        }
        assert(g.pointed[j] == g.moved[j]);
    }
    assert(g.out.subrange(at + 40, at + 48) =~= g.moved.subrange(at + 40, at + 48));
    lemma_le64_same(g.out, at + 40, g.moved, at + 40);
    assert(g.out.subrange(at + 24, at + 32) =~= g.moved.subrange(at + 24, at + 32));
    lemma_le64_same(g.out, at + 24, g.moved, at + 24);
    assert(g.out.subrange(at + 48, at + 56) =~= g.moved.subrange(at + 48, at + 56));
    lemma_le64_same(g.out, at + 48, g.moved, at + 48);
    assert(g.out.subrange(at + 32, at + 40) =~= g.moved.subrange(at + 32, at + 40));
    lemma_le64_same(g.out, at + 32, g.moved, at + 32);
}

/// The header counts the load commands of the result: one more than the stub's, or
/// as many where the signature command was dropped, and their size likewise.
pub proof fn law_macho_counts_commands(stub: Seq<u8>, body: Seq<u8>)
    requires
        macho_injected(stub, body) is Ok,
        macho_layout(stub) matches Ok(lay) && sound(stub, lay),
    ensures
        macho_injected(stub, body) matches Ok(out) && macho_layout(stub) matches Ok(lay)
            && match lay.code_sig {
            None => le32(out, 16) == le32(stub, 16) + 1 && le32(out, 20) == le32(stub, 20) + 152,
            Some(sig) => le32(out, 16) == le32(stub, 16) && le32(out, 20) == le32(stub, 20) + 152
                - le32(stub, sig.lc_off + 4),
        },
{
    let g = lemma_staged(stub, body);
    lemma_header(stub, body, g);
}

/// Load command `i` is a signature.
pub open spec fn is_signature(s: Seq<u8>, i: int) -> bool {
    le32(s, command_off(s, i)) == LC_CODE_SIGNATURE
}

/// At most one load command of a stub is a signature.
pub open spec fn signed_once(s: Seq<u8>) -> bool {
    forall|i: int, j: int|
        0 <= i < j < le32(s, 16) && #[trigger] is_signature(s, i) ==> !#[trigger] is_signature(s, j)
}

/// A walk that passes a signature has seen one.
proof fn lemma_signature_seen(s: Seq<u8>, i: int, n: int, w: MachoWalk, c: int)
    requires
        0 <= i <= n,
        macho_walk(s, command_off(s, i), n - i, w) is Ok,
        w.code_sig is Some || (i <= c < n && is_signature(s, c)),
    ensures
        macho_walk(s, command_off(s, i), n - i, w) matches Ok((seen, end)) && seen.code_sig is Some,
    decreases n - i,
{
    if i < n {
        let off = command_off(s, i);
        let seen = command_seen(s, off, w)->Ok_0;
        assert(command_off(s, i + 1) == off + le32(s, off + 4));
        lemma_signature_seen(s, i + 1, n, seen, c);
    }
}

/// The head of a load command that is not the stale signature's reads in the result,
/// where the command is, as it does in the stub.
proof fn lemma_head(stub: Seq<u8>, body: Seq<u8>, g: Stages, i: int)
    requires
        staged(stub, body, g),
        sound(stub, g.lay),
        0 <= i < le32(stub, 16),
        g.lay.code_sig matches Some(sig) ==> sig.lc_off != command_off(stub, i),
    ensures
        ({
            let off = command_off(stub, i);
            let at = shifted(off, g.lay.linkedit.lc_off);
            &&& 32 <= off
            &&& off + 8 <= command_off(stub, i + 1)
            &&& le32(g.out, at) == le32(stub, off)
            &&& le32(g.out, at + 4) == le32(stub, off + 4)
        }),
{
    broadcast use group_widths;

    let w = lemma_layout(stub, g.lay);
    let n = le32(stub, 16);
    let off = command_off(stub, i);
    let lc_off = g.lay.linkedit.lc_off;
    let at = shifted(off, lc_off);
    lemma_spliced(stub, body, g);
    lemma_untouched(stub, body, g);
    lemma_signature(stub, body, g);
    lemma_order(stub, i, n, n);
    let k = choose|k: int| 0 <= k < n && #[trigger] linkedit_is(stub, k, g.lay.linkedit);
    if i < k {
        lemma_order(stub, i, k, n);
    } else if k < i {
        lemma_order(stub, k, i, n);
    }
    if g.lay.code_sig is Some {
        let sig = g.lay.code_sig->0;
        let c = choose|c: int| 0 <= c < n && #[trigger] signature_is(stub, c, sig);
        assert(command_off(stub, c + 1) == sig.lc_off + le32(stub, sig.lc_off + 4));
        if c < i {
            lemma_order(stub, c, i, n);
        } else if i < c {
            lemma_order(stub, i, c, n);
        }
    }
    assert forall|j: int| at <= j < at + 8 implies #[trigger] g.out[j] == stub[j - at + off] by {
        assert forall|m: int| 0 <= m < g.lay.pointers.len() implies !(shifted(
            #[trigger] g.lay.pointers[m],
            lc_off,
        ) <= j < shifted(g.lay.pointers[m], lc_off) + 4) by {
            lemma_pointer(stub, body, g, m);
            assert(owned_within(stub, n, w.pointers[m]));
            let o = choose|o: int| 0 <= o < n && #[trigger] owned(stub, o, w.pointers[m]);
            if o < i {
                lemma_order(stub, o, i, n);
            } else if i < o {
                lemma_order(stub, i, o, n);
            }
        }
        assert(untouched(g, j));
    }
    assert(g.out.subrange(at, at + 4) =~= stub.subrange(off, off + 4));
    lemma_le32_same(g.out, at, stub, off);
    assert(g.out.subrange(at + 4, at + 8) =~= stub.subrange(off + 4, off + 8));
    lemma_le32_same(g.out, at + 4, stub, off + 4);
}

/// The stale signature command is zeroed.
proof fn lemma_zeroed(stub: Seq<u8>, body: Seq<u8>, g: Stages)
    requires
        staged(stub, body, g),
        sound(stub, g.lay),
    ensures
        g.lay.code_sig matches Some(sig) ==> le32(g.out, sig.lc_off + 152) == 0 && le32(
            g.out,
            sig.lc_off + 156,
        ) == 0,
{
    broadcast use group_widths;

    if g.lay.code_sig is Some {
        let at = g.lay.code_sig->0.lc_off + 152;
        let cmdsize = le32(stub, at - 148);
        lemma_spliced(stub, body, g);
        lemma_untouched(stub, body, g);
        lemma_signature(stub, body, g);
        assert(g.out == counted(
            overwrite(g.pointed, at, zeros(cmdsize)),
            le32(stub, 16),
            le32(stub, 20) + 152 - cmdsize,
        ));
        assert forall|j: int| at <= j < at + 8 implies #[trigger] g.out[j] == 0 by {}
        reveal(le32);
        reveal(le16);
    }
}

/// Where load command `i` of the result is, if `__LINKEDIT`'s is number `k` in the stub:
/// up to the new command where the stub has it, behind that where the stub has the one
/// before, moved down, and behind the zeroed signature nowhere else.
spec fn result_off(stub: Seq<u8>, lay: MachoLayout, k: int, i: int) -> int {
    if i <= k {
        command_off(stub, i)
    } else {
        let moved = command_off(stub, i - 1) + 152;
        match lay.code_sig {
            Some(sig) => if sig.lc_off + 152 < moved {
                sig.lc_off + 152
            } else {
                moved
            },
            None => moved,
        }
    }
}

/// The load commands of the result are where they are told to be.
proof fn lemma_result_off(stub: Seq<u8>, body: Seq<u8>, g: Stages, k: int, i: int)
    requires
        staged(stub, body, g),
        sound(stub, g.lay),
        0 <= k < le32(stub, 16),
        linkedit_is(stub, k, g.lay.linkedit),
        0 <= i <= le32(stub, 16),
    ensures
        command_off(g.out, i) == result_off(stub, g.lay, k, i),
    decreases i,
{
    if i > 0 {
        let n = le32(stub, 16);
        let w = lemma_layout(stub, g.lay);
        let l = g.lay.linkedit;
        let before = command_off(g.out, i - 1);
        lemma_result_off(stub, body, g, k, i - 1);
        lemma_zeroed(stub, body, g);
        lemma_spliced(stub, body, g);
        lemma_signature(stub, body, g);
        assert(command_off(g.out, i) == before + le32(g.out, before + 4));
        if i - 1 < k {
            lemma_order(stub, i - 1, k, n);
            lemma_head(stub, body, g, i - 1);
        } else if i - 1 == k {
            lemma_new_command(stub, body, g);
            lemma_segment(body.len() as int, macho_delta(body, g.lay), l.fileoff, l.vmaddr);
            lemma_within32(g.out, l.lc_off, l.lc_off + 152, 4);
        } else {
            lemma_order(stub, i - 2, n, n);
            if k < i - 2 {
                lemma_order(stub, k, i - 2, n);
            }
            if g.lay.code_sig is Some {
                let sig = g.lay.code_sig->0;
                let c = choose|c: int| 0 <= c < n && #[trigger] signature_is(stub, c, sig);
                if c < i - 2 {
                    lemma_order(stub, c, i - 2, n);
                } else if i - 1 < c {
                    lemma_order(stub, i - 1, c, n);
                }
            }
            if g.lay.code_sig matches Some(sig) && sig.lc_off <= command_off(stub, i - 2) {
            } else {
                lemma_head(stub, body, g, i - 2);
            }
        }
    }
}

/// A stub whose signature, if it has one, is its last load command.
pub open spec fn signed_last(s: Seq<u8>) -> bool {
    forall|i: int| 0 <= i < le32(s, 16) - 1 ==> !#[trigger] is_signature(s, i)
}

/// Every load command of a stub but its signature is one of the result: those in front
/// of `__LINKEDIT`'s have the same number, the others one more, and kind and size stay.
pub proof fn law_macho_keeps_commands(stub: Seq<u8>, body: Seq<u8>, i: int)
    requires
        macho_injected(stub, body) is Ok,
        macho_layout(stub) matches Ok(lay) && sound(stub, lay),
        signed_last(stub),
        0 <= i < le32(stub, 16),
        !is_signature(stub, i),
    ensures
        macho_injected(stub, body) matches Ok(out) && macho_layout(stub) matches Ok(lay) && {
            let off = command_off(stub, i);
            let lc_off = lay.linkedit.lc_off;
            let number = if off < lc_off {
                i
            } else {
                i + 1
            };
            let at = shifted(off, lc_off);
            &&& number < le32(out, 16)
            &&& command_off(out, number) == at
            &&& le32(out, at) == le32(stub, off)
            &&& le32(out, at + 4) == le32(stub, off + 4)
        },
{
    let g = lemma_staged(stub, body);
    let n = le32(stub, 16);
    let w = lemma_layout(stub, g.lay);
    let l = g.lay.linkedit;
    let k = choose|k: int| 0 <= k < n && #[trigger] linkedit_is(stub, k, l);
    lemma_header(stub, body, g);
    if i < k {
        lemma_order(stub, i, k, n);
    } else if k < i {
        lemma_order(stub, k, i, n);
    }
    if g.lay.code_sig is Some {
        let sig = g.lay.code_sig->0;
        let c = choose|c: int| 0 <= c < n && #[trigger] signature_is(stub, c, sig);
        assert(is_signature(stub, c));
        assert(c == n - 1);
        if i < c {
            lemma_order(stub, i, c, n);
        }
    }
    lemma_head(stub, body, g, i);
    lemma_result_off(
        stub,
        body,
        g,
        k,
        if i < k {
            i
        } else {
            i + 1
        },
    );
}

/// No signature command is left: what a reader of the result's load commands comes
/// to is none. A second one in the stub would stay.
pub proof fn law_macho_drops_signature(stub: Seq<u8>, body: Seq<u8>, i: int)
    requires
        macho_injected(stub, body) is Ok,
        macho_layout(stub) matches Ok(lay) && sound(stub, lay),
        signed_once(stub),
        macho_injected(stub, body) matches Ok(out) && 0 <= i < le32(out, 16),
    ensures
        macho_injected(stub, body) matches Ok(out) && !is_signature(out, i),
{
    let g = lemma_staged(stub, body);
    let n = le32(stub, 16);
    let w = lemma_layout(stub, g.lay);
    let l = g.lay.linkedit;
    let k = choose|k: int| 0 <= k < n && #[trigger] linkedit_is(stub, k, l);
    lemma_header(stub, body, g);
    lemma_result_off(stub, body, g, k, i);
    lemma_zeroed(stub, body, g);
    lemma_spliced(stub, body, g);
    lemma_signature(stub, body, g);
    let off = command_off(g.out, i);
    // The stub's command that is there.
    let from = if i < k {
        i
    } else {
        i - 1
    };
    if g.lay.code_sig is Some && off == g.lay.code_sig->0.lc_off + 152 {
    } else if i == k {
        lemma_new_command(stub, body, g);
        lemma_segment(body.len() as int, macho_delta(body, g.lay), l.fileoff, l.vmaddr);
        lemma_within32(g.out, l.lc_off, l.lc_off + 152, 0);
    } else {
        if i < k {
            lemma_order(stub, i, k, n);
        } else if k < from {
            lemma_order(stub, k, from, n);
        }
        lemma_head(stub, body, g, from);
        if is_signature(stub, from) {
            assert(command_off(stub, 0) == 32);
            lemma_signature_seen(stub, 0, n, nothing_seen(), from);
            let sig = g.lay.code_sig->0;
            let c = choose|c: int| 0 <= c < n && #[trigger] signature_is(stub, c, sig);
            assert(is_signature(stub, c));
            assert(c == from);
        }
    }
}

/// The distance by which `__LINKEDIT` moves: the least number of whole pages that the body
/// takes.
proof fn lemma_delta(stub: Seq<u8>, body: Seq<u8>, lay: MachoLayout)
    requires
        macho_layout(stub) == Ok::<MachoLayout, InjectError>(lay),
    ensures
        ({
            let page = if le32(stub, 4) == 0x0100_000c {
                0x4000int
            } else {
                0x1000
            };
            let d = macho_delta(body, lay);
            d % page == 0 && body.len() <= d < body.len() + page
        }),
{
    law_aligned_is_least_multiple(body.len() as int, lay.page_size, 0);
}

/// A command's field that holds a file offset into `__LINKEDIT` lies in the command.
proof fn lemma_field_within(s: Seq<u8>, lay: MachoLayout, k: int, f: int)
    requires
        sound(s, lay),
        0 <= k < le32(s, 16),
        holds_offset(le32(s, command_off(s, k)), f),
    ensures
        8 <= f,
        command_off(s, k) + f + 4 <= command_off(s, k + 1),
{
    let off = command_off(s, k);
    let cmd = le32(s, off);
    lemma_fields(cmd, off);
    assert(well_sized(s, command_off(s, k)));
    assert(pointer_fields(cmd, off).contains(off + f));
    let m = choose|m: int|
        0 <= m < pointer_fields(cmd, off).len() && pointer_fields(cmd, off)[m] == off + f;
    assert(linkedit_fields(cmd)[m] == f);
    assert(command_off(s, k + 1) == off + le32(s, off + 4));
}

/// Every file offset into `__LINKEDIT` that a load command of the stub holds is moved with
/// `__LINKEDIT`: in the result, where the command is, it is larger by the whole pages that
/// the body takes. Zero marks an absent table and stays.
pub proof fn law_macho_moves_every_offset(stub: Seq<u8>, body: Seq<u8>, k: int, f: int) -> (d: int)
    requires
        macho_injected(stub, body) is Ok,
        macho_layout(stub) matches Ok(lay) && sound(stub, lay),
        0 <= k < le32(stub, 16),
        holds_offset(le32(stub, command_off(stub, k)), f),
    ensures
        ({
            let page = if le32(stub, 4) == 0x0100_000c {
                0x4000int
            } else {
                0x1000
            };
            d % page == 0 && body.len() <= d < body.len() + page
        }),
        macho_injected(stub, body) matches Ok(out) && macho_layout(stub) matches Ok(lay) && {
            let off = command_off(stub, k);
            let at = if off < lay.linkedit.lc_off {
                off
            } else {
                off + 152
            };
            let held = le32(stub, off + f);
            le32(out, at + f) == if held == 0 {
                0
            } else {
                held + d % 0x1_0000_0000
            }
        },
{
    let g = lemma_staged(stub, body);
    let n = le32(stub, 16);
    let off = command_off(stub, k);
    let w = lemma_layout(stub, g.lay);
    let l = choose|l: int| 0 <= l < n && #[trigger] linkedit_is(stub, l, g.lay.linkedit);
    lemma_field_within(stub, g.lay, k, f);
    if k < l {
        lemma_order(stub, k, l, n);
    } else if l < k {
        lemma_order(stub, l, k, n);
    }
    let p = field_at(stub, k, f);
    law_macho_layout_finds_fields(stub, p);
    let m = choose|m: int| 0 <= m < g.lay.pointers.len() && g.lay.pointers[m] == p;
    law_macho_moves_pointers(stub, body, m);
    lemma_delta(stub, body, g.lay);
    macho_delta(body, g.lay)
}

/// Nothing else in a load command changes: each byte that is in no file offset into
/// `__LINKEDIT`, nor in the places and sizes of `__LINKEDIT`'s own command, is in the
/// result where its command is. The dropped signature is left out.
pub proof fn law_macho_keeps_command_bytes(stub: Seq<u8>, body: Seq<u8>, k: int, j: int)
    requires
        macho_injected(stub, body) is Ok,
        macho_layout(stub) matches Ok(lay) && sound(stub, lay) && {
            &&& lay.code_sig matches Some(sig) ==> sig.lc_off != command_off(stub, k)
            &&& lay.linkedit.lc_off == command_off(stub, k) ==> !(24 <= j < 56)
        },
        0 <= k < le32(stub, 16),
        0 <= j < le32(stub, command_off(stub, k) + 4),
        forall|f: int| #[trigger]
            holds_offset(le32(stub, command_off(stub, k)), f) ==> !(f <= j < f + 4),
    ensures
        macho_injected(stub, body) matches Ok(out) && macho_layout(stub) matches Ok(lay) && {
            let off = command_off(stub, k);
            let at = if off < lay.linkedit.lc_off {
                off
            } else {
                off + 152
            };
            out.len() > at + j && out[at + j] == stub[off + j]
        },
{
    broadcast use group_widths;

    let g = lemma_staged(stub, body);
    let n = le32(stub, 16);
    let off = command_off(stub, k);
    let lc_off = g.lay.linkedit.lc_off;
    let w = lemma_layout(stub, g.lay);
    lemma_spliced(stub, body, g);
    lemma_untouched(stub, body, g);
    lemma_signature(stub, body, g);
    lemma_order(stub, k, n, n);
    assert(command_off(stub, k + 1) == off + le32(stub, off + 4));
    let l = choose|l: int| 0 <= l < n && #[trigger] linkedit_is(stub, l, g.lay.linkedit);
    if k < l {
        lemma_order(stub, k, l, n);
    } else if l < k {
        lemma_order(stub, l, k, n);
    }
    if g.lay.code_sig is Some {
        let sig = g.lay.code_sig->0;
        let c = choose|c: int| 0 <= c < n && #[trigger] signature_is(stub, c, sig);
        assert(command_off(stub, c + 1) == sig.lc_off + le32(stub, sig.lc_off + 4));
        if c < k {
            lemma_order(stub, c, k, n);
        } else if k < c {
            lemma_order(stub, k, c, n);
        }
    }
    let at = shifted(off, lc_off);
    assert forall|m: int| 0 <= m < g.lay.pointers.len() implies !(shifted(
        #[trigger] g.lay.pointers[m],
        lc_off,
    ) <= at + j < shifted(g.lay.pointers[m], lc_off) + 4) by {
        lemma_pointer(stub, body, g, m);
        let p = g.lay.pointers[m];
        law_macho_layout_finds_fields(stub, p);
        assert(g.lay.pointers.contains(p));
        let (o, f) = choose|o: int, f: int|
            0 <= o < n && holds_offset(le32(stub, command_off(stub, o)), f) && p
                == #[trigger] field_at(stub, o, f);
        lemma_field_within(stub, g.lay, o, f);
        if o < k {
            lemma_order(stub, o, k, n);
        } else if k < o {
            lemma_order(stub, k, o, n);
        }
    }
    assert(untouched(g, at + j));
    assert(g.out[at + j] == g.spliced[at + j]);
}

/// The header keeps what it says of the processor and the kind of file, and its flags; the
/// dropped signature command is all zeros.
pub proof fn law_macho_keeps_header(stub: Seq<u8>, body: Seq<u8>, j: int)
    requires
        macho_injected(stub, body) is Ok,
        macho_layout(stub) matches Ok(lay) && sound(stub, lay),
    ensures
        macho_injected(stub, body) matches Ok(out) && macho_layout(stub) matches Ok(lay) && {
            &&& 0 <= j < 16 || 24 <= j < 32 ==> out[j] == stub[j]
            &&& lay.code_sig matches Some(sig) ==> (0 <= j < le32(stub, sig.lc_off + 4) ==> out[
                sig.lc_off + 152 + j
            ] == 0)
        },
{
    broadcast use group_widths;

    let g = lemma_staged(stub, body);
    lemma_spliced(stub, body, g);
    lemma_untouched(stub, body, g);
    lemma_signature(stub, body, g);
    if 0 <= j < 16 || 24 <= j < 32 {
        assert forall|m: int| 0 <= m < g.lay.pointers.len() implies !(shifted(
            #[trigger] g.lay.pointers[m],
            g.lay.linkedit.lc_off,
        ) <= j < shifted(g.lay.pointers[m], g.lay.linkedit.lc_off) + 4) by {
            lemma_pointer(stub, body, g, m);
        }
        assert(untouched(g, j));
    }
    if g.lay.code_sig is Some {
        let at = g.lay.code_sig->0.lc_off + 152;
        let cmdsize = le32(stub, at - 148);
        assert(g.out == counted(
            overwrite(g.pointed, at, zeros(cmdsize)),
            le32(stub, 16),
            le32(stub, 20) + 152 - cmdsize,
        ));
    }
}

/// What lies where `__LINKEDIT` was: the body, and zeros up to whole pages.
pub proof fn law_macho_body_fills_pages(stub: Seq<u8>, body: Seq<u8>, j: int) -> (d: int)
    requires
        macho_injected(stub, body) is Ok,
        macho_layout(stub) matches Ok(lay) && sound(stub, lay),
    ensures
        ({
            let page = if le32(stub, 4) == 0x0100_000c {
                0x4000int
            } else {
                0x1000
            };
            d % page == 0 && body.len() <= d < body.len() + page
        }),
        macho_injected(stub, body) matches Ok(out) && macho_layout(stub) matches Ok(lay) && {
            let start = lay.linkedit.fileoff;
            let end = match lay.code_sig {
                Some(sig) => sig.dataoff,
                None => stub.len() as int,
            };
            &&& out.len() == end + d
            &&& 0 <= j < d ==> out[start + j] == if j < body.len() {
                body[j]
            } else {
                0
            }
            &&& start <= j < end ==> out[j + d] == stub[j]
        },
{
    let g = lemma_staged(stub, body);
    let lay = g.lay;
    let start = lay.linkedit.fileoff;
    let end = linkedit_end(stub.len() as int, lay);
    let d = macho_delta(body, lay);
    lemma_spliced(stub, body, g);
    lemma_untouched(stub, body, g);
    lemma_delta(stub, body, lay);
    if 0 <= j < d {
        lemma_quiet(stub, body, g, start + j);
        assert(g.spliced[start + j] == if j < body.len() {
            body[j]
        } else {
            0
        });
    }
    if start <= j < end {
        lemma_quiet(stub, body, g, j + d);
        assert(g.spliced.subrange(start + d, end + d)[j - start] == stub.subrange(start, end)[j
            - start]);
    }
    d
}

/// What the new segment command holds besides.
proof fn lemma_segment_bytes(body_len: int, delta: int, fileoff: int, vmaddr: int)
    requires
        0 <= body_len <= u64::MAX,
        0 <= delta <= u64::MAX,
        0 <= vmaddr <= u64::MAX,
        0 <= fileoff,
    ensures
        ({
            let lc = segment_lc(body_len, delta, fileoff, vmaddr);
            let name = seq![0x53u8, 0x4d, 0x4f, 0x4c, 0, 0, 0, 0, 0, 0, 0, 0, 0, 0, 0, 0];
            let section = seq![
                0x5fu8, 0x5f, 0x44, 0x45, 0x43, 0x4d, 0x50, 0x46, 0x53, 0, 0, 0, 0, 0, 0, 0,
            ];
            &&& lc.len() == 152
            &&& lc.subrange(8, 24) == name
            &&& lc.subrange(72, 88) == section
            &&& lc.subrange(88, 104) == name
            &&& le64(lc, 24) == vmaddr
            &&& le64(lc, 32) == delta
            &&& le64(lc, 104) == vmaddr
            &&& le32(lc, 124) == 2
            &&& forall|j: int| 68 <= j < 72 || 128 <= j < 152 ==> #[trigger] lc[j] == 0
        }),
{
    broadcast use group_widths;

    let typed = overwrite(zeros(152), 0, le32_bytes(LC_SEGMENT_64 as int));
    let sized = overwrite(typed, 4, le32_bytes(152));
    let named = overwrite(sized, 8, segment_name());
    let mapped = overwrite(named, 24, le64_bytes(vmaddr));
    let rounded = overwrite(mapped, 32, le64_bytes(delta));
    let placed = overwrite(rounded, 40, le64_bytes(fileoff));
    let filled = overwrite(placed, 48, le64_bytes(body_len));
    let most = overwrite(filled, 56, le32_bytes(1));
    let initial = overwrite(most, 60, le32_bytes(1));
    let one = overwrite(initial, 64, le32_bytes(1));
    let titled = overwrite(one, 72, macho_section_name());
    let owned = overwrite(titled, 88, segment_name());
    let at = overwrite(owned, 104, le64_bytes(vmaddr));
    let long = overwrite(at, 112, le64_bytes(body_len));
    let off = overwrite(long, 120, le32_bytes(fileoff % 0x1_0000_0000));
    let lc = overwrite(off, 124, le32_bytes(2));
    assert(lc == segment_lc(body_len, delta, fileoff, vmaddr));
    let name = seq![0x53u8, 0x4d, 0x4f, 0x4c, 0, 0, 0, 0, 0, 0, 0, 0, 0, 0, 0, 0];
    let section = seq![
        0x5fu8, 0x5f, 0x44, 0x45, 0x43, 0x4d, 0x50, 0x46, 0x53, 0, 0, 0, 0, 0, 0, 0,
    ];
    assert(lc.subrange(8, 24) =~= name);
    assert(lc.subrange(72, 88) =~= section);
    assert(lc.subrange(88, 104) =~= name);
    lemma_put64(named, 24, vmaddr);
    assert(lc.subrange(24, 32) =~= mapped.subrange(24, 32));
    lemma_le64_same(lc, 24, mapped, 24);
    lemma_put64(mapped, 32, delta);
    assert(lc.subrange(32, 40) =~= rounded.subrange(32, 40));
    lemma_le64_same(lc, 32, rounded, 32);
    lemma_put64(owned, 104, vmaddr);
    assert(lc.subrange(104, 112) =~= at.subrange(104, 112));
    lemma_le64_same(lc, 104, at, 104);
    lemma_put32(off, 124, 2);
}

/// The new load command describes a segment `SMOL` with one section `__DECMPFS`, whose
/// place in the file and in memory are those that `__LINKEDIT` had. On disk it is as long
/// as the body; in memory it takes whole pages, which end where `__LINKEDIT` now starts.
pub proof fn law_macho_new_segment(stub: Seq<u8>, body: Seq<u8>) -> (d: int)
    requires
        macho_injected(stub, body) is Ok,
        macho_layout(stub) matches Ok(lay) && sound(stub, lay),
    ensures
        ({
            let page = if le32(stub, 4) == 0x0100_000c {
                0x4000int
            } else {
                0x1000
            };
            d % page == 0 && body.len() <= d < body.len() + page
        }),
        macho_injected(stub, body) matches Ok(out) && macho_layout(stub) matches Ok(lay) && {
            let at = lay.linkedit.lc_off;
            let name = seq![0x53u8, 0x4d, 0x4f, 0x4c, 0, 0, 0, 0, 0, 0, 0, 0, 0, 0, 0, 0];
            let section = seq![
                0x5fu8, 0x5f, 0x44, 0x45, 0x43, 0x4d, 0x50, 0x46, 0x53, 0, 0, 0, 0, 0, 0, 0,
            ];
            &&& le32(out, at) == 0x19
            &&& le32(out, at + 4) == 152
            &&& out.subrange(at + 8, at + 24) == name
            &&& le64(out, at + 24) == le64(stub, at + 24)
            &&& le64(out, at + 32) == d
            &&& le64(out, at + 40) == le64(stub, at + 40)
            &&& le64(out, at + 48) == body.len()
            &&& le32(out, at + 56) == 1
            &&& le32(out, at + 60) == 1
            &&& le32(out, at + 64) == 1
            &&& out.subrange(at + 72, at + 88) == section
            &&& out.subrange(at + 88, at + 104) == name
            &&& le64(out, at + 104) == le64(stub, at + 24)
            &&& le64(out, at + 112) == body.len()
            &&& le32(out, at + 120) == le64(stub, at + 40) % 0x1_0000_0000
            &&& le32(out, at + 124) == 2
            &&& forall|j: int| 68 <= j < 72 || 128 <= j < 152 ==> out[#[trigger] (at + j)] == 0
            // Where `__LINKEDIT` goes.
            &&& le64(out, at + 152 + 24) == le64(out, at + 24) + d
            &&& le64(out, at + 152 + 40) == le64(out, at + 40) + d
        },
{
    broadcast use group_widths;

    let g = lemma_staged(stub, body);
    let l = g.lay.linkedit;
    let d = macho_delta(body, g.lay);
    let w = lemma_layout(stub, g.lay);
    let k = choose|k: int| 0 <= k < le32(stub, 16) && #[trigger] linkedit_is(stub, k, l);
    lemma_delta(stub, body, g.lay);
    lemma_spliced(stub, body, g);
    lemma_new_command(stub, body, g);
    law_macho_linkedit_follows(stub, body);
    lemma_segment(body.len() as int, d, l.fileoff, l.vmaddr);
    lemma_segment_bytes(body.len() as int, d, l.fileoff, l.vmaddr);
    let out = g.out;
    let at = l.lc_off;
    let lc = out.subrange(at, at + 152);
    lemma_within32(out, at, at + 152, 0);
    lemma_within32(out, at, at + 152, 4);
    lemma_within64(out, at, at + 152, 24);
    lemma_within64(out, at, at + 152, 32);
    lemma_within64(out, at, at + 152, 40);
    lemma_within64(out, at, at + 152, 48);
    lemma_within32(out, at, at + 152, 56);
    lemma_within32(out, at, at + 152, 60);
    lemma_within32(out, at, at + 152, 64);
    lemma_within64(out, at, at + 152, 104);
    lemma_within64(out, at, at + 152, 112);
    lemma_within32(out, at, at + 152, 120);
    lemma_within32(out, at, at + 152, 124);
    assert(out.subrange(at + 8, at + 24) =~= lc.subrange(8, 24));
    assert(out.subrange(at + 72, at + 88) =~= lc.subrange(72, 88));
    assert(out.subrange(at + 88, at + 104) =~= lc.subrange(88, 104));
    assert forall|j: int| 68 <= j < 72 || 128 <= j < 152 implies out[#[trigger] (at + j)] == 0 by {
        assert(lc[j] == out[at + j]);
    }
    d
}

/// File offsets that have room to grow can be moved.
proof fn lemma_bumps_succeed(s: Seq<u8>, pointers: Seq<int>, i: int, lc_off: int, delta: int)
    requires
        0 <= i,
        0 <= delta,
        forall|a: int, b: int|
            0 <= a < b < pointers.len() ==> shifted(#[trigger] pointers[a], lc_off) + 4 <= shifted(
                #[trigger] pointers[b],
                lc_off,
            ),
        forall|m: int|
            i <= m < pointers.len() ==> {
                let at = shifted(#[trigger] pointers[m], lc_off);
                0 <= at && at + 4 <= s.len() && (le32(s, at) == 0 || le32(s, at) + delta
                    % 0x1_0000_0000 <= u32::MAX)
            },
    ensures
        all_bumped(s, pointers, i, lc_off, delta) is Ok,
    decreases pointers.len() - i,
{
    broadcast use group_widths;

    if i < pointers.len() {
        let here = shifted(pointers[i], lc_off);
        let next = bumped(s, here, delta)->Ok_0;
        assert forall|m: int| i + 1 <= m < pointers.len() implies {
            let at = shifted(#[trigger] pointers[m], lc_off);
            0 <= at && at + 4 <= next.len() && (le32(next, at) == 0 || le32(next, at) + delta
                % 0x1_0000_0000 <= u32::MAX)
        } by {
            let at = shifted(pointers[m], lc_off);
            assert(here + 4 <= at);
            assert(next.subrange(at, at + 4) =~= s.subrange(at, at + 4));
            lemma_le32_same(next, at, s, at);
        }
        lemma_bumps_succeed(next, pointers, i + 1, lc_off, delta);
    }
}

/// What `__LINKEDIT`'s command and the file offsets hold once the new command is spliced in
/// is what they hold in the stub.
proof fn lemma_before_the_move(stub: Seq<u8>, body: Seq<u8>, g: Stages)
    requires
        accepted(stub, body, g),
        sound(stub, g.lay),
    ensures
        ({
            let l = g.lay.linkedit;
            &&& l.lc_off + 208 <= g.spliced.len()
            &&& le64(g.spliced, l.lc_off + 192) == l.fileoff
            &&& le64(g.spliced, l.lc_off + 176) == l.vmaddr
            &&& forall|m: int|
                0 <= m < g.lay.pointers.len() ==> {
                    let at = shifted(#[trigger] g.lay.pointers[m], l.lc_off);
                    &&& 0 <= at
                    &&& at + 4 <= g.spliced.len()
                    &&& at + 4 <= l.lc_off || l.lc_off + 208 <= at
                    &&& le32(g.spliced, at) == le32(stub, g.lay.pointers[m])
                }
            &&& forall|a: int, b: int|
                0 <= a < b < g.lay.pointers.len() ==> shifted(
                    #[trigger] g.lay.pointers[a],
                    l.lc_off,
                ) + 4 <= shifted(#[trigger] g.lay.pointers[b], l.lc_off)
        }),
{
    let l = g.lay.linkedit;
    let s = g.spliced;
    let lc_off = l.lc_off;
    let w = lemma_layout(stub, g.lay);
    let k = choose|k: int| 0 <= k < le32(stub, 16) && #[trigger] linkedit_is(stub, k, l);
    lemma_spliced(stub, body, g);
    assert(s.subrange(lc_off + 192, lc_off + 200) =~= stub.subrange(lc_off + 40, lc_off + 48));
    lemma_le64_same(s, lc_off + 192, stub, lc_off + 40);
    assert(s.subrange(lc_off + 176, lc_off + 184) =~= stub.subrange(lc_off + 24, lc_off + 32));
    lemma_le64_same(s, lc_off + 176, stub, lc_off + 24);
    assert forall|m: int| 0 <= m < g.lay.pointers.len() implies {
        let at = shifted(#[trigger] g.lay.pointers[m], l.lc_off);
        &&& 0 <= at
        &&& at + 4 <= g.spliced.len()
        &&& at + 4 <= l.lc_off || l.lc_off + 208 <= at
        &&& le32(g.spliced, at) == le32(stub, g.lay.pointers[m])
    } by {
        lemma_pointer(stub, body, g, m);
        let p = g.lay.pointers[m];
        let at = shifted(p, lc_off);
        assert(s.subrange(at, at + 4) =~= stub.subrange(p, p + 4));
        lemma_le32_same(s, at, stub, p);
    }
    assert forall|a: int, b: int| 0 <= a < b < g.lay.pointers.len() implies shifted(
        #[trigger] g.lay.pointers[a],
        lc_off,
    ) + 4 <= shifted(#[trigger] g.lay.pointers[b], lc_off) by {
        assert(w.pointers[a] + 4 <= w.pointers[b]);
    }
}

/// Moving `__LINKEDIT` leaves the file offsets of other commands as they are.
proof fn lemma_moved_keeps(stub: Seq<u8>, body: Seq<u8>, g: Stages)
    requires
        accepted(stub, body, g),
        sound(stub, g.lay),
        moved_linkedit(
            g.spliced,
            g.lay.linkedit.lc_off + 152,
            macho_delta(body, g.lay),
            linkedit_kept(g.lay),
            g.lay.page_size,
        ) == Ok::<Seq<u8>, InjectError>(g.moved),
    ensures
        g.moved.len() == g.spliced.len(),
        forall|m: int|
            0 <= m < g.lay.pointers.len() ==> le32(
                g.moved,
                shifted(#[trigger] g.lay.pointers[m], g.lay.linkedit.lc_off),
            ) == le32(stub, g.lay.pointers[m]),
{
    broadcast use group_widths;

    lemma_before_the_move(stub, body, g);
    assert forall|m: int| 0 <= m < g.lay.pointers.len() implies le32(
        g.moved,
        shifted(#[trigger] g.lay.pointers[m], g.lay.linkedit.lc_off),
    ) == le32(stub, g.lay.pointers[m]) by {
        let at = shifted(g.lay.pointers[m], g.lay.linkedit.lc_off);
        assert(g.moved.subrange(at, at + 4) =~= g.spliced.subrange(at, at + 4));
        lemma_le32_same(g.moved, at, g.spliced, at);
    }
}

/// The section goes into every sound stub that has room for it: the slack in front of the
/// first mapped section takes the new command, `__LINKEDIT` lies behind that, the signature
/// in `__LINKEDIT`, and what grows stays within its width. Where the slack is too short, or
/// the signature lies in front of `__LINKEDIT`, the stub is refused for that.
pub proof fn law_macho_accepts_room(stub: Seq<u8>, body: Seq<u8>, d: int)
    requires
        macho_layout(stub) matches Ok(lay) && sound(stub, lay),
        ({
            let page = if le32(stub, 4) == 0x0100_000c {
                0x4000int
            } else {
                0x1000
            };
            d % page == 0 && body.len() <= d < body.len() + page
        }),
    ensures
        macho_layout(stub) matches Ok(lay) && {
            let slack = lay.first_section - lay.end_of_lc;
            let start = lay.linkedit.fileoff;
            let end = match lay.code_sig {
                Some(sig) => sig.dataoff,
                None => stub.len() as int,
            };
            &&& macho_injected(stub, body) is Ok <==> {
                &&& slack >= 152
                &&& lay.end_of_lc + 152 <= start <= end <= stub.len()
                &&& end + d <= usize::MAX
                &&& start + d <= u64::MAX
                &&& lay.linkedit.vmaddr + d <= u64::MAX
                &&& forall|m: int|
                    0 <= m < lay.pointers.len() ==> {
                        let held = le32(stub, #[trigger] lay.pointers[m]);
                        held == 0 || held + d % 0x1_0000_0000 <= u32::MAX
                    }
                &&& le32(stub, 16) + 1 <= u32::MAX
                &&& le32(stub, 20) + 152 <= u32::MAX
                &&& lay.code_sig matches Some(sig) ==> le32(stub, sig.lc_off + 4) <= le32(stub, 20)
                    + 152
            }
            &&& 0 <= slack < 152 ==> macho_injected(stub, body) == Err::<Seq<u8>, InjectError>(
                InjectError::NoHeaderSlack { slack: slack as u64 },
            )
            &&& 152 <= slack && end < start ==> macho_injected(stub, body) == Err::<
                Seq<u8>,
                InjectError,
            >(InjectError::SignatureBeforeLinkedit)
            &&& slack < 0 ==> macho_injected(stub, body) == Err::<Seq<u8>, InjectError>(
                InjectError::CorruptLayout,
            )
            &&& 152 <= slack && start <= end && (start < lay.end_of_lc + 152 || stub.len() < end)
                ==> macho_injected(stub, body) == Err::<Seq<u8>, InjectError>(
                InjectError::CorruptLayout,
            )
        },
{
    broadcast use group_widths;

    let lay = macho_layout(stub)->Ok_0;
    let delta = macho_delta(body, lay);
    lemma_delta(stub, body, lay);
    assert(d == delta) by {
        vstd::arithmetic::div_mod::lemma_fundamental_div_mod(d, lay.page_size);
        vstd::arithmetic::div_mod::lemma_fundamental_div_mod(delta, lay.page_size);
        let a = d / lay.page_size;
        let b = delta / lay.page_size;
        let page = lay.page_size;
        if a < b {
            assert(page * a + page <= page * b) by (nonlinear_arith)
                requires
                    a < b,
                    page > 0,
            ;
        } else if b < a {
            assert(page * b + page <= page * a) by (nonlinear_arith)
                requires
                    b < a,
                    page > 0,
            ;
        }
    }
    let lc_off = lay.linkedit.lc_off;
    if macho_refused(stub, body, lay) is None {
        let spliced = macho_spliced(stub, body, lay);
        let first = Stages { lay, spliced, moved: spliced, pointed: spliced, out: spliced };
        lemma_spliced(stub, body, first);
        lemma_before_the_move(stub, body, first);
        let l = lay.linkedit;
        // Writing the file offset leaves the address.
        let placed = overwrite(spliced, lc_off + 192, le64_bytes(l.fileoff + delta));
        assert(placed.subrange(lc_off + 176, lc_off + 184) =~= spliced.subrange(
            lc_off + 176,
            lc_off + 184,
        ));
        lemma_le64_same(placed, lc_off + 176, spliced, lc_off + 176);
        let moving = moved_linkedit(spliced, lc_off + 152, delta, linkedit_kept(lay), lay.page_size);
        if l.fileoff + delta <= u64::MAX && l.vmaddr + delta <= u64::MAX {
            let moved = moving->Ok_0;
            let second = Stages { moved, ..first };
            lemma_moved_keeps(stub, body, second);
            if forall|m: int|
                0 <= m < lay.pointers.len() ==> {
                    let held = le32(stub, #[trigger] lay.pointers[m]);
                    held == 0 || held + d % 0x1_0000_0000 <= u32::MAX
                } {
                lemma_bumps_succeed(moved, lay.pointers, 0, lc_off, delta);
                let pointed = all_bumped(moved, lay.pointers, 0, lc_off, delta)->Ok_0;
                lemma_bumps_keep(moved, lay.pointers, 0, lc_off, delta);
                lemma_signature(stub, body, Stages { pointed, ..second });
            } else if all_bumped(moved, lay.pointers, 0, lc_off, delta) is Ok {
                let m = choose|m: int|
                    0 <= m < lay.pointers.len() && {
                        let held = le32(stub, #[trigger] lay.pointers[m]);
                        held != 0 && held + d % 0x1_0000_0000 > u32::MAX
                    };
                lemma_bumped_once(moved, lay.pointers, 0, lc_off, delta, m);
                assert(false);
            }
        }
    }
}

} // verus!
