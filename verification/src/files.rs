//! Replacing files without ever leaving a partial one.

use vstd::prelude::*;
use vstd::string::*;

use crate::text::{decimal, decimal_text, ends_with, joined, occurs_at};

verus! {

/// The name of the sibling that a file is first written to.
pub open spec fn temp_name_text(name: Seq<char>, pid: u32) -> Seq<char> {
    "."@ + name + ".decmpfs-"@ + decimal_text(pid as int) + ".tmp"@
}

/// The name of the sibling that a file is first written to.
pub fn temp_name(name: &str, pid: u32) -> (r: String)
    ensures
        r@ == temp_name_text(name@, pid),
{
    let mut s: String = joined(".", name);
    s.append(".decmpfs-");
    s.append(decimal(pid as u64).as_str());
    s.append(".tmp");
    s
}

/// The name of the sibling that a snapshot is first written to.
pub open spec fn restore_name_text(pid: u32) -> Seq<char> {
    ".decmpfs-restore-"@ + decimal_text(pid as int) + ".tmp"@
}

/// The name that a producer's output is first written to, in the output's
/// directory. An output without a file name is written as `out.node`.
pub open spec fn output_temp_text(name: Option<Seq<char>>, pid: u32) -> Seq<char> {
    "."@ + (match name {
        Some(n) => n,
        None => "out.node"@,
    }) + ".napi-compress-"@ + decimal_text(pid as int) + ".tmp"@
}

/// The name that a producer's output is first written to.
pub fn output_temp_name(name: Option<String>, pid: u32) -> (r: String)
    ensures
        r@ == output_temp_text(
            match name {
                Some(n) => Some(n@),
                None => None,
            },
            pid,
        ),
{
    let mut s: String = match name {
        Some(n) => joined(".", n.as_str()),
        None => joined(".", "out.node"),
    };
    s.append(".napi-compress-");
    s.append(decimal(pid as u64).as_str());
    s.append(".tmp");
    s
}

/// The name that a loaded stub is moved away to.
pub open spec fn old_name_text(name: Seq<char>, pid: u32) -> Seq<char> {
    name + "."@ + decimal_text(pid as int) + ".old"@
}

/// The name that a loaded stub is moved away to.
pub fn old_name(name: &str, pid: u32) -> (r: String)
    ensures
        r@ == old_name_text(name@, pid),
{
    let mut s: String = joined(name, ".");
    s.append(decimal(pid as u64).as_str());
    s.append(".old");
    s
}

/// Nothing but decimal digits.
pub open spec fn digits(name: Seq<u8>) -> bool {
    forall|i: int| 0 <= i < name.len() ==> 0x30 <= #[trigger] name[i] <= 0x39
}

/// `.node.`, in front of a process's number.
pub open spec fn node_infix() -> Seq<u8> {
    seq![0x2eu8, 0x6e, 0x6f, 0x64, 0x65, 0x2e]
}

/// `.old`, behind a process's number.
pub open spec fn old_suffix() -> Seq<u8> {
    seq![0x2eu8, 0x6f, 0x6c, 0x64]
}

/// A file name is made of these parts: anything, `.node.`, a number, and `.old`.
pub open spec fn stale_as(name: Seq<u8>, stem: Seq<u8>, number: Seq<u8>) -> bool {
    name == stem + node_infix() + number + old_suffix() && number.len() > 0 && digits(number)
}

/// A file name is that of a stub that was moved away: `.node.`, a process's number, and
/// `.old` stand at its end.
pub open spec fn stale(name: Seq<u8>) -> bool {
    exists|stem: Seq<u8>, number: Seq<u8>| stale_as(name, stem, number)
}

/// Whether a file is a stub that was moved away, and is to be swept.
pub fn is_stale_stub(name: &[u8]) -> (r: bool)
    ensures
        r == stale(name@),
{
    let old = vec![0x2eu8, 0x6f, 0x6c, 0x64];
    assert(old@ =~= old_suffix());
    let node = vec![0x2eu8, 0x6e, 0x6f, 0x64, 0x65, 0x2e];
    assert(node@ =~= node_infix());
    let len: usize = name.len();
    if len < 4 || !ends_with(name, old.as_slice()) {
        proof {
            if stale(name@) {
                let (stem, number) = choose|stem: Seq<u8>, number: Seq<u8>|
                    stale_as(name@, stem, number);
                assert(name@.subrange(len - 4, len as int) =~= old_suffix());
            }
        }
        return false;
    }
    let end: usize = len - 4;
    let mut start: usize = end;
    while start > 0 && 0x30 <= name[start - 1] && name[start - 1] <= 0x39
        invariant
            start <= end <= name@.len(),
            forall|i: int| start <= i < end ==> 0x30 <= #[trigger] name@[i] <= 0x39,
        decreases start,
    {
        start -= 1;
    }
    let head = vstd::slice::slice_subrange(name, 0, start);
    let r: bool = start < end && ends_with(head, node.as_slice());
    proof {
        lemma_stale(name@, start as int);
    }
    r
}

/// A name that ends with `.old` is that of a stub that was moved away exactly where the
/// digits in front of that, from `start` on, are some, and `.node.` is in front of them.
proof fn lemma_stale(name: Seq<u8>, start: int)
    requires
        0 <= start <= name.len() - 4,
        name.subrange(name.len() - 4, name.len() as int) == old_suffix(),
        forall|i: int| start <= i < name.len() - 4 ==> 0x30 <= #[trigger] name[i] <= 0x39,
        start == 0 || !(0x30 <= name[start - 1] <= 0x39),
    ensures
        stale(name) == (start < name.len() - 4 && start >= 6 && occurs_at(
            name.take(start),
            node_infix(),
            start - 6,
        )),
{
    let end = name.len() - 4;
    if start < end && start >= 6 && occurs_at(name.take(start), node_infix(), start - 6) {
        let stem = name.take(start - 6);
        let number = name.subrange(start, end);
        assert(name.take(start).subrange(start - 6, start) =~= node_infix());
        assert(name.subrange(start - 6, start) =~= node_infix());
        assert(name =~= stem + node_infix() + number + old_suffix()) by {
            assert(name =~= name.take(start - 6) + name.subrange(start - 6, start) + name.subrange(
                start,
                end,
            ) + name.subrange(end, name.len() as int));
        }
        assert(stale_as(name, stem, number));
    }
    if stale(name) {
        let (stem, number) = choose|stem: Seq<u8>, number: Seq<u8>| stale_as(name, stem, number);
        let at = stem.len() + 6;
        let whole = stem + node_infix() + number + old_suffix();
        assert(at + number.len() == end);
        assert(whole[at - 1] == node_infix()[5]);
        assert(name[at - 1] == 0x2e);
        assert forall|i: int| at <= i < end implies 0x30 <= #[trigger] name[i] <= 0x39 by {
            assert(whole[i] == number[i - at]);
        }
        assert(start == at);
        assert(name.take(start).subrange(start - 6, start) =~= node_infix());
    }
}

/// What is to be done next to write a file by way of a sibling.
#[derive(Debug)]
pub enum Writing {
    /// Create the sibling.
    Create { temp: String },
    /// Write all the data to the sibling.
    Fill { temp: String },
    /// Flush the sibling to disk.
    Sync { temp: String },
    /// Rename the sibling over the file.
    Rename { temp: String },
    /// Remove the sibling, if it is there.
    Remove { temp: String },
    /// Nothing more. Whether the file was written.
    Done(bool),
}

/// The step that follows, by whether the last one succeeded. A step that fails
/// removes the sibling; whether that works does not matter.
pub open spec fn writing_after(step: Writing, ok: bool) -> Writing {
    match step {
        Writing::Create { temp } => if ok {
            Writing::Fill { temp }
        } else {
            Writing::Remove { temp }
        },
        Writing::Fill { temp } => if ok {
            Writing::Sync { temp }
        } else {
            Writing::Remove { temp }
        },
        Writing::Sync { temp } => if ok {
            Writing::Rename { temp }
        } else {
            Writing::Remove { temp }
        },
        Writing::Rename { temp } => if ok {
            Writing::Done(true)
        } else {
            Writing::Remove { temp }
        },
        Writing::Remove { temp } => Writing::Done(false),
        Writing::Done(written) => Writing::Done(written),
    }
}

impl Writing {
    /// The step that follows, by whether this one succeeded.
    pub fn next(self, ok: bool) -> (r: Writing)
        ensures
            r == writing_after(self, ok),
    {
        match self {
            Writing::Create { temp } => if ok {
                Writing::Fill { temp }
            } else {
                Writing::Remove { temp }
            },
            Writing::Fill { temp } => if ok {
                Writing::Sync { temp }
            } else {
                Writing::Remove { temp }
            },
            Writing::Sync { temp } => if ok {
                Writing::Rename { temp }
            } else {
                Writing::Remove { temp }
            },
            Writing::Rename { temp } => if ok {
                Writing::Done(true)
            } else {
                Writing::Remove { temp }
            },
            Writing::Remove { temp: _ } => Writing::Done(false),
            Writing::Done(written) => Writing::Done(written),
        }
    }
}

/// Starts to write a file with this name, in a directory, by way of a sibling. A
/// path without a directory or a file name cannot be written.
pub fn write_atomic(has_parent: bool, name: Option<String>, pid: u32) -> (r: Writing)
    ensures
        match name {
            Some(n) => if has_parent {
                r matches Writing::Create { temp } && temp@ == temp_name_text(n@, pid)
            } else {
                r == Writing::Done(false)
            },
            None => r == Writing::Done(false),
        },
{
    match name {
        Some(n) => if has_parent {
            Writing::Create { temp: temp_name(n.as_str(), pid) }
        } else {
            Writing::Done(false)
        },
        None => Writing::Done(false),
    }
}

/// Starts to write a snapshot back over a file in a directory, by way of a sibling.
pub fn restore(has_parent: bool, pid: u32) -> (r: Writing)
    ensures
        has_parent ==> (r matches Writing::Create { temp } && temp@ == restore_name_text(pid)),
        !has_parent ==> r == Writing::Done(false),
{
    if has_parent {
        let mut s: String = joined(".decmpfs-restore-", decimal(pid as u64).as_str());
        s.append(".tmp");
        Writing::Create { temp: s }
    } else {
        Writing::Done(false)
    }
}

/// The step reached once these steps succeeded or failed.
pub open spec fn writing_run(start: Writing, oks: Seq<bool>) -> Writing
    decreases oks.len(),
{
    if oks.len() == 0 {
        start
    } else {
        writing_after(writing_run(start, oks.drop_last()), oks.last())
    }
}

/// A file in a directory: what it holds, and what its sibling holds, if it exists.
pub struct Slot {
    pub file: Option<Seq<u8>>,
    pub temp: Option<Seq<u8>>,
}

/// What a step does to a file and its sibling. A step that fails to write leaves
/// some of the data in the sibling; one that fails to create or rename leaves
/// things as they are.
pub open spec fn writing_effect(
    step: Writing,
    ok: bool,
    data: Seq<u8>,
    before: Slot,
    after: Slot,
) -> bool {
    match step {
        Writing::Create { temp } => if ok {
            after == (Slot { temp: Some(seq![]), ..before })
        } else {
            after == before
        },
        Writing::Fill { temp } => if ok {
            after == (Slot { temp: Some(data), ..before })
        } else {
            after.file == before.file
        },
        Writing::Sync { temp } => after == before,
        Writing::Rename { temp } => if ok {
            after == (Slot { file: before.temp, temp: None })
        } else {
            after == before
        },
        Writing::Remove { temp } => after.file == before.file && (ok ==> after.temp is None),
        Writing::Done(written) => after == before,
    }
}

/// A file and its sibling are as they can be before a step: the file still holds
/// what it did, and in front of the rename the sibling holds all the data; at the
/// end the file holds all the data if that is what was reported, and what it held
/// otherwise.
pub open spec fn slot_fits(step: Writing, held: Option<Seq<u8>>, data: Seq<u8>, slot: Slot) -> bool {
    match step {
        Writing::Sync { temp } => slot.file == held && slot.temp == Some(data),
        Writing::Rename { temp } => slot.file == held && slot.temp == Some(data),
        Writing::Done(written) => slot.file == if written {
            Some(data)
        } else {
            held
        },
        _ => slot.file == held,
    }
}

/// At every moment a file that is being written holds what it held, or all of the
/// new data: no step leaves anything in between, whichever steps fail.
pub proof fn law_file_is_never_partial(
    step: Writing,
    ok: bool,
    held: Option<Seq<u8>>,
    data: Seq<u8>,
    before: Slot,
    after: Slot,
)
    requires
        slot_fits(step, held, data, before),
        writing_effect(step, ok, data, before, after),
    ensures
        slot_fits(writing_after(step, ok), held, data, after),
        after.file == held || after.file == Some(data),
{
}

/// A file is reported as written exactly where creating, filling, flushing and
/// renaming the sibling all succeeded.
pub proof fn law_written_means_renamed(temp: String, oks: Seq<bool>)
    requires
        oks.len() >= 5,
    ensures
        writing_run(Writing::Create { temp }, oks) == Writing::Done(
            oks[0] && oks[1] && oks[2] && oks[3],
        ),
    decreases oks.len(),
{
    let start = Writing::Create { temp };
    if oks.len() == 5 {
        let four = oks.drop_last();
        let three = four.drop_last();
        let two = three.drop_last();
        let one = two.drop_last();
        assert(one.drop_last() =~= seq![]);
        assert(writing_run(start, one.drop_last()) == start);
        assert(writing_run(start, one) == writing_after(start, oks[0]));
        assert(writing_run(start, two) == writing_after(writing_run(start, one), oks[1]));
        assert(writing_run(start, three) == writing_after(writing_run(start, two), oks[2]));
        assert(writing_run(start, four) == writing_after(writing_run(start, three), oks[3]));
    } else {
        law_written_means_renamed(temp, oks.drop_last());
    }
}

/// What is to be done next to replace a loaded stub. A loaded file can be moved
/// away, but not replaced or deleted, on every system.
#[derive(Debug)]
pub enum Replacing {
    /// Rename the stub to `old`.
    MoveAway { old: String },
    /// Write the raw addon in the stub's place.
    Write { old: String },
    /// Rename `old` back.
    RollBack { old: String },
    /// Remove `old`, or have it removed once it is unloaded.
    Cleanup { old: String },
    /// Nothing more. Whether the stub was replaced.
    Done(bool),
}

/// The step that follows, by whether the last one succeeded.
pub open spec fn replacing_after(step: Replacing, ok: bool) -> Replacing {
    match step {
        Replacing::MoveAway { old } => if ok {
            Replacing::Write { old }
        } else {
            Replacing::Done(false)
        },
        Replacing::Write { old } => if ok {
            Replacing::Cleanup { old }
        } else {
            Replacing::RollBack { old }
        },
        Replacing::RollBack { old } => Replacing::Done(false),
        Replacing::Cleanup { old } => Replacing::Done(true),
        Replacing::Done(replaced) => Replacing::Done(replaced),
    }
}

impl Replacing {
    /// The step that follows, by whether this one succeeded.
    pub fn next(self, ok: bool) -> (r: Replacing)
        ensures
            r == replacing_after(self, ok),
    {
        match self {
            Replacing::MoveAway { old } => if ok {
                Replacing::Write { old }
            } else {
                Replacing::Done(false)
            },
            Replacing::Write { old } => if ok {
                Replacing::Cleanup { old }
            } else {
                Replacing::RollBack { old }
            },
            Replacing::RollBack { old: _ } => Replacing::Done(false),
            Replacing::Cleanup { old: _ } => Replacing::Done(true),
            Replacing::Done(replaced) => Replacing::Done(replaced),
        }
    }
}

/// Starts to replace a loaded stub with this file name.
pub fn replace_self(name: Option<String>, pid: u32) -> (r: Replacing)
    ensures
        match name {
            Some(n) => r matches Replacing::MoveAway { old } && old@ == old_name_text(n@, pid),
            None => r == Replacing::Done(false),
        },
{
    match name {
        Some(n) => Replacing::MoveAway { old: old_name(n.as_str(), pid) },
        None => Replacing::Done(false),
    }
}

/// A loaded stub and the name that it is moved away to.
pub struct Moved {
    pub stub: Option<Seq<u8>>,
    pub old: Option<Seq<u8>>,
}

/// What a step does to a stub and to what was moved away. Writing is by way of a
/// sibling, so it is all or nothing.
pub open spec fn replacing_effect(
    step: Replacing,
    ok: bool,
    raw: Seq<u8>,
    before: Moved,
    after: Moved,
) -> bool {
    match step {
        Replacing::MoveAway { old } => if ok {
            after == (Moved { stub: None, old: before.stub })
        } else {
            after == before
        },
        Replacing::Write { old } => if ok {
            after == (Moved { stub: Some(raw), ..before })
        } else {
            after == before
        },
        Replacing::RollBack { old } => if ok {
            after == (Moved { stub: before.old, old: None })
        } else {
            after == before
        },
        Replacing::Cleanup { old } => after.stub == before.stub,
        Replacing::Done(replaced) => after == before,
    }
}

/// A stub is replaced by the whole raw addon, or its bytes are still there: at its
/// own name, or moved away where they could not be moved back.
pub open spec fn moved_fits(step: Replacing, held: Seq<u8>, raw: Seq<u8>, m: Moved) -> bool {
    match step {
        Replacing::MoveAway { old } => m.stub == Some(held),
        Replacing::Write { old } => m.stub is None && m.old == Some(held),
        Replacing::RollBack { old } => m.stub is None && m.old == Some(held),
        Replacing::Cleanup { old } => m.stub == Some(raw),
        Replacing::Done(replaced) => if replaced {
            m.stub == Some(raw)
        } else {
            m.stub == Some(held) || m.old == Some(held)
        },
    }
}

/// No step of a replacement loses the stub before the raw addon is in its place.
pub proof fn law_stub_is_never_lost(
    step: Replacing,
    ok: bool,
    held: Seq<u8>,
    raw: Seq<u8>,
    before: Moved,
    after: Moved,
)
    requires
        moved_fits(step, held, raw, before),
        replacing_effect(step, ok, raw, before, after),
    ensures
        moved_fits(replacing_after(step, ok), held, raw, after),
{
}

/// The names of siblings are hidden, end with `.tmp`, tell what they are for, and are not
/// those of another process. A file's own name is in its sibling's, so neither are two files'.
pub proof fn law_sibling_names(name: Seq<char>, other: Seq<char>, pid: u32, another: u32)
    ensures
        temp_name_text(name, pid) == "."@ + name + ".decmpfs-"@ + decimal_text(pid as int)
            + ".tmp"@,
        restore_name_text(pid) == ".decmpfs-restore-"@ + decimal_text(pid as int) + ".tmp"@,
        output_temp_text(Some(name), pid) == "."@ + name + ".napi-compress-"@ + decimal_text(
            pid as int,
        ) + ".tmp"@,
        output_temp_text(None, pid) == output_temp_text(Some("out.node"@), pid),
        old_name_text(name, pid) == name + "."@ + decimal_text(pid as int) + ".old"@,
        temp_name_text(name, pid)[0] == '.',
        restore_name_text(pid)[0] == '.',
        output_temp_text(Some(name), pid)[0] == '.',
        pid != another ==> temp_name_text(name, pid) != temp_name_text(name, another)
            && restore_name_text(pid) != restore_name_text(another) && output_temp_text(
            Some(name),
            pid,
        ) != output_temp_text(Some(name), another) && old_name_text(name, pid) != old_name_text(
            name,
            another,
        ),
        name != other ==> temp_name_text(name, pid) != temp_name_text(other, pid),
{
    reveal_strlit(".");
    reveal_strlit(".decmpfs-restore-");
    if pid != another {
        if decimal_text(pid as int) == decimal_text(another as int) {
            crate::text::law_decimal_is_injective(pid as int, another as int);
        }
        lemma_between("."@ + name + ".decmpfs-"@, ".tmp"@, pid, another);
        lemma_between(".decmpfs-restore-"@, ".tmp"@, pid, another);
        lemma_between("."@ + name + ".napi-compress-"@, ".tmp"@, pid, another);
        lemma_between(name + "."@, ".old"@, pid, another);
    }
    if name != other && temp_name_text(name, pid) == temp_name_text(other, pid) {
        let tail = ".decmpfs-"@ + decimal_text(pid as int) + ".tmp"@;
        let a = temp_name_text(name, pid);
        let b = temp_name_text(other, pid);
        assert(a =~= "."@ + name + tail);
        assert(b =~= "."@ + other + tail);
        assert(a.len() == 1 + name.len() + tail.len());
        assert(b.len() == 1 + other.len() + tail.len());
        assert(a.subrange(1, 1 + name.len() as int) =~= name);
        assert(b.subrange(1, 1 + other.len() as int) =~= other);
        assert(false);
    }
}

/// Two numbers between the same texts make two texts.
proof fn lemma_between(front: Seq<char>, back: Seq<char>, pid: u32, another: u32)
    requires
        pid != another,
    ensures
        front + decimal_text(pid as int) + back != front + decimal_text(another as int) + back,
{
    let a = front + decimal_text(pid as int) + back;
    let b = front + decimal_text(another as int) + back;
    if a == b {
        let n = front.len() as int;
        let m = a.len() - back.len();
        assert(a.subrange(n, m) =~= decimal_text(pid as int));
        assert(b.subrange(n, m) =~= decimal_text(another as int));
        crate::text::law_decimal_is_injective(pid as int, another as int);
    }
}

/// A name is that of a stub that was moved away exactly where it ends with `.node.`, digits,
/// and `.old`: any such name is, and every one that is has those parts.
pub proof fn law_stale_name_has_parts(stem: Seq<u8>, number: Seq<u8>, name: Seq<u8>) -> (parts: (
    Seq<u8>,
    Seq<u8>,
))
    ensures
        number.len() > 0 && (forall|i: int|
            0 <= i < number.len() ==> 48 <= #[trigger] number[i] <= 57) ==> stale(
            stem + seq![0x2eu8, 0x6e, 0x6f, 0x64, 0x65, 0x2e] + number + seq![
                0x2eu8, 0x6f, 0x6c, 0x64,
            ],
        ),
        stale(name) ==> {
            let (front, digits) = parts;
            &&& name == front + seq![0x2eu8, 0x6e, 0x6f, 0x64, 0x65, 0x2e] + digits + seq![
                0x2eu8, 0x6f, 0x6c, 0x64,
            ]
            &&& digits.len() > 0
            &&& forall|i: int| 0 <= i < digits.len() ==> 48 <= #[trigger] digits[i] <= 57
        },
{
    assert(node_infix() =~= seq![0x2eu8, 0x6e, 0x6f, 0x64, 0x65, 0x2e]);
    assert(old_suffix() =~= seq![0x2eu8, 0x6f, 0x6c, 0x64]);
    if number.len() > 0 && forall|i: int| 0 <= i < number.len() ==> 48 <= #[trigger] number[i] <= 57 {
        assert(stale_as(stem + node_infix() + number + old_suffix(), stem, number));
    }
    choose|front: Seq<u8>, digits: Seq<u8>| stale_as(name, front, digits)
}

/// Whichever step on a sibling fails, the sibling is removed next, and every step before is
/// on the same sibling.
pub proof fn law_failed_step_removes_sibling(temp: String, ok: bool)
    ensures
        writing_after(Writing::Create { temp }, false) == (Writing::Remove { temp }),
        writing_after(Writing::Fill { temp }, false) == (Writing::Remove { temp }),
        writing_after(Writing::Sync { temp }, false) == (Writing::Remove { temp }),
        writing_after(Writing::Rename { temp }, false) == (Writing::Remove { temp }),
        writing_after(Writing::Create { temp }, true) == (Writing::Fill { temp }),
        writing_after(Writing::Fill { temp }, true) == (Writing::Sync { temp }),
        writing_after(Writing::Sync { temp }, true) == (Writing::Rename { temp }),
        writing_after(Writing::Remove { temp }, ok) == Writing::Done(false),
{
}

/// A stub is reported as replaced exactly where it could be moved away and the raw addon
/// could be written. Where only the writing failed, it is moved back next; where both went
/// well, what was moved away is cleaned up.
pub proof fn law_replaced_means_moved_and_written(old: String, moved: bool, written: bool, last: bool)
    ensures
        ({
            let first = replacing_after(Replacing::MoveAway { old }, moved);
            let second = replacing_after(first, written);
            &&& replacing_after(second, last) == Replacing::Done(moved && written)
            &&& moved ==> first == (Replacing::Write { old })
            &&& moved && !written ==> second == (Replacing::RollBack { old })
            &&& moved && written ==> second == (Replacing::Cleanup { old })
            &&& !moved ==> first == Replacing::Done(false)
        }),
{
}

/// A file is written by way of its sibling where it has a directory and a name, and not at
/// all elsewhere; a snapshot needs no name.
pub proof fn law_writing_needs_a_place(
    has_parent: bool,
    name: Option<String>,
    pid: u32,
    written: Writing,
    restored: Writing,
    replaced: Replacing,
)
    requires
        call_ensures(write_atomic, (has_parent, name, pid), written),
        call_ensures(restore, (has_parent, pid), restored),
        call_ensures(replace_self, (name, pid), replaced),
    ensures
        has_parent && name is Some ==> (written matches Writing::Create { temp } && temp@ == "."@
            + name->0@ + ".decmpfs-"@ + decimal_text(pid as int) + ".tmp"@),
        !has_parent || name is None ==> written == Writing::Done(false),
        has_parent ==> (restored matches Writing::Create { temp } && temp@
            == ".decmpfs-restore-"@ + decimal_text(pid as int) + ".tmp"@),
        !has_parent ==> restored == Writing::Done(false),
        name matches Some(n) ==> (replaced matches Replacing::MoveAway { old } && old@ == n@ + "."@
            + decimal_text(pid as int) + ".old"@),
        name is None ==> replaced == Replacing::Done(false),
{
}

} // verus!
