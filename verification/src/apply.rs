//! Applying compression to a file, by way of a sibling that replaces it.
//!
//! The file itself is never changed: a sibling is built with compression on, and
//! renamed over it in the end. A crash leaves the file, or the finished sibling in
//! its place.

use vstd::prelude::*;
use vstd::string::*;

use crate::backend::{block_at, block_count, block_range, build_resource_fork, compression_header,
    flagged, fork_bytes, fork_size, header_bytes, views, within_decmpfs_limit, FileFlags, Signal,
    EFBIG, FS_COMPR_FL, MAX_RAW};
use crate::compress::{after_steps, compressed_outcome, law_second_run_changes_nothing, measured,
    Step, World};
use crate::files::{temp_name, temp_name_text};
use crate::outcome::{Error, IoFailure, IoKind, Outcome};

verus! {

/// A failed call with a path: the path cannot be handed to the system, or the
/// system refused.
#[derive(Debug)]
pub enum CallFailure {
    /// The path has a NUL in it.
    InteriorNul,
    Failed(IoFailure),
}

/// An I/O error with this context, kind, number and message.
pub open spec fn is_io(
    e: Error,
    context: Seq<char>,
    kind: IoKind,
    code: Option<i32>,
    message: Seq<char>,
) -> bool {
    e matches Error::Io { context: c, source } && c@ == context && source.kind == kind
        && source.raw_os_error == code && source.message@ == message
}

/// The error for a failed call in this context.
pub open spec fn is_call_error(e: Error, context: Seq<char>, failure: CallFailure) -> bool {
    match failure {
        CallFailure::InteriorNul => is_io(
            e,
            "path has interior NUL"@,
            IoKind::InvalidInput,
            None,
            "invalid input parameter"@,
        ),
        CallFailure::Failed(source) => e matches Error::Io { context: c, source: s } && c@
            == context && s == source,
    }
}

/// The error for a path with a NUL in it.
pub fn interior_nul() -> (r: Error)
    ensures
        is_io(
            r,
            "path has interior NUL"@,
            IoKind::InvalidInput,
            None,
            "invalid input parameter"@,
        ),
{
    Error::Io {
        context: "path has interior NUL",
        source: IoFailure {
            kind: IoKind::InvalidInput,
            raw_os_error: None,
            message: "invalid input parameter".to_owned(),
        },
    }
}

/// The error for a failed call in this context.
pub fn call_error(context: &'static str, failure: CallFailure) -> (r: Error)
    ensures
        is_call_error(r, context@, failure),
{
    match failure {
        CallFailure::InteriorNul => interior_nul(),
        CallFailure::Failed(source) => Error::Io { context, source },
    }
}

/// What is to be done next on btrfs.
#[derive(Debug)]
pub enum LinuxApply {
    /// Read the file.
    Read,
    /// See whether the file may be written: the rename would replace even a file
    /// that may not.
    CheckAccess { data: Vec<u8> },
    /// Take the path apart.
    Locate { data: Vec<u8> },
    /// Create the sibling, empty.
    Create { temp: String, data: Vec<u8> },
    /// Ask for a codec on the empty sibling, so that the bytes are compressed as
    /// they are written. The number is that of the codec, most preferred first.
    Codec { codec: usize, temp: String, data: Vec<u8> },
    /// Read the sibling's flags.
    ReadFlags { temp: String, data: Vec<u8> },
    /// Set the sibling's flags.
    SetFlags { flags: i64, temp: String, data: Vec<u8> },
    /// Write the data to the sibling.
    Write { temp: String, data: Vec<u8> },
    /// Flush the sibling to disk.
    Sync { temp: String },
    /// Rename the sibling over the file.
    Rename { temp: String },
    /// Remove the sibling, if it is there.
    Remove { temp: String, error: Error },
    /// Nothing more.
    Done(Result<(), Error>),
}

/// What came of a step on btrfs.
#[derive(Debug)]
pub enum LinuxReport {
    Bytes(Result<Vec<u8>, IoFailure>),
    /// Whether the file may be written.
    Access(Result<(), CallFailure>),
    /// Whether the path has a directory, its file name, and the process's number.
    Path { has_parent: bool, name: Option<String>, pid: u32 },
    Called(Result<(), IoFailure>),
    Flags(Result<i64, IoFailure>),
}

/// The codecs, most preferred first: the first decodes fast at a good ratio, the
/// second decodes fastest, the third is the oldest. `None` is past the last.
pub fn codec_name(codec: usize) -> (r: Option<&'static str>)
    ensures
        codec == 0 ==> (r matches Some(s) && s@ == "zstd"@),
        codec == 1 ==> (r matches Some(s) && s@ == "lzo"@),
        codec == 2 ==> (r matches Some(s) && s@ == "zlib"@),
        codec > 2 ==> r is None,
{
    match codec {
        0 => Some("zstd"),
        1 => Some("lzo"),
        2 => Some("zlib"),
        _ => None,
    }
}

/// The file name of the sibling. A path without a file name stands for `addon`.
pub open spec fn sibling(name: Option<String>, pid: u32) -> Seq<char> {
    match name {
        Some(n) => temp_name_text(n@, pid),
        None => temp_name_text("addon"@, pid),
    }
}

/// The step that follows a report on btrfs. A report on another step changes
/// nothing.
pub open spec fn linux_follows(before: LinuxApply, report: LinuxReport, after: LinuxApply) -> bool {
    match (before, report) {
        (LinuxApply::Read, LinuxReport::Bytes(Ok(data))) => after == (LinuxApply::CheckAccess {
            data,
        }),
        (LinuxApply::Read, LinuxReport::Bytes(Err(source))) => after == LinuxApply::Done(
            Err::<(), Error>(Error::Io { context: "read", source }),
        ),
        (LinuxApply::CheckAccess { data }, LinuxReport::Access(Ok(_))) => after == (
        LinuxApply::Locate { data }),
        (LinuxApply::CheckAccess { data }, LinuxReport::Access(
            Err(failure),
        )) => after matches LinuxApply::Done(Err(e)) && is_call_error(e, "access"@, failure),
        (LinuxApply::Locate { data }, LinuxReport::Path { has_parent, name, pid }) => if has_parent {
            after matches LinuxApply::Create { temp, data: d } && temp@ == sibling(name, pid) && d
                == data
        } else {
            after matches LinuxApply::Done(Err(e)) && is_io(
                e,
                "no parent dir"@,
                IoKind::InvalidInput,
                None,
                "invalid input parameter"@,
            )
        },
        (LinuxApply::Create { temp, data }, LinuxReport::Called(Ok(_))) => after == (
        LinuxApply::Codec { codec: 0, temp, data }),
        (LinuxApply::Create { temp, data }, LinuxReport::Called(Err(source))) => after == (
        LinuxApply::Remove { temp, error: Error::Io { context: "create temp", source } }),
        (LinuxApply::Codec { codec, temp, data }, LinuxReport::Called(Ok(_))) => after == (
        LinuxApply::Write { temp, data }),
        (LinuxApply::Codec { codec, temp, data }, LinuxReport::Called(Err(_))) => if codec < 2 {
            after == (LinuxApply::Codec { codec: (codec + 1) as usize, temp, data })
        } else {
            after == (LinuxApply::ReadFlags { temp, data })
        },
        (LinuxApply::ReadFlags { temp, data }, LinuxReport::Flags(Ok(flags))) => after == (
        LinuxApply::SetFlags { flags: flags | FS_COMPR_FL, temp, data }),
        (LinuxApply::ReadFlags { temp, data }, LinuxReport::Flags(Err(source))) => after == (
        LinuxApply::Remove { temp, error: Error::Io { context: "FS_IOC_GETFLAGS", source } }),
        (LinuxApply::SetFlags { flags, temp, data }, LinuxReport::Called(Ok(_))) => after == (
        LinuxApply::Write { temp, data }),
        (LinuxApply::SetFlags { flags, temp, data }, LinuxReport::Called(Err(source))) => after == (
        LinuxApply::Remove { temp, error: Error::Io { context: "FS_IOC_SETFLAGS", source } }),
        (LinuxApply::Write { temp, data }, LinuxReport::Called(Ok(_))) => after == (
        LinuxApply::Sync { temp }),
        (LinuxApply::Write { temp, data }, LinuxReport::Called(Err(source))) => after == (
        LinuxApply::Remove { temp, error: Error::Io { context: "write temp", source } }),
        (LinuxApply::Sync { temp }, LinuxReport::Called(Ok(_))) => after == (LinuxApply::Rename {
            temp,
        }),
        (LinuxApply::Sync { temp }, LinuxReport::Called(Err(source))) => after == (
        LinuxApply::Remove { temp, error: Error::Io { context: "fsync temp", source } }),
        (LinuxApply::Rename { temp }, LinuxReport::Called(Ok(_))) => after == LinuxApply::Done(
            Ok::<(), Error>(()),
        ),
        (LinuxApply::Rename { temp }, LinuxReport::Called(Err(source))) => after == (
        LinuxApply::Remove { temp, error: Error::Io { context: "rename", source } }),
        (LinuxApply::Remove { temp, error }, LinuxReport::Called(_)) => after == LinuxApply::Done(
            Err::<(), Error>(error),
        ),
        _ => after == before,
    }
}

/// Starts to apply compression on btrfs.
pub fn apply_inplace_linux() -> (r: LinuxApply)
    ensures
        r == LinuxApply::Read,
{
    LinuxApply::Read
}

impl LinuxApply {
    /// The step that follows a report on this one.
    pub fn next(self, report: LinuxReport) -> (r: LinuxApply)
        ensures
            linux_follows(self, report, r),
    {
        match (self, report) {
            (LinuxApply::Read, LinuxReport::Bytes(Ok(data))) => LinuxApply::CheckAccess { data },
            (LinuxApply::Read, LinuxReport::Bytes(Err(source))) => LinuxApply::Done(
                Err(Error::Io { context: "read", source }),
            ),
            (LinuxApply::CheckAccess { data }, LinuxReport::Access(Ok(_))) => LinuxApply::Locate {
                data,
            },
            (LinuxApply::CheckAccess { data: _ }, LinuxReport::Access(Err(failure))) =>
                LinuxApply::Done(Err(call_error("access", failure))),
            (LinuxApply::Locate { data }, LinuxReport::Path { has_parent, name, pid }) => {
                if !has_parent {
                    return LinuxApply::Done(
                        Err(
                            Error::Io {
                                context: "no parent dir",
                                source: IoFailure {
                                    kind: IoKind::InvalidInput,
                                    raw_os_error: None,
                                    message: "invalid input parameter".to_owned(),
                                },
                            },
                        ),
                    );
                }
                let temp: String = match name {
                    Some(n) => temp_name(n.as_str(), pid),
                    None => temp_name("addon", pid),
                };
                LinuxApply::Create { temp, data }
            },
            (LinuxApply::Create { temp, data }, LinuxReport::Called(Ok(_))) => LinuxApply::Codec {
                codec: 0,
                temp,
                data,
            },
            (LinuxApply::Create { temp, data: _ }, LinuxReport::Called(Err(source))) =>
                LinuxApply::Remove { temp, error: Error::Io { context: "create temp", source } },
            (LinuxApply::Codec { codec: _, temp, data }, LinuxReport::Called(Ok(_))) =>
                LinuxApply::Write { temp, data },
            (LinuxApply::Codec { codec, temp, data }, LinuxReport::Called(Err(_))) => if codec < 2 {
                LinuxApply::Codec { codec: codec + 1, temp, data }
            } else {
                LinuxApply::ReadFlags { temp, data }
            },
            (LinuxApply::ReadFlags { temp, data }, LinuxReport::Flags(Ok(flags))) =>
                LinuxApply::SetFlags { flags: flags | FS_COMPR_FL, temp, data },
            (LinuxApply::ReadFlags { temp, data: _ }, LinuxReport::Flags(Err(source))) =>
                LinuxApply::Remove { temp, error: Error::Io { context: "FS_IOC_GETFLAGS", source } },
            (LinuxApply::SetFlags { flags: _, temp, data }, LinuxReport::Called(Ok(_))) =>
                LinuxApply::Write { temp, data },
            (LinuxApply::SetFlags { flags: _, temp, data: _ }, LinuxReport::Called(Err(source))) =>
                LinuxApply::Remove { temp, error: Error::Io { context: "FS_IOC_SETFLAGS", source } },
            (LinuxApply::Write { temp, data: _ }, LinuxReport::Called(Ok(_))) => LinuxApply::Sync {
                temp,
            },
            (LinuxApply::Write { temp, data: _ }, LinuxReport::Called(Err(source))) =>
                LinuxApply::Remove { temp, error: Error::Io { context: "write temp", source } },
            (LinuxApply::Sync { temp }, LinuxReport::Called(Ok(_))) => LinuxApply::Rename { temp },
            (LinuxApply::Sync { temp }, LinuxReport::Called(Err(source))) => LinuxApply::Remove {
                temp,
                error: Error::Io { context: "fsync temp", source },
            },
            (LinuxApply::Rename { temp: _ }, LinuxReport::Called(Ok(_))) => LinuxApply::Done(Ok(())),
            (LinuxApply::Rename { temp }, LinuxReport::Called(Err(source))) => LinuxApply::Remove {
                temp,
                error: Error::Io { context: "rename", source },
            },
            (LinuxApply::Remove { temp: _, error }, LinuxReport::Called(_)) => LinuxApply::Done(
                Err(error),
            ),
            (step, _) => step,
        }
    }
}

/// A sibling on btrfs exists, or may exist.
pub open spec fn has_sibling(step: LinuxApply) -> bool {
    !(step is Read || step is CheckAccess || step is Locate || step is Create || step is Done)
}

/// On btrfs the file is replaced once the sibling holds all the data and is flushed,
/// and not before; and a run that fails after it started to build a sibling removes
/// it before it reports the error.
pub proof fn law_btrfs_replaces_whole_or_cleans_up(
    before: LinuxApply,
    report: LinuxReport,
    after: LinuxApply,
)
    requires
        linux_follows(before, report, after),
    ensures
        after is Rename && before !is Rename ==> before is Sync && (report matches LinuxReport::Called(
            Ok(_),
        )),
        after is Sync && before !is Sync ==> before is Write && (report matches LinuxReport::Called(
            Ok(_),
        )),
        after matches LinuxApply::Done(Ok(_)) && before !is Done ==> before is Rename,
        after matches LinuxApply::Done(Err(_)) && has_sibling(before) ==> before is Remove,
        before is Remove && after !is Remove ==> (before matches LinuxApply::Remove { temp, error }
            && after == LinuxApply::Done(Err::<(), Error>(error))),
{
}

/// The data that a step on btrfs holds.
pub open spec fn linux_data(step: LinuxApply) -> Option<Vec<u8>> {
    match step {
        LinuxApply::CheckAccess { data } => Some(data),
        LinuxApply::Locate { data } => Some(data),
        LinuxApply::Create { temp, data } => Some(data),
        LinuxApply::Codec { codec, temp, data } => Some(data),
        LinuxApply::ReadFlags { temp, data } => Some(data),
        LinuxApply::SetFlags { flags, temp, data } => Some(data),
        LinuxApply::Write { temp, data } => Some(data),
        _ => None,
    }
}

/// The sibling that a step on btrfs works on.
pub open spec fn linux_temp(step: LinuxApply) -> Option<String> {
    match step {
        LinuxApply::Create { temp, data } => Some(temp),
        LinuxApply::Codec { codec, temp, data } => Some(temp),
        LinuxApply::ReadFlags { temp, data } => Some(temp),
        LinuxApply::SetFlags { flags, temp, data } => Some(temp),
        LinuxApply::Write { temp, data } => Some(temp),
        LinuxApply::Sync { temp } => Some(temp),
        LinuxApply::Rename { temp } => Some(temp),
        LinuxApply::Remove { temp, error } => Some(temp),
        _ => None,
    }
}

/// What is written to the sibling on btrfs is what was read from the file, and every
/// step works on the same sibling: compressing changes no content.
pub proof fn law_btrfs_keeps_content(before: LinuxApply, report: LinuxReport, after: LinuxApply)
    requires
        linux_follows(before, report, after),
    ensures
        linux_data(after) is Some ==> (linux_data(after) == linux_data(before) || (before is Read
            && report == LinuxReport::Bytes(Ok(linux_data(after)->0)))),
        linux_temp(before) is Some && linux_temp(after) is Some ==> linux_temp(after)
            == linux_temp(before),
{
}

/// What stands at a name on btrfs: the bytes that it reads as, and its flags.
pub struct LinuxFile {
    pub bytes: Seq<u8>,
    pub flags: i64,
}

/// A file on btrfs and its sibling, if that exists.
pub struct LinuxSlot {
    pub file: LinuxFile,
    pub temp: Option<LinuxFile>,
}

/// What a step on btrfs does to a file and its sibling. A step that fails to write leaves
/// some of the data in the sibling, and one that fails to remove it may leave it; any
/// other that fails leaves things as they are. The system flags a file that takes a
/// codec.
pub open spec fn linux_effect(
    step: LinuxApply,
    report: LinuxReport,
    before: LinuxSlot,
    after: LinuxSlot,
) -> bool {
    let ok = report matches LinuxReport::Called(Ok(_));
    &&& report !is Called ==> after == before
    &&& match step {
        LinuxApply::Create { temp, data } => if ok {
            after.file == before.file && (after.temp matches Some(t) && t.bytes == Seq::<
                u8,
            >::empty())
        } else {
            after == before
        },
        LinuxApply::Codec { codec, temp, data } => if ok && before.temp is Some {
            after.file == before.file && (after.temp matches Some(t) && t.bytes
                == before.temp->0.bytes && flagged(FileFlags::Linux(t.flags)))
        } else {
            after == before
        },
        LinuxApply::SetFlags { flags, temp, data } => after == if ok && before.temp is Some {
            LinuxSlot { temp: Some(LinuxFile { flags, ..before.temp->0 }), ..before }
        } else {
            before
        },
        LinuxApply::Write { temp, data } => if ok && before.temp is Some {
            after == (LinuxSlot {
                temp: Some(LinuxFile { bytes: data@, ..before.temp->0 }),
                ..before
            })
        } else {
            after.file == before.file
        },
        LinuxApply::Rename { temp } => after == if ok && before.temp is Some {
            LinuxSlot { file: before.temp->0, temp: None }
        } else {
            before
        },
        LinuxApply::Remove { temp, error } => after.file == before.file && (ok || before.temp is None
            ==> after.temp is None),
        _ => after == before,
    }
}

/// A file on btrfs and its sibling are as they can be before a step: until the rename the
/// file is the one that was there, and in front of it the sibling is finished, with the
/// same bytes and the flags of a compressed file.
pub open spec fn linux_fits(step: LinuxApply, old: LinuxFile, slot: LinuxSlot) -> bool {
    &&& linux_data(step) matches Some(data) ==> data@ == old.bytes
    &&& step is Codec || step is ReadFlags || step is SetFlags ==> slot.temp is Some
    &&& step matches LinuxApply::SetFlags { flags, temp, data } ==> flagged(
        FileFlags::Linux(flags),
    )
    &&& step is Write || step is Sync || step is Rename ==> (slot.temp matches Some(t) && flagged(
        FileFlags::Linux(t.flags),
    ))
    &&& step is Sync || step is Rename ==> slot.temp->0.bytes == old.bytes
    &&& if step matches LinuxApply::Done(Ok(_)) {
        slot.file.bytes == old.bytes && flagged(FileFlags::Linux(slot.file.flags))
    } else {
        slot.file == old
    }
}

/// At every step on btrfs a file is the one that was there, or the finished sibling with
/// the same bytes and the flags of a compressed file. It is the sibling exactly where the
/// run succeeds.
pub proof fn law_btrfs_file_is_old_or_finished(
    before: LinuxApply,
    report: LinuxReport,
    after: LinuxApply,
    old: LinuxFile,
    slot: LinuxSlot,
    next: LinuxSlot,
)
    requires
        linux_follows(before, report, after),
        linux_fits(before, old, slot),
        linux_effect(before, report, slot, next),
        before is Read ==> (report matches LinuxReport::Bytes(Ok(data)) ==> data@ == old.bytes),
    ensures
        linux_fits(after, old, next),
        next.file.bytes == old.bytes,
        next.file == old || flagged(FileFlags::Linux(next.file.flags)),
{
    if before is ReadFlags {
        law_set_flags_are_seen(before, report, after);
    }
}

/// There is no sibling on btrfs before one is created, nor once a run is over.
pub open spec fn linux_clean(step: LinuxApply, slot: LinuxSlot) -> bool {
    !has_sibling(step) ==> slot.temp is None
}

/// A step of a run on btrfs: what is done to the file and its sibling, what is reported,
/// and what follows. What is read of the file is what it holds, and a sibling that is to
/// be removed goes away.
pub open spec fn linux_step(
    before: LinuxApply,
    report: LinuxReport,
    after: LinuxApply,
    slot: LinuxSlot,
    next: LinuxSlot,
) -> bool {
    &&& linux_follows(before, report, after)
    &&& linux_effect(before, report, slot, next)
    &&& before is Read ==> (report matches LinuxReport::Bytes(Ok(data)) ==> data@
        == slot.file.bytes)
    &&& before is Remove && slot.temp is Some ==> !(report matches LinuxReport::Called(Err(_)))
}

/// A run on btrfs from its start on: the steps, what was reported of each, and what the
/// file and its sibling were before each.
pub open spec fn linux_run(
    steps: Seq<LinuxApply>,
    reports: Seq<LinuxReport>,
    slots: Seq<LinuxSlot>,
) -> bool {
    &&& steps.len() == slots.len() == reports.len() + 1
    &&& steps[0] is Read
    &&& forall|i: int|
        0 <= i < reports.len() ==> linux_step(
            steps[i],
            #[trigger] reports[i],
            steps[i + 1],
            slots[i],
            slots[i + 1],
        )
}

/// A run on btrfs is all or nothing, however far it has come: the file reads as it did
/// all the while. Where the run is over no sibling is left; the file has the flags of a
/// compressed file if it succeeded, and is as it was if it failed.
pub proof fn law_btrfs_run_is_all_or_nothing(
    steps: Seq<LinuxApply>,
    reports: Seq<LinuxReport>,
    slots: Seq<LinuxSlot>,
    i: int,
)
    requires
        linux_run(steps, reports, slots),
        slots[0].temp is None,
        0 <= i < steps.len(),
    ensures
        linux_fits(steps[i], slots[0].file, slots[i]),
        linux_clean(steps[i], slots[i]),
        slots[i].file.bytes == slots[0].file.bytes,
        steps[i] is Done ==> slots[i].temp is None,
        steps[i] matches LinuxApply::Done(Ok(_)) ==> flagged(FileFlags::Linux(slots[i].file.flags)),
        steps[i] matches LinuxApply::Done(Err(_)) ==> slots[i].file == slots[0].file,
    decreases i,
{
    if i > 0 {
        law_btrfs_run_is_all_or_nothing(steps, reports, slots, i - 1);
        let report = reports[i - 1];
        assert(linux_step(steps[i - 1], report, steps[i - 1 + 1], slots[i - 1], slots[i - 1 + 1]));
        law_btrfs_file_is_old_or_finished(
            steps[i - 1],
            report,
            steps[i],
            slots[0].file,
            slots[i - 1],
            slots[i],
        );
    }
}

/// Compressing is idempotent on btrfs: once a run has compressed a file by these steps, the
/// next run, which sees the flags that they left, finds it compressed, reports what it
/// takes on disk, and applies nothing. The file reads as it did all the while.
pub proof fn law_btrfs_second_run_changes_nothing(
    path: String,
    first: World,
    second: World,
    steps: Seq<LinuxApply>,
    reports: Seq<LinuxReport>,
    slots: Seq<LinuxSlot>,
    n: nat,
)
    requires
        compressed_outcome(path, first) matches Ok(Outcome::Compressed { before, after }),
        first.signal matches Ok(Signal::Linux { mapped, extents }),
        linux_run(steps, reports, slots),
        slots[0].temp is None,
        steps.last() == LinuxApply::Done(first.applied),
        second.exists,
        second.volume == first.volume,
        second.flags == Ok::<FileFlags, Error>(FileFlags::Linux(slots.last().file.flags)),
        measured(second.size_before) is Ok,
    ensures
        compressed_outcome(path, second) == Ok::<Outcome, Error>(
            Outcome::AlreadyCompressed { before: measured(second.size_before)->Ok_0 },
        ),
        after_steps(second, Step::CheckExists { path }, n) !is Apply,
        slots.last().file.bytes == slots[0].file.bytes,
{
    law_btrfs_run_is_all_or_nothing(steps, reports, slots, steps.len() - 1);
    law_second_run_changes_nothing(
        path,
        first,
        second,
        FileFlags::Linux(slots.last().file.flags),
        n,
    );
}

/// On btrfs a file that may not be written is left alone: no sibling is built for it.
pub proof fn law_btrfs_leaves_unwritable_file(
    before: LinuxApply,
    failure: CallFailure,
    after: LinuxApply,
)
    requires
        before is CheckAccess,
        linux_follows(before, LinuxReport::Access(Err(failure)), after),
    ensures
        after matches LinuxApply::Done(Err(e)) && is_call_error(e, "access"@, failure),
{
}

/// A sibling on btrfs is created only once the file is known to be writable.
pub proof fn law_btrfs_asks_before_it_writes(
    before: LinuxApply,
    report: LinuxReport,
    after: LinuxApply,
)
    requires
        linux_follows(before, report, after),
    ensures
        after is Create && before !is Create ==> before is Locate,
        after is Locate && before !is Locate ==> before is CheckAccess && (
        report matches LinuxReport::Access(Ok(_))),
{
}

/// The bare flag is asked for only once all three codecs were refused, in the order
/// of preference.
pub proof fn law_codecs_in_order(before: LinuxApply, report: LinuxReport, after: LinuxApply)
    requires
        linux_follows(before, report, after),
    ensures
        after is ReadFlags && before !is ReadFlags ==> (before matches LinuxApply::Codec {
            codec,
            temp,
            data,
        } && codec >= 2),
        (after matches LinuxApply::Codec { codec, temp, data } && before !is Codec) ==> after->codec
            == 0,
        (before matches LinuxApply::Codec { codec, temp, data } && after matches LinuxApply::Codec {
            codec: next,
            temp: t,
            data: d,
        } && next != codec) ==> after->codec == before->codec + 1,
{
}

/// The flags that are set on btrfs, where no codec was taken, are flags of a compressed
/// file: a second run sees that.
pub proof fn law_set_flags_are_seen(before: LinuxApply, report: LinuxReport, after: LinuxApply)
    requires
        linux_follows(before, report, after),
        before is ReadFlags,
    ensures
        after matches LinuxApply::SetFlags { flags, temp, data } ==> flagged(
            FileFlags::Linux(flags),
        ),
{
    if let LinuxReport::Flags(Ok(flags)) = report {
        assert((flags | 4i64) & 4i64 != 0) by (bit_vector);
    }
}

/// What is to be done next on APFS and HFS+.
#[derive(Debug)]
pub enum MacApply {
    /// Read the file.
    Read,
    /// See whether the file may be written: the rename would replace even a file
    /// that may not.
    CheckAccess { raw: Vec<u8> },
    /// Encode the raw bytes between these two offsets, the block behind those that are
    /// encoded.
    Encode { raw: Vec<u8>, blocks: Vec<Vec<u8>>, from: usize, to: usize },
    /// Take the path apart.
    Locate { header: Vec<u8>, fork: Vec<u8> },
    /// Read the file's permissions.
    ReadMode { temp: String, header: Vec<u8>, fork: Vec<u8> },
    /// Create the sibling, which must not exist, with an empty data fork.
    Create { has_mode: bool, temp: String, header: Vec<u8>, fork: Vec<u8> },
    /// Attach the header to the sibling.
    SetHeader { has_mode: bool, temp: String, header: Vec<u8>, fork: Vec<u8> },
    /// Attach the resource fork to the sibling.
    SetFork { has_mode: bool, temp: String, fork: Vec<u8> },
    /// Flag the sibling as compressed.
    SetFlag { has_mode: bool, temp: String },
    /// Give the sibling the file's permissions.
    SetMode { temp: String },
    /// Rename the sibling over the file.
    Rename { temp: String },
    /// Remove the sibling, if it is there.
    Remove { temp: String, error: Error },
    /// Nothing more.
    Done(Result<(), Error>),
}

/// What came of a step on APFS and HFS+.
#[derive(Debug)]
pub enum MacReport {
    Bytes(Result<Vec<u8>, IoFailure>),
    Called(Result<(), CallFailure>),
    /// The encoded block, or `None` where it could not be encoded.
    Block(Option<Vec<u8>>),
    /// Whether the path has a directory, its file name, the process's number, and
    /// the system's last error.
    Path { has_parent: bool, name: Option<String>, pid: u32, last: IoFailure },
    /// Whether the permissions could be read.
    Mode(bool),
}

/// The error for a file that could not be encoded.
pub open spec fn is_encode_error(after: MacApply) -> bool {
    after matches MacApply::Done(Err(e)) && is_io(
        e,
        "lzvn encode"@,
        IoKind::InvalidData,
        None,
        "invalid data"@,
    )
}

/// What follows once these blocks of a raw file were encoded: the next block; or with all
/// of them, the header and the resource fork, or an error where the offsets do not fit.
pub open spec fn encoding_follows(raw: Vec<u8>, blocks: Seq<Vec<u8>>, after: MacApply) -> bool {
    match block_at(raw@.len() as int, blocks.len() as int) {
        Some((from, to)) => after matches MacApply::Encode {
            raw: r,
            blocks: b,
            from: f,
            to: t,
        } && r == raw && b@ == blocks && f == from && t == to,
        None => if fork_size(views(blocks)) <= u32::MAX {
            after matches MacApply::Locate { header, fork } && header@ == header_bytes(
                raw@.len() as int,
            ) && fork@ == fork_bytes(views(blocks))
        } else {
            is_encode_error(after)
        },
    }
}

/// The sibling is to be removed, and the error for this failure reported.
pub open spec fn withdrawn(
    after: MacApply,
    temp: String,
    context: Seq<char>,
    failure: CallFailure,
) -> bool {
    after matches MacApply::Remove { temp: t, error } && t == temp && is_call_error(
        error,
        context,
        failure,
    )
}

/// The step that follows a report on APFS and HFS+. A report on another step changes
/// nothing.
pub open spec fn mac_follows(before: MacApply, report: MacReport, after: MacApply) -> bool {
    match (before, report) {
        (MacApply::Read, MacReport::Bytes(Ok(raw))) => if raw@.len() > MAX_RAW {
            after matches MacApply::Done(Err(e)) && is_io(
                e,
                "file too large for decmpfs"@,
                IoKind::Other,
                Some(EFBIG),
                "File too large (os error 27)"@,
            )
        } else {
            after == (MacApply::CheckAccess { raw })
        },
        (MacApply::Read, MacReport::Bytes(Err(source))) => after == MacApply::Done(
            Err::<(), Error>(Error::Io { context: "read", source }),
        ),
        (MacApply::CheckAccess { raw }, MacReport::Called(Ok(_))) => encoding_follows(
            raw,
            seq![],
            after,
        ),
        (MacApply::CheckAccess { raw }, MacReport::Called(Err(failure))) => after matches MacApply::Done(
            Err(e),
        ) && is_call_error(e, "access"@, failure),
        (MacApply::Encode { raw, blocks, from, to }, MacReport::Block(
            Some(block),
        )) => encoding_follows(raw, blocks@.push(block), after),
        (MacApply::Encode { raw, blocks, from, to }, MacReport::Block(None)) => is_encode_error(
            after,
        ),
        (MacApply::Locate { header, fork }, MacReport::Path { has_parent, name, pid, last }) =>
            if !has_parent {
                after == MacApply::Done(
                    Err::<(), Error>(Error::Io { context: "parent", source: last }),
                )
            } else {
                match name {
                    Some(n) => after matches MacApply::ReadMode { temp, header: h, fork: f }
                        && temp@ == temp_name_text(n@, pid) && h == header && f == fork,
                    None => after == MacApply::Done(
                        Err::<(), Error>(Error::Io { context: "file_name", source: last }),
                    ),
                }
            },
        (MacApply::ReadMode { temp, header, fork }, MacReport::Mode(has_mode)) => after == (
        MacApply::Create { has_mode, temp, header, fork }),
        (MacApply::Create { has_mode, temp, header, fork }, MacReport::Called(Ok(_))) => after == (
        MacApply::SetHeader { has_mode, temp, header, fork }),
        (MacApply::Create { has_mode, temp, header, fork }, MacReport::Called(Err(failure))) =>
            withdrawn(after, temp, "create temp"@, failure),
        (MacApply::SetHeader { has_mode, temp, header, fork }, MacReport::Called(Ok(_))) => after
            == (MacApply::SetFork { has_mode, temp, fork }),
        (MacApply::SetHeader { has_mode, temp, header, fork }, MacReport::Called(Err(failure))) =>
            withdrawn(after, temp, "setxattr"@, failure),
        (MacApply::SetFork { has_mode, temp, fork }, MacReport::Called(Ok(_))) => after == (
        MacApply::SetFlag { has_mode, temp }),
        (MacApply::SetFork { has_mode, temp, fork }, MacReport::Called(Err(failure))) => withdrawn(
            after,
            temp,
            "setxattr"@,
            failure,
        ),
        (MacApply::SetFlag { has_mode, temp }, MacReport::Called(Ok(_))) => if has_mode {
            after == (MacApply::SetMode { temp })
        } else {
            after == (MacApply::Rename { temp })
        },
        (MacApply::SetFlag { has_mode, temp }, MacReport::Called(Err(failure))) => withdrawn(
            after,
            temp,
            "fchflags"@,
            failure,
        ),
        (MacApply::SetMode { temp }, MacReport::Called(_)) => after == (MacApply::Rename { temp }),
        (MacApply::Rename { temp }, MacReport::Called(Ok(_))) => after == MacApply::Done(
            Ok::<(), Error>(()),
        ),
        (MacApply::Rename { temp }, MacReport::Called(Err(failure))) => withdrawn(
            after,
            temp,
            "rename"@,
            failure,
        ),
        (MacApply::Remove { temp, error }, MacReport::Called(_)) => after == MacApply::Done(
            Err::<(), Error>(error),
        ),
        _ => after == before,
    }
}

/// Starts to apply compression on APFS and HFS+.
pub fn apply_inplace_macos() -> (r: MacApply)
    ensures
        r == MacApply::Read,
{
    MacApply::Read
}

/// A file's length.
fn length(raw: &Vec<u8>) -> (r: u64)
    ensures
        r == raw@.len(),
{
    raw.len() as u64
}

/// The error for a file that could not be encoded.
fn encode_error() -> (r: MacApply)
    ensures
        is_encode_error(r),
{
    MacApply::Done(
        Err(
            Error::Io {
                context: "lzvn encode",
                source: IoFailure {
                    kind: IoKind::InvalidData,
                    raw_os_error: None,
                    message: "invalid data".to_owned(),
                },
            },
        ),
    )
}

/// Goes on once these blocks were encoded.
fn after_encoding(raw: Vec<u8>, blocks: Vec<Vec<u8>>) -> (r: MacApply)
    ensures
        encoding_follows(raw, blocks@, r),
{
    match block_range(raw.len(), blocks.len()) {
        Some((from, to)) => MacApply::Encode { raw, blocks, from, to },
        None => match build_resource_fork(&blocks) {
            Some(fork) => MacApply::Locate { header: compression_header(length(&raw)), fork },
            None => encode_error(),
        },
    }
}

impl MacApply {
    /// The step that follows a report on this one.
    pub fn next(self, report: MacReport) -> (r: MacApply)
        ensures
            mac_follows(self, report, r),
    {
        match (self, report) {
            (MacApply::Read, MacReport::Bytes(Ok(raw))) => match within_decmpfs_limit(
                length(&raw),
            ) {
                Ok(()) => MacApply::CheckAccess { raw },
                Err(e) => MacApply::Done(Err(e)),
            },
            (MacApply::Read, MacReport::Bytes(Err(source))) => MacApply::Done(
                Err(Error::Io { context: "read", source }),
            ),
            (MacApply::CheckAccess { raw }, MacReport::Called(Ok(_))) => {
                let blocks: Vec<Vec<u8>> = Vec::new();
                assert(blocks@ =~= seq![]);
                after_encoding(raw, blocks)
            },
            (MacApply::CheckAccess { raw: _ }, MacReport::Called(Err(failure))) => MacApply::Done(
                Err(call_error("access", failure)),
            ),
            (MacApply::Encode { raw, blocks, from: _, to: _ }, MacReport::Block(Some(block))) => {
                let mut blocks = blocks;
                blocks.push(block);
                after_encoding(raw, blocks)
            },
            (MacApply::Encode { raw: _, blocks: _, from: _, to: _ }, MacReport::Block(None)) =>
                encode_error(),
            (
                MacApply::Locate { header, fork },
                MacReport::Path { has_parent, name, pid, last },
            ) => {
                if !has_parent {
                    return MacApply::Done(Err(Error::Io { context: "parent", source: last }));
                }
                match name {
                    Some(n) => MacApply::ReadMode { temp: temp_name(n.as_str(), pid), header, fork },
                    None => MacApply::Done(Err(Error::Io { context: "file_name", source: last })),
                }
            },
            (MacApply::ReadMode { temp, header, fork }, MacReport::Mode(has_mode)) =>
                MacApply::Create { has_mode, temp, header, fork },
            (MacApply::Create { has_mode, temp, header, fork }, MacReport::Called(Ok(_))) =>
                MacApply::SetHeader { has_mode, temp, header, fork },
            (
                MacApply::Create { has_mode: _, temp, header: _, fork: _ },
                MacReport::Called(Err(failure)),
            ) => MacApply::Remove { temp, error: call_error("create temp", failure) },
            (MacApply::SetHeader { has_mode, temp, header: _, fork }, MacReport::Called(Ok(_))) =>
                MacApply::SetFork { has_mode, temp, fork },
            (
                MacApply::SetHeader { has_mode: _, temp, header: _, fork: _ },
                MacReport::Called(Err(failure)),
            ) => MacApply::Remove { temp, error: call_error("setxattr", failure) },
            (MacApply::SetFork { has_mode, temp, fork: _ }, MacReport::Called(Ok(_))) =>
                MacApply::SetFlag { has_mode, temp },
            (
                MacApply::SetFork { has_mode: _, temp, fork: _ },
                MacReport::Called(Err(failure)),
            ) => MacApply::Remove { temp, error: call_error("setxattr", failure) },
            (MacApply::SetFlag { has_mode, temp }, MacReport::Called(Ok(_))) => if has_mode {
                MacApply::SetMode { temp }
            } else {
                MacApply::Rename { temp }
            },
            (MacApply::SetFlag { has_mode: _, temp }, MacReport::Called(Err(failure))) =>
                MacApply::Remove { temp, error: call_error("fchflags", failure) },
            (MacApply::SetMode { temp }, MacReport::Called(_)) => MacApply::Rename { temp },
            (MacApply::Rename { temp: _ }, MacReport::Called(Ok(_))) => MacApply::Done(Ok(())),
            (MacApply::Rename { temp }, MacReport::Called(Err(failure))) => MacApply::Remove {
                temp,
                error: call_error("rename", failure),
            },
            (MacApply::Remove { temp: _, error }, MacReport::Called(_)) => MacApply::Done(
                Err(error),
            ),
            (step, _) => step,
        }
    }
}

/// On APFS and HFS+ the file is replaced once the sibling has its header, its
/// resource fork and its flag, and not before; and a run that fails after it
/// started to build a sibling removes it before it reports the error.
pub proof fn law_apfs_replaces_whole_or_cleans_up(
    before: MacApply,
    report: MacReport,
    after: MacApply,
)
    requires
        mac_follows(before, report, after),
    ensures
        after is Rename && before !is Rename ==> before is SetMode || before is SetFlag,
        after is SetMode && before !is SetMode ==> before is SetFlag,
        before is SetFlag && (after is SetMode || after is Rename) ==> (
        report matches MacReport::Called(Ok(_))),
        after is SetFlag && before !is SetFlag ==> before is SetFork && (
        report matches MacReport::Called(Ok(_))),
        after is SetFork && before !is SetFork ==> before is SetHeader && (
        report matches MacReport::Called(Ok(_))),
        after matches MacApply::Done(Ok(_)) && before !is Done ==> before is Rename,
        after matches MacApply::Done(Err(_)) && (before is Create || before is SetHeader
            || before is SetFork || before is SetFlag || before is SetMode || before is Rename)
            ==> false,
        before is Remove && after !is Remove ==> (before matches MacApply::Remove { temp, error }
            && after == MacApply::Done(Err::<(), Error>(error))),
{
}

/// The resource fork that a step on APFS and HFS+ holds.
pub open spec fn mac_fork(step: MacApply) -> Option<Seq<u8>> {
    match step {
        MacApply::Locate { header, fork } => Some(fork@),
        MacApply::ReadMode { temp, header, fork } => Some(fork@),
        MacApply::Create { has_mode, temp, header, fork } => Some(fork@),
        MacApply::SetHeader { has_mode, temp, header, fork } => Some(fork@),
        MacApply::SetFork { has_mode, temp, fork } => Some(fork@),
        _ => None,
    }
}

/// The header that a step on APFS and HFS+ holds.
pub open spec fn mac_header(step: MacApply) -> Option<Seq<u8>> {
    match step {
        MacApply::Locate { header, fork } => Some(header@),
        MacApply::ReadMode { temp, header, fork } => Some(header@),
        MacApply::Create { has_mode, temp, header, fork } => Some(header@),
        MacApply::SetHeader { has_mode, temp, header, fork } => Some(header@),
        _ => None,
    }
}

/// The sibling that a step on APFS and HFS+ works on.
pub open spec fn mac_temp(step: MacApply) -> Option<String> {
    match step {
        MacApply::ReadMode { temp, header, fork } => Some(temp),
        MacApply::Create { has_mode, temp, header, fork } => Some(temp),
        MacApply::SetHeader { has_mode, temp, header, fork } => Some(temp),
        MacApply::SetFork { has_mode, temp, fork } => Some(temp),
        MacApply::SetFlag { has_mode, temp } => Some(temp),
        MacApply::SetMode { temp } => Some(temp),
        MacApply::Rename { temp } => Some(temp),
        MacApply::Remove { temp, error } => Some(temp),
        _ => None,
    }
}

/// What is attached to the sibling on APFS and HFS+ is what was made of the file, and
/// every step works on the same sibling.
pub proof fn law_apfs_keeps_content(before: MacApply, report: MacReport, after: MacApply)
    requires
        mac_follows(before, report, after),
    ensures
        mac_fork(before) is Some && mac_fork(after) is Some ==> mac_fork(after) == mac_fork(before),
        mac_header(before) is Some && mac_header(after) is Some ==> mac_header(after)
            == mac_header(before),
        mac_temp(before) is Some && mac_temp(after) is Some ==> mac_temp(after) == mac_temp(
            before,
        ),
{
}

/// The raw file that a step on APFS and HFS+ holds.
pub open spec fn mac_raw(step: MacApply) -> Option<Vec<u8>> {
    match step {
        MacApply::CheckAccess { raw } => Some(raw),
        MacApply::Encode { raw, blocks, from, to } => Some(raw),
        _ => None,
    }
}

/// The block that is to be encoded is the one behind those that are.
pub open spec fn encoding_fits(step: MacApply) -> bool {
    step matches MacApply::Encode { raw, blocks, from, to } ==> block_at(
        raw@.len() as int,
        blocks@.len() as int,
    ) == Some((from as int, to as int))
}

/// Every block of the file that was read is encoded, in order, and no other: the blocks
/// asked for are those of the file, one behind the other, and the resource fork is made
/// of as many encoded blocks as the file has, with the file's length in the header.
pub proof fn law_fork_covers_file(before: MacApply, report: MacReport, after: MacApply)
    requires
        mac_follows(before, report, after),
        encoding_fits(before),
    ensures
        encoding_fits(after),
        mac_raw(after) is Some ==> (mac_raw(after) == mac_raw(before) || (before is Read && report
            == MacReport::Bytes(Ok(mac_raw(after)->0)))),
        mac_fork(before) is None && mac_fork(after) is Some ==> (mac_raw(before) matches Some(raw)
            && mac_header(after) == Some(header_bytes(raw@.len() as int)) && exists|
            blocks: Seq<Seq<u8>>,
        |
            blocks.len() == block_count(raw@.len() as int) && mac_fork(after) == Some(
                #[trigger] fork_bytes(blocks),
            )),
{
    if mac_fork(before) is None && mac_fork(after) is Some {
        match (before, report) {
            (MacApply::CheckAccess { raw }, MacReport::Called(Ok(_))) => {
                let blocks = Seq::<Vec<u8>>::empty();
                assert(blocks =~= seq![]);
                assert(mac_fork(after) == Some(fork_bytes(views(blocks))));
            },
            (MacApply::Encode { raw, blocks, from, to }, MacReport::Block(Some(block))) => {
                assert(mac_fork(after) == Some(fork_bytes(views(blocks@.push(block)))));
            },
            _ => {},
        }
    }
}

/// What is attached to a file on APFS and HFS+: a header, a resource fork, and the flag
/// of a compressed file.
pub struct MacFile {
    pub header: Option<Seq<u8>>,
    pub fork: Option<Seq<u8>>,
    pub flag: bool,
}

/// A file on APFS and HFS+, and its sibling, if that exists. `None` for the file is the
/// one that was there.
pub struct MacSlot {
    pub file: Option<MacFile>,
    pub temp: Option<MacFile>,
}

/// What a step on APFS and HFS+ does to a file and its sibling. A step that fails to
/// attach something may leave a part of it on the sibling, and one that fails to remove
/// it may leave it; any other that fails leaves things as they are.
pub open spec fn mac_effect(
    step: MacApply,
    report: MacReport,
    before: MacSlot,
    after: MacSlot,
) -> bool {
    let ok = report matches MacReport::Called(Ok(_));
    &&& report !is Called ==> after == before
    &&& match step {
        MacApply::Create { has_mode, temp, header, fork } => after == if ok {
            MacSlot { temp: Some(MacFile { header: None, fork: None, flag: false }), ..before }
        } else {
            before
        },
        MacApply::SetHeader { has_mode, temp, header, fork } => after.file == before.file && (
        ok && before.temp is Some ==> after.temp == Some(
            MacFile { header: Some(header@), ..before.temp->0 },
        )),
        MacApply::SetFork { has_mode, temp, fork } => after.file == before.file && (ok
            && before.temp is Some ==> after.temp == Some(
            MacFile { fork: Some(fork@), ..before.temp->0 },
        )),
        MacApply::SetFlag { has_mode, temp } => after.file == before.file && (ok
            && before.temp is Some ==> after.temp == Some(
            MacFile { flag: true, ..before.temp->0 },
        )),
        MacApply::Rename { temp } => after == if ok && before.temp is Some {
            MacSlot { file: before.temp, temp: None }
        } else {
            before
        },
        MacApply::Remove { temp, error } => after.file == before.file && (ok || before.temp is None
            ==> after.temp is None),
        _ => after == before,
    }
}

/// A file on APFS and HFS+ and its sibling are as they can be before a step, given the
/// header and the resource fork: until the rename the file is the one that was there,
/// and in front of it the sibling is finished.
pub open spec fn mac_fits(step: MacApply, header: Seq<u8>, fork: Seq<u8>, slot: MacSlot) -> bool {
    let finished = MacFile { header: Some(header), fork: Some(fork), flag: true };
    &&& mac_header(step) matches Some(h) ==> h == header
    &&& mac_fork(step) matches Some(f) ==> f == fork
    &&& step is SetHeader ==> slot.temp is Some
    &&& step is SetFork ==> (slot.temp matches Some(t) && t.header == Some(header))
    &&& step is SetFlag ==> (slot.temp matches Some(t) && t.header == Some(header) && t.fork
        == Some(fork))
    &&& step is SetMode || step is Rename ==> slot.temp == Some(finished)
    &&& slot.file == match step {
        MacApply::Done(Ok(_)) => Some(finished),
        _ => None,
    }
}

/// At every step on APFS and HFS+ a file is the one that was there, or the sibling with
/// its header, its whole resource fork and its flag. It is the sibling exactly where the
/// run succeeds.
pub proof fn law_apfs_file_is_old_or_finished(
    before: MacApply,
    report: MacReport,
    after: MacApply,
    header: Seq<u8>,
    fork: Seq<u8>,
    slot: MacSlot,
    next: MacSlot,
)
    requires
        mac_follows(before, report, after),
        mac_fits(before, header, fork, slot),
        mac_effect(before, report, slot, next),
        mac_fork(before) is None ==> (mac_fork(after) matches Some(f) ==> f == fork
            && mac_header(after) == Some(header)),
    ensures
        mac_fits(after, header, fork, next),
        next.file is None || next.file == Some(
            MacFile { header: Some(header), fork: Some(fork), flag: true },
        ),
{
}

/// There is no sibling on APFS and HFS+ before one is created, nor once a run is over.
pub open spec fn mac_clean(step: MacApply, slot: MacSlot) -> bool {
    step is Read || step is CheckAccess || step is Encode || step is Locate || step is ReadMode
        || step is Create || step is Done ==> slot.temp is None
}

/// A step of a run on APFS and HFS+: what is done to the file and its sibling, what is
/// reported, and what follows. A sibling that is to be removed goes away.
pub open spec fn mac_step(
    before: MacApply,
    report: MacReport,
    after: MacApply,
    slot: MacSlot,
    next: MacSlot,
) -> bool {
    &&& mac_follows(before, report, after)
    &&& mac_effect(before, report, slot, next)
    &&& before is Remove && slot.temp is Some ==> !(report matches MacReport::Called(Err(_)))
}

/// A run on APFS and HFS+ from its start on: the steps, what was reported of each, and
/// what the file and its sibling were before each.
pub open spec fn mac_run(
    steps: Seq<MacApply>,
    reports: Seq<MacReport>,
    slots: Seq<MacSlot>,
) -> bool {
    &&& steps.len() == slots.len() == reports.len() + 1
    &&& steps[0] is Read
    &&& forall|i: int|
        0 <= i < reports.len() ==> mac_step(
            steps[i],
            #[trigger] reports[i],
            steps[i + 1],
            slots[i],
            slots[i + 1],
        )
}

/// A run on APFS and HFS+ is all or nothing, however far it has come. Where it is over no
/// sibling is left; the file is the sibling, with a header, a resource fork and the flag
/// of a compressed file, if the run succeeded, and the one that was there if it failed.
pub proof fn law_apfs_run_is_all_or_nothing(
    steps: Seq<MacApply>,
    reports: Seq<MacReport>,
    slots: Seq<MacSlot>,
    i: int,
)
    requires
        mac_run(steps, reports, slots),
        slots[0] == (MacSlot { file: None, temp: None }),
        0 <= i < steps.len(),
    ensures
        exists|header: Seq<u8>, fork: Seq<u8>| #[trigger] mac_fits(steps[i], header, fork, slots[i]),
        mac_clean(steps[i], slots[i]),
        steps[i] is Done ==> slots[i].temp is None,
        steps[i] matches MacApply::Done(Ok(_)) ==> (slots[i].file matches Some(file) && file.flag
            && file.header is Some && file.fork is Some),
        steps[i] matches MacApply::Done(Err(_)) ==> slots[i].file is None,
    decreases i,
{
    if i > 0 {
        law_apfs_run_is_all_or_nothing(steps, reports, slots, i - 1);
        let report = reports[i - 1];
        assert(mac_step(steps[i - 1], report, steps[i - 1 + 1], slots[i - 1], slots[i - 1 + 1]));
        let (header, fork) = choose|header: Seq<u8>, fork: Seq<u8>|
            #[trigger] mac_fits(steps[i - 1], header, fork, slots[i - 1]);
        let (header, fork) = if mac_fork(steps[i - 1]) is None && mac_fork(steps[i]) is Some {
            (mac_header(steps[i])->0, mac_fork(steps[i])->0)
        } else {
            (header, fork)
        };
        assert(mac_fits(steps[i - 1], header, fork, slots[i - 1]));
        law_apfs_file_is_old_or_finished(
            steps[i - 1],
            report,
            steps[i],
            header,
            fork,
            slots[i - 1],
            slots[i],
        );
    } else {
        assert(mac_fits(steps[0], Seq::<u8>::empty(), Seq::<u8>::empty(), slots[0]));
    }
}

/// A file over the limit is refused before anything is done to it.
pub proof fn law_too_large_is_refused_first(raw: Vec<u8>, after: MacApply)
    requires
        raw@.len() > MAX_RAW,
        mac_follows(MacApply::Read, MacReport::Bytes(Ok(raw)), after),
    ensures
        after matches MacApply::Done(Err(Error::Io { context, source })) && source.raw_os_error
            == Some(EFBIG),
{
}

} // verus!
