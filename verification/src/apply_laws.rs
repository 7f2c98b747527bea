//! How a file comes to be compressed, step by step, and what a failure is reported as.

use vstd::prelude::*;

use crate::apply::{apply_inplace_linux, apply_inplace_macos, call_error, codec_name,
    encoding_follows, linux_follows, mac_follows, CallFailure, LinuxApply, LinuxReport, MacApply,
    MacReport};
use crate::backend::{block_at, fork_bytes, fork_size, header_bytes, views};
use crate::files::temp_name_text;
use crate::outcome::{Error, IoFailure, IoKind};

verus! {

/// A file on btrfs is replaced where every step succeeds: it is read, found writable, and
/// located; a sibling of its name and this process is created, takes the first codec, and
/// gets the bytes that were read; it is flushed and renamed.
pub proof fn law_btrfs_run_of_successes(
    steps: Seq<LinuxApply>,
    reports: Seq<LinuxReport>,
    data: Vec<u8>,
    name: Option<String>,
    pid: u32,
)
    requires
        steps.len() == 9,
        reports.len() == 8,
        steps[0] == LinuxApply::Read,
        reports[0] == LinuxReport::Bytes(Ok(data)),
        reports[1] == LinuxReport::Access(Ok(())),
        reports[2] == (LinuxReport::Path { has_parent: true, name, pid }),
        reports[3] == LinuxReport::Called(Ok(())),
        reports[4] == LinuxReport::Called(Ok(())),
        reports[5] == LinuxReport::Called(Ok(())),
        reports[6] == LinuxReport::Called(Ok(())),
        reports[7] == LinuxReport::Called(Ok(())),
        forall|i: int|
            0 <= i < 8 ==> linux_follows(steps[i], #[trigger] reports[i], steps[i + 1]),
    ensures
        steps[3] matches LinuxApply::Create { temp, data: d } && d == data && temp@
            == temp_name_text(
            match name {
                Some(n) => n@,
                None => "addon"@,
            },
            pid,
        ) && steps[4] == (LinuxApply::Codec { codec: 0, temp, data }) && steps[5] == (
        LinuxApply::Write { temp, data }) && steps[6] == (LinuxApply::Sync { temp }) && steps[7]
            == (LinuxApply::Rename { temp }),
        steps[8] == LinuxApply::Done(Ok::<(), Error>(())),
{
    assert(linux_follows(steps[0], reports[0], steps[1]));
    assert(linux_follows(steps[1], reports[1], steps[2]));
    assert(linux_follows(steps[2], reports[2], steps[3]));
    assert(linux_follows(steps[3], reports[3], steps[4]));
    assert(linux_follows(steps[4], reports[4], steps[5]));
    assert(linux_follows(steps[5], reports[5], steps[6]));
    assert(linux_follows(steps[6], reports[6], steps[7]));
    assert(linux_follows(steps[7], reports[7], steps[8]));
}

/// A codec that is refused is followed by the next one, and the third by the bare flag,
/// which is set beside those that the sibling has. Any that is taken is followed by the
/// write.
pub proof fn law_refused_codec_leads_on(
    codec: usize,
    temp: String,
    data: Vec<u8>,
    failure: IoFailure,
    flags: i64,
    taken: LinuxApply,
    refused: LinuxApply,
    read: LinuxApply,
    set: LinuxApply,
)
    requires
        codec <= 2,
        linux_follows(
            LinuxApply::Codec { codec, temp, data },
            LinuxReport::Called(Ok(())),
            taken,
        ),
        linux_follows(
            LinuxApply::Codec { codec, temp, data },
            LinuxReport::Called(Err(failure)),
            refused,
        ),
        linux_follows(
            LinuxApply::ReadFlags { temp, data },
            LinuxReport::Flags(Ok(flags)),
            read,
        ),
        linux_follows(
            LinuxApply::SetFlags { flags, temp, data },
            LinuxReport::Called(Ok(())),
            set,
        ),
    ensures
        taken == (LinuxApply::Write { temp, data }),
        codec == 0 ==> refused == (LinuxApply::Codec { codec: 1, temp, data }),
        codec == 1 ==> refused == (LinuxApply::Codec { codec: 2, temp, data }),
        codec == 2 ==> refused == (LinuxApply::ReadFlags { temp, data }),
        read == (LinuxApply::SetFlags { flags: flags | 4, temp, data }),
        set == (LinuxApply::Write { temp, data }),
{
}

/// An error with this context and source.
pub open spec fn says(error: Error, context: Seq<char>, source: IoFailure) -> bool {
    error matches Error::Io { context: c, source: s } && c@ == context && s == source
}

/// A failure on btrfs is reported as it was seen, with what was being done. Where there may
/// be a sibling, that is removed first.
pub proof fn law_btrfs_failure_is_reported(
    step: LinuxApply,
    source: IoFailure,
    after: LinuxApply,
    flags_after: LinuxApply,
    last: LinuxApply,
)
    requires
        linux_follows(step, LinuxReport::Called(Err(source)), after),
        linux_follows(step, LinuxReport::Flags(Err(source)), flags_after),
        linux_follows(after, LinuxReport::Called(Ok(())), last),
    ensures
        step matches LinuxApply::Create { temp, data } ==> (after matches LinuxApply::Remove {
            temp: t,
            error,
        } && t == temp && says(error, "create temp"@, source) && last == LinuxApply::Done(
            Err::<(), Error>(error),
        )),
        step matches LinuxApply::SetFlags { flags, temp, data } ==> (
        after matches LinuxApply::Remove { temp: t, error } && t == temp && says(
            error,
            "FS_IOC_SETFLAGS"@,
            source,
        )),
        step matches LinuxApply::ReadFlags { temp, data } ==> (
        flags_after matches LinuxApply::Remove { temp: t, error } && t == temp && says(
            error,
            "FS_IOC_GETFLAGS"@,
            source,
        )),
        step matches LinuxApply::Write { temp, data } ==> (after matches LinuxApply::Remove {
            temp: t,
            error,
        } && t == temp && says(error, "write temp"@, source)),
        step matches LinuxApply::Sync { temp } ==> (after matches LinuxApply::Remove {
            temp: t,
            error,
        } && t == temp && says(error, "fsync temp"@, source)),
        step matches LinuxApply::Rename { temp } ==> (after matches LinuxApply::Remove {
            temp: t,
            error,
        } && t == temp && says(error, "rename"@, source)),
{
}

/// A file on btrfs that cannot be read or written, or whose path has no directory, is left
/// alone, and reported for that.
pub proof fn law_btrfs_refusal_is_reported(
    data: Vec<u8>,
    source: IoFailure,
    name: Option<String>,
    pid: u32,
    unread: LinuxApply,
    denied: LinuxApply,
    nul: LinuxApply,
    rootless: LinuxApply,
)
    requires
        linux_follows(LinuxApply::Read, LinuxReport::Bytes(Err(source)), unread),
        linux_follows(
            LinuxApply::CheckAccess { data },
            LinuxReport::Access(Err(CallFailure::Failed(source))),
            denied,
        ),
        linux_follows(
            LinuxApply::CheckAccess { data },
            LinuxReport::Access(Err(CallFailure::InteriorNul)),
            nul,
        ),
        linux_follows(
            LinuxApply::Locate { data },
            LinuxReport::Path { has_parent: false, name, pid },
            rootless,
        ),
    ensures
        unread matches LinuxApply::Done(Err(e)) && says(e, "read"@, source),
        denied matches LinuxApply::Done(Err(e)) && says(e, "access"@, source),
        nul matches LinuxApply::Done(Err(Error::Io { context, source: s })) && context@
            == "path has interior NUL"@ && s.kind == IoKind::InvalidInput && s.raw_os_error is None,
        rootless matches LinuxApply::Done(Err(Error::Io { context, source: s })) && context@
            == "no parent dir"@ && s.kind == IoKind::InvalidInput && s.raw_os_error is None,
{
}

/// On APFS and HFS+ a file is encoded where it is at most 3.9 billion bytes long; a longer
/// one is refused as too large.
pub proof fn law_apfs_limit(raw: Vec<u8>, after: MacApply)
    requires
        mac_follows(MacApply::Read, MacReport::Bytes(Ok(raw)), after),
    ensures
        raw@.len() <= 3_900_000_000 ==> after == (MacApply::CheckAccess { raw }),
        raw@.len() > 3_900_000_000 ==> (after matches MacApply::Done(
            Err(Error::Io { context, source }),
        ) && source.raw_os_error == Some(27i32) && context@ == "file too large for decmpfs"@),
{
}

/// Blocks are asked for one behind the other, each from where the one before ends, and the
/// sibling is located once the last one, which ends with the file, is encoded. Its header
/// has the file's length, and its resource fork has the blocks.
pub proof fn law_apfs_encodes_block_by_block(
    raw: Vec<u8>,
    blocks: Vec<Vec<u8>>,
    from: usize,
    to: usize,
    block: Vec<u8>,
    first: MacApply,
    next: MacApply,
    failed: MacApply,
)
    requires
        block_at(raw@.len() as int, blocks@.len() as int) == Some((from as int, to as int)),
        mac_follows(MacApply::CheckAccess { raw }, MacReport::Called(Ok(())), first),
        mac_follows(
            MacApply::Encode { raw, blocks, from, to },
            MacReport::Block(Some(block)),
            next,
        ),
        mac_follows(MacApply::Encode { raw, blocks, from, to }, MacReport::Block(None), failed),
    ensures
        first matches MacApply::Encode { raw: r, blocks: b, from: f, to: t } && r == raw
            && b@.len() == 0 && f == 0 && t == if raw@.len() < 0x1_0000 {
            raw@.len() as int
        } else {
            0x1_0000int
        },
        ({
            let all = blocks@.push(block);
            if to < raw@.len() {
                next matches MacApply::Encode { raw: r, blocks: b, from: f, to: t } && r == raw
                    && b@ == all && f == to && t == if to + 0x1_0000 <= raw@.len() {
                    to + 0x1_0000
                } else {
                    raw@.len() as int
                }
            } else if fork_size(views(all)) <= 0xffff_ffff {
                next matches MacApply::Locate { header, fork } && header@ == header_bytes(
                    raw@.len() as int,
                ) && fork@ == fork_bytes(views(all))
            } else {
                next matches MacApply::Done(Err(Error::Io { context, source })) && context@
                    == "lzvn encode"@ && source.kind == IoKind::InvalidData
            }
        }),
        failed matches MacApply::Done(Err(Error::Io { context, source })) && context@
            == "lzvn encode"@ && source.kind == IoKind::InvalidData,
{
    assert(encoding_follows(raw, Seq::<Vec<u8>>::empty(), first)) by {
        assert(Seq::<Vec<u8>>::empty() =~= seq![]);
    }
}

/// An empty file has no block: its sibling is located at once.
pub proof fn law_apfs_empty_file_has_no_block(raw: Vec<u8>, first: MacApply)
    requires
        raw@.len() == 0,
        mac_follows(MacApply::CheckAccess { raw }, MacReport::Called(Ok(())), first),
    ensures
        first matches MacApply::Locate { header, fork } && header@ == header_bytes(0) && fork@
            == fork_bytes(Seq::<Seq<u8>>::empty()),
{
    let none = Seq::<Vec<u8>>::empty();
    assert(none =~= seq![]);
    assert(views(none) =~= Seq::<Seq<u8>>::empty());
}

/// A file on APFS and HFS+ is replaced where every step on its sibling succeeds: that is
/// created, gets the header, the resource fork and the flag, and the file's permissions
/// where these could be read, and is renamed. Permissions that cannot be set do not matter.
pub proof fn law_apfs_run_of_successes(
    steps: Seq<MacApply>,
    reports: Seq<MacReport>,
    header: Vec<u8>,
    fork: Vec<u8>,
    name: String,
    pid: u32,
    last: IoFailure,
    mode: Result<(), CallFailure>,
)
    requires
        steps.len() == 9,
        reports.len() == 8,
        steps[0] == (MacApply::Locate { header, fork }),
        reports[0] == (MacReport::Path { has_parent: true, name: Some(name), pid, last }),
        reports[1] == MacReport::Mode(true),
        reports[2] == MacReport::Called(Ok(())),
        reports[3] == MacReport::Called(Ok(())),
        reports[4] == MacReport::Called(Ok(())),
        reports[5] == MacReport::Called(Ok(())),
        reports[6] == MacReport::Called(mode),
        reports[7] == MacReport::Called(Ok(())),
        forall|i: int| 0 <= i < 8 ==> mac_follows(steps[i], #[trigger] reports[i], steps[i + 1]),
    ensures
        steps[1] matches MacApply::ReadMode { temp, header: h, fork: f } && h == header && f
            == fork && temp@ == temp_name_text(name@, pid) && steps[2] == (MacApply::Create {
            has_mode: true,
            temp,
            header,
            fork,
        }) && steps[3] == (MacApply::SetHeader { has_mode: true, temp, header, fork })
            && steps[4] == (MacApply::SetFork { has_mode: true, temp, fork }) && steps[5] == (
        MacApply::SetFlag { has_mode: true, temp }) && steps[6] == (MacApply::SetMode { temp })
            && steps[7] == (MacApply::Rename { temp }),
        steps[8] == MacApply::Done(Ok::<(), Error>(())),
{
    assert(mac_follows(steps[0], reports[0], steps[1]));
    assert(mac_follows(steps[1], reports[1], steps[2]));
    assert(mac_follows(steps[2], reports[2], steps[3]));
    assert(mac_follows(steps[3], reports[3], steps[4]));
    assert(mac_follows(steps[4], reports[4], steps[5]));
    assert(mac_follows(steps[5], reports[5], steps[6]));
    assert(mac_follows(steps[6], reports[6], steps[7]));
    assert(mac_follows(steps[7], reports[7], steps[8]));
}

/// Where the permissions could not be read, they are not set either.
pub proof fn law_apfs_unread_mode_is_not_set(
    temp: String,
    header: Vec<u8>,
    fork: Vec<u8>,
    created: MacApply,
    flagged: MacApply,
)
    requires
        mac_follows(
            MacApply::ReadMode { temp, header, fork },
            MacReport::Mode(false),
            created,
        ),
        mac_follows(
            MacApply::SetFlag { has_mode: false, temp },
            MacReport::Called(Ok(())),
            flagged,
        ),
    ensures
        created == (MacApply::Create { has_mode: false, temp, header, fork }),
        flagged == (MacApply::Rename { temp }),
{
}

/// A failure on APFS and HFS+ is reported as it was seen, with what was being done. Where
/// there may be a sibling, that is removed first.
pub proof fn law_apfs_failure_is_reported(
    step: MacApply,
    source: IoFailure,
    after: MacApply,
    last: MacApply,
)
    requires
        mac_follows(step, MacReport::Called(Err(CallFailure::Failed(source))), after),
        mac_follows(after, MacReport::Called(Ok(())), last),
    ensures
        step matches MacApply::CheckAccess { raw } ==> (after matches MacApply::Done(Err(e))
            && says(e, "access"@, source)),
        step matches MacApply::Create { has_mode, temp, header, fork } ==> (
        after matches MacApply::Remove { temp: t, error } && t == temp && says(
            error,
            "create temp"@,
            source,
        ) && last == MacApply::Done(Err::<(), Error>(error))),
        step matches MacApply::SetHeader { has_mode, temp, header, fork } ==> (
        after matches MacApply::Remove { temp: t, error } && t == temp && says(
            error,
            "setxattr"@,
            source,
        )),
        step matches MacApply::SetFork { has_mode, temp, fork } ==> (
        after matches MacApply::Remove { temp: t, error } && t == temp && says(
            error,
            "setxattr"@,
            source,
        )),
        step matches MacApply::SetFlag { has_mode, temp } ==> (after matches MacApply::Remove {
            temp: t,
            error,
        } && t == temp && says(error, "fchflags"@, source)),
        step matches MacApply::Rename { temp } ==> (after matches MacApply::Remove {
            temp: t,
            error,
        } && t == temp && says(error, "rename"@, source)),
{
}

/// A file on APFS and HFS+ that cannot be read, or whose path has no directory or no file
/// name, is left alone, and reported for that.
pub proof fn law_apfs_refusal_is_reported(
    header: Vec<u8>,
    fork: Vec<u8>,
    source: IoFailure,
    name: Option<String>,
    pid: u32,
    unread: MacApply,
    rootless: MacApply,
    nameless: MacApply,
)
    requires
        mac_follows(MacApply::Read, MacReport::Bytes(Err(source)), unread),
        mac_follows(
            MacApply::Locate { header, fork },
            MacReport::Path { has_parent: false, name, pid, last: source },
            rootless,
        ),
        mac_follows(
            MacApply::Locate { header, fork },
            MacReport::Path { has_parent: true, name: None, pid, last: source },
            nameless,
        ),
    ensures
        unread matches MacApply::Done(Err(e)) && says(e, "read"@, source),
        rootless matches MacApply::Done(Err(e)) && says(e, "parent"@, source),
        nameless matches MacApply::Done(Err(e)) && says(e, "file_name"@, source),
{
}

/// The codecs are tried in this order: zstd, lzo, zlib. There is no fourth.
pub proof fn law_codecs_by_preference(codec: usize, name: Option<&'static str>)
    requires
        call_ensures(codec_name, (codec,), name),
    ensures
        codec == 0 ==> (name matches Some(s) && s@ == "zstd"@),
        codec == 1 ==> (name matches Some(s) && s@ == "lzo"@),
        codec == 2 ==> (name matches Some(s) && s@ == "zlib"@),
        codec >= 3 ==> name is None,
{
}

/// A failed call is reported in its context, as the system reported it; a path with a NUL in
/// it is an invalid input, whatever the call.
pub proof fn law_failed_call_is_reported(context: &'static str, failure: CallFailure, e: Error)
    requires
        call_ensures(call_error, (context, failure), e),
    ensures
        failure matches CallFailure::Failed(source) ==> says(e, context@, source),
        failure is InteriorNul ==> (e matches Error::Io { context: c, source } && c@
            == "path has interior NUL"@ && source.kind == IoKind::InvalidInput
            && source.raw_os_error is None && source.message@ == "invalid input parameter"@),
{
}

/// A run starts by reading the file.
pub proof fn law_run_starts_by_reading(linux: LinuxApply, mac: MacApply)
    requires
        call_ensures(apply_inplace_linux, (), linux),
        call_ensures(apply_inplace_macos, (), mac),
    ensures
        linux == LinuxApply::Read,
        mac == MacApply::Read,
{
}

/// What is reported of another step than the one at hand changes nothing, and a run that is
/// over stays so.
pub proof fn law_stray_report_changes_nothing(
    linux: LinuxApply,
    linux_report: LinuxReport,
    linux_after: LinuxApply,
    mac: MacApply,
    mac_report: MacReport,
    mac_after: MacApply,
)
    requires
        linux_follows(linux, linux_report, linux_after),
        mac_follows(mac, mac_report, mac_after),
    ensures
        linux is Done ==> linux_after == linux,
        linux is Read && linux_report !is Bytes ==> linux_after == linux,
        linux is CheckAccess && linux_report !is Access ==> linux_after == linux,
        linux is Locate && linux_report !is Path ==> linux_after == linux,
        linux is ReadFlags && linux_report !is Flags ==> linux_after == linux,
        (linux is Create || linux is Codec || linux is SetFlags || linux is Write || linux is Sync
            || linux is Rename || linux is Remove) && linux_report !is Called ==> linux_after
            == linux,
        mac is Done ==> mac_after == mac,
        mac is Read && mac_report !is Bytes ==> mac_after == mac,
        mac is Encode && mac_report !is Block ==> mac_after == mac,
        mac is Locate && mac_report !is Path ==> mac_after == mac,
        mac is ReadMode && mac_report !is Mode ==> mac_after == mac,
        (mac is CheckAccess || mac is Create || mac is SetHeader || mac is SetFork || mac is SetFlag
            || mac is SetMode || mac is Rename || mac is Remove) && mac_report !is Called
            ==> mac_after == mac,
{
}

/// A sibling that is removed, or cannot be, ends the run with the error that led to that.
pub proof fn law_removal_ends_with_its_error(
    temp: String,
    error: Error,
    removed: Result<(), IoFailure>,
    gone: Result<(), CallFailure>,
    linux: LinuxApply,
    mac: MacApply,
)
    requires
        linux_follows(LinuxApply::Remove { temp, error }, LinuxReport::Called(removed), linux),
        mac_follows(MacApply::Remove { temp, error }, MacReport::Called(gone), mac),
    ensures
        linux == LinuxApply::Done(Err::<(), Error>(error)),
        mac == MacApply::Done(Err::<(), Error>(error)),
{
}

} // verus!
