//! Compressing a file where it is.

use decmpfs::apply::{
    apply_inplace_linux, apply_inplace_macos, CallFailure, LinuxApply, LinuxReport, MacApply,
    MacReport,
};
use decmpfs::backend::{
    attributes, classify_fs, compressed_on_disk, detect, is_already_compressed, next_extent,
    on_disk_bytes, probe, within_decmpfs_limit, Allocation, FileFlags, Signal, Volume, EFBIG,
    MAX_RAW,
};
use decmpfs::compress::{compress_file, Report, Step};
use decmpfs::outcome::{
    classify_outcome, classify_skip, io, Error, IoFailure, IoKind, Outcome, SkipReason, Support,
    UnsupportedReason,
};
use decmpfs::platform::Host;

const HOSTS: [Host; 4] = [Host::MacOs, Host::Linux, Host::Windows, Host::Other];

const MAGIC: [u8; 4] = [0x7f, 0x45, 0x4c, 0x46];

fn failure(kind: IoKind, raw_os_error: Option<i32>, message: &str) -> IoFailure {
    IoFailure { kind, raw_os_error, message: message.to_string() }
}

fn err(kind: IoKind) -> IoFailure {
    failure(kind, None, "failed")
}

fn from_raw_os_error(errno: i32) -> IoFailure {
    let kind = match errno {
        1 | 13 => IoKind::PermissionDenied,
        2 => IoKind::NotFound,
        _ => IoKind::Other,
    };
    failure(kind, Some(errno), "failed")
}

fn missing() -> IoFailure {
    failure(IoKind::NotFound, Some(2), "No such file or directory (os error 2)")
}

fn apfs() -> Volume {
    Volume::MacOs { f_flags: 0x1000, f_fstypename: b"apfs\0\0\0\0\0\0\0\0\0\0\0\0".to_vec() }
}

// A file, and what the system will say of it.
struct File {
    host: Host,
    exists: bool,
    volume: Volume,
    flags: FileFlags,
    blocks_before: u64,
    blocks_after: u64,
    magic_after: Result<[u8; 4], Error>,
    applied: Result<(), Error>,
    signal: Signal,
    restored: Option<Vec<u8>>,
    applications: usize,
}

fn file(volume: Volume, flags: FileFlags) -> File {
    let host = match &volume {
        Volume::MacOs { .. } => Host::MacOs,
        Volume::Linux { .. } => Host::Linux,
        Volume::Windows { .. } => Host::Windows,
        Volume::Other => Host::Other,
    };
    File {
        host,
        exists: true,
        volume,
        flags,
        blocks_before: 20,
        blocks_after: 20,
        magic_after: Ok(MAGIC),
        applied: Ok(()),
        signal: Signal::Nothing,
        restored: None,
        applications: 0,
    }
}

fn run(path: &str, mut f: File) -> (Result<Outcome, Error>, File) {
    let mut step = compress_file(path.to_string());
    for _ in 0..20 {
        let report = match &step {
            Step::CheckExists { .. } => Report::Exists(f.exists),
            Step::AskVolume => {
                Report::Volume(Ok(std::mem::replace(&mut f.volume, Volume::Other)))
            }
            Step::ReadFlags => Report::Flags(Ok(f.flags)),
            Step::MeasureOnly | Step::MeasureBefore => {
                Report::Size(Ok(Allocation::Blocks(f.blocks_before)))
            }
            Step::ReadMagic { .. } => Report::Magic(Ok(MAGIC)),
            Step::Snapshot { .. } => Report::Bytes(Ok(b"snapshot".to_vec())),
            Step::Apply { .. } => {
                f.applications += 1;
                Report::Applied(std::mem::replace(&mut f.applied, Ok(())))
            }
            Step::RereadMagic { .. } => Report::Magic(std::mem::replace(&mut f.magic_after, Ok(MAGIC))),
            Step::Restore { snapshot, .. } => {
                f.restored = Some(snapshot.clone());
                Report::Restored
            }
            Step::MeasureAfter { .. } => Report::Size(Ok(Allocation::Blocks(f.blocks_after))),
            Step::ReadSignal { .. } => {
                Report::Signal(Ok(std::mem::replace(&mut f.signal, Signal::Nothing)))
            }
            Step::Done(_) => Report::Restored,
        };
        step = step.next(f.host, report);
    }
    match step {
        Step::Done(result) => (result, f),
        other => panic!("not done: {other:?}"),
    }
}

#[test]
fn compress_file_errors_when_missing() {
    let mut f = file(apfs(), FileFlags::MacOs(0));
    f.exists = false;
    let (out, _) = run("/no/such/addon.node", f);
    assert!(matches!(&out, Err(Error::NotFound(_))));
    assert_eq!(out.unwrap_err().message(), "file not found: /no/such/addon.node");
}

#[test]
fn compress_file_reports_unsupported_on_a_non_compressing_fs() {
    // /dev/null exists but devfs/devtmpfs has no compression backend → Unsupported,
    // exercising compress_file's Unsupported match arm.
    let devfs = Volume::MacOs { f_flags: 0x1000, f_fstypename: b"devfs\0".to_vec() };
    let devtmpfs = Volume::Linux { f_type: 0x0102_1994 };
    for volume in [devfs, devtmpfs] {
        let (out, f) = run("/dev/null", file(volume, FileFlags::Other));
        assert!(
            matches!(out, Ok(Outcome::Unsupported { .. })),
            "devfs → Unsupported, got {out:?}"
        );
        assert_eq!(f.applications, 0);
    }
    let (out, _) = run("/dev/null", file(Volume::Other, FileFlags::Other));
    assert_eq!(
        out.unwrap(),
        Outcome::Unsupported { reason: UnsupportedReason::PlatformBuild }
    );
}

#[test]
fn compress_file_skips_a_read_only_file() {
    // On a compressing FS, a read-only file can't be opened rw → the orchestrator
    // fail-soft turns the EACCES into Skipped(PermissionDenied), not a hard error.
    // Every backend asks before it builds anything.
    let denied = || Err(CallFailure::Failed(from_raw_os_error(13)));
    let on_apfs = match apply_inplace_macos()
        .next(MacReport::Bytes(Ok(b"addon".to_vec())))
        .next(MacReport::Called(denied()))
    {
        MacApply::Done(result) => result,
        other => panic!("{other:?}"),
    };
    let on_btrfs = match apply_inplace_linux()
        .next(LinuxReport::Bytes(Ok(b"addon".to_vec())))
        .next(LinuxReport::Access(denied()))
    {
        LinuxApply::Done(result) => result,
        other => panic!("{other:?}"),
    };
    let cases = [
        (file(apfs(), FileFlags::MacOs(0)), on_apfs),
        (file(Volume::Linux { f_type: 0x9123_683E }, FileFlags::Linux(0)), on_btrfs),
    ];
    for (mut f, applied) in cases {
        f.applied = applied;
        let (outcome, f) = run("addon.node", f);
        assert!(
            matches!(outcome, Ok(Outcome::Skipped { reason: SkipReason::PermissionDenied })),
            "read-only → Skipped(PermissionDenied), got {outcome:?}"
        );
        assert!(f.restored.is_none());
    }
}

#[test]
fn a_failure_for_want_of_permission_is_skipped_at_every_step() {
    let denied = || io("open", from_raw_os_error(13));
    let steps: [(Step, Report); 7] = [
        (Step::AskVolume, Report::Volume(Err(denied()))),
        (Step::ReadFlags, Report::Flags(Err(denied()))),
        (Step::MeasureOnly, Report::Size(Err(denied()))),
        (Step::MeasureBefore, Report::Size(Err(denied()))),
        (Step::ReadMagic { before: 1 }, Report::Magic(Err(denied()))),
        (Step::Snapshot { before: 1, magic: MAGIC }, Report::Bytes(Err(from_raw_os_error(13)))),
        (Step::ReadSignal { before: 1, after: 1 }, Report::Signal(Err(denied()))),
    ];
    for (step, report) in steps {
        let name = format!("{step:?}");
        let next = step.next(Host::Linux, report);
        assert!(
            matches!(
                next,
                Step::Done(Ok(Outcome::Skipped { reason: SkipReason::PermissionDenied }))
            ),
            "{name}"
        );
    }
}

#[test]
fn compress_file_applies_flag_round_trips_and_stays_loadable() {
    let btrfs = Volume::Linux { f_type: 0x9123_683E };
    assert_eq!(
        probe(Ok(Volume::Linux { f_type: 0x9123_683E })).unwrap(),
        Support::Supported,
        "btrfs detected"
    );
    // Compressed is decided by the extents, not by the blocks: they are the logical size.
    let mut f = file(btrfs, FileFlags::Linux(0));
    f.signal = Signal::Linux { mapped: 2, extents: vec![0, 8] };
    let (out, f) = run("raw.node", f);
    assert_eq!(out.unwrap(), Outcome::Compressed { before: 20 * 512, after: 20 * 512 });
    assert!(f.restored.is_none());
    // A second call must detect the compress flag set by the first.
    let (out, f) =
        run("raw.node", file(Volume::Linux { f_type: 0x9123_683E }, FileFlags::Linux(4)));
    assert_eq!(out.unwrap(), Outcome::AlreadyCompressed { before: 20 * 512 });
    assert_eq!(f.applications, 0);
}

#[test]
fn read_only_filesystem_is_skipped_not_errored() {
    // Detection still reports Supported (it IS btrfs), but the write can't happen on
    // a read-only mount — fail-soft turns that into Skipped, never an Err.
    let mut f = file(Volume::Linux { f_type: 0x9123_683E }, FileFlags::Linux(0));
    f.applied = Err(io("create temp", from_raw_os_error(30)));
    let (out, _) = run("ro.node", f);
    assert_eq!(out.unwrap(), Outcome::Skipped { reason: SkipReason::PermissionDenied });
}

#[test]
fn compress_file_shrinks_on_ntfs_and_stays_loadable() {
    let mut f = file(Volume::Windows { flags: 0x10 }, FileFlags::Windows(0x20));
    f.blocks_after = 3;
    let (out, f) = run("raw.node", f);
    assert_eq!(out.unwrap(), Outcome::Compressed { before: 10240, after: 1536 });
    assert_eq!(f.applications, 1);
    // Idempotent: the attribute is set.
    let (out, f) =
        run("raw.node", file(Volume::Windows { flags: 0x10 }, FileFlags::Windows(0x820)));
    assert!(matches!(out.unwrap(), Outcome::AlreadyCompressed { .. }));
    assert_eq!(f.applications, 0);
}

#[test]
fn a_file_that_no_longer_loads_is_rolled_back() {
    let mut f = file(apfs(), FileFlags::MacOs(0));
    f.magic_after = Ok([0; 4]);
    let (out, f) = run("addon.node", f);
    assert_eq!(out.unwrap(), Outcome::Skipped { reason: SkipReason::NotLoadable });
    assert_eq!(f.restored.as_deref(), Some(&b"snapshot"[..]));
}

#[test]
fn a_file_that_cannot_be_read_any_more_is_rolled_back() {
    let mut f = file(apfs(), FileFlags::MacOs(0));
    f.magic_after = Err(io("read", failure(IoKind::Other, Some(5), "Input/output error")));
    let (out, f) = run("addon.node", f);
    assert_eq!(out.unwrap_err().message(), "io error at read: Input/output error");
    assert_eq!(f.restored.as_deref(), Some(&b"snapshot"[..]));
}

#[test]
fn a_second_run_finds_what_the_first_left() {
    let mut f = file(apfs(), FileFlags::MacOs(0));
    f.signal = Signal::MacOs(0x20);
    let (out, _) = run("addon.node", f);
    assert!(matches!(out, Ok(Outcome::Compressed { .. })));
    let (out, f) = run("addon.node", file(apfs(), FileFlags::MacOs(0x20)));
    assert_eq!(out.unwrap(), Outcome::AlreadyCompressed { before: 10240 });
    assert_eq!(f.applications, 0);
}

#[test]
fn other_failures_to_apply_are_errors() {
    let mut f = file(apfs(), FileFlags::MacOs(0));
    f.applied = Err(io("setxattr", failure(IoKind::Other, Some(28), "No space left")));
    let (out, _) = run("addon.node", f);
    assert_eq!(out.unwrap_err().message(), "io error at setxattr: No space left");
    let mut f = file(apfs(), FileFlags::MacOs(0));
    f.applied = Err(Error::NotFound("gone".to_string()));
    assert_eq!(run("addon.node", f).0, Err(Error::NotFound("gone".to_string())));
}

#[test]
fn a_failed_snapshot_is_named() {
    let step = Step::Snapshot { before: 1, magic: MAGIC };
    match step.next(Host::Linux, Report::Bytes(Err(missing()))) {
        Step::Done(Err(e)) => assert_eq!(
            e.message(),
            "io error at snapshot: No such file or directory (os error 2)"
        ),
        other => panic!("{other:?}"),
    }
}

#[test]
fn a_report_on_another_step_changes_nothing() {
    assert!(matches!(Step::AskVolume.next(Host::Linux, Report::Restored), Step::AskVolume));
    let done = Step::Done(Ok(Outcome::AlreadyCompressed { before: 7 }));
    assert!(matches!(
        done.next(Host::Linux, Report::Exists(false)),
        Step::Done(Ok(Outcome::AlreadyCompressed { before: 7 }))
    ));
}

#[test]
fn detect_and_flags_error_on_a_missing_path() {
    // "/no/such/decmpfs/path/x.bin"
    assert!(probe(Err(io("statfs", missing()))).is_err(), "statfs of a missing path errors");
    let step = Step::ReadFlags.next(Host::Linux, Report::Flags(Err(io("lstat", missing()))));
    assert!(matches!(step, Step::Done(Err(_))), "lstat of a missing path errors");
    let step = Step::AskVolume.next(Host::Linux, Report::Volume(Err(io("statfs", missing()))));
    assert!(matches!(step, Step::Done(Err(_))));
}

#[test]
fn detect_rejects_a_non_apfs_filesystem() {
    // /dev is devfs (local, but not apfs/hfs) → Unsupported(Filesystem).
    let dev = Volume::MacOs { f_flags: 0x1000, f_fstypename: b"devfs\0\0\0\0\0\0\0\0\0\0\0".to_vec() };
    assert!(matches!(
        detect(&dev),
        Support::Unsupported(UnsupportedReason::Filesystem)
    ));
    assert!(matches!(
        probe(Ok(dev)),
        Ok(Support::Unsupported(UnsupportedReason::Filesystem))
    ));
}

#[test]
fn classify_fs_covers_every_branch() {
    // Non-local (e.g. a network mount) — no real mount needed.
    assert!(matches!(
        classify_fs(false, b"nfs"),
        Support::Unsupported(UnsupportedReason::NetworkOrOverlay)
    ));
    assert!(matches!(classify_fs(true, b"apfs"), Support::Supported));
    assert!(matches!(classify_fs(true, b"hfs"), Support::Supported));
    assert!(matches!(
        classify_fs(true, b"ext4"),
        Support::Unsupported(UnsupportedReason::Filesystem)
    ));
}

#[test]
fn every_volume_has_its_support() {
    assert_eq!(detect(&apfs()), Support::Supported);
    let remote = Volume::MacOs { f_flags: 0, f_fstypename: b"apfs\0".to_vec() };
    assert_eq!(
        detect(&remote),
        Support::Unsupported(UnsupportedReason::NetworkOrOverlay)
    );
    let unpadded = Volume::MacOs { f_flags: 0xffff_ffff, f_fstypename: b"hfs".to_vec() };
    assert_eq!(detect(&unpadded), Support::Supported);
    assert_eq!(detect(&Volume::Windows { flags: 0x10 }), Support::Supported);
    assert_eq!(
        detect(&Volume::Windows { flags: 0xef }),
        Support::Unsupported(UnsupportedReason::Filesystem)
    );
    assert_eq!(
        detect(&Volume::Other),
        Support::Unsupported(UnsupportedReason::PlatformBuild)
    );
}

#[test]
fn flags_and_signals_are_told_by_their_bit() {
    assert!(is_already_compressed(FileFlags::MacOs(0x20)));
    assert!(!is_already_compressed(FileFlags::MacOs(0xdf)));
    assert!(is_already_compressed(FileFlags::Linux(0x84)));
    assert!(!is_already_compressed(FileFlags::Linux(0x80)));
    assert!(is_already_compressed(FileFlags::Windows(0x800)));
    assert!(!is_already_compressed(FileFlags::Windows(0x20)));
    assert!(!is_already_compressed(FileFlags::Other));
    assert_eq!(compressed_on_disk(&Signal::MacOs(0x20)), Some(true));
    assert_eq!(compressed_on_disk(&Signal::MacOs(0)), Some(false));
    assert_eq!(compressed_on_disk(&Signal::Nothing), None);
    let extents = vec![0, 0, 8];
    assert_eq!(
        compressed_on_disk(&Signal::Linux { mapped: 3, extents: extents.clone() }),
        Some(true)
    );
    // Only what was mapped counts.
    assert_eq!(compressed_on_disk(&Signal::Linux { mapped: 2, extents }), Some(false));
}

#[test]
fn windows_failures_are_told_from_values() {
    let last = || failure(IoKind::Other, Some(5), "Access is denied.");
    assert!(matches!(attributes(0x20, last()), Ok(FileFlags::Windows(0x20))));
    assert_eq!(
        attributes(0xffff_ffff, last()).unwrap_err().message(),
        "io error at GetFileAttributesW: Access is denied."
    );
    assert_eq!(
        on_disk_bytes(Allocation::Words { low: 7, high: 2, last: last() }),
        Ok(0x2_0000_0007)
    );
    assert_eq!(
        on_disk_bytes(Allocation::Words { low: 0xffff_ffff, high: 0, last: last() })
            .unwrap_err()
            .message(),
        "io error at GetCompressedFileSizeW: Access is denied."
    );
    let none = failure(IoKind::Other, Some(0), "The operation completed successfully.");
    assert_eq!(
        on_disk_bytes(Allocation::Words { low: 0xffff_ffff, high: 1, last: none }),
        Ok(0x1_ffff_ffff)
    );
}

#[test]
fn measures_allocation_and_reads_magic() {
    assert!(on_disk_bytes(Allocation::Blocks(18)).unwrap() > 0, "allocated bytes reported");
    assert_eq!(on_disk_bytes(Allocation::Blocks(18)), Ok(9216));
    assert_eq!(on_disk_bytes(Allocation::Blocks(u64::MAX)), Ok(u64::MAX));
    assert_eq!(on_disk_bytes(Allocation::Length(9000)), Ok(9000));
    let step = Step::ReadMagic { before: 9216 }.next(Host::Linux, Report::Magic(Ok([0x7f; 4])));
    assert!(matches!(
        step,
        Step::Snapshot { before: 9216, magic: [0x7f, 0x7f, 0x7f, 0x7f] }
    ));
}

#[test]
fn errors_on_a_missing_path() {
    // "/no/such/verify/x"
    let step = Step::MeasureBefore.next(Host::Linux, Report::Size(Err(io("stat", missing()))));
    assert!(matches!(step, Step::Done(Err(_))));
    let step = Step::ReadMagic { before: 0 }.next(Host::Linux, Report::Magic(Err(io("open", missing()))));
    assert!(matches!(step, Step::Done(Err(_))));
}

#[test]
fn within_decmpfs_limit_rejects_oversized() {
    // No 4 GiB file needed — the predicate is pure.
    assert!(within_decmpfs_limit(MAX_RAW).is_ok());
    match within_decmpfs_limit(MAX_RAW + 1).unwrap_err() {
        Error::Io { source, .. } => assert_eq!(source.raw_os_error, Some(libc::EFBIG)),
        other => panic!("expected EFBIG Io, got {other:?}"),
    }
    assert_eq!(EFBIG, libc::EFBIG);
    assert_eq!(MAX_RAW, 3_900_000_000);
    // What it refuses is skipped.
    let mut f = file(apfs(), FileFlags::MacOs(0));
    f.applied = within_decmpfs_limit(MAX_RAW + 1);
    assert_eq!(
        run("addon.node", f).0.unwrap(),
        Outcome::Skipped { reason: SkipReason::TooLarge }
    );
}

#[test]
fn permission_errors_become_skipped() {
    for host in HOSTS {
        assert_eq!(
            classify_skip(host, &err(IoKind::PermissionDenied)),
            Some(SkipReason::PermissionDenied)
        );
        for errno in [1, 13, 30] {
            assert_eq!(
                classify_skip(host, &from_raw_os_error(errno)),
                Some(SkipReason::PermissionDenied),
                "errno {errno}"
            );
        }
    }
}

#[test]
fn busy_errors_become_skipped() {
    for host in HOSTS {
        for errno in [16, 26] {
            assert_eq!(
                classify_skip(host, &from_raw_os_error(errno)),
                Some(SkipReason::Busy),
                "errno {errno}"
            );
        }
    }
}

#[test]
fn a_sharing_violation_is_busy_on_windows() {
    for code in [32, 33] {
        let violation = failure(IoKind::Other, Some(code), "violation");
        assert_eq!(classify_skip(Host::Windows, &violation), Some(SkipReason::Busy));
        // EPIPE and EDOM elsewhere.
        assert_eq!(classify_skip(Host::Linux, &violation), None);
        assert_eq!(classify_skip(Host::MacOs, &violation), None);
    }
    let mut f = file(Volume::Windows { flags: 0x10 }, FileFlags::Windows(0));
    f.applied = Err(io("CreateFileW", failure(IoKind::Other, Some(32), "sharing violation")));
    assert_eq!(run("raw.node", f).0.unwrap(), Outcome::Skipped { reason: SkipReason::Busy });
}

#[test]
fn extents_are_asked_for_up_to_the_last() {
    assert_eq!(next_extent(None), None);
    assert_eq!(next_extent(Some((0x1000, 0x2000, 8))), Some(0x3000));
    assert_eq!(next_extent(Some((0x1000, 0x2000, 9))), None);
    assert_eq!(next_extent(Some((0x1000, 0, 0))), None);
    assert_eq!(next_extent(Some((u64::MAX, 1, 0))), None);
}

#[test]
fn efbig_becomes_too_large() {
    for host in HOSTS {
        assert_eq!(
            classify_skip(host, &from_raw_os_error(27)), // EFBIG
            Some(SkipReason::TooLarge)
        );
    }
}

#[test]
fn classify_outcome_covers_every_branch() {
    assert!(matches!(
        classify_outcome(false, 100, 50, None),
        Outcome::Skipped { reason: SkipReason::NotLoadable }
    ));
    // Allocated-bytes fallback (no backend signal).
    assert!(matches!(
        classify_outcome(true, 100, 40, None),
        Outcome::Compressed { before: 100, after: 40 }
    ));
    assert!(matches!(classify_outcome(true, 100, 100, None), Outcome::NoGain { .. }));
    // Backend signal overrides the size comparison both ways.
    assert!(matches!(
        classify_outcome(true, 100, 100, Some(true)),
        Outcome::Compressed { .. }
    ));
    assert!(matches!(
        classify_outcome(true, 100, 40, Some(false)),
        Outcome::NoGain { .. }
    ));
}

#[test]
fn unrelated_errors_propagate() {
    for host in HOSTS {
        assert_eq!(classify_skip(host, &err(IoKind::NotFound)), None);
        assert_eq!(classify_skip(host, &from_raw_os_error(2)), None); // ENOENT
    }
}

#[test]
fn error_formats_and_chains_its_source() {
    let io = Error::Io { context: "doing-x", source: failure(IoKind::Other, None, "other error") };
    assert!(io.message().contains("doing-x"));
    assert_eq!(io.message(), "io error at doing-x: other error");
    assert!(io.source().is_some());
    let nf = Error::NotFound("/p".to_string());
    assert!(nf.message().contains("not found"));
    assert!(nf.source().is_none());
}
