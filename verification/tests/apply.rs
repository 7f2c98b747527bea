//! Applying compression by way of a sibling.

use decmpfs::apply::{
    apply_inplace_linux, apply_inplace_macos, call_error, codec_name, interior_nul, CallFailure,
    LinuxApply, LinuxReport, MacApply, MacReport,
};
use decmpfs::backend::{block_range, build_resource_fork, compression_header};
use decmpfs::outcome::{Error, IoFailure, IoKind};

fn failed(code: i32) -> IoFailure {
    IoFailure { kind: IoKind::Other, raw_os_error: Some(code), message: format!("error {code}") }
}

fn located() -> LinuxReport {
    LinuxReport::Path { has_parent: true, name: Some("a.node".to_string()), pid: 42 }
}

fn linux_to_codec(data: &[u8]) -> LinuxApply {
    apply_inplace_linux()
        .next(LinuxReport::Bytes(Ok(data.to_vec())))
        .next(LinuxReport::Access(Ok(())))
        .next(located())
        .next(LinuxReport::Called(Ok(())))
}

#[test]
fn btrfs_goes_through_a_sibling() {
    let mut step = linux_to_codec(b"data");
    assert!(matches!(&step, LinuxApply::Codec { codec: 0, temp, data }
        if temp == ".a.node.decmpfs-42.tmp" && data == b"data"));
    step = step.next(LinuxReport::Called(Ok(())));
    assert!(matches!(&step, LinuxApply::Write { data, .. } if data == b"data"));
    step = step.next(LinuxReport::Called(Ok(())));
    assert!(matches!(step, LinuxApply::Sync { .. }));
    step = step.next(LinuxReport::Called(Ok(())));
    assert!(matches!(step, LinuxApply::Rename { .. }));
    step = step.next(LinuxReport::Called(Ok(())));
    assert!(matches!(step, LinuxApply::Done(Ok(()))));
}

#[test]
fn codecs_are_tried_in_order_before_the_bare_flag() {
    assert_eq!(codec_name(0), Some("zstd"));
    assert_eq!(codec_name(1), Some("lzo"));
    assert_eq!(codec_name(2), Some("zlib"));
    assert_eq!(codec_name(3), None);
    let mut step = linux_to_codec(b"data");
    for codec in 0..3usize {
        assert!(matches!(&step, LinuxApply::Codec { codec: c, .. } if *c == codec));
        step = step.next(LinuxReport::Called(Err(failed(95))));
    }
    assert!(matches!(step, LinuxApply::ReadFlags { .. }));
    step = step.next(LinuxReport::Flags(Ok(0x80)));
    assert!(matches!(&step, LinuxApply::SetFlags { flags: 0x84, .. }));
    step = step.next(LinuxReport::Called(Ok(())));
    assert!(matches!(&step, LinuxApply::Write { data, .. } if data == b"data"));
}

#[test]
fn btrfs_failures_remove_the_sibling_and_keep_their_context() {
    let expect = |step: LinuxApply, context: &str| match step {
        LinuxApply::Remove { temp, error } => {
            assert_eq!(temp, ".a.node.decmpfs-42.tmp");
            assert_eq!(error.message(), format!("io error at {context}: error 5"));
            let gone = LinuxApply::Remove { temp, error }.next(LinuxReport::Called(Ok(())));
            assert!(matches!(gone, LinuxApply::Done(Err(Error::Io { .. }))));
        }
        other => panic!("{other:?}"),
    };
    let fail = || LinuxReport::Called(Err(failed(5)));
    let ok = || LinuxReport::Called(Ok(()));
    let create = apply_inplace_linux()
        .next(LinuxReport::Bytes(Ok(vec![1])))
        .next(LinuxReport::Access(Ok(())))
        .next(located());
    expect(create.next(fail()), "create temp");
    let flags =
        || linux_to_codec(&[1]).next(fail()).next(fail()).next(fail());
    expect(flags().next(LinuxReport::Flags(Err(failed(5)))), "FS_IOC_GETFLAGS");
    expect(flags().next(LinuxReport::Flags(Ok(0))).next(fail()), "FS_IOC_SETFLAGS");
    let write = || linux_to_codec(&[1]).next(ok());
    expect(write().next(fail()), "write temp");
    expect(write().next(ok()).next(fail()), "fsync temp");
    expect(write().next(ok()).next(ok()).next(fail()), "rename");
}

#[test]
fn btrfs_needs_the_file_and_its_directory() {
    match apply_inplace_linux().next(LinuxReport::Bytes(Err(failed(2)))) {
        LinuxApply::Done(Err(e)) => assert_eq!(e.message(), "io error at read: error 2"),
        other => panic!("{other:?}"),
    }
    let read = || {
        apply_inplace_linux()
            .next(LinuxReport::Bytes(Ok(vec![])))
            .next(LinuxReport::Access(Ok(())))
    };
    match read().next(LinuxReport::Path { has_parent: false, name: None, pid: 1 }) {
        LinuxApply::Done(Err(e)) => {
            assert_eq!(e.message(), "io error at no parent dir: invalid input parameter")
        }
        other => panic!("{other:?}"),
    }
    match read().next(LinuxReport::Path { has_parent: true, name: None, pid: 1 }) {
        LinuxApply::Create { temp, .. } => assert_eq!(temp, ".addon.decmpfs-1.tmp"),
        other => panic!("{other:?}"),
    }
}

fn mac_path() -> MacReport {
    MacReport::Path {
        has_parent: true,
        name: Some("a.node".to_string()),
        pid: 7,
        last: failed(0),
    }
}

fn mac_created(has_mode: bool) -> MacApply {
    apply_inplace_macos()
        .next(MacReport::Bytes(Ok(b"raw bytes".to_vec())))
        .next(MacReport::Called(Ok(())))
        .next(MacReport::Block(Some(b"enc".to_vec())))
        .next(mac_path())
        .next(MacReport::Mode(has_mode))
}

#[test]
fn apfs_goes_through_a_sibling() {
    for has_mode in [true, false] {
        let mut step = mac_created(has_mode);
        match &step {
            MacApply::Create { temp, header, fork, .. } => {
                assert_eq!(temp, ".a.node.decmpfs-7.tmp");
                assert_eq!(header, &compression_header(9));
                assert_eq!(fork, b"\x08\0\0\0\x0b\0\0\0enc");
            }
            other => panic!("{other:?}"),
        }
        step = step.next(MacReport::Called(Ok(())));
        assert!(matches!(&step, MacApply::SetHeader { .. }));
        step = step.next(MacReport::Called(Ok(())));
        assert!(matches!(&step, MacApply::SetFork { .. }));
        step = step.next(MacReport::Called(Ok(())));
        assert!(matches!(&step, MacApply::SetFlag { .. }));
        step = step.next(MacReport::Called(Ok(())));
        if has_mode {
            assert!(matches!(&step, MacApply::SetMode { .. }));
            // Whether the permissions could be set does not matter.
            step = step.next(MacReport::Called(Err(CallFailure::Failed(failed(1)))));
        }
        assert!(matches!(&step, MacApply::Rename { .. }));
        step = step.next(MacReport::Called(Ok(())));
        assert!(matches!(step, MacApply::Done(Ok(()))));
    }
}

#[test]
fn apfs_failures_remove_the_sibling_and_keep_their_context() {
    let fail = || MacReport::Called(Err(CallFailure::Failed(failed(5))));
    let ok = || MacReport::Called(Ok(()));
    let expect = |step: MacApply, context: &str| match step {
        MacApply::Remove { temp, error } => {
            assert_eq!(error.message(), format!("io error at {context}: error 5"));
            let gone = MacApply::Remove { temp, error }.next(MacReport::Called(Ok(())));
            assert!(matches!(gone, MacApply::Done(Err(Error::Io { .. }))));
        }
        other => panic!("{other:?}"),
    };
    let at = |n: usize| {
        let mut step = mac_created(false);
        for _ in 0..n {
            step = step.next(ok());
        }
        step
    };
    expect(at(0).next(fail()), "create temp");
    expect(at(1).next(fail()), "setxattr");
    expect(at(2).next(fail()), "setxattr");
    expect(at(3).next(fail()), "fchflags");
    expect(at(4).next(fail()), "rename");
}

#[test]
fn apfs_stops_in_front_of_the_sibling() {
    let done = |step: MacApply| match step {
        MacApply::Done(Err(e)) => e.message(),
        other => panic!("{other:?}"),
    };
    assert_eq!(
        done(apply_inplace_macos().next(MacReport::Bytes(Err(failed(2))))),
        "io error at read: error 2"
    );
    let read = || apply_inplace_macos().next(MacReport::Bytes(Ok(vec![1, 2])));
    assert_eq!(
        done(read().next(MacReport::Called(Err(CallFailure::Failed(failed(13)))))),
        "io error at access: error 13"
    );
    let encoding = || read().next(MacReport::Called(Ok(())));
    assert_eq!(
        done(encoding().next(MacReport::Block(None))),
        "io error at lzvn encode: invalid data"
    );
    let encoded = || encoding().next(MacReport::Block(Some(vec![1])));
    let path = |has_parent: bool| MacReport::Path { has_parent, name: None, pid: 1, last: failed(9) };
    assert_eq!(done(encoded().next(path(false))), "io error at parent: error 9");
    assert_eq!(done(encoded().next(path(true))), "io error at file_name: error 9");
}

#[test]
fn cstring_rejects_an_interior_nul() {
    match interior_nul() {
        Error::Io { context, source } => {
            assert_eq!(context, "path has interior NUL");
            assert_eq!(source.kind, IoKind::InvalidInput);
        }
        other => panic!("{other:?}"),
    }
    assert_eq!(call_error("access", CallFailure::InteriorNul), interior_nul());
    assert_eq!(
        call_error("access", CallFailure::Failed(failed(3))).message(),
        "io error at access: error 3"
    );
}

#[test]
fn header_has_the_documented_bytes() {
    assert_eq!(
        compression_header(0x0102_0304_0506_0708),
        b"fpmc\x08\0\0\0\x08\x07\x06\x05\x04\x03\x02\x01"
    );
}

#[test]
fn btrfs_asks_before_it_replaces_a_file() {
    let asked = apply_inplace_linux().next(LinuxReport::Bytes(Ok(b"data".to_vec())));
    assert!(matches!(&asked, LinuxApply::CheckAccess { data } if data == b"data"));
    match asked.next(LinuxReport::Access(Err(CallFailure::Failed(failed(13))))) {
        LinuxApply::Done(Err(e)) => assert_eq!(e.message(), "io error at access: error 13"),
        other => panic!("{other:?}"),
    }
    let asked = apply_inplace_linux().next(LinuxReport::Bytes(Ok(vec![])));
    match asked.next(LinuxReport::Access(Err(CallFailure::InteriorNul))) {
        LinuxApply::Done(Err(e)) => assert_eq!(e, interior_nul()),
        other => panic!("{other:?}"),
    }
}

#[test]
fn blocks_cover_a_file() {
    assert_eq!(block_range(200_000, 0), Some((0, 65536)));
    assert_eq!(block_range(200_000, 2), Some((131072, 196608)));
    assert_eq!(block_range(200_000, 3), Some((196608, 200_000)));
    assert_eq!(block_range(200_000, 4), None);
    assert_eq!(block_range(65536, 0), Some((0, 65536)));
    assert_eq!(block_range(65536, 1), None);
    assert_eq!(block_range(1, 0), Some((0, 1)));
    assert_eq!(block_range(0, 0), None);
    assert_eq!(block_range(usize::MAX, usize::MAX), None);
}

#[test]
fn every_block_of_a_file_is_encoded() {
    let raw: Vec<u8> = (0..150_000u32).map(|i| i as u8).collect();
    let mut step = apply_inplace_macos()
        .next(MacReport::Bytes(Ok(raw.clone())))
        .next(MacReport::Called(Ok(())));
    let mut seen = Vec::new();
    while let MacApply::Encode { raw, from, to, .. } = &step {
        let chunk = raw[*from..*to].to_vec();
        seen.extend_from_slice(&chunk);
        let encoded = vec![chunk.len() as u8; 3];
        step = step.next(MacReport::Block(Some(encoded)));
    }
    assert_eq!(seen, raw);
    match step {
        MacApply::Locate { header, fork } => {
            assert_eq!(header, compression_header(150_000));
            assert_eq!(fork.len(), 16 + 9);
        }
        other => panic!("{other:?}"),
    }
    // An empty file has no block.
    let step = apply_inplace_macos()
        .next(MacReport::Bytes(Ok(vec![])))
        .next(MacReport::Called(Ok(())));
    assert!(matches!(step, MacApply::Locate { fork, .. } if fork == [4, 0, 0, 0]));
}

#[test]
fn resource_fork_has_the_documented_layout() {
    // Three blocks: a table of four offsets, then the blocks.
    let blocks = vec![vec![1u8; 3], vec![2u8; 5], vec![3u8; 1]];
    let fork = build_resource_fork(&blocks).unwrap();
    let mut want = Vec::new();
    for offset in [16u32, 19, 24, 25] {
        want.extend_from_slice(&offset.to_le_bytes());
    }
    want.extend_from_slice(&[1, 1, 1, 2, 2, 2, 2, 2, 3]);
    assert_eq!(fork, want);
    // Without blocks the table is all there is.
    assert_eq!(build_resource_fork(&vec![]).unwrap(), 4u32.to_le_bytes());
}

/// Runs the steps on btrfs over a file and its sibling, where the call with this number
/// fails, unless it is the removal: what came of it, the file's bytes and flags, and the
/// sibling.
fn run_btrfs(codec: bool, fail: Option<usize>) -> (LinuxApply, Vec<u8>, i64, Option<Vec<u8>>) {
    let mut file = (b"data".to_vec(), 0i64);
    let mut temp: Option<(Vec<u8>, i64)> = None;
    let mut step = apply_inplace_linux();
    let mut calls = 0;
    while !matches!(step, LinuxApply::Done(_)) {
        let ok = Some(calls) != fail || matches!(step, LinuxApply::Remove { .. });
        let mut called = ok;
        let report = match &step {
            LinuxApply::Read => Some(LinuxReport::Bytes(Ok(file.0.clone()))),
            LinuxApply::CheckAccess { .. } => Some(LinuxReport::Access(Ok(()))),
            LinuxApply::Locate { .. } => Some(located()),
            LinuxApply::ReadFlags { .. } => Some(LinuxReport::Flags(Ok(0))),
            _ => None,
        };
        if report.is_none() {
            calls += 1;
        }
        match &step {
            LinuxApply::Create { .. } if ok => temp = Some((Vec::new(), 0)),
            LinuxApply::Codec { .. } => {
                called = codec && ok;
                if called {
                    temp.as_mut().unwrap().1 = 4;
                }
            }
            LinuxApply::SetFlags { flags, .. } if ok => temp.as_mut().unwrap().1 = *flags,
            LinuxApply::Write { data, .. } => {
                let kept = if ok { data.len() } else { 1 };
                temp.as_mut().unwrap().0 = data[..kept].to_vec();
            }
            LinuxApply::Rename { .. } if ok => file = temp.take().unwrap(),
            LinuxApply::Remove { .. } => temp = None,
            _ => {}
        }
        let outcome = if called { Ok(()) } else { Err(failed(5)) };
        step = step.next(report.unwrap_or(LinuxReport::Called(outcome)));
    }
    (step, file.0, file.1, temp.map(|t| t.0))
}

#[test]
fn a_run_on_btrfs_is_all_or_nothing() {
    for codec in [true, false] {
        let (done, bytes, flags, temp) = run_btrfs(codec, None);
        assert!(matches!(done, LinuxApply::Done(Ok(()))));
        assert_eq!((bytes, flags, temp), (b"data".to_vec(), 4, None));
    }
    // The sibling is created, asked for a codec, written, flushed and renamed.
    for fail in [0, 2, 3, 4] {
        let (done, bytes, flags, temp) = run_btrfs(true, Some(fail));
        assert!(matches!(done, LinuxApply::Done(Err(Error::Io { .. }))), "{fail}");
        assert_eq!((bytes, flags, temp), (b"data".to_vec(), 0, None), "{fail}");
    }
}

/// Runs the steps on APFS, where the call on the sibling with this number fails, unless it
/// is the removal: what came of it, whether the sibling took the file's place, and whether
/// there is a sibling.
fn run_apfs(fail: Option<usize>) -> (MacApply, bool, bool) {
    let mut step = mac_created(true);
    let (mut replaced, mut sibling, mut calls) = (false, false, 0);
    while !matches!(step, MacApply::Done(_)) {
        let ok = Some(calls) != fail || matches!(step, MacApply::Remove { .. });
        calls += 1;
        match &step {
            MacApply::Create { .. } if ok => sibling = true,
            MacApply::Rename { .. } if ok => {
                replaced = true;
                sibling = false;
            }
            MacApply::Remove { .. } => sibling = false,
            _ => {}
        }
        let called = if ok { Ok(()) } else { Err(CallFailure::Failed(failed(5))) };
        step = step.next(MacReport::Called(called));
    }
    (step, replaced, sibling)
}

#[test]
fn a_run_on_apfs_is_all_or_nothing() {
    // The fifth call sets the permissions, which may fail.
    for fail in [None, Some(4)] {
        let (done, replaced, sibling) = run_apfs(fail);
        assert!(matches!(done, MacApply::Done(Ok(()))) && replaced && !sibling);
    }
    for fail in [0, 1, 2, 3, 5] {
        let (done, replaced, sibling) = run_apfs(Some(fail));
        assert!(matches!(done, MacApply::Done(Err(Error::Io { .. }))), "{fail}");
        assert!(!replaced && !sibling, "{fail}");
    }
}
