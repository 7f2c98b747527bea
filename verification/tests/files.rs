//! Replacing files without ever leaving a partial one.

use decmpfs::files::{
    is_stale_stub, old_name, output_temp_name, replace_self, restore, temp_name, write_atomic,
    Replacing, Writing,
};

// What a file and its sibling hold.
#[derive(Debug, Default)]
struct Slot {
    file: Option<Vec<u8>>,
    temp: Option<Vec<u8>>,
}

// Writes `data`, failing at step `fail`.
fn write(mut step: Writing, slot: &mut Slot, data: &[u8], fail: Option<usize>) -> bool {
    let held = slot.file.clone();
    for n in 0..10 {
        let ok = fail != Some(n);
        match &step {
            Writing::Create { .. } if ok => slot.temp = Some(vec![]),
            Writing::Fill { .. } => {
                slot.temp = Some(if ok { data.to_vec() } else { data[..data.len() / 2].to_vec() })
            }
            Writing::Rename { .. } if ok => slot.file = slot.temp.take(),
            Writing::Remove { .. } if ok => slot.temp = None,
            Writing::Done(written) => return *written,
            _ => {}
        }
        assert!(slot.file == held || slot.file.as_deref() == Some(data));
        step = step.next(ok);
    }
    panic!("not done");
}

#[test]
fn names_of_siblings() {
    assert_eq!(temp_name("x.node", 17), ".x.node.decmpfs-17.tmp");
    assert_eq!(
        output_temp_name(Some("o.node".to_string()), 4_294_967_295),
        ".o.node.napi-compress-4294967295.tmp"
    );
    assert_eq!(output_temp_name(None, 0), ".out.node.napi-compress-0.tmp");
    assert_eq!(old_name("addon.node", 4321), "addon.node.4321.old");
}

#[test]
fn write_atomic_fails_when_the_temp_cant_be_created() {
    // A missing parent dir can't hold the sibling temp: "/no/such/dir/x.node".
    let mut slot = Slot::default();
    let start = write_atomic(true, Some("x.node".to_string()), 1);
    assert!(
        !write(start, &mut slot, b"data", Some(0)),
        "write_atomic fails when it can't create the temp"
    );
    assert!(slot.file.is_none() && slot.temp.is_none());
}

#[test]
fn write_atomic_fails_when_the_target_is_a_directory() {
    // The sibling temp is created fine, but rename(temp, target) fails because the
    // target is an existing directory (EISDIR) — covers the rename-failure branch.
    let mut slot = Slot::default();
    let start = write_atomic(true, Some("blocked".to_string()), 1);
    assert!(
        !write(start, &mut slot, b"data", Some(3)),
        "write_atomic fails when the rename target is a directory"
    );
    assert!(slot.temp.is_none());
}

#[test]
fn write_atomic_needs_a_directory_and_a_name() {
    assert!(matches!(write_atomic(false, Some("x".to_string()), 1), Writing::Done(false)));
    assert!(matches!(write_atomic(true, None, 1), Writing::Done(false)));
    assert!(matches!(restore(false, 1), Writing::Done(false)));
}

#[test]
fn a_write_is_all_or_nothing() {
    for fail in [None, Some(0), Some(1), Some(2), Some(3)] {
        let mut slot = Slot { file: Some(b"held".to_vec()), temp: None };
        let start = write_atomic(true, Some("x".to_string()), 1);
        let written = write(start, &mut slot, b"new data", fail);
        assert_eq!(written, fail.is_none());
        let want: &[u8] = if written { b"new data" } else { b"held" };
        assert_eq!(slot.file.as_deref(), Some(want));
        assert!(slot.temp.is_none());
    }
}

#[test]
fn restore_writes_the_snapshot_back() {
    let mut slot = Slot { file: Some(b"corrupted-by-a-broken-backend".to_vec()), temp: None };
    let start = restore(true, 99);
    assert!(matches!(&start, Writing::Create { temp } if temp == ".decmpfs-restore-99.tmp"));
    assert!(write(start, &mut slot, b"the original loadable bytes", None));
    assert_eq!(slot.file.unwrap(), b"the original loadable bytes");
}

#[test]
fn sweep_old_removes_stale_old_stubs_only() {
    assert!(is_stale_stub(b"addon.node.4321.old"), "stale .old removed");
    assert!(!is_stale_stub(b"addon.node") && !is_stale_stub(b"notes.txt"), "real files kept");
    assert!(!is_stale_stub(b"addon.old"));
    assert!(!is_stale_stub(b"addon.node.4321.older"));
    assert!(!is_stale_stub(b".old"));
    // Only a process's number stands between.
    assert!(!is_stale_stub(b"addon.node.old"));
    assert!(!is_stale_stub(b".node.old"));
    assert!(!is_stale_stub(b"addon.node..old"));
    assert!(!is_stale_stub(b"addon.node.12a.old"));
    assert!(!is_stale_stub(b"addon.node.1.2.old"));
    assert!(!is_stale_stub(b"addon.4321.old"));
    assert!(!is_stale_stub(b"node.4321.old"));
    assert!(is_stale_stub(b".node.7.old"));
    assert!(is_stale_stub(b"\xff.node.1.node.0.old"));
    assert!(is_stale_stub(old_name("x.node", 1).as_bytes()));
}

#[test]
fn a_stub_is_replaced_or_kept() {
    // The steps that fail, what was reported, and what stands at the stub's name.
    let cases: [(&[usize], bool, &[u8]); 4] =
        [(&[], true, b"raw"), (&[0], false, b"stub"), (&[1], false, b"stub"), (&[2], true, b"raw")];
    for (fails, want, held) in cases {
        let mut stub: Option<Vec<u8>> = Some(b"stub".to_vec());
        let mut old: Option<Vec<u8>> = None;
        let mut step = replace_self(Some("x.node".to_string()), 5);
        assert!(matches!(&step, Replacing::MoveAway { old } if old == "x.node.5.old"));
        let mut n = 0;
        let replaced = loop {
            let ok = !fails.contains(&n);
            match &step {
                Replacing::MoveAway { .. } if ok => old = stub.take(),
                Replacing::Write { .. } if ok => stub = Some(b"raw".to_vec()),
                Replacing::RollBack { .. } if ok => stub = old.take(),
                Replacing::Cleanup { .. } if ok => old = None,
                Replacing::Done(replaced) => break *replaced,
                _ => {}
            }
            step = step.next(ok);
            n += 1;
        };
        assert_eq!(replaced, want);
        assert_eq!(stub.as_deref(), Some(held));
    }
    assert!(matches!(replace_self(None, 5), Replacing::Done(false)));
}
