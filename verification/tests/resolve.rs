//! Resolving a stub.

use decmpfs::addon::{encode, fnv1a64};
use decmpfs::outcome::{io, IoFailure, IoKind, Support, UnsupportedReason};
use decmpfs::platform::Host;
use decmpfs::resolve::{after_decode, resolve_self, Found, Resolving};
use decmpfs::section::build_section_payload;
use decmpfs::synthetic::synthetic_object_with_section;

const HOSTS: [Host; 3] = [Host::MacOs, Host::Linux, Host::Windows];

// A minimal "loadable" payload: native magic so is_native_binary accepts it.
fn fake_addon() -> Vec<u8> {
    let mut raw = vec![0x7f, 0x45, 0x4c, 0x46]; // ELF
    raw.extend_from_slice(&[7u8; 9000]);
    raw
}

fn stub_with_section(host: Host, raw: &[u8]) -> Vec<u8> {
    let payload = encode(raw, 3).unwrap();
    let body = build_section_payload(fnv1a64(raw), &payload);
    synthetic_object_with_section(host, &body)
}

// A stub's file, a cache, and what can be done to them.
struct Disk {
    stub: Vec<u8>,
    stub_compressed: bool,
    cache: Vec<(u64, Vec<u8>)>,
    support: Support,
    can_replace: bool,
    can_make_dir: bool,
    can_write: bool,
    decoded: bool,
}

fn disk(stub: Vec<u8>, support: Support) -> Disk {
    Disk {
        stub,
        stub_compressed: false,
        cache: vec![],
        support,
        can_replace: true,
        can_make_dir: true,
        can_write: true,
        decoded: false,
    }
}

const UNSUPPORTED: Support = Support::Unsupported(UnsupportedReason::Filesystem);

fn run(host: Host, d: &mut Disk) -> Option<u64> {
    let mut step = resolve_self();
    for _ in 0..20 {
        let found = match &step {
            Resolving::ReadImage => Found::Image(Some(d.stub.clone())),
            Resolving::CheckCache { section } => {
                Found::Cached(d.cache.iter().any(|(hash, _)| *hash == section.content_hash))
            }
            Resolving::Probe { .. } => {
                d.decoded = true;
                Found::Probed(Ok(d.support))
            }
            Resolving::Sweep { .. } => Found::Swept,
            Resolving::Replace { raw, .. } => {
                if d.can_replace {
                    d.stub = raw.clone();
                }
                Found::Replaced(d.can_replace)
            }
            Resolving::CompressSelf { .. } => {
                d.stub_compressed = true;
                Found::Compressed
            }
            Resolving::MakeCacheDir { .. } => Found::DirMade(d.can_make_dir),
            Resolving::WriteCache { content_hash, raw } => {
                if d.can_write {
                    d.cache.push((*content_hash, raw.clone()));
                }
                Found::Written(d.can_write)
            }
            Resolving::CompressCache { .. } => Found::Compressed,
            Resolving::Done(_) => Found::Swept,
        };
        step = step.next(host, found);
    }
    match step {
        Resolving::Done(hash) => hash,
        _ => panic!("not done"),
    }
}

#[test]
fn resolve_self_returns_none_without_a_section() {
    for host in HOSTS {
        let mut d = disk(vec![0u8; 8], Support::Supported); // not a parseable object → no section
        assert!(run(host, &mut d).is_none(), "no __DECMPFS section → None");
        assert_eq!(d.stub, [0u8; 8]);
        assert!(!d.decoded);
    }
    let gone = resolve_self().next(Host::Linux, Found::Image(None));
    assert!(matches!(gone, Resolving::Done(None)));
}

#[test]
fn resolve_self_self_rewrites_on_a_compressing_fs() {
    let raw = fake_addon();
    for host in HOSTS {
        for support in [Support::Supported, Support::AlreadyCompressed] {
            let mut d = disk(stub_with_section(host, &raw), support);
            let loaded = run(host, &mut d).expect("resolve_self self-rewrite");
            assert_eq!(d.stub, raw, "self_path is now the raw addon");
            assert!(d.stub_compressed, "the rewritten file is FS-compressed");
            assert_eq!(loaded, fnv1a64(&raw));
            assert_eq!(d.cache, vec![(loaded, raw.clone())], "cache holds the raw addon");
        }
    }
}

#[test]
fn resolve_self_rewrites_the_stub_in_place_on_btrfs() {
    let mut raw = vec![0x7f, 0x45, 0x4c, 0x46];
    let pattern = b"napi-rs decmpfs compressible addon body pattern ";
    while raw.len() < 2 * 1024 * 1024 {
        raw.extend_from_slice(pattern);
    }
    raw.truncate(2 * 1024 * 1024);
    let mut d = disk(stub_with_section(Host::Linux, &raw), Support::Supported);
    let loaded = run(Host::Linux, &mut d).expect("resolve_self on btrfs");
    assert!(d.stub == raw, "self_path is now the raw addon");
    assert!(d.stub_compressed, "self-rewritten file must be FS-compressed");
    assert!(d.cache == vec![(loaded, raw)], "cache holds the raw addon");
}

#[test]
fn resolve_self_falls_back_to_cache_when_the_self_rewrite_is_blocked() {
    let raw = fake_addon();
    let stub = stub_with_section(Host::Linux, &raw);
    let mut d = disk(stub.clone(), Support::Supported);
    d.can_replace = false;
    let loaded =
        run(Host::Linux, &mut d).expect("blocked self-rewrite falls back to the cache, not None");
    assert_eq!(d.cache, vec![(loaded, raw)], "the cache holds the decoded addon");
    assert_eq!(d.stub, stub, "self_path is left untouched when the rewrite is blocked");
    assert!(!d.stub_compressed);
}

#[test]
fn resolve_self_uses_the_cache_where_nothing_compresses() {
    let raw = fake_addon();
    let stub = stub_with_section(Host::Linux, &raw);
    let mut d = disk(stub.clone(), UNSUPPORTED);
    assert_eq!(run(Host::Linux, &mut d), Some(fnv1a64(&raw)));
    assert_eq!(d.stub, stub);
    assert_eq!(d.cache.len(), 1);
    // A file system that cannot be asked counts as one that does not compress.
    let section = resolve_self()
        .next(Host::Linux, Found::Image(Some(stub)))
        .next(Host::Linux, Found::Cached(false));
    let failure =
        IoFailure { kind: IoKind::Other, raw_os_error: None, message: "statfs".to_string() };
    let step = section.next(Host::Linux, Found::Probed(Err(io("statfs", failure))));
    assert!(matches!(step, Resolving::Sweep { compressing: false, .. }));
}

#[test]
fn resolve_self_returns_a_warm_cache_hit() {
    let raw = fake_addon();
    let stub = stub_with_section(Host::MacOs, &raw);
    let mut d = disk(stub.clone(), Support::Supported);
    d.cache.push((fnv1a64(&raw), raw.clone()));
    assert_eq!(run(Host::MacOs, &mut d), Some(fnv1a64(&raw)), "warm cache hit");
    assert_eq!(d.stub, stub, "no self-rewrite on a hit");
    assert!(!d.decoded);
}

#[test]
fn resolve_self_keeps_the_original_when_decode_is_garbage() {
    // A valid section whose payload isn't a zstd frame → decode fails → None.
    let junk = b"definitely not a zstd frame";
    for host in HOSTS {
        let body = build_section_payload(fnv1a64(junk), junk);
        let file = synthetic_object_with_section(host, &body);
        let mut d = disk(file.clone(), Support::Supported);
        assert!(run(host, &mut d).is_none());
        assert_eq!(d.stub, file, "original untouched");
        assert!(d.cache.is_empty());
    }
}

#[test]
fn resolve_self_rejects_a_non_native_payload() {
    // The section payload decodes cleanly, but the bytes aren't a native binary.
    let junk = b"this is plain text, not ELF/Mach-O/PE";
    for host in HOSTS {
        let file = stub_with_section(host, junk);
        let mut d = disk(file.clone(), Support::Supported);
        assert!(run(host, &mut d).is_none());
        assert_eq!(d.stub, file);
    }
    assert!(matches!(after_decode(1, true, Some(b"NAPC".to_vec())), Resolving::Done(None)));
    assert!(matches!(after_decode(1, true, None), Resolving::Done(None)));
}

#[test]
fn resolve_self_needs_a_cache_it_can_write() {
    let raw = fake_addon();
    let mut d = disk(stub_with_section(Host::Windows, &raw), UNSUPPORTED);
    d.can_make_dir = false;
    assert_eq!(run(Host::Windows, &mut d), None);
    d.can_make_dir = true;
    d.can_write = false;
    assert_eq!(run(Host::Windows, &mut d), None);
}
