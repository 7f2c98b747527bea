//! Where a decoded addon is cached.

use decmpfs::cache::{
    cache_name, cache_path, cache_subdir, is_cache_off, nearest_node_modules, needs_workspace,
    resolve_cache_dir, workspace_markers, workspace_node_modules, Ancestor, Base, Modules, Place,
};
use decmpfs::platform::Host;
use decmpfs::text::{contains, decimal, hex16};

fn dir(name: &str) -> Ancestor {
    Ancestor { name: Some(name.to_string()), markers: vec![false; 5], manifest: None }
}

// The directories above a file, its own first.
fn above(path: &str) -> Vec<Ancestor> {
    let mut dirs: Vec<Ancestor> =
        path.split('/').filter(|part| !part.is_empty()).map(dir).collect();
    dirs.pop();
    dirs.reverse();
    dirs.push(Ancestor { name: None, markers: vec![false; 5], manifest: None });
    dirs
}

fn mark(dirs: &mut [Ancestor], i: usize, marker: &str) {
    let at = workspace_markers().iter().position(|m| m == marker).unwrap();
    dirs[i].markers[at] = true;
}

fn setting(value: &str) -> Option<String> {
    Some(value.to_string())
}

// A place as a path, with the temporary directory and the ancestors spelled out.
fn path_of(place: &Place, dirs: &[Ancestor]) -> String {
    let mut path = match &place.base {
        Base::Temp => "/tmp".to_string(),
        Base::Given(path) => path.clone(),
        Base::Ancestor(i) => {
            let mut path = String::new();
            for dir in dirs[*i..].iter().rev() {
                if let Some(name) = &dir.name {
                    path.push('/');
                    path.push_str(name);
                }
            }
            path
        }
    };
    for part in &place.parts {
        path.push('/');
        path.push_str(part);
    }
    path
}

fn cache_dir(value: Option<&str>, dirs: &Vec<Ancestor>) -> Option<String> {
    let subdir = cache_subdir(Host::Linux, 1000);
    let place = resolve_cache_dir(&value.map(str::to_string), subdir, dirs)?;
    Some(path_of(&place, dirs))
}

#[test]
fn cache_dir_defaults_to_tmp_and_honors_overrides() {
    let dirs = above("/whatever/addon.node");
    let own = Some("/tmp/napi-rs-native-1000".to_string());
    assert_eq!(cache_dir(None, &dirs), own);
    assert_eq!(cache_dir(Some("tmpdir"), &dirs), own);
    assert_eq!(cache_dir(Some(""), &dirs), own);
    assert_eq!(
        cache_dir(Some("/custom/dir"), &dirs),
        Some("/custom/dir/napi-rs-native-1000".to_string())
    );
    // The /tmp subdir is per-uid, so users never share a cache there.
    assert!(cache_subdir(Host::Linux, 1000).contains("napi-rs-native"));
    assert_ne!(cache_subdir(Host::MacOs, 501), cache_subdir(Host::MacOs, 502));
    assert_eq!(cache_subdir(Host::Windows, 1000), "napi-rs-native");
    assert_eq!(cache_subdir(Host::Other, 1000), "napi-rs-native");
    // 0 / false / none → the bare temp dir (no persistent subdir).
    for off in ["0", "false", "none"] {
        assert_eq!(cache_dir(Some(off), &dirs), Some("/tmp".to_string()), "{off}");
        assert!(is_cache_off(&setting(off)));
    }
    assert!(!is_cache_off(&setting("00")) && !is_cache_off(&None));
}

#[test]
fn cache_dir_resolves_node_modules_and_workspace_modes() {
    let mut dirs = above("/root/node_modules/addon/addon.node");
    mark(&mut dirs, 2, "pnpm-workspace.yaml");
    let want = Some("/root/node_modules/.cache/napi-rs-native-1000".to_string());
    assert_eq!(cache_dir(Some("node_modules"), &dirs), want);
    assert_eq!(cache_dir(Some("workspace"), &dirs), want);
    assert!(needs_workspace(&setting("workspace")) && !needs_workspace(&setting("node_modules")));
    let bare = above("/root/addon.node");
    assert_eq!(cache_dir(Some("node_modules"), &bare), None);
    assert_eq!(cache_dir(Some("workspace"), &bare), None);
}

#[test]
fn cache_path_uses_a_per_process_name_when_caching_is_off() {
    let dirs = above("/tmp/addon.node");
    let stem = || Some("addon".to_string());
    let subdir = || cache_subdir(Host::Linux, 1000);
    let (place, name) =
        cache_path(&setting("0"), subdir(), &dirs, stem(), 0xdead_beef, 4321).unwrap();
    assert!(name.contains("4321"), "no-cache uses a per-pid name: {name}");
    assert_eq!(name, "addon-4321.node");
    assert_eq!(path_of(&place, &dirs), "/tmp");
    let (place, hashed) =
        cache_path(&setting("tmpdir"), subdir(), &dirs, stem(), 0xdead_beef, 4321).unwrap();
    assert!(hashed.contains("deadbeef"), "default names by content hash");
    assert_eq!(hashed, "addon-00000000deadbeef.node");
    assert_eq!(path_of(&place, &dirs), "/tmp/napi-rs-native-1000");
    // A path without a file name has no cache file, nor has one without a directory.
    assert!(cache_path(&None, subdir(), &dirs, None, 1, 1).is_none());
    assert!(cache_path(&setting("node_modules"), subdir(), &dirs, stem(), 1, 1).is_none());
}

#[test]
fn names_tell_contents_apart() {
    assert_ne!(cache_name("a", 1, false, 9), cache_name("a", 2, false, 9));
    assert_eq!(cache_name("a", 1, true, 9), cache_name("a", 2, true, 9));
    assert_eq!(hex16(0), "0000000000000000");
    assert_eq!(hex16(u64::MAX), "ffffffffffffffff");
    assert_eq!(decimal(0), "0");
    assert_eq!(decimal(u64::MAX), "18446744073709551615");
}

#[test]
fn nearest_and_workspace_node_modules() {
    let mut dirs = above("/root/node_modules/.pnpm/dep@1/node_modules/addon/addon.node");
    mark(&mut dirs, 5, "pnpm-workspace.yaml");
    // nearest: the innermost node_modules ancestor.
    assert_eq!(nearest_node_modules(&dirs), Some(1));
    assert_eq!(
        path_of(&Place { base: Base::Ancestor(1), parts: vec![] }, &dirs),
        "/root/node_modules/.pnpm/dep@1/node_modules"
    );
    // workspace: the manifest root's node_modules.
    assert_eq!(workspace_node_modules(&dirs), Some(Modules::Within(5)));
    assert_eq!(dirs[5].name.as_deref(), Some("root"));
}

#[test]
fn node_modules_helpers_handle_absence() {
    // No node_modules ancestor at all.
    assert_eq!(nearest_node_modules(&above("/tmp/no/nm/here.node")), None);
    assert_eq!(workspace_node_modules(&above("/tmp/no/nm/here.node")), None);
    // node_modules present but no workspace marker → topmost node_modules.
    let dirs = above("/root/node_modules/pkg/node_modules/deep/a.node");
    assert_eq!(workspace_node_modules(&dirs), Some(Modules::Itself(3)));
    assert_eq!(dirs[4].name.as_deref(), Some("root"));
}

#[test]
fn workspace_node_modules_finds_a_marker_file() {
    for marker in workspace_markers() {
        let mut dirs = above("/root/node_modules/pkg/a.node");
        mark(&mut dirs, 2, &marker);
        assert_eq!(workspace_node_modules(&dirs), Some(Modules::Within(2)), "{marker}");
    }
    assert!(workspace_markers().iter().any(|m| m == "lerna.json"));
}

#[test]
fn workspace_node_modules_finds_package_json_workspaces() {
    let mut dirs = above("/root/node_modules/pkg/a.node");
    dirs[2].manifest = Some(b"{\"workspaces\":[\"a\"]}\n".to_vec());
    assert_eq!(workspace_node_modules(&dirs), Some(Modules::Within(2)));
    // The quoted word is looked for, whether it is a key or not.
    dirs[2].manifest = Some(b"{\"name\":\"workspaces\"}".to_vec());
    assert_eq!(workspace_node_modules(&dirs), Some(Modules::Within(2)));
    // A manifest without it is no root.
    dirs[2].manifest = Some(b"{\"name\":\"my workspaces\"}".to_vec());
    assert_eq!(workspace_node_modules(&dirs), Some(Modules::Itself(1)));
}

#[test]
fn bytes_are_found_wherever_they_stand() {
    assert!(contains(b"abc", b"") && contains(b"", b""));
    assert!(contains(b"abcd", b"cd") && contains(b"abcd", b"ab"));
    assert!(!contains(b"abcd", b"ac") && !contains(b"a", b"ab"));
}
