//! Where a decoded addon is cached.

use vstd::prelude::*;
use vstd::string::*;

use crate::platform::Host;
use crate::text::{contains, decimal, decimal_text, hex16, hex_text, joined, law_decimal_is_injective,
    law_occurs_between, occurs_in, same_text};

verus! {

/// The directory for one user's cache files. Users do not share one in a directory
/// that everybody can write to.
pub open spec fn subdir_text(host: Host, uid: u32) -> Seq<char> {
    match host {
        Host::MacOs => "napi-rs-native-"@ + decimal_text(uid as int),
        Host::Linux => "napi-rs-native-"@ + decimal_text(uid as int),
        _ => "napi-rs-native"@,
    }
}

/// The directory for one user's cache files. The temporary directory is per user
/// already where there is no user number.
pub fn cache_subdir(host: Host, uid: u32) -> (r: String)
    ensures
        r@ == subdir_text(host, uid),
{
    match host {
        Host::MacOs => joined("napi-rs-native-", decimal(uid as u64).as_str()),
        Host::Linux => joined("napi-rs-native-", decimal(uid as u64).as_str()),
        _ => "napi-rs-native".to_owned(),
    }
}

/// What is known of a directory above an addon.
#[derive(Debug)]
pub struct Ancestor {
    /// Its own name. The root has none.
    pub name: Option<String>,
    /// For each of the files that mark a workspace, whether it is there.
    pub markers: Vec<bool>,
    /// Its `package.json`, where that can be read as text.
    pub manifest: Option<Vec<u8>>,
}

/// The files that mark the root of a workspace.
pub fn workspace_markers() -> (r: Vec<String>)
    ensures
        r@.len() == 5,
        r@[0]@ == "pnpm-workspace.yaml"@,
        r@[1]@ == "aube-workspace.yaml"@,
        r@[2]@ == "vlt-workspaces.json"@,
        r@[3]@ == "lerna.json"@,
        r@[4]@ == "rush.json"@,
{
    let mut markers: Vec<String> = Vec::new();
    markers.push("pnpm-workspace.yaml".to_owned());
    markers.push("aube-workspace.yaml".to_owned());
    markers.push("vlt-workspaces.json".to_owned());
    markers.push("lerna.json".to_owned());
    markers.push("rush.json".to_owned());
    markers
}

/// A directory is named `node_modules`.
pub open spec fn is_modules(a: Ancestor) -> bool {
    a.name matches Some(name) && name@ == "node_modules"@
}

/// `"workspaces"`, with its quotation marks.
pub open spec fn workspaces_key() -> Seq<u8> {
    seq![0x22u8, 0x77, 0x6f, 0x72, 0x6b, 0x73, 0x70, 0x61, 0x63, 0x65, 0x73, 0x22]
}

/// A directory is the root of a workspace: it has one of the markers, or its
/// manifest names workspaces.
pub open spec fn is_root(a: Ancestor) -> bool {
    ||| exists|i: int| 0 <= i < a.markers@.len() && #[trigger] a.markers@[i]
    ||| (a.manifest matches Some(text) && occurs_in(text@, workspaces_key()))
}

/// Whether a directory is named `node_modules`.
fn has_modules_name(a: &Ancestor) -> (r: bool)
    ensures
        r == is_modules(*a),
{
    match &a.name {
        Some(name) => same_text(name.as_str(), "node_modules"),
        None => false,
    }
}

/// Whether a directory is the root of a workspace.
fn has_workspace(a: &Ancestor) -> (r: bool)
    ensures
        r == is_root(*a),
{
    let mut i: usize = 0;
    while i < a.markers.len()
        invariant
            i <= a.markers@.len(),
            forall|k: int| 0 <= k < i ==> !#[trigger] a.markers@[k],
        decreases a.markers@.len() - i,
    {
        if a.markers[i] {
            assert(a.markers@[i as int]);
            return true;
        }
        i += 1;
    }
    let key = vec![0x22u8, 0x77, 0x6f, 0x72, 0x6b, 0x73, 0x70, 0x61, 0x63, 0x65, 0x73, 0x22];
    assert(key@ =~= workspaces_key());
    match &a.manifest {
        Some(text) => contains(text.as_slice(), key.as_slice()),
        None => false,
    }
}

/// The nearest directory named `node_modules`, at or above the `i`-th. The
/// directories are listed from the addon's own upwards.
pub open spec fn nearest(dirs: Seq<Ancestor>, i: int) -> Option<int>
    decreases dirs.len() - i,
{
    if i >= dirs.len() {
        None
    } else if is_modules(dirs[i]) {
        Some(i)
    } else {
        nearest(dirs, i + 1)
    }
}

/// The nearest directory above an addon that is named `node_modules`.
pub fn nearest_node_modules(dirs: &Vec<Ancestor>) -> (r: Option<usize>)
    ensures
        match r {
            Some(i) => nearest(dirs@, 0) == Some(i as int) && i < dirs@.len(),
            None => nearest(dirs@, 0) is None,
        },
{
    let mut i: usize = 0;
    while i < dirs.len()
        invariant
            i <= dirs@.len(),
            nearest(dirs@, 0) == nearest(dirs@, i as int),
        decreases dirs@.len() - i,
    {
        if has_modules_name(&dirs[i]) {
            return Some(i);
        }
        i += 1;
    }
    None
}

/// Which `node_modules` directory serves a workspace.
#[derive(Debug, Clone, Copy, PartialEq, Eq, Structural)]
pub enum Modules {
    /// The one in this directory, the root of a workspace.
    Within(usize),
    /// This directory itself.
    Itself(usize),
}

/// The `node_modules` directory of the nearest root of a workspace at or above the
/// `i`-th directory; without one the topmost directory that is named so, given the
/// topmost so far.
pub open spec fn workspace(dirs: Seq<Ancestor>, i: int, topmost: Option<Modules>) -> Option<Modules>
    decreases dirs.len() - i,
{
    if i >= dirs.len() {
        topmost
    } else if is_root(dirs[i]) {
        Some(Modules::Within(i as usize))
    } else if is_modules(dirs[i]) {
        workspace(dirs, i + 1, Some(Modules::Itself(i as usize)))
    } else {
        workspace(dirs, i + 1, topmost)
    }
}

/// The `node_modules` directory of the workspace that an addon is in.
pub fn workspace_node_modules(dirs: &Vec<Ancestor>) -> (r: Option<Modules>)
    ensures
        r == workspace(dirs@, 0, None),
{
    let mut topmost: Option<Modules> = None;
    let mut i: usize = 0;
    while i < dirs.len()
        invariant
            i <= dirs@.len(),
            workspace(dirs@, 0, None) == workspace(dirs@, i as int, topmost),
        decreases dirs@.len() - i,
    {
        if has_workspace(&dirs[i]) {
            return Some(Modules::Within(i));
        }
        if has_modules_name(&dirs[i]) {
            topmost = Some(Modules::Itself(i));
        }
        i += 1;
    }
    topmost
}

/// A directory is the root of a workspace where any one of the markers is there, or where
/// its manifest has the word `"workspaces"`, in quotation marks, anywhere; and nowhere
/// else.
pub proof fn law_workspace_root(
    a: Ancestor,
    i: int,
    word: Seq<u8>,
    before: Seq<u8>,
    after: Seq<u8>,
)
    requires
        word == seq![0x22u8, 0x77, 0x6f, 0x72, 0x6b, 0x73, 0x70, 0x61, 0x63, 0x65, 0x73, 0x22],
    ensures
        0 <= i < a.markers@.len() && a.markers@[i] ==> is_root(a),
        a.manifest matches Some(text) ==> (text@ == before + word + after ==> is_root(a)),
        is_root(a) ==> (exists|k: int| 0 <= k < a.markers@.len() && #[trigger] a.markers@[k]) || (
        a.manifest matches Some(text) && exists|front: Seq<u8>, back: Seq<u8>|
            text@ == #[trigger] (front + word + back)),
{
    assert(word =~= workspaces_key());
    if let Some(text) = a.manifest {
        law_occurs_between(text@, word, before, after);
    }
}

/// A directory is one of modules exactly where it is named `node_modules`.
pub proof fn law_modules_by_name(a: Ancestor)
    ensures
        is_modules(a) <==> (a.name matches Some(name) && name@ == seq![
            'n',
            'o',
            'd',
            'e',
            '_',
            'm',
            'o',
            'd',
            'u',
            'l',
            'e',
            's',
        ]),
{
    reveal_strlit("node_modules");
    assert("node_modules"@ =~= seq!['n', 'o', 'd', 'e', '_', 'm', 'o', 'd', 'u', 'l', 'e', 's']);
}

/// A search for the nearest directory goes past those that are not it.
proof fn lemma_nearest(dirs: Seq<Ancestor>, from: int, i: int)
    requires
        0 <= from <= i <= dirs.len(),
        forall|j: int| from <= j < i ==> !is_modules(#[trigger] dirs[j]),
    ensures
        nearest(dirs, from) == nearest(dirs, i),
    decreases i - from,
{
    if from < i {
        assert(!is_modules(dirs[from]));
        lemma_nearest(dirs, from + 1, i);
    }
}

/// The nearest `node_modules` is the first directory of that name on the way up; there is
/// none exactly where no directory has the name.
pub proof fn law_nearest_is_first(dirs: Seq<Ancestor>, i: int)
    ensures
        0 <= i < dirs.len() && is_modules(dirs[i]) && (forall|j: int|
            0 <= j < i ==> !is_modules(#[trigger] dirs[j])) ==> nearest(dirs, 0) == Some(i),
        (forall|j: int| 0 <= j < dirs.len() ==> !is_modules(#[trigger] dirs[j])) ==> nearest(
            dirs,
            0,
        ) is None,
{
    if 0 <= i < dirs.len() && forall|j: int| 0 <= j < i ==> !is_modules(#[trigger] dirs[j]) {
        lemma_nearest(dirs, 0, i);
    }
    if forall|j: int| 0 <= j < dirs.len() ==> !is_modules(#[trigger] dirs[j]) {
        lemma_nearest(dirs, 0, dirs.len() as int);
    }
}

/// A search for a workspace goes past directories that are neither its root nor named
/// `node_modules`, and past one that is named so, which it keeps in mind.
proof fn lemma_workspace(dirs: Seq<Ancestor>, from: int, i: int, topmost: Option<Modules>) -> (seen:
    Option<Modules>)
    requires
        0 <= from <= i <= dirs.len(),
        forall|j: int| from <= j < i ==> !is_root(#[trigger] dirs[j]),
    ensures
        workspace(dirs, from, topmost) == workspace(dirs, i, seen),
        (forall|j: int| from <= j < i ==> !is_modules(#[trigger] dirs[j])) ==> seen == topmost,
        forall|k: int|
            from <= k < i && #[trigger] is_modules(dirs[k]) && (forall|j: int|
                k < j < i ==> !is_modules(#[trigger] dirs[j])) ==> seen == Some(
                Modules::Itself(k as usize),
            ),
    decreases i - from,
{
    if from < i {
        assert(!is_root(dirs[from]));
        let next = if is_modules(dirs[from]) {
            Some(Modules::Itself(from as usize))
        } else {
            topmost
        };
        let seen = lemma_workspace(dirs, from + 1, i, next);
        if forall|j: int| from <= j < i ==> !is_modules(#[trigger] dirs[j]) {
            assert(!is_modules(dirs[from]));
        }
        assert forall|k: int|
            from <= k < i && #[trigger] is_modules(dirs[k]) && (forall|j: int|
                k < j < i ==> !is_modules(#[trigger] dirs[j])) implies seen == Some(
            Modules::Itself(k as usize),
        ) by {}
        seen
    } else {
        topmost
    }
}

/// A workspace is that of the nearest root, whatever the directories below and above it are
/// named. Without a root it is the topmost directory named `node_modules`, and without
/// such a one there is none.
pub proof fn law_workspace_is_nearest_root(dirs: Seq<Ancestor>, i: int)
    requires
        dirs.len() <= usize::MAX,
    ensures
        0 <= i < dirs.len() && is_root(dirs[i]) && (forall|j: int|
            0 <= j < i ==> !is_root(#[trigger] dirs[j])) ==> workspace(dirs, 0, None) == Some(
            Modules::Within(i as usize),
        ),
        (forall|j: int| 0 <= j < dirs.len() ==> !is_root(#[trigger] dirs[j])) && 0 <= i
            < dirs.len() && is_modules(dirs[i]) && (forall|j: int|
            i < j < dirs.len() ==> !is_modules(#[trigger] dirs[j])) ==> workspace(dirs, 0, None)
            == Some(Modules::Itself(i as usize)),
        (forall|j: int|
            0 <= j < dirs.len() ==> !is_root(#[trigger] dirs[j]) && !is_modules(dirs[j]))
            ==> workspace(dirs, 0, None) is None,
{
    if 0 <= i < dirs.len() && forall|j: int| 0 <= j < i ==> !is_root(#[trigger] dirs[j]) {
        let seen = lemma_workspace(dirs, 0, i, None);
    }
    if forall|j: int| 0 <= j < dirs.len() ==> !is_root(#[trigger] dirs[j]) {
        let seen = lemma_workspace(dirs, 0, dirs.len() as int, None);
    }
}

/// Where a directory is counted from.
#[derive(Debug)]
pub enum Base {
    /// The system's directory for temporary files.
    Temp,
    /// A directory above the addon.
    Ancestor(usize),
    /// A path that was given.
    Given(String),
}

/// A directory: where it is counted from, and the names below.
#[derive(Debug)]
pub struct Place {
    pub base: Base,
    pub parts: Vec<String>,
}

/// Where a directory is counted from, as a mathematical value.
pub enum BaseView {
    Temp,
    Ancestor(int),
    Given(Seq<char>),
}

/// A directory as a mathematical value.
pub struct PlaceView {
    pub base: BaseView,
    pub parts: Seq<Seq<char>>,
}

impl View for Place {
    type V = PlaceView;

    open spec fn view(&self) -> PlaceView {
        PlaceView {
            base: match self.base {
                Base::Temp => BaseView::Temp,
                Base::Ancestor(i) => BaseView::Ancestor(i as int),
                Base::Given(path) => BaseView::Given(path@),
            },
            parts: Seq::new(self.parts@.len(), |i: int| self.parts@[i]@),
        }
    }
}

/// The setting that turns the cache off.
pub open spec fn cache_off(setting: Option<Seq<char>>) -> bool {
    setting matches Some(s) && (s == "0"@ || s == "false"@ || s == "none"@)
}

/// The directory for cache files, by the setting: off and the default are the
/// system's directory for temporary files, with the user's directory below by
/// default; `node_modules` and `workspace` are a `.cache` directory above the addon;
/// anything else is a path.
pub open spec fn cache_dir(
    setting: Option<Seq<char>>,
    subdir: Seq<char>,
    dirs: Seq<Ancestor>,
) -> Option<PlaceView> {
    if cache_off(setting) {
        Some(PlaceView { base: BaseView::Temp, parts: seq![] })
    } else {
        match setting {
            None => Some(PlaceView { base: BaseView::Temp, parts: seq![subdir] }),
            Some(s) => if s == "node_modules"@ {
                match nearest(dirs, 0) {
                    Some(i) => Some(
                        PlaceView { base: BaseView::Ancestor(i), parts: seq![".cache"@, subdir] },
                    ),
                    None => None,
                }
            } else if s == "workspace"@ {
                match workspace(dirs, 0, None) {
                    Some(Modules::Within(i)) => Some(
                        PlaceView {
                            base: BaseView::Ancestor(i as int),
                            parts: seq!["node_modules"@, ".cache"@, subdir],
                        },
                    ),
                    Some(Modules::Itself(i)) => Some(
                        PlaceView {
                            base: BaseView::Ancestor(i as int),
                            parts: seq![".cache"@, subdir],
                        },
                    ),
                    None => None,
                }
            } else if s.len() == 0 || s == "tmpdir"@ {
                Some(PlaceView { base: BaseView::Temp, parts: seq![subdir] })
            } else {
                Some(PlaceView { base: BaseView::Given(s), parts: seq![subdir] })
            },
        }
    }
}

/// A setting as a mathematical value.
pub open spec fn setting_view(setting: Option<String>) -> Option<Seq<char>> {
    match setting {
        Some(s) => Some(s@),
        None => None,
    }
}

/// Whether the setting turns the cache off: a cache file is then used by one
/// process alone.
pub fn is_cache_off(setting: &Option<String>) -> (r: bool)
    ensures
        r == cache_off(setting_view(*setting)),
{
    match setting {
        Some(s) => same_text(s.as_str(), "0") || same_text(s.as_str(), "false") || same_text(
            s.as_str(),
            "none",
        ),
        None => false,
    }
}

/// Whether the setting needs what is known of the directories above the addon.
pub fn needs_workspace(setting: &Option<String>) -> (r: bool)
    ensures
        r == (setting_view(*setting) == Some("workspace"@)),
{
    match setting {
        Some(s) => same_text(s.as_str(), "workspace"),
        None => false,
    }
}

/// One directory below a base.
fn below(base: Base, first: String) -> (r: Place)
    ensures
        r@.base == (match base {
            Base::Temp => BaseView::Temp,
            Base::Ancestor(i) => BaseView::Ancestor(i as int),
            Base::Given(path) => BaseView::Given(path@),
        }),
        r@.parts == seq![first@],
{
    let mut parts: Vec<String> = Vec::new();
    parts.push(first);
    let place = Place { base, parts };
    assert(place@.parts =~= seq![first@]);
    place
}

/// A `.cache` directory below a directory above the addon.
fn dot_cache(i: usize, within: bool, subdir: String) -> (r: Place)
    ensures
        r@.base == BaseView::Ancestor(i as int),
        within ==> r@.parts == seq!["node_modules"@, ".cache"@, subdir@],
        !within ==> r@.parts == seq![".cache"@, subdir@],
{
    let mut parts: Vec<String> = Vec::new();
    if within {
        parts.push("node_modules".to_owned());
    }
    parts.push(".cache".to_owned());
    parts.push(subdir);
    let place = Place { base: Base::Ancestor(i), parts };
    proof {
        if within {
            assert(place@.parts =~= seq!["node_modules"@, ".cache"@, subdir@]);
        } else {
            assert(place@.parts =~= seq![".cache"@, subdir@]);
        }
    }
    place
}

/// The directory for cache files. `None` is a setting that asks for a directory
/// above the addon that is not there.
pub fn resolve_cache_dir(setting: &Option<String>, subdir: String, dirs: &Vec<Ancestor>) -> (r:
    Option<Place>)
    ensures
        match r {
            Some(place) => cache_dir(setting_view(*setting), subdir@, dirs@) == Some(place@),
            None => cache_dir(setting_view(*setting), subdir@, dirs@) is None,
        },
{
    if is_cache_off(setting) {
        let place = Place { base: Base::Temp, parts: Vec::new() };
        assert(place@.parts =~= seq![]);
        return Some(place);
    }
    match setting {
        None => Some(below(Base::Temp, subdir)),
        Some(s) => {
            if same_text(s.as_str(), "node_modules") {
                match nearest_node_modules(dirs) {
                    Some(i) => Some(dot_cache(i, false, subdir)),
                    None => None,
                }
            } else if same_text(s.as_str(), "workspace") {
                match workspace_node_modules(dirs) {
                    Some(Modules::Within(i)) => Some(dot_cache(i, true, subdir)),
                    Some(Modules::Itself(i)) => Some(dot_cache(i, false, subdir)),
                    None => None,
                }
            } else if s.as_str().unicode_len() == 0 || same_text(s.as_str(), "tmpdir") {
                Some(below(Base::Temp, subdir))
            } else {
                Some(below(Base::Given(s.as_str().to_owned()), subdir))
            }
        },
    }
}

/// The name of the cache file for an addon with this stem and content hash. Where
/// the cache is off, the name is that of the process.
pub open spec fn cache_name_text(stem: Seq<char>, hash: u64, off: bool, pid: u32) -> Seq<char> {
    if off {
        stem + "-"@ + decimal_text(pid as int) + ".node"@
    } else {
        stem + "-"@ + hex_text(hash as int, 16) + ".node"@
    }
}

/// The name of the cache file for an addon.
pub fn cache_name(stem: &str, hash: u64, off: bool, pid: u32) -> (r: String)
    ensures
        r@ == cache_name_text(stem@, hash, off, pid),
{
    let mut s: String = joined(stem, "-");
    if off {
        s.append(decimal(pid as u64).as_str());
    } else {
        s.append(hex16(hash).as_str());
    }
    s.append(".node");
    s
}

/// The cache file for an addon: its directory and its name.
pub fn cache_path(
    setting: &Option<String>,
    subdir: String,
    dirs: &Vec<Ancestor>,
    stem: Option<String>,
    hash: u64,
    pid: u32,
) -> (r: Option<(Place, String)>)
    ensures
        match (cache_dir(setting_view(*setting), subdir@, dirs@), stem) {
            (Some(dir), Some(s)) => r matches Some((place, name)) && place@ == dir && name@
                == cache_name_text(s@, hash, cache_off(setting_view(*setting)), pid),
            _ => r is None,
        },
{
    let dir = match resolve_cache_dir(setting, subdir, dirs) {
        Some(dir) => dir,
        None => return None,
    };
    match stem {
        Some(s) => Some((dir, cache_name(s.as_str(), hash, is_cache_off(setting), pid))),
        None => None,
    }
}

/// Cache files of addons with the same stem and different content hashes have
/// different names: the warm path goes by the name alone.
pub proof fn law_cache_name_tells_content(stem: Seq<char>, m: u64, n: u64, pid: u32)
    requires
        cache_name_text(stem, m, false, pid) == cache_name_text(stem, n, false, pid),
    ensures
        m == n,
{
    let head = stem + "-"@;
    let a = hex_text(m as int, 16);
    let b = hex_text(n as int, 16);
    lemma_hex_len(m as int, 16);
    lemma_hex_len(n as int, 16);
    let s = cache_name_text(stem, m, false, pid);
    let t = cache_name_text(stem, n, false, pid);
    let k = head.len() as int;
    assert(s.subrange(k, k + 16) =~= a);
    assert(t.subrange(k, k + 16) =~= b);
    assert(vstd::arithmetic::power::pow(16, 16) == 0x1_0000_0000_0000_0000) by {
        lemma_pow_16();
    }
    crate::text::law_hex_is_injective(m as int, n as int, 16);
}

/// The length of a hexadecimal number.
proof fn lemma_hex_len(n: int, width: int)
    requires
        0 <= width,
    ensures
        hex_text(n, width).len() == width,
    decreases width,
{
    if width > 0 {
        lemma_hex_len(n / 16, width - 1);
    }
}

/// Sixteen digits of four bits are 64 bits.
proof fn lemma_pow_16()
    ensures
        vstd::arithmetic::power::pow(16, 16) == 0x1_0000_0000_0000_0000,
{
    let p1 = vstd::arithmetic::power::pow(16, 1);
    let p2 = vstd::arithmetic::power::pow(16, 2);
    let p4 = vstd::arithmetic::power::pow(16, 4);
    let p8 = vstd::arithmetic::power::pow(16, 8);
    vstd::arithmetic::power::lemma_pow1(16);
    vstd::arithmetic::power::lemma_pow_adds(16, 1, 1);
    assert(p1 * p1 == 0x100) by (nonlinear_arith)
        requires
            p1 == 16,
    ;
    vstd::arithmetic::power::lemma_pow_adds(16, 2, 2);
    assert(p2 * p2 == 0x1_0000) by (nonlinear_arith)
        requires
            p2 == 0x100,
    ;
    vstd::arithmetic::power::lemma_pow_adds(16, 4, 4);
    assert(p4 * p4 == 0x1_0000_0000) by (nonlinear_arith)
        requires
            p4 == 0x1_0000,
    ;
    vstd::arithmetic::power::lemma_pow_adds(16, 8, 8);
    assert(p8 * p8 == 0x1_0000_0000_0000_0000) by (nonlinear_arith)
        requires
            p8 == 0x1_0000_0000,
    ;
}

/// The setting decides where cache files go. `0`, `false` and `none` turn the cache off:
/// files go to the system's directory for temporary files itself. Unset, empty and
/// `tmpdir` is the user's directory in there. `node_modules` and `workspace` are the
/// user's directory in the `.cache` of those modules, if there are any. Anything else is
/// a path, and the user's directory in there.
pub proof fn law_cache_dir_by_setting(
    setting: Option<Seq<char>>,
    subdir: Seq<char>,
    dirs: Seq<Ancestor>,
    i: int,
)
    requires
        dirs.len() <= usize::MAX,
    ensures
        cache_off(setting) <==> setting == Some("0"@) || setting == Some("false"@) || setting
            == Some("none"@),
        cache_off(setting) ==> cache_dir(setting, subdir, dirs) == Some(
            PlaceView { base: BaseView::Temp, parts: Seq::empty() },
        ),
        setting is None || setting == Some(Seq::<char>::empty()) || setting == Some("tmpdir"@)
            ==> cache_dir(setting, subdir, dirs) == Some(
            PlaceView { base: BaseView::Temp, parts: seq![subdir] },
        ),
        setting == Some("node_modules"@) && 0 <= i < dirs.len() && is_modules(dirs[i]) && (forall|
            j: int,
        |
            0 <= j < i ==> !is_modules(#[trigger] dirs[j])) ==> cache_dir(setting, subdir, dirs)
            == Some(PlaceView { base: BaseView::Ancestor(i), parts: seq![".cache"@, subdir] }),
        setting == Some("node_modules"@) && (forall|j: int|
            0 <= j < dirs.len() ==> !is_modules(#[trigger] dirs[j])) ==> cache_dir(
            setting,
            subdir,
            dirs,
        ) is None,
        setting == Some("workspace"@) && 0 <= i < dirs.len() && is_root(dirs[i]) && (forall|j: int|
            0 <= j < i ==> !is_root(#[trigger] dirs[j])) ==> cache_dir(setting, subdir, dirs)
            == Some(
            PlaceView {
                base: BaseView::Ancestor(i),
                parts: seq!["node_modules"@, ".cache"@, subdir],
            },
        ),
        setting == Some("workspace"@) && (forall|j: int|
            0 <= j < dirs.len() ==> !is_root(#[trigger] dirs[j])) && 0 <= i < dirs.len()
            && is_modules(dirs[i]) && (forall|j: int|
            i < j < dirs.len() ==> !is_modules(#[trigger] dirs[j])) ==> cache_dir(
            setting,
            subdir,
            dirs,
        ) == Some(PlaceView { base: BaseView::Ancestor(i), parts: seq![".cache"@, subdir] }),
        setting == Some("workspace"@) && (forall|j: int|
            0 <= j < dirs.len() ==> !is_root(#[trigger] dirs[j]) && !is_modules(dirs[j]))
            ==> cache_dir(setting, subdir, dirs) is None,
        setting matches Some(path) ==> (path.len() > 0 && path != "0"@ && path != "false"@ && path
            != "none"@ && path != "tmpdir"@ && path != "node_modules"@ && path != "workspace"@
            ==> cache_dir(setting, subdir, dirs) == Some(
            PlaceView { base: BaseView::Given(path), parts: seq![subdir] },
        )),
{
    reveal_strlit("0");
    reveal_strlit("false");
    reveal_strlit("none");
    reveal_strlit("tmpdir");
    reveal_strlit("node_modules");
    reveal_strlit("workspace");
    assert("tmpdir"@[0] == 't' && "node_modules"@[0] == 'n' && "node_modules"@[2] == 'd');
    assert("workspace"@[0] == 'w' && "0"@[0] == '0' && "false"@[0] == 'f');
    assert("none"@[0] == 'n' && "none"@[2] == 'n');
    assert("0"@.len() == 1 && "false"@.len() == 5 && "none"@.len() == 4 && "tmpdir"@.len() == 6);
    assert("node_modules"@.len() == 12 && "workspace"@.len() == 9);
    law_nearest_is_first(dirs, i);
    law_workspace_is_nearest_root(dirs, i);
    assert(seq![] =~= Seq::<Seq<char>>::empty());
}

/// A cache file's name starts with the addon's stem and a hyphen, and ends with `.node`. In
/// between is the content hash, in sixteen hexadecimal digits, and the process does not
/// matter; or, where the cache is off, the process's number, and the content does not
/// matter: two processes never share a file.
pub proof fn law_cache_name_parts(stem: Seq<char>, m: u64, n: u64, p: u32, q: u32)
    ensures
        cache_name_text(stem, m, false, p) == stem + "-"@ + hex_text(m as int, 16) + ".node"@,
        cache_name_text(stem, m, false, p).len() == stem.len() + 22,
        cache_name_text(stem, m, false, p) == cache_name_text(stem, m, false, q),
        cache_name_text(stem, m, true, p) == stem + "-"@ + decimal_text(p as int) + ".node"@,
        cache_name_text(stem, m, true, p) == cache_name_text(stem, n, true, p),
        cache_name_text(stem, m, true, p) == cache_name_text(stem, m, true, q) ==> p == q,
{
    reveal_strlit("-");
    reveal_strlit(".node");
    lemma_hex_len(m as int, 16);
    let head = stem + "-"@;
    let s = cache_name_text(stem, m, true, p);
    let t = cache_name_text(stem, m, true, q);
    if s == t {
        let a = decimal_text(p as int);
        let b = decimal_text(q as int);
        let from = head.len() as int;
        assert(s.subrange(from, s.len() - 5) =~= a);
        assert(t.subrange(from, t.len() - 5) =~= b);
        law_decimal_is_injective(p as int, q as int);
    }
}

/// On Linux and macOS every user has a directory of their own for cache files, by their
/// number; elsewhere there is one name for all.
pub proof fn law_subdir_per_user(host: Host, u: u32, v: u32)
    ensures
        host == Host::Linux || host == Host::MacOs ==> subdir_text(host, u) == "napi-rs-native-"@
            + decimal_text(u as int),
        host == Host::Linux || host == Host::MacOs ==> (subdir_text(host, u) == subdir_text(host, v)
            ==> u == v),
        host == Host::Windows || host == Host::Other ==> subdir_text(host, u)
            == "napi-rs-native"@,
{
    let head = "napi-rs-native-"@;
    if (host == Host::Linux || host == Host::MacOs) && subdir_text(host, u) == subdir_text(host, v) {
        assert(subdir_text(host, u).skip(head.len() as int) =~= decimal_text(u as int));
        assert(subdir_text(host, v).skip(head.len() as int) =~= decimal_text(v as int));
        law_decimal_is_injective(u as int, v as int);
    }
}

/// The directories above an addon matter to the setting `workspace` alone.
pub proof fn law_workspace_is_asked_for(setting: &Option<String>, needed: bool)
    requires
        call_ensures(needs_workspace, (setting,), needed),
    ensures
        needed <==> (setting matches Some(s) && s@ == "workspace"@),
{
}

/// Five files mark the root of a workspace, one for each of the tools that have them.
pub proof fn law_markers_of_a_workspace(markers: Vec<String>)
    requires
        call_ensures(workspace_markers, (), markers),
    ensures
        markers@.len() == 5,
        markers@[0]@ == "pnpm-workspace.yaml"@,
        markers@[1]@ == "aube-workspace.yaml"@,
        markers@[2]@ == "vlt-workspaces.json"@,
        markers@[3]@ == "lerna.json"@,
        markers@[4]@ == "rush.json"@,
{
}

/// A cache file has a place exactly where there is a directory for cache files and the addon
/// has a stem; it is that directory, and the name by the content, or by the process where
/// the cache is off.
pub proof fn law_cache_path_is_place_and_name(
    setting: &Option<String>,
    subdir: String,
    dirs: &Vec<Ancestor>,
    stem: Option<String>,
    hash: u64,
    pid: u32,
    path: Option<(Place, String)>,
)
    requires
        call_ensures(cache_path, (setting, subdir, dirs, stem, hash, pid), path),
    ensures
        path is Some <==> cache_dir(setting_view(*setting), subdir@, dirs@) is Some && stem is Some,
        path matches Some((place, name)) ==> {
            &&& cache_dir(setting_view(*setting), subdir@, dirs@) == Some(place@)
            &&& stem matches Some(s) && name@ == cache_name_text(
                s@,
                hash,
                cache_off(setting_view(*setting)),
                pid,
            )
        },
{
}

} // verus!
