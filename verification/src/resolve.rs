//! Resolving a stub to an addon that can be loaded.
//!
//! On a warm cache nothing is decoded. Otherwise the addon is decoded, the stub is
//! rewritten where the file system compresses, so that later loads read the addon
//! itself, and the addon is written to the cache, from where this process loads it:
//! it is in the middle of loading the stub's own file.

use vstd::prelude::*;

use crate::addon::{decode, is_native_binary, native, zstd_decoded};
use crate::apply::{law_btrfs_second_run_changes_nothing, linux_run, LinuxApply, LinuxReport,
    LinuxSlot};
use crate::backend::{FileFlags, Signal};
use crate::compress::{after_steps, compressed_outcome, law_second_run_changes_nothing, leaves_flags,
    measured, Step, World};
use crate::outcome::{Error, Outcome, Support};
use crate::platform::Host;
use crate::section::{carried, read_self_section, SectionData};

verus! {

/// What is to be done next.
pub enum Resolving {
    /// Read the stub's own image.
    ReadImage,
    /// See whether there is a cache file for the content hash.
    CheckCache { section: SectionData },
    /// Ask whether the file system compresses.
    Probe { section: SectionData },
    /// Remove stubs that were moved away, next to this one.
    Sweep { compressing: bool, content_hash: u64, raw: Vec<u8> },
    /// Replace the stub's file with the raw addon.
    Replace { content_hash: u64, raw: Vec<u8> },
    /// Compress the file that replaced the stub's.
    CompressSelf { content_hash: u64, raw: Vec<u8> },
    /// Make the directory for cache files.
    MakeCacheDir { content_hash: u64, raw: Vec<u8> },
    /// Write the raw addon to its cache file.
    WriteCache { content_hash: u64, raw: Vec<u8> },
    /// Compress the cache file.
    CompressCache { content_hash: u64 },
    /// Nothing more. The content hash that names the cache file to load, if the
    /// stub could be resolved.
    Done(Option<u64>),
}

/// What came of a step.
pub enum Found {
    /// The image, if it could be read.
    Image(Option<Vec<u8>>),
    /// Whether the cache file is there.
    Cached(bool),
    /// What the file system says.
    Probed(Result<Support, Error>),
    /// Stale stubs were removed, as well as that went.
    Swept,
    /// Whether the stub's file was replaced.
    Replaced(bool),
    /// Compression was tried.
    Compressed,
    /// Whether there is a cache file to be named, and its directory could be made.
    DirMade(bool),
    /// Whether the cache file was written.
    Written(bool),
}

/// What is to be done next, as a mathematical value.
pub enum ResolvingView {
    ReadImage,
    CheckCache { content_hash: u64, payload: Seq<u8> },
    Probe { content_hash: u64, payload: Seq<u8> },
    Sweep { compressing: bool, content_hash: u64, raw: Seq<u8> },
    Replace { content_hash: u64, raw: Seq<u8> },
    CompressSelf { content_hash: u64, raw: Seq<u8> },
    MakeCacheDir { content_hash: u64, raw: Seq<u8> },
    WriteCache { content_hash: u64, raw: Seq<u8> },
    CompressCache { content_hash: u64 },
    Done(Option<u64>),
}

/// What came of a step, as a mathematical value.
pub enum FoundView {
    Image(Option<Seq<u8>>),
    Cached(bool),
    Probed(bool),
    Swept,
    Replaced(bool),
    Compressed,
    DirMade(bool),
    Written(bool),
}

impl View for Resolving {
    type V = ResolvingView;

    open spec fn view(&self) -> ResolvingView {
        match self {
            Resolving::ReadImage => ResolvingView::ReadImage,
            Resolving::CheckCache { section } => ResolvingView::CheckCache {
                content_hash: section.content_hash,
                payload: section.payload@,
            },
            Resolving::Probe { section } => ResolvingView::Probe {
                content_hash: section.content_hash,
                payload: section.payload@,
            },
            Resolving::Sweep { compressing, content_hash, raw } => ResolvingView::Sweep {
                compressing: *compressing,
                content_hash: *content_hash,
                raw: raw@,
            },
            Resolving::Replace { content_hash, raw } => ResolvingView::Replace {
                content_hash: *content_hash,
                raw: raw@,
            },
            Resolving::CompressSelf { content_hash, raw } => ResolvingView::CompressSelf {
                content_hash: *content_hash,
                raw: raw@,
            },
            Resolving::MakeCacheDir { content_hash, raw } => ResolvingView::MakeCacheDir {
                content_hash: *content_hash,
                raw: raw@,
            },
            Resolving::WriteCache { content_hash, raw } => ResolvingView::WriteCache {
                content_hash: *content_hash,
                raw: raw@,
            },
            Resolving::CompressCache { content_hash } => ResolvingView::CompressCache {
                content_hash: *content_hash,
            },
            Resolving::Done(hash) => ResolvingView::Done(*hash),
        }
    }
}

/// The file system compresses, or holds the file compressed already.
pub open spec fn compresses(support: Result<Support, Error>) -> bool {
    support matches Ok(s) && (s == Support::Supported || s == Support::AlreadyCompressed)
}

impl View for Found {
    type V = FoundView;

    open spec fn view(&self) -> FoundView {
        match self {
            Found::Image(Some(image)) => FoundView::Image(Some(image@)),
            Found::Image(None) => FoundView::Image(None),
            Found::Cached(hit) => FoundView::Cached(*hit),
            Found::Probed(support) => FoundView::Probed(compresses(*support)),
            Found::Swept => FoundView::Swept,
            Found::Replaced(ok) => FoundView::Replaced(*ok),
            Found::Compressed => FoundView::Compressed,
            Found::DirMade(ok) => FoundView::DirMade(*ok),
            Found::Written(ok) => FoundView::Written(*ok),
        }
    }
}

/// What follows once the payload was decoded, or could not be: only a native binary
/// is worth loading.
pub open spec fn decoded_to(
    content_hash: u64,
    compressing: bool,
    decoded: Option<Seq<u8>>,
) -> ResolvingView {
    match decoded {
        Some(raw) => if native(raw) {
            ResolvingView::Sweep { compressing, content_hash, raw }
        } else {
            ResolvingView::Done(None)
        },
        None => ResolvingView::Done(None),
    }
}

/// The step that follows what was found. What answers another step changes nothing.
pub open spec fn resolving_after(host: Host, step: ResolvingView, found: FoundView) -> ResolvingView {
    match (step, found) {
        (ResolvingView::ReadImage, FoundView::Image(None)) => ResolvingView::Done(None),
        (ResolvingView::ReadImage, FoundView::Image(Some(image))) => match carried(host, image) {
            Some((content_hash, payload)) => ResolvingView::CheckCache { content_hash, payload },
            None => ResolvingView::Done(None),
        },
        (ResolvingView::CheckCache { content_hash, payload }, FoundView::Cached(hit)) => if hit {
            ResolvingView::Done(Some(content_hash))
        } else {
            ResolvingView::Probe { content_hash, payload }
        },
        (ResolvingView::Probe { content_hash, payload }, FoundView::Probed(compressing)) =>
            decoded_to(content_hash, compressing, zstd_decoded(payload)),
        (ResolvingView::Sweep { compressing, content_hash, raw }, FoundView::Swept) => if compressing {
            ResolvingView::Replace { content_hash, raw }
        } else {
            ResolvingView::MakeCacheDir { content_hash, raw }
        },
        (ResolvingView::Replace { content_hash, raw }, FoundView::Replaced(ok)) => if ok {
            ResolvingView::CompressSelf { content_hash, raw }
        } else {
            ResolvingView::MakeCacheDir { content_hash, raw }
        },
        (ResolvingView::CompressSelf { content_hash, raw }, FoundView::Compressed) =>
            ResolvingView::MakeCacheDir { content_hash, raw },
        (ResolvingView::MakeCacheDir { content_hash, raw }, FoundView::DirMade(ok)) => if ok {
            ResolvingView::WriteCache { content_hash, raw }
        } else {
            ResolvingView::Done(None)
        },
        (ResolvingView::WriteCache { content_hash, raw }, FoundView::Written(ok)) => if ok {
            ResolvingView::CompressCache { content_hash }
        } else {
            ResolvingView::Done(None)
        },
        (ResolvingView::CompressCache { content_hash }, FoundView::Compressed) => ResolvingView::Done(
            Some(content_hash),
        ),
        _ => step,
    }
}

/// Goes on once the payload was decoded, or could not be.
pub fn after_decode(content_hash: u64, compressing: bool, decoded: Option<Vec<u8>>) -> (r:
    Resolving)
    ensures
        r@ == decoded_to(
            content_hash,
            compressing,
            match decoded {
                Some(v) => Some(v@),
                None => None,
            },
        ),
{
    match decoded {
        Some(raw) => if is_native_binary(raw.as_slice()) {
            Resolving::Sweep { compressing, content_hash, raw }
        } else {
            Resolving::Done(None)
        },
        None => Resolving::Done(None),
    }
}

/// Whether the file system compresses.
fn does_compress(support: &Result<Support, Error>) -> (r: bool)
    ensures
        r == compresses(*support),
{
    match support {
        Ok(Support::Supported) => true,
        Ok(Support::AlreadyCompressed) => true,
        _ => false,
    }
}

/// Starts to resolve a stub: the one thing that has to be read is its own image.
pub fn resolve_self() -> (r: Resolving)
    ensures
        r == Resolving::ReadImage,
{
    Resolving::ReadImage
}

impl Resolving {
    /// The step that follows what was found.
    pub fn next(self, host: Host, found: Found) -> (r: Resolving)
        ensures
            r@ == resolving_after(host, self@, found@),
    {
        match (self, found) {
            (Resolving::ReadImage, Found::Image(None)) => Resolving::Done(None),
            (Resolving::ReadImage, Found::Image(Some(image))) => match read_self_section(
                host,
                image.as_slice(),
            ) {
                Some(section) => Resolving::CheckCache { section },
                None => Resolving::Done(None),
            },
            (Resolving::CheckCache { section }, Found::Cached(hit)) => if hit {
                Resolving::Done(Some(section.content_hash))
            } else {
                Resolving::Probe { section }
            },
            (Resolving::Probe { section }, Found::Probed(support)) => {
                let compressing: bool = does_compress(&support);
                let decoded = decode(section.payload.as_slice());
                after_decode(section.content_hash, compressing, decoded)
            },
            (Resolving::Sweep { compressing, content_hash, raw }, Found::Swept) => if compressing {
                Resolving::Replace { content_hash, raw }
            } else {
                Resolving::MakeCacheDir { content_hash, raw }
            },
            (Resolving::Replace { content_hash, raw }, Found::Replaced(ok)) => if ok {
                Resolving::CompressSelf { content_hash, raw }
            } else {
                Resolving::MakeCacheDir { content_hash, raw }
            },
            (Resolving::CompressSelf { content_hash, raw }, Found::Compressed) =>
                Resolving::MakeCacheDir { content_hash, raw },
            (Resolving::MakeCacheDir { content_hash, raw }, Found::DirMade(ok)) => if ok {
                Resolving::WriteCache { content_hash, raw }
            } else {
                Resolving::Done(None)
            },
            (Resolving::WriteCache { content_hash, raw: _ }, Found::Written(ok)) => if ok {
                Resolving::CompressCache { content_hash }
            } else {
                Resolving::Done(None)
            },
            (Resolving::CompressCache { content_hash }, Found::Compressed) => Resolving::Done(
                Some(content_hash),
            ),
            (step, _) => step,
        }
    }
}

/// Everything that can be found, one answer for each step.
pub struct Surroundings {
    pub image: Option<Seq<u8>>,
    pub cached: bool,
    pub compressing: bool,
    pub replaced: bool,
    pub dir_made: bool,
    pub written: bool,
}

/// What is found at a step.
pub open spec fn found_at(w: Surroundings, step: ResolvingView) -> FoundView {
    match step {
        ResolvingView::ReadImage => FoundView::Image(w.image),
        ResolvingView::CheckCache { content_hash, payload } => FoundView::Cached(w.cached),
        ResolvingView::Probe { content_hash, payload } => FoundView::Probed(w.compressing),
        ResolvingView::Sweep { compressing, content_hash, raw } => FoundView::Swept,
        ResolvingView::Replace { content_hash, raw } => FoundView::Replaced(w.replaced),
        ResolvingView::CompressSelf { content_hash, raw } => FoundView::Compressed,
        ResolvingView::MakeCacheDir { content_hash, raw } => FoundView::DirMade(w.dir_made),
        ResolvingView::WriteCache { content_hash, raw } => FoundView::Written(w.written),
        ResolvingView::CompressCache { content_hash } => FoundView::Compressed,
        ResolvingView::Done(hash) => FoundView::Swept,
    }
}

/// The step reached after `n` steps.
pub open spec fn resolving_steps(host: Host, w: Surroundings, n: nat) -> ResolvingView
    decreases n,
{
    if n == 0 {
        ResolvingView::ReadImage
    } else {
        let before = resolving_steps(host, w, (n - 1) as nat);
        resolving_after(host, before, found_at(w, before))
    }
}

/// The native addon that a payload decodes to.
pub open spec fn loadable(payload: Seq<u8>) -> Option<Seq<u8>> {
    match zstd_decoded(payload) {
        Some(raw) => if native(raw) {
            Some(raw)
        } else {
            None
        },
        None => None,
    }
}

/// What resolving comes to: the content hash of a stub whose addon is in the cache,
/// or can be decoded, is native, and can be written there.
pub open spec fn resolution(host: Host, w: Surroundings) -> Option<u64> {
    match w.image {
        None => None,
        Some(image) => match carried(host, image) {
            None => None,
            Some((content_hash, payload)) => if w.cached {
                Some(content_hash)
            } else if loadable(payload) is Some && w.dir_made && w.written {
                Some(content_hash)
            } else {
                None
            },
        },
    }
}

/// A run that is done after `m` steps is done in the same way after more.
proof fn lemma_stays_done(host: Host, w: Surroundings, m: nat, n: nat)
    requires
        m <= n,
        resolving_steps(host, w, m) is Done,
    ensures
        resolving_steps(host, w, n) == resolving_steps(host, w, m),
    decreases n,
{
    if m < n {
        lemma_stays_done(host, w, m, (n - 1) as nat);
    }
}

/// After three steps a run is done, or it has an addon to write.
proof fn lemma_three_steps(host: Host, w: Surroundings)
    ensures
        ({
            let three = resolving_steps(host, w, 3);
            ||| three == ResolvingView::Done(resolution(host, w))
            ||| {
                &&& w.image matches Some(image) && carried(host, image) matches Some((hash, payload))
                    && loadable(payload) matches Some(raw) && three == (ResolvingView::Sweep {
                    compressing: w.compressing,
                    content_hash: hash,
                    raw,
                })
                &&& !w.cached
            }
        }),
{
    reveal_with_fuel(resolving_steps, 4);
}

/// A stub that is taken through all the steps ends with what was found comes to.
/// That does not depend on whether the file system compresses, nor on whether the
/// stub could be replaced: where it could not, the addon loads from the cache.
pub proof fn law_steps_lead_to_resolution(host: Host, w: Surroundings)
    ensures
        resolving_steps(host, w, 9) == ResolvingView::Done(resolution(host, w)),
{
    lemma_three_steps(host, w);
    let three = resolving_steps(host, w, 3);
    if three is Done {
        lemma_stays_done(host, w, 3, 9);
    } else {
        let four = resolving_steps(host, w, 4);
        assert(four == resolving_after(host, three, found_at(w, three)));
        let five = resolving_steps(host, w, 5);
        assert(five == resolving_after(host, four, found_at(w, four)));
        let six = resolving_steps(host, w, 6);
        assert(six == resolving_after(host, five, found_at(w, five)));
        let seven = resolving_steps(host, w, 7);
        assert(seven == resolving_after(host, six, found_at(w, six)));
        let eight = resolving_steps(host, w, 8);
        assert(eight == resolving_after(host, seven, found_at(w, seven)));
        let nine = resolving_steps(host, w, 9);
        assert(nine == resolving_after(host, eight, found_at(w, eight)));
    }
}

/// Steps that change something on disk.
pub open spec fn touches(step: ResolvingView) -> bool {
    !(step is ReadImage || step is CheckCache || step is Probe || step is Done)
}

/// A warm cache needs the image and one look at the cache: the run is over, without
/// asking the file system, decoding anything, or touching a file.
pub proof fn law_warm_hit_is_immediate(host: Host, w: Surroundings, n: nat)
    requires
        w.cached,
    ensures
        resolving_steps(host, w, 2) is Done,
        !touches(resolving_steps(host, w, n)),
        resolving_steps(host, w, n) !is Probe,
{
    reveal_with_fuel(resolving_steps, 3);
    if n >= 2 {
        lemma_stays_done(host, w, 2, n);
    }
}

/// A stub whose payload is no compressed native addon is left alone: nothing on disk
/// is touched, and there is nothing to load.
pub proof fn law_garbage_is_left_alone(host: Host, w: Surroundings, n: nat)
    requires
        w.image matches Some(image) ==> (carried(host, image) matches Some((hash, payload))
            ==> loadable(payload) is None),
    ensures
        !touches(resolving_steps(host, w, n)),
        !w.cached ==> resolution(host, w) is None,
{
    lemma_three_steps(host, w);
    reveal_with_fuel(resolving_steps, 4);
    if n >= 3 {
        lemma_stays_done(host, w, 3, n);
    }
}

/// The stub's own file is rewritten only where the file system compresses, and what
/// is written, there and to the cache, is the addon that the stub's payload decodes
/// to, a native binary.
pub proof fn law_only_the_addon_is_written(host: Host, w: Surroundings, n: nat)
    requires
        3 <= n,
    ensures
        match resolving_steps(host, w, n) {
            ResolvingView::Replace { content_hash, raw } => w.compressing && is_addon(
                host,
                w,
                content_hash,
                raw,
            ),
            ResolvingView::CompressSelf { content_hash, raw } => w.compressing && w.replaced
                && is_addon(host, w, content_hash, raw),
            ResolvingView::WriteCache { content_hash, raw } => is_addon(
                host,
                w,
                content_hash,
                raw,
            ),
            ResolvingView::MakeCacheDir { content_hash, raw } => is_addon(
                host,
                w,
                content_hash,
                raw,
            ),
            ResolvingView::Sweep { compressing, content_hash, raw } => compressing
                == w.compressing && is_addon(host, w, content_hash, raw),
            ResolvingView::CompressCache { content_hash } => true,
            ResolvingView::Done(hash) => true,
            _ => false,
        },
    decreases n,
{
    lemma_three_steps(host, w);
    if n > 3 {
        law_only_the_addon_is_written(host, w, (n - 1) as nat);
    }
}

/// A stub that carries a native addon resolves, wherever its cache file can be written:
/// to the content hash that it carries, with the addon that its payload decodes to.
pub proof fn law_carried_addon_resolves(host: Host, w: Surroundings, image: Seq<u8>, raw: Seq<u8>)
    requires
        w.image == Some(image),
        w.dir_made,
        w.written,
        carried(host, image) matches Some((content_hash, payload)) && zstd_decoded(payload) == Some(
            raw,
        ),
        native(raw),
    ensures
        resolution(host, w) matches Some(content_hash) && is_addon(host, w, content_hash, raw),
{
}

/// What a stub's own file and its cache file read as.
pub struct Files {
    pub stub: Seq<u8>,
    pub cache: Option<Seq<u8>>,
}

/// What the two files read as after `n` steps. A step that replaces or writes a file does
/// so as a whole, or not at all, and compressing a file does not change what it reads as.
pub open spec fn files_after(host: Host, w: Surroundings, files: Files, n: nat) -> Files
    decreases n,
{
    if n == 0 {
        files
    } else {
        let before = files_after(host, w, files, (n - 1) as nat);
        match resolving_steps(host, w, (n - 1) as nat) {
            ResolvingView::Replace { content_hash, raw } => if w.replaced {
                Files { stub: raw, ..before }
            } else {
                before
            },
            ResolvingView::WriteCache { content_hash, raw } => if w.written {
                Files { cache: Some(raw), ..before }
            } else {
                before
            },
            _ => before,
        }
    }
}

/// A stub that is not in the cache, and whose cache file can be written, resolves to a
/// cache file that holds exactly the addon. On a file system that compresses, the
/// stub's own file reads as exactly the addon afterwards, if it could be replaced;
/// otherwise it is left as it was.
pub proof fn law_resolved_files_hold_addon(
    host: Host,
    w: Surroundings,
    image: Seq<u8>,
    raw: Seq<u8>,
    files: Files,
)
    requires
        w.image == Some(image),
        !w.cached,
        w.dir_made,
        w.written,
        carried(host, image) matches Some((content_hash, payload)) && loadable(payload) == Some(
            raw,
        ),
    ensures
        resolution(host, w) matches Some(content_hash) && is_addon(host, w, content_hash, raw),
        files_after(host, w, files, 9) == (Files {
            stub: if w.compressing && w.replaced {
                raw
            } else {
                files.stub
            },
            cache: Some(raw),
        }),
        w.compressing && w.replaced ==> resolving_steps(host, w, 5) is CompressSelf
            && files_after(host, w, files, 5).stub == raw,
{
    lemma_three_steps(host, w);
    reveal_with_fuel(resolving_steps, 4);
    reveal_with_fuel(files_after, 4);
    assert(files_after(host, w, files, 3) == files);
    let three = resolving_steps(host, w, 3);
    let four = resolving_steps(host, w, 4);
    assert(four == resolving_after(host, three, found_at(w, three)));
    let five = resolving_steps(host, w, 5);
    assert(five == resolving_after(host, four, found_at(w, four)));
    let six = resolving_steps(host, w, 6);
    assert(six == resolving_after(host, five, found_at(w, five)));
    let seven = resolving_steps(host, w, 7);
    assert(seven == resolving_after(host, six, found_at(w, six)));
    let eight = resolving_steps(host, w, 8);
    assert(eight == resolving_after(host, seven, found_at(w, seven)));
    let f4 = files_after(host, w, files, 4);
    let f5 = files_after(host, w, files, 5);
    let f6 = files_after(host, w, files, 6);
    let f7 = files_after(host, w, files, 7);
    let f8 = files_after(host, w, files, 8);
    assert(f4 == files);
    assert(f5.stub == if w.compressing && w.replaced {
        raw
    } else {
        files.stub
    });
    assert(f6.stub == f5.stub);
    assert(f7.stub == f5.stub);
    assert(f8.stub == f5.stub);
}

/// A stub that was rewritten, and whose file was then compressed, stays compressed: a
/// later run on it finds it so and applies nothing.
pub proof fn law_rewritten_stub_stays_compressed(
    host: Host,
    w: Surroundings,
    image: Seq<u8>,
    raw: Seq<u8>,
    files: Files,
    path: String,
    first: World,
    later: World,
    flags: FileFlags,
    n: nat,
)
    requires
        w.image == Some(image),
        !w.cached,
        w.compressing,
        w.replaced,
        w.dir_made,
        w.written,
        carried(host, image) matches Some((content_hash, payload)) && loadable(payload) == Some(
            raw,
        ),
        // What came of the step that compresses the rewritten file.
        compressed_outcome(path, first) matches Ok(outcome) && (outcome is Compressed
            || outcome is AlreadyCompressed),
        leaves_flags(path, first, flags),
        later.exists,
        later.volume == first.volume,
        later.flags == Ok::<FileFlags, Error>(flags),
        measured(later.size_before) is Ok,
    ensures
        resolving_steps(host, w, 5) is CompressSelf,
        files_after(host, w, files, 9) == (Files { stub: raw, cache: Some(raw) }),
        compressed_outcome(path, later) == Ok::<Outcome, Error>(
            Outcome::AlreadyCompressed { before: measured(later.size_before)->Ok_0 },
        ),
        after_steps(later, Step::CheckExists { path }, n) !is Apply,
{
    law_resolved_files_hold_addon(host, w, image, raw, files);
    law_second_run_changes_nothing(path, first, later, flags, n);
}

/// A stub that was rewritten on btrfs, and compressed there by these steps, reads as the
/// addon, and a later run on it finds it compressed and applies nothing.
pub proof fn law_rewritten_stub_stays_compressed_on_btrfs(
    host: Host,
    w: Surroundings,
    image: Seq<u8>,
    raw: Seq<u8>,
    files: Files,
    path: String,
    first: World,
    later: World,
    steps: Seq<LinuxApply>,
    reports: Seq<LinuxReport>,
    slots: Seq<LinuxSlot>,
    n: nat,
)
    requires
        w.image == Some(image),
        !w.cached,
        w.compressing,
        w.replaced,
        w.dir_made,
        w.written,
        carried(host, image) matches Some((content_hash, payload)) && loadable(payload) == Some(
            raw,
        ),
        // The step that compresses the rewritten file, and how it was applied.
        compressed_outcome(path, first) matches Ok(Outcome::Compressed { before, after }),
        first.signal matches Ok(Signal::Linux { mapped, extents }),
        linux_run(steps, reports, slots),
        slots[0].temp is None,
        slots[0].file.bytes == files_after(host, w, files, 5).stub,
        steps.last() == LinuxApply::Done(first.applied),
        later.exists,
        later.volume == first.volume,
        later.flags == Ok::<FileFlags, Error>(FileFlags::Linux(slots.last().file.flags)),
        measured(later.size_before) is Ok,
    ensures
        resolving_steps(host, w, 5) is CompressSelf,
        slots.last().file.bytes == raw,
        compressed_outcome(path, later) == Ok::<Outcome, Error>(
            Outcome::AlreadyCompressed { before: measured(later.size_before)->Ok_0 },
        ),
        after_steps(later, Step::CheckExists { path }, n) !is Apply,
{
    law_resolved_files_hold_addon(host, w, image, raw, files);
    law_btrfs_second_run_changes_nothing(path, first, later, steps, reports, slots, n);
}

/// The addon that a stub carries under this hash.
pub open spec fn is_addon(host: Host, w: Surroundings, content_hash: u64, raw: Seq<u8>) -> bool {
    w.image matches Some(image) && carried(host, image) matches Some((hash, payload)) && hash
        == content_hash && loadable(payload) == Some(raw)
}

/// A file system that compresses is one that says so, or one that holds the file compressed;
/// one that cannot be asked is taken for one that does not.
pub proof fn law_compressing_is_said(support: Result<Support, Error>)
    ensures
        support == Ok::<Support, Error>(Support::Supported) ==> compresses(support),
        support == Ok::<Support, Error>(Support::AlreadyCompressed) ==> compresses(support),
        support matches Ok(Support::Unsupported(_)) ==> !compresses(support),
        support is Err ==> !compresses(support),
{
}

/// A stub resolves exactly where it can be read, carries a section, and its addon is in the
/// cache, or decodes to a native binary that can be written there. What it resolves to is
/// the content hash that it carries.
pub proof fn law_resolves_where_addon_is_had(host: Host, w: Surroundings, content_hash: u64)
    ensures
        resolving_steps(host, w, 9) == ResolvingView::Done(Some(content_hash)) <==> {
            &&& w.image matches Some(image)
            &&& carried(host, image) matches Some((hash, payload))
            &&& hash == content_hash
            &&& w.cached || {
                &&& zstd_decoded(payload) matches Some(raw)
                &&& native(raw)
                &&& w.dir_made
                &&& w.written
            }
        },
        resolving_steps(host, w, 9) is Done,
{
    law_steps_lead_to_resolution(host, w);
}

/// On a warm cache the second look is the last, and it gives the content hash.
pub proof fn law_warm_hit_gives_hash(host: Host, w: Surroundings, content_hash: u64, payload: Seq<u8>)
    requires
        w.cached,
        w.image matches Some(image) && carried(host, image) == Some((content_hash, payload)),
    ensures
        resolving_steps(host, w, 1) == (ResolvingView::CheckCache { content_hash, payload }),
        resolving_steps(host, w, 2) == ResolvingView::Done(Some(content_hash)),
{
    reveal_with_fuel(resolving_steps, 3);
}

/// On a cold cache the file system is asked, stale stubs are swept, the stub is replaced and
/// compressed where the file system compresses, and then the cache file is written and
/// compressed. The directory is made in front of that, in each case.
pub proof fn law_cold_run_goes_through(
    host: Host,
    w: Surroundings,
    content_hash: u64,
    payload: Seq<u8>,
    raw: Seq<u8>,
)
    requires
        !w.cached,
        w.dir_made,
        w.written,
        w.image matches Some(image) && carried(host, image) == Some((content_hash, payload)),
        zstd_decoded(payload) == Some(raw),
        native(raw),
    ensures
        resolving_steps(host, w, 2) == (ResolvingView::Probe { content_hash, payload }),
        resolving_steps(host, w, 3) == (ResolvingView::Sweep {
            compressing: w.compressing,
            content_hash,
            raw,
        }),
        w.compressing ==> resolving_steps(host, w, 4) == (ResolvingView::Replace {
            content_hash,
            raw,
        }),
        w.compressing && w.replaced ==> resolving_steps(host, w, 5) == (
        ResolvingView::CompressSelf { content_hash, raw }),
        ({
            let n: nat = if !w.compressing {
                4
            } else if !w.replaced {
                5
            } else {
                6
            };
            &&& resolving_steps(host, w, n) == (ResolvingView::MakeCacheDir { content_hash, raw })
            &&& resolving_steps(host, w, n + 1) == (ResolvingView::WriteCache { content_hash, raw })
            &&& resolving_steps(host, w, n + 2) == (ResolvingView::CompressCache { content_hash })
            &&& resolving_steps(host, w, n + 3) == ResolvingView::Done(Some(content_hash))
        }),
{
    reveal_with_fuel(resolving_steps, 10);
}

/// What answers another step than the one at hand changes nothing, and a run that is over
/// stays so.
pub proof fn law_stray_answer_changes_nothing(host: Host, step: ResolvingView, found: FoundView)
    ensures
        step is Done ==> resolving_after(host, step, found) == step,
        step is ReadImage && found !is Image ==> resolving_after(host, step, found) == step,
        step is CheckCache && found !is Cached ==> resolving_after(host, step, found) == step,
        step is Probe && found !is Probed ==> resolving_after(host, step, found) == step,
        step is Sweep && found !is Swept ==> resolving_after(host, step, found) == step,
        step is Replace && found !is Replaced ==> resolving_after(host, step, found) == step,
        (step is CompressSelf || step is CompressCache) && found !is Compressed ==> resolving_after(
            host,
            step,
            found,
        ) == step,
        step is MakeCacheDir && found !is DirMade ==> resolving_after(host, step, found) == step,
        step is WriteCache && found !is Written ==> resolving_after(host, step, found) == step,
{
}

} // verus!
