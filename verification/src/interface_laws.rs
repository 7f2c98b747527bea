//! What the functions at the library's edge give their callers.

use vstd::prelude::*;

use crate::apply::{linux_follows, mac_follows, LinuxApply, LinuxReport, MacApply, MacReport};
use crate::arguments::Args;
use crate::cache::{cache_subdir, subdir_text};
use crate::compress::{after_steps, compress_file, compressed_outcome, reply, Step, World};
use crate::files::{is_stale_stub, output_temp_name, output_temp_text, replacing_after, stale,
    writing_after, Replacing, Writing};
use crate::inject::dispatch::{inject_decmpfs, injected};
use crate::outcome::Error;
use crate::platform::Host;
use crate::producer::{advance, run, stage_follows, Answer, Stage};
use crate::resolve::{resolve_self, resolving_after, Found, Resolving, ResolvingView};
use crate::section::{carried, read_self_section, section_body, SectionData};
use crate::synthetic::{synthetic, synthetic_object_with_section};

verus! {

/// Injecting gives the injected image, or the message of what the stub is refused for.
pub proof fn law_injecting_gives_image_or_message(
    stub: &[u8],
    body: &[u8],
    given: Result<Vec<u8>, String>,
)
    requires
        call_ensures(inject_decmpfs, (stub, body), given),
    ensures
        given is Ok <==> injected(stub@, body@) is Ok,
        given matches Ok(image) ==> injected(stub@, body@) == Ok::<
            Seq<u8>,
            crate::inject::error::InjectError,
        >(image@),
        given matches Err(message) ==> (injected(stub@, body@) matches Err(e) && message@
            == e.text()),
{
}

/// A stub's own section is read as the content hash and the payload that it carries, and
/// there is nothing to read exactly where it carries none.
pub proof fn law_section_is_read_as_carried(host: Host, image: &[u8], data: Option<SectionData>)
    requires
        call_ensures(read_self_section, (host, image), data),
    ensures
        data is Some <==> carried(host, image@) is Some,
        data matches Some(d) ==> carried(host, image@) == Some((d.content_hash, d.payload@)),
{
}

/// A minimal object file reads as the section that was put into it.
pub proof fn law_synthetic_object_is_read_back(
    host: Host,
    body: &[u8],
    object: Vec<u8>,
    content_hash: u64,
    payload: Seq<u8>,
)
    requires
        body@.len() <= usize::MAX - 1024,
        host != Host::Other,
        host == Host::Windows ==> body@.len() < 0x1_0000_0000,
        body@ == section_body(content_hash, payload),
        call_ensures(synthetic_object_with_section, (host, body), object),
    ensures
        carried(host, object@) == Some((content_hash, payload)),
{
    crate::synthetic::law_synthetic_object_holds_body(host, body@);
    crate::section::law_parse_undoes_build(content_hash, payload);
}

/// The names that callers ask for.
pub proof fn law_names_are_those_stated(
    host: Host,
    uid: u32,
    subdir: String,
    name: Option<String>,
    pid: u32,
    temp: String,
    file: &[u8],
    swept: bool,
)
    requires
        call_ensures(cache_subdir, (host, uid), subdir),
        call_ensures(output_temp_name, (name, pid), temp),
        call_ensures(is_stale_stub, (file,), swept),
    ensures
        subdir@ == subdir_text(host, uid),
        name matches Some(n) ==> temp@ == output_temp_text(Some(n@), pid),
        name is None ==> temp@ == output_temp_text(Some("out.node"@), pid),
        swept <==> stale(file@),
{
}

/// A run of compression starts with a look at the file, and each report leads to the step
/// that follows it: ten steps lead to the outcome.
pub proof fn law_compressing_goes_step_by_step(
    path: String,
    start: Step,
    w: World,
    n: nat,
    next: Step,
)
    requires
        call_ensures(compress_file, (path,), start),
        call_ensures(
            Step::next,
            (after_steps(w, start, n), w.host, reply(w, after_steps(w, start, n))),
            next,
        ),
    ensures
        start == (Step::CheckExists { path }),
        next == after_steps(w, start, n + 1),
        n >= 9 ==> next == Step::Done(compressed_outcome(path, w)),
{
    if n >= 9 {
        crate::compress::law_steps_lead_to_outcome(path, w);
        lemma_done_stays(w, start, 10, n + 1, compressed_outcome(path, w));
    }
}

/// A run that is over stays over.
proof fn lemma_done_stays(
    w: World,
    start: Step,
    m: nat,
    n: nat,
    result: Result<crate::outcome::Outcome, Error>,
)
    requires
        m <= n,
        after_steps(w, start, m) == Step::Done(result),
    ensures
        after_steps(w, start, n) == Step::Done(result),
    decreases n,
{
    if m < n {
        lemma_done_stays(w, start, m, (n - 1) as nat, result);
    }
}

/// The other runs start as they are told to, and each step is followed by the one that was
/// stated for it.
pub proof fn law_runs_go_step_by_step(
    host: Host,
    resolving: Resolving,
    found: Found,
    resolved: Resolving,
    resolve: Resolving,
    args: &Args,
    stage: Stage,
    answer: Answer,
    produced: Stage,
    produce: Stage,
)
    requires
        call_ensures(resolve_self, (), resolve),
        call_ensures(Resolving::next, (resolving, host, found), resolved),
        call_ensures(run, (), produce),
        call_ensures(advance, (host, args, stage, answer), produced),
    ensures
        resolve@ == ResolvingView::ReadImage,
        resolved@ == resolving_after(host, resolving@, found@),
        produce == Stage::ReadStub,
        stage_follows(host, *args, stage, answer, produced),
{
}

/// Files are written and replaced, and compression is applied, by the steps that were stated.
pub proof fn law_files_go_step_by_step(
    writing: Writing,
    replacing: Replacing,
    ok: bool,
    written: Writing,
    replaced: Replacing,
    linux: LinuxApply,
    linux_report: LinuxReport,
    linux_next: LinuxApply,
    mac: MacApply,
    mac_report: MacReport,
    mac_next: MacApply,
)
    requires
        call_ensures(Writing::next, (writing, ok), written),
        call_ensures(Replacing::next, (replacing, ok), replaced),
        call_ensures(LinuxApply::next, (linux, linux_report), linux_next),
        call_ensures(MacApply::next, (mac, mac_report), mac_next),
    ensures
        written == writing_after(writing, ok),
        replaced == replacing_after(replacing, ok),
        linux_follows(linux, linux_report, linux_next),
        mac_follows(mac, mac_report, mac_next),
{
}

} // verus!
