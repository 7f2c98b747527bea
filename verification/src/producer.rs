//! Producing a self-loading addon: compress the built addon, wrap it into a section
//! body, inject it into the stub, and sign the result.

use vstd::prelude::*;
use vstd::string::*;

use crate::addon::{encode, encoded_as, encoding_view, fnv, fnv1a64, zstd_decoded, zstd_encodes};
use crate::arguments::Args;
use crate::inject::dispatch::{inject, injected, is_elf, is_macho, is_pe};
use crate::inject::elf::{elf_injected, elf_plan, law_elf_round_trip, named_apart};
use crate::inject::error::InjectError;
use crate::inject::macho::{macho_injected, macho_layout};
use crate::inject::macho_laws::{law_macho_round_trip, no_earlier_segment, sound};
use crate::inject::pe::{law_pe_round_trip, pe_assembled, pe_has_place, pe_injected, pe_plan};
use crate::inject::sign::{adhoc_signed, keeps_image, resigned, signable, try_resign, SignStep};
use crate::inject::sign_laws::law_signed_image_keeps_section;
use crate::platform::Host;
use crate::section::{build_section_payload, carried, elf_section, law_parse_undoes_build,
    macho_section, pe_section, plain_section_name, section_body, slot_holds};
use crate::text::{decimal, decimal_text, hex16, hex_text, joined};

verus! {

/// The identifier stamped into the signature of an injected image, which carries none
/// of its own. A stable reverse-DNS name keeps it the same for every addon without
/// claiming a real signing identity.
pub open spec fn identifier_text() -> Seq<char> {
    "dev.socket.napi.compressed-addon"@
}

/// Why an addon could not be packaged.
#[derive(Debug)]
pub enum Refusal {
    /// The section could not be injected.
    Inject(String),
    /// The image could not be signed.
    Sign(String),
}

/// Why an addon could not be packaged, as a mathematical value.
pub enum RefusalView {
    Inject(Seq<char>),
    Sign(Seq<char>),
}

impl View for Refusal {
    type V = RefusalView;

    open spec fn view(&self) -> RefusalView {
        match self {
            Refusal::Inject(message) => RefusalView::Inject(message@),
            Refusal::Sign(message) => RefusalView::Sign(message@),
        }
    }
}

/// The message where the signer cannot take an image apart.
pub open spec fn unsignable_text() -> Seq<char> {
    "the image cannot be taken apart and signed"@
}

/// The stub with the addon in it, before it is signed.
pub open spec fn unsigned_image(stub: Seq<u8>, raw: Seq<u8>, payload: Seq<u8>) -> Result<
    Seq<u8>,
    InjectError,
> {
    injected(stub, section_body(fnv(raw), payload))
}

/// The finished image for a raw addon that was compressed to this payload, or why
/// there is none.
pub open spec fn packaged(host: Host, stub: Seq<u8>, raw: Seq<u8>, payload: Seq<u8>) -> Result<
    Seq<u8>,
    RefusalView,
> {
    match unsigned_image(stub, raw, payload) {
        Err(e) => Err(RefusalView::Inject(e.text())),
        Ok(image) => if host == Host::MacOs && is_macho(image) && !signable(image) {
            Err(RefusalView::Sign(unsignable_text()))
        } else {
            match resigned(host, image, identifier_text()) {
                Err(message) => Err(RefusalView::Sign(message)),
                Ok(signed) => Ok(signed),
            }
        },
    }
}

/// A loader reads the content hash and the payload out of the finished image, where
/// the stub is one that gives an injected body back.
pub open spec fn loads(
    host: Host,
    stub: Seq<u8>,
    raw: Seq<u8>,
    payload: Seq<u8>,
    image: Seq<u8>,
) -> bool {
    gives_back(host, stub, section_body(fnv(raw), payload)) ==> carried(host, image) == Some(
        (fnv(raw), payload),
    )
}

/// A reader finds the body in what the signer makes of an injected Mach-O stub.
proof fn lemma_signed_loads(stub: Seq<u8>, body: Seq<u8>)
    requires
        body.len() > 0,
        gives_back(Host::MacOs, stub, body),
    ensures
        macho_injected(stub, body) matches Ok(image) && is_macho(image) && forall|signed: Seq<u8>|
            signable(image) && #[trigger] keeps_image(image, signed) ==> macho_section(signed)
                == Some(body),
{
    law_macho_round_trip(stub, body);
    let image = macho_injected(stub, body)->Ok_0;
    assert(macho_section(image) is Some);
    assert forall|signed: Seq<u8>|
        signable(image) && #[trigger] keeps_image(image, signed) implies macho_section(signed)
        == Some(body) by {
        law_signed_image_keeps_section(stub, body, signed);
    }
}

/// Wraps a compressed addon into the stub and signs the result.
pub fn package(host: Host, stub: &[u8], raw: &[u8], payload: &[u8]) -> (r: Result<
    Vec<u8>,
    Refusal,
>)
    ensures
        match packaged(host, stub@, raw@, payload@) {
            Ok(image) => r matches Ok(v) && v@ == image,
            Err(why) => r matches Err(e) && e@ == why,
        },
        r matches Ok(v) ==> loads(host, stub@, raw@, payload@, v@),
{
    proof {
        law_parse_undoes_build(fnv(raw@), payload@);
        let body = section_body(fnv(raw@), payload@);
        assert(body.len() >= 16);
        if gives_back(host, stub@, body) {
            law_loader_reads_what_producer_wrote(host, stub@, raw@, payload@);
            if host != Host::MacOs {
                law_finished_addon_is_loadable(host, stub@, raw@, payload@);
            } else {
                lemma_signed_loads(stub@, body);
            }
        }
    }
    let body = build_section_payload(fnv1a64(raw), payload);
    let image = match inject(stub, body.as_slice()) {
        Ok(image) => image,
        Err(e) => return Err(Refusal::Inject(e.message())),
    };
    match try_resign(host, image.as_slice(), "dev.socket.napi.compressed-addon") {
        None => Err(Refusal::Sign("the image cannot be taken apart and signed".to_owned())),
        Some(Ok(signed)) => Ok(signed),
        Some(Err(message)) => Err(Refusal::Sign(message)),
    }
}

/// A failure in four parts: what failed, where, what was seen, and how to mend it.
pub open spec fn failure_text(
    what: Seq<char>,
    place: Seq<char>,
    saw: Seq<char>,
    fix: Seq<char>,
) -> Seq<char> {
    "napi-compress: "@ + what + ".\n  Where: "@ + place + "\n  Saw:   "@ + saw + "\n  Fix:   "@ + fix
}

/// The message for a failure.
pub fn fail(what: &str, place: &str, saw: &str, fix: &str) -> (r: String)
    ensures
        r@ == failure_text(what@, place@, saw@, fix@),
{
    let mut s: String = joined("napi-compress: ", what);
    s.append(".\n  Where: ");
    s.append(place);
    s.append("\n  Saw:   ");
    s.append(saw);
    s.append("\n  Fix:   ");
    s.append(fix);
    s
}

/// The receipt: the sizes of the raw addon, its compressed form and the result, and
/// the content hash, as JSON on one line.
pub open spec fn receipt_text(raw: int, payload: int, total: int, content_hash: u64) -> Seq<char> {
    "{\"rawSize\":"@ + decimal_text(raw) + ",\"compSize\":"@ + decimal_text(payload)
        + ",\"totalSize\":"@ + decimal_text(total) + ",\"contentHash\":\""@ + hex_text(
        content_hash as int,
        16,
    ) + "\"}"@
}

/// The receipt for a finished addon.
pub fn receipt(raw: usize, payload: usize, total: usize, content_hash: u64) -> (r: String)
    ensures
        r@ == receipt_text(raw as int, payload as int, total as int, content_hash),
{
    let mut s: String = joined("{\"rawSize\":", decimal(raw as u64).as_str());
    s.append(",\"compSize\":");
    s.append(decimal(payload as u64).as_str());
    s.append(",\"totalSize\":");
    s.append(decimal(total as u64).as_str());
    s.append(",\"contentHash\":\"");
    s.append(hex16(content_hash).as_str());
    s.append("\"}");
    s
}

/// What a producer is about to do, and what it needs for that.
#[derive(Debug)]
pub enum Stage {
    /// Read the prebuilt stub.
    ReadStub,
    /// Read the built addon.
    ReadRaw { stub: Vec<u8> },
    /// Write the image to a sibling of the output.
    WriteTemp { image: Vec<u8>, receipt: String },
    /// Rename the sibling over the output.
    Rename { receipt: String },
    /// Nothing more. The receipt, or the message of the first step that failed.
    Done(Result<String, String>),
}

/// What came of the step that a producer was about to do.
#[derive(Debug)]
pub enum Answer {
    /// A file's bytes, or what was seen instead.
    Bytes(Result<Vec<u8>, String>),
    /// A write or a rename, or what was seen instead.
    Wrote(Result<(), String>),
}

/// The stage after a raw addon was compressed to this payload.
pub open spec fn wrapped(
    host: Host,
    args: Args,
    stub: Seq<u8>,
    raw: Seq<u8>,
    payload: Seq<u8>,
    after: Stage,
) -> bool {
    match packaged(host, stub, raw, payload) {
        Ok(image) => after matches Stage::WriteTemp { image: v, receipt: text } && v@ == image
            && loads(host, stub, raw, payload, image) && text@ == receipt_text(
            raw.len() as int,
            payload.len() as int,
            image.len() as int,
            fnv(raw),
        ),
        Err(RefusalView::Inject(saw)) => after matches Stage::Done(Err(m)) && m@ == failure_text(
            "Mach-O section injection failed"@,
            args.stub@,
            saw,
            "the stub must have header slack (built with -headerpad,0x1000) and a __LINKEDIT segment."@,
        ),
        Err(RefusalView::Sign(saw)) => after matches Stage::Done(Err(m)) && m@ == failure_text(
            "ad-hoc re-sign failed"@,
            args.out@,
            saw,
            "the injected Mach-O must be well-formed; re-run after a clean stub rebuild."@,
        ),
    }
}

/// Goes on once the raw addon was compressed, or could not be.
pub fn after_encode(
    host: Host,
    args: &Args,
    stub: &[u8],
    raw: &[u8],
    encoded: Result<Vec<u8>, String>,
) -> (r: Stage)
    ensures
        match encoded {
            Ok(payload) => wrapped(host, *args, stub@, raw@, payload@, r),
            Err(saw) => r matches Stage::Done(Err(m)) && m@ == failure_text(
                "zstd compression failed"@,
                args.raw@,
                saw@,
                "lower --level or check the input is readable."@,
            ),
        },
{
    let payload = match encoded {
        Ok(payload) => payload,
        Err(saw) => {
            return Stage::Done(
                Err(
                    fail(
                        "zstd compression failed",
                        args.raw.as_str(),
                        saw.as_str(),
                        "lower --level or check the input is readable.",
                    ),
                ),
            );
        },
    };
    match package(host, stub, raw, payload.as_slice()) {
        Ok(image) => {
            let text = receipt(raw.len(), payload.len(), image.len(), fnv1a64(raw));
            Stage::WriteTemp { image, receipt: text }
        },
        Err(Refusal::Inject(saw)) => Stage::Done(
            Err(
                fail(
                    "Mach-O section injection failed",
                    args.stub.as_str(),
                    saw.as_str(),
                    "the stub must have header slack (built with -headerpad,0x1000) and a __LINKEDIT segment.",
                ),
            ),
        ),
        Err(Refusal::Sign(saw)) => Stage::Done(
            Err(
                fail(
                    "ad-hoc re-sign failed",
                    args.out.as_str(),
                    saw.as_str(),
                    "the injected Mach-O must be well-formed; re-run after a clean stub rebuild.",
                ),
            ),
        ),
    }
}

/// The stage after the raw addon was read: it is compressed at the level asked for,
/// and either that fails, with what the encoder said, or the payload, which decodes to
/// the addon, is wrapped.
pub open spec fn compressed(
    host: Host,
    args: Args,
    stub: Seq<u8>,
    raw: Seq<u8>,
    after: Stage,
) -> bool {
    exists|outcome: Result<Seq<u8>, Seq<char>>|
        #[trigger] encoded_as(raw, args.level as int, outcome) && match outcome {
            Ok(payload) => wrapped(host, args, stub, raw, payload, after),
            Err(saw) => after matches Stage::Done(Err(m)) && m@ == failure_text(
                "zstd compression failed"@,
                args.raw@,
                saw,
                "lower --level or check the input is readable."@,
            ),
        }
}

/// The message for an unreadable stub.
pub open spec fn stub_unread(args: Args, saw: Seq<char>) -> Seq<char> {
    failure_text(
        "cannot read the prebuilt stub"@,
        args.stub@,
        saw,
        "reinstall @napi-rs/cli or rebuild the stubs (cli/build-stubs.mjs)."@,
    )
}

/// The message for an unreadable addon.
pub open spec fn raw_unread(args: Args, saw: Seq<char>) -> Seq<char> {
    failure_text(
        "cannot read the built addon"@,
        args.raw@,
        saw,
        "pass the path to the compiled .node."@,
    )
}

/// The message for an unwritable output.
pub open spec fn out_unwritten(args: Args, saw: Seq<char>) -> Seq<char> {
    failure_text(
        "cannot write the output"@,
        args.out@,
        saw,
        "check the output directory is writable."@,
    )
}

/// The stage that follows an answer. An answer to another step changes nothing.
pub open spec fn stage_follows(
    host: Host,
    args: Args,
    before: Stage,
    answer: Answer,
    after: Stage,
) -> bool {
    match (before, answer) {
        (Stage::ReadStub, Answer::Bytes(Ok(stub))) => after == (Stage::ReadRaw { stub }),
        (Stage::ReadStub, Answer::Bytes(Err(saw))) => after matches Stage::Done(Err(m)) && m@
            == stub_unread(args, saw@),
        (Stage::ReadRaw { stub }, Answer::Bytes(Ok(raw))) => compressed(
            host,
            args,
            stub@,
            raw@,
            after,
        ),
        (Stage::ReadRaw { stub }, Answer::Bytes(Err(saw))) => after matches Stage::Done(Err(m))
            && m@ == raw_unread(args, saw@),
        (Stage::WriteTemp { image, receipt }, Answer::Wrote(Ok(()))) => after == (Stage::Rename {
            receipt,
        }),
        (Stage::WriteTemp { image, receipt }, Answer::Wrote(Err(saw))) => after matches Stage::Done(
            Err(m),
        ) && m@ == out_unwritten(args, saw@),
        (Stage::Rename { receipt }, Answer::Wrote(Ok(()))) => after == Stage::Done(
            Ok::<String, String>(receipt),
        ),
        (Stage::Rename { receipt }, Answer::Wrote(Err(saw))) => after matches Stage::Done(Err(m))
            && m@ == out_unwritten(args, saw@),
        _ => after == before,
    }
}

/// Starts a producer. The steps are read the stub, read the addon, write a sibling
/// of the output, rename it over the output; the first that fails ends it.
pub fn run() -> (r: Stage)
    ensures
        r == Stage::ReadStub,
{
    Stage::ReadStub
}

/// Goes on once the step that a producer was about to do was done.
pub fn advance(host: Host, args: &Args, before: Stage, answer: Answer) -> (r: Stage)
    ensures
        stage_follows(host, *args, before, answer, r),
{
    match (before, answer) {
        (Stage::ReadStub, Answer::Bytes(Ok(stub))) => Stage::ReadRaw { stub },
        (Stage::ReadStub, Answer::Bytes(Err(saw))) => Stage::Done(
            Err(
                fail(
                    "cannot read the prebuilt stub",
                    args.stub.as_str(),
                    saw.as_str(),
                    "reinstall @napi-rs/cli or rebuild the stubs (cli/build-stubs.mjs).",
                ),
            ),
        ),
        (Stage::ReadRaw { stub }, Answer::Bytes(Ok(raw))) => {
            let encoded = encode(raw.as_slice(), args.level);
            assert(encoded_as(raw@, args.level as int, encoding_view(encoded)));
            after_encode(host, args, stub.as_slice(), raw.as_slice(), encoded)
        },
        (Stage::ReadRaw { stub: _ }, Answer::Bytes(Err(saw))) => Stage::Done(
            Err(
                fail(
                    "cannot read the built addon",
                    args.raw.as_str(),
                    saw.as_str(),
                    "pass the path to the compiled .node.",
                ),
            ),
        ),
        (Stage::WriteTemp { image: _, receipt }, Answer::Wrote(Ok(()))) => Stage::Rename {
            receipt,
        },
        (Stage::WriteTemp { image: _, receipt: _ }, Answer::Wrote(Err(saw))) => Stage::Done(
            Err(
                fail(
                    "cannot write the output",
                    args.out.as_str(),
                    saw.as_str(),
                    "check the output directory is writable.",
                ),
            ),
        ),
        (Stage::Rename { receipt }, Answer::Wrote(Ok(()))) => Stage::Done(Ok(receipt)),
        (Stage::Rename { receipt: _ }, Answer::Wrote(Err(saw))) => Stage::Done(
            Err(
                fail(
                    "cannot write the output",
                    args.out.as_str(),
                    saw.as_str(),
                    "check the output directory is writable.",
                ),
            ),
        ),
        (before, _) => before,
    }
}

/// A stub that gives an injected body back, by its format. This leaves out stubs
/// that hold such a section already, or whose fields cannot hold the section's
/// place.
pub open spec fn gives_back(host: Host, stub: Seq<u8>, body: Seq<u8>) -> bool {
    match host {
        Host::Linux => is_elf(stub) && elf_injected(stub, body) is Ok && (elf_plan(
            stub,
        ) matches Ok(p) && p.shnum < 0xffff && p.names_size < 0x1_0000_0000 && forall|i: int|
            0 <= i < p.shnum ==> #[trigger] named_apart(stub, p, i)),
        Host::Windows => is_pe(stub) && pe_injected(stub, body) is Ok && (pe_plan(stub) matches Ok(p)
            && pe_has_place(stub, body, p) && forall|i: int|
            0 <= i < p.num_sections ==> !slot_holds(
                pe_assembled(stub, body, p).subrange(#[trigger] p.header(i), p.header(i) + 8),
                plain_section_name(),
            )),
        Host::MacOs => is_macho(stub) && macho_injected(stub, body) is Ok && (macho_layout(
            stub,
        ) matches Ok(lay) && sound(stub, lay) && no_earlier_segment(stub, lay)
            && lay.linkedit.fileoff < 0x1_0000_0000),
        Host::Other => false,
    }
}

/// A loader finds in the injected stub exactly what the producer put there: the
/// content hash of the raw addon and the payload, which decodes to the addon.
pub proof fn law_loader_reads_what_producer_wrote(
    host: Host,
    stub: Seq<u8>,
    raw: Seq<u8>,
    payload: Seq<u8>,
)
    requires
        gives_back(host, stub, section_body(fnv(raw), payload)),
    ensures
        unsigned_image(stub, raw, payload) matches Ok(image) && carried(host, image) == Some(
            (fnv(raw), payload),
        ),
{
    let body = section_body(fnv(raw), payload);
    law_parse_undoes_build(fnv(raw), payload);
    match host {
        Host::Linux => {
            lemma_formats_differ(stub);
            law_elf_round_trip(stub, body);
        },
        Host::Windows => {
            lemma_formats_differ(stub);
            law_pe_round_trip(stub, body);
        },
        Host::MacOs => {
            law_macho_round_trip(stub, body);
        },
        Host::Other => {},
    }
}

/// No image has the magic of two formats.
proof fn lemma_formats_differ(s: Seq<u8>)
    ensures
        is_elf(s) ==> !is_macho(s) && !is_pe(s),
        is_pe(s) ==> !is_macho(s),
{
    reveal(crate::bytes::le32);
    reveal(crate::bytes::le16);
    if is_elf(s) {
        let m = s.take(4);
        assert(m[0] == 0x7f && m[0] == s[0]);
        if is_pe(s) {
            let n = s.take(2);
            assert(n[0] == 0x4d && n[0] == s[0]);
        }
        assert(crate::bytes::le32(s, 0) % 0x100 == s[0]);
    }
    if is_pe(s) {
        let n = s.take(2);
        assert(n[0] == 0x4d && n[0] == s[0]);
        if s.len() >= 4 {
            assert(crate::bytes::le32(s, 0) % 0x100 == s[0]);
        }
    }
}

/// On Linux and Windows the finished image is the injected stub: nothing has to be
/// signed, and a loader reads the addon out of it.
pub proof fn law_finished_addon_is_loadable(
    host: Host,
    stub: Seq<u8>,
    raw: Seq<u8>,
    payload: Seq<u8>,
)
    requires
        host == Host::Linux || host == Host::Windows,
        gives_back(host, stub, section_body(fnv(raw), payload)),
    ensures
        packaged(host, stub, raw, payload) matches Ok(image) && carried(host, image) == Some(
            (fnv(raw), payload),
        ),
{
    law_loader_reads_what_producer_wrote(host, stub, raw, payload);
    let body = section_body(fnv(raw), payload);
    let image = unsigned_image(stub, raw, payload)->Ok_0;
    lemma_formats_differ(stub);
    lemma_formats_differ(image);
    if host == Host::Linux {
        law_elf_round_trip(stub, body);
        assert(elf_section(image) is Some);
        assert(is_elf(image));
    } else {
        law_pe_round_trip(stub, body);
        assert(pe_section(image) is Some);
        assert(is_pe(image));
    }
}

/// The image that a producer writes is one that a loader resolves to the addon: it
/// carries the addon's content hash and a payload that decodes to the addon. Where the
/// host is macOS, that is the signed image.
pub proof fn law_written_image_carries_addon(
    host: Host,
    args: Args,
    stub: Vec<u8>,
    raw: Vec<u8>,
    image: Vec<u8>,
    receipt: String,
)
    requires
        stage_follows(
            host,
            args,
            Stage::ReadRaw { stub },
            Answer::Bytes(Ok(raw)),
            Stage::WriteTemp { image, receipt },
        ),
        forall|payload: Seq<u8>| #[trigger]
            encoded_as(raw@, args.level as int, Ok::<Seq<u8>, Seq<char>>(payload)) ==> gives_back(
                host,
                stub@,
                section_body(fnv(raw@), payload),
            ),
    ensures
        carried(host, image@) matches Some((content_hash, payload)) && content_hash == fnv(raw@)
            && zstd_decoded(payload) == Some(raw@),
{
    let after = Stage::WriteTemp { image, receipt };
    let outcome = choose|outcome: Result<Seq<u8>, Seq<char>>|
        #[trigger] encoded_as(raw@, args.level as int, outcome) && match outcome {
            Ok(payload) => wrapped(host, args, stub@, raw@, payload, after),
            Err(_) => false,
        };
    let payload = outcome->Ok_0;
    assert(encoded_as(raw@, args.level as int, Ok::<Seq<u8>, Seq<char>>(payload)));
    assert(loads(host, stub@, raw@, payload, image@));
}

/// No Mach-O image leaves the producer unsigned: a finished image that was injected into
/// a Mach-O stub is what the signer made of it, on macOS.
pub proof fn law_output_is_never_unsigned(
    host: Host,
    stub: Seq<u8>,
    raw: Seq<u8>,
    payload: Seq<u8>,
    image: Seq<u8>,
)
    requires
        packaged(host, stub, raw, payload) == Ok::<Seq<u8>, RefusalView>(image),
        unsigned_image(stub, raw, payload) matches Ok(injected) && is_macho(injected),
    ensures
        host == Host::MacOs,
        unsigned_image(stub, raw, payload) matches Ok(injected) && adhoc_signed(
            injected,
            identifier_text(),
        ) == Ok::<Seq<u8>, (SignStep, Seq<char>)>(image),
{
}

/// The output is touched by a rename alone, and only once the whole image is in a
/// sibling file: the step in front of the rename is the write of the image, which
/// went well, and the stage behind it is the end.
pub proof fn law_output_appears_whole(
    host: Host,
    args: Args,
    before: Stage,
    answer: Answer,
    after: Stage,
)
    requires
        stage_follows(host, args, before, answer, after),
    ensures
        after is Rename && before !is Rename ==> before is WriteTemp && (answer matches Answer::Wrote(
            Ok(_),
        )),
        before is Rename && after !is Rename ==> after is Done,
        after matches Stage::Done(Ok(_)) && before !is Done ==> before is Rename,
        before is Done ==> after == before,
{
}

/// The finished image is the injected one where that is no Mach-O image, and the signed one
/// where it is one and the host is macOS. It is signed under one identifier. Every refusal
/// says what was refused: the injection, or the signing.
pub proof fn law_package_injects_and_signs(
    host: Host,
    stub: Seq<u8>,
    raw: Seq<u8>,
    payload: Seq<u8>,
)
    ensures
        match injected(stub, section_body(fnv(raw), payload)) {
            Err(e) => packaged(host, stub, raw, payload) == Err::<Seq<u8>, RefusalView>(
                RefusalView::Inject(e.text()),
            ),
            Ok(image) => {
                &&& !is_macho(image) ==> packaged(host, stub, raw, payload) == Ok::<
                    Seq<u8>,
                    RefusalView,
                >(image)
                &&& is_macho(image) && host != Host::MacOs ==> packaged(host, stub, raw, payload)
                    == Err::<Seq<u8>, RefusalView>(
                    RefusalView::Sign(
                        "cross-building a darwin target needs an ad-hoc Mach-O signature, which this non-macOS host cannot produce; build darwin addons on a macOS host"@,
                    ),
                )
                &&& is_macho(image) && host == Host::MacOs && !signable(image) ==> packaged(
                    host,
                    stub,
                    raw,
                    payload,
                ) == Err::<Seq<u8>, RefusalView>(
                    RefusalView::Sign("the image cannot be taken apart and signed"@),
                )
                &&& is_macho(image) && host == Host::MacOs && signable(image) ==> match adhoc_signed(
                    image,
                    "dev.socket.napi.compressed-addon"@,
                ) {
                    Ok(signed) => packaged(host, stub, raw, payload) == Ok::<Seq<u8>, RefusalView>(
                        signed,
                    ),
                    Err(_) => (packaged(host, stub, raw, payload) matches Err(RefusalView::Sign(_))),
                }
            },
        },
{
}

/// A failure's message has its four parts, each behind its label.
pub proof fn law_failure_has_four_parts(
    what: Seq<char>,
    place: Seq<char>,
    saw: Seq<char>,
    fix: Seq<char>,
)
    ensures
        failure_text(what, place, saw, fix) == "napi-compress: "@ + what + ".\n  Where: "@ + place
            + "\n  Saw:   "@ + saw + "\n  Fix:   "@ + fix,
{
}

/// The receipt has the three sizes in decimal and the content hash in sixteen hexadecimal
/// digits, as the members of one JSON object.
pub proof fn law_receipt_has_sizes_and_hash(raw: int, payload: int, total: int, content_hash: u64)
    ensures
        receipt_text(raw, payload, total, content_hash) == "{\"rawSize\":"@ + decimal_text(raw)
            + ",\"compSize\":"@ + decimal_text(payload) + ",\"totalSize\":"@ + decimal_text(total)
            + ",\"contentHash\":\""@ + hex_text(content_hash as int, 16) + "\"}"@,
        hex_text(content_hash as int, 16).len() == 16,
{
    crate::text::law_hex_digits(content_hash as int / 16, content_hash as int % 16, 15);
}

/// Where every step succeeds, a producer reads the stub and the addon, writes the image to
/// the sibling, renames that, and ends with the receipt: it tells the sizes of the addon,
/// of a payload that decodes to it, and of the image that was written, and the addon's hash.
pub proof fn law_producer_run_of_successes(
    host: Host,
    args: Args,
    stub: Vec<u8>,
    raw: Vec<u8>,
    first: Stage,
    second: Stage,
    third: Stage,
    last: Stage,
)
    requires
        stage_follows(host, args, Stage::ReadStub, Answer::Bytes(Ok(stub)), first),
        stage_follows(host, args, first, Answer::Bytes(Ok(raw)), second),
        stage_follows(host, args, second, Answer::Wrote(Ok(())), third),
        stage_follows(host, args, third, Answer::Wrote(Ok(())), last),
    ensures
        first == (Stage::ReadRaw { stub }),
        second is WriteTemp || second matches Stage::Done(Err(_)),
        second matches Stage::WriteTemp { image, receipt } ==> {
            &&& third == (Stage::Rename { receipt })
            &&& last == Stage::Done(Ok::<String, String>(receipt))
            &&& exists|payload: Seq<u8>| #[trigger]
                zstd_encodes(raw@, args.level as int, Ok::<Seq<u8>, Seq<char>>(payload))
                    && zstd_decoded(payload) == Some(raw@) && packaged(host, stub@, raw@, payload)
                    == Ok::<Seq<u8>, RefusalView>(image@) && receipt@ == receipt_text(
                    raw@.len() as int,
                    payload.len() as int,
                    image@.len() as int,
                    fnv(raw@),
                )
        },
{
    if second is WriteTemp {
        let outcome = choose|outcome: Result<Seq<u8>, Seq<char>>|
            #[trigger] encoded_as(raw@, args.level as int, outcome) && match outcome {
                Ok(payload) => wrapped(host, args, stub@, raw@, payload, second),
                Err(_) => false,
            };
        let payload = outcome->Ok_0;
        assert(encoded_as(raw@, args.level as int, Ok::<Seq<u8>, Seq<char>>(payload)));
        assert(zstd_encodes(raw@, args.level as int, Ok::<Seq<u8>, Seq<char>>(payload)));
    } else {
        let outcome = choose|outcome: Result<Seq<u8>, Seq<char>>|
            #[trigger] encoded_as(raw@, args.level as int, outcome) && match outcome {
                Ok(payload) => wrapped(host, args, stub@, raw@, payload, second),
                Err(saw) => second matches Stage::Done(Err(m)) && m@ == failure_text(
                    "zstd compression failed"@,
                    args.raw@,
                    saw,
                    "lower --level or check the input is readable."@,
                ),
            };
        assert(encoded_as(raw@, args.level as int, outcome));
    }
}

/// A file that fails a producer is named in its message, with what was seen: the stub that
/// cannot be read, the addon that cannot be read, the output that cannot be written.
pub proof fn law_failure_names_its_file(
    host: Host,
    args: Args,
    stub: Vec<u8>,
    image: Vec<u8>,
    receipt: String,
    saw: String,
    no_stub: Stage,
    no_raw: Stage,
    no_temp: Stage,
    no_out: Stage,
)
    requires
        stage_follows(host, args, Stage::ReadStub, Answer::Bytes(Err(saw)), no_stub),
        stage_follows(host, args, Stage::ReadRaw { stub }, Answer::Bytes(Err(saw)), no_raw),
        stage_follows(
            host,
            args,
            Stage::WriteTemp { image, receipt },
            Answer::Wrote(Err(saw)),
            no_temp,
        ),
        stage_follows(host, args, Stage::Rename { receipt }, Answer::Wrote(Err(saw)), no_out),
    ensures
        no_stub matches Stage::Done(Err(m)) && m@ == failure_text(
            "cannot read the prebuilt stub"@,
            args.stub@,
            saw@,
            "reinstall @napi-rs/cli or rebuild the stubs (cli/build-stubs.mjs)."@,
        ),
        no_raw matches Stage::Done(Err(m)) && m@ == failure_text(
            "cannot read the built addon"@,
            args.raw@,
            saw@,
            "pass the path to the compiled .node."@,
        ),
        no_temp matches Stage::Done(Err(m)) && m@ == failure_text(
            "cannot write the output"@,
            args.out@,
            saw@,
            "check the output directory is writable."@,
        ),
        no_out matches Stage::Done(Err(m)) && m@ == failure_text(
            "cannot write the output"@,
            args.out@,
            saw@,
            "check the output directory is writable."@,
        ),
{
}

/// An addon that cannot be packaged fails a producer with the refusal: one of the injection
/// names the stub, one of the signing the output.
pub proof fn law_refusal_names_stub_or_output(
    host: Host,
    args: Args,
    stub: Seq<u8>,
    raw: Seq<u8>,
    payload: Seq<u8>,
    after: Stage,
)
    requires
        wrapped(host, args, stub, raw, payload, after),
    ensures
        packaged(host, stub, raw, payload) matches Err(RefusalView::Inject(saw)) ==> (
        after matches Stage::Done(Err(m)) && m@ == failure_text(
            "Mach-O section injection failed"@,
            args.stub@,
            saw,
            "the stub must have header slack (built with -headerpad,0x1000) and a __LINKEDIT segment."@,
        )),
        packaged(host, stub, raw, payload) matches Err(RefusalView::Sign(saw)) ==> (
        after matches Stage::Done(Err(m)) && m@ == failure_text(
            "ad-hoc re-sign failed"@,
            args.out@,
            saw,
            "the injected Mach-O must be well-formed; re-run after a clean stub rebuild."@,
        )),
        packaged(host, stub, raw, payload) matches Ok(image) ==> (after matches Stage::WriteTemp {
            image: v,
            receipt,
        } && v@ == image),
{
}

/// An addon that the encoder fails on, at the level asked for, fails a producer with what the
/// encoder said, and the message names the addon.
pub proof fn law_encoder_failure_names_addon(
    host: Host,
    args: Args,
    stub: Vec<u8>,
    raw: Vec<u8>,
    after: Stage,
)
    requires
        stage_follows(host, args, Stage::ReadRaw { stub }, Answer::Bytes(Ok(raw)), after),
    ensures
        after matches Stage::Done(Err(m)) ==> exists|outcome: Result<Seq<u8>, Seq<char>>| #[trigger]
            zstd_encodes(raw@, args.level as int, outcome) && match outcome {
                Ok(payload) => packaged(host, stub@, raw@, payload) is Err,
                Err(said) => m@ == failure_text(
                    "zstd compression failed"@,
                    args.raw@,
                    said,
                    "lower --level or check the input is readable."@,
                ),
            },
{
    if after is Done {
        let outcome = choose|outcome: Result<Seq<u8>, Seq<char>>|
            #[trigger] encoded_as(raw@, args.level as int, outcome) && match outcome {
                Ok(payload) => wrapped(host, args, stub@, raw@, payload, after),
                Err(said) => after matches Stage::Done(Err(m)) && m@ == failure_text(
                    "zstd compression failed"@,
                    args.raw@,
                    said,
                    "lower --level or check the input is readable."@,
                ),
            };
        assert(zstd_encodes(raw@, args.level as int, outcome));
    }
}

/// What answers another step than the one at hand changes nothing.
pub proof fn law_stray_answer_is_passed_over(
    host: Host,
    args: Args,
    before: Stage,
    answer: Answer,
    after: Stage,
)
    requires
        stage_follows(host, args, before, answer, after),
    ensures
        (before is ReadStub || before is ReadRaw) && answer !is Bytes ==> after == before,
        (before is WriteTemp || before is Rename) && answer !is Wrote ==> after == before,
{
}

} // verus!
