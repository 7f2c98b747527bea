//! The producer: its arguments, its steps and its messages.

use decmpfs::addon::{decode, fnv1a64};
use decmpfs::arguments::{parse_args, parse_i32, usage, Args};
use decmpfs::bytes::round_up;
use decmpfs::platform::Host;
use decmpfs::producer::{advance, after_encode, fail, receipt, run, Answer, Stage};
use decmpfs::section::{find_section_macho, read_self_section};

fn strings(args: &[&str]) -> Vec<String> {
    args.iter().map(|a| a.to_string()).collect()
}

fn args() -> Args {
    parse_args(&strings(&["s.node", "r.node", "o.node"])).unwrap()
}

fn put_u16(bytes: &mut [u8], off: usize, value: u16) {
    bytes[off..off + 2].copy_from_slice(&value.to_le_bytes());
}

// An ELF stub with a section table that holds its own names.
fn elf_stub() -> Vec<u8> {
    let names: &[u8] = b"\0.shstrtab\0";
    let mut e = vec![0u8; 80 + 2 * 64];
    e[0..4].copy_from_slice(b"\x7fELF");
    e[4] = 2;
    e[5] = 1;
    e[40] = 80;
    put_u16(&mut e, 58, 64);
    put_u16(&mut e, 60, 2);
    put_u16(&mut e, 62, 1);
    e[64..64 + names.len()].copy_from_slice(names);
    let sh = 80 + 64;
    e[sh] = 1;
    e[sh + 4] = 3;
    e[sh + 24] = 64;
    e[sh + 32] = names.len() as u8;
    e
}

fn raw_addon() -> Vec<u8> {
    let mut raw = b"\x7fELF".to_vec();
    raw.extend_from_slice(&[9u8; 4000]);
    raw
}

#[test]
fn arguments_are_three_paths_and_a_level() {
    let a = args();
    assert_eq!((a.stub.as_str(), a.raw.as_str(), a.out.as_str(), a.level), ("s.node", "r.node", "o.node", 16));
    let a = parse_args(&strings(&["--level", "19", "s", "r", "o"])).unwrap();
    assert_eq!(a.level, 19);
    // The last level counts, and it is brought into range.
    for (text, level) in [("0", 1), ("-5", 1), ("1", 1), ("22", 22), ("23", 22), ("2147483647", 22), ("+3", 3)] {
        let a = parse_args(&strings(&["s", "--level", "7", "r", "o", "--level", text])).unwrap();
        assert_eq!(a.level, level, "{text}");
    }
}

#[test]
fn bad_arguments_are_told_what_is_wrong() {
    let usage_of = |detail: &str| {
        format!(
            "napi-compress: bad arguments.\n  What:  {detail}\n  Where: napi-compress <stub.node> <raw.node> <out.node> [--level <1..=22>]\n  Fix:   pass the prebuilt stub, the built addon, and the output path."
        )
    };
    assert_eq!(usage("x"), usage_of("x"));
    let refused = |args: &[&str]| parse_args(&strings(args)).unwrap_err();
    assert_eq!(refused(&[]), usage_of("expected 3 positional paths, got 0"));
    assert_eq!(refused(&["a", "b", "c", "d"]), usage_of("expected 3 positional paths, got 4"));
    assert_eq!(refused(&["a", "--level"]), usage_of("--level needs a value"));
    assert_eq!(
        refused(&["--level", "fast\t\"er\"", "a", "b", "c"]),
        usage_of("--level value \"fast\\t\\\"er\\\"\" is not an integer")
    );
    assert_eq!(refused(&["a", "b", "c", "--fast"]), usage_of("unknown flag \"--fast\""));
    assert_eq!(refused(&["--", "a", "b", "c"]), usage_of("unknown flag \"--\""));
    // One hyphen makes a path.
    assert!(parse_args(&strings(&["-", "-b", "c"])).is_ok());
}

#[test]
fn numbers_are_read_as_i32() {
    for text in [
        "0", "-0", "+0", "7", "-7", "+7", "007", "2147483647", "2147483648", "-2147483648",
        "-2147483649", "99999999999999999999", "", "-", "+", "+-1", "1_0", " 1", "1 ", "1.5", "x", "12a",
        "\u{661}",
    ] {
        assert_eq!(parse_i32(text), text.parse::<i32>().ok(), "{text:?}");
    }
}

#[test]
fn failures_have_four_parts() {
    assert_eq!(
        fail("w", "p", "s", "f"),
        "napi-compress: w.\n  Where: p\n  Saw:   s\n  Fix:   f"
    );
}

#[test]
fn receipt_is_one_line_of_json() {
    assert_eq!(
        receipt(9004, 37, 12345, 0xabc),
        "{\"rawSize\":9004,\"compSize\":37,\"totalSize\":12345,\"contentHash\":\"0000000000000abc\"}"
    );
}

fn put_u32(bytes: &mut [u8], off: usize, value: u32) {
    bytes[off..off + 4].copy_from_slice(&value.to_le_bytes());
}

fn put_u64(bytes: &mut [u8], off: usize, value: u64) {
    bytes[off..off + 8].copy_from_slice(&value.to_le_bytes());
}

// An arm64 bundle for macOS 11: __TEXT with one section, and __LINKEDIT.
fn macho_stub() -> Vec<u8> {
    let mut m = vec![0u8; 0x4100];
    put_u32(&mut m, 0, 0xfeed_facf);
    put_u32(&mut m, 4, 0x0100_000c);
    put_u32(&mut m, 12, 8);
    put_u32(&mut m, 16, 3);
    put_u32(&mut m, 20, 152 + 24 + 72);
    put_u32(&mut m, 32, 0x19);
    put_u32(&mut m, 36, 152);
    m[40..46].copy_from_slice(b"__TEXT");
    put_u64(&mut m, 64, 0x4000);
    put_u64(&mut m, 80, 0x4000);
    put_u32(&mut m, 88, 5);
    put_u32(&mut m, 92, 5);
    put_u32(&mut m, 96, 1);
    m[104..110].copy_from_slice(b"__text");
    m[120..126].copy_from_slice(b"__TEXT");
    put_u64(&mut m, 144, 0x10);
    put_u32(&mut m, 152, 0x1000);
    put_u32(&mut m, 184, 0x32);
    put_u32(&mut m, 188, 24);
    put_u32(&mut m, 192, 1);
    put_u32(&mut m, 196, 0x000b_0000);
    put_u32(&mut m, 200, 0x000b_0000);
    put_u32(&mut m, 208, 0x19);
    put_u32(&mut m, 212, 72);
    m[216..226].copy_from_slice(b"__LINKEDIT");
    put_u64(&mut m, 232, 0x4000);
    put_u64(&mut m, 240, 0x4000);
    put_u64(&mut m, 248, 0x4000);
    put_u64(&mut m, 256, 0x100);
    put_u32(&mut m, 264, 1);
    put_u32(&mut m, 268, 1);
    m
}

#[test]
fn producer_output_passes_the_full_oracle() {
    let raw = raw_addon();
    let args = parse_args(&strings(&["s.node", "r.node", "o.node", "--level", "19"])).unwrap();
    let host = Host::MacOs;
    let mut stage = run();
    stage = advance(host, &args, stage, Answer::Bytes(Ok(macho_stub())));
    stage = advance(host, &args, stage, Answer::Bytes(Ok(raw.clone())));
    let (image, said) = match &stage {
        Stage::WriteTemp { image, receipt } => (image.clone(), receipt.clone()),
        other => panic!("{other:?}"),
    };
    stage = advance(host, &args, stage, Answer::Wrote(Ok(())));
    stage = advance(host, &args, stage, Answer::Wrote(Ok(())));
    assert!(matches!(&stage, Stage::Done(Ok(text)) if *text == said), "producer must exit 0");

    // Oracle 1: the image is signed, under the producer's identifier.
    let at = image.windows(4).position(|w| w == [0xfa, 0xde, 0x0c, 0xc0]).expect("signature");
    let name = b"dev.socket.napi.compressed-addon";
    assert!(image[at..].windows(name.len()).any(|w| w == name));

    // Oracle 2: the __DECMPFS section round-trips to the original addon.
    let section = find_section_macho(&image).expect("__DECMPFS section present");
    assert_eq!(&section[0..8], b"NAPCSECT", "section magic");
    let hash = u64::from_le_bytes(section[8..16].try_into().unwrap());
    assert_eq!(hash, fnv1a64(&raw), "content hash over the raw addon");
    let decoded = zstd::decode_all(&section[16..]).expect("zstd decode");
    assert_eq!(decoded, raw, "decoded payload == original addon");
}

#[test]
fn an_elf_stub_is_produced_without_a_signature() {
    let raw = raw_addon();
    let args = parse_args(&strings(&["s.node", "r.node", "o.node", "--level", "19"])).unwrap();
    let host = Host::Linux;
    let mut stage = run();
    stage = advance(host, &args, stage, Answer::Bytes(Ok(elf_stub())));
    stage = advance(host, &args, stage, Answer::Bytes(Ok(raw.clone())));
    let (image, said) = match &stage {
        Stage::WriteTemp { image, receipt } => (image.clone(), receipt.clone()),
        other => panic!("{other:?}"),
    };
    // The section round-trips to the original addon.
    let section = read_self_section(host, &image).expect("__DECMPFS section present");
    assert_eq!(section.content_hash, fnv1a64(&raw), "content hash over the raw addon");
    assert_eq!(decode(&section.payload).unwrap(), raw, "decoded payload == original addon");
    let body_at = image.windows(8).position(|w| w == b"NAPCSECT");
    assert_eq!(body_at, Some(208), "section magic");
    assert_eq!(
        said,
        receipt(raw.len(), section.payload.len(), image.len(), fnv1a64(&raw))
    );
    stage = advance(host, &args, stage, Answer::Wrote(Ok(())));
    assert!(matches!(stage, Stage::Rename { .. }));
    stage = advance(host, &args, stage, Answer::Wrote(Ok(())));
    match stage {
        Stage::Done(Ok(text)) => assert_eq!(text, said, "producer must exit 0"),
        other => panic!("{other:?}"),
    }
}

#[test]
fn each_step_that_fails_has_its_message() {
    let args = args();
    let host = Host::Linux;
    let saw = || "denied".to_string();
    let message = |stage: Stage| match stage {
        Stage::Done(Err(m)) => m,
        other => panic!("{other:?}"),
    };
    assert_eq!(
        message(advance(host, &args, run(), Answer::Bytes(Err(saw())))),
        "napi-compress: cannot read the prebuilt stub.\n  Where: s.node\n  Saw:   denied\n  Fix:   reinstall @napi-rs/cli or rebuild the stubs (cli/build-stubs.mjs)."
    );
    let reading = || Stage::ReadRaw { stub: elf_stub() };
    assert_eq!(
        message(advance(host, &args, reading(), Answer::Bytes(Err(saw())))),
        "napi-compress: cannot read the built addon.\n  Where: r.node\n  Saw:   denied\n  Fix:   pass the path to the compiled .node."
    );
    assert_eq!(
        message(after_encode(host, &args, &elf_stub(), &raw_addon(), Err(saw()))),
        "napi-compress: zstd compression failed.\n  Where: r.node\n  Saw:   denied\n  Fix:   lower --level or check the input is readable."
    );
    let bad = Stage::ReadRaw { stub: b"no object".to_vec() };
    assert_eq!(
        message(advance(host, &args, bad, Answer::Bytes(Ok(raw_addon())))),
        "napi-compress: Mach-O section injection failed.\n  Where: s.node\n  Saw:   unrecognized stub format: not a 64-bit LE Mach-O, ELF, or PE\n  Fix:   the stub must have header slack (built with -headerpad,0x1000) and a __LINKEDIT segment."
    );
    let unwritten = "napi-compress: cannot write the output.\n  Where: o.node\n  Saw:   denied\n  Fix:   check the output directory is writable.";
    let writing = Stage::WriteTemp { image: vec![1], receipt: "r".to_string() };
    assert_eq!(message(advance(host, &args, writing, Answer::Wrote(Err(saw())))), unwritten);
    let renaming = Stage::Rename { receipt: "r".to_string() };
    assert_eq!(message(advance(host, &args, renaming, Answer::Wrote(Err(saw())))), unwritten);
}

#[test]
fn an_answer_to_another_step_changes_nothing() {
    let args = args();
    let stage = advance(Host::Linux, &args, run(), Answer::Wrote(Ok(())));
    assert!(matches!(stage, Stage::ReadStub));
    let done = Stage::Done(Ok("r".to_string()));
    let stage = advance(Host::Linux, &args, done, Answer::Bytes(Ok(vec![])));
    assert!(matches!(stage, Stage::Done(Ok(_))));
}

#[test]
fn offsets_are_rounded_up() {
    assert_eq!(round_up(0, 8), 0);
    assert_eq!(round_up(1, 8), 8);
    assert_eq!(round_up(8, 8), 8);
    assert_eq!(round_up(0x4001, 0x4000), 0x8000);
    assert_eq!(round_up(7, 3), 9);
}
