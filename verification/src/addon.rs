//! The raw addon: its content hash, its magic, and its compressed form.

use vstd::prelude::*;

verus! {

/// One round of FNV-1a.
pub open spec fn fnv_round(hash: u64, byte: u8) -> u64 {
    (hash ^ (byte as u64)).wrapping_mul(0x0000_0100_0000_01b3)
}

/// FNV-1a over 64 bits.
pub open spec fn fnv(bytes: Seq<u8>) -> u64
    decreases bytes.len(),
{
    if bytes.len() == 0 {
        0xcbf2_9ce4_8422_2325
    } else {
        fnv_round(fnv(bytes.drop_last()), bytes.last())
    }
}

/// The content address of a raw addon. A cache-lookup key, not a security boundary.
pub fn fnv1a64(bytes: &[u8]) -> (r: u64)
    ensures
        r == fnv(bytes@),
{
    let mut hash: u64 = 0xcbf2_9ce4_8422_2325;
    let mut i: usize = 0;
    while i < bytes.len()
        invariant
            i <= bytes@.len(),
            hash == fnv(bytes@.take(i as int)),
        decreases bytes@.len() - i,
    {
        proof {
            let next = bytes@.take(i + 1);
            assert(next.drop_last() =~= bytes@.take(i as int));
            assert(next.last() == bytes@[i as int]);
        }
        hash = hash ^ (bytes[i] as u64);
        hash = hash.wrapping_mul(0x0000_0100_0000_01b3);
        i += 1;
    }
    assert(bytes@.take(i as int) =~= bytes@);
    hash
}

/// The hash of no bytes is the offset basis, and every further byte, however many there
/// are, is mixed in and multiplied by the prime.
pub proof fn law_fnv_takes_in_every_byte(bytes: Seq<u8>, byte: u8)
    ensures
        fnv(Seq::<u8>::empty()) == 0xcbf2_9ce4_8422_2325,
        fnv(bytes.push(byte)) == ((fnv(bytes) ^ (byte as u64)) * 0x0000_0100_0000_01b3)
            % 0x1_0000_0000_0000_0000,
{
    assert(bytes.push(byte).drop_last() =~= bytes);
}

/// A product with the prime tells its factor: the prime is odd.
proof fn lemma_prime_undone(x: u64)
    ensures
        (((x * 0x0000_0100_0000_01b3) % 0x1_0000_0000_0000_0000) * 0xce96_5057_aff6_957b)
            % 0x1_0000_0000_0000_0000 == x,
{
    let m: int = 0x1_0000_0000_0000_0000;
    let product: int = x * 0x0000_0100_0000_01b3;
    let inverse: int = 0xce96_5057_aff6_957b;
    vstd::arithmetic::div_mod::lemma_mul_mod_noop_left(product, inverse, m);
    let turns: int = 887_285_111_055 * x;
    assert(product * inverse == x + m * turns) by (nonlinear_arith)
        requires
            product == x * 0x0000_0100_0000_01b3,
            inverse == 0xce96_5057_aff6_957b,
            m == 0x1_0000_0000_0000_0000,
            turns == 887_285_111_055 * x,
    ;
    vstd::arithmetic::div_mod::lemma_mod_multiples_vanish(turns, x as int, m);
    vstd::arithmetic::div_mod::lemma_small_mod(x as nat, m as nat);
}

/// Different hashes stay different, and so do different bytes: what is hashed from there
/// on hides nothing.
proof fn lemma_round_tells(g: u64, h: u64, a: u8, b: u8)
    requires
        fnv_round(g, a) == fnv_round(h, b),
    ensures
        g ^ (a as u64) == h ^ (b as u64),
{
    lemma_prime_undone(g ^ (a as u64));
    lemma_prime_undone(h ^ (b as u64));
}

/// Hashes of two byte strings that go on in the same way are the same only where those of
/// the strings are.
proof fn lemma_suffix_tells(s: Seq<u8>, t: Seq<u8>, tail: Seq<u8>)
    requires
        fnv(s + tail) == fnv(t + tail),
    ensures
        fnv(s) == fnv(t),
    decreases tail.len(),
{
    if tail.len() == 0 {
        assert(s + tail =~= s);
        assert(t + tail =~= t);
    } else {
        let rest = tail.drop_last();
        let byte = tail.last();
        assert((s + tail).drop_last() =~= s + rest);
        assert((t + tail).drop_last() =~= t + rest);
        let g = fnv(s + rest);
        let h = fnv(t + rest);
        lemma_round_tells(g, h, byte, byte);
        assert(g ^ (byte as u64) == h ^ (byte as u64) ==> g == h) by (bit_vector);
        lemma_suffix_tells(s, t, rest);
    }
}

/// A change of one byte, wherever it stands in an addon of any length, changes the content
/// hash: a rebuilt addon that differs in it never takes the cache file of the old one.
pub proof fn law_changed_byte_changes_hash(bytes: Seq<u8>, i: int, byte: u8)
    requires
        0 <= i < bytes.len(),
        byte != bytes[i],
    ensures
        fnv(bytes.update(i, byte)) != fnv(bytes),
{
    let head = bytes.take(i);
    let tail = bytes.skip(i + 1);
    let old_byte = bytes[i];
    assert(bytes =~= head.push(old_byte) + tail);
    assert(bytes.update(i, byte) =~= head.push(byte) + tail);
    if fnv(bytes.update(i, byte)) == fnv(bytes) {
        lemma_suffix_tells(head.push(old_byte), head.push(byte), tail);
        assert(head.push(old_byte).drop_last() =~= head);
        assert(head.push(byte).drop_last() =~= head);
        let h = fnv(head);
        lemma_round_tells(h, h, old_byte, byte);
        assert(h ^ (old_byte as u64) == h ^ (byte as u64) ==> old_byte == byte) by (bit_vector);
    }
}

/// The first bytes of a loadable native module: ELF, Mach-O of either width and
/// byte order, universal Mach-O of either byte order, or PE.
pub open spec fn native(head: Seq<u8>) -> bool {
    head.len() >= 4 && {
        let magic = head.take(4);
        ||| magic == seq![0x7fu8, 0x45, 0x4c, 0x46]
        ||| magic == seq![0xcfu8, 0xfa, 0xed, 0xfe]
        ||| magic == seq![0xfeu8, 0xed, 0xfa, 0xcf]
        ||| magic == seq![0xceu8, 0xfa, 0xed, 0xfe]
        ||| magic == seq![0xfeu8, 0xed, 0xfa, 0xce]
        ||| magic == seq![0xcau8, 0xfe, 0xba, 0xbe]
        ||| magic == seq![0xbeu8, 0xba, 0xfe, 0xca]
        ||| magic.take(2) == seq![0x4du8, 0x5a]
    }
}

/// Whether four bytes are these.
fn four_are(head: &[u8], a: u8, b: u8, c: u8, d: u8) -> (r: bool)
    requires
        head@.len() >= 4,
    ensures
        r == (head@.take(4) == seq![a, b, c, d]),
{
    let r: bool = head[0] == a && head[1] == b && head[2] == c && head[3] == d;
    proof {
        if r {
            assert(head@.take(4) =~= seq![a, b, c, d]);
        } else {
            let s = seq![a, b, c, d];
            assert(s[0] == a && s[1] == b && s[2] == c && s[3] == d);
            let t = head@.take(4);
            assert(t[0] == head@[0] && t[1] == head@[1] && t[2] == head@[2] && t[3] == head@[3]);
        }
    }
    r
}

/// Whether a decoded payload starts like a module that will load.
pub fn is_native_binary(head: &[u8]) -> (r: bool)
    ensures
        r == native(head@),
{
    if head.len() < 4 {
        return false;
    }
    let pe: bool = head[0] == 0x4d && head[1] == 0x5a;
    proof {
        let t = head@.take(4).take(2);
        if pe {
            assert(t =~= seq![0x4du8, 0x5a]);
        } else {
            let s = seq![0x4du8, 0x5a];
            assert(s[0] == 0x4d && s[1] == 0x5a);
            assert(t[0] == head@[0] && t[1] == head@[1]);
        }
    }
    pe || four_are(head, 0x7f, 0x45, 0x4c, 0x46) || four_are(head, 0xcf, 0xfa, 0xed, 0xfe)
        || four_are(head, 0xfe, 0xed, 0xfa, 0xcf) || four_are(head, 0xce, 0xfa, 0xed, 0xfe)
        || four_are(head, 0xfe, 0xed, 0xfa, 0xce) || four_are(head, 0xca, 0xfe, 0xba, 0xbe)
        || four_are(head, 0xbe, 0xba, 0xfe, 0xca)
}

/// Four bytes decide whether an addon is native, and these do: the magic of ELF, of Mach-O
/// in both widths and byte orders, of universal Mach-O in both byte orders, and `MZ`.
/// Fewer are none.
pub proof fn law_native_by_magic(head: Seq<u8>)
    ensures
        head.len() < 4 ==> !native(head),
        head.len() >= 4 ==> (native(head) <==> {
            ||| head[0] == 0x4d && head[1] == 0x5a
            ||| head[0] == 0x7f && head[1] == 0x45 && head[2] == 0x4c && head[3] == 0x46
            ||| (head[0] == 0xcf || head[0] == 0xce) && head[1] == 0xfa && head[2] == 0xed
                && head[3] == 0xfe
            ||| head[0] == 0xfe && head[1] == 0xed && head[2] == 0xfa && (head[3] == 0xcf
                || head[3] == 0xce)
            ||| head[0] == 0xca && head[1] == 0xfe && head[2] == 0xba && head[3] == 0xbe
            ||| head[0] == 0xbe && head[1] == 0xba && head[2] == 0xfe && head[3] == 0xca
        }),
{
    if head.len() >= 4 {
        let m = head.take(4);
        assert(m[0] == head[0] && m[1] == head[1] && m[2] == head[2] && m[3] == head[3]);
        lemma_four(m, 0x7f, 0x45, 0x4c, 0x46);
        lemma_four(m, 0xcf, 0xfa, 0xed, 0xfe);
        lemma_four(m, 0xfe, 0xed, 0xfa, 0xcf);
        lemma_four(m, 0xce, 0xfa, 0xed, 0xfe);
        lemma_four(m, 0xfe, 0xed, 0xfa, 0xce);
        lemma_four(m, 0xca, 0xfe, 0xba, 0xbe);
        lemma_four(m, 0xbe, 0xba, 0xfe, 0xca);
        let two = seq![0x4du8, 0x5a];
        assert(two[0] == 0x4d && two[1] == 0x5a);
        assert(m.take(2)[0] == m[0] && m.take(2)[1] == m[1]);
        if m[0] == 0x4d && m[1] == 0x5a {
            assert(m.take(2) =~= two);
        }
    }
}

/// Four bytes are these exactly where each one is.
proof fn lemma_four(m: Seq<u8>, a: u8, b: u8, c: u8, d: u8)
    requires
        m.len() == 4,
    ensures
        (m == seq![a, b, c, d]) == (m[0] == a && m[1] == b && m[2] == c && m[3] == d),
{
    let s = seq![a, b, c, d];
    assert(s[0] == a && s[1] == b && s[2] == c && s[3] == d);
    if m[0] == a && m[1] == b && m[2] == c && m[3] == d {
        assert(m =~= s);
    }
}

/// What `zstd::decode_all` gives for a compressed payload: the data that its frames
/// hold, or nothing where it is no sequence of whole frames.
pub uninterp spec fn zstd_decoded(payload: Seq<u8>) -> Option<Seq<u8>>;

/// An outcome is one that `zstd::encode_all` gives for the raw data at this level: a
/// payload, or the text of the error that it fails with.
pub uninterp spec fn zstd_encodes(
    raw: Seq<u8>,
    level: int,
    outcome: Result<Seq<u8>, Seq<char>>,
) -> bool;

/// What encoding raw data at this level comes to: an outcome of `zstd::encode_all`, and
/// a payload that decodes to the data.
pub open spec fn encoded_as(raw: Seq<u8>, level: int, outcome: Result<Seq<u8>, Seq<char>>) -> bool {
    &&& zstd_encodes(raw, level, outcome)
    &&& outcome matches Ok(payload) ==> zstd_decoded(payload) == Some(raw)
}

/// An outcome of encoding as a mathematical value.
pub open spec fn encoding_view(r: Result<Vec<u8>, String>) -> Result<Seq<u8>, Seq<char>> {
    match r {
        Ok(v) => Ok(v@),
        Err(saw) => Err(saw@),
    }
}

/// Calls `zstd::decode_all`. What comes back is the same for the same payload.
#[verifier::external_body]
fn zstd_decode(payload: &[u8]) -> (r: Option<Vec<u8>>)
    ensures
        match r {
            Some(v) => zstd_decoded(payload@) == Some(v@),
            None => zstd_decoded(payload@) is None,
        },
{
    zstd::decode_all(payload).ok()
}

/// Calls `zstd::encode_all`. What comes back is an outcome for this data and level, and
/// a payload decodes to the data. Which of several possible outcomes it is, and so
/// when encoding fails, is left open: it can fail for want of memory.
#[verifier::external_body]
fn zstd_encode(raw: &[u8], level: i32) -> (r: Result<Vec<u8>, String>)
    ensures
        zstd_encodes(raw@, level as int, encoding_view(r)),
        r matches Ok(v) ==> zstd_decoded(v@) == Some(raw@),
{
    zstd::encode_all(raw, level).map_err(|e| e.to_string())
}

/// Decodes a compressed payload.
pub fn decode(payload: &[u8]) -> (r: Option<Vec<u8>>)
    ensures
        match r {
            Some(v) => zstd_decoded(payload@) == Some(v@),
            None => zstd_decoded(payload@) is None,
        },
{
    zstd_decode(payload)
}

/// Compresses a raw addon. What comes back, a payload or the text of an error, is what
/// the encoder gave for the addon at this level.
pub fn encode(raw: &[u8], level: i32) -> (r: Result<Vec<u8>, String>)
    ensures
        encoded_as(raw@, level as int, encoding_view(r)),
{
    zstd_encode(raw, level)
}

} // verus!
