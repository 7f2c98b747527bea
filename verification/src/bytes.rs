//! Reading and writing fixed-width integers at byte offsets.

use vstd::prelude::*;

verus! {

/// The `n` bytes of `s` that start at `off`, where they all lie inside `s`.
pub open spec fn window(s: Seq<u8>, off: int, n: int) -> Option<Seq<u8>> {
    if 0 <= off && 0 <= n && off + n <= s.len() {
        Some(s.subrange(off, off + n))
    } else {
        None
    }
}

/// The 16-bit little-endian number at `off`.
#[verifier::opaque]
pub open spec fn le16(s: Seq<u8>, off: int) -> int {
    s[off] + 0x100 * s[off + 1]
}

/// The 32-bit little-endian number at `off`.
#[verifier::opaque]
pub open spec fn le32(s: Seq<u8>, off: int) -> int {
    le16(s, off) + 0x1_0000 * le16(s, off + 2)
}

/// The 64-bit little-endian number at `off`.
#[verifier::opaque]
pub open spec fn le64(s: Seq<u8>, off: int) -> int {
    le32(s, off) + 0x1_0000_0000 * le32(s, off + 4)
}

/// The 16-bit big-endian number at `off`.
#[verifier::opaque]
pub open spec fn be16(s: Seq<u8>, off: int) -> int {
    0x100 * s[off] + s[off + 1]
}

/// The 32-bit big-endian number at `off`.
#[verifier::opaque]
pub open spec fn be32(s: Seq<u8>, off: int) -> int {
    0x1_0000 * be16(s, off) + be16(s, off + 2)
}

/// The 64-bit big-endian number at `off`.
#[verifier::opaque]
pub open spec fn be64(s: Seq<u8>, off: int) -> int {
    0x1_0000_0000 * be32(s, off) + be32(s, off + 4)
}

/// The lowest 16 bits of `v`, least significant byte first.
#[verifier::opaque]
pub open spec fn le16_bytes(v: int) -> Seq<u8> {
    seq![(v % 0x100) as u8, (v / 0x100 % 0x100) as u8]
}

/// The lowest 32 bits of `v`, least significant byte first.
#[verifier::opaque]
pub open spec fn le32_bytes(v: int) -> Seq<u8> {
    le16_bytes(v % 0x1_0000) + le16_bytes(v / 0x1_0000)
}

/// The lowest 64 bits of `v`, least significant byte first.
#[verifier::opaque]
pub open spec fn le64_bytes(v: int) -> Seq<u8> {
    le32_bytes(v % 0x1_0000_0000) + le32_bytes(v / 0x1_0000_0000)
}

/// `s` with `data` written over it from `off` on.
pub open spec fn overwrite(s: Seq<u8>, off: int, data: Seq<u8>) -> Seq<u8> {
    Seq::new(
        s.len(),
        |i: int|
            if off <= i < off + data.len() {
                data[i - off]
            } else {
                s[i]
            },
    )
}

/// `n` zero bytes.
pub open spec fn zeros(n: int) -> Seq<u8> {
    Seq::new(n as nat, |i: int| 0u8)
}

/// `v` rounded up to a multiple of `align`; `v` itself where `align` is zero.
pub open spec fn aligned(v: int, align: int) -> int {
    if align == 0 {
        v
    } else {
        (v + align - 1) / align * align
    }
}

/// A little-endian number fits its width.
pub broadcast proof fn lemma_le16_bounds(s: Seq<u8>, off: int)
    ensures
        0 <= #[trigger] le16(s, off) < 0x1_0000,
{
    reveal(le16);
}

/// A little-endian number fits its width.
pub broadcast proof fn lemma_le32_bounds(s: Seq<u8>, off: int)
    ensures
        0 <= #[trigger] le32(s, off) < 0x1_0000_0000,
{
    reveal(le32);
    lemma_le16_bounds(s, off);
    lemma_le16_bounds(s, off + 2);
}

/// A little-endian number fits its width.
pub broadcast proof fn lemma_le64_bounds(s: Seq<u8>, off: int)
    ensures
        0 <= #[trigger] le64(s, off) < 0x1_0000_0000_0000_0000,
{
    reveal(le64);
    lemma_le32_bounds(s, off);
    lemma_le32_bounds(s, off + 4);
}

/// A written number takes as many bytes as its width says.
pub broadcast proof fn lemma_le16_len(v: int)
    ensures
        #[trigger] le16_bytes(v).len() == 2,
{
    reveal(le16_bytes);
}

/// A written number takes as many bytes as its width says.
pub broadcast proof fn lemma_le32_len(v: int)
    ensures
        #[trigger] le32_bytes(v).len() == 4,
{
    reveal(le32_bytes);
    lemma_le16_len(v % 0x1_0000);
    lemma_le16_len(v / 0x1_0000);
}

/// A written number takes as many bytes as its width says.
pub broadcast proof fn lemma_le64_len(v: int)
    ensures
        #[trigger] le64_bytes(v).len() == 8,
{
    reveal(le64_bytes);
    lemma_le32_len(v % 0x1_0000_0000);
    lemma_le32_len(v / 0x1_0000_0000);
}

/// The widths of the numbers here, in both directions.
pub broadcast group group_widths {
    lemma_le16_bounds,
    lemma_le32_bounds,
    lemma_le64_bounds,
    lemma_le16_len,
    lemma_le32_len,
    lemma_le64_len,
}

/// A 16-bit number depends on its own bytes alone.
pub proof fn lemma_le16_same(s: Seq<u8>, i: int, t: Seq<u8>, j: int)
    requires
        0 <= i && i + 2 <= s.len(),
        0 <= j && j + 2 <= t.len(),
        s.subrange(i, i + 2) == t.subrange(j, j + 2),
    ensures
        le16(s, i) == le16(t, j),
{
    reveal(le16);
    let a = s.subrange(i, i + 2);
    let b = t.subrange(j, j + 2);
    assert(a[0] == b[0] && a[1] == b[1]);
}

/// A 32-bit number depends on its own bytes alone.
pub proof fn lemma_le32_same(s: Seq<u8>, i: int, t: Seq<u8>, j: int)
    requires
        0 <= i && i + 4 <= s.len(),
        0 <= j && j + 4 <= t.len(),
        s.subrange(i, i + 4) == t.subrange(j, j + 4),
    ensures
        le32(s, i) == le32(t, j),
{
    reveal(le32);
    let a = s.subrange(i, i + 4);
    let b = t.subrange(j, j + 4);
    assert(s.subrange(i, i + 2) =~= a.subrange(0, 2));
    assert(t.subrange(j, j + 2) =~= b.subrange(0, 2));
    assert(s.subrange(i + 2, i + 4) =~= a.subrange(2, 4));
    assert(t.subrange(j + 2, j + 4) =~= b.subrange(2, 4));
    lemma_le16_same(s, i, t, j);
    lemma_le16_same(s, i + 2, t, j + 2);
}

/// A 64-bit number depends on its own bytes alone.
pub proof fn lemma_le64_same(s: Seq<u8>, i: int, t: Seq<u8>, j: int)
    requires
        0 <= i && i + 8 <= s.len(),
        0 <= j && j + 8 <= t.len(),
        s.subrange(i, i + 8) == t.subrange(j, j + 8),
    ensures
        le64(s, i) == le64(t, j),
{
    reveal(le64);
    let a = s.subrange(i, i + 8);
    let b = t.subrange(j, j + 8);
    assert(s.subrange(i, i + 4) =~= a.subrange(0, 4));
    assert(t.subrange(j, j + 4) =~= b.subrange(0, 4));
    assert(s.subrange(i + 4, i + 8) =~= a.subrange(4, 8));
    assert(t.subrange(j + 4, j + 8) =~= b.subrange(4, 8));
    lemma_le32_same(s, i, t, j);
    lemma_le32_same(s, i + 4, t, j + 4);
}

/// Reading back the bytes of a 16-bit number gives the number.
pub proof fn lemma_le16_bytes(v: int)
    requires
        0 <= v < 0x1_0000,
    ensures
        le16(le16_bytes(v), 0) == v,
{
    reveal(le16);
    reveal(le16_bytes);
}

/// Reading back the bytes of a 32-bit number gives the number.
pub proof fn lemma_le32_bytes(v: int)
    requires
        0 <= v < 0x1_0000_0000,
    ensures
        le32(le32_bytes(v), 0) == v,
{
    broadcast use group_widths;

    reveal(le32);
    reveal(le32_bytes);
    let low = le16_bytes(v % 0x1_0000);
    let high = le16_bytes(v / 0x1_0000);
    let b = le32_bytes(v);
    assert(b.subrange(0, 2) =~= low.subrange(0, 2));
    assert(b.subrange(2, 4) =~= high.subrange(0, 2));
    lemma_le16_same(b, 0, low, 0);
    lemma_le16_same(b, 2, high, 0);
    lemma_le16_bytes(v % 0x1_0000);
    lemma_le16_bytes(v / 0x1_0000);
}

/// Reading back the bytes of a 64-bit number gives the number.
pub proof fn lemma_le64_bytes(v: int)
    requires
        0 <= v < 0x1_0000_0000_0000_0000,
    ensures
        le64(le64_bytes(v), 0) == v,
{
    broadcast use group_widths;

    reveal(le64);
    reveal(le64_bytes);
    let low = le32_bytes(v % 0x1_0000_0000);
    let high = le32_bytes(v / 0x1_0000_0000);
    let b = le64_bytes(v);
    assert(b.subrange(0, 4) =~= low.subrange(0, 4));
    assert(b.subrange(4, 8) =~= high.subrange(0, 4));
    lemma_le32_same(b, 0, low, 0);
    lemma_le32_same(b, 4, high, 0);
    lemma_le32_bytes(v % 0x1_0000_0000);
    lemma_le32_bytes(v / 0x1_0000_0000);
}

/// The bytes of a 16-bit number are the only ones that read as it.
pub proof fn lemma_le16_unique(s: Seq<u8>, off: int)
    requires
        0 <= off,
        off + 2 <= s.len(),
    ensures
        le16_bytes(le16(s, off)) == s.subrange(off, off + 2),
{
    reveal(le16);
    reveal(le16_bytes);
    assert(le16_bytes(le16(s, off)) =~= s.subrange(off, off + 2));
}

/// The bytes of a 32-bit number are the only ones that read as it.
pub proof fn lemma_le32_unique(s: Seq<u8>, off: int)
    requires
        0 <= off,
        off + 4 <= s.len(),
    ensures
        le32_bytes(le32(s, off)) == s.subrange(off, off + 4),
{
    broadcast use group_widths;

    reveal(le32);
    reveal(le32_bytes);
    lemma_le16_unique(s, off);
    lemma_le16_unique(s, off + 2);
    assert(le32_bytes(le32(s, off)) =~= s.subrange(off, off + 4));
}

/// The bytes of a 64-bit number are the only ones that read as it.
pub proof fn lemma_le64_unique(s: Seq<u8>, off: int)
    requires
        0 <= off,
        off + 8 <= s.len(),
    ensures
        le64_bytes(le64(s, off)) == s.subrange(off, off + 8),
{
    broadcast use group_widths;

    reveal(le64);
    reveal(le64_bytes);
    lemma_le32_unique(s, off);
    lemma_le32_unique(s, off + 4);
    assert(le64_bytes(le64(s, off)) =~= s.subrange(off, off + 8));
}

/// An overwritten stretch holds what was written.
pub proof fn lemma_overwrite_here(s: Seq<u8>, off: int, data: Seq<u8>)
    requires
        0 <= off,
        off + data.len() <= s.len(),
    ensures
        overwrite(s, off, data).subrange(off, off + data.len()) == data,
{
    assert(overwrite(s, off, data).subrange(off, off + data.len()) =~= data);
}

/// A stretch apart from the overwritten one stays as it was.
pub proof fn lemma_overwrite_apart(s: Seq<u8>, off: int, data: Seq<u8>, at: int, n: int)
    requires
        0 <= at,
        0 <= n,
        at + n <= s.len(),
        at + n <= off || off + data.len() <= at,
    ensures
        overwrite(s, off, data).subrange(at, at + n) == s.subrange(at, at + n),
{
    assert(overwrite(s, off, data).subrange(at, at + n) =~= s.subrange(at, at + n));
}

/// A written 16-bit number reads back.
pub proof fn lemma_put16(s: Seq<u8>, off: int, v: int)
    requires
        0 <= off,
        off + 2 <= s.len(),
        0 <= v < 0x1_0000,
    ensures
        le16(overwrite(s, off, le16_bytes(v)), off) == v,
{
    broadcast use group_widths;

    let d = le16_bytes(v);
    lemma_overwrite_here(s, off, d);
    assert(d.subrange(0, 2) =~= d);
    lemma_le16_same(overwrite(s, off, d), off, d, 0);
    lemma_le16_bytes(v);
}

/// A written 32-bit number reads back.
pub proof fn lemma_put32(s: Seq<u8>, off: int, v: int)
    requires
        0 <= off,
        off + 4 <= s.len(),
        0 <= v < 0x1_0000_0000,
    ensures
        le32(overwrite(s, off, le32_bytes(v)), off) == v,
{
    broadcast use group_widths;

    let d = le32_bytes(v);
    lemma_overwrite_here(s, off, d);
    assert(d.subrange(0, 4) =~= d);
    lemma_le32_same(overwrite(s, off, d), off, d, 0);
    lemma_le32_bytes(v);
}

/// A written 64-bit number reads back.
pub proof fn lemma_put64(s: Seq<u8>, off: int, v: int)
    requires
        0 <= off,
        off + 8 <= s.len(),
        0 <= v < 0x1_0000_0000_0000_0000,
    ensures
        le64(overwrite(s, off, le64_bytes(v)), off) == v,
{
    broadcast use group_widths;

    let d = le64_bytes(v);
    lemma_overwrite_here(s, off, d);
    assert(d.subrange(0, 8) =~= d);
    lemma_le64_same(overwrite(s, off, d), off, d, 0);
    lemma_le64_bytes(v);
}

/// A little-endian number is the sum of its bytes, each worth 256 times the one before.
pub proof fn law_little_endian(s: Seq<u8>, off: int)
    ensures
        le16(s, off) == s[off] + 0x100 * s[off + 1],
        le32(s, off) == s[off] + 0x100 * s[off + 1] + 0x1_0000 * s[off + 2] + 0x100_0000 * s[off
            + 3],
        le64(s, off) == s[off] + 0x100 * s[off + 1] + 0x1_0000 * s[off + 2] + 0x100_0000 * s[off
            + 3] + 0x1_0000_0000 * s[off + 4] + 0x100_0000_0000 * s[off + 5] + 0x1_0000_0000_0000
            * s[off + 6] + 0x100_0000_0000_0000 * s[off + 7],
{
    reveal(le16);
    reveal(le32);
    reveal(le64);
}

/// A big-endian number is the sum of its bytes, each worth 256 times the one behind it.
pub proof fn law_big_endian(s: Seq<u8>, off: int)
    ensures
        be16(s, off) == 0x100 * s[off] + s[off + 1],
        be32(s, off) == 0x100_0000 * s[off] + 0x1_0000 * s[off + 1] + 0x100 * s[off + 2] + s[off
            + 3],
        be64(s, off) == 0x100_0000_0000_0000 * s[off] + 0x1_0000_0000_0000 * s[off + 1]
            + 0x100_0000_0000 * s[off + 2] + 0x1_0000_0000 * s[off + 3] + 0x100_0000 * s[off + 4]
            + 0x1_0000 * s[off + 5] + 0x100 * s[off + 6] + s[off + 7],
{
    reveal(be16);
    reveal(be32);
    reveal(be64);
}

/// A written number reads back where it was written, and nothing else changes.
pub proof fn law_written_number_reads_back(s: Seq<u8>, off: int, v: int, j: int)
    requires
        0 <= off,
        0 <= j < s.len(),
    ensures
        off + 2 <= s.len() && 0 <= v < 0x1_0000 ==> {
            let t = overwrite(s, off, le16_bytes(v));
            &&& t.len() == s.len()
            &&& t[off] + 0x100 * t[off + 1] == v
            &&& !(off <= j < off + 2) ==> t[j] == s[j]
        },
        off + 4 <= s.len() && 0 <= v < 0x1_0000_0000 ==> {
            let t = overwrite(s, off, le32_bytes(v));
            &&& t.len() == s.len()
            &&& t[off] + 0x100 * t[off + 1] + 0x1_0000 * t[off + 2] + 0x100_0000 * t[off + 3] == v
            &&& !(off <= j < off + 4) ==> t[j] == s[j]
        },
        off + 8 <= s.len() && 0 <= v < 0x1_0000_0000_0000_0000 ==> {
            let t = overwrite(s, off, le64_bytes(v));
            &&& t.len() == s.len()
            &&& t[off] + 0x100 * t[off + 1] + 0x1_0000 * t[off + 2] + 0x100_0000 * t[off + 3]
                + 0x1_0000_0000 * t[off + 4] + 0x100_0000_0000 * t[off + 5] + 0x1_0000_0000_0000
                * t[off + 6] + 0x100_0000_0000_0000 * t[off + 7] == v
            &&& !(off <= j < off + 8) ==> t[j] == s[j]
        },
{
    broadcast use group_widths;

    if off + 2 <= s.len() && 0 <= v < 0x1_0000 {
        lemma_put16(s, off, v);
        law_little_endian(overwrite(s, off, le16_bytes(v)), off);
    }
    if off + 4 <= s.len() && 0 <= v < 0x1_0000_0000 {
        lemma_put32(s, off, v);
        law_little_endian(overwrite(s, off, le32_bytes(v)), off);
    }
    if off + 8 <= s.len() && 0 <= v < 0x1_0000_0000_0000_0000 {
        lemma_put64(s, off, v);
        law_little_endian(overwrite(s, off, le64_bytes(v)), off);
    }
}

/// What is written over a byte string stands there in order, the rest stays, and nothing
/// is added.
pub proof fn law_overwrite_replaces_stretch(s: Seq<u8>, off: int, data: Seq<u8>, j: int)
    requires
        0 <= off,
        off + data.len() <= s.len(),
        0 <= j < s.len(),
    ensures
        overwrite(s, off, data).len() == s.len(),
        overwrite(s, off, data)[j] == if j < off || off + data.len() <= j {
            s[j]
        } else {
            data[j - off]
        },
{
}

/// Rounding up reaches the next multiple.
pub proof fn lemma_aligned(v: int, align: int)
    requires
        0 <= v,
        0 <= align,
    ensures
        v <= aligned(v, align),
        align > 0 ==> aligned(v, align) < v + align,
        align == 0 ==> aligned(v, align) == v,
        align > 0 ==> aligned(v, align) % align == 0,
{
    if align > 0 {
        let w = v + align - 1;
        vstd::arithmetic::div_mod::lemma_fundamental_div_mod(w, align);
        vstd::arithmetic::mul::lemma_mul_is_commutative(align, w / align);
        vstd::arithmetic::div_mod::lemma_mod_multiples_basic(w / align, align);
    }
}

/// Rounding up gives the least multiple that is not below the number.
pub proof fn law_aligned_is_least_multiple(v: int, align: int, k: int)
    requires
        0 <= v,
        0 < align,
    ensures
        v <= aligned(v, align),
        aligned(v, align) % align == 0,
        v <= k * align ==> aligned(v, align) <= k * align,
        aligned(v, 0) == v,
{
    lemma_aligned(v, align);
    let q = (v + align - 1) / align;
    if v <= k * align && q * align > k * align {
        assert(q >= k + 1) by (nonlinear_arith)
            requires
                q * align > k * align,
                0 < align,
        ;
        assert(q * align >= k * align + align) by (nonlinear_arith)
            requires
                q >= k + 1,
                0 < align,
        ;
    }
}

/// `value` rounded up to a multiple of `align`; `value` itself where `align` is zero.
pub fn round_up(value: u128, align: u128) -> (r: u128)
    requires
        value + align <= u128::MAX,
    ensures
        r == aligned(value as int, align as int),
        value <= r <= value + align,
{
    proof {
        lemma_aligned(value as int, align as int);
    }
    if align == 0 {
        return value;
    }
    (value + align - 1) / align * align
}

/// Where a field of `width` bytes that lies `rel` bytes past `base` starts, if
/// all of its bytes lie inside `bytes`.
pub fn field_at(bytes: &[u8], base: u64, rel: u64, width: usize) -> (r: Option<usize>)
    ensures
        r matches Some(at) ==> at == base + rel && at + width <= bytes@.len(),
        r is None ==> base + rel + width > bytes@.len(),
{
    let n: usize = bytes.len();
    if base > n as u64 || rel > n as u64 - base {
        return None;
    }
    let at: usize = base as usize + rel as usize;
    if width > n - at {
        return None;
    }
    Some(at)
}

/// The 16-bit little-endian number `rel` bytes past `base`, where its bytes exist.
pub fn u16_at(bytes: &[u8], base: u64, rel: u64) -> (r: Option<u16>)
    ensures
        r matches Some(v) ==> base + rel + 2 <= bytes@.len() && v == le16(bytes@, base + rel),
        r is None ==> base + rel + 2 > bytes@.len(),
{
    proof {
        reveal(le16);
    }
    match field_at(bytes, base, rel, 2) {
        None => None,
        Some(at) => Some(bytes[at] as u16 + 0x100 * (bytes[at + 1] as u16)),
    }
}

/// The 32-bit little-endian number `rel` bytes past `base`, where its bytes exist.
pub fn u32_at(bytes: &[u8], base: u64, rel: u64) -> (r: Option<u32>)
    ensures
        r matches Some(v) ==> base + rel + 4 <= bytes@.len() && v == le32(bytes@, base + rel),
        r is None ==> base + rel + 4 > bytes@.len(),
{
    proof {
        reveal(le16);
        reveal(le32);
    }
    match field_at(bytes, base, rel, 4) {
        None => None,
        Some(at) => {
            let low: u32 = bytes[at] as u32 + 0x100 * (bytes[at + 1] as u32);
            let high: u32 = bytes[at + 2] as u32 + 0x100 * (bytes[at + 3] as u32);
            Some(low + 0x1_0000 * high)
        },
    }
}

/// The 64-bit little-endian number `rel` bytes past `base`, where its bytes exist.
pub fn u64_at(bytes: &[u8], base: u64, rel: u64) -> (r: Option<u64>)
    ensures
        r matches Some(v) ==> base + rel + 8 <= bytes@.len() && v == le64(bytes@, base + rel),
        r is None ==> base + rel + 8 > bytes@.len(),
{
    proof {
        reveal(le64);
    }
    match field_at(bytes, base, rel, 8) {
        None => None,
        Some(at) => match (u32_at(bytes, at as u64, 0), u32_at(bytes, at as u64, 4)) {
            (Some(low), Some(high)) => Some(low as u64 + 0x1_0000_0000 * (high as u64)),
            _ => None,
        },
    }
}

/// The 16-bit big-endian number `rel` bytes past `base`, where its bytes exist.
pub fn u16_be_at(bytes: &[u8], base: u64, rel: u64) -> (r: Option<u16>)
    ensures
        r matches Some(v) ==> base + rel + 2 <= bytes@.len() && v == be16(bytes@, base + rel),
        r is None ==> base + rel + 2 > bytes@.len(),
{
    proof {
        reveal(be16);
    }
    match field_at(bytes, base, rel, 2) {
        None => None,
        Some(at) => Some(0x100 * (bytes[at] as u16) + bytes[at + 1] as u16),
    }
}

/// The 32-bit big-endian number `rel` bytes past `base`, where its bytes exist.
pub fn u32_be_at(bytes: &[u8], base: u64, rel: u64) -> (r: Option<u32>)
    ensures
        r matches Some(v) ==> base + rel + 4 <= bytes@.len() && v == be32(bytes@, base + rel),
        r is None ==> base + rel + 4 > bytes@.len(),
{
    proof {
        reveal(be16);
        reveal(be32);
    }
    match field_at(bytes, base, rel, 4) {
        None => None,
        Some(at) => {
            let high: u32 = 0x100 * (bytes[at] as u32) + bytes[at + 1] as u32;
            let low: u32 = 0x100 * (bytes[at + 2] as u32) + bytes[at + 3] as u32;
            Some(0x1_0000 * high + low)
        },
    }
}

/// The 64-bit big-endian number `rel` bytes past `base`, where its bytes exist.
pub fn u64_be_at(bytes: &[u8], base: u64, rel: u64) -> (r: Option<u64>)
    ensures
        r matches Some(v) ==> base + rel + 8 <= bytes@.len() && v == be64(bytes@, base + rel),
        r is None ==> base + rel + 8 > bytes@.len(),
{
    proof {
        reveal(be64);
    }
    match field_at(bytes, base, rel, 8) {
        None => None,
        Some(at) => match (u32_be_at(bytes, at as u64, 0), u32_be_at(bytes, at as u64, 4)) {
            (Some(high), Some(low)) => Some(0x1_0000_0000 * (high as u64) + low as u64),
            _ => None,
        },
    }
}

/// The `n` bytes at `off`, where they all exist.
pub fn bytes_at(bytes: &[u8], off: u64, n: u64) -> (r: Option<&[u8]>)
    ensures
        r matches Some(v) ==> window(bytes@, off as int, n as int) == Some(v@),
        r is None ==> window(bytes@, off as int, n as int) is None,
{
    let len: usize = bytes.len();
    if off > len as u64 || n > len as u64 - off {
        return None;
    }
    Some(vstd::slice::slice_subrange(bytes, off as usize, off as usize + n as usize))
}

/// Whether two byte strings are the same.
pub fn same_bytes(a: &[u8], b: &[u8]) -> (r: bool)
    ensures
        r == (a@ == b@),
{
    if a.len() != b.len() {
        return false;
    }
    let mut i: usize = 0;
    while i < a.len()
        invariant
            a@.len() == b@.len(),
            i <= a@.len(),
            forall|k: int| 0 <= k < i ==> a@[k] == b@[k],
        decreases a@.len() - i,
    {
        if a[i] != b[i] {
            return false;
        }
        i += 1;
    }
    assert(a@ =~= b@);
    true
}

/// Appends `data` to `out`.
pub fn append(out: &mut Vec<u8>, data: &[u8])
    ensures
        final(out)@ == old(out)@ + data@,
{
    out.extend_from_slice(data);
    assert(out@ =~= old(out)@ + data@);
}

/// Appends zero bytes to `out` until it is `len` long.
pub fn pad_to(out: &mut Vec<u8>, len: usize)
    requires
        old(out)@.len() <= len,
    ensures
        final(out)@ == old(out)@ + zeros(len - old(out)@.len()),
{
    let ghost before = out@;
    out.resize(len, 0);
    proof {
        if len > before.len() {
            assert forall|i: int| 0 <= i < before.len() implies out@[i] == before[i] by {
                assert(out@.subrange(0, before.len() as int)[i] == out@[i]);
            }
        }
        assert(out@ =~= before + zeros(len - before.len()));
    }
}

/// A vector of `n` zero bytes.
pub fn zeroed(n: usize) -> (r: Vec<u8>)
    ensures
        r@ == zeros(n as int),
{
    let r: Vec<u8> = vec![0u8; n];
    assert(r@ =~= zeros(n as int));
    r
}

/// Writes `data` over `out` from `off` on.
pub fn put_bytes(out: &mut Vec<u8>, off: usize, data: &[u8])
    requires
        off + data@.len() <= old(out)@.len(),
    ensures
        final(out)@ == overwrite(old(out)@, off as int, data@),
{
    let ghost before = out@;
    let mut i: usize = 0;
    while i < data.len()
        invariant
            i <= data@.len(),
            off + data@.len() <= out@.len(),
            out@.len() == before.len(),
            out@ == overwrite(before, off as int, data@.take(i as int)),
        decreases data@.len() - i,
    {
        assert(out.len() >= off + data.len());
        out[off + i] = data[i];
        i += 1;
        assert(out@ =~= overwrite(before, off as int, data@.take(i as int)));
    }
    assert(data@.take(i as int) =~= data@);
    assert(out@ =~= overwrite(before, off as int, data@));
}

/// Writes a 16-bit number at `off`, least significant byte first.
pub fn put_u16(out: &mut Vec<u8>, off: usize, value: u16)
    requires
        off + 2 <= old(out)@.len(),
    ensures
        final(out)@ == overwrite(old(out)@, off as int, le16_bytes(value as int)),
{
    assert(out.len() >= off + 2);
    out[off] = (value % 0x100) as u8;
    out[off + 1] = (value / 0x100 % 0x100) as u8;
    proof {
        reveal(le16_bytes);
        assert(out@ =~= overwrite(old(out)@, off as int, le16_bytes(value as int)));
    }
}

/// Writes a 32-bit number at `off`, least significant byte first.
pub fn put_u32(out: &mut Vec<u8>, off: usize, value: u32)
    requires
        off + 4 <= old(out)@.len(),
    ensures
        final(out)@ == overwrite(old(out)@, off as int, le32_bytes(value as int)),
{
    assert(out.len() >= off + 4);
    put_u16(out, off, (value % 0x1_0000) as u16);
    put_u16(out, off + 2, (value / 0x1_0000) as u16);
    proof {
        reveal(le32_bytes);
        lemma_le16_len(value as int % 0x1_0000);
        lemma_le16_len(value as int / 0x1_0000);
        assert(out@ =~= overwrite(old(out)@, off as int, le32_bytes(value as int)));
    }
}

/// Writes a 64-bit number at `off`, least significant byte first.
pub fn put_u64(out: &mut Vec<u8>, off: usize, value: u64)
    requires
        off + 8 <= old(out)@.len(),
    ensures
        final(out)@ == overwrite(old(out)@, off as int, le64_bytes(value as int)),
{
    assert(out.len() >= off + 8);
    put_u32(out, off, (value % 0x1_0000_0000) as u32);
    put_u32(out, off + 4, (value / 0x1_0000_0000) as u32);
    proof {
        reveal(le64_bytes);
        lemma_le32_len(value as int % 0x1_0000_0000);
        lemma_le32_len(value as int / 0x1_0000_0000);
        assert(out@ =~= overwrite(old(out)@, off as int, le64_bytes(value as int)));
    }
}

} // verus!
