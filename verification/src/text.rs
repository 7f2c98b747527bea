//! Small texts: numbers, comparisons, searches.

use vstd::prelude::*;
use vstd::string::*;

use crate::bytes::same_bytes;

verus! {

/// The character for a digit below sixteen.
pub open spec fn digit(d: int) -> char {
    if d == 0 { '0' }
    else if d == 1 { '1' }
    else if d == 2 { '2' }
    else if d == 3 { '3' }
    else if d == 4 { '4' }
    else if d == 5 { '5' }
    else if d == 6 { '6' }
    else if d == 7 { '7' }
    else if d == 8 { '8' }
    else if d == 9 { '9' }
    else if d == 10 { 'a' }
    else if d == 11 { 'b' }
    else if d == 12 { 'c' }
    else if d == 13 { 'd' }
    else if d == 14 { 'e' }
    else { 'f' }
}

/// `n` in decimal, without leading zeros.
pub open spec fn decimal_text(n: int) -> Seq<char>
    decreases n,
{
    if n < 10 {
        seq![digit(n)]
    } else {
        decimal_text(n / 10).push(digit(n % 10))
    }
}

/// The lowest `width` hexadecimal digits of `n`, leading zeros included.
pub open spec fn hex_text(n: int, width: int) -> Seq<char>
    decreases width,
{
    if width <= 0 {
        seq![]
    } else {
        hex_text(n / 16, width - 1).push(digit(n % 16))
    }
}

/// Appends the character for a digit below sixteen.
fn push_digit(s: &mut String, d: u8)
    requires
        d < 16,
    ensures
        final(s)@ == old(s)@.push(digit(d as int)),
{
    proof {
        reveal_strlit("0");
        reveal_strlit("1");
        reveal_strlit("2");
        reveal_strlit("3");
        reveal_strlit("4");
        reveal_strlit("5");
        reveal_strlit("6");
        reveal_strlit("7");
        reveal_strlit("8");
        reveal_strlit("9");
        reveal_strlit("a");
        reveal_strlit("b");
        reveal_strlit("c");
        reveal_strlit("d");
        reveal_strlit("e");
        reveal_strlit("f");
    }
    let glyph: &str = match d {
        0 => "0",
        1 => "1",
        2 => "2",
        3 => "3",
        4 => "4",
        5 => "5",
        6 => "6",
        7 => "7",
        8 => "8",
        9 => "9",
        10 => "a",
        11 => "b",
        12 => "c",
        13 => "d",
        14 => "e",
        _ => "f",
    };
    s.append(glyph);
    assert(s@ =~= old(s)@.push(digit(d as int)));
}

/// `n` in decimal.
pub fn decimal(n: u64) -> (r: String)
    ensures
        r@ == decimal_text(n as int),
    decreases n,
{
    let mut s: String = if n < 10 {
        String::new()
    } else {
        decimal(n / 10)
    };
    push_digit(&mut s, (n % 10) as u8);
    assert(s@ =~= decimal_text(n as int));
    s
}

/// The lowest `width` hexadecimal digits of `n`.
fn hex_digits(n: u64, width: usize) -> (r: String)
    ensures
        r@ == hex_text(n as int, width as int),
    decreases width,
{
    if width == 0 {
        return String::new();
    }
    let mut s: String = hex_digits(n / 16, width - 1);
    push_digit(&mut s, (n % 16) as u8);
    s
}

/// `n` as sixteen hexadecimal digits.
pub fn hex16(n: u64) -> (r: String)
    ensures
        r@ == hex_text(n as int, 16),
{
    hex_digits(n, 16)
}

/// Sixteen hexadecimal digits name one number.
pub proof fn law_hex_is_injective(m: int, n: int, width: int)
    requires
        0 <= m,
        0 <= n,
        0 <= width,
        m < vstd::arithmetic::power::pow(16, width as nat),
        n < vstd::arithmetic::power::pow(16, width as nat),
        hex_text(m, width) == hex_text(n, width),
    ensures
        m == n,
    decreases width,
{
    vstd::arithmetic::power::lemma_pow0(16);
    if width > 0 {
        let above = vstd::arithmetic::power::pow(16, (width - 1) as nat);
        vstd::arithmetic::power::lemma_pow_adds(16, 1, (width - 1) as nat);
        vstd::arithmetic::power::lemma_pow1(16);
        assert(vstd::arithmetic::power::pow(16, width as nat) == 16 * above);
        let a = hex_text(m / 16, width - 1);
        let b = hex_text(n / 16, width - 1);
        assert(hex_text(m, width).drop_last() =~= a);
        assert(hex_text(n, width).drop_last() =~= b);
        assert(hex_text(m, width).last() == digit(m % 16));
        assert(hex_text(n, width).last() == digit(n % 16));
        law_hex_is_injective(m / 16, n / 16, width - 1);
    }
}

/// Decimal text: the digits `0` to `9` stand for themselves, and a number with one digit
/// more has that digit behind the others.
pub proof fn law_decimal_digits(n: int, d: int)
    requires
        0 <= d < 10,
    ensures
        decimal_text(d).len() == 1,
        decimal_text(d)[0] as int == 48 + d,
        0 < n ==> decimal_text(10 * n + d) == decimal_text(n) + decimal_text(d),
{
    if 0 < n {
        assert(decimal_text(10 * n + d) =~= decimal_text(n) + decimal_text(d));
    }
}

/// Decimal text names one number.
pub proof fn law_decimal_is_injective(m: int, n: int)
    requires
        0 <= m,
        0 <= n,
        decimal_text(m) == decimal_text(n),
    ensures
        m == n,
    decreases m,
{
    lemma_decimal_length(m);
    lemma_decimal_length(n);
    let s = decimal_text(m);
    let t = decimal_text(n);
    assert(s.last() == digit(m % 10)) by {
        if m < 10 {
            assert(m % 10 == m);
        }
    }
    assert(t.last() == digit(n % 10)) by {
        if n < 10 {
            assert(n % 10 == n);
        }
    }
    if m >= 10 {
        assert(s.drop_last() =~= decimal_text(m / 10));
        assert(t.drop_last() =~= decimal_text(n / 10));
        law_decimal_is_injective(m / 10, n / 10);
    }
}

/// A number below ten has one decimal digit, any other more.
proof fn lemma_decimal_length(n: int)
    requires
        0 <= n,
    ensures
        decimal_text(n).len() >= 1,
        decimal_text(n).len() == 1 <==> n < 10,
    decreases n,
{
    if n >= 10 {
        lemma_decimal_length(n / 10);
    }
}

/// Hexadecimal text has as many digits as asked for, in lower case: the lowest one stands
/// last, behind those of the rest.
pub proof fn law_hex_digits(n: int, d: int, width: int)
    requires
        0 <= n,
        0 <= d < 16,
        0 <= width,
    ensures
        hex_text(n, 0).len() == 0,
        hex_text(16 * n + d, width + 1).len() == width + 1,
        hex_text(16 * n + d, width + 1).drop_last() == hex_text(n, width),
        hex_text(16 * n + d, width + 1).last() as int == if d < 10 {
            48 + d
        } else {
            87 + d
        },
{
    let t = hex_text(16 * n + d, width + 1);
    assert(t.drop_last() =~= hex_text(n, width));
    lemma_hex_length(n, width);
}

/// The length of a hexadecimal number.
proof fn lemma_hex_length(n: int, width: int)
    requires
        0 <= width,
    ensures
        hex_text(n, width).len() == width,
    decreases width,
{
    if width > 0 {
        lemma_hex_length(n / 16, width - 1);
    }
}

/// Whether two texts are the same.
pub fn same_text(a: &str, b: &str) -> (r: bool)
    ensures
        r == (a@ == b@),
{
    let r: bool = same_bytes(a.as_bytes(), b.as_bytes());
    proof {
        vstd::utf8::encode_utf8_decode_utf8(a@);
        vstd::utf8::encode_utf8_decode_utf8(b@);
    }
    r
}

/// The two texts, one after the other.
pub fn joined(a: &str, b: &str) -> (r: String)
    ensures
        r@ == a@ + b@,
{
    let mut s: String = a.to_owned();
    s.append(b);
    s
}

/// `needle` occurs in `hay` at `at`.
pub open spec fn occurs_at(hay: Seq<u8>, needle: Seq<u8>, at: int) -> bool {
    0 <= at && at + needle.len() <= hay.len() && hay.subrange(at, at + needle.len()) == needle
}

/// `needle` occurs somewhere in `hay`.
pub open spec fn occurs_in(hay: Seq<u8>, needle: Seq<u8>) -> bool {
    exists|at: int| #[trigger] occurs_at(hay, needle, at)
}

/// A text occurs in another exactly where that is made of something, the text, and
/// something else.
pub proof fn law_occurs_between(hay: Seq<u8>, needle: Seq<u8>, before: Seq<u8>, after: Seq<u8>)
    ensures
        occurs_in(before + needle + after, needle),
        occurs_in(hay, needle) ==> exists|front: Seq<u8>, back: Seq<u8>|
            hay == #[trigger] (front + needle + back),
{
    let whole = before + needle + after;
    let at = before.len() as int;
    assert(whole.subrange(at, at + needle.len()) =~= needle);
    assert(occurs_at(whole, needle, at));
    if occurs_in(hay, needle) {
        let at = choose|at: int| #[trigger] occurs_at(hay, needle, at);
        let front = hay.take(at);
        let back = hay.skip(at + needle.len());
        assert(hay =~= front + hay.subrange(at, at + needle.len()) + back);
        assert(hay == front + needle + back);
    }
}

/// Whether `needle` occurs in `hay` at `at`.
fn found_at(hay: &[u8], needle: &[u8], at: usize) -> (r: bool)
    ensures
        r == occurs_at(hay@, needle@, at as int),
{
    if at > hay.len() || needle.len() > hay.len() - at {
        return false;
    }
    same_bytes(vstd::slice::slice_subrange(hay, at, at + needle.len()), needle)
}

/// Whether `needle` occurs somewhere in `hay`.
pub fn contains(hay: &[u8], needle: &[u8]) -> (r: bool)
    ensures
        r == occurs_in(hay@, needle@),
{
    let mut at: usize = 0;
    while at < hay.len()
        invariant
            at <= hay@.len(),
            forall|k: int| 0 <= k < at ==> !#[trigger] occurs_at(hay@, needle@, k),
        decreases hay@.len() - at,
    {
        if found_at(hay, needle, at) {
            return true;
        }
        at += 1;
    }
    found_at(hay, needle, at)
}

/// Whether `hay` ends with `needle`.
pub fn ends_with(hay: &[u8], needle: &[u8]) -> (r: bool)
    ensures
        r == (needle@.len() <= hay@.len() && occurs_at(
            hay@,
            needle@,
            hay@.len() - needle@.len(),
        )),
{
    needle.len() <= hay.len() && found_at(hay, needle, hay.len() - needle.len())
}

} // verus!
