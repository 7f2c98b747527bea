//! The producer's arguments.

use vstd::prelude::*;
use vstd::string::*;

use crate::text::{decimal, decimal_text, joined, same_text};

verus! {

/// The level where none is given: the smallest blob that takes under a second.
pub const DEFAULT_LEVEL: i32 = 16;

/// The highest level: the smallest blob where time does not matter.
pub const MAX_LEVEL: i32 = 22;

/// The lowest level.
pub const MIN_LEVEL: i32 = 1;

/// What a producer is asked to do.
#[derive(Debug)]
pub struct Args {
    /// The path of the prebuilt stub.
    pub stub: String,
    /// The path of the built addon.
    pub raw: String,
    /// The path of the output.
    pub out: String,
    pub level: i32,
}

/// A decimal digit.
pub open spec fn is_digit(c: char) -> bool {
    '0' <= c <= '9'
}

/// The number that decimal digits stand for.
pub open spec fn digits_value(s: Seq<char>) -> int
    decreases s.len(),
{
    if s.len() == 0 {
        0
    } else {
        digits_value(s.drop_last()) * 10 + (s.last() as int - '0' as int)
    }
}

/// A number that may have a sign in front.
pub open spec fn is_signed(s: Seq<char>) -> bool {
    s.len() > 0 && (s[0] == '-' || s[0] == '+')
}

/// What follows the sign, if there is one.
pub open spec fn unsigned(s: Seq<char>) -> Seq<char> {
    if is_signed(s) {
        s.skip(1)
    } else {
        s
    }
}

/// Nothing but digits.
pub open spec fn all_digits(s: Seq<char>) -> bool {
    forall|i: int| 0 <= i < s.len() ==> is_digit(#[trigger] s[i])
}

/// The 32-bit number that a text stands for: an optional sign and decimal digits.
pub open spec fn parsed_i32(s: Seq<char>) -> Option<int> {
    let digits = unsigned(s);
    let value = if s.len() > 0 && s[0] == '-' {
        -digits_value(digits)
    } else {
        digits_value(digits)
    };
    if digits.len() > 0 && all_digits(digits) && i32::MIN <= value <= i32::MAX {
        Some(value)
    } else {
        None
    }
}

/// Digits stand for at least what a leading part of them stands for.
proof fn lemma_prefix(s: Seq<char>, n: int)
    requires
        0 <= n <= s.len(),
        all_digits(s),
    ensures
        0 <= digits_value(s.take(n)) <= digits_value(s),
    decreases s.len(),
{
    assert(s.take(s.len() as int) =~= s);
    if s.len() > 0 {
        let rest = s.drop_last();
        if n < s.len() {
            lemma_prefix(rest, n);
            assert(rest.take(n) =~= s.take(n));
        } else {
            lemma_prefix(rest, rest.len() as int);
            assert(rest.take(rest.len() as int) =~= rest);
        }
        assert(is_digit(s.last()));
    }
}

/// A digit's value.
fn digit_value(c: char) -> (r: Option<u64>)
    ensures
        match r {
            Some(d) => is_digit(c) && d == c as int - '0' as int,
            None => !is_digit(c),
        },
{
    if '0' <= c && c <= '9' {
        Some(c as u64 - '0' as u64)
    } else {
        None
    }
}

/// The number that a text stands for, if it is one that fits 32 bits.
pub fn parse_i32(text: &str) -> (r: Option<i32>)
    ensures
        match r {
            Some(v) => parsed_i32(text@) == Some(v as int),
            None => parsed_i32(text@) is None,
        },
{
    let len: usize = text.unicode_len();
    if len == 0 {
        return None;
    }
    let first: char = text.get_char(0);
    let negative: bool = first == '-';
    let start: usize = if negative || first == '+' {
        1
    } else {
        0
    };
    let ghost digits = unsigned(text@);
    assert(digits =~= text@.skip(start as int));
    if start == len {
        return None;
    }
    let mut value: u64 = 0;
    let mut i: usize = start;
    while i < len
        invariant
            start <= i <= len == text@.len(),
            digits == text@.skip(start as int),
            digits == unsigned(text@),
            value <= 0x8000_0000,
            value == digits_value(digits.take(i - start)),
            forall|k: int| 0 <= k < i - start ==> is_digit(#[trigger] digits[k]),
        decreases len - i,
    {
        let c: char = text.get_char(i);
        assert(c == digits[i - start]);
        let d: u64 = match digit_value(c) {
            Some(d) => d,
            None => {
                assert(!is_digit(digits[i - start]));
                return None;
            },
        };
        value = value * 10 + d;
        i += 1;
        proof {
            let next = digits.take(i - start);
            assert(next.drop_last() =~= digits.take(i - 1 - start));
            assert(next.last() == c);
        }
        if value > 0x8000_0000 {
            proof {
                if all_digits(digits) {
                    lemma_prefix(digits, i - start);
                }
            }
            return None;
        }
    }
    assert(digits.take(i - start) =~= digits);
    if negative {
        Some((0 - value as i64) as i32)
    } else if value == 0x8000_0000 {
        None
    } else {
        Some(value as i32)
    }
}

/// The level nearest to the one asked for.
pub open spec fn clamped(level: int) -> int {
    if level < MIN_LEVEL {
        MIN_LEVEL as int
    } else if level > MAX_LEVEL {
        MAX_LEVEL as int
    } else {
        level
    }
}

/// How `{:?}` shows a text: in quotation marks, with escapes.
pub uninterp spec fn debug_text(text: Seq<char>) -> Seq<char>;

/// Shows a text as the `Debug` implementation of `str` does.
#[verifier::external_body]
fn debug(text: &str) -> (r: String)
    ensures
        r@ == debug_text(text@),
{
    format!("{text:?}")
}

/// The message for bad arguments.
pub open spec fn usage_text(detail: Seq<char>) -> Seq<char> {
    "napi-compress: bad arguments.\n  What:  "@ + detail
        + "\n  Where: napi-compress <stub.node> <raw.node> <out.node> [--level <1..=22>]\n  Fix:   pass the prebuilt stub, the built addon, and the output path."@
}

/// The message for bad arguments.
pub fn usage(detail: &str) -> (r: String)
    ensures
        r@ == usage_text(detail@),
{
    let mut s: String = joined("napi-compress: bad arguments.\n  What:  ", detail);
    s.append(
        "\n  Where: napi-compress <stub.node> <raw.node> <out.node> [--level <1..=22>]\n  Fix:   pass the prebuilt stub, the built addon, and the output path.",
    );
    s
}

/// Texts as mathematical sequences.
pub open spec fn texts(args: Seq<String>) -> Seq<Seq<char>> {
    Seq::new(args.len(), |i: int| args[i]@)
}

/// A flag, by its two leading hyphens.
pub open spec fn is_flag(arg: Seq<char>) -> bool {
    arg.len() >= 2 && arg[0] == '-' && arg[1] == '-'
}

/// The walk over the arguments from the `i`-th on, given the paths and the level so
/// far: all paths and the last level, or the message for the first bad argument.
pub open spec fn args_walk(
    args: Seq<Seq<char>>,
    i: int,
    paths: Seq<Seq<char>>,
    level: int,
) -> Result<(Seq<Seq<char>>, int), Seq<char>>
    decreases args.len() - i,
{
    if i >= args.len() {
        Ok((paths, level))
    } else if args[i] == "--level"@ {
        if i + 1 >= args.len() {
            Err(usage_text("--level needs a value"@))
        } else {
            match parsed_i32(args[i + 1]) {
                None => Err(
                    usage_text(
                        "--level value "@ + debug_text(args[i + 1]) + " is not an integer"@,
                    ),
                ),
                Some(v) => args_walk(args, i + 2, paths, clamped(v)),
            }
        }
    } else if is_flag(args[i]) {
        Err(usage_text("unknown flag "@ + debug_text(args[i])))
    } else {
        args_walk(args, i + 1, paths.push(args[i]), level)
    }
}

/// What the arguments ask for, or the message that refuses them.
pub open spec fn args_result(args: Seq<Seq<char>>) -> Result<(Seq<Seq<char>>, int), Seq<char>> {
    match args_walk(args, 0, seq![], DEFAULT_LEVEL as int) {
        Err(message) => Err(message),
        Ok((paths, level)) => if paths.len() != 3 {
            Err(
                usage_text(
                    "expected 3 positional paths, got "@ + decimal_text(paths.len() as int),
                ),
            )
        } else {
            Ok((paths, level))
        },
    }
}

/// Whether an argument is a flag.
fn has_hyphens(arg: &str) -> (r: bool)
    ensures
        r == is_flag(arg@),
{
    arg.unicode_len() >= 2 && arg.get_char(0) == '-' && arg.get_char(1) == '-'
}

/// Reads the arguments behind the program's name: three paths, and optionally a
/// level, which is brought into range.
pub fn parse_args(args: &Vec<String>) -> (r: Result<Args, String>)
    ensures
        match args_result(texts(args@)) {
            Err(text) => r matches Err(message) && message@ == text,
            Ok((paths, level)) => r matches Ok(v) && paths == seq![v.stub@, v.raw@, v.out@]
                && v.level == level,
        },
        r matches Ok(v) ==> MIN_LEVEL <= v.level <= MAX_LEVEL,
{
    let ghost all = texts(args@);
    let mut paths: Vec<String> = Vec::new();
    let mut level: i32 = DEFAULT_LEVEL;
    let mut i: usize = 0;
    assert(texts(paths@) =~= seq![]);
    while i < args.len()
        invariant
            i <= args@.len(),
            all == texts(args@),
            MIN_LEVEL <= level <= MAX_LEVEL,
            args_walk(all, 0, seq![], DEFAULT_LEVEL as int) == args_walk(
                all,
                i as int,
                texts(paths@),
                level as int,
            ),
        decreases args@.len() - i,
    {
        let arg: &str = args[i].as_str();
        assert(all[i as int] == arg@);
        if same_text(arg, "--level") {
            i += 1;
            if i >= args.len() {
                return Err(usage("--level needs a value"));
            }
            let value: &str = args[i].as_str();
            assert(all[i as int] == value@);
            match parse_i32(value) {
                Some(v) => {
                    level = if v < MIN_LEVEL {
                        MIN_LEVEL
                    } else if v > MAX_LEVEL {
                        MAX_LEVEL
                    } else {
                        v
                    };
                },
                None => {
                    let shown: String = debug(value);
                    let mut detail: String = joined("--level value ", shown.as_str());
                    detail.append(" is not an integer");
                    return Err(usage(detail.as_str()));
                },
            }
        } else if has_hyphens(arg) {
            let shown: String = debug(arg);
            return Err(usage(joined("unknown flag ", shown.as_str()).as_str()));
        } else {
            let ghost before = paths@;
            paths.push(arg.to_owned());
            assert(texts(paths@) =~= texts(before).push(arg@));
        }
        i += 1;
    }
    if paths.len() != 3 {
        let got: String = decimal(paths.len() as u64);
        return Err(usage(joined("expected 3 positional paths, got ", got.as_str()).as_str()));
    }
    let stub: String = paths[0].as_str().to_owned();
    let raw: String = paths[1].as_str().to_owned();
    let out: String = paths[2].as_str().to_owned();
    assert(texts(paths@) =~= seq![stub@, raw@, out@]);
    Ok(Args { stub, raw, out, level })
}

/// Whatever level is asked for, the one used is within the range that the usage
/// message gives.
pub proof fn law_level_in_range(args: Seq<Seq<char>>, i: int, paths: Seq<Seq<char>>, level: int)
    requires
        MIN_LEVEL <= level <= MAX_LEVEL,
    ensures
        args_walk(args, i, paths, level) matches Ok((_, used)) ==> MIN_LEVEL <= used <= MAX_LEVEL,
    decreases args.len() - i,
{
    if i < args.len() {
        if args[i] == "--level"@ {
            if i + 1 < args.len() {
                if let Some(v) = parsed_i32(args[i + 1]) {
                    law_level_in_range(args, i + 2, paths, clamped(v));
                }
            }
        } else {
            law_level_in_range(args, i + 1, paths.push(args[i]), level);
        }
    }
}

/// Digits stand for a number by their places: one more digit makes the number ten times as
/// large and adds itself.
pub proof fn law_digits_count_by_place(digits: Seq<char>, d: int)
    requires
        0 <= d <= 9,
    ensures
        digits_value(seq![]) == 0,
        digits_value(digits.push((48 + d) as char)) == 10 * digits_value(digits) + d,
{
    let more = digits.push((48 + d) as char);
    assert(more.drop_last() =~= digits);
    assert(more.last() as int == 48 + d);
}

/// A text of digits, with a sign or without, is the number that the digits stand for where
/// that fits 32 bits. The range has one negative number more.
pub proof fn law_number_is_sign_and_digits(digits: Seq<char>)
    requires
        digits.len() > 0,
        forall|i: int| 0 <= i < digits.len() ==> 48 <= #[trigger] digits[i] as int <= 57,
    ensures
        ({
            let value = digits_value(digits);
            &&& 0 <= value
            &&& parsed_i32(digits) == if value <= 0x7fff_ffff {
                Some(value)
            } else {
                None
            }
            &&& parsed_i32(seq!['+'] + digits) == parsed_i32(digits)
            &&& parsed_i32(seq!['-'] + digits) == if value <= 0x8000_0000 {
                Some(-value)
            } else {
                None
            }
        }),
{
    assert forall|i: int| 0 <= i < digits.len() implies is_digit(#[trigger] digits[i]) by {
        assert(48 <= digits[i] as int <= 57);
    }
    lemma_prefix(digits, 0);
    assert(digits.take(0) =~= seq![]);
    assert(48 <= digits[0] as int <= 57);
    assert(unsigned(digits) == digits);
    assert((seq!['+'] + digits).skip(1) =~= digits);
    assert((seq!['-'] + digits).skip(1) =~= digits);
}

/// A text with anything but digits behind an optional sign is no number, nor is one without
/// digits.
pub proof fn law_number_has_nothing_else(text: Seq<char>, i: int)
    ensures
        text.len() == 0 ==> parsed_i32(text) is None,
        text == seq!['-'] || text == seq!['+'] ==> parsed_i32(text) is None,
        0 <= i < text.len() && !('0' <= text[i] <= '9') && (i > 0 || (text[0] != '-' && text[0]
            != '+')) ==> parsed_i32(text) is None,
{
    if 0 <= i < text.len() && !('0' <= text[i] <= '9') && (i > 0 || (text[0] != '-' && text[0]
        != '+')) {
        let digits = unsigned(text);
        let at = if is_signed(text) {
            i - 1
        } else {
            i
        };
        assert(digits[at] == text[i]);
        assert(!is_digit(digits[at]));
    }
}

/// A level is brought to the nearest one between 1 and 22.
pub proof fn law_level_is_nearest(level: int, other: int)
    requires
        1 <= other <= 22,
    ensures
        1 <= clamped(level) <= 22,
        1 <= level <= 22 ==> clamped(level) == level,
        clamped(level) - level <= other - level || level - clamped(level) <= level - other,
        level < 1 ==> clamped(level) == 1,
        level > 22 ==> clamped(level) == 22,
{
}

/// Where a walk is does not matter, only what is ahead of it.
proof fn lemma_ahead(
    args: Seq<Seq<char>>,
    i: int,
    rest: Seq<Seq<char>>,
    j: int,
    paths: Seq<Seq<char>>,
    level: int,
)
    requires
        0 <= i <= args.len(),
        0 <= j <= rest.len(),
        args.skip(i) == rest.skip(j),
    ensures
        args_walk(args, i, paths, level) == args_walk(rest, j, paths, level),
    decreases args.len() - i,
{
    assert(args.skip(i).len() == args.len() - i);
    assert(rest.skip(j).len() == rest.len() - j);
    if i < args.len() {
        assert(args[i] == args.skip(i)[0]);
        assert(rest[j] == rest.skip(j)[0]);
        assert(args.skip(i).skip(1) =~= args.skip(i + 1));
        assert(rest.skip(j).skip(1) =~= rest.skip(j + 1));
        if args[i] == "--level"@ {
            if i + 1 < args.len() {
                assert(args[i + 1] == args.skip(i)[1]);
                assert(rest[j + 1] == rest.skip(j)[1]);
                assert(args.skip(i).skip(2) =~= args.skip(i + 2));
                assert(rest.skip(j).skip(2) =~= rest.skip(j + 2));
                if let Some(v) = parsed_i32(args[i + 1]) {
                    lemma_ahead(args, i + 2, rest, j + 2, paths, clamped(v));
                }
            }
        } else if !is_flag(args[i]) {
            lemma_ahead(args, i + 1, rest, j + 1, paths.push(args[i]), level);
        }
    }
}

/// A walk over more arguments starts as one over the first of them.
proof fn lemma_front(
    front: Seq<Seq<char>>,
    i: int,
    back: Seq<Seq<char>>,
    paths: Seq<Seq<char>>,
    level: int,
)
    requires
        0 <= i <= front.len(),
        args_walk(front, i, paths, level) is Ok,
    ensures
        args_walk(front, i, paths, level) matches Ok((p, l)) && args_walk(
            front + back,
            i,
            paths,
            level,
        ) == args_walk(back, 0, p, l),
    decreases front.len() - i,
{
    let all = front + back;
    if i < front.len() {
        assert(all[i] == front[i]);
        if front[i] == "--level"@ {
            assert(all[i + 1] == front[i + 1]);
            lemma_front(front, i + 2, back, paths, clamped(parsed_i32(front[i + 1])->0));
        } else {
            lemma_front(front, i + 1, back, paths.push(front[i]), level);
        }
    } else {
        assert(all.skip(i) =~= back.skip(0));
        lemma_ahead(all, i, back, 0, paths, level);
    }
}

/// Arguments are read one behind the other: what follows well-formed ones is read with the
/// paths and the level that these gave.
pub proof fn law_arguments_add_up(
    front: Seq<Seq<char>>,
    back: Seq<Seq<char>>,
    paths: Seq<Seq<char>>,
    level: int,
)
    requires
        args_walk(front, 0, paths, level) is Ok,
    ensures
        args_walk(front, 0, paths, level) matches Ok((p, l)) && args_walk(
            front + back,
            0,
            paths,
            level,
        ) == args_walk(back, 0, p, l),
{
    lemma_front(front, 0, back, paths, level);
}

/// A text that starts with two hyphens.
proof fn lemma_level_is_flag()
    ensures
        is_flag("--level"@),
{
    reveal_strlit("--level");
}

/// One argument: a path is added to the paths, and a flag that is not known is refused,
/// whatever follows.
pub proof fn law_argument_is_path_or_refused(
    arg: Seq<char>,
    back: Seq<Seq<char>>,
    paths: Seq<Seq<char>>,
    level: int,
)
    ensures
        !(arg.len() >= 2 && arg[0] == '-' && arg[1] == '-') ==> args_walk(
            seq![arg] + back,
            0,
            paths,
            level,
        ) == args_walk(back, 0, paths.push(arg), level),
        arg.len() >= 2 && arg[0] == '-' && arg[1] == '-' && arg != "--level"@ ==> args_walk(
            seq![arg] + back,
            0,
            paths,
            level,
        ) == Err::<(Seq<Seq<char>>, int), Seq<char>>(usage_text("unknown flag "@ + debug_text(arg))),
{
    let all = seq![arg] + back;
    lemma_level_is_flag();
    assert(all[0] == arg);
    if !is_flag(arg) {
        assert(all.skip(1) =~= back.skip(0));
        lemma_ahead(all, 1, back, 0, paths.push(arg), level);
    }
}

/// A level replaces the one before it, wherever among the arguments it stands. One that is
/// no number is refused, and so is one that is missing.
pub proof fn law_level_replaces_level(
    value: Seq<char>,
    back: Seq<Seq<char>>,
    paths: Seq<Seq<char>>,
    level: int,
)
    ensures
        args_walk(seq!["--level"@, value] + back, 0, paths, level) == match parsed_i32(value) {
            Some(v) => args_walk(
                back,
                0,
                paths,
                if v < 1 {
                    1
                } else if v > 22 {
                    22
                } else {
                    v
                },
            ),
            None => Err(
                usage_text("--level value "@ + debug_text(value) + " is not an integer"@),
            ),
        },
        args_walk(seq!["--level"@], 0, paths, level) == Err::<(Seq<Seq<char>>, int), Seq<char>>(
            usage_text("--level needs a value"@),
        ),
{
    let all = seq!["--level"@, value] + back;
    assert(all[0] == "--level"@);
    assert(all[1] == value);
    if let Some(v) = parsed_i32(value) {
        assert(all.skip(2) =~= back.skip(0));
        lemma_ahead(all, 2, back, 0, paths, clamped(v));
    }
}

/// Three paths are asked for, neither fewer nor more, and the level is 16 where none is
/// given.
pub proof fn law_three_paths_are_asked_for(args: Seq<Seq<char>>)
    ensures
        args_walk(args, 0, seq![], 16) matches Ok((paths, level)) ==> args_result(args)
            == if paths.len() == 3 {
            Ok((paths, level))
        } else {
            Err(usage_text("expected 3 positional paths, got "@ + decimal_text(paths.len() as int)))
        },
        args_walk(args, 0, seq![], 16) matches Err(message) ==> args_result(args) == Err::<
            (Seq<Seq<char>>, int),
            Seq<char>,
        >(message),
        args_walk(seq![], 0, args, 16) == Ok::<(Seq<Seq<char>>, int), Seq<char>>((args, 16)),
{
}

/// Three paths and a level are taken as they are, in the order they are given, with the
/// level in front of the paths or behind them.
pub proof fn law_level_stands_anywhere(
    stub: Seq<char>,
    raw: Seq<char>,
    out: Seq<char>,
    value: Seq<char>,
)
    requires
        !(stub.len() >= 2 && stub[0] == '-' && stub[1] == '-'),
        !(raw.len() >= 2 && raw[0] == '-' && raw[1] == '-'),
        !(out.len() >= 2 && out[0] == '-' && out[1] == '-'),
        parsed_i32(value) matches Some(v) && 1 <= v <= 22,
    ensures
        args_result(seq![stub, raw, out]) == Ok::<(Seq<Seq<char>>, int), Seq<char>>(
            (seq![stub, raw, out], 16),
        ),
        parsed_i32(value) matches Some(v) && args_result(seq![stub, raw, out, "--level"@, value])
            == Ok::<(Seq<Seq<char>>, int), Seq<char>>((seq![stub, raw, out], v)) && args_result(
            seq!["--level"@, value, stub, raw, out],
        ) == Ok::<(Seq<Seq<char>>, int), Seq<char>>((seq![stub, raw, out], v)),
{
    let none = Seq::<Seq<char>>::empty();
    let v = parsed_i32(value)->0;
    let three = seq![stub, raw, out];
    lemma_three(stub, raw, out, 16);
    lemma_three(stub, raw, out, v);
    lemma_front(three, 0, seq!["--level"@, value], none, 16);
    assert(three + seq!["--level"@, value] =~= seq![stub, raw, out, "--level"@, value]);
    law_level_replaces_level(value, none, three, 16);
    assert(seq!["--level"@, value] + none =~= seq!["--level"@, value]);
    law_level_replaces_level(value, three, none, 16);
    assert(seq!["--level"@, value] + three =~= seq!["--level"@, value, stub, raw, out]);
}

/// Three paths alone.
proof fn lemma_three(stub: Seq<char>, raw: Seq<char>, out: Seq<char>, level: int)
    requires
        !is_flag(stub),
        !is_flag(raw),
        !is_flag(out),
    ensures
        args_walk(seq![stub, raw, out], 0, seq![], level) == Ok::<(Seq<Seq<char>>, int), Seq<char>>(
            (seq![stub, raw, out], level),
        ),
{
    let none = Seq::<Seq<char>>::empty();
    law_argument_is_path_or_refused(stub, seq![raw, out], none, level);
    assert(seq![stub] + seq![raw, out] =~= seq![stub, raw, out]);
    law_argument_is_path_or_refused(raw, seq![out], none.push(stub), level);
    assert(seq![raw] + seq![out] =~= seq![raw, out]);
    law_argument_is_path_or_refused(out, none, none.push(stub).push(raw), level);
    assert(seq![out] + none =~= seq![out]);
    assert(none.push(stub).push(raw).push(out) =~= seq![stub, raw, out]);
}

/// The message for bad arguments says what is bad, how the program is called, and what to do.
pub proof fn law_usage_says_how_to_call(detail: Seq<char>)
    ensures
        usage_text(detail) == "napi-compress: bad arguments.\n  What:  "@ + detail
            + "\n  Where: napi-compress <stub.node> <raw.node> <out.node> [--level <1..=22>]\n  Fix:   pass the prebuilt stub, the built addon, and the output path."@,
{
}

/// What is read of the arguments is the three paths in their order, and the level.
pub proof fn law_paths_keep_their_order(args: &Vec<String>, read: Result<Args, String>)
    requires
        call_ensures(parse_args, (args,), read),
    ensures
        match args_result(texts(args@)) {
            Ok((paths, level)) => read matches Ok(a) && a.stub@ == paths[0] && a.raw@ == paths[1]
                && a.out@ == paths[2] && a.level == level && paths.len() == 3,
            Err(text) => read matches Err(message) && message@ == text,
        },
{
    if let Ok(a) = read {
        let three = seq![a.stub@, a.raw@, a.out@];
        assert(three[0] == a.stub@ && three[1] == a.raw@ && three[2] == a.out@);
    }
}

} // verus!
