//! Reading a `path:line` location out of one line of lint output.
use vstd::prelude::*;

verus! {

/// One of the characters allowed between `ESC [` and `m` in a color code.
pub open spec fn is_color_param(c: char) -> bool {
    ('0' <= c && c <= '9') || c == ';'
}

/// `s` starts with a color code (`ESC [`, digits and semicolons, `m`) of
/// exactly `len` characters.
pub open spec fn is_color_code(s: Seq<char>, len: int) -> bool {
    &&& 3 <= len <= s.len()
    &&& s[0] == '\x1b'
    &&& s[1] == '['
    &&& forall|i: int| 2 <= i < len - 1 ==> is_color_param(#[trigger] s[i])
    &&& s[len - 1] == 'm'
}

/// `s` with every color code taken out, scanning from the left.
pub open spec fn strip_colors(s: Seq<char>) -> Seq<char>
    decreases s.len(),
{
    if s.len() == 0 {
        Seq::empty()
    } else if exists|len: int| is_color_code(s, len) {
        let len = choose|len: int| is_color_code(s, len);
        strip_colors(s.skip(len))
    } else {
        seq![s[0]] + strip_colors(s.skip(1))
    }
}

/// A color code at the start of `s` has only one possible length.
proof fn color_code_len_unique(s: Seq<char>, a: int, b: int)
    requires
        is_color_code(s, a),
        is_color_code(s, b),
    ensures
        a == b,
{
    if a < b {
        assert(is_color_param(s[a - 1]));
    } else if b < a {
        assert(is_color_param(s[b - 1]));
    }
}

fn color_param_char(c: char) -> (r: bool)
    ensures
        r == is_color_param(c),
{
    ('0' <= c && c <= '9') || c == ';'
}

/// Finds the color code at char index `i` of `text`, returning its length,
/// or 0 where none starts there.
fn color_code_at(text: &str, n: usize, i: usize) -> (r: usize)
    requires
        n == text@.len(),
        i < n,
    ensures
        r > 0 ==> is_color_code(text@.skip(i as int), r as int),
        r == 0 ==> forall|len: int| !is_color_code(text@.skip(i as int), len),
{
    let ghost t = text@.skip(i as int);
    if i + 1 >= n || text.get_char(i) != '\x1b' || text.get_char(i + 1) != '[' {
        return 0;
    }
    let mut j: usize = i + 2;
    while j < n && color_param_char(text.get_char(j))
        invariant
            i + 2 <= j <= n,
            n == text@.len(),
            t == text@.skip(i as int),
            t[0] == '\x1b',
            t[1] == '[',
            forall|k: int| 2 <= k < j - i ==> is_color_param(#[trigger] t[k]),
        decreases n - j,
    {
        j = j + 1;
    }
    if j < n && text.get_char(j) == 'm' {
        assert(is_color_code(t, (j + 1 - i) as int));
        j + 1 - i
    } else {
        assert forall|len: int| !is_color_code(t, len) by {
            if is_color_code(t, len) {
                if len - 1 < j - i {
                    assert(is_color_param(t[len - 1]));
                } else if len - 1 > j - i {
                    assert(is_color_param(t[j - i]));
                }
            }
        }
        0
    }
}

/// Removes terminal color codes (`ESC [` digits and semicolons `m`).
pub fn remove_ansi_colors(text: &str) -> (r: String)
    ensures
        r@ == strip_colors(text@),
{
    let n = text.unicode_len();
    let mut out = String::new();
    let mut i: usize = 0;
    assert(text@.skip(0) =~= text@);
    while i < n
        invariant
            i <= n,
            n == text@.len(),
            strip_colors(text@) == out@ + strip_colors(text@.skip(i as int)),
        decreases n - i,
    {
        let ghost t = text@.skip(i as int);
        let len = color_code_at(text, n, i);
        if len > 0 {
            proof {
                let l = choose|l: int| is_color_code(t, l);
                color_code_len_unique(t, l, len as int);
                assert(t.skip(len as int) =~= text@.skip(i + len));
            }
            i = i + len;
        } else {
            let ghost before = out@;
            out.append(text.substring_char(i, i + 1));
            proof {
                assert(t.skip(1) =~= text@.skip(i + 1));
                assert(text@.subrange(i as int, i + 1) =~= seq![t[0]]);
                assert(out@ + strip_colors(t.skip(1)) =~= before + (seq![t[0]] + strip_colors(
                    t.skip(1),
                )));
            }
            i = i + 1;
        }
    }
    assert(text@.skip(n as int) =~= Seq::<char>::empty());
    out
}

/// `u` lies in `lo..=hi`.
pub open spec fn in_range(u: u32, lo: u32, hi: u32) -> bool {
    lo <= u && u <= hi
}

/// A decimal digit of any script: the characters of Unicode's general
/// category Nd (Unicode 16.0), which is what `\d` stands for in a Unicode
/// regular expression.
pub open spec fn is_decimal_digit(c: char) -> bool {
    let u = c as u32;
    ||| in_range(u, 0x30, 0x39)
    ||| in_range(u, 0x660, 0x669)
    ||| in_range(u, 0x6F0, 0x6F9)
    ||| in_range(u, 0x7C0, 0x7C9)
    ||| in_range(u, 0x966, 0x96F)
    ||| in_range(u, 0x9E6, 0x9EF)
    ||| in_range(u, 0xA66, 0xA6F)
    ||| in_range(u, 0xAE6, 0xAEF)
    ||| in_range(u, 0xB66, 0xB6F)
    ||| in_range(u, 0xBE6, 0xBEF)
    ||| in_range(u, 0xC66, 0xC6F)
    ||| in_range(u, 0xCE6, 0xCEF)
    ||| in_range(u, 0xD66, 0xD6F)
    ||| in_range(u, 0xDE6, 0xDEF)
    ||| in_range(u, 0xE50, 0xE59)
    ||| in_range(u, 0xED0, 0xED9)
    ||| in_range(u, 0xF20, 0xF29)
    ||| in_range(u, 0x1040, 0x1049)
    ||| in_range(u, 0x1090, 0x1099)
    ||| in_range(u, 0x17E0, 0x17E9)
    ||| in_range(u, 0x1810, 0x1819)
    ||| in_range(u, 0x1946, 0x194F)
    ||| in_range(u, 0x19D0, 0x19D9)
    ||| in_range(u, 0x1A80, 0x1A89)
    ||| in_range(u, 0x1A90, 0x1A99)
    ||| in_range(u, 0x1B50, 0x1B59)
    ||| in_range(u, 0x1BB0, 0x1BB9)
    ||| in_range(u, 0x1C40, 0x1C49)
    ||| in_range(u, 0x1C50, 0x1C59)
    ||| in_range(u, 0xA620, 0xA629)
    ||| in_range(u, 0xA8D0, 0xA8D9)
    ||| in_range(u, 0xA900, 0xA909)
    ||| in_range(u, 0xA9D0, 0xA9D9)
    ||| in_range(u, 0xA9F0, 0xA9F9)
    ||| in_range(u, 0xAA50, 0xAA59)
    ||| in_range(u, 0xABF0, 0xABF9)
    ||| in_range(u, 0xFF10, 0xFF19)
    ||| in_range(u, 0x104A0, 0x104A9)
    ||| in_range(u, 0x10D30, 0x10D39)
    ||| in_range(u, 0x10D40, 0x10D49)
    ||| in_range(u, 0x11066, 0x1106F)
    ||| in_range(u, 0x110F0, 0x110F9)
    ||| in_range(u, 0x11136, 0x1113F)
    ||| in_range(u, 0x111D0, 0x111D9)
    ||| in_range(u, 0x112F0, 0x112F9)
    ||| in_range(u, 0x11450, 0x11459)
    ||| in_range(u, 0x114D0, 0x114D9)
    ||| in_range(u, 0x11650, 0x11659)
    ||| in_range(u, 0x116C0, 0x116C9)
    ||| in_range(u, 0x116D0, 0x116E3)
    ||| in_range(u, 0x11730, 0x11739)
    ||| in_range(u, 0x118E0, 0x118E9)
    ||| in_range(u, 0x11950, 0x11959)
    ||| in_range(u, 0x11BF0, 0x11BF9)
    ||| in_range(u, 0x11C50, 0x11C59)
    ||| in_range(u, 0x11D50, 0x11D59)
    ||| in_range(u, 0x11DA0, 0x11DA9)
    ||| in_range(u, 0x11F50, 0x11F59)
    ||| in_range(u, 0x16130, 0x16139)
    ||| in_range(u, 0x16A60, 0x16A69)
    ||| in_range(u, 0x16AC0, 0x16AC9)
    ||| in_range(u, 0x16B50, 0x16B59)
    ||| in_range(u, 0x16D70, 0x16D79)
    ||| in_range(u, 0x1CCF0, 0x1CCF9)
    ||| in_range(u, 0x1D7CE, 0x1D7FF)
    ||| in_range(u, 0x1E140, 0x1E149)
    ||| in_range(u, 0x1E2F0, 0x1E2F9)
    ||| in_range(u, 0x1E4F0, 0x1E4F9)
    ||| in_range(u, 0x1E5F1, 0x1E5FA)
    ||| in_range(u, 0x1E950, 0x1E959)
    ||| in_range(u, 0x1FBF0, 0x1FBF9)
}

/// One of `0` to `9`: the only digits a `u32` is read from.
pub open spec fn is_ascii_digit(c: char) -> bool {
    '0' <= c && c <= '9'
}

fn code_in_range(u: u32, lo: u32, hi: u32) -> (r: bool)
    ensures
        r == in_range(u, lo, hi),
{
    lo <= u && u <= hi
}

fn decimal_digit_char(c: char) -> (r: bool)
    ensures
        r == is_decimal_digit(c),
{
    let u = c as u32;
    code_in_range(u, 0x30, 0x39)
        || code_in_range(u, 0x660, 0x669)
        || code_in_range(u, 0x6F0, 0x6F9)
        || code_in_range(u, 0x7C0, 0x7C9)
        || code_in_range(u, 0x966, 0x96F)
        || code_in_range(u, 0x9E6, 0x9EF)
        || code_in_range(u, 0xA66, 0xA6F)
        || code_in_range(u, 0xAE6, 0xAEF)
        || code_in_range(u, 0xB66, 0xB6F)
        || code_in_range(u, 0xBE6, 0xBEF)
        || code_in_range(u, 0xC66, 0xC6F)
        || code_in_range(u, 0xCE6, 0xCEF)
        || code_in_range(u, 0xD66, 0xD6F)
        || code_in_range(u, 0xDE6, 0xDEF)
        || code_in_range(u, 0xE50, 0xE59)
        || code_in_range(u, 0xED0, 0xED9)
        || code_in_range(u, 0xF20, 0xF29)
        || code_in_range(u, 0x1040, 0x1049)
        || code_in_range(u, 0x1090, 0x1099)
        || code_in_range(u, 0x17E0, 0x17E9)
        || code_in_range(u, 0x1810, 0x1819)
        || code_in_range(u, 0x1946, 0x194F)
        || code_in_range(u, 0x19D0, 0x19D9)
        || code_in_range(u, 0x1A80, 0x1A89)
        || code_in_range(u, 0x1A90, 0x1A99)
        || code_in_range(u, 0x1B50, 0x1B59)
        || code_in_range(u, 0x1BB0, 0x1BB9)
        || code_in_range(u, 0x1C40, 0x1C49)
        || code_in_range(u, 0x1C50, 0x1C59)
        || code_in_range(u, 0xA620, 0xA629)
        || code_in_range(u, 0xA8D0, 0xA8D9)
        || code_in_range(u, 0xA900, 0xA909)
        || code_in_range(u, 0xA9D0, 0xA9D9)
        || code_in_range(u, 0xA9F0, 0xA9F9)
        || code_in_range(u, 0xAA50, 0xAA59)
        || code_in_range(u, 0xABF0, 0xABF9)
        || code_in_range(u, 0xFF10, 0xFF19)
        || code_in_range(u, 0x104A0, 0x104A9)
        || code_in_range(u, 0x10D30, 0x10D39)
        || code_in_range(u, 0x10D40, 0x10D49)
        || code_in_range(u, 0x11066, 0x1106F)
        || code_in_range(u, 0x110F0, 0x110F9)
        || code_in_range(u, 0x11136, 0x1113F)
        || code_in_range(u, 0x111D0, 0x111D9)
        || code_in_range(u, 0x112F0, 0x112F9)
        || code_in_range(u, 0x11450, 0x11459)
        || code_in_range(u, 0x114D0, 0x114D9)
        || code_in_range(u, 0x11650, 0x11659)
        || code_in_range(u, 0x116C0, 0x116C9)
        || code_in_range(u, 0x116D0, 0x116E3)
        || code_in_range(u, 0x11730, 0x11739)
        || code_in_range(u, 0x118E0, 0x118E9)
        || code_in_range(u, 0x11950, 0x11959)
        || code_in_range(u, 0x11BF0, 0x11BF9)
        || code_in_range(u, 0x11C50, 0x11C59)
        || code_in_range(u, 0x11D50, 0x11D59)
        || code_in_range(u, 0x11DA0, 0x11DA9)
        || code_in_range(u, 0x11F50, 0x11F59)
        || code_in_range(u, 0x16130, 0x16139)
        || code_in_range(u, 0x16A60, 0x16A69)
        || code_in_range(u, 0x16AC0, 0x16AC9)
        || code_in_range(u, 0x16B50, 0x16B59)
        || code_in_range(u, 0x16D70, 0x16D79)
        || code_in_range(u, 0x1CCF0, 0x1CCF9)
        || code_in_range(u, 0x1D7CE, 0x1D7FF)
        || code_in_range(u, 0x1E140, 0x1E149)
        || code_in_range(u, 0x1E2F0, 0x1E2F9)
        || code_in_range(u, 0x1E4F0, 0x1E4F9)
        || code_in_range(u, 0x1E5F1, 0x1E5FA)
        || code_in_range(u, 0x1E950, 0x1E959)
        || code_in_range(u, 0x1FBF0, 0x1FBF9)
}

/// The number that a run of decimal digits spells.
pub open spec fn digits_value(d: Seq<char>) -> int
    decreases d.len(),
{
    if d.len() == 0 {
        0
    } else {
        digits_value(d.drop_last()) * 10 + (d.last() as int - '0' as int)
    }
}

/// Index `k` of `s` holds a colon with a digit after it and, on its own line
/// of `s`, at least one character before it.
pub open spec fn location_colon(s: Seq<char>, k: int) -> bool {
    &&& 1 <= k
    &&& k + 1 < s.len()
    &&& s[k] == ':'
    &&& is_decimal_digit(s[k + 1])
    &&& s[k - 1] != '\n'
}

/// `k` is the first location colon of `s`.
pub open spec fn first_location_colon(s: Seq<char>, k: int) -> bool {
    &&& location_colon(s, k)
    &&& forall|j: int| 0 <= j < k ==> !location_colon(s, j)
}

/// `a` is where the line of `s` that holds index `k` begins.
pub open spec fn line_start(s: Seq<char>, a: int, k: int) -> bool {
    &&& 0 <= a <= k
    &&& (a == 0 || s[a - 1] == '\n')
    &&& forall|i: int| a <= i < k ==> s[i] != '\n'
}

/// `s[b..e]` is a non-empty run of decimal digits that cannot be extended.
pub open spec fn digit_run(s: Seq<char>, b: int, e: int) -> bool {
    &&& 0 <= b < e <= s.len()
    &&& forall|i: int| b <= i < e ==> is_decimal_digit(#[trigger] s[i])
    &&& (e == s.len() || !is_decimal_digit(s[e]))
}

/// The digits of `s[b..e]` are all `0` to `9`.
pub open spec fn ascii_digits(s: Seq<char>, b: int, e: int) -> bool {
    forall|i: int| b <= i < e ==> is_ascii_digit(#[trigger] s[i])
}

proof fn digits_value_nonneg(s: Seq<char>, b: int, j: int)
    requires
        0 <= b <= j <= s.len(),
        forall|i: int| b <= i < j ==> is_ascii_digit(#[trigger] s[i]),
    ensures
        0 <= digits_value(s.subrange(b, j)),
    decreases j - b,
{
    if b < j {
        digits_value_nonneg(s, b, j - 1);
        assert(s.subrange(b, j).drop_last() =~= s.subrange(b, j - 1));
        assert(is_ascii_digit(s[j - 1]));
    }
}

/// Appending a digit never makes the value smaller.
proof fn digits_value_grows(s: Seq<char>, b: int, j: int, e: int)
    requires
        0 <= b <= j <= e <= s.len(),
        forall|i: int| b <= i < e ==> is_ascii_digit(#[trigger] s[i]),
    ensures
        digits_value(s.subrange(b, j)) <= digits_value(s.subrange(b, e)),
    decreases e - j,
{
    if j < e {
        digits_value_nonneg(s, b, j);
        digits_value_grows(s, b, j + 1, e);
        assert(s.subrange(b, j + 1).drop_last() =~= s.subrange(b, j));
        assert(is_ascii_digit(s[j]));
    }
}

/// The digits after a colon at `k` run up to `e`.
pub open spec fn number_after(s: Seq<char>, k: int, e: int) -> bool {
    digit_run(s, k + 1, e)
}

/// A `path:number` location of `s`: the path is `s[a..k]`, the number's
/// digits are `s[k + 1..e]`.
pub open spec fn is_location(s: Seq<char>, a: int, k: int, e: int) -> bool {
    &&& first_location_colon(s, k)
    &&& line_start(s, a, k)
    &&& number_after(s, k, e)
}

/// The digits after the colon at `k` are all `0` to `9` and spell a number
/// that fits in a `u32`.
pub open spec fn readable_number(s: Seq<char>, k: int, e: int) -> bool {
    ascii_digits(s, k + 1, e) && digits_value(s.subrange(k + 1, e)) <= u32::MAX
}

/// The location of `s`, as a path and a line number, where it has one whose
/// number is readable as a `u32`.
pub open spec fn lint_location(s: Seq<char>) -> Option<(Seq<char>, int)> {
    if exists|a: int, k: int, e: int|
        #![trigger is_location(s, a, k, e)]
        is_location(s, a, k, e) && readable_number(s, k, e) {
        let (a, k, e) = choose|a: int, k: int, e: int|
            #![trigger is_location(s, a, k, e)]
            is_location(s, a, k, e) && readable_number(s, k, e);
        Some((s.subrange(a, k), digits_value(s.subrange(k + 1, e))))
    } else {
        None
    }
}

/// A line has at most one location.
proof fn location_unique(s: Seq<char>, a1: int, k1: int, e1: int, a2: int, k2: int, e2: int)
    requires
        is_location(s, a1, k1, e1),
        is_location(s, a2, k2, e2),
    ensures
        a1 == a2 && k1 == k2 && e1 == e2,
{
    if k1 < k2 {
        assert(location_colon(s, k1));
    } else if k2 < k1 {
        assert(location_colon(s, k2));
    }
    if a1 < a2 {
        assert(s[a2 - 1] != '\n');
    } else if a2 < a1 {
        assert(s[a1 - 1] != '\n');
    }
    if e1 < e2 {
        assert(is_decimal_digit(s[e1]));
    } else if e2 < e1 {
        assert(is_decimal_digit(s[e2]));
    }
}

/// Once the first location colon `k` is known and `s[k + 1..=e]` are all
/// decimal digits, every location of `s` has colon `k` and a run past `e`.
proof fn location_after(s: Seq<char>, k: int, e: int, a2: int, k2: int, e2: int)
    requires
        first_location_colon(s, k),
        k + 1 <= e < s.len(),
        forall|i: int| k + 1 <= i <= e ==> is_decimal_digit(#[trigger] s[i]),
        is_location(s, a2, k2, e2),
    ensures
        k2 == k,
        e < e2,
{
    if k2 > k {
        assert(location_colon(s, k));
    } else if k2 < k {
        assert(location_colon(s, k2));
    }
    if e2 <= e {
        assert(is_decimal_digit(s[e2]));
    }
}

/// Finds the first `path:number` location of a line: the path is the text
/// from the start of its line up to the first colon that has a decimal digit
/// (of any script) after it and something before it; the number is the whole
/// run of decimal digits after that colon. `None` where there is no such
/// colon, where the run holds a digit other than `0` to `9`, or where the
/// number does not fit in a `u32`.
pub fn parse_lint_location(line: &str) -> (r: Option<(String, u32)>)
    ensures
        match r {
            Some((path, number)) => lint_location(line@) == Some((path@, number as int)),
            None => lint_location(line@) is None,
        },
{
    let ghost s = line@;
    let n = line.unicode_len();
    let mut a: usize = 0;
    let mut k: usize = 0;
    while k < n
        invariant
            n == s.len(),
            s == line@,
            k <= n,
            line_start(s, a as int, k as int),
            forall|j: int| 0 <= j < k ==> !location_colon(s, j),
        decreases n - k,
    {
        let c = line.get_char(k);
        if c == ':' && k >= 1 && k + 1 < n && decimal_digit_char(line.get_char(k + 1))
            && line.get_char(k - 1) != '\n' {
            assert(first_location_colon(s, k as int));
            let path = String::from_str(line.substring_char(a, k));
            let mut e: usize = k + 1;
            let mut value: u32 = 0;
            while e < n && decimal_digit_char(line.get_char(e))
                invariant
                    n == s.len(),
                    s == line@,
                    k + 1 <= e <= n,
                    line_start(s, a as int, k as int),
                    first_location_colon(s, k as int),
                    forall|i: int| k + 1 <= i < e ==> is_decimal_digit(#[trigger] s[i]),
                    ascii_digits(s, k + 1, e as int),
                    value as int == digits_value(s.subrange(k + 1, e as int)),
                decreases n - e,
            {
                let c = line.get_char(e);
                if !('0' <= c && c <= '9') {
                    proof {
                        assert forall|a2: int, k2: int, e2: int|
                            #[trigger] is_location(s, a2, k2, e2) implies !readable_number(
                            s,
                            k2,
                            e2,
                        ) by {
                            location_after(s, k as int, e as int, a2, k2, e2);
                            assert(!is_ascii_digit(s[e as int]));
                        }
                    }
                    return None;
                }
                let d = c as u32 - '0' as u32;
                proof {
                    assert(s.subrange(k + 1, e + 1).drop_last() =~= s.subrange(k + 1, e as int));
                }
                if value > (u32::MAX - d) / 10 {
                    proof {
                        assert(value * 10 + d > u32::MAX) by (nonlinear_arith)
                            requires
                                value > (u32::MAX - d) / 10,
                                d <= 9,
                        ;
                        assert forall|a2: int, k2: int, e2: int|
                            #[trigger] is_location(s, a2, k2, e2) implies !readable_number(
                            s,
                            k2,
                            e2,
                        ) by {
                            location_after(s, k as int, e as int, a2, k2, e2);
                            if ascii_digits(s, k + 1, e2) {
                                digits_value_grows(s, k + 1, e + 1, e2);
                            }
                        }
                    }
                    return None;
                }
                proof {
                    assert(value * 10 + d <= u32::MAX) by (nonlinear_arith)
                        requires
                            value <= (u32::MAX - d) / 10,
                            d <= 9,
                    ;
                }
                value = value * 10 + d;
                e = e + 1;
            }
            proof {
                assert(is_location(s, a as int, k as int, e as int));
                assert(readable_number(s, k as int, e as int));
                let (a2, k2, e2) = choose|a2: int, k2: int, e2: int|
                    #![trigger is_location(s, a2, k2, e2)]
                    is_location(s, a2, k2, e2) && readable_number(s, k2, e2);
                location_unique(s, a as int, k as int, e as int, a2, k2, e2);
            }
            return Some((path, value));
        }
        if c == '\n' {
            a = k + 1;
        }
        k = k + 1;
    }
    assert forall|a2: int, k2: int, e2: int| !#[trigger] is_location(s, a2, k2, e2) by {
        if is_location(s, a2, k2, e2) {
            assert(location_colon(s, k2));
        }
    }
    None
}

} // verus!
