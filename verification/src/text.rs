//! Character-level text helpers shared by the value formatter and the renderer.

use vstd::prelude::*;

verus! {

/// Appends one character to a `String` (`String::push`).
#[verifier::external_body]
pub(crate) fn push_char(s: &mut String, c: char)
    ensures
        final(s)@ == old(s)@.push(c),
{
    s.push(c);
}

/// The characters of `s`, in order.
pub fn chars_of(s: &str) -> (v: Vec<char>)
    ensures
        v@ == s@,
{
    broadcast use vstd::string::group_string_axioms;
    let mut v: Vec<char> = Vec::new();
    for c in it: s.chars()
        invariant
            v@ == it.seq().take(it.index()),
            it.seq() == s@,
    {
        v.push(c);
    }
    v
}


/// `c` as it stands inside a basic TOML string: a backslash and a double quote
/// are preceded by a backslash, every other character stands for itself.
pub open spec fn escaped_char(c: char) -> Seq<char> {
    if c == '\\' {
        seq!['\\', '\\']
    } else if c == '"' {
        seq!['\\', '"']
    } else {
        seq![c]
    }
}

/// `s` with every character escaped by [`escaped_char`].
pub open spec fn escaped(s: Seq<char>) -> Seq<char>
    decreases s.len(),
{
    if s.len() == 0 {
        seq![]
    } else {
        escaped(s.drop_last()) + escaped_char(s.last())
    }
}

/// A character that may not stand unescaped in a TOML basic string: a
/// control character other than tab (U+0000 to U+0008, U+000A to U+001F,
/// U+007F).
pub open spec fn is_forbidden_control(c: char) -> bool {
    let u = c as u32;
    u <= 0x08 || (0x0a <= u <= 0x1f) || u == 0x7f
}

/// The character that the TOML escape `\e` stands for, for the escapes
/// `\b`, `\t`, `\n`, `\f`, `\r`, `\"` and `\\`.
pub open spec fn simple_escape(e: char) -> Option<char> {
    if e == 'b' {
        Some('\u{8}')
    } else if e == 't' {
        Some('\t')
    } else if e == 'n' {
        Some('\n')
    } else if e == 'f' {
        Some('\u{c}')
    } else if e == 'r' {
        Some('\r')
    } else if e == '"' {
        Some('"')
    } else if e == '\\' {
        Some('\\')
    } else {
        None
    }
}

/// The value of a hexadecimal digit, if `c` is one.
pub open spec fn hex_digit(c: char) -> Option<nat> {
    let u = c as u32;
    if 0x30 <= u <= 0x39 {
        Some((u - 0x30) as nat)
    } else if 0x41 <= u <= 0x46 {
        Some((u - 0x41 + 10) as nat)
    } else if 0x61 <= u <= 0x66 {
        Some((u - 0x61 + 10) as nat)
    } else {
        None
    }
}

/// The number that the hexadecimal digits `s` spell, if they all are digits.
pub open spec fn hex_number(s: Seq<char>) -> Option<nat>
    decreases s.len(),
{
    if s.len() == 0 {
        Some(0)
    } else {
        match (hex_number(s.drop_last()), hex_digit(s.last())) {
            (Some(high), Some(low)) => Some(high * 16 + low),
            _ => None,
        }
    }
}

/// `c` followed by the characters of `rest`, if `rest` is some.
pub open spec fn prepend(c: char, rest: Option<Seq<char>>) -> Option<Seq<char>> {
    match rest {
        Some(r) => Some(seq![c] + r),
        None => None,
    }
}

/// The characters that the body of a TOML basic string stands for, read
/// from the front: an escape (`\b \t \n \f \r \" \\`, `\uXXXX` or
/// `\UXXXXXXXX` naming a Unicode scalar value) stands for its character,
/// any other character for itself; `None` where the body is not valid (an
/// unknown or cut escape, an unescaped `"`, a control character other than
/// tab).
pub open spec fn unescape_basic(s: Seq<char>) -> Option<Seq<char>>
    decreases s.len(),
{
    if s.len() == 0 {
        Some(seq![])
    } else if s[0] == '\\' {
        if s.len() < 2 {
            None
        } else if s[1] == 'u' || s[1] == 'U' {
            let n: int = if s[1] == 'u' {
                4
            } else {
                8
            };
            if s.len() < 2 + n {
                None
            } else {
                match hex_number(s.subrange(2, 2 + n)) {
                    Some(v) => if v < 0xd800 || (0xe000 <= v && v <= 0x10ffff) {
                        prepend(v as char, unescape_basic(s.skip(2 + n)))
                    } else {
                        None
                    },
                    None => None,
                }
            }
        } else {
            match simple_escape(s[1]) {
                Some(c) => prepend(c, unescape_basic(s.skip(2))),
                None => None,
            }
        }
    } else if s[0] == '"' || is_forbidden_control(s[0]) {
        None
    } else {
        prepend(s[0], unescape_basic(s.drop_first()))
    }
}

/// What a TOML reader takes a basic string `"..."` to stand for.
pub open spec fn read_basic_string(t: Seq<char>) -> Option<Seq<char>> {
    if t.len() >= 2 && t[0] == '"' && t.last() == '"' {
        unescape_basic(t.subrange(1, t.len() - 1))
    } else {
        None
    }
}

/// Appends the escaped form of `s` to `out`.
pub fn push_escaped(out: &mut String, s: &str)
    ensures
        final(out)@ == old(out)@ + escaped(s@),
{
    let chars = chars_of(s);
    let mut i: usize = 0;
    while i < chars.len()
        invariant
            i <= chars@.len(),
            chars@ == s@,
            out@ == old(out)@ + escaped(chars@.take(i as int)),
        decreases chars@.len() - i,
    {
        let c = chars[i];
        if c == '\\' {
            push_char(out, '\\');
            push_char(out, '\\');
        } else if c == '"' {
            push_char(out, '\\');
            push_char(out, '"');
        } else {
            push_char(out, c);
        }
        assert(chars@.take(i + 1).drop_last() =~= chars@.take(i as int));
        i = i + 1;
    }
    assert(chars@.take(i as int) =~= s@);
}

/// The decimal digit character for `d`, which is below ten.
pub open spec fn digit_char(d: nat) -> char
    recommends
        d < 10,
{
    (48 + d) as char
}

/// The decimal numeral of `n`, without sign or leading zeros.
pub open spec fn decimal_digits(n: nat) -> Seq<char>
    decreases n,
{
    if n < 10 {
        seq![digit_char(n)]
    } else {
        decimal_digits(n / 10).push(digit_char(n % 10))
    }
}

/// The decimal numeral of `i`, with a leading `-` when it is negative.
pub open spec fn decimal_text(i: int) -> Seq<char> {
    if i < 0 {
        seq!['-'] + decimal_digits((-i) as nat)
    } else {
        decimal_digits(i as nat)
    }
}

fn push_digits(out: &mut String, n: u64)
    ensures
        final(out)@ == old(out)@ + decimal_digits(n as nat),
    decreases n,
{
    if n >= 10 {
        push_digits(out, n / 10);
    }
    let d: u8 = (n % 10) as u8;
    push_char(out, (48u8 + d) as char);
}

/// Appends the decimal numeral of `i` to `out`.
pub fn push_decimal(out: &mut String, i: i64)
    ensures
        final(out)@ == old(out)@ + decimal_text(i as int),
{
    if i < 0 {
        push_char(out, '-');
        let magnitude: u64 = (0i128 - (i as i128)) as u64;
        push_digits(out, magnitude);
        assert(old(out)@ + decimal_text(i as int) =~= old(out)@.push('-') + decimal_digits(magnitude as nat));
    } else {
        push_digits(out, i as u64);
    }
}


/// Whether two texts are equal.
pub fn same_text(a: &str, b: &str) -> (r: bool)
    ensures
        r == (a@ == b@),
{
    String::from_str(a) == String::from_str(b)
}

/// Whether `c` is white space (the Unicode `White_Space` property, which
/// `char::is_whitespace` tests).
pub open spec fn is_white_space(c: char) -> bool {
    let u = c as u32;
    ||| 0x09 <= u <= 0x0d
    ||| u == 0x20
    ||| u == 0x85
    ||| u == 0xa0
    ||| u == 0x1680
    ||| 0x2000 <= u <= 0x200a
    ||| u == 0x2028
    ||| u == 0x2029
    ||| u == 0x202f
    ||| u == 0x205f
    ||| u == 0x3000
}

fn white_space(c: char) -> (r: bool)
    ensures
        r == is_white_space(c),
{
    let u = c as u32;
    (0x09 <= u && u <= 0x0d) || u == 0x20 || u == 0x85 || u == 0xa0 || u == 0x1680 || (0x2000 <= u
        && u <= 0x200a) || u == 0x2028 || u == 0x2029 || u == 0x202f || u == 0x205f || u == 0x3000
}

/// `s` without its leading white space.
pub open spec fn trim_start(s: Seq<char>) -> Seq<char>
    decreases s.len(),
{
    if s.len() > 0 && is_white_space(s[0]) {
        trim_start(s.drop_first())
    } else {
        s
    }
}

/// `s` without its trailing white space.
pub open spec fn trim_end(s: Seq<char>) -> Seq<char>
    decreases s.len(),
{
    if s.len() > 0 && is_white_space(s.last()) {
        trim_end(s.drop_last())
    } else {
        s
    }
}

/// `s` without its leading and trailing white space (as `str::trim`).
pub open spec fn trim(s: Seq<char>) -> Seq<char> {
    trim_end(trim_start(s))
}

/// Whether `t`, with leading and trailing white space removed, is `name`.
pub fn trimmed_equals(t: &str, name: &str) -> (r: bool)
    ensures
        r == (trim(t@) == name@),
{
    let v = chars_of(t);
    let n = chars_of(name);
    let mut start: usize = 0;
    assert(v@.skip(0) =~= v@);
    while start < v.len() && white_space(v[start])
        invariant
            start <= v@.len(),
            v@ == t@,
            trim_start(v@.skip(start as int)) == trim_start(t@),
        decreases v@.len() - start,
    {
        assert(v@.skip(start as int).drop_first() =~= v@.skip(start + 1));
        start = start + 1;
    }
    let ghost rest = v@.skip(start as int);
    assert(trim_start(t@) == rest);
    let mut end: usize = v.len();
    while end > start && white_space(v[end - 1])
        invariant
            start <= end <= v@.len(),
            rest == v@.skip(start as int),
            trim_end(v@.subrange(start as int, end as int)) == trim_end(rest),
        decreases end,
    {
        assert(v@.subrange(start as int, end as int).drop_last() =~= v@.subrange(start as int, end - 1));
        end = end - 1;
    }
    assert(v@.subrange(start as int, v@.len() as int) =~= rest);
    let ghost kept = v@.subrange(start as int, end as int);
    assert(trim(t@) == kept);
    if end - start != n.len() {
        assert(kept.len() != n@.len());
        return false;
    }
    let mut i: usize = 0;
    while i < n.len()
        invariant
            end - start == n@.len(),
            start <= end <= v@.len(),
            kept == v@.subrange(start as int, end as int),
            trim(t@) == kept,
            n@ == name@,
            i <= n@.len(),
            forall|k: int| 0 <= k < i ==> kept[k] == n@[k],
        decreases n@.len() - i,
    {
        if v[start + i] != n[i] {
            assert(kept[i as int] != n@[i as int]);
            return false;
        }
        i = i + 1;
    }
    assert(kept =~= n@);
    true
}

} // verus!
