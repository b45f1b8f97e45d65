//! Small string helpers.

use vstd::prelude::*;

verus! {

broadcast use vstd::string::group_string_axioms;

/// Appends one character with `String::push`.
///
/// Trusted: `String::push` appends the character at the end.
#[verifier::external_body]
pub(crate) fn push_char(s: &mut String, c: char)
    ensures
        final(s)@ == old(s)@.push(c),
{
    s.push(c);
}

/// Whether two strings hold the same characters.
pub fn str_eq(a: &str, b: &str) -> (r: bool)
    ensures
        r == (a@ == b@),
{
    let n = a.unicode_len();
    if n != b.unicode_len() {
        return false;
    }
    let mut i: usize = 0;
    while i < n
        invariant
            n == a@.len() == b@.len(),
            i <= n,
            forall|k: int| 0 <= k < i ==> a@[k] == b@[k],
        decreases n - i,
    {
        if a.get_char(i) != b.get_char(i) {
            return false;
        }
        i = i + 1;
    }
    assert(a@ =~= b@);
    true
}

/// The first position at or after `i` that holds `c`, or the end.
pub open spec fn index_of_from(s: Seq<char>, c: char, i: int) -> int
    decreases s.len() - i,
{
    if 0 <= i < s.len() && s[i] != c {
        index_of_from(s, c, i + 1)
    } else {
        i
    }
}

/// The pieces of `s` from `i` on between the separators `c`, as `str::split`
/// yields them: empty pieces included, and one piece where there is no
/// separator.
pub open spec fn split_from(s: Seq<char>, c: char, i: int) -> Seq<Seq<char>>
    decreases s.len() - i,
{
    let j = index_of_from(s, c, i);
    if 0 <= i <= j < s.len() {
        seq![s.subrange(i, j)] + split_from(s, c, j + 1)
    } else if 0 <= i <= s.len() {
        seq![s.subrange(i, s.len() as int)]
    } else {
        Seq::empty()
    }
}

/// The pieces of `s` between the separators `c`.
pub open spec fn split_spec(s: Seq<char>, c: char) -> Seq<Seq<char>> {
    split_from(s, c, 0)
}

/// The characters of a string.
pub fn collect_chars(text: &str) -> (cs: Vec<char>)
    ensures
        cs@ == text@,
{
    let mut cs: Vec<char> = Vec::new();
    for c in it: text.chars()
        invariant
            it.seq() == text@,
            cs@ == it.seq().take(it.index() as int),
    {
        cs.push(c);
        assert(cs@ =~= it.seq().take(it.index() as int + 1));
    }
    assert(cs@ =~= text@);
    cs
}

/// The characters from `a` to `b`, as a string.
pub fn string_of_range(cs: &Vec<char>, a: usize, b: usize) -> (r: String)
    requires
        a <= b <= cs@.len(),
    ensures
        r@ == cs@.subrange(a as int, b as int),
{
    let mut out = String::new();
    let mut k = a;
    while k < b
        invariant
            a <= k <= b <= cs@.len(),
            out@ == cs@.subrange(a as int, k as int),
        decreases b - k,
    {
        push_char(&mut out, cs[k]);
        k = k + 1;
        assert(out@ =~= cs@.subrange(a as int, k as int));
    }
    out
}

/// The views of a sequence of strings.
pub open spec fn strs_of(v: Seq<String>) -> Seq<Seq<char>> {
    v.map_values(|s: String| s@)
}

/// The pieces of `s` between the separators `c`, as `str::split` yields them.
pub fn split_str(s: &str, c: char) -> (parts: Vec<String>)
    ensures
        strs_of(parts@) == split_spec(s@, c),
{
    let cs = collect_chars(s);
    let n = cs.len();
    let mut parts: Vec<String> = Vec::new();
    let mut i: usize = 0;
    loop
        invariant_except_break
            split_spec(s@, c) == strs_of(parts@) + split_from(s@, c, i as int),
        invariant
            n == cs@.len(),
            cs@ == s@,
            i <= n,
        ensures
            split_spec(s@, c) == strs_of(parts@),
        decreases n - i,
    {
        let mut j = i;
        while j < n && cs[j] != c
            invariant
                i <= j <= n,
                n == cs@.len(),
                index_of_from(cs@, c, j as int) == index_of_from(cs@, c, i as int),
            decreases n - j,
        {
            j = j + 1;
        }
        let piece = string_of_range(&cs, i, j);
        let ghost before = parts@;
        parts.push(piece);
        proof {
            assert(strs_of(parts@) =~= strs_of(before).push(piece@));
        }
        if j < n {
            proof {
                assert(strs_of(before) + split_from(s@, c, i as int) =~= strs_of(parts@) + split_from(s@, c, j as int + 1));
            }
            i = j + 1;
        } else {
            proof {
                assert(strs_of(before) + split_from(s@, c, i as int) =~= strs_of(parts@));
            }
            break;
        }
    }
    parts
}

/// The hexadecimal digit `d`, in lower case.
pub open spec fn hex_digit(d: nat) -> char {
    if d < 10 {
        ((d + '0' as nat) as u32) as char
    } else {
        ((d - 10 + 'a' as nat) as u32) as char
    }
}

/// The hexadecimal representation of a natural number, in lower case and
/// without leading zeros.
pub open spec fn hex_digits(n: nat) -> Seq<char>
    decreases n,
{
    if n < 16 {
        seq![hex_digit(n)]
    } else {
        hex_digits(n / 16).push(hex_digit(n % 16))
    }
}

/// A character as `char::escape_default` writes it: `\t`, `\r`, `\n`, `\'`,
/// `\"` and `\\` for those characters, printable ASCII as itself, and
/// `\u{..}` with the hexadecimal code point for everything else.
pub open spec fn escape_char(c: char) -> Seq<char> {
    if c == '\t' {
        seq!['\\', 't']
    } else if c == '\r' {
        seq!['\\', 'r']
    } else if c == '\n' {
        seq!['\\', 'n']
    } else if c == '\'' || c == '"' || c == '\\' {
        seq!['\\', c]
    } else if ' ' <= c && c <= '~' {
        seq![c]
    } else {
        seq!['\\', 'u', '{'] + hex_digits(c as nat) + seq!['}']
    }
}

/// A string as `str::escape_default` writes it: each character escaped.
pub open spec fn escape_str(s: Seq<char>) -> Seq<char>
    decreases s.len(),
{
    if s.len() == 0 {
        Seq::empty()
    } else {
        escape_str(s.drop_last()) + escape_char(s.last())
    }
}

/// The hexadecimal digit `d`.
fn hex_digit_char(d: u32) -> (c: char)
    requires
        d < 16,
    ensures
        c == hex_digit(d as nat),
{
    if d < 10 {
        let c = char_of(d + 48);
        c
    } else {
        let c = char_of(d - 10 + 97);
        c
    }
}

/// The character with code point `u`, an ASCII one.
fn char_of(u: u32) -> (c: char)
    requires
        u < 128,
    ensures
        c == (u as char),
{
    let b = u as u8;
    let c = b as char;
    assert(b as int == u as int);
    c
}

/// Appends the hexadecimal digits of `n`.
fn push_hex(out: &mut String, n: u32)
    ensures
        final(out)@ == old(out)@ + hex_digits(n as nat),
    decreases n,
{
    if n >= 16 {
        push_hex(out, n / 16);
    }
    push_char(out, hex_digit_char(n % 16));
    assert(hex_digits(n as nat) == if n < 16 {
        seq![hex_digit(n as nat)]
    } else {
        hex_digits((n / 16) as nat).push(hex_digit((n % 16) as nat))
    });
}

/// Appends a character as `char::escape_default` writes it.
pub fn push_escaped_char(out: &mut String, c: char)
    ensures
        final(out)@ == old(out)@ + escape_char(c),
{
    if c == '\t' {
        push_char(out, '\\');
        push_char(out, 't');
    } else if c == '\r' {
        push_char(out, '\\');
        push_char(out, 'r');
    } else if c == '\n' {
        push_char(out, '\\');
        push_char(out, 'n');
    } else if c == '\'' || c == '"' || c == '\\' {
        push_char(out, '\\');
        push_char(out, c);
    } else if ' ' <= c && c <= '~' {
        push_char(out, c);
    } else {
        push_char(out, '\\');
        push_char(out, 'u');
        push_char(out, '{');
        push_hex(out, c as u32);
        push_char(out, '}');
    }
    assert(final(out)@ =~= old(out)@ + escape_char(c));
}

/// Appends a string as `str::escape_default` writes it.
pub fn push_escaped_str(out: &mut String, s: &str)
    ensures
        final(out)@ == old(out)@ + escape_str(s@),
{
    let ghost start = out@;
    for c in it: s.chars()
        invariant
            it.seq() == s@,
            out@ == start + escape_str(s@.take(it.index() as int)),
    {
        let ghost k = it.index() as int;
        assert(s@.take(k + 1).drop_last() =~= s@.take(k));
        push_escaped_char(out, c);
        assert(out@ =~= start + escape_str(s@.take(k + 1)));
    }
    assert(s@.take(s@.len() as int) =~= s@);
}

} // verus!
