//! The string escaper: turns raw text into a JSON string literal, escaping
//! quotes, backslashes and control characters, and copying everything else
//! through unchanged.

use vstd::prelude::*;
use crate::text::chars_of;

verus! {

/// The lowercase hexadecimal digit for `n` (meaningful for `n < 16`).
pub open spec fn hex_digit(n: nat) -> char {
    if n == 0 { '0' }
    else if n == 1 { '1' }
    else if n == 2 { '2' }
    else if n == 3 { '3' }
    else if n == 4 { '4' }
    else if n == 5 { '5' }
    else if n == 6 { '6' }
    else if n == 7 { '7' }
    else if n == 8 { '8' }
    else if n == 9 { '9' }
    else if n == 10 { 'a' }
    else if n == 11 { 'b' }
    else if n == 12 { 'c' }
    else if n == 13 { 'd' }
    else if n == 14 { 'e' }
    else if n == 15 { 'f' }
    else { '0' }
}

/// The escape sequence a single character contributes to a JSON string
/// literal: `\"` and `\\` for quote and backslash, the short escapes for
/// backspace, tab, newline, form feed and carriage return, `\u00xx` for the
/// remaining control characters and for delete, and the character itself
/// otherwise.
pub open spec fn esc_char(c: char) -> Seq<char> {
    let u = c as u32;
    if c == '"' { seq!['\\', '"'] }
    else if c == '\\' { seq!['\\', '\\'] }
    else if u == 0x08 { seq!['\\', 'b'] }
    else if u == 0x09 { seq!['\\', 't'] }
    else if u == 0x0a { seq!['\\', 'n'] }
    else if u == 0x0c { seq!['\\', 'f'] }
    else if u == 0x0d { seq!['\\', 'r'] }
    else if u < 0x20 || u == 0x7f {
        seq!['\\', 'u', '0', '0', hex_digit((u / 16) as nat), hex_digit((u % 16) as nat)]
    }
    else { seq![c] }
}

/// The concatenated escape sequences of every character of `s`.
pub open spec fn esc_seq(s: Seq<char>) -> Seq<char>
    decreases s.len(),
{
    if s.len() == 0 {
        Seq::empty()
    } else {
        esc_char(s[0]) + esc_seq(s.drop_first())
    }
}

/// The full JSON string literal for `s`: a double-quoted, escaped rendering.
pub open spec fn escaped_s(s: Seq<char>) -> Seq<char> {
    seq!['"'] + esc_seq(s) + seq!['"']
}

/// Escaping distributes over appending one character at the end.
pub proof fn lemma_esc_seq_snoc(s: Seq<char>, c: char)
    ensures
        esc_seq(s.push(c)) == esc_seq(s) + esc_char(c),
    decreases s.len(),
{
    if s.len() == 0 {
        assert(s.push(c).drop_first() =~= s);
        assert(esc_seq(s.push(c)) =~= esc_seq(s) + esc_char(c));
    } else {
        assert(s.push(c).drop_first() =~= s.drop_first().push(c));
        lemma_esc_seq_snoc(s.drop_first(), c);
        assert(esc_seq(s.push(c)) =~= esc_seq(s) + esc_char(c));
    }
}

/// The value of a lowercase hexadecimal digit, -1 for any other character.
pub open spec fn hex_val(c: char) -> int {
    if c == '0' { 0 }
    else if c == '1' { 1 }
    else if c == '2' { 2 }
    else if c == '3' { 3 }
    else if c == '4' { 4 }
    else if c == '5' { 5 }
    else if c == '6' { 6 }
    else if c == '7' { 7 }
    else if c == '8' { 8 }
    else if c == '9' { 9 }
    else if c == 'a' { 10 }
    else if c == 'b' { 11 }
    else if c == 'c' { 12 }
    else if c == 'd' { 13 }
    else if c == 'e' { 14 }
    else if c == 'f' { 15 }
    else { -1 }
}

/// The character a short escape stands for, `None` when the character after
/// the backslash is not one of the short escapes.
pub open spec fn short_unescape(c: char) -> Option<char> {
    if c == '"' { Some('"') }
    else if c == '\\' { Some('\\') }
    else if c == 'b' { Some('\u{8}') }
    else if c == 't' { Some('\t') }
    else if c == 'n' { Some('\n') }
    else if c == 'f' { Some('\u{c}') }
    else if c == 'r' { Some('\r') }
    else { None }
}

/// A model of a standard JSON string decoder applied to the body of a string
/// literal (the part between the quotes), restricted to the escape forms this
/// escaper produces: the short escapes, `\u00xx`, and plain characters. An
/// unescaped quote or backslash form that the escaper never emits decodes to
/// `None`.
pub open spec fn unescape_body(t: Seq<char>) -> Option<Seq<char>>
    decreases t.len(),
{
    if t.len() == 0 {
        Some(Seq::empty())
    } else if t[0] == '\\' {
        if t.len() >= 6 && t[1] == 'u' && t[2] == '0' && t[3] == '0' && hex_val(t[4]) >= 0
            && hex_val(t[5]) >= 0 {
            match unescape_body(t.skip(6)) {
                Some(rest) => Some(
                    seq![((16 * hex_val(t[4]) + hex_val(t[5])) as u32) as char] + rest,
                ),
                None => None,
            }
        } else if t.len() >= 2 && short_unescape(t[1]) is Some {
            match (short_unescape(t[1]), unescape_body(t.skip(2))) {
                (Some(c), Some(rest)) => Some(seq![c] + rest),
                _ => None,
            }
        } else {
            None
        }
    } else if t[0] == '"' {
        None
    } else {
        match unescape_body(t.skip(1)) {
            Some(rest) => Some(seq![t[0]] + rest),
            None => None,
        }
    }
}

/// Escaping correctness: a standard JSON string decoder applied to the
/// escaped form of `s` recovers exactly `s`, whatever control characters,
/// quotes or backslashes `s` holds.
pub proof fn lemma_unescape_escape(s: Seq<char>)
    ensures
        unescape_body(esc_seq(s)) == Some(s),
    decreases s.len(),
{
    if s.len() == 0 {
    } else {
        lemma_unescape_escape(s.drop_first());
        let c = s[0];
        let e = esc_char(c);
        let rest = esc_seq(s.drop_first());
        let t = e + rest;
        assert(esc_seq(s) == t);
        let u = c as u32;
        if c == '"' || c == '\\' || u == 0x08 || u == 0x09 || u == 0x0a || u == 0x0c
            || u == 0x0d {
            assert(t[0] == '\\');
            assert(t[1] == e[1]);
            assert(t.skip(2) =~= rest);
            vstd::utf8::char_u32_cast(c, u);
            assert(short_unescape(t[1]) == Some(c));
            assert(seq![c] + s.drop_first() =~= s);
        } else if u < 0x20 || u == 0x7f {
            assert(t[0] == '\\');
            assert(t[1] == 'u');
            assert(t[2] == '0');
            assert(t[3] == '0');
            assert(t[4] == hex_digit((u / 16) as nat));
            assert(t[5] == hex_digit((u % 16) as nat));
            assert(hex_val(hex_digit((u / 16) as nat)) == u / 16);
            assert(hex_val(hex_digit((u % 16) as nat)) == u % 16);
            assert(t.skip(6) =~= rest);
            assert(16 * (u / 16) + (u % 16) == u) by (nonlinear_arith);
            vstd::utf8::char_u32_cast(c, u);
            assert(((16 * hex_val(t[4]) + hex_val(t[5])) as u32) as char == c);
            assert(seq![c] + s.drop_first() =~= s);
        } else {
            assert(t[0] == c);
            assert(t.skip(1) =~= rest);
            assert(seq![c] + s.drop_first() =~= s);
        }
    }
}

/// Escaping correctness for the whole literal: the escaped form is a
/// double-quoted literal whose body, decoded, is exactly the input.
pub proof fn lemma_escape_literal_round_trip(s: Seq<char>)
    ensures
        escaped_s(s).len() >= 2,
        escaped_s(s)[0] == '"',
        escaped_s(s).last() == '"',
        unescape_body(escaped_s(s).subrange(1, escaped_s(s).len() - 1)) == Some(s),
{
    lemma_unescape_escape(s);
    assert(escaped_s(s).subrange(1, escaped_s(s).len() - 1) =~= esc_seq(s));
}

/// The lowercase hexadecimal digit for `n`, computed at run time.
fn hex_digit_char(n: u32) -> (c: char)
    requires
        n < 16,
    ensures
        c == hex_digit(n as nat),
{
    match n {
        0 => '0',
        1 => '1',
        2 => '2',
        3 => '3',
        4 => '4',
        5 => '5',
        6 => '6',
        7 => '7',
        8 => '8',
        9 => '9',
        10 => 'a',
        11 => 'b',
        12 => 'c',
        13 => 'd',
        14 => 'e',
        _ => 'f',
    }
}

/// Appends the escape sequence of a single character to `out`.
fn push_escaped_char(out: &mut Vec<char>, c: char)
    ensures
        final(out)@ == old(out)@ + esc_char(c),
{
    let u = c as u32;
    if c == '"' {
        out.push('\\');
        out.push('"');
    } else if c == '\\' {
        out.push('\\');
        out.push('\\');
    } else if u == 0x08 {
        out.push('\\');
        out.push('b');
    } else if u == 0x09 {
        out.push('\\');
        out.push('t');
    } else if u == 0x0a {
        out.push('\\');
        out.push('n');
    } else if u == 0x0c {
        out.push('\\');
        out.push('f');
    } else if u == 0x0d {
        out.push('\\');
        out.push('r');
    } else if u < 0x20 || u == 0x7f {
        out.push('\\');
        out.push('u');
        out.push('0');
        out.push('0');
        out.push(hex_digit_char(u / 16));
        out.push(hex_digit_char(u % 16));
    } else {
        out.push(c);
    }
    proof {
        assert(out@ =~= old(out)@ + esc_char(c));
    }
}

/// Appends the JSON string literal for `v` to `out`: a double quote, the
/// escaped characters of `v`, and a closing double quote.
pub fn escape_str(out: &mut Vec<char>, v: &str)
    ensures
        final(out)@ == old(out)@ + escaped_s(v@),
{
    let cs = chars_of(v);
    out.push('"');
    let mut i: usize = 0;
    while i < cs.len()
        invariant
            i <= cs.len(),
            cs@ == v@,
            out@ == old(out)@ + seq!['"'] + esc_seq(cs@.take(i as int)),
        decreases cs.len() - i,
    {
        push_escaped_char(out, cs[i]);
        proof {
            assert(cs@.take(i + 1) =~= cs@.take(i as int).push(cs@[i as int]));
            lemma_esc_seq_snoc(cs@.take(i as int), cs@[i as int]);
        }
        i = i + 1;
    }
    out.push('"');
    proof {
        assert(cs@.take(cs@.len() as int) =~= cs@);
        assert(out@ =~= old(out)@ + escaped_s(v@));
    }
}

} // verus!
