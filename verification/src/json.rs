//! JSON string literals: the escaping that every string field of the
//! layout JSON goes through, and the decoding it is proved against.

use vstd::prelude::*;
use crate::text::{hex_digit, hex_digit_char};

verus! {

/// The escape sequence (or the character itself) that stands for `c`
/// inside a JSON string literal.
pub open spec fn escape_char(c: char) -> Seq<char> {
    if c == '"' {
        seq!['\\', '"']
    } else if c == '\\' {
        seq!['\\', '\\']
    } else if c == '\n' {
        seq!['\\', 'n']
    } else if c == '\r' {
        seq!['\\', 'r']
    } else if c == '\t' {
        seq!['\\', 't']
    } else if c == '\u{0008}' {
        seq!['\\', 'b']
    } else if c == '\u{000c}' {
        seq!['\\', 'f']
    } else if (c as u32) < 0x20 {
        seq!['\\', 'u', '0', '0', hex_digit(((c as u32) / 16) as int), hex_digit(((c as u32) % 16) as int)]
    } else {
        seq![c]
    }
}

/// The escaped characters of `s`, one escape after another.
pub open spec fn escape_body(s: Seq<char>) -> Seq<char>
    decreases s.len(),
{
    if s.len() == 0 {
        Seq::empty()
    } else {
        escape_body(s.drop_last()) + escape_char(s.last())
    }
}

/// `s` as a quoted JSON string literal.
pub open spec fn json_quoted(s: Seq<char>) -> Seq<char> {
    seq!['"'] + escape_body(s) + seq!['"']
}

/// Quote and escape `s` as a JSON string literal: `"` and `\` are
/// backslash-escaped, the control characters with a short escape
/// (`\n`, `\r`, `\t`, `\b`, `\f`) get it, every other character below
/// U+0020 becomes `\u00XX` in lowercase hex, and all else is copied.
pub fn json_escape(s: &str) -> (out: String)
    ensures
        out@ == json_quoted(s@),
{
    let mut out = String::new();
    out.push('"');
    for c in it: s.chars()
        invariant
            it.seq() == s@,
            out@ == seq!['"'] + escape_body(s@.take(it.index())),
    {
        proof {
            assert(c == s@[it.index()]);
            assert(s@.take(it.index() + 1).drop_last() =~= s@.take(it.index()));
        }
        if c == '"' {
            out.push('\\');
            out.push('"');
        } else if c == '\\' {
            out.push('\\');
            out.push('\\');
        } else if c == '\n' {
            out.push('\\');
            out.push('n');
        } else if c == '\r' {
            out.push('\\');
            out.push('r');
        } else if c == '\t' {
            out.push('\\');
            out.push('t');
        } else if c == '\u{0008}' {
            out.push('\\');
            out.push('b');
        } else if c == '\u{000c}' {
            out.push('\\');
            out.push('f');
        } else if (c as u32) < 0x20 {
            let code = c as u32;
            out.push('\\');
            out.push('u');
            out.push('0');
            out.push('0');
            out.push(hex_digit_char(code / 16));
            out.push(hex_digit_char(code % 16));
        } else {
            out.push(c);
        }
        proof {
            assert(out@ =~= seq!['"'] + escape_body(s@.take(it.index() + 1)));
        }
    }
    proof {
        assert(s@.take(s@.len() as int) =~= s@);
    }
    out.push('"');
    out
}

} // verus!

verus! {

/// The value of a hexadecimal digit, either case.
pub open spec fn hex_value(c: char) -> Option<int> {
    if '0' <= c && c <= '9' {
        Some(c as int - 48)
    } else if 'a' <= c && c <= 'f' {
        Some(c as int - 87)
    } else if 'A' <= c && c <= 'F' {
        Some(c as int - 55)
    } else {
        None
    }
}

/// The value of the four hexadecimal digits `t[i..i + 4]`.
pub open spec fn hex4_value(t: Seq<char>, i: int) -> Option<int> {
    match (hex_value(t[i]), hex_value(t[i + 1]), hex_value(t[i + 2]), hex_value(t[i + 3])) {
        (Some(a), Some(b), Some(c), Some(d)) => Some(((a * 16 + b) * 16 + c) * 16 + d),
        _ => None,
    }
}

/// The character a short escape `\e` stands for, if `e` names one.
pub open spec fn short_escape(e: char) -> Option<char> {
    if e == '"' {
        Some('"')
    } else if e == '\\' {
        Some('\\')
    } else if e == '/' {
        Some('/')
    } else if e == 'b' {
        Some('\u{0008}')
    } else if e == 'f' {
        Some('\u{000c}')
    } else if e == 'n' {
        Some('\n')
    } else if e == 'r' {
        Some('\r')
    } else if e == 't' {
        Some('\t')
    } else {
        None
    }
}

/// Prepend `c` to a decoded tail, keeping a failure a failure.
pub open spec fn cons_decoded(c: char, rest: Option<Seq<char>>) -> Option<Seq<char>> {
    match rest {
        Some(r) => Some(seq![c] + r),
        None => None,
    }
}

/// Decode the characters between the quotes of a JSON string literal
/// (RFC 8259, section 7): `None` where the text holds a raw `"`, a raw
/// control character, or a malformed escape, including an unpaired
/// UTF-16 surrogate.
pub open spec fn json_unescape(t: Seq<char>) -> Option<Seq<char>>
    decreases t.len(),
{
    if t.len() == 0 {
        Some(Seq::empty())
    } else if t[0] == '\\' {
        if t.len() < 2 {
            None
        } else if short_escape(t[1]) is Some {
            cons_decoded(short_escape(t[1])->0, json_unescape(t.skip(2)))
        } else if t[1] == 'u' && t.len() >= 6 && hex4_value(t, 2) is Some {
            let v = hex4_value(t, 2)->0;
            if 0xD800 <= v < 0xDC00 {
                if t.len() >= 12 && t[6] == '\\' && t[7] == 'u' && hex4_value(t, 8) is Some
                    && 0xDC00 <= hex4_value(t, 8)->0 < 0xE000 {
                    let w = hex4_value(t, 8)->0;
                    let code = 0x10000 + (v - 0xD800) * 0x400 + (w - 0xDC00);
                    cons_decoded(code as char, json_unescape(t.skip(12)))
                } else {
                    None
                }
            } else if 0xDC00 <= v < 0xE000 {
                None
            } else {
                cons_decoded(v as char, json_unescape(t.skip(6)))
            }
        } else {
            None
        }
    } else if t[0] == '"' || (t[0] as int) < 0x20 {
        None
    } else {
        cons_decoded(t[0], json_unescape(t.skip(1)))
    }
}

/// Decode a whole JSON string literal, quotes included.
pub open spec fn decode_json_string(t: Seq<char>) -> Option<Seq<char>> {
    if t.len() >= 2 && t[0] == '"' && t[t.len() - 1] == '"' {
        json_unescape(t.subrange(1, t.len() - 1))
    } else {
        None
    }
}

proof fn lemma_hex_digit_value(d: int)
    requires
        0 <= d < 16,
    ensures
        hex_value(hex_digit(d)) == Some(d),
{
}

pub(crate) proof fn lemma_escape_body_prepend(c: char, s: Seq<char>)
    ensures
        escape_body(seq![c] + s) == escape_char(c) + escape_body(s),
    decreases s.len(),
{
    if s.len() == 0 {
        assert(seq![c] + s =~= seq![c]);
        assert(seq![c].drop_last() =~= Seq::<char>::empty());
        assert(escape_body(seq![c]) == escape_body(Seq::<char>::empty()) + escape_char(c));
        assert(escape_body(seq![c]) =~= escape_char(c));
        assert(escape_char(c) + escape_body(s) =~= escape_char(c));
    } else {
        lemma_escape_body_prepend(c, s.drop_last());
        assert((seq![c] + s).drop_last() =~= seq![c] + s.drop_last());
        assert((seq![c] + s).last() == s.last());
        assert(escape_body(seq![c] + s) =~= escape_char(c) + escape_body(s));
    }
}

proof fn lemma_unescape_char(c: char, rest: Seq<char>)
    ensures
        json_unescape(escape_char(c) + rest) == cons_decoded(c, json_unescape(rest)),
{
    let t = escape_char(c) + rest;
    if c == '"' || c == '\\' || c == '\n' || c == '\r' || c == '\t' || c == '\u{0008}'
        || c == '\u{000c}' {
        assert(t.skip(2) =~= rest);
    } else if (c as u32) < 0x20 {
        let hi = ((c as u32) / 16) as int;
        let lo = ((c as u32) % 16) as int;
        lemma_hex_digit_value(0);
        lemma_hex_digit_value(hi);
        lemma_hex_digit_value(lo);
        assert(t[2] == '0' && t[3] == '0' && t[4] == hex_digit(hi) && t[5] == hex_digit(lo));
        assert(hex4_value(t, 2) == Some(c as int));
        assert(t.skip(6) =~= rest);
    } else {
        assert(t.skip(1) =~= rest);
    }
}

/// Decoding undoes escaping: the body that `json_escape` writes between
/// the quotes decodes back to exactly the input.
pub proof fn lemma_escape_body_roundtrip(s: Seq<char>)
    ensures
        json_unescape(escape_body(s)) == Some(s),
    decreases s.len(),
{
    if s.len() == 0 {
    } else {
        let c = s[0];
        let rest = s.drop_first();
        assert(s =~= seq![c] + rest);
        lemma_escape_body_prepend(c, rest);
        lemma_escape_body_roundtrip(rest);
        lemma_unescape_char(c, escape_body(rest));
        assert(seq![c] + rest == s);
    }
}

/// Every output of `json_escape` is a well-formed JSON string literal
/// that decodes back to the string that was escaped.
pub proof fn lemma_json_quoted_roundtrip(s: Seq<char>)
    ensures
        decode_json_string(json_quoted(s)) == Some(s),
{
    let t = json_quoted(s);
    lemma_escape_body_roundtrip(s);
    assert(t.subrange(1, t.len() - 1) =~= escape_body(s));
}

} // verus!
