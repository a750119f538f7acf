//! JSON values, their compact text, and a parser for JSON text
//! (RFC 8259), with the proof that the parser reads back every value
//! from its text. The layout JSON is proved to be such a text.

use vstd::prelude::*;
use crate::json::{escape_body, escape_char, json_quoted, json_unescape, lemma_escape_body_prepend,
    lemma_escape_body_roundtrip};
use crate::text::join_with;

verus! {

/// A JSON value. Numbers keep their text; strings are decoded.
pub enum JsonValue {
    Null,
    Bool(bool),
    Number(Seq<char>),
    Str(Seq<char>),
    Array(Seq<JsonValue>),
    Object(Seq<(Seq<char>, JsonValue)>),
}

/// JSON whitespace: space, tab, line feed, carriage return.
pub open spec fn is_json_ws(c: char) -> bool {
    c == ' ' || c == '\t' || c == '\n' || c == '\r'
}

pub open spec fn is_digit(c: char) -> bool {
    '0' <= c && c <= '9'
}

/// The characters a JSON number is made of.
pub open spec fn is_number_char(c: char) -> bool {
    is_digit(c) || c == '-' || c == '+' || c == '.' || c == 'e' || c == 'E'
}

/// `t[a..b]` is a non-empty run of digits.
pub open spec fn digits_in(t: Seq<char>, a: int, b: int) -> bool {
    0 <= a < b <= t.len() && forall|k: int| a <= k < b ==> is_digit(#[trigger] t[k])
}

/// The integer part `t[a..p]`: digits, with no leading zero.
pub open spec fn int_part(t: Seq<char>, a: int, p: int) -> bool {
    digits_in(t, a, p) && (t[a] == '0' ==> p == a + 1)
}

/// The fraction `t[p..q]`: absent, or a point and digits.
pub open spec fn frac_part(t: Seq<char>, p: int, q: int) -> bool {
    q == p || (p < t.len() && t[p] == '.' && digits_in(t, p + 1, q))
}

/// The exponent `t[q..]`: absent, or `e`/`E`, an optional sign and digits.
pub open spec fn exp_part(t: Seq<char>, q: int) -> bool {
    q == t.len() || (q < t.len() && (t[q] == 'e' || t[q] == 'E') && {
        let r = if q + 1 < t.len() && (t[q + 1] == '+' || t[q + 1] == '-') {
            q + 2
        } else {
            q + 1
        };
        digits_in(t, r, t.len() as int)
    })
}

/// Whether `t` is a JSON number: `-? int frac? exp?`.
pub open spec fn is_json_number(t: Seq<char>) -> bool {
    let a: int = if t.len() > 0 && t[0] == '-' {
        1
    } else {
        0
    };
    exists|p: int, q: int|
        a <= p <= q <= t.len() && int_part(t, a, p) && frac_part(t, p, q) && exp_part(t, q)
}

pub open spec fn null_text() -> Seq<char> {
    seq!['n', 'u', 'l', 'l']
}

pub open spec fn true_text() -> Seq<char> {
    seq!['t', 'r', 'u', 'e']
}

pub open spec fn false_text() -> Seq<char> {
    seq!['f', 'a', 'l', 's', 'e']
}

/// The compact JSON text of a value: no whitespace, strings escaped as
/// `json_escape` escapes them, numbers as they are.
pub open spec fn render(v: JsonValue) -> Seq<char>
    decreases v,
{
    match v {
        JsonValue::Null => null_text(),
        JsonValue::Bool(b) => if b {
            true_text()
        } else {
            false_text()
        },
        JsonValue::Number(t) => t,
        JsonValue::Str(x) => json_quoted(x),
        JsonValue::Array(vs) => seq!['['] + render_items(vs) + seq![']'],
        JsonValue::Object(ps) => seq!['{'] + render_members(ps) + seq!['}'],
    }
}

/// The elements of an array, comma-separated.
pub open spec fn render_items(vs: Seq<JsonValue>) -> Seq<char>
    decreases vs,
{
    if vs.len() == 0 {
        Seq::empty()
    } else if vs.len() == 1 {
        render(vs[0])
    } else {
        render(vs[0]) + seq![','] + render_items(vs.subrange(1, vs.len() as int))
    }
}

/// The members of an object, `"key":value`, comma-separated.
pub open spec fn render_members(ps: Seq<(Seq<char>, JsonValue)>) -> Seq<char>
    decreases ps,
{
    if ps.len() == 0 {
        Seq::empty()
    } else if ps.len() == 1 {
        json_quoted(ps[0].0) + seq![':'] + render(ps[0].1)
    } else {
        json_quoted(ps[0].0) + seq![':'] + render(ps[0].1) + seq![','] + render_members(
            ps.subrange(1, ps.len() as int),
        )
    }
}

/// Every number in the value is a JSON number.
pub open spec fn well_formed(v: JsonValue) -> bool
    decreases v,
{
    match v {
        JsonValue::Number(t) => is_json_number(t),
        JsonValue::Array(vs) => items_well_formed(vs),
        JsonValue::Object(ps) => members_well_formed(ps),
        _ => true,
    }
}

pub open spec fn items_well_formed(vs: Seq<JsonValue>) -> bool
    decreases vs,
{
    vs.len() == 0 || (well_formed(vs[0]) && items_well_formed(vs.subrange(1, vs.len() as int)))
}

pub open spec fn members_well_formed(ps: Seq<(Seq<char>, JsonValue)>) -> bool
    decreases ps,
{
    ps.len() == 0 || (well_formed(ps[0].1) && members_well_formed(
        ps.subrange(1, ps.len() as int),
    ))
}

/// The first index at or after `i` that is not JSON whitespace.
pub open spec fn skip_ws(s: Seq<char>, i: int) -> int
    decreases s.len() - i,
{
    if 0 <= i < s.len() && is_json_ws(s[i]) {
        skip_ws(s, i + 1)
    } else {
        i
    }
}

/// The end of the run of number characters starting at `i`.
pub open spec fn number_end(s: Seq<char>, i: int) -> int
    decreases s.len() - i,
{
    if 0 <= i < s.len() && is_number_char(s[i]) {
        number_end(s, i + 1)
    } else {
        i
    }
}

/// A number token at `i`: the run of number characters there, if that
/// run is a JSON number.
pub open spec fn parse_number(s: Seq<char>, i: int) -> Option<(Seq<char>, int)> {
    let e = number_end(s, i);
    if 0 <= i < e <= s.len() && is_json_number(s.subrange(i, e)) {
        Some((s.subrange(i, e), e))
    } else {
        None
    }
}

/// The index of the `"` that closes a string whose characters start at
/// `k`: a backslash always takes the next character with it.
pub open spec fn string_end(s: Seq<char>, k: int) -> Option<int>
    decreases s.len() - k,
{
    if k < 0 || k >= s.len() {
        None
    } else if s[k] == '"' {
        Some(k)
    } else if s[k] == '\\' {
        if k + 2 > s.len() {
            None
        } else {
            string_end(s, k + 2)
        }
    } else {
        string_end(s, k + 1)
    }
}

/// A string token at `i`: its decoded characters and the index after it.
pub open spec fn parse_string(s: Seq<char>, i: int) -> Option<(Seq<char>, int)> {
    if 0 <= i < s.len() && s[i] == '"' {
        match string_end(s, i + 1) {
            Some(e) => if i + 1 <= e {
                match json_unescape(s.subrange(i + 1, e)) {
                    Some(x) => Some((x, e + 1)),
                    None => None,
                }
            } else {
                None
            },
            None => None,
        }
    } else {
        None
    }
}

/// Whether `w` stands in `s` at `i`.
pub open spec fn text_at(s: Seq<char>, i: int, w: Seq<char>) -> bool {
    0 <= i && i + w.len() <= s.len() && s.subrange(i, i + w.len()) == w
}

/// The JSON value whose text starts at `i` (after any whitespace), and
/// the index after it.
pub open spec fn parse_value(s: Seq<char>, i: int) -> Option<(JsonValue, int)>
    decreases s.len() - i, 0int,
{
    if i < 0 || i > s.len() {
        None
    } else {
        let j = skip_ws(s, i);
        if j < i || j >= s.len() {
            None
        } else if text_at(s, j, null_text()) {
            Some((JsonValue::Null, j + 4))
        } else if text_at(s, j, true_text()) {
            Some((JsonValue::Bool(true), j + 4))
        } else if text_at(s, j, false_text()) {
            Some((JsonValue::Bool(false), j + 5))
        } else if s[j] == '"' {
            match parse_string(s, j) {
                Some((x, e)) => Some((JsonValue::Str(x), e)),
                None => None,
            }
        } else if s[j] == '[' {
            match parse_elements(s, j + 1) {
                Some((vs, e)) => Some((JsonValue::Array(vs), e)),
                None => None,
            }
        } else if s[j] == '{' {
            match parse_object(s, j + 1) {
                Some((ps, e)) => Some((JsonValue::Object(ps), e)),
                None => None,
            }
        } else {
            match parse_number(s, j) {
                Some((t, e)) => Some((JsonValue::Number(t), e)),
                None => None,
            }
        }
    }
}

/// The elements of an array whose `[` was just read, and the index
/// after its `]`.
pub open spec fn parse_elements(s: Seq<char>, i: int) -> Option<(Seq<JsonValue>, int)>
    decreases s.len() - i, 2int,
{
    if i < 0 || i > s.len() {
        None
    } else {
        let j = skip_ws(s, i);
        if j < i || j >= s.len() {
            None
        } else if s[j] == ']' {
            Some((Seq::empty(), j + 1))
        } else {
            parse_items(s, i)
        }
    }
}

/// One or more comma-separated values closed by `]`.
pub open spec fn parse_items(s: Seq<char>, i: int) -> Option<(Seq<JsonValue>, int)>
    decreases s.len() - i, 1int,
{
    if i < 0 || i > s.len() {
        None
    } else {
        match parse_value(s, i) {
            None => None,
            Some((v, k)) => if k <= i || k > s.len() {
                None
            } else {
                let m = skip_ws(s, k);
                if m < k || m >= s.len() {
                    None
                } else if s[m] == ',' {
                    match parse_items(s, m + 1) {
                        Some((vs, e)) => Some((seq![v] + vs, e)),
                        None => None,
                    }
                } else if s[m] == ']' {
                    Some((seq![v], m + 1))
                } else {
                    None
                }
            },
        }
    }
}

/// The members of an object whose `{` was just read, and the index
/// after its `}`.
pub open spec fn parse_object(s: Seq<char>, i: int) -> Option<(Seq<(Seq<char>, JsonValue)>, int)>
    decreases s.len() - i, 2int,
{
    if i < 0 || i > s.len() {
        None
    } else {
        let j = skip_ws(s, i);
        if j < i || j >= s.len() {
            None
        } else if s[j] == '}' {
            Some((Seq::empty(), j + 1))
        } else {
            parse_members(s, i)
        }
    }
}

/// One or more comma-separated `"key":value` members closed by `}`.
pub open spec fn parse_members(s: Seq<char>, i: int) -> Option<(Seq<(Seq<char>, JsonValue)>, int)>
    decreases s.len() - i, 1int,
{
    if i < 0 || i > s.len() {
        None
    } else {
        let j = skip_ws(s, i);
        if j < i || j >= s.len() {
            None
        } else {
            match parse_string(s, j) {
                None => None,
                Some((key, k)) => {
                    let c = skip_ws(s, k);
                    if k <= j || c < k || c >= s.len() || s[c] != ':' {
                        None
                    } else {
                        match parse_value(s, c + 1) {
                            None => None,
                            Some((v, e)) => if e <= c + 1 || e > s.len() {
                                None
                            } else {
                                let m = skip_ws(s, e);
                                if m < e || m >= s.len() {
                                    None
                                } else if s[m] == ',' {
                                    match parse_members(s, m + 1) {
                                        Some((ps, f)) => Some((seq![(key, v)] + ps, f)),
                                        None => None,
                                    }
                                } else if s[m] == '}' {
                                    Some((seq![(key, v)], m + 1))
                                } else {
                                    None
                                }
                            },
                        }
                    }
                },
            }
        }
    }
}

/// The value a whole JSON text holds, whitespace around it allowed.
pub open spec fn parse_json(s: Seq<char>) -> Option<JsonValue> {
    match parse_value(s, 0) {
        Some((v, k)) => if skip_ws(s, k) == s.len() {
            Some(v)
        } else {
            None
        },
        None => None,
    }
}

proof fn lemma_text_at_index(s: Seq<char>, i: int, w: Seq<char>, k: int)
    requires
        text_at(s, i, w),
        0 <= k < w.len(),
    ensures
        s[i + k] == w[k],
{
    assert(s.subrange(i, i + w.len())[k] == s[i + k]);
}

proof fn lemma_text_at_split(s: Seq<char>, i: int, a: Seq<char>, b: Seq<char>)
    requires
        text_at(s, i, a + b),
    ensures
        text_at(s, i, a),
        text_at(s, i + a.len(), b),
{
    let whole = s.subrange(i, i + a.len() + b.len());
    assert(whole == a + b);
    assert(s.subrange(i, i + a.len()) =~= whole.subrange(0, a.len() as int));
    assert((a + b).subrange(0, a.len() as int) =~= a);
    assert(s.subrange(i + a.len(), i + a.len() + b.len()) =~= whole.subrange(
        a.len() as int,
        (a.len() + b.len()) as int,
    ));
    assert((a + b).subrange(a.len() as int, (a.len() + b.len()) as int) =~= b);
}

proof fn lemma_number_facts(t: Seq<char>)
    requires
        is_json_number(t),
    ensures
        t.len() >= 1,
        t[0] == '-' || is_digit(t[0]),
        forall|k: int| 0 <= k < t.len() ==> is_number_char(#[trigger] t[k]),
{
    let a: int = if t.len() > 0 && t[0] == '-' {
        1
    } else {
        0
    };
    let (p, q) = choose|p: int, q: int|
        a <= p <= q <= t.len() && int_part(t, a, p) && frac_part(t, p, q) && exp_part(t, q);
    assert(is_digit(t[a]));
    assert forall|k: int| 0 <= k < t.len() implies is_number_char(#[trigger] t[k]) by {
        if k < a {
        } else if k < p {
            assert(is_digit(t[k]));
        } else if k < q {
            if k > p {
                assert(is_digit(t[k]));
            }
        } else {
            let r = if q + 1 < t.len() && (t[q + 1] == '+' || t[q + 1] == '-') {
                q + 2
            } else {
                q + 1
            };
            if k >= r {
                assert(is_digit(t[k]));
            }
        }
    }
}

proof fn lemma_number_end(s: Seq<char>, i: int, e: int)
    requires
        0 <= i <= e <= s.len(),
        forall|k: int| i <= k < e ==> is_number_char(#[trigger] s[k]),
        e == s.len() || !is_number_char(s[e]),
    ensures
        number_end(s, i) == e,
    decreases e - i,
{
    if i < e {
        lemma_number_end(s, i + 1, e);
    }
}

/// Scanning the escaped body of a string stops at its closing quote.
proof fn lemma_string_end(x: Seq<char>, s: Seq<char>, k: int)
    requires
        text_at(s, k, escape_body(x) + seq!['"']),
    ensures
        string_end(s, k) == Some(k + escape_body(x).len()),
    decreases x.len(),
{
    if x.len() == 0 {
        assert(escape_body(x) + seq!['"'] =~= seq!['"']);
        lemma_text_at_index(s, k, escape_body(x) + seq!['"'], 0);
    } else {
        let c = x[0];
        let rest = x.drop_first();
        assert(x =~= seq![c] + rest);
        lemma_escape_body_prepend(c, rest);
        let e = escape_char(c);
        let tail = escape_body(rest) + seq!['"'];
        assert(escape_body(x) + seq!['"'] =~= e + tail);
        lemma_text_at_split(s, k, e, tail);
        lemma_string_end(rest, s, k + e.len());
        lemma_text_at_index(s, k, e, 0);
        if e.len() == 2 {
            assert(s[k] == '\\');
        } else if e.len() == 6 {
            lemma_text_at_index(s, k, e, 2);
            lemma_text_at_index(s, k, e, 3);
            lemma_text_at_index(s, k, e, 4);
            lemma_text_at_index(s, k, e, 5);
            assert(string_end(s, k + 5) == string_end(s, k + 6));
            assert(string_end(s, k + 4) == string_end(s, k + 5));
            assert(string_end(s, k + 3) == string_end(s, k + 4));
            assert(string_end(s, k + 2) == string_end(s, k + 3));
        }
    }
}

/// A quoted, escaped string parses back to its characters.
proof fn lemma_parse_quoted(x: Seq<char>, s: Seq<char>, i: int)
    requires
        text_at(s, i, json_quoted(x)),
    ensures
        parse_string(s, i) == Some((x, i + json_quoted(x).len())),
{
    let body = escape_body(x);
    assert(json_quoted(x) == seq!['"'] + (body + seq!['"']));
    lemma_text_at_split(s, i, seq!['"'], body + seq!['"']);
    lemma_text_at_index(s, i, seq!['"'], 0);
    lemma_string_end(x, s, i + 1);
    lemma_text_at_split(s, i + 1, body, seq!['"']);
    lemma_escape_body_roundtrip(x);
}

/// The first character of a value's text: never whitespace, a comma or
/// a closing bracket, and it tells the kinds of value apart.
proof fn lemma_render_first(v: JsonValue)
    requires
        well_formed(v),
    ensures
        render(v).len() >= 1,
        v is Null ==> render(v)[0] == 'n',
        v is Bool ==> render(v)[0] == 't' || render(v)[0] == 'f',
        v matches JsonValue::Bool(b) ==> (b <==> render(v)[0] == 't'),
        v is Number ==> render(v)[0] == '-' || is_digit(render(v)[0]),
        v is Str ==> render(v)[0] == '"',
        v is Array ==> render(v)[0] == '[',
        v is Object ==> render(v)[0] == '{',
        !is_json_ws(render(v)[0]) && render(v)[0] != ']' && render(v)[0] != '}',
{
    match v {
        JsonValue::Number(t) => {
            lemma_number_facts(t);
        },
        JsonValue::Str(x) => {
            assert(json_quoted(x)[0] == '"');
        },
        _ => {},
    }
}

/// A character that starts no keyword rules the keywords out.
proof fn lemma_no_keyword(s: Seq<char>, i: int)
    requires
        0 <= i < s.len(),
    ensures
        s[i] != 'n' ==> !text_at(s, i, null_text()),
        s[i] != 't' ==> !text_at(s, i, true_text()),
        s[i] != 'f' ==> !text_at(s, i, false_text()),
{
    if text_at(s, i, null_text()) {
        lemma_text_at_index(s, i, null_text(), 0);
    }
    if text_at(s, i, true_text()) {
        lemma_text_at_index(s, i, true_text(), 0);
    }
    if text_at(s, i, false_text()) {
        lemma_text_at_index(s, i, false_text(), 0);
    }
}

/// The parser reads a well-formed value back from its text, wherever
/// the text stands, provided no number character follows it.
#[verifier::rlimit(40)]
proof fn lemma_parse_render(v: JsonValue, s: Seq<char>, i: int)
    requires
        well_formed(v),
        text_at(s, i, render(v)),
        i + render(v).len() == s.len() || !is_number_char(s[i + render(v).len()]),
    ensures
        parse_value(s, i) == Some((v, i + render(v).len())),
    decreases v, 0int,
{
    lemma_render_first(v);
    lemma_text_at_index(s, i, render(v), 0);
    lemma_no_keyword(s, i);
    assert(skip_ws(s, i) == i);
    match v {
        JsonValue::Null => {
            assert(render(v) == null_text());
            assert(null_text().len() == 4);
            assert(text_at(s, i, null_text()));
            assert(skip_ws(s, i) == i);
        },
        JsonValue::Bool(b) => {
            assert(true_text().len() == 4);
            assert(false_text().len() == 5);
            if b {
                assert(render(v) == true_text());
            } else {
                assert(render(v) == false_text());
                assert(!text_at(s, i, true_text())) by {
                    if text_at(s, i, true_text()) {
                        lemma_text_at_index(s, i, true_text(), 0);
                    }
                }
            }
        },
        JsonValue::Number(t) => {
            lemma_number_facts(t);
            assert forall|k: int| i <= k < i + t.len() implies is_number_char(#[trigger] s[k]) by {
                lemma_text_at_index(s, i, t, k - i);
            }
            lemma_number_end(s, i, i + t.len());
        },
        JsonValue::Str(x) => {
            lemma_parse_quoted(x, s, i);
        },
        JsonValue::Array(vs) => {
            let inner = render_items(vs);
            assert(render(v) == seq!['['] + (inner + seq![']']));
            lemma_text_at_split(s, i, seq!['['], inner + seq![']']);
            if vs.len() == 0 {
                assert(inner + seq![']'] =~= seq![']']);
                lemma_text_at_index(s, i + 1, inner + seq![']'], 0);
                assert(vs =~= Seq::<JsonValue>::empty());
            } else {
                lemma_render_first(vs[0]);
                lemma_items_first(vs);
                lemma_text_at_index(s, i + 1, inner + seq![']'], 0);
                lemma_parse_items(vs, s, i + 1);
            }
        },
        JsonValue::Object(ps) => {
            let inner = render_members(ps);
            assert(render(v) == seq!['{'] + (inner + seq!['}']));
            lemma_text_at_split(s, i, seq!['{'], inner + seq!['}']);
            if ps.len() == 0 {
                assert(inner + seq!['}'] =~= seq!['}']);
                lemma_text_at_index(s, i + 1, inner + seq!['}'], 0);
                assert(ps =~= Seq::<(Seq<char>, JsonValue)>::empty());
            } else {
                lemma_members_first(ps);
                lemma_text_at_index(s, i + 1, inner + seq!['}'], 0);
                lemma_parse_members(ps, s, i + 1);
            }
        },
    }
}

/// A non-empty list of elements starts with its first element's text.
proof fn lemma_items_first(vs: Seq<JsonValue>)
    requires
        vs.len() >= 1,
        items_well_formed(vs),
    ensures
        render_items(vs).len() >= 1,
        render_items(vs)[0] == render(vs[0])[0],
        well_formed(vs[0]),
{
    lemma_render_first(vs[0]);
}

/// A non-empty list of members starts with a quote.
proof fn lemma_members_first(ps: Seq<(Seq<char>, JsonValue)>)
    requires
        ps.len() >= 1,
    ensures
        render_members(ps).len() >= 1,
        render_members(ps)[0] == '"',
{
    assert(json_quoted(ps[0].0)[0] == '"');
}

/// The parser reads back a non-empty list of elements and its `]`.
#[verifier::rlimit(40)]
proof fn lemma_parse_items(vs: Seq<JsonValue>, s: Seq<char>, i: int)
    requires
        vs.len() >= 1,
        items_well_formed(vs),
        text_at(s, i, render_items(vs) + seq![']']),
    ensures
        parse_items(s, i) == Some((vs, i + render_items(vs).len() + 1)),
    decreases vs, 1int,
{
    let v0 = vs[0];
    let r0 = render(v0);
    lemma_render_first(v0);
    let k = i + r0.len();
    if vs.len() == 1 {
        assert(render_items(vs) + seq![']'] == r0 + seq![']']);
        lemma_text_at_split(s, i, r0, seq![']']);
        lemma_text_at_index(s, k, seq![']'], 0);
        lemma_parse_render(v0, s, i);
        assert(seq![v0] =~= vs);
    } else {
        let rest = vs.subrange(1, vs.len() as int);
        let tail = render_items(rest) + seq![']'];
        assert(render_items(vs) + seq![']'] =~= r0 + (seq![','] + tail));
        lemma_text_at_split(s, i, r0, seq![','] + tail);
        lemma_text_at_split(s, k, seq![','], tail);
        lemma_text_at_index(s, k, seq![','], 0);
        lemma_parse_render(v0, s, i);
        lemma_parse_items(rest, s, k + 1);
        assert(seq![v0] + rest =~= vs);
    }
}

/// The parser reads back a non-empty list of members and its `}`.
#[verifier::rlimit(40)]
proof fn lemma_parse_members(ps: Seq<(Seq<char>, JsonValue)>, s: Seq<char>, i: int)
    requires
        ps.len() >= 1,
        members_well_formed(ps),
        text_at(s, i, render_members(ps) + seq!['}']),
    ensures
        parse_members(s, i) == Some((ps, i + render_members(ps).len() + 1)),
    decreases ps, 1int,
{
    let (key, v0) = ps[0];
    let q = json_quoted(key);
    let r0 = render(v0);
    lemma_render_first(v0);
    assert(q[0] == '"');
    let k = i + q.len();
    let e = k + 1 + r0.len();
    let after = if ps.len() == 1 {
        seq!['}']
    } else {
        seq![','] + render_members(ps.subrange(1, ps.len() as int)) + seq!['}']
    };
    assert(render_members(ps) + seq!['}'] =~= q + (seq![':'] + (r0 + after)));
    lemma_text_at_split(s, i, q, seq![':'] + (r0 + after));
    lemma_text_at_split(s, k, seq![':'], r0 + after);
    lemma_text_at_split(s, k + 1, r0, after);
    lemma_text_at_index(s, i, q, 0);
    lemma_text_at_index(s, k, seq![':'], 0);
    lemma_text_at_index(s, e, after, 0);
    lemma_parse_quoted(key, s, i);
    lemma_parse_render(v0, s, k + 1);
    if ps.len() == 1 {
        assert(seq![(key, v0)] =~= ps);
    } else {
        let rest = ps.subrange(1, ps.len() as int);
        let tail = render_members(rest) + seq!['}'];
        assert(after =~= seq![','] + tail);
        lemma_text_at_split(s, e, seq![','], tail);
        lemma_parse_members(rest, s, e + 1);
        assert(seq![(key, v0)] + rest =~= ps);
    }
}

/// The parser reads every well-formed value back from its compact text:
/// the text is JSON, and it holds exactly that value.
pub proof fn lemma_parse_json_render(v: JsonValue)
    requires
        well_formed(v),
    ensures
        parse_json(render(v)) == Some(v),
{
    let s = render(v);
    assert(s.subrange(0, s.len() as int) =~= s);
    lemma_parse_render(v, s, 0);
}

/// The text of one object member, `"key":value`.
pub open spec fn member_text(p: (Seq<char>, JsonValue)) -> Seq<char> {
    json_quoted(p.0) + seq![':'] + render(p.1)
}

/// The elements' text, taken apart at the first element.
pub proof fn lemma_items_cons(v: JsonValue, rest: Seq<JsonValue>)
    ensures
        render_items(seq![v] + rest) == if rest.len() == 0 {
            render(v)
        } else {
            render(v) + seq![','] + render_items(rest)
        },
{
    let vs = seq![v] + rest;
    assert(vs[0] == v);
    assert(vs.subrange(1, vs.len() as int) =~= rest);
}

/// A join taken apart at its first item.
pub proof fn lemma_join_front(ts: Seq<Seq<char>>, sep: char)
    requires
        ts.len() >= 2,
    ensures
        join_with(ts, sep) == ts[0] + seq![sep] + join_with(ts.subrange(1, ts.len() as int), sep),
    decreases ts.len(),
{
    let rest = ts.subrange(1, ts.len() as int);
    if ts.len() == 2 {
        assert(ts.drop_last() =~= seq![ts[0]]);
        assert(rest =~= seq![ts[1]]);
        assert(join_with(ts.drop_last(), sep) == ts[0]);
        assert(join_with(rest, sep) == ts[1]);
        assert(ts.last() == ts[1]);
    } else {
        lemma_join_front(ts.drop_last(), sep);
        assert(ts.drop_last().subrange(1, ts.len() - 1) =~= rest.drop_last());
        assert(rest.last() == ts.last());
        assert(join_with(ts, sep) =~= ts[0] + seq![sep] + join_with(rest, sep));
    }
}

/// Elements whose texts are `ts` render as `ts` comma-joined.
pub proof fn lemma_items_as_join(vs: Seq<JsonValue>, ts: Seq<Seq<char>>)
    requires
        vs.len() == ts.len(),
        forall|k: int| 0 <= k < vs.len() ==> render(#[trigger] vs[k]) == ts[k],
    ensures
        render_items(vs) == join_with(ts, ','),
    decreases vs.len(),
{
    if vs.len() >= 2 {
        let vr = vs.subrange(1, vs.len() as int);
        let tr = ts.subrange(1, ts.len() as int);
        assert forall|k: int| 0 <= k < vr.len() implies render(#[trigger] vr[k]) == tr[k] by {
            assert(vr[k] == vs[k + 1]);
        }
        lemma_items_as_join(vr, tr);
        lemma_join_front(ts, ',');
    } else if vs.len() == 1 {
        assert(render(vs[0]) == ts[0]);
    }
}

/// A list whose elements are all well formed is well formed.
pub proof fn lemma_items_well_formed(vs: Seq<JsonValue>)
    requires
        forall|k: int| 0 <= k < vs.len() ==> well_formed(#[trigger] vs[k]),
    ensures
        items_well_formed(vs),
    decreases vs.len(),
{
    if vs.len() > 0 {
        let vr = vs.subrange(1, vs.len() as int);
        assert forall|k: int| 0 <= k < vr.len() implies well_formed(#[trigger] vr[k]) by {
            assert(vr[k] == vs[k + 1]);
        }
        lemma_items_well_formed(vr);
        assert(well_formed(vs[0]));
    }
}

/// Members whose values are all well formed are well formed.
pub proof fn lemma_members_well_formed(ps: Seq<(Seq<char>, JsonValue)>)
    requires
        forall|k: int| 0 <= k < ps.len() ==> well_formed(#[trigger] ps[k].1),
    ensures
        members_well_formed(ps),
    decreases ps.len(),
{
    if ps.len() > 0 {
        let pr = ps.subrange(1, ps.len() as int);
        assert forall|k: int| 0 <= k < pr.len() implies well_formed(#[trigger] pr[k].1) by {
            assert(pr[k] == ps[k + 1]);
        }
        lemma_members_well_formed(pr);
        assert(well_formed(ps[0].1));
    }
}

/// Whether `c` stands for itself inside a JSON string literal.
pub open spec fn plain_char(c: char) -> bool {
    c != '"' && c != '\\' && (c as u32) >= 0x20
}

/// Text of plain characters is its own escape.
pub proof fn lemma_plain_escape(x: Seq<char>)
    requires
        forall|k: int| 0 <= k < x.len() ==> plain_char(#[trigger] x[k]),
    ensures
        escape_body(x) == x,
    decreases x.len(),
{
    if x.len() > 0 {
        lemma_plain_escape(x.drop_last());
        assert(plain_char(x[x.len() - 1]));
        assert(escape_body(x) =~= x);
    }
}

/// The text that opens an object with the member named `k`.
pub open spec fn open_prefix(k: Seq<char>) -> Seq<char> {
    seq!['{'] + json_quoted(k) + seq![':']
}

/// The text between one member's value and the next member's value.
pub open spec fn next_prefix(k: Seq<char>) -> Seq<char> {
    seq![','] + json_quoted(k) + seq![':']
}

/// An object's text without its closing brace, built member by member
/// from the left.
pub open spec fn object_left(ps: Seq<(Seq<char>, JsonValue)>) -> Seq<char>
    decreases ps.len(),
{
    if ps.len() == 0 {
        seq!['{']
    } else if ps.len() == 1 {
        open_prefix(ps[0].0) + render(ps[0].1)
    } else {
        object_left(ps.drop_last()) + next_prefix(ps.last().0) + render(ps.last().1)
    }
}

proof fn lemma_members_back(ps: Seq<(Seq<char>, JsonValue)>)
    requires
        ps.len() >= 2,
    ensures
        render_members(ps) == render_members(ps.drop_last()) + seq![','] + member_text(ps.last()),
    decreases ps.len(),
{
    let rest = ps.subrange(1, ps.len() as int);
    if ps.len() == 2 {
        assert(rest =~= seq![ps[1]]);
        assert(ps.drop_last() =~= seq![ps[0]]);
        assert(render_members(rest) == member_text(ps[1]));
        assert(render_members(ps.drop_last()) == member_text(ps[0]));
        assert(render_members(ps) == member_text(ps[0]) + seq![','] + member_text(ps[1]));
        assert(ps.last() == ps[1]);
        assert(render_members(ps) =~= render_members(ps.drop_last()) + seq![','] + member_text(
            ps.last(),
        ));
    } else {
        lemma_members_back(rest);
        assert(ps.drop_last().subrange(1, ps.len() - 1) =~= rest.drop_last());
        assert(rest.last() == ps.last());
        assert(ps.drop_last()[0] == ps[0]);
        assert(render_members(ps) == member_text(ps[0]) + seq![','] + render_members(rest));
        assert(render_members(ps.drop_last()) == member_text(ps[0]) + seq![','] + render_members(
            rest.drop_last(),
        ));
        assert(render_members(ps) =~= render_members(ps.drop_last()) + seq![','] + member_text(
            ps.last(),
        ));
    }
}

proof fn lemma_object_left_members(ps: Seq<(Seq<char>, JsonValue)>)
    requires
        ps.len() >= 1,
    ensures
        object_left(ps) == seq!['{'] + render_members(ps),
    decreases ps.len(),
{
    if ps.len() == 1 {
        assert(object_left(ps) =~= seq!['{'] + render_members(ps));
    } else {
        lemma_object_left_members(ps.drop_last());
        lemma_members_back(ps);
        assert(object_left(ps) =~= seq!['{'] + render_members(ps));
    }
}

/// An object's text is its members' texts appended from the left, then
/// the closing brace.
pub proof fn lemma_object_left(ps: Seq<(Seq<char>, JsonValue)>)
    requires
        ps.len() >= 1,
    ensures
        render(JsonValue::Object(ps)) == object_left(ps) + seq!['}'],
{
    lemma_object_left_members(ps);
}

/// The text that opens an object with a plain-character key `k` is
/// `{"k":`.
pub proof fn lemma_open_prefix_text(k: Seq<char>, lit: Seq<char>)
    requires
        forall|i: int| 0 <= i < k.len() ==> plain_char(#[trigger] k[i]),
        lit =~= seq!['{', '"'] + k + seq!['"', ':'],
    ensures
        open_prefix(k) == lit,
{
    lemma_plain_escape(k);
    assert(open_prefix(k) =~= lit);
}

/// The text before the member with a plain-character key `k` is
/// `,"k":`.
pub proof fn lemma_next_prefix_text(k: Seq<char>, lit: Seq<char>)
    requires
        forall|i: int| 0 <= i < k.len() ==> plain_char(#[trigger] k[i]),
        lit =~= seq![',', '"'] + k + seq!['"', ':'],
    ensures
        next_prefix(k) == lit,
{
    lemma_plain_escape(k);
    assert(next_prefix(k) =~= lit);
}

} // verus!
