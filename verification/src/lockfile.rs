//! The engine version, read from the text of a `Cargo.lock`: the
//! `version` line of the `[[package]]` entry named `flowmaid`, so the
//! reported version is the one of the engine that was built in.

use vstd::prelude::*;

verus! {

/// Whether `c` has the Unicode `White_Space` property, as
/// `char::is_whitespace` decides it.
pub open spec fn is_space(c: char) -> bool {
    let u = c as u32;
    (0x09 <= u && u <= 0x0d) || u == 0x20 || u == 0x85 || u == 0xa0 || u == 0x1680
        || (0x2000 <= u && u <= 0x200a) || u == 0x2028 || u == 0x2029 || u == 0x202f
        || u == 0x205f || u == 0x3000
}

/// Exec version of `is_space`.
pub fn is_space_char(c: char) -> (b: bool)
    ensures
        b == is_space(c),
{
    let u = c as u32;
    (0x09 <= u && u <= 0x0d) || u == 0x20 || u == 0x85 || u == 0xa0 || u == 0x1680
        || (0x2000 <= u && u <= 0x200a) || u == 0x2028 || u == 0x2029 || u == 0x202f
        || u == 0x205f || u == 0x3000
}

/// `s` without its leading characters that satisfy `is_space`.
pub open spec fn trim_start_spaces(s: Seq<char>) -> Seq<char>
    decreases s.len(),
{
    if s.len() > 0 && is_space(s[0]) {
        trim_start_spaces(s.drop_first())
    } else {
        s
    }
}

/// `s` without its trailing characters that satisfy `is_space`.
pub open spec fn trim_end_spaces(s: Seq<char>) -> Seq<char>
    decreases s.len(),
{
    if s.len() > 0 && is_space(s.last()) {
        trim_end_spaces(s.drop_last())
    } else {
        s
    }
}

/// `s` with leading and trailing whitespace removed (`str::trim`).
pub open spec fn trim_spaces(s: Seq<char>) -> Seq<char> {
    trim_end_spaces(trim_start_spaces(s))
}

/// `s` with every leading repetition of a non-empty `p` removed
/// (`str::trim_start_matches`).
pub open spec fn trim_start_matches(s: Seq<char>, p: Seq<char>) -> Seq<char>
    decreases s.len(),
{
    if p.len() > 0 && s.len() >= p.len() && s.take(p.len() as int) == p {
        trim_start_matches(s.skip(p.len() as int), p)
    } else {
        s
    }
}

/// `s` without its leading copies of `c`.
pub open spec fn trim_start_char(s: Seq<char>, c: char) -> Seq<char>
    decreases s.len(),
{
    if s.len() > 0 && s[0] == c {
        trim_start_char(s.drop_first(), c)
    } else {
        s
    }
}

/// `s` without its trailing copies of `c`.
pub open spec fn trim_end_char(s: Seq<char>, c: char) -> Seq<char>
    decreases s.len(),
{
    if s.len() > 0 && s.last() == c {
        trim_end_char(s.drop_last(), c)
    } else {
        s
    }
}

/// `s` with every leading and trailing `c` removed (`str::trim_matches`).
pub open spec fn trim_char(s: Seq<char>, c: char) -> Seq<char> {
    trim_end_char(trim_start_char(s, c), c)
}

/// The index of the first `\n` at or after `i`, or the length of `s`.
pub open spec fn line_end(s: Seq<char>, i: int) -> int
    decreases s.len() - i,
{
    if i >= s.len() {
        s.len() as int
    } else if s[i] == '\n' {
        i
    } else {
        line_end(s, i + 1)
    }
}

/// `line_end` lies between its start and the end of the text.
pub proof fn lemma_line_end_bounds(s: Seq<char>, i: int)
    requires
        0 <= i <= s.len(),
    ensures
        i <= line_end(s, i) <= s.len(),
        line_end(s, i) < s.len() ==> s[line_end(s, i)] == '\n',
        forall|j: int| i <= j < line_end(s, i) ==> s[j] != '\n',
    decreases s.len() - i,
{
    if i < s.len() && s[i] != '\n' {
        lemma_line_end_bounds(s, i + 1);
    }
}

/// The version a scan of the lines from `start` on finds: a line
/// `[[package]]` starts a new entry, a line `name = "flowmaid"` marks the
/// entry as the engine's, and the first `version = ` line inside the
/// engine's entry gives the version, with the key and the quotes taken
/// off. Lines are split at `\n` and trimmed of whitespace.
pub open spec fn scan_lock(s: Seq<char>, start: int, in_engine: bool) -> Option<Seq<char>>
    decreases s.len() + 1 - start,
{
    if start < 0 || start > s.len() {
        None
    } else {
        let e = line_end(s, start);
        let line = trim_spaces(s.subrange(start, e));
        proof {
            lemma_line_end_bounds(s, start);
        }
        if line == "[[package]]"@ {
            scan_lock(s, e + 1, false)
        } else if line == "name = \"flowmaid\""@ {
            scan_lock(s, e + 1, true)
        } else if in_engine && line.len() >= "version = "@.len() && line.take(
            "version = "@.len() as int,
        ) == "version = "@ {
            Some(trim_char(trim_start_matches(line, "version = "@), '"'))
        } else {
            scan_lock(s, e + 1, in_engine)
        }
    }
}

/// The engine version recorded in a lock file's text, or `unknown`.
pub open spec fn lock_engine_version(lock: Seq<char>) -> Seq<char> {
    match scan_lock(lock, 0, false) {
        Some(v) => v,
        None => "unknown"@,
    }
}

/// The characters of `s`.
fn to_chars(s: &str) -> (v: Vec<char>)
    ensures
        v@ == s@,
{
    let mut v: Vec<char> = Vec::new();
    for c in it: s.chars()
        invariant
            it.seq() == s@,
            v@ == s@.take(it.index()),
    {
        proof {
            assert(c == s@[it.index()]);
        }
        v.push(c);
        proof {
            assert(v@ =~= s@.take(it.index() + 1));
        }
    }
    proof {
        assert(s@.take(s@.len() as int) =~= s@);
    }
    v
}

/// The index of the first `\n` at or after `i`, or the length.
fn find_line_end(c: &Vec<char>, i: usize) -> (e: usize)
    requires
        i <= c@.len(),
    ensures
        e == line_end(c@, i as int),
{
    let mut e = i;
    while e < c.len() && c[e] != '\n'
        invariant
            i <= e <= c@.len(),
            line_end(c@, i as int) == line_end(c@, e as int),
        decreases c@.len() - e,
    {
        e = e + 1;
    }
    e
}

/// The bounds of `c[lo..hi]` with whitespace trimmed off both ends.
fn trim_space_range(c: &Vec<char>, lo: usize, hi: usize) -> (r: (usize, usize))
    requires
        lo <= hi <= c@.len(),
    ensures
        lo <= r.0 <= r.1 <= hi,
        c@.subrange(r.0 as int, r.1 as int) == trim_spaces(c@.subrange(lo as int, hi as int)),
{
    let mut a = lo;
    while a < hi && is_space_char(c[a])
        invariant
            lo <= a <= hi <= c@.len(),
            trim_start_spaces(c@.subrange(lo as int, hi as int)) == trim_start_spaces(
                c@.subrange(a as int, hi as int),
            ),
        decreases hi - a,
    {
        proof {
            assert(c@.subrange(a as int, hi as int).drop_first() =~= c@.subrange(a + 1, hi as int));
        }
        a = a + 1;
    }
    proof {
        assert(trim_start_spaces(c@.subrange(a as int, hi as int)) == c@.subrange(a as int, hi as int));
    }
    let mut b = hi;
    while b > a && is_space_char(c[b - 1])
        invariant
            lo <= a <= b <= hi <= c@.len(),
            trim_end_spaces(c@.subrange(a as int, hi as int)) == trim_end_spaces(
                c@.subrange(a as int, b as int),
            ),
        decreases b - a,
    {
        proof {
            assert(c@.subrange(a as int, b as int).drop_last() =~= c@.subrange(a as int, b - 1));
        }
        b = b - 1;
    }
    (a, b)
}

/// Whether `c[lo..hi]` is `t`.
fn range_equals(c: &Vec<char>, lo: usize, hi: usize, t: &Vec<char>) -> (b: bool)
    requires
        lo <= hi <= c@.len(),
    ensures
        b == (c@.subrange(lo as int, hi as int) == t@),
{
    if hi - lo != t.len() {
        return false;
    }
    let mut k: usize = 0;
    while k < t.len()
        invariant
            hi - lo == t@.len(),
            lo <= hi <= c@.len(),
            k <= t@.len(),
            forall|j: int| 0 <= j < k ==> c@[lo + j] == t@[j],
        decreases t@.len() - k,
    {
        if c[lo + k] != t[k] {
            proof {
                assert(c@.subrange(lo as int, hi as int)[k as int] != t@[k as int]);
            }
            return false;
        }
        k = k + 1;
    }
    proof {
        assert(c@.subrange(lo as int, hi as int) =~= t@);
    }
    true
}

/// Whether `c[lo..hi]` starts with `t`.
fn range_starts_with(c: &Vec<char>, lo: usize, hi: usize, t: &Vec<char>) -> (b: bool)
    requires
        lo <= hi <= c@.len(),
    ensures
        b == (hi - lo >= t@.len() && c@.subrange(lo as int, hi as int).take(t@.len() as int) == t@),
{
    if hi - lo < t.len() {
        return false;
    }
    let r = range_equals(c, lo, lo + t.len(), t);
    proof {
        assert(c@.subrange(lo as int, hi as int).take(t@.len() as int) =~= c@.subrange(
            lo as int,
            lo + t@.len(),
        ));
    }
    r
}

/// The start of `c[lo..hi]` after every leading repetition of `t`.
fn skip_repeated_prefix(c: &Vec<char>, lo: usize, hi: usize, t: &Vec<char>) -> (a: usize)
    requires
        lo <= hi <= c@.len(),
    ensures
        lo <= a <= hi,
        c@.subrange(a as int, hi as int) == trim_start_matches(c@.subrange(lo as int, hi as int), t@),
{
    let mut a = lo;
    if t.len() == 0 {
        return a;
    }
    while range_starts_with(c, a, hi, t)
        invariant
            lo <= a <= hi <= c@.len(),
            t@.len() > 0,
            trim_start_matches(c@.subrange(lo as int, hi as int), t@) == trim_start_matches(
                c@.subrange(a as int, hi as int),
                t@,
            ),
        decreases hi - a,
    {
        proof {
            assert(c@.subrange(a as int, hi as int).skip(t@.len() as int) =~= c@.subrange(
                a + t@.len(),
                hi as int,
            ));
        }
        a = a + t.len();
    }
    a
}

/// The bounds of `c[lo..hi]` with every leading and trailing `ch` removed.
fn trim_char_range(c: &Vec<char>, lo: usize, hi: usize, ch: char) -> (r: (usize, usize))
    requires
        lo <= hi <= c@.len(),
    ensures
        lo <= r.0 <= r.1 <= hi,
        c@.subrange(r.0 as int, r.1 as int) == trim_char(c@.subrange(lo as int, hi as int), ch),
{
    let mut a = lo;
    while a < hi && c[a] == ch
        invariant
            lo <= a <= hi <= c@.len(),
            trim_start_char(c@.subrange(lo as int, hi as int), ch) == trim_start_char(
                c@.subrange(a as int, hi as int),
                ch,
            ),
        decreases hi - a,
    {
        proof {
            assert(c@.subrange(a as int, hi as int).drop_first() =~= c@.subrange(a + 1, hi as int));
        }
        a = a + 1;
    }
    proof {
        assert(trim_start_char(c@.subrange(a as int, hi as int), ch) == c@.subrange(a as int, hi as int));
    }
    let mut b = hi;
    while b > a && c[b - 1] == ch
        invariant
            lo <= a <= b <= hi <= c@.len(),
            trim_end_char(c@.subrange(a as int, hi as int), ch) == trim_end_char(
                c@.subrange(a as int, b as int),
                ch,
            ),
        decreases b - a,
    {
        proof {
            assert(c@.subrange(a as int, b as int).drop_last() =~= c@.subrange(a as int, b - 1));
        }
        b = b - 1;
    }
    (a, b)
}

/// The string `c[lo..hi]`.
fn string_of_range(c: &Vec<char>, lo: usize, hi: usize) -> (s: String)
    requires
        lo <= hi <= c@.len(),
    ensures
        s@ == c@.subrange(lo as int, hi as int),
{
    let mut s = String::new();
    let mut k = lo;
    while k < hi
        invariant
            lo <= k <= hi <= c@.len(),
            s@ == c@.subrange(lo as int, k as int),
        decreases hi - k,
    {
        s.push(c[k]);
        k = k + 1;
        proof {
            assert(s@ =~= c@.subrange(lo as int, k as int));
        }
    }
    s
}

/// The flowmaid version recorded in the text of a `Cargo.lock`: the
/// first `version = "…"` line of the `[[package]]` entry whose name is
/// `flowmaid`, without the key and the quotes; `unknown` when there is
/// none.
pub fn engine_version_from_lock(lock: &str) -> (version: String)
    ensures
        version@ == lock_engine_version(lock@),
{
    let c = to_chars(lock);
    let package = to_chars("[[package]]");
    let name = to_chars("name = \"flowmaid\"");
    let key = to_chars("version = ");
    let len = c.len();
    let mut start: usize = 0;
    let mut in_engine = false;
    loop
        invariant
            c@ == lock@,
            len == c@.len(),
            start <= len,
            package@ == "[[package]]"@,
            name@ == "name = \"flowmaid\""@,
            key@ == "version = "@,
            scan_lock(c@, 0, false) == scan_lock(c@, start as int, in_engine),
        decreases len - start,
    {
        let e = find_line_end(&c, start);
        proof {
            lemma_line_end_bounds(c@, start as int);
        }
        let (a, b) = trim_space_range(&c, start, e);
        let ghost was_engine = in_engine;
        proof {
            let line = c@.subrange(a as int, b as int);
            assert(line == trim_spaces(c@.subrange(start as int, e as int)));
            assert(scan_lock(c@, start as int, was_engine) == if line == "[[package]]"@ {
                scan_lock(c@, e + 1, false)
            } else if line == "name = \"flowmaid\""@ {
                scan_lock(c@, e + 1, true)
            } else if was_engine && line.len() >= "version = "@.len() && line.take(
                "version = "@.len() as int,
            ) == "version = "@ {
                Some(trim_char(trim_start_matches(line, "version = "@), '"'))
            } else {
                scan_lock(c@, e + 1, was_engine)
            });
        }
        if range_equals(&c, a, b, &package) {
            in_engine = false;
        } else if range_equals(&c, a, b, &name) {
            in_engine = true;
        } else if in_engine && range_starts_with(&c, a, b, &key) {
            let from = skip_repeated_prefix(&c, a, b, &key);
            let (x, y) = trim_char_range(&c, from, b, '"');
            let v = string_of_range(&c, x, y);
            proof {
                assert(c@.subrange(from as int, b as int) == trim_start_matches(
                    c@.subrange(a as int, b as int), key@));
            }
            return v;
        }
        if e >= len {
            proof {
                assert(scan_lock(c@, e + 1, in_engine) == None::<Seq<char>>);
            }
            let mut unknown = String::new();
            unknown.append("unknown");
            return unknown;
        }
        start = e + 1;
    }
}

/// The text of the line of `s` that starts at `start`, trimmed.
pub open spec fn line_text(s: Seq<char>, start: int) -> Seq<char> {
    trim_spaces(s.subrange(start, line_end(s, start)))
}

/// No line of `pre` reads `name = "flowmaid"` once trimmed.
pub open spec fn no_engine_name_line(pre: Seq<char>) -> bool {
    forall|start: int|
        0 <= start < pre.len() && (start == 0 || pre[start - 1] == '\n') ==> #[trigger] line_text(
            pre,
            start,
        ) != "name = \"flowmaid\""@
}

/// A lock entry for flowmaid at version `v`: its `[[package]]` line,
/// its `name = "flowmaid"` line and its `version = "v"` line.
pub open spec fn engine_entry(v: Seq<char>) -> Seq<char> {
    "[[package]]"@ + seq!['\n'] + "name = \"flowmaid\""@ + seq!['\n'] + "version = "@ + seq!['"']
        + v + seq!['"', '\n']
}

proof fn lemma_line_end_at(s: Seq<char>, i: int, j: int)
    requires
        0 <= i <= j < s.len(),
        s[j] == '\n',
        forall|k: int| i <= k < j ==> s[k] != '\n',
    ensures
        line_end(s, i) == j,
    decreases j - i,
{
    if i < j {
        lemma_line_end_at(s, i + 1, j);
    }
}

/// A line that stands at `i` and is followed by a line feed.
proof fn lemma_line_at(s: Seq<char>, i: int, line: Seq<char>)
    requires
        0 <= i,
        i + line.len() < s.len(),
        s.subrange(i, i + line.len()) == line,
        s[i + line.len()] == '\n',
        forall|k: int| 0 <= k < line.len() ==> line[k] != '\n',
    ensures
        line_end(s, i) == i + line.len(),
        s.subrange(i, line_end(s, i)) == line,
{
    assert forall|k: int| i <= k < i + line.len() implies s[k] != '\n' by {
        assert(s[k] == s.subrange(i, i + line.len())[k - i]);
    }
    lemma_line_end_at(s, i, i + line.len());
}

/// Text that starts and ends with a non-space character is its own trim.
proof fn lemma_trim_fixed(x: Seq<char>)
    requires
        x.len() > 0,
        !is_space(x[0]),
        !is_space(x.last()),
    ensures
        trim_spaces(x) == x,
{
}

/// Inside `pre`, which ends with a line feed, lines end where they end
/// in `pre` itself.
proof fn lemma_line_end_in_prefix(pre: Seq<char>, rest: Seq<char>, start: int)
    requires
        0 <= start < pre.len(),
        pre.last() == '\n',
    ensures
        line_end(pre + rest, start) == line_end(pre, start),
        line_end(pre, start) < pre.len(),
    decreases pre.len() - start,
{
    let s = pre + rest;
    assert(s[start] == pre[start]);
    if pre[start] != '\n' {
        if start + 1 < pre.len() {
            lemma_line_end_in_prefix(pre, rest, start + 1);
        } else {
            assert(pre[start] == pre.last());
        }
    }
}

/// A scan outside any flowmaid entry passes over lines of `pre` that
/// never name flowmaid and comes out at the end of `pre`, still outside.
proof fn lemma_scan_prefix(pre: Seq<char>, rest: Seq<char>, start: int)
    requires
        0 <= start <= pre.len(),
        start == 0 || pre[start - 1] == '\n',
        pre.len() == 0 || pre.last() == '\n',
        no_engine_name_line(pre),
    ensures
        scan_lock(pre + rest, start, false) == scan_lock(pre + rest, pre.len() as int, false),
    decreases pre.len() - start,
{
    let s = pre + rest;
    if start < pre.len() {
        lemma_line_end_in_prefix(pre, rest, start);
        let e = line_end(s, start);
        lemma_line_end_bounds(pre, start);
        assert(s.subrange(start, e) =~= pre.subrange(start, e));
        assert(line_text(pre, start) != "name = \"flowmaid\""@);
        assert(trim_spaces(s.subrange(start, e)) == line_text(pre, start));
        assert(pre[e] == '\n');
        lemma_scan_prefix(pre, rest, e + 1);
    }
}

/// Taking the quotes off `"v"` gives `v` when `v` holds no quote.
proof fn lemma_unquote(v: Seq<char>)
    requires
        forall|k: int| 0 <= k < v.len() ==> v[k] != '"',
    ensures
        trim_char(seq!['"'] + v + seq!['"'], '"') == v,
{
    let after = seq!['"'] + v + seq!['"'];
    let tail = v + seq!['"'];
    assert(after.drop_first() =~= tail);
    assert(trim_start_char(after, '"') == trim_start_char(tail, '"'));
    if v.len() == 0 {
        assert(tail =~= seq!['"']);
        assert(tail.drop_first() =~= Seq::<char>::empty());
        assert(trim_start_char(tail, '"') == trim_start_char(Seq::<char>::empty(), '"'));
        assert(trim_end_char(Seq::<char>::empty(), '"') =~= v);
    } else {
        assert(tail[0] == v[0]);
        assert(trim_start_char(tail, '"') == tail);
        assert(tail.last() == '"');
        assert(tail.drop_last() =~= v);
        assert(trim_end_char(tail, '"') == trim_end_char(v, '"'));
        assert(v.last() == v[v.len() - 1]);
        assert(trim_end_char(v, '"') == v);
    }
}

/// The value a `version = "v"` line gives.
proof fn lemma_version_value(v: Seq<char>)
    requires
        forall|k: int| 0 <= k < v.len() ==> v[k] != '"',
    ensures
        trim_char(trim_start_matches("version = "@ + seq!['"'] + v + seq!['"'], "version = "@), '"')
            == v,
{
    reveal_strlit("version = ");
    let lit3 = "version = "@;
    let after = seq!['"'] + v + seq!['"'];
    let vline = lit3 + seq!['"'] + v + seq!['"'];
    assert(vline =~= lit3 + after);
    assert(vline.take(lit3.len() as int) =~= lit3);
    assert(vline.skip(lit3.len() as int) =~= after);
    assert(after[0] == '"');
    assert(lit3[0] == 'v');
    if after.len() >= lit3.len() {
        assert(after.take(lit3.len() as int)[0] == after[0]);
        assert(after.take(lit3.len() as int) != lit3);
    }
    assert(trim_start_matches(after, lit3) == after);
    assert(trim_start_matches(vline, lit3) == after);
    lemma_unquote(v);
}

/// The scan that reaches a flowmaid entry at `p0` reads its version.
proof fn lemma_scan_entry(s: Seq<char>, p0: int, v: Seq<char>)
    requires
        0 <= p0,
        p0 + engine_entry(v).len() <= s.len(),
        s.subrange(p0, p0 + engine_entry(v).len()) == engine_entry(v),
        forall|k: int| 0 <= k < v.len() ==> v[k] != '"' && v[k] != '\n',
    ensures
        scan_lock(s, p0, false) == Some(v),
{
    reveal_strlit("[[package]]");
    reveal_strlit("name = \"flowmaid\"");
    reveal_strlit("version = ");
    let lit1 = "[[package]]"@;
    let lit2 = "name = \"flowmaid\""@;
    let lit3 = "version = "@;
    let vline = lit3 + seq!['"'] + v + seq!['"'];
    let entry = engine_entry(v);
    assert(entry =~= lit1 + seq!['\n'] + lit2 + seq!['\n'] + vline + seq!['\n']);
    let p1 = p0 + lit1.len() + 1;
    let p2 = p1 + lit2.len() + 1;
    let p3 = p2 + vline.len();
    assert forall|k: int| 0 <= k < entry.len() implies s[p0 + k] == #[trigger] entry[k] by {
        assert(s.subrange(p0, p0 + entry.len())[k] == s[p0 + k]);
    }
    assert(s.subrange(p0, p0 + lit1.len()) =~= lit1);
    assert(s[p0 + lit1.len()] == entry[lit1.len() as int]);
    let head2 = lit1 + seq!['\n'];
    assert forall|k: int| 0 <= k < lit2.len() implies s.subrange(p1, p1 + lit2.len())[k]
        == lit2[k] by {
        let j = head2.len() + k;
        assert(s[p0 + j] == entry[j]);
        assert(entry[j] == lit2[k]);
    }
    assert(s.subrange(p1, p1 + lit2.len()) =~= lit2);
    assert(s[p1 + lit2.len()] == entry[(lit1.len() + 1 + lit2.len()) as int]);
    let head3 = lit1 + seq!['\n'] + lit2 + seq!['\n'];
    assert forall|k: int| 0 <= k < vline.len() implies s.subrange(p2, p3)[k] == vline[k] by {
        let j = head3.len() + k;
        assert(s[p0 + j] == entry[j]);
        assert(entry[j] == vline[k]);
    }
    assert(s.subrange(p2, p3) =~= vline);
    assert(s[p3] == entry[entry.len() - 1]);
    lemma_line_at(s, p0, lit1);
    lemma_line_at(s, p1, lit2);
    assert forall|k: int| 0 <= k < vline.len() implies vline[k] != '\n' by {
        if k >= lit3.len() + 1 && k < lit3.len() + 1 + v.len() {
            assert(vline[k] == v[k - lit3.len() - 1]);
        }
    }
    lemma_line_at(s, p2, vline);
    lemma_trim_fixed(lit1);
    lemma_trim_fixed(lit2);
    lemma_trim_fixed(vline);
    assert(vline.take(lit3.len() as int) =~= lit3);
    lemma_version_value(v);
    assert(scan_lock(s, p2, true) == Some(v));
    assert(scan_lock(s, p1, false) == Some(v));
    assert(line_end(s, p0) + 1 == p1);
    assert(scan_lock(s, p0, false) == scan_lock(s, p1, false));
}

/// The engine version is the one of the first flowmaid entry: for a
/// lock text made of lines `pre` that name no flowmaid entry, then a
/// flowmaid entry at version `v`, then anything at all, the version
/// read is `v` (whatever entries follow, flowmaid-like names included).
pub proof fn lemma_engine_version_first_entry(pre: Seq<char>, v: Seq<char>, post: Seq<char>)
    requires
        pre.len() == 0 || pre.last() == '\n',
        no_engine_name_line(pre),
        forall|k: int| 0 <= k < v.len() ==> v[k] != '"' && v[k] != '\n',
    ensures
        lock_engine_version(pre + engine_entry(v) + post) == v,
{
    let rest = engine_entry(v) + post;
    let s = pre + engine_entry(v) + post;
    assert(s =~= pre + rest);
    lemma_scan_prefix(pre, rest, 0);
    assert(s.subrange(pre.len() as int, (pre.len() + engine_entry(v).len()) as int) =~= engine_entry(v));
    lemma_scan_entry(s, pre.len() as int, v);
}

} // verus!
