//! Mermaid-syntax diagrams: rendering, and the decisions of the
//! drag-and-drop API (which nodes can be dragged, in which order, and
//! which position arrays a routed render accepts).

use vstd::prelude::*;
use crate::engine::{engine_svg, engine_advance_svg, parsed_outline, parse_kind, parse_keys,
    engine_render_svg, engine_render_advance_svg, line_numbered};
use crate::text::{text_result, string_views, decimal, push_decimal, join_with};

verus! {

/// The kind of a parsed Mermaid document.
#[derive(Clone, Copy, Debug, PartialEq, Eq, Structural)]
pub enum DiagramKind {
    Flowchart,
    State,
    Er,
    Class,
    Sequence,
    Pie,
    Mindmap,
    Journey,
    GitGraph,
    Architecture,
    Timeline,
    Sankey,
}

impl DiagramKind {
    /// Flowcharts, state, ER and class diagrams have nodes a host can
    /// drag; the other kinds are laid out statically.
    pub open spec fn draggable(&self) -> bool {
        match self {
            DiagramKind::Flowchart | DiagramKind::State | DiagramKind::Er | DiagramKind::Class => true,
            _ => false,
        }
    }

    /// The static kinds whose wrong position count is explained as
    /// "static (not draggable)" rather than as a node count.
    pub open spec fn static_hint(&self) -> bool {
        match self {
            DiagramKind::Sequence | DiagramKind::Pie | DiagramKind::Mindmap
            | DiagramKind::Journey => true,
            _ => false,
        }
    }

    /// Whether nodes of this kind can be dragged.
    #[verifier::when_used_as_spec(draggable)]
    pub fn is_draggable(&self) -> (b: bool)
        ensures
            b == self.draggable(),
    {
        match self {
            DiagramKind::Flowchart | DiagramKind::State | DiagramKind::Er | DiagramKind::Class => true,
            _ => false,
        }
    }

    /// Whether a wrong position count gets the "static" explanation.
    #[verifier::when_used_as_spec(static_hint)]
    pub fn has_static_hint(&self) -> (b: bool)
        ensures
            b == self.static_hint(),
    {
        match self {
            DiagramKind::Sequence | DiagramKind::Pie | DiagramKind::Mindmap
            | DiagramKind::Journey => true,
            _ => false,
        }
    }
}

/// Render Mermaid-syntax text (flowchart, ER, class, sequence, pie,
/// state, mindmap, journey, git graph, architecture, timeline, sankey) to
/// an SVG string; an error carries the 1-indexed line number, as in
/// `line 3: closing ']' not found`. It fails exactly when the source does
/// not parse, with the parser's error text.
pub fn render_svg(source: &str) -> (res: Result<String, String>)
    ensures
        text_result(res) == engine_svg(source@),
        res is Err <==> parsed_outline(source@) is Err,
        res matches Err(e) ==> parsed_outline(source@) == Err::<(DiagramKind, Seq<Seq<char>>), Seq<char>>(e@),
        res matches Err(e) ==> line_numbered(e@),
{
    engine_render_svg(source)
}

/// Render an advance / swimlane diagram from JSON to an SVG string.
pub fn render_advance_svg(source: &str) -> (res: Result<String, String>)
    ensures
        text_result(res) == engine_advance_svg(source@),
{
    engine_render_advance_svg(source)
}

/// `keys` joined with newlines, in order.
pub open spec fn join_lines(keys: Seq<Seq<char>>) -> Seq<char> {
    join_with(keys, '\n')
}

/// The keys of the nodes a host can drag: all of them for a draggable
/// kind, none for a static one.
pub open spec fn draggable_keys(kind: DiagramKind, keys: Seq<Seq<char>>) -> Seq<Seq<char>> {
    if kind.draggable() {
        keys
    } else {
        Seq::empty()
    }
}

/// What `node_keys` returns for a source text.
pub open spec fn spec_node_keys(source: Seq<char>) -> Result<Seq<char>, Seq<char>> {
    match parsed_outline(source) {
        Ok((kind, keys)) => Ok(join_lines(draggable_keys(kind, keys))),
        Err(m) => Err(m),
    }
}

/// Join `keys` with newlines.
pub fn join_with_newlines(keys: &Vec<String>) -> (out: String)
    ensures
        out@ == join_lines(string_views(keys@)),
{
    let mut out = String::new();
    let ghost views = string_views(keys@);
    let mut i: usize = 0;
    while i < keys.len()
        invariant
            i <= keys.len(),
            views == string_views(keys@),
            out@ == join_lines(views.take(i as int)),
        decreases keys.len() - i,
    {
        proof {
            assert(views.take(i as int + 1).drop_last() =~= views.take(i as int));
            assert(views.take(i as int + 1).last() == keys@[i as int]@);
        }
        if i > 0 {
            out.push('\n');
        } else {
            proof {
                assert(out@ =~= Seq::<char>::empty());
            }
        }
        out.append(keys[i].as_str());
        i = i + 1;
        proof {
            assert(out@ =~= join_lines(views.take(i as int)));
        }
    }
    proof {
        assert(views.take(keys.len() as int) =~= views);
    }
    out
}

/// Whether no two of `keys` are equal and none holds a line feed.
pub open spec fn distinct_single_line(keys: Seq<Seq<char>>) -> bool {
    &&& forall|i: int, j: int| 0 <= i < j < keys.len() ==> keys[i] != keys[j]
    &&& forall|i: int, j: int| 0 <= i < keys.len() && 0 <= j < keys[i].len() ==> keys[i][j] != '\n'
}

/// The node keys of a parsed document of kind `kind` whose nodes have
/// the identity keys `keys`: the keys newline-joined for a draggable
/// kind, the empty string for a static one. Distinct single-line keys
/// split back at newlines into exactly those keys.
pub fn node_keys_of(kind: DiagramKind, keys: &Vec<String>) -> (out: String)
    ensures
        out@ == join_lines(draggable_keys(kind, string_views(keys@))),
        distinct_single_line(string_views(keys@)) && out@.len() > 0 ==> split_lines(out@)
            == draggable_keys(kind, string_views(keys@)),
{
    if kind.is_draggable() {
        let out = join_with_newlines(keys);
        proof {
            if distinct_single_line(string_views(keys@)) && out@.len() > 0 {
                if string_views(keys@).len() == 0 {
                    assert(join_lines(Seq::<Seq<char>>::empty()).len() == 0);
                }
                lemma_node_keys_split_back(string_views(keys@));
            }
        }
        out
    } else {
        let empty = String::new();
        proof {
            assert(join_lines(Seq::<Seq<char>>::empty()) =~= empty@);
        }
        empty
    }
}

/// The kind of document a Mermaid source parses to, or the parser's
/// error (`line N: ...`).
pub fn diagram_kind(source: &str) -> (res: Result<DiagramKind, String>)
    ensures
        match parsed_outline(source@) {
            Ok((k, _)) => res matches Ok(r) && r == k,
            Err(m) => res matches Err(e) && e@ == m,
        },
        res matches Err(e) ==> line_numbered(e@),
{
    parse_kind(source)
}

/// Identity key per draggable node (flowchart and state node id, ER
/// entity name, class name), newline-joined, in the order every position
/// array of the drag API follows; empty for static diagrams. Used to
/// keep dragged positions across text edits. A non-empty result splits
/// at newlines into exactly one key per draggable node, no two alike.
pub fn node_keys(source: &str) -> (res: Result<String, String>)
    ensures
        text_result(res) == spec_node_keys(source@),
        res matches Err(e) ==> line_numbered(e@),
        res matches Ok(k) ==> (k@.len() > 0 ==> (parsed_outline(source@) matches Ok((kind, keys))
            && split_lines(k@) == draggable_keys(kind, keys) && distinct_single_line(
            split_lines(k@),
        ))),
{
    let kind = match parse_kind(source) {
        Ok(k) => k,
        Err(e) => return Err(e),
    };
    if !kind.is_draggable() {
        let none: Vec<String> = Vec::new();
        proof {
            assert(string_views(none@) =~= Seq::<Seq<char>>::empty());
        }
        return Ok(node_keys_of(kind, &none));
    }
    match parse_keys(source) {
        Ok(keys) => Ok(node_keys_of(kind, &keys)),
        Err(e) => Err(e),
    }
}

/// Whether the IEEE 754 double with bit pattern `bits` is finite: its
/// exponent field is not all ones (all ones is an infinity or a NaN).
pub open spec fn finite_bits(bits: u64) -> bool {
    (bits >> 52u64) & 0x7ffu64 != 0x7ffu64
}

/// Whether the double with bit pattern `bits` is finite
/// (`f64::from_bits(bits).is_finite()`).
pub fn is_finite_bits(bits: u64) -> (b: bool)
    ensures
        b == finite_bits(bits),
{
    (bits >> 52u64) & 0x7ffu64 != 0x7ffu64
}

/// The first index at or after `i` whose double is not finite.
pub open spec fn first_non_finite_from(bits: Seq<u64>, i: int) -> Option<int>
    decreases bits.len() - i,
{
    if i < 0 || i >= bits.len() {
        None
    } else if !finite_bits(bits[i]) {
        Some(i)
    } else {
        first_non_finite_from(bits, i + 1)
    }
}

/// The error for a position array whose length does not fit the
/// document's `n` draggable nodes.
pub open spec fn count_message(kind: DiagramKind, n: nat, len: nat) -> Seq<char> {
    if kind.static_hint() {
        "this diagram type is static (not draggable): pass an empty positions array, got "@
            + decimal(len) + " values"@
    } else {
        "expected "@ + decimal(2 * n) + " coordinates for "@ + decimal(n) + " nodes, got "@
            + decimal(len)
    }
}

/// The error for a position that is not a finite number.
pub open spec fn non_finite_message(i: nat) -> Seq<char> {
    "position["@ + decimal(i) + "] is not a finite number"@
}

/// What a routed render decides about the bit patterns of flat `[x, y]`
/// centre pairs for a document of kind `kind` with `n` draggable nodes:
/// a count error unless there are exactly two numbers per node; else an
/// error at the first number that is not finite; else acceptance.
pub open spec fn positions_decision(kind: DiagramKind, n: nat, bits: Seq<u64>) -> Result<(), Seq<char>> {
    if bits.len() != 2 * n {
        Err(count_message(kind, n, bits.len()))
    } else {
        match first_non_finite_from(bits, 0) {
            Some(i) => Err(non_finite_message(i as nat)),
            None => Ok(()),
        }
    }
}

/// What a routed render decides about a source and the bit patterns of
/// its flat `[x, y]` centre pairs: the parser's error, or the decision on
/// the positions for the document's draggable nodes (none for a static
/// diagram).
pub open spec fn spec_check_routed(source: Seq<char>, bits: Seq<u64>) -> Result<(), Seq<char>> {
    match parsed_outline(source) {
        Err(m) => Err(m),
        Ok((kind, keys)) => positions_decision(kind, draggable_keys(kind, keys).len(), bits),
    }
}

/// A `Result` with no value, its error taken by its view.
pub open spec fn unit_result(r: Result<(), String>) -> Result<(), Seq<char>> {
    match r {
        Ok(()) => Ok(()),
        Err(e) => Err(e@),
    }
}

/// Check the bit patterns (`f64::to_bits`) of flat `[x, y]` centre
/// pairs for a document of kind `kind` with `n` draggable nodes, as
/// `positions_decision` says.
pub fn check_positions_for(kind: DiagramKind, n: usize, positions: &[u64]) -> (res: Result<(), String>)
    ensures
        unit_result(res) == positions_decision(kind, n as nat, positions@),
{
    let len = positions.len();
    if len % 2 != 0 || len / 2 != n {
        let mut m = String::new();
        if kind.has_static_hint() {
            m.append("this diagram type is static (not draggable): pass an empty positions array, got ");
            push_decimal(&mut m, len as u128);
            m.append(" values");
        } else {
            m.append("expected ");
            push_decimal(&mut m, (n as u128) * 2);
            m.append(" coordinates for ");
            push_decimal(&mut m, n as u128);
            m.append(" nodes, got ");
            push_decimal(&mut m, len as u128);
        }
        proof {
            assert(m@ =~= count_message(kind, n as nat, len as nat));
        }
        return Err(m);
    }
    let mut i: usize = 0;
    while i < len
        invariant
            len == positions@.len(),
            len == 2 * n,
            i <= len,
            first_non_finite_from(positions@, 0) == first_non_finite_from(positions@, i as int),
        decreases len - i,
    {
        if !is_finite_bits(positions[i]) {
            let mut m = String::new();
            m.append("position[");
            push_decimal(&mut m, i as u128);
            m.append("] is not a finite number");
            proof {
                assert(m@ =~= non_finite_message(i as nat));
            }
            return Err(m);
        }
        i = i + 1;
    }
    Ok(())
}

/// The check in front of a routed render: `positions` holds the bit
/// patterns (`f64::to_bits`) of flat `[x, y]` centre pairs in the order
/// of `node_keys`. Returns the parser's error, a count error, or the
/// index of the first non-finite number, as `spec_check_routed` says.
pub fn check_routed_positions(source: &str, positions: &[u64]) -> (res: Result<(), String>)
    ensures
        unit_result(res) == spec_check_routed(source@, positions@),
        parsed_outline(source@) is Err ==> (res matches Err(e) && line_numbered(e@)),
{
    let kind = match parse_kind(source) {
        Ok(k) => k,
        Err(e) => return Err(e),
    };
    let n: usize = if kind.is_draggable() {
        match parse_keys(source) {
            Ok(keys) => keys.len(),
            Err(e) => return Err(e),
        }
    } else {
        0
    };
    check_positions_for(kind, n, positions)
}

proof fn lemma_all_finite(bits: Seq<u64>, i: int)
    requires
        0 <= i,
        forall|j: int| 0 <= j < bits.len() ==> finite_bits(#[trigger] bits[j]),
    ensures
        first_non_finite_from(bits, i) is None,
    decreases bits.len() - i,
{
    if i < bits.len() {
        lemma_all_finite(bits, i + 1);
    }
}

/// Positions follow the node keys: for a source that parses, a routed
/// render accepts an array of finite numbers exactly when it holds two
/// numbers per key that `node_keys` lists, one `[x, y]` pair per node in
/// the same order.
pub proof fn lemma_positions_follow_node_keys(source: Seq<char>, bits: Seq<u64>)
    requires
        parsed_outline(source) is Ok,
        forall|j: int| 0 <= j < bits.len() ==> finite_bits(#[trigger] bits[j]),
    ensures
        ({
            let (kind, keys) = parsed_outline(source)->Ok_0;
            let listed = draggable_keys(kind, keys);
            &&& spec_node_keys(source) == Ok::<Seq<char>, Seq<char>>(join_lines(listed))
            &&& (spec_check_routed(source, bits) is Ok <==> bits.len() == 2 * listed.len())
        }),
{
    lemma_all_finite(bits, 0);
}

/// Static diagrams have no draggable nodes: `node_keys` lists nothing,
/// and a routed render accepts exactly the empty position array.
pub proof fn lemma_static_diagrams_take_no_positions(source: Seq<char>, bits: Seq<u64>)
    requires
        parsed_outline(source) matches Ok((kind, _)) && !kind.draggable(),
    ensures
        spec_node_keys(source) == Ok::<Seq<char>, Seq<char>>(Seq::empty()),
        spec_check_routed(source, bits) is Ok <==> bits.len() == 0,
{
    if bits.len() == 0 {
        lemma_all_finite(bits, 0);
    }
}

/// A routed render never accepts a number that is not finite: when the
/// count is right, the error names the first such position.
pub proof fn lemma_non_finite_positions_refused(source: Seq<char>, bits: Seq<u64>, i: int)
    requires
        0 <= i < bits.len(),
        !finite_bits(bits[i]),
        forall|j: int| 0 <= j < i ==> finite_bits(#[trigger] bits[j]),
        parsed_outline(source) matches Ok((kind, keys)) && bits.len() == 2 * draggable_keys(
            kind,
            keys,
        ).len(),
    ensures
        spec_check_routed(source, bits) == Err::<(), Seq<char>>(non_finite_message(i as nat)),
{
    lemma_first_non_finite(bits, 0, i);
}

proof fn lemma_first_non_finite(bits: Seq<u64>, k: int, i: int)
    requires
        0 <= k <= i < bits.len(),
        !finite_bits(bits[i]),
        forall|j: int| 0 <= j < i ==> finite_bits(#[trigger] bits[j]),
    ensures
        first_non_finite_from(bits, k) == Some(i),
    decreases i - k,
{
    if k < i {
        lemma_first_non_finite(bits, k + 1, i);
    }
}

/// The pieces of `s` between newlines (as JavaScript's `split("\n")`
/// cuts them): one more piece than there are newlines.
pub open spec fn split_lines(s: Seq<char>) -> Seq<Seq<char>>
    decreases s.len(),
{
    if s.len() == 0 {
        seq![Seq::empty()]
    } else if s.last() == '\n' {
        split_lines(s.drop_last()).push(Seq::empty())
    } else {
        let p = split_lines(s.drop_last());
        p.update(p.len() - 1, p.last().push(s.last()))
    }
}

proof fn lemma_split_lines_nonempty(s: Seq<char>)
    ensures
        split_lines(s).len() >= 1,
    decreases s.len(),
{
    if s.len() > 0 {
        lemma_split_lines_nonempty(s.drop_last());
    }
}

/// Appending text without a newline extends the last piece.
proof fn lemma_split_append_text(a: Seq<char>, b: Seq<char>)
    requires
        forall|j: int| 0 <= j < b.len() ==> b[j] != '\n',
    ensures
        split_lines(a + b) == split_lines(a).update(
            split_lines(a).len() - 1,
            split_lines(a).last() + b,
        ),
    decreases b.len(),
{
    lemma_split_lines_nonempty(a);
    if b.len() == 0 {
        assert(a + b =~= a);
        assert(split_lines(a).last() + b =~= split_lines(a).last());
        assert(split_lines(a).update(split_lines(a).len() - 1, split_lines(a).last())
            =~= split_lines(a));
    } else {
        lemma_split_append_text(a, b.drop_last());
        assert((a + b).drop_last() =~= a + b.drop_last());
        assert((a + b).last() == b.last());
        let p = split_lines(a);
        assert(b.last() == b[b.len() - 1]);
        assert(b.last() != '\n');
        let q = split_lines(a + b.drop_last());
        assert(q == p.update(p.len() - 1, p.last() + b.drop_last()));
        assert(q.len() == p.len());
        assert(q.last() == p.last() + b.drop_last());
        assert(split_lines(a + b) == q.update(q.len() - 1, q.last().push(b.last())));
        assert(p.last() + b.drop_last() + seq![b.last()] =~= p.last() + b);
        assert(q.last().push(b.last()) =~= p.last() + b);
        assert(split_lines(a + b) =~= p.update(p.len() - 1, p.last() + b));
    }
}

/// Newline-joined keys split back into the keys: a host that splits
/// the text of `node_keys` at newlines gets one key per draggable node,
/// in order, provided there is at least one and none holds a newline.
pub proof fn lemma_node_keys_split_back(keys: Seq<Seq<char>>)
    requires
        keys.len() >= 1,
        forall|i: int, j: int| 0 <= i < keys.len() && 0 <= j < keys[i].len() ==> keys[i][j] != '\n',
    ensures
        split_lines(join_lines(keys)) == keys,
    decreases keys.len(),
{
    let empty = Seq::<char>::empty();
    if keys.len() == 1 {
        lemma_split_append_text(empty, keys[0]);
        assert(empty + keys[0] =~= keys[0]);
        assert(split_lines(empty) =~= seq![empty]);
        assert(split_lines(keys[0]) =~= keys);
    } else {
        let init = keys.drop_last();
        lemma_node_keys_split_back(init);
        let joined = join_with(init, '\n');
        let with_nl = joined + seq!['\n'];
        assert(with_nl.drop_last() =~= joined);
        assert(split_lines(with_nl) == init.push(empty));
        lemma_split_append_text(with_nl, keys.last());
        assert(init.push(empty).last() + keys.last() =~= keys.last());
        assert(join_lines(keys) == with_nl + keys.last());
        assert(init.push(empty).update(init.len() as int, keys.last()) =~= keys);
    }
}

/// IEEE 754 finiteness read from the bits: a double is finite exactly
/// when its magnitude bits (the pattern without the sign bit) lie below
/// those of infinity, `0x7ff0_0000_0000_0000`; every pattern at or above
/// that is an infinity or a NaN.
pub proof fn lemma_finite_bits_ieee(b: u64)
    ensures
        finite_bits(b) <==> (b & 0x7fff_ffff_ffff_ffffu64) < 0x7ff0_0000_0000_0000u64,
{
    assert(((b >> 52u64) & 0x7ffu64 != 0x7ffu64) <==> ((b & 0x7fff_ffff_ffff_ffffu64)
        < 0x7ff0_0000_0000_0000u64)) by (bit_vector);
}

/// A routed render accepts every array of finite numbers (by IEEE 754:
/// magnitude bits below infinity's) that holds two numbers per
/// draggable node.
pub proof fn lemma_finite_positions_accepted(kind: DiagramKind, n: nat, bits: Seq<u64>)
    requires
        bits.len() == 2 * n,
        forall|k: int| 0 <= k < bits.len() ==> (#[trigger] bits[k] & 0x7fff_ffff_ffff_ffffu64)
            < 0x7ff0_0000_0000_0000u64,
    ensures
        positions_decision(kind, n, bits) == Ok::<(), Seq<char>>(()),
{
    assert forall|k: int| 0 <= k < bits.len() implies finite_bits(#[trigger] bits[k]) by {
        lemma_finite_bits_ieee(bits[k]);
    }
    lemma_all_finite(bits, 0);
}

} // verus!
