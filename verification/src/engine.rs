//! The calls into the flowmaid diagram engine. Verus does not read the
//! engine; each call below is a trusted item whose contract names what
//! the engine returns. The engine documents its output as deterministic
//! (same input, byte-identical SVG), so each result is a function of the
//! source text alone.

use vstd::prelude::*;
use flowmaid::model::Document::{
    Architecture, Class, Er, Flowchart, GitGraph, Journey, Mindmap, Pie, Sankey, Sequence,
    State, Timeline,
};
use crate::diagram::{distinct_single_line, DiagramKind};
use crate::text::{decimal, string_views, text_result};

verus! {

/// What `flowmaid::parser::parse_document` makes of a source text: on
/// success the kind of document it builds and the identity keys of its
/// draggable nodes, in declaration order (flowchart and state node ids,
/// ER entity names, class names; no keys for the other kinds); on
/// failure the text of its `ParseError` (`line N: message`).
pub uninterp spec fn parsed_outline(source: Seq<char>) -> Result<(DiagramKind, Seq<Seq<char>>), Seq<char>>;

/// Whether `m` reads `line N: ...`, as the engine's `ParseError`
/// displays itself (`write!(f, "line {}: {}", self.line, self.message)`).
pub open spec fn line_numbered(m: Seq<char>) -> bool {
    exists|n: nat, rest: Seq<char>| m == "line "@ + decimal(n) + ": "@ + rest
}

/// What `flowmaid::render_svg` returns for a source text: the SVG, or
/// the text of its `ParseError`.
pub uninterp spec fn engine_svg(source: Seq<char>) -> Result<Seq<char>, Seq<char>>;

/// What `flowmaid::render_advance_svg` returns for a JSON source: the
/// SVG, or the message of its `AdvanceError`.
pub uninterp spec fn engine_advance_svg(source: Seq<char>) -> Result<Seq<char>, Seq<char>>;

/// Calls `flowmaid::parser::parse_document` and reports the kind of the
/// document, or the error's text. Claimed: the result is the kind part
/// of `parsed_outline(source)`, or its error text, which reads
/// `line N: ...` as `ParseError`'s `Display` writes it.
#[verifier::external_body]
pub(crate) fn parse_kind(source: &str) -> (res: Result<DiagramKind, String>)
    ensures
        match parsed_outline(source@) {
            Ok((k, _)) => res matches Ok(r) && r == k,
            Err(m) => res matches Err(e) && e@ == m,
        },
        res matches Err(e) ==> line_numbered(e@),
{
    flowmaid::parser::parse_document(source).map_err(|e| e.to_string()).map(|doc| match doc {
        Flowchart(_) => DiagramKind::Flowchart,
        State(_) => DiagramKind::State,
        Er(_) => DiagramKind::Er,
        Class(_) => DiagramKind::Class,
        Sequence(_) => DiagramKind::Sequence,
        Pie(_) => DiagramKind::Pie,
        Mindmap(_) => DiagramKind::Mindmap,
        Journey(_) => DiagramKind::Journey,
        GitGraph(_) => DiagramKind::GitGraph,
        Architecture(_) => DiagramKind::Architecture,
        Timeline(_) => DiagramKind::Timeline,
        Sankey(_) => DiagramKind::Sankey,
    })
}

/// Calls `flowmaid::parser::parse_document` and hands out the identity
/// key of each node of the document, or the error's text. Claimed: the
/// result is the key part of `parsed_outline(source)`, or its error text
/// (`line N: ...`); and the keys are pairwise distinct and hold no line
/// feed. The engine adds nodes, entities and classes only through
/// `ensure_node`, `ensure_entity` and `ensure_class`, which look the key
/// up in an index first; flowchart ids are runs of alphanumerics and
/// `_`, and state, ER and class keys are cut from one line of
/// `str::lines`.
#[verifier::external_body]
pub(crate) fn parse_keys(source: &str) -> (res: Result<Vec<String>, String>)
    ensures
        match parsed_outline(source@) {
            Ok((_, keys)) => res matches Ok(v) && string_views(v@) == keys,
            Err(m) => res matches Err(e) && e@ == m,
        },
        res matches Err(e) ==> line_numbered(e@),
        res matches Ok(v) ==> distinct_single_line(string_views(v@)),
{
    match flowmaid::parser::parse_document(source) {
        Err(e) => Err(e.to_string()),
        Ok(Flowchart(g)) => Ok(g.nodes.into_iter().map(|n| n.id).collect()),
        Ok(State(g)) => Ok(g.nodes.into_iter().map(|n| n.id).collect()),
        Ok(Er(d)) => Ok(d.entities.into_iter().map(|e| e.name).collect()),
        Ok(Class(d)) => Ok(d.classes.into_iter().map(|c| c.name).collect()),
        Ok(_) => Ok(Vec::new()),
    }
}

/// Calls `flowmaid::render_svg`. Claimed: the result is
/// `engine_svg(source)`, and, as the engine parses with
/// `parse_document` first and renders every parsed document, it fails
/// exactly when parsing fails, with the same error text (`line N: ...`).
#[verifier::external_body]
pub(crate) fn engine_render_svg(source: &str) -> (res: Result<String, String>)
    ensures
        text_result(res) == engine_svg(source@),
        match parsed_outline(source@) {
            Ok(_) => res is Ok,
            Err(m) => res matches Err(e) && e@ == m,
        },
        res matches Err(e) ==> line_numbered(e@),
{
    flowmaid::render_svg(source).map_err(|e| e.to_string())
}

/// Calls `flowmaid::render_advance_svg`. Claimed: the result is
/// `engine_advance_svg(source)`, the error as its message.
#[verifier::external_body]
pub(crate) fn engine_render_advance_svg(source: &str) -> (res: Result<String, String>)
    ensures
        text_result(res) == engine_advance_svg(source@),
{
    flowmaid::render_advance_svg(source).map_err(|e| e.to_string())
}

} // verus!
