//! The geometry of a laid-out advance (swimlane) diagram and its JSON
//! form. Coordinates and sizes arrive as the decimal text the host
//! renders them in (one digit after the point); this module frames them,
//! with every string field JSON-escaped, into one JSON object.

use vstd::prelude::*;
use crate::json::{escape_body, json_escape, json_quoted};
use crate::text::join_with;
use crate::json_value::{
    is_json_number, lemma_items_as_join, lemma_items_cons, lemma_items_well_formed,
    lemma_members_well_formed, lemma_next_prefix_text, lemma_object_left, lemma_open_prefix_text,
    lemma_parse_json_render, lemma_plain_escape, next_prefix, null_text, object_left, open_prefix,
    parse_json, render, well_formed, JsonValue,
};

verus! {

/// Node shape.
#[derive(Clone, Copy, Debug, PartialEq, Eq, Structural)]
pub enum Shape {
    Rect,
    Rounded,
    Stadium,
    Diamond,
    Circle,
    DoubleCircle,
    Cylinder,
    Subroutine,
    Hexagon,
    Parallelogram,
    ParallelogramAlt,
    StateStart,
    StateEnd,
    ForkBar,
}

/// Edge line style.
#[derive(Clone, Copy, Debug, PartialEq, Eq, Structural)]
pub enum EdgeKind {
    Arrow,
    Open,
    Dotted,
    DottedOpen,
    Thick,
    ThickOpen,
    Invisible,
}

/// The name of a shape in the layout JSON.
pub open spec fn shape_label(shape: Shape) -> Seq<char> {
    match shape {
        Shape::Rect => "rect"@,
        Shape::Rounded => "rounded"@,
        Shape::Stadium => "stadium"@,
        Shape::Diamond => "diamond"@,
        Shape::Circle => "circle"@,
        Shape::DoubleCircle => "doublecircle"@,
        Shape::Cylinder => "cylinder"@,
        Shape::Subroutine => "subroutine"@,
        Shape::Hexagon => "hexagon"@,
        Shape::Parallelogram => "parallelogram"@,
        Shape::ParallelogramAlt => "parallelogramalt"@,
        Shape::StateStart => "statestart"@,
        Shape::StateEnd => "stateend"@,
        Shape::ForkBar => "forkbar"@,
    }
}

/// The name of an edge kind in the layout JSON.
pub open spec fn edge_kind_label(kind: EdgeKind) -> Seq<char> {
    match kind {
        EdgeKind::Arrow => "arrow"@,
        EdgeKind::Open => "open"@,
        EdgeKind::Dotted => "dotted"@,
        EdgeKind::DottedOpen => "dottedopen"@,
        EdgeKind::Thick => "thick"@,
        EdgeKind::ThickOpen => "thickopen"@,
        EdgeKind::Invisible => "invisible"@,
    }
}

/// The lowercase name of a shape.
pub fn shape_name(shape: Shape) -> (name: &'static str)
    ensures
        name@ == shape_label(shape),
{
    match shape {
        Shape::Rect => "rect",
        Shape::Rounded => "rounded",
        Shape::Stadium => "stadium",
        Shape::Diamond => "diamond",
        Shape::Circle => "circle",
        Shape::DoubleCircle => "doublecircle",
        Shape::Cylinder => "cylinder",
        Shape::Subroutine => "subroutine",
        Shape::Hexagon => "hexagon",
        Shape::Parallelogram => "parallelogram",
        Shape::ParallelogramAlt => "parallelogramalt",
        Shape::StateStart => "statestart",
        Shape::StateEnd => "stateend",
        Shape::ForkBar => "forkbar",
    }
}

/// The lowercase name of an edge kind.
pub fn edge_kind_name(kind: EdgeKind) -> (name: &'static str)
    ensures
        name@ == edge_kind_label(kind),
{
    match kind {
        EdgeKind::Arrow => "arrow",
        EdgeKind::Open => "open",
        EdgeKind::Dotted => "dotted",
        EdgeKind::DottedOpen => "dottedopen",
        EdgeKind::Thick => "thick",
        EdgeKind::ThickOpen => "thickopen",
        EdgeKind::Invisible => "invisible",
    }
}

/// A swimlane box. `x`, `y`, `w` and `h` are decimal number text.
pub struct LaneLayout {
    pub id: String,
    pub title: String,
    pub x: String,
    pub y: String,
    pub w: String,
    pub h: String,
}

/// A placed node; `x`/`y` is its centre. Numbers are decimal text.
pub struct NodeLayout {
    pub id: String,
    pub label: String,
    pub lane: String,
    pub x: String,
    pub y: String,
    pub w: String,
    pub h: String,
    pub shape: Shape,
}

/// A routed edge with its orthogonal polyline, each point an `(x, y)`
/// pair of decimal texts.
pub struct EdgeLayout {
    pub from: String,
    pub to: String,
    pub label: Option<String>,
    pub kind: EdgeKind,
    pub points: Vec<(String, String)>,
}

/// The geometry of a laid-out advance diagram.
pub struct AdvanceLayout {
    pub width: String,
    pub height: String,
    pub lanes: Vec<LaneLayout>,
    pub nodes: Vec<NodeLayout>,
    pub edges: Vec<EdgeLayout>,
}

/// The JSON object of a lane.
pub open spec fn lane_json(l: LaneLayout) -> Seq<char> {
    "{\"id\":"@ + json_quoted(l.id@) + ",\"title\":"@ + json_quoted(l.title@) + ",\"x\":"@ + l.x@
        + ",\"y\":"@ + l.y@ + ",\"w\":"@ + l.w@ + ",\"h\":"@ + l.h@ + "}"@
}

/// The JSON object of a node.
pub open spec fn node_json(n: NodeLayout) -> Seq<char> {
    "{\"id\":"@ + json_quoted(n.id@) + ",\"label\":"@ + json_quoted(n.label@) + ",\"lane\":"@
        + json_quoted(n.lane@) + ",\"x\":"@ + n.x@ + ",\"y\":"@ + n.y@ + ",\"w\":"@ + n.w@
        + ",\"h\":"@ + n.h@ + ",\"shape\":\""@ + shape_label(n.shape) + "\"}"@
}

/// The JSON array of a point.
pub open spec fn point_json(p: (String, String)) -> Seq<char> {
    "["@ + p.0@ + ","@ + p.1@ + "]"@
}

/// The JSON value of an optional label: a string, or `null`.
pub open spec fn label_json(label: Option<String>) -> Seq<char> {
    match label {
        Some(s) => json_quoted(s@),
        None => "null"@,
    }
}

/// The points of an edge, comma-separated.
pub open spec fn points_json(points: Seq<(String, String)>) -> Seq<char> {
    join_with(points.map_values(|p: (String, String)| point_json(p)), ',')
}

/// The JSON object of an edge.
pub open spec fn edge_json(e: EdgeLayout) -> Seq<char> {
    "{\"from\":"@ + json_quoted(e.from@) + ",\"to\":"@ + json_quoted(e.to@) + ",\"label\":"@
        + label_json(e.label) + ",\"kind\":\""@ + edge_kind_label(e.kind) + "\",\"points\":["@
        + points_json(e.points@) + "]}"@
}

/// The JSON array of all lanes.
pub open spec fn lanes_json(lanes: Seq<LaneLayout>) -> Seq<char> {
    "["@ + join_with(lanes.map_values(|l: LaneLayout| lane_json(l)), ',') + "]"@
}

/// The JSON array of all nodes.
pub open spec fn nodes_json(nodes: Seq<NodeLayout>) -> Seq<char> {
    "["@ + join_with(nodes.map_values(|n: NodeLayout| node_json(n)), ',') + "]"@
}

/// The JSON array of all edges.
pub open spec fn edges_json(edges: Seq<EdgeLayout>) -> Seq<char> {
    "["@ + join_with(edges.map_values(|e: EdgeLayout| edge_json(e)), ',') + "]"@
}

/// The JSON object of a whole layout.
pub open spec fn scene_json(s: AdvanceLayout) -> Seq<char> {
    "{\"width\":"@ + s.width@ + ",\"height\":"@ + s.height@ + ",\"lanes\":"@ + lanes_json(s.lanes@)
        + ",\"nodes\":"@ + nodes_json(s.nodes@) + ",\"edges\":"@ + edges_json(s.edges@) + "}"@
}

/// Append the JSON object of a lane.
fn push_lane(out: &mut String, l: &LaneLayout)
    ensures
        final(out)@ == old(out)@ + lane_json(*l),
{
    out.append("{\"id\":");
    out.append(json_escape(l.id.as_str()).as_str());
    out.append(",\"title\":");
    out.append(json_escape(l.title.as_str()).as_str());
    out.append(",\"x\":");
    out.append(l.x.as_str());
    out.append(",\"y\":");
    out.append(l.y.as_str());
    out.append(",\"w\":");
    out.append(l.w.as_str());
    out.append(",\"h\":");
    out.append(l.h.as_str());
    out.append("}");
    proof {
        assert(final(out)@ =~= old(out)@ + lane_json(*l));
    }
}

/// Append the JSON object of a node.
fn push_node(out: &mut String, n: &NodeLayout)
    ensures
        final(out)@ == old(out)@ + node_json(*n),
{
    out.append("{\"id\":");
    out.append(json_escape(n.id.as_str()).as_str());
    out.append(",\"label\":");
    out.append(json_escape(n.label.as_str()).as_str());
    out.append(",\"lane\":");
    out.append(json_escape(n.lane.as_str()).as_str());
    out.append(",\"x\":");
    out.append(n.x.as_str());
    out.append(",\"y\":");
    out.append(n.y.as_str());
    out.append(",\"w\":");
    out.append(n.w.as_str());
    out.append(",\"h\":");
    out.append(n.h.as_str());
    out.append(",\"shape\":\"");
    out.append(shape_name(n.shape));
    out.append("\"}");
    proof {
        assert(final(out)@ =~= old(out)@ + node_json(*n));
    }
}

/// Append the JSON object of an edge.
fn push_edge(out: &mut String, e: &EdgeLayout)
    ensures
        final(out)@ == old(out)@ + edge_json(*e),
{
    out.append("{\"from\":");
    out.append(json_escape(e.from.as_str()).as_str());
    out.append(",\"to\":");
    out.append(json_escape(e.to.as_str()).as_str());
    out.append(",\"label\":");
    match &e.label {
        Some(l) => out.append(json_escape(l.as_str()).as_str()),
        None => out.append("null"),
    }
    out.append(",\"kind\":\"");
    out.append(edge_kind_name(e.kind));
    out.append("\",\"points\":[");
    let ghost head = out@;
    let ghost items = e.points@.map_values(|p: (String, String)| point_json(p));
    let mut j: usize = 0;
    while j < e.points.len()
        invariant
            j <= e.points@.len(),
            items == e.points@.map_values(|p: (String, String)| point_json(p)),
            out@ == head + join_with(items.take(j as int), ','),
        decreases e.points@.len() - j,
    {
        proof {
            assert(items.take(j as int + 1).drop_last() =~= items.take(j as int));
            assert(items.take(j as int + 1).last() == point_json(e.points@[j as int]));
        }
        if j > 0 {
            out.push(',');
        } else {
            proof {
                assert(join_with(items.take(0), ',') =~= Seq::<char>::empty());
            }
        }
        let p = &e.points[j];
        out.append("[");
        out.append(p.0.as_str());
        out.append(",");
        out.append(p.1.as_str());
        out.append("]");
        j = j + 1;
        proof {
            assert(out@ =~= head + join_with(items.take(j as int), ','));
        }
    }
    out.append("]}");
    proof {
        assert(items.take(e.points@.len() as int) =~= items);
        assert(final(out)@ =~= old(out)@ + edge_json(*e));
    }
}

/// Append the JSON array of all lanes.
fn push_lanes(out: &mut String, items_in: &Vec<LaneLayout>)
    ensures
        final(out)@ == old(out)@ + lanes_json(items_in@),
{
    out.append("[");
    let ghost head = out@;
    let ghost items = items_in@.map_values(|x: LaneLayout| lane_json(x));
    let mut i: usize = 0;
    while i < items_in.len()
        invariant
            i <= items_in@.len(),
            items == items_in@.map_values(|x: LaneLayout| lane_json(x)),
            out@ == head + join_with(items.take(i as int), ','),
        decreases items_in@.len() - i,
    {
        proof {
            assert(items.take(i as int + 1).drop_last() =~= items.take(i as int));
        }
        if i > 0 {
            out.push(',');
        } else {
            proof {
                assert(join_with(items.take(0), ',') =~= Seq::<char>::empty());
            }
        }
        push_lane(out, &items_in[i]);
        i = i + 1;
        proof {
            assert(out@ =~= head + join_with(items.take(i as int), ','));
        }
    }
    out.append("]");
    proof {
        assert(items.take(items_in@.len() as int) =~= items);
        assert(final(out)@ =~= old(out)@ + lanes_json(items_in@));
    }
}

/// Append the JSON array of all nodes.
fn push_nodes(out: &mut String, items_in: &Vec<NodeLayout>)
    ensures
        final(out)@ == old(out)@ + nodes_json(items_in@),
{
    out.append("[");
    let ghost head = out@;
    let ghost items = items_in@.map_values(|x: NodeLayout| node_json(x));
    let mut i: usize = 0;
    while i < items_in.len()
        invariant
            i <= items_in@.len(),
            items == items_in@.map_values(|x: NodeLayout| node_json(x)),
            out@ == head + join_with(items.take(i as int), ','),
        decreases items_in@.len() - i,
    {
        proof {
            assert(items.take(i as int + 1).drop_last() =~= items.take(i as int));
        }
        if i > 0 {
            out.push(',');
        } else {
            proof {
                assert(join_with(items.take(0), ',') =~= Seq::<char>::empty());
            }
        }
        push_node(out, &items_in[i]);
        i = i + 1;
        proof {
            assert(out@ =~= head + join_with(items.take(i as int), ','));
        }
    }
    out.append("]");
    proof {
        assert(items.take(items_in@.len() as int) =~= items);
        assert(final(out)@ =~= old(out)@ + nodes_json(items_in@));
    }
}

/// Append the JSON array of all edges.
fn push_edges(out: &mut String, items_in: &Vec<EdgeLayout>)
    ensures
        final(out)@ == old(out)@ + edges_json(items_in@),
{
    out.append("[");
    let ghost head = out@;
    let ghost items = items_in@.map_values(|x: EdgeLayout| edge_json(x));
    let mut i: usize = 0;
    while i < items_in.len()
        invariant
            i <= items_in@.len(),
            items == items_in@.map_values(|x: EdgeLayout| edge_json(x)),
            out@ == head + join_with(items.take(i as int), ','),
        decreases items_in@.len() - i,
    {
        proof {
            assert(items.take(i as int + 1).drop_last() =~= items.take(i as int));
        }
        if i > 0 {
            out.push(',');
        } else {
            proof {
                assert(join_with(items.take(0), ',') =~= Seq::<char>::empty());
            }
        }
        push_edge(out, &items_in[i]);
        i = i + 1;
        proof {
            assert(out@ =~= head + join_with(items.take(i as int), ','));
        }
    }
    out.append("]");
    proof {
        assert(items.take(items_in@.len() as int) =~= items);
        assert(final(out)@ =~= old(out)@ + edges_json(items_in@));
    }
}

/// Serialise a layout to JSON by hand: width, height, lanes, nodes, and
/// edges with their orthogonal routing points, every string field
/// escaped and every number copied as given. When every number text is
/// a JSON number, the result is JSON holding `scene_value(scene)`.
pub fn advance_scene_to_json(scene: &AdvanceLayout) -> (json: String)
    ensures
        json@ == scene_json(*scene),
        scene_numbers_ok(*scene) ==> parse_json(json@) == Some(scene_value(*scene)),
{
    let mut s = String::new();
    s.append("{\"width\":");
    s.append(scene.width.as_str());
    s.append(",\"height\":");
    s.append(scene.height.as_str());
    s.append(",\"lanes\":");
    push_lanes(&mut s, &scene.lanes);
    s.append(",\"nodes\":");
    push_nodes(&mut s, &scene.nodes);
    s.append(",\"edges\":");
    push_edges(&mut s, &scene.edges);
    s.append("}");
    proof {
        assert(s@ =~= scene_json(*scene));
        if scene_numbers_ok(*scene) {
            lemma_scene_json_parses(*scene);
        }
    }
    s
}

/// Distinct shapes have distinct names in the layout JSON, so a reader
/// of the JSON can tell every shape apart.
pub proof fn lemma_shape_names_distinct(a: Shape, b: Shape)
    requires
        a != b,
    ensures
        shape_label(a) != shape_label(b),
{
    reveal_strlit("rect");
    reveal_strlit("rounded");
    reveal_strlit("stadium");
    reveal_strlit("diamond");
    reveal_strlit("circle");
    reveal_strlit("doublecircle");
    reveal_strlit("cylinder");
    reveal_strlit("subroutine");
    reveal_strlit("hexagon");
    reveal_strlit("parallelogram");
    reveal_strlit("parallelogramalt");
    reveal_strlit("statestart");
    reveal_strlit("stateend");
    reveal_strlit("forkbar");
    let (x, y) = (shape_label(a), shape_label(b));
    assert(x.len() != y.len() || x[0] != y[0] || x[1] != y[1]) by {
        match a {
            Shape::Rect => {}, Shape::Rounded => {}, Shape::Stadium => {}, Shape::Diamond => {},
            Shape::Circle => {}, Shape::DoubleCircle => {}, Shape::Cylinder => {},
            Shape::Subroutine => {}, Shape::Hexagon => {}, Shape::Parallelogram => {},
            Shape::ParallelogramAlt => {}, Shape::StateStart => {}, Shape::StateEnd => {},
            Shape::ForkBar => {},
        }
    }
}

/// Distinct edge kinds have distinct names in the layout JSON.
pub proof fn lemma_edge_kind_names_distinct(a: EdgeKind, b: EdgeKind)
    requires
        a != b,
    ensures
        edge_kind_label(a) != edge_kind_label(b),
{
    reveal_strlit("arrow");
    reveal_strlit("open");
    reveal_strlit("dotted");
    reveal_strlit("dottedopen");
    reveal_strlit("thick");
    reveal_strlit("thickopen");
    reveal_strlit("invisible");
    let (x, y) = (edge_kind_label(a), edge_kind_label(b));
    assert(x.len() != y.len() || x[0] != y[0]);
}

/// A JSON value of an optional label: a string, or null.
pub open spec fn label_value(label: Option<String>) -> JsonValue {
    match label {
        Some(t) => JsonValue::Str(t@),
        None => JsonValue::Null,
    }
}

/// The JSON array of a point: its two numbers.
pub open spec fn point_value(p: (String, String)) -> JsonValue {
    JsonValue::Array(seq![JsonValue::Number(p.0@), JsonValue::Number(p.1@)])
}

/// The members of the JSON object of a lane.
pub open spec fn lane_members(l: LaneLayout) -> Seq<(Seq<char>, JsonValue)> {
    seq![
        ("id"@, JsonValue::Str(l.id@)),
        ("title"@, JsonValue::Str(l.title@)),
        ("x"@, JsonValue::Number(l.x@)),
        ("y"@, JsonValue::Number(l.y@)),
        ("w"@, JsonValue::Number(l.w@)),
        ("h"@, JsonValue::Number(l.h@)),
    ]
}

/// The JSON object a lane stands for.
pub open spec fn lane_value(l: LaneLayout) -> JsonValue {
    JsonValue::Object(lane_members(l))
}

/// The members of the JSON object of a node.
pub open spec fn node_members(n: NodeLayout) -> Seq<(Seq<char>, JsonValue)> {
    seq![
        ("id"@, JsonValue::Str(n.id@)),
        ("label"@, JsonValue::Str(n.label@)),
        ("lane"@, JsonValue::Str(n.lane@)),
        ("x"@, JsonValue::Number(n.x@)),
        ("y"@, JsonValue::Number(n.y@)),
        ("w"@, JsonValue::Number(n.w@)),
        ("h"@, JsonValue::Number(n.h@)),
        ("shape"@, JsonValue::Str(shape_label(n.shape))),
    ]
}

/// The JSON object a node stands for.
pub open spec fn node_value(n: NodeLayout) -> JsonValue {
    JsonValue::Object(node_members(n))
}

/// The members of the JSON object of an edge.
pub open spec fn edge_members(e: EdgeLayout) -> Seq<(Seq<char>, JsonValue)> {
    seq![
        ("from"@, JsonValue::Str(e.from@)),
        ("to"@, JsonValue::Str(e.to@)),
        ("label"@, label_value(e.label)),
        ("kind"@, JsonValue::Str(edge_kind_label(e.kind))),
        ("points"@, JsonValue::Array(e.points@.map_values(|p: (String, String)| point_value(p)))),
    ]
}

/// The JSON object an edge stands for.
pub open spec fn edge_value(e: EdgeLayout) -> JsonValue {
    JsonValue::Object(edge_members(e))
}

/// The members of the JSON object of a layout.
pub open spec fn scene_members(s: AdvanceLayout) -> Seq<(Seq<char>, JsonValue)> {
    seq![
        ("width"@, JsonValue::Number(s.width@)),
        ("height"@, JsonValue::Number(s.height@)),
        ("lanes"@, JsonValue::Array(s.lanes@.map_values(|l: LaneLayout| lane_value(l)))),
        ("nodes"@, JsonValue::Array(s.nodes@.map_values(|n: NodeLayout| node_value(n)))),
        ("edges"@, JsonValue::Array(s.edges@.map_values(|e: EdgeLayout| edge_value(e)))),
    ]
}

/// The JSON object of a whole layout: its width and height,
/// and arrays with one object per lane, node and edge, in order.
pub open spec fn scene_value(s: AdvanceLayout) -> JsonValue {
    JsonValue::Object(scene_members(s))
}

/// The number texts of a lane are JSON numbers.
pub open spec fn lane_numbers_ok(l: LaneLayout) -> bool {
    is_json_number(l.x@) && is_json_number(l.y@) && is_json_number(l.w@) && is_json_number(l.h@)
}

/// The number texts of a node are JSON numbers.
pub open spec fn node_numbers_ok(n: NodeLayout) -> bool {
    is_json_number(n.x@) && is_json_number(n.y@) && is_json_number(n.w@) && is_json_number(n.h@)
}

/// The coordinates of every point of an edge are JSON numbers.
pub open spec fn edge_numbers_ok(e: EdgeLayout) -> bool {
    forall|k: int| 0 <= k < e.points@.len() ==> is_json_number(#[trigger] e.points@[k].0@)
        && is_json_number(e.points@[k].1@)
}

/// Every number text of a layout is a JSON number (as the text of a
/// finite double is; an infinity or a NaN is not).
pub open spec fn scene_numbers_ok(s: AdvanceLayout) -> bool {
    &&& is_json_number(s.width@)
    &&& is_json_number(s.height@)
    &&& forall|k: int| 0 <= k < s.lanes@.len() ==> lane_numbers_ok(#[trigger] s.lanes@[k])
    &&& forall|k: int| 0 <= k < s.nodes@.len() ==> node_numbers_ok(#[trigger] s.nodes@[k])
    &&& forall|k: int| 0 <= k < s.edges@.len() ==> edge_numbers_ok(#[trigger] s.edges@[k])
}

proof fn lemma_point_value(p: (String, String))
    ensures
        render(point_value(p)) == point_json(p),
        is_json_number(p.0@) && is_json_number(p.1@) ==> well_formed(point_value(p)),
{
    reveal_strlit("[");
    reveal_strlit(",");
    reveal_strlit("]");
    let a = JsonValue::Number(p.0@);
    let b = JsonValue::Number(p.1@);
    assert(seq![a, b] =~= seq![a] + seq![b]);
    lemma_items_cons(a, seq![b]);
    assert(seq![b] =~= seq![b] + Seq::<JsonValue>::empty());
    lemma_items_cons(b, Seq::<JsonValue>::empty());
    assert(render(point_value(p)) =~= point_json(p));
    if is_json_number(p.0@) && is_json_number(p.1@) {
        lemma_items_well_formed(seq![a, b]);
    }
}

#[verifier::rlimit(40)]
proof fn lemma_lane_text(l: LaneLayout)
    ensures
        object_left(lane_members(l)) + seq!['}'] == lane_json(l),
{
    let m0 = ("id"@, JsonValue::Str(l.id@));
    let m1 = ("title"@, JsonValue::Str(l.title@));
    let m2 = ("x"@, JsonValue::Number(l.x@));
    let m3 = ("y"@, JsonValue::Number(l.y@));
    let m4 = ("w"@, JsonValue::Number(l.w@));
    let m5 = ("h"@, JsonValue::Number(l.h@));
    assert(lane_members(l) == seq![m0, m1, m2, m3, m4, m5]);
    assert(seq![m0, m1, m2, m3, m4, m5].drop_last() =~= seq![m0, m1, m2, m3, m4]);
    assert(seq![m0, m1, m2, m3, m4].drop_last() =~= seq![m0, m1, m2, m3]);
    assert(seq![m0, m1, m2, m3].drop_last() =~= seq![m0, m1, m2]);
    assert(seq![m0, m1, m2].drop_last() =~= seq![m0, m1]);
    assert(seq![m0, m1].drop_last() =~= seq![m0]);
    assert(object_left(seq![m0]) == open_prefix("id"@) + render(m0.1));
    assert(object_left(seq![m0, m1]) == object_left(seq![m0]) + next_prefix("title"@) + render(m1.1));
    assert(object_left(seq![m0, m1, m2]) == object_left(seq![m0, m1]) + next_prefix("x"@) + render(m2.1));
    assert(object_left(seq![m0, m1, m2, m3]) == object_left(seq![m0, m1, m2]) + next_prefix("y"@) + render(m3.1));
    assert(object_left(seq![m0, m1, m2, m3, m4]) == object_left(seq![m0, m1, m2, m3]) + next_prefix("w"@) + render(m4.1));
    assert(object_left(seq![m0, m1, m2, m3, m4, m5]) == object_left(seq![m0, m1, m2, m3, m4]) + next_prefix("h"@) + render(m5.1));
    assert(open_prefix("id"@) == "{\"id\":"@) by {
        reveal_strlit("id");
        reveal_strlit("{\"id\":");
        lemma_open_prefix_text("id"@, "{\"id\":"@);
    }
    assert(next_prefix("title"@) == ",\"title\":"@) by {
        reveal_strlit("title");
        reveal_strlit(",\"title\":");
        lemma_next_prefix_text("title"@, ",\"title\":"@);
    }
    assert(next_prefix("x"@) == ",\"x\":"@) by {
        reveal_strlit("x");
        reveal_strlit(",\"x\":");
        lemma_next_prefix_text("x"@, ",\"x\":"@);
    }
    assert(next_prefix("y"@) == ",\"y\":"@) by {
        reveal_strlit("y");
        reveal_strlit(",\"y\":");
        lemma_next_prefix_text("y"@, ",\"y\":"@);
    }
    assert(next_prefix("w"@) == ",\"w\":"@) by {
        reveal_strlit("w");
        reveal_strlit(",\"w\":");
        lemma_next_prefix_text("w"@, ",\"w\":"@);
    }
    assert(next_prefix("h"@) == ",\"h\":"@) by {
        reveal_strlit("h");
        reveal_strlit(",\"h\":");
        lemma_next_prefix_text("h"@, ",\"h\":"@);
    }
    assert("}"@ == seq!['}']) by {
        reveal_strlit("}");
        assert("}"@ =~= seq!['}']);
    }
}

proof fn lemma_lane_value(l: LaneLayout)
    ensures
        render(lane_value(l)) == lane_json(l),
        lane_numbers_ok(l) ==> well_formed(lane_value(l)),
{
    lemma_object_left(lane_members(l));
    lemma_lane_text(l);
    if lane_numbers_ok(l) {
        lemma_members_well_formed(lane_members(l));
    }
}

proof fn lemma_shape_label_plain(shape: Shape)
    ensures
        escape_body(shape_label(shape)) == shape_label(shape),
{
    reveal_strlit("rect");
    reveal_strlit("rounded");
    reveal_strlit("stadium");
    reveal_strlit("diamond");
    reveal_strlit("circle");
    reveal_strlit("doublecircle");
    reveal_strlit("cylinder");
    reveal_strlit("subroutine");
    reveal_strlit("hexagon");
    reveal_strlit("parallelogram");
    reveal_strlit("parallelogramalt");
    reveal_strlit("statestart");
    reveal_strlit("stateend");
    reveal_strlit("forkbar");
    lemma_plain_escape(shape_label(shape));
}

proof fn lemma_edge_kind_label_plain(kind: EdgeKind)
    ensures
        escape_body(edge_kind_label(kind)) == edge_kind_label(kind),
{
    reveal_strlit("arrow");
    reveal_strlit("open");
    reveal_strlit("dotted");
    reveal_strlit("dottedopen");
    reveal_strlit("thick");
    reveal_strlit("thickopen");
    reveal_strlit("invisible");
    lemma_plain_escape(edge_kind_label(kind));
}

#[verifier::rlimit(40)]
proof fn lemma_node_text(n: NodeLayout)
    ensures
        object_left(node_members(n)) + seq!['}'] == node_json(n),
{
    let m0 = ("id"@, JsonValue::Str(n.id@));
    let m1 = ("label"@, JsonValue::Str(n.label@));
    let m2 = ("lane"@, JsonValue::Str(n.lane@));
    let m3 = ("x"@, JsonValue::Number(n.x@));
    let m4 = ("y"@, JsonValue::Number(n.y@));
    let m5 = ("w"@, JsonValue::Number(n.w@));
    let m6 = ("h"@, JsonValue::Number(n.h@));
    let m7 = ("shape"@, JsonValue::Str(shape_label(n.shape)));
    assert(node_members(n) == seq![m0, m1, m2, m3, m4, m5, m6, m7]);
    assert(seq![m0, m1, m2, m3, m4, m5, m6, m7].drop_last() =~= seq![m0, m1, m2, m3, m4, m5, m6]);
    assert(seq![m0, m1, m2, m3, m4, m5, m6].drop_last() =~= seq![m0, m1, m2, m3, m4, m5]);
    assert(seq![m0, m1, m2, m3, m4, m5].drop_last() =~= seq![m0, m1, m2, m3, m4]);
    assert(seq![m0, m1, m2, m3, m4].drop_last() =~= seq![m0, m1, m2, m3]);
    assert(seq![m0, m1, m2, m3].drop_last() =~= seq![m0, m1, m2]);
    assert(seq![m0, m1, m2].drop_last() =~= seq![m0, m1]);
    assert(seq![m0, m1].drop_last() =~= seq![m0]);
    assert(object_left(seq![m0]) == open_prefix("id"@) + render(m0.1));
    assert(object_left(seq![m0, m1]) == object_left(seq![m0]) + next_prefix("label"@) + render(m1.1));
    assert(object_left(seq![m0, m1, m2]) == object_left(seq![m0, m1]) + next_prefix("lane"@) + render(m2.1));
    assert(object_left(seq![m0, m1, m2, m3]) == object_left(seq![m0, m1, m2]) + next_prefix("x"@) + render(m3.1));
    assert(object_left(seq![m0, m1, m2, m3, m4]) == object_left(seq![m0, m1, m2, m3]) + next_prefix("y"@) + render(m4.1));
    assert(object_left(seq![m0, m1, m2, m3, m4, m5]) == object_left(seq![m0, m1, m2, m3, m4]) + next_prefix("w"@) + render(m5.1));
    assert(object_left(seq![m0, m1, m2, m3, m4, m5, m6]) == object_left(seq![m0, m1, m2, m3, m4, m5]) + next_prefix("h"@) + render(m6.1));
    assert(object_left(seq![m0, m1, m2, m3, m4, m5, m6, m7]) == object_left(seq![m0, m1, m2, m3, m4, m5, m6]) + next_prefix("shape"@) + render(m7.1));
    assert(open_prefix("id"@) == "{\"id\":"@) by {
        reveal_strlit("id");
        reveal_strlit("{\"id\":");
        lemma_open_prefix_text("id"@, "{\"id\":"@);
    }
    assert(next_prefix("label"@) == ",\"label\":"@) by {
        reveal_strlit("label");
        reveal_strlit(",\"label\":");
        lemma_next_prefix_text("label"@, ",\"label\":"@);
    }
    assert(next_prefix("lane"@) == ",\"lane\":"@) by {
        reveal_strlit("lane");
        reveal_strlit(",\"lane\":");
        lemma_next_prefix_text("lane"@, ",\"lane\":"@);
    }
    assert(next_prefix("x"@) == ",\"x\":"@) by {
        reveal_strlit("x");
        reveal_strlit(",\"x\":");
        lemma_next_prefix_text("x"@, ",\"x\":"@);
    }
    assert(next_prefix("y"@) == ",\"y\":"@) by {
        reveal_strlit("y");
        reveal_strlit(",\"y\":");
        lemma_next_prefix_text("y"@, ",\"y\":"@);
    }
    assert(next_prefix("w"@) == ",\"w\":"@) by {
        reveal_strlit("w");
        reveal_strlit(",\"w\":");
        lemma_next_prefix_text("w"@, ",\"w\":"@);
    }
    assert(next_prefix("h"@) == ",\"h\":"@) by {
        reveal_strlit("h");
        reveal_strlit(",\"h\":");
        lemma_next_prefix_text("h"@, ",\"h\":"@);
    }
    lemma_shape_label_plain(n.shape);
    let head = object_left(seq![m0, m1, m2, m3, m4, m5, m6]);
    let label = shape_label(n.shape);
    assert(head + next_prefix("shape"@) + json_quoted(label) + seq!['}'] == head + ",\"shape\":\""@
        + label + "\"}"@) by {
        reveal_strlit("shape");
        lemma_plain_escape("shape"@);
        reveal_strlit(",\"shape\":\"");
        reveal_strlit("\"}");
        assert(head + next_prefix("shape"@) + json_quoted(label) + seq!['}'] =~= head
            + ",\"shape\":\""@ + label + "\"}"@);
    }
}

proof fn lemma_node_value(n: NodeLayout)
    ensures
        render(node_value(n)) == node_json(n),
        node_numbers_ok(n) ==> well_formed(node_value(n)),
{
    lemma_object_left(node_members(n));
    lemma_node_text(n);
    if node_numbers_ok(n) {
        lemma_members_well_formed(node_members(n));
    }
}

proof fn lemma_points_value(points: Seq<(String, String)>)
    ensures
        render(JsonValue::Array(points.map_values(|p: (String, String)| point_value(p))))
            == seq!['['] + points_json(points) + seq![']'],
        (forall|k: int| 0 <= k < points.len() ==> is_json_number(#[trigger] points[k].0@)
            && is_json_number(points[k].1@)) ==> well_formed(
            JsonValue::Array(points.map_values(|p: (String, String)| point_value(p))),
        ),
{
    let pv = points.map_values(|p: (String, String)| point_value(p));
    let pt = points.map_values(|p: (String, String)| point_json(p));
    assert forall|k: int| 0 <= k < pv.len() implies render(#[trigger] pv[k]) == pt[k] by {
        lemma_point_value(points[k]);
    }
    lemma_items_as_join(pv, pt);
    if forall|k: int| 0 <= k < points.len() ==> is_json_number(#[trigger] points[k].0@)
        && is_json_number(points[k].1@) {
        assert forall|k: int| 0 <= k < pv.len() implies well_formed(#[trigger] pv[k]) by {
            lemma_point_value(points[k]);
        }
        lemma_items_well_formed(pv);
    }
}

#[verifier::rlimit(40)]
proof fn lemma_edge_text(e: EdgeLayout)
    ensures
        object_left(edge_members(e)) + seq!['}'] == edge_json(e),
{
    let m0 = ("from"@, JsonValue::Str(e.from@));
    let m1 = ("to"@, JsonValue::Str(e.to@));
    let m2 = ("label"@, label_value(e.label));
    let m3 = ("kind"@, JsonValue::Str(edge_kind_label(e.kind)));
    let m4 = ("points"@, JsonValue::Array(e.points@.map_values(|p: (String, String)| point_value(p))));
    assert(edge_members(e) == seq![m0, m1, m2, m3, m4]);
    assert(seq![m0, m1, m2, m3, m4].drop_last() =~= seq![m0, m1, m2, m3]);
    assert(seq![m0, m1, m2, m3].drop_last() =~= seq![m0, m1, m2]);
    assert(seq![m0, m1, m2].drop_last() =~= seq![m0, m1]);
    assert(seq![m0, m1].drop_last() =~= seq![m0]);
    assert(object_left(seq![m0]) == open_prefix("from"@) + render(m0.1));
    assert(object_left(seq![m0, m1]) == object_left(seq![m0]) + next_prefix("to"@) + render(m1.1));
    assert(object_left(seq![m0, m1, m2]) == object_left(seq![m0, m1]) + next_prefix("label"@) + render(m2.1));
    assert(object_left(seq![m0, m1, m2, m3]) == object_left(seq![m0, m1, m2]) + next_prefix("kind"@) + render(m3.1));
    assert(object_left(seq![m0, m1, m2, m3, m4]) == object_left(seq![m0, m1, m2, m3]) + next_prefix("points"@) + render(m4.1));
    assert(open_prefix("from"@) == "{\"from\":"@) by {
        reveal_strlit("from");
        reveal_strlit("{\"from\":");
        lemma_open_prefix_text("from"@, "{\"from\":"@);
    }
    assert(next_prefix("to"@) == ",\"to\":"@) by {
        reveal_strlit("to");
        reveal_strlit(",\"to\":");
        lemma_next_prefix_text("to"@, ",\"to\":"@);
    }
    assert(next_prefix("label"@) == ",\"label\":"@) by {
        reveal_strlit("label");
        reveal_strlit(",\"label\":");
        lemma_next_prefix_text("label"@, ",\"label\":"@);
    }
    lemma_edge_kind_label_plain(e.kind);
    lemma_points_value(e.points@);
    assert(render(label_value(e.label)) == label_json(e.label)) by {
        reveal_strlit("null");
        assert("null"@ =~= null_text());
    }
    let head = object_left(seq![m0, m1, m2]);
    let kind = edge_kind_label(e.kind);
    let pj = points_json(e.points@);
    assert(head + next_prefix("kind"@) + json_quoted(kind) + next_prefix("points"@) + (seq!['['] + pj
        + seq![']']) + seq!['}'] == head + ",\"kind\":\""@ + kind + "\",\"points\":["@ + pj
        + "]}"@) by {
        reveal_strlit("kind");
        lemma_plain_escape("kind"@);
        reveal_strlit("points");
        lemma_plain_escape("points"@);
        reveal_strlit(",\"kind\":\"");
        reveal_strlit("\",\"points\":[");
        reveal_strlit("]}");
        assert(head + next_prefix("kind"@) + json_quoted(kind) + next_prefix("points"@) + (seq!['[']
            + pj + seq![']']) + seq!['}'] =~= head + ",\"kind\":\""@ + kind + "\",\"points\":["@
            + pj + "]}"@);
    }
}

proof fn lemma_edge_value(e: EdgeLayout)
    ensures
        render(edge_value(e)) == edge_json(e),
        edge_numbers_ok(e) ==> well_formed(edge_value(e)),
{
    lemma_object_left(edge_members(e));
    lemma_edge_text(e);
    if edge_numbers_ok(e) {
        lemma_points_value(e.points@);
        lemma_members_well_formed(edge_members(e));
    }
}

proof fn lemma_lanes_value(items: Seq<LaneLayout>)
    ensures
        render(JsonValue::Array(items.map_values(|x: LaneLayout| lane_value(x)))) == lanes_json(items),
        (forall|k: int| 0 <= k < items.len() ==> lane_numbers_ok(#[trigger] items[k])) ==> well_formed(
            JsonValue::Array(items.map_values(|x: LaneLayout| lane_value(x))),
        ),
{
    assert("["@ == seq!['['] && "]"@ == seq![']']) by {
        reveal_strlit("[");
        reveal_strlit("]");
        assert("["@ =~= seq!['[']);
        assert("]"@ =~= seq![']']);
    }
    let vs = items.map_values(|x: LaneLayout| lane_value(x));
    let ts = items.map_values(|x: LaneLayout| lane_json(x));
    assert forall|k: int| 0 <= k < vs.len() implies render(#[trigger] vs[k]) == ts[k] by {
        lemma_lane_value(items[k]);
    }
    lemma_items_as_join(vs, ts);
    if forall|k: int| 0 <= k < items.len() ==> lane_numbers_ok(#[trigger] items[k]) {
        assert forall|k: int| 0 <= k < vs.len() implies well_formed(#[trigger] vs[k]) by {
            lemma_lane_value(items[k]);
        }
        lemma_items_well_formed(vs);
    }
}

proof fn lemma_nodes_value(items: Seq<NodeLayout>)
    ensures
        render(JsonValue::Array(items.map_values(|x: NodeLayout| node_value(x)))) == nodes_json(items),
        (forall|k: int| 0 <= k < items.len() ==> node_numbers_ok(#[trigger] items[k])) ==> well_formed(
            JsonValue::Array(items.map_values(|x: NodeLayout| node_value(x))),
        ),
{
    assert("["@ == seq!['['] && "]"@ == seq![']']) by {
        reveal_strlit("[");
        reveal_strlit("]");
        assert("["@ =~= seq!['[']);
        assert("]"@ =~= seq![']']);
    }
    let vs = items.map_values(|x: NodeLayout| node_value(x));
    let ts = items.map_values(|x: NodeLayout| node_json(x));
    assert forall|k: int| 0 <= k < vs.len() implies render(#[trigger] vs[k]) == ts[k] by {
        lemma_node_value(items[k]);
    }
    lemma_items_as_join(vs, ts);
    if forall|k: int| 0 <= k < items.len() ==> node_numbers_ok(#[trigger] items[k]) {
        assert forall|k: int| 0 <= k < vs.len() implies well_formed(#[trigger] vs[k]) by {
            lemma_node_value(items[k]);
        }
        lemma_items_well_formed(vs);
    }
}

proof fn lemma_edges_value(items: Seq<EdgeLayout>)
    ensures
        render(JsonValue::Array(items.map_values(|x: EdgeLayout| edge_value(x)))) == edges_json(items),
        (forall|k: int| 0 <= k < items.len() ==> edge_numbers_ok(#[trigger] items[k])) ==> well_formed(
            JsonValue::Array(items.map_values(|x: EdgeLayout| edge_value(x))),
        ),
{
    assert("["@ == seq!['['] && "]"@ == seq![']']) by {
        reveal_strlit("[");
        reveal_strlit("]");
        assert("["@ =~= seq!['[']);
        assert("]"@ =~= seq![']']);
    }
    let vs = items.map_values(|x: EdgeLayout| edge_value(x));
    let ts = items.map_values(|x: EdgeLayout| edge_json(x));
    assert forall|k: int| 0 <= k < vs.len() implies render(#[trigger] vs[k]) == ts[k] by {
        lemma_edge_value(items[k]);
    }
    lemma_items_as_join(vs, ts);
    if forall|k: int| 0 <= k < items.len() ==> edge_numbers_ok(#[trigger] items[k]) {
        assert forall|k: int| 0 <= k < vs.len() implies well_formed(#[trigger] vs[k]) by {
            lemma_edge_value(items[k]);
        }
        lemma_items_well_formed(vs);
    }
}

#[verifier::rlimit(40)]
proof fn lemma_scene_text(s: AdvanceLayout)
    ensures
        object_left(scene_members(s)) + seq!['}'] == scene_json(s),
{
    let m0 = ("width"@, JsonValue::Number(s.width@));
    let m1 = ("height"@, JsonValue::Number(s.height@));
    let m2 = ("lanes"@, JsonValue::Array(s.lanes@.map_values(|l: LaneLayout| lane_value(l))));
    let m3 = ("nodes"@, JsonValue::Array(s.nodes@.map_values(|n: NodeLayout| node_value(n))));
    let m4 = ("edges"@, JsonValue::Array(s.edges@.map_values(|e: EdgeLayout| edge_value(e))));
    assert(scene_members(s) == seq![m0, m1, m2, m3, m4]);
    assert(seq![m0, m1, m2, m3, m4].drop_last() =~= seq![m0, m1, m2, m3]);
    assert(seq![m0, m1, m2, m3].drop_last() =~= seq![m0, m1, m2]);
    assert(seq![m0, m1, m2].drop_last() =~= seq![m0, m1]);
    assert(seq![m0, m1].drop_last() =~= seq![m0]);
    assert(object_left(seq![m0]) == open_prefix("width"@) + render(m0.1));
    assert(object_left(seq![m0, m1]) == object_left(seq![m0]) + next_prefix("height"@) + render(m1.1));
    assert(object_left(seq![m0, m1, m2]) == object_left(seq![m0, m1]) + next_prefix("lanes"@) + render(m2.1));
    assert(object_left(seq![m0, m1, m2, m3]) == object_left(seq![m0, m1, m2]) + next_prefix("nodes"@) + render(m3.1));
    assert(object_left(seq![m0, m1, m2, m3, m4]) == object_left(seq![m0, m1, m2, m3]) + next_prefix("edges"@) + render(m4.1));
    assert(open_prefix("width"@) == "{\"width\":"@) by {
        reveal_strlit("width");
        reveal_strlit("{\"width\":");
        lemma_open_prefix_text("width"@, "{\"width\":"@);
    }
    assert(next_prefix("height"@) == ",\"height\":"@) by {
        reveal_strlit("height");
        reveal_strlit(",\"height\":");
        lemma_next_prefix_text("height"@, ",\"height\":"@);
    }
    assert(next_prefix("lanes"@) == ",\"lanes\":"@) by {
        reveal_strlit("lanes");
        reveal_strlit(",\"lanes\":");
        lemma_next_prefix_text("lanes"@, ",\"lanes\":"@);
    }
    assert(next_prefix("nodes"@) == ",\"nodes\":"@) by {
        reveal_strlit("nodes");
        reveal_strlit(",\"nodes\":");
        lemma_next_prefix_text("nodes"@, ",\"nodes\":"@);
    }
    assert(next_prefix("edges"@) == ",\"edges\":"@) by {
        reveal_strlit("edges");
        reveal_strlit(",\"edges\":");
        lemma_next_prefix_text("edges"@, ",\"edges\":"@);
    }
    lemma_lanes_value(s.lanes@);
    lemma_nodes_value(s.nodes@);
    lemma_edges_value(s.edges@);
    assert("}"@ == seq!['}']) by {
        reveal_strlit("}");
        assert("}"@ =~= seq!['}']);
    }
}

proof fn lemma_scene_well_formed(s: AdvanceLayout)
    requires
        scene_numbers_ok(s),
    ensures
        well_formed(scene_value(s)),
{
    let ps = scene_members(s);
    lemma_lanes_value(s.lanes@);
    lemma_nodes_value(s.nodes@);
    lemma_edges_value(s.edges@);
    assert(well_formed(ps[0].1) && well_formed(ps[1].1) && well_formed(ps[2].1)
        && well_formed(ps[3].1) && well_formed(ps[4].1));
    assert forall|k: int| 0 <= k < ps.len() implies well_formed(#[trigger] ps[k].1) by {
        if k == 0 {
        } else if k == 1 {
        } else if k == 2 {
        } else if k == 3 {
        } else {
        }
    }
    lemma_members_well_formed(ps);
}

/// The layout JSON is JSON: for a layout whose number texts are JSON
/// numbers, the text `advance_scene_to_json` writes parses as one JSON
/// object with `width`, `height`, and arrays `lanes`, `nodes` and
/// `edges` holding one object per lane, node and edge, in order, each
/// with its strings, numbers, shape and kind name, its label (`null`
/// when there is none) and one `[x, y]` pair per point.
pub proof fn lemma_scene_json_parses(s: AdvanceLayout)
    requires
        scene_numbers_ok(s),
    ensures
        parse_json(scene_json(s)) == Some(scene_value(s)),
{
    lemma_object_left(scene_members(s));
    lemma_scene_text(s);
    lemma_scene_well_formed(s);
    lemma_parse_json_render(scene_value(s));
}

/// The shape a name of the advance JSON input stands for: the names
/// flowmaid's reader of that input accepts for `shape` (`parse_shape`
/// in its `advance` module), none for any other text.
pub open spec fn shape_named(name: Seq<char>) -> Option<Shape> {
    if name == "rect"@ {
        Some(Shape::Rect)
    } else if name == "rounded"@ {
        Some(Shape::Rounded)
    } else if name == "stadium"@ {
        Some(Shape::Stadium)
    } else if name == "diamond"@ {
        Some(Shape::Diamond)
    } else if name == "circle"@ {
        Some(Shape::Circle)
    } else if name == "doublecircle"@ {
        Some(Shape::DoubleCircle)
    } else if name == "cylinder"@ {
        Some(Shape::Cylinder)
    } else if name == "subroutine"@ {
        Some(Shape::Subroutine)
    } else if name == "hexagon"@ {
        Some(Shape::Hexagon)
    } else if name == "parallelogram"@ {
        Some(Shape::Parallelogram)
    } else if name == "parallelogramalt"@ {
        Some(Shape::ParallelogramAlt)
    } else if name == "statestart"@ {
        Some(Shape::StateStart)
    } else if name == "stateend"@ {
        Some(Shape::StateEnd)
    } else if name == "forkbar"@ {
        Some(Shape::ForkBar)
    } else {
        None
    }
}

/// The edge kind a name of the advance JSON input stands for (the
/// names flowmaid's `parse_edge_kind` accepts), none for any other text.
pub open spec fn edge_kind_named(name: Seq<char>) -> Option<EdgeKind> {
    if name == "arrow"@ {
        Some(EdgeKind::Arrow)
    } else if name == "open"@ {
        Some(EdgeKind::Open)
    } else if name == "dotted"@ {
        Some(EdgeKind::Dotted)
    } else if name == "dottedopen"@ {
        Some(EdgeKind::DottedOpen)
    } else if name == "thick"@ {
        Some(EdgeKind::Thick)
    } else if name == "thickopen"@ {
        Some(EdgeKind::ThickOpen)
    } else if name == "invisible"@ {
        Some(EdgeKind::Invisible)
    } else {
        None
    }
}

/// The layout JSON names every shape as the advance input does: reading
/// the written name back with the input's vocabulary gives the shape.
pub proof fn lemma_shape_name_reads_back(shape: Shape)
    ensures
        shape_named(shape_label(shape)) == Some(shape),
{
    if shape != Shape::Rect {
        lemma_shape_names_distinct(shape, Shape::Rect);
    }
    if shape != Shape::Rounded {
        lemma_shape_names_distinct(shape, Shape::Rounded);
    }
    if shape != Shape::Stadium {
        lemma_shape_names_distinct(shape, Shape::Stadium);
    }
    if shape != Shape::Diamond {
        lemma_shape_names_distinct(shape, Shape::Diamond);
    }
    if shape != Shape::Circle {
        lemma_shape_names_distinct(shape, Shape::Circle);
    }
    if shape != Shape::DoubleCircle {
        lemma_shape_names_distinct(shape, Shape::DoubleCircle);
    }
    if shape != Shape::Cylinder {
        lemma_shape_names_distinct(shape, Shape::Cylinder);
    }
    if shape != Shape::Subroutine {
        lemma_shape_names_distinct(shape, Shape::Subroutine);
    }
    if shape != Shape::Hexagon {
        lemma_shape_names_distinct(shape, Shape::Hexagon);
    }
    if shape != Shape::Parallelogram {
        lemma_shape_names_distinct(shape, Shape::Parallelogram);
    }
    if shape != Shape::ParallelogramAlt {
        lemma_shape_names_distinct(shape, Shape::ParallelogramAlt);
    }
    if shape != Shape::StateStart {
        lemma_shape_names_distinct(shape, Shape::StateStart);
    }
    if shape != Shape::StateEnd {
        lemma_shape_names_distinct(shape, Shape::StateEnd);
    }
    if shape != Shape::ForkBar {
        lemma_shape_names_distinct(shape, Shape::ForkBar);
    }
}

/// The layout JSON names every edge kind as the advance input does.
pub proof fn lemma_edge_kind_name_reads_back(kind: EdgeKind)
    ensures
        edge_kind_named(edge_kind_label(kind)) == Some(kind),
{
    if kind != EdgeKind::Arrow {
        lemma_edge_kind_names_distinct(kind, EdgeKind::Arrow);
    }
    if kind != EdgeKind::Open {
        lemma_edge_kind_names_distinct(kind, EdgeKind::Open);
    }
    if kind != EdgeKind::Dotted {
        lemma_edge_kind_names_distinct(kind, EdgeKind::Dotted);
    }
    if kind != EdgeKind::DottedOpen {
        lemma_edge_kind_names_distinct(kind, EdgeKind::DottedOpen);
    }
    if kind != EdgeKind::Thick {
        lemma_edge_kind_names_distinct(kind, EdgeKind::Thick);
    }
    if kind != EdgeKind::ThickOpen {
        lemma_edge_kind_names_distinct(kind, EdgeKind::ThickOpen);
    }
    if kind != EdgeKind::Invisible {
        lemma_edge_kind_names_distinct(kind, EdgeKind::Invisible);
    }
}

} // verus!
