use flowmaid::model::EdgeKind as K;
use flowmaid::model::Shape as S;
use flowmaid_web::diagram::{
    check_positions_for, check_routed_positions, diagram_kind, node_keys, node_keys_of,
    render_advance_svg, render_svg, DiagramKind,
};
use flowmaid_web::scene::{
    advance_scene_to_json, AdvanceLayout, EdgeKind, EdgeLayout, LaneLayout, NodeLayout, Shape,
};

fn bits(values: &[f64]) -> Vec<u64> {
    values.iter().map(|v| v.to_bits()).collect()
}

fn shape_of(s: flowmaid::model::Shape) -> Shape {
    match s {
        S::Rect => Shape::Rect,
        S::Rounded => Shape::Rounded,
        S::Stadium => Shape::Stadium,
        S::Diamond => Shape::Diamond,
        S::Circle => Shape::Circle,
        S::DoubleCircle => Shape::DoubleCircle,
        S::Cylinder => Shape::Cylinder,
        S::Subroutine => Shape::Subroutine,
        S::Hexagon => Shape::Hexagon,
        S::Parallelogram => Shape::Parallelogram,
        S::ParallelogramAlt => Shape::ParallelogramAlt,
        S::StateStart => Shape::StateStart,
        S::StateEnd => Shape::StateEnd,
        S::ForkBar => Shape::ForkBar,
    }
}

fn edge_kind_of(k: flowmaid::model::EdgeKind) -> EdgeKind {
    match k {
        K::Arrow => EdgeKind::Arrow,
        K::Open => EdgeKind::Open,
        K::Dotted => EdgeKind::Dotted,
        K::DottedOpen => EdgeKind::DottedOpen,
        K::Thick => EdgeKind::Thick,
        K::ThickOpen => EdgeKind::ThickOpen,
        K::Invisible => EdgeKind::Invisible,
    }
}

fn num(v: f64) -> String {
    format!("{:.1}", v)
}

fn layout_of(scene: &flowmaid::AdvanceScene) -> AdvanceLayout {
    AdvanceLayout {
        width: num(scene.width),
        height: num(scene.height),
        lanes: scene
            .lanes
            .iter()
            .map(|l| LaneLayout {
                id: l.id.clone(),
                title: l.title.clone(),
                x: num(l.x),
                y: num(l.y),
                w: num(l.w),
                h: num(l.h),
            })
            .collect(),
        nodes: scene
            .nodes
            .iter()
            .map(|n| NodeLayout {
                id: n.id.clone(),
                label: n.label.clone(),
                lane: n.lane.clone(),
                x: num(n.x),
                y: num(n.y),
                w: num(n.w),
                h: num(n.h),
                shape: shape_of(n.shape),
            })
            .collect(),
        edges: scene
            .edges
            .iter()
            .map(|e| EdgeLayout {
                from: e.from.clone(),
                to: e.to.clone(),
                label: e.label.clone(),
                kind: edge_kind_of(e.kind),
                points: e.points.iter().map(|p| (num(p.0), num(p.1))).collect(),
            })
            .collect(),
    }
}

#[test]
fn render_works_for_all_diagram_types() {
    assert!(render_svg("flowchart TD\nA-->B").is_ok());
    assert!(render_svg("erDiagram\nA ||--o{ B : has").is_ok());
    assert!(render_svg("classDiagram\nAnimal <|-- Dog").is_ok());
    assert!(render_svg("sequenceDiagram\nA->>B: hi").is_ok());
    assert!(render_svg("pie\n\"a\" : 1\n\"b\" : 2").is_ok());
    assert!(render_svg("gantt\nx").is_err());
    // Static diagrams pass the routed check with no positions.
    assert!(check_routed_positions("pie\n\"a\" : 1", &[]).is_ok());
    assert!(check_routed_positions("sequenceDiagram\nA->>B: hi", &[]).is_ok());
}

#[test]
fn routed_handles_class_diagrams() {
    let src = "classDiagram\nAnimal <|-- Dog\nAnimal <|-- Cat";
    assert!(check_routed_positions(src, &bits(&[0.0, 0.0, 100.0, 100.0, 200.0, 0.0])).is_ok());
    assert!(check_routed_positions(src, &bits(&[0.0, 0.0])).is_err(), "wrong length");
    assert!(check_routed_positions(src, &bits(&[f64::NAN; 6])).is_err(), "non-finite");
}

#[test]
fn advance_svg_renders() {
    let src = r#"{"lanes":[{"id":"dev","title":"Dev"}],"nodes":[{"id":"a","label":"Start","lane":"dev"}]}"#;
    let svg = render_advance_svg(src).unwrap();
    assert!(svg.starts_with("<svg"));
    assert!(svg.contains("Dev"));
    assert!(svg.contains("Start"));
}

#[test]
fn advance_layout_json_has_expected_shape() {
    let src = r#"{
        "lanes":[{"id":"dev","title":"Development"},{"id":"qa","title":"QA"}],
        "nodes":[
            {"id":"a","label":"Design","lane":"dev"},
            {"id":"b","label":"Code","lane":"dev"},
            {"id":"c","label":"Test","lane":"qa"}
        ],
        "edges":[{"from":"a","to":"b"},{"from":"b","to":"c"}]
    }"#;
    let scene = flowmaid::layout_advance(src).unwrap();
    let json = advance_scene_to_json(&layout_of(&scene));
    assert!(json.contains("\"width\""));
    assert!(json.contains("\"height\""));
    assert!(json.contains("\"lanes\""));
    assert!(json.contains("\"nodes\""));
    assert!(json.contains("\"edges\""));
    assert!(json.contains("\"points\""));
    // Centre coordinates are included.
    assert!(json.contains("\"x\":"));
    assert!(json.contains("\"y\":"));
}

#[test]
fn advance_invalid_json_errors() {
    assert!(render_advance_svg("not json").is_err());
    assert!(flowmaid::layout_advance("not json").is_err());
}

#[test]
fn routed_rejects_non_finite_positions() {
    assert!(check_routed_positions("A --> B", &bits(&[f64::NAN, 1.0, 2.0, 3.0])).is_err());
    assert!(check_routed_positions("A --> B", &bits(&[1.0, f64::INFINITY, 2.0, 3.0])).is_err());
    assert!(check_routed_positions("A --> B", &bits(&[1.0, 2.0, 3.0, 4.0])).is_ok());
}

#[test]
fn node_keys_lists_draggable_nodes_in_order() {
    assert_eq!(node_keys("flowchart TD\nA-->B\nB-->C").unwrap(), "A\nB\nC");
    assert_eq!(node_keys("classDiagram\nAnimal <|-- Dog\nAnimal <|-- Cat").unwrap(), "Animal\nDog\nCat");
    assert_eq!(node_keys("erDiagram\nusers ||--o{ posts : writes").unwrap(), "users\nposts");
    assert_eq!(node_keys("pie\n\"a\" : 1").unwrap(), "");
    assert_eq!(node_keys("sequenceDiagram\nA->>B: hi").unwrap(), "");
}

#[test]
fn parse_errors_agree_between_render_and_keys() {
    let bad = "gantt\nx";
    let e1 = render_svg(bad).unwrap_err();
    let e2 = node_keys(bad).unwrap_err();
    let e3 = check_routed_positions(bad, &[]).unwrap_err();
    assert_eq!(e1, e2);
    assert_eq!(e1, e3);
    assert!(e1.starts_with("line "));
    assert_eq!(e1, flowmaid::parser::parse_document(bad).unwrap_err().to_string());
}

#[test]
fn routed_count_messages() {
    let src = "flowchart TD\nA-->B";
    assert_eq!(
        check_routed_positions(src, &bits(&[1.0, 2.0])).unwrap_err(),
        "expected 4 coordinates for 2 nodes, got 2"
    );
    assert_eq!(
        check_routed_positions("pie\n\"a\" : 1", &bits(&[1.0, 2.0, 3.0])).unwrap_err(),
        "this diagram type is static (not draggable): pass an empty positions array, got 3 values"
    );
    assert_eq!(
        check_routed_positions(src, &bits(&[1.0, 2.0, f64::NEG_INFINITY, f64::NAN])).unwrap_err(),
        "position[2] is not a finite number"
    );
}

#[test]
fn render_svg_is_the_engine_svg() {
    let src = "flowchart TD\nA[Start] --> B[Done]";
    let svg = render_svg(src).unwrap();
    assert_eq!(svg, flowmaid::render_svg(src).unwrap());
    assert!(svg.starts_with("<svg"));
    assert_ne!(svg, src);
}

#[test]
fn render_advance_svg_reports_engine_message() {
    let e = render_advance_svg("not json").unwrap_err();
    assert_eq!(e, flowmaid::render_advance_svg("not json").unwrap_err().to_string());
    assert_ne!(e, "not json");
}

#[test]
fn layout_json_exact_text() {
    let layout = AdvanceLayout {
        width: "300.0".to_string(),
        height: "120.5".to_string(),
        lanes: vec![LaneLayout {
            id: "dev".to_string(),
            title: "Dev \"team\"".to_string(),
            x: "0.0".to_string(),
            y: "0.0".to_string(),
            w: "300.0".to_string(),
            h: "120.5".to_string(),
        }],
        nodes: vec![
            NodeLayout {
                id: "a".to_string(),
                label: "line1\nline2".to_string(),
                lane: "dev".to_string(),
                x: "50.0".to_string(),
                y: "60.0".to_string(),
                w: "80.0".to_string(),
                h: "40.0".to_string(),
                shape: Shape::Diamond,
            },
            NodeLayout {
                id: "b".to_string(),
                label: "B".to_string(),
                lane: "dev".to_string(),
                x: "150.0".to_string(),
                y: "60.0".to_string(),
                w: "80.0".to_string(),
                h: "40.0".to_string(),
                shape: Shape::ParallelogramAlt,
            },
        ],
        edges: vec![
            EdgeLayout {
                from: "a".to_string(),
                to: "b".to_string(),
                label: Some("go".to_string()),
                kind: EdgeKind::DottedOpen,
                points: vec![
                    ("90.0".to_string(), "60.0".to_string()),
                    ("110.0".to_string(), "-0.0".to_string()),
                ],
            },
            EdgeLayout {
                from: "b".to_string(),
                to: "a".to_string(),
                label: None,
                kind: EdgeKind::Arrow,
                points: vec![],
            },
        ],
    };
    let expected = [
        r#"{"width":300.0,"height":120.5,"#,
        r#""lanes":[{"id":"dev","title":"Dev \"team\"","x":0.0,"y":0.0,"w":300.0,"h":120.5}],"#,
        r#""nodes":[{"id":"a","label":"line1\nline2","lane":"dev","x":50.0,"y":60.0,"w":80.0,"h":40.0,"shape":"diamond"},"#,
        r#"{"id":"b","label":"B","lane":"dev","x":150.0,"y":60.0,"w":80.0,"h":40.0,"shape":"parallelogramalt"}],"#,
        r#""edges":[{"from":"a","to":"b","label":"go","kind":"dottedopen","points":[[90.0,60.0],[110.0,-0.0]]},"#,
        r#"{"from":"b","to":"a","label":null,"kind":"arrow","points":[]}]}"#,
    ]
    .join("");
    assert_eq!(advance_scene_to_json(&layout), expected);
}

#[test]
fn layout_json_of_empty_scene() {
    let layout = AdvanceLayout {
        width: "0.0".to_string(),
        height: "0.0".to_string(),
        lanes: vec![],
        nodes: vec![],
        edges: vec![],
    };
    assert_eq!(
        advance_scene_to_json(&layout),
        r#"{"width":0.0,"height":0.0,"lanes":[],"nodes":[],"edges":[]}"#
    );
}

#[test]
fn node_keys_split_into_one_key_per_node() {
    let keys = node_keys("flowchart LR\nstart --> check\ncheck --> done\ncheck --> start").unwrap();
    let pieces: Vec<&str> = keys.split('\n').collect();
    assert_eq!(pieces, vec!["start", "check", "done"]);
    let n = pieces.len();
    let positions = vec![10.0f64; 2 * n];
    assert!(check_routed_positions("flowchart LR\nstart --> check\ncheck --> done\ncheck --> start", &bits(&positions)).is_ok());
}

#[test]
fn node_keys_of_a_given_outline() {
    let keys = vec!["a".to_string(), "b c".to_string(), "d".to_string()];
    assert_eq!(node_keys_of(DiagramKind::Er, &keys), "a\nb c\nd");
    assert_eq!(node_keys_of(DiagramKind::State, &vec!["s".to_string()]), "s");
    assert_eq!(node_keys_of(DiagramKind::Pie, &keys), "");
    assert_eq!(node_keys_of(DiagramKind::Flowchart, &vec![]), "");
}

#[test]
fn positions_checked_for_a_given_outline() {
    assert!(check_positions_for(DiagramKind::Class, 2, &bits(&[1.0, 2.0, 3.0, 4.0])).is_ok());
    assert_eq!(
        check_positions_for(DiagramKind::Class, 2, &bits(&[1.0, 2.0, 3.0])).unwrap_err(),
        "expected 4 coordinates for 2 nodes, got 3"
    );
    assert_eq!(
        check_positions_for(DiagramKind::GitGraph, 0, &bits(&[1.0, 2.0])).unwrap_err(),
        "expected 0 coordinates for 0 nodes, got 2"
    );
    assert_eq!(
        check_positions_for(DiagramKind::Journey, 0, &bits(&[1.0])).unwrap_err(),
        "this diagram type is static (not draggable): pass an empty positions array, got 1 values"
    );
    assert_eq!(
        check_positions_for(DiagramKind::Flowchart, 1, &bits(&[f64::NAN, 1.0])).unwrap_err(),
        "position[0] is not a finite number"
    );
    assert!(check_positions_for(DiagramKind::Sankey, 0, &[]).is_ok());
}

#[test]
fn diagram_kinds_of_sources() {
    assert_eq!(diagram_kind("flowchart TD\nA-->B").unwrap(), DiagramKind::Flowchart);
    assert_eq!(diagram_kind("erDiagram\nA ||--o{ B : has").unwrap(), DiagramKind::Er);
    assert_eq!(diagram_kind("pie\n\"a\" : 1").unwrap(), DiagramKind::Pie);
    assert_eq!(diagram_kind("sequenceDiagram\nA->>B: hi").unwrap(), DiagramKind::Sequence);
    assert!(diagram_kind("gantt\nx").unwrap_err().starts_with("line "));
    assert!(diagram_kind("pie\n\"a\" : 1").unwrap().is_draggable() == false);
    assert!(diagram_kind("classDiagram\nA <|-- B").unwrap().is_draggable());
}

#[test]
fn node_keys_are_distinct_even_when_nodes_repeat() {
    let keys = node_keys("flowchart TD\nA-->B\nB-->A\nA-->A\nA[Again]").unwrap();
    assert_eq!(keys, "A\nB");
    let er = node_keys("erDiagram\nA ||--o{ B : has\nB ||--o{ A : owns").unwrap();
    assert_eq!(er, "A\nB");
}
