use flowmaid_web::diagram::is_finite_bits;
use flowmaid_web::json::json_escape;
use flowmaid_web::lockfile::engine_version_from_lock;
use flowmaid_web::scene::{edge_kind_name, shape_name, EdgeKind, Shape};
use flowmaid_web::text::decimal_string;

#[test]
fn json_escape_short_escapes() {
    assert_eq!(json_escape("a\"b\\c"), r#""a\"b\\c""#);
    assert_eq!(json_escape("\n\r\t\u{0008}\u{000c}"), r#""\n\r\t\b\f""#);
    assert_eq!(json_escape(""), "\"\"");
}

#[test]
fn json_escape_control_characters_in_lowercase_hex() {
    assert_eq!(json_escape("\u{0000}"), r#""\u0000""#);
    assert_eq!(json_escape("\u{001f}"), r#""\u001f""#);
    assert_eq!(json_escape("\u{000b}x"), r#""\u000bx""#);
    assert_eq!(json_escape("\u{001a}"), r#""\u001a""#);
}

#[test]
fn json_escape_keeps_other_characters() {
    assert_eq!(json_escape("héllo / wörld 😀 \u{7f}"), "\"héllo / wörld 😀 \u{7f}\"");
}

#[test]
fn decimal_text() {
    assert_eq!(decimal_string(0), "0");
    assert_eq!(decimal_string(7), "7");
    assert_eq!(decimal_string(10), "10");
    assert_eq!(decimal_string(1234567890), "1234567890");
    assert_eq!(decimal_string(u128::MAX), u128::MAX.to_string());
}

#[test]
fn shape_and_edge_names() {
    assert_eq!(shape_name(Shape::Rect), "rect");
    assert_eq!(shape_name(Shape::DoubleCircle), "doublecircle");
    assert_eq!(shape_name(Shape::ParallelogramAlt), "parallelogramalt");
    assert_eq!(shape_name(Shape::ForkBar), "forkbar");
    assert_eq!(edge_kind_name(EdgeKind::ThickOpen), "thickopen");
    assert_eq!(edge_kind_name(EdgeKind::Invisible), "invisible");
    assert_eq!(
        shape_name(Shape::StateStart),
        flowmaid::shape_name(flowmaid::model::Shape::StateStart)
    );
    assert_eq!(
        edge_kind_name(EdgeKind::DottedOpen),
        flowmaid::edge_kind_name(flowmaid::model::EdgeKind::DottedOpen)
    );
}

#[test]
fn finiteness_from_bits() {
    for v in [0.0f64, -0.0, 1.5, -1e300, f64::MAX, f64::MIN_POSITIVE, 5e-324] {
        assert!(is_finite_bits(v.to_bits()));
    }
    for v in [f64::NAN, f64::INFINITY, f64::NEG_INFINITY, -f64::NAN] {
        assert!(!is_finite_bits(v.to_bits()));
    }
}

#[test]
fn engine_version_found_in_lock() {
    let lock = "# comment\nversion = 3\n\n[[package]]\nname = \"cfg-if\"\nversion = \"1.0.0\"\n\n[[package]]\nname = \"flowmaid\"\nversion = \"0.33.0\"\nsource = \"registry\"\n";
    assert_eq!(engine_version_from_lock(lock), "0.33.0");
}

#[test]
fn engine_version_unknown_without_entry() {
    assert_eq!(engine_version_from_lock(""), "unknown");
    let lock = "[[package]]\nname = \"other\"\nversion = \"1.0.0\"\n";
    assert_eq!(engine_version_from_lock(lock), "unknown");
}

#[test]
fn engine_version_entry_ends_at_next_package() {
    let lock = "[[package]]\nname = \"flowmaid\"\n[[package]]\nname = \"x\"\nversion = \"9.9.9\"\n";
    assert_eq!(engine_version_from_lock(lock), "unknown");
}

#[test]
fn engine_version_trims_keys_quotes_and_spaces() {
    let lock = "[[package]]\r\n  name = \"flowmaid\"  \r\n\tversion = version = \"\"0.4.0\"\r\n";
    assert_eq!(engine_version_from_lock(lock), "0.4.0");
}
