use json_explorer::value::JsonValue;
use json_explorer::render::render_doc;
use json_explorer::render::parse_style;
use json_explorer::render::RenderError;
use json_explorer::render::Style;
use json_explorer::icon::Icon;
use json_explorer::sizer::size;

fn chars(s: &str) -> Vec<char> {
    s.chars().collect()
}

fn one_key() -> JsonValue {
    JsonValue::Object(vec![(chars("a"), JsonValue::Number(chars("1")))])
}

#[test]
fn unsupported_style_is_reported() {
    let r = render_doc(&one_key(), "unknown_style", "pokerface");
    assert_eq!(r.unwrap_err(), RenderError::UnsupportedStyle);
}

#[test]
fn unknown_icon_family_is_reported() {
    let r = render_doc(&one_key(), "tree", "unknown_family");
    assert_eq!(r.unwrap_err(), RenderError::UnknownIconFamily);
}

#[test]
fn icon_family_is_resolved_before_style() {
    let r = render_doc(&one_key(), "unknown_style", "unknown_family");
    assert_eq!(r.unwrap_err(), RenderError::UnknownIconFamily);
}

#[test]
fn bare_scalar_root_is_unrenderable() {
    let r = render_doc(&JsonValue::Number(chars("1")), "tree", "pokerface");
    assert_eq!(r.unwrap_err(), RenderError::UnrenderableRoot);
}

#[test]
fn bare_array_root_is_unrenderable() {
    let v = JsonValue::Array(vec![JsonValue::Number(chars("1"))]);
    let r = render_doc(&v, "tree", "pokerface");
    assert_eq!(r.unwrap_err(), RenderError::UnrenderableRoot);
}

#[test]
fn empty_object_root_is_unrenderable() {
    let r = render_doc(&JsonValue::Object(vec![]), "tree", "pokerface");
    assert_eq!(r.unwrap_err(), RenderError::UnrenderableRoot);
}

#[test]
fn empty_key_is_unrenderable() {
    let v = JsonValue::Object(vec![(chars(""), JsonValue::Number(chars("1")))]);
    let r = render_doc(&v, "tree", "pokerface");
    assert_eq!(r.unwrap_err(), RenderError::UnrenderableRoot);
}

#[test]
fn key_starting_with_space_is_unrenderable() {
    let v = JsonValue::Object(vec![
        (chars("a"), JsonValue::Object(vec![(chars(" b"), JsonValue::Number(chars("1")))])),
    ]);
    let r = render_doc(&v, "tree", "pokerface");
    assert_eq!(r.unwrap_err(), RenderError::UnrenderableRoot);
}

#[test]
fn parse_style_recognizes_both_styles() {
    assert_eq!(parse_style("tree").unwrap(), Style::Tree);
    assert_eq!(parse_style("rectangle").unwrap(), Style::Rectangle);
    assert_eq!(parse_style("boxy").unwrap_err(), RenderError::UnsupportedStyle);
}

#[test]
fn icon_new_resolves_registered_families() {
    let p = Icon::new("pokerface").unwrap();
    assert_eq!(p.non_leaf_icon, '♢');
    assert_eq!(p.leaf_icon, '♤');
    let h = Icon::new("heart").unwrap();
    assert_eq!(h.non_leaf_icon, '♥');
    assert_eq!(h.leaf_icon, '♦');
}

#[test]
fn icon_new_rejects_unknown_family() {
    assert_eq!(Icon::new("spade").unwrap_err(), RenderError::UnknownIconFamily);
}

#[test]
fn icon_get_looks_up_the_registry() {
    let icon = Icon::new("pokerface").unwrap();
    assert_eq!(icon._get("pokerface"), Some(('♢', '♤')));
    assert_eq!(icon._get("heart"), Some(('♥', '♦')));
    assert_eq!(icon._get("clubs"), None);
}

#[test]
fn sizer_reports_exact_dimensions() {
    // One key, line "   a: 1" of seven columns, plus the gap and border.
    assert_eq!(size(&one_key()).unwrap(), (1, 9));
    // Two keys, longest line "      b: 2" of ten columns.
    let v = JsonValue::Object(vec![
        (
            chars("a"),
            JsonValue::Object(vec![(chars("b"), JsonValue::Number(chars("2")))]),
        ),
    ]);
    assert_eq!(size(&v).unwrap(), (2, 12));
}

#[test]
fn sizer_rejects_unrenderable_roots() {
    assert_eq!(size(&JsonValue::Null).unwrap_err(), RenderError::UnrenderableRoot);
}
