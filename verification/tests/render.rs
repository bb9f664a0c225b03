use json_explorer::value::JsonValue;
use json_explorer::render::render_doc;
use json_explorer::render::render;
use json_explorer::render::Style;
use json_explorer::icon::Icon;

fn chars(s: &str) -> Vec<char> {
    s.chars().collect()
}

fn obj(pairs: Vec<(&str, JsonValue)>) -> JsonValue {
    JsonValue::Object(pairs.into_iter().map(|(k, v)| (chars(k), v)).collect())
}

fn num(s: &str) -> JsonValue {
    JsonValue::Number(chars(s))
}

fn lines_of(rows: Vec<Vec<char>>) -> Vec<String> {
    rows.into_iter().map(|r| r.into_iter().collect()).collect()
}

#[test]
fn tree_single_scalar_key() {
    let v = obj(vec![("a", num("1"))]);
    let rows = render_doc(&v, "tree", "pokerface").unwrap();
    let lines = lines_of(rows);
    assert_eq!(lines, vec!["└─♤a: 1  ".to_string()]);
    assert!(lines[0].contains('♤'));
    assert!(lines[0].contains("a: 1"));
}

#[test]
fn tree_nested_object() {
    let v = obj(vec![("a", obj(vec![("b", num("2"))]))]);
    let lines = lines_of(render_doc(&v, "tree", "pokerface").unwrap());
    assert_eq!(lines.len(), 2);
    assert_eq!(lines[0], "└─♢a        ");
    assert_eq!(lines[1], "   └─♤b: 2  ");
}

#[test]
fn tree_array_elements_attach_to_key_row() {
    let v = obj(vec![("a", JsonValue::Array(vec![num("1"), num("2")]))]);
    let lines = lines_of(render_doc(&v, "tree", "pokerface").unwrap());
    assert_eq!(lines, vec!["└─♤a: 1: 2  ".to_string()]);
}

#[test]
fn tree_two_levels_and_sibling() {
    let inner = obj(vec![("c", num("1"))]);
    let v = obj(vec![("a", obj(vec![("b", inner)])), ("d", num("2"))]);
    let lines = lines_of(render_doc(&v, "tree", "pokerface").unwrap());
    assert_eq!(lines.len(), 4);
    assert_eq!(lines[0], "├─♢a           ");
    assert_eq!(lines[1], "│  └─♢b        ");
    assert_eq!(lines[2], "│     └─♤c: 1  ");
    assert_eq!(lines[3], "└─♤d: 2        ");
}

#[test]
fn tree_heart_icons() {
    let v = obj(vec![("a", num("1"))]);
    let lines = lines_of(render_doc(&v, "tree", "heart").unwrap());
    assert_eq!(lines, vec!["└─♦a: 1  ".to_string()]);
    let v2 = obj(vec![("a", obj(vec![("b", num("2"))]))]);
    let lines2 = lines_of(render_doc(&v2, "tree", "heart").unwrap());
    assert_eq!(lines2[0], "└─♥a        ");
}

#[test]
fn tree_scalar_kinds() {
    let v = obj(vec![
        ("t", JsonValue::Bool(true)),
        ("f", JsonValue::Bool(false)),
        ("n", JsonValue::Null),
        ("s", JsonValue::Text(chars("x"))),
    ]);
    let lines = lines_of(render_doc(&v, "tree", "pokerface").unwrap());
    assert_eq!(lines.len(), 4);
    assert_eq!(lines[0], "├─♤t: true   ");
    assert_eq!(lines[1], "├─♤f: false  ");
    assert_eq!(lines[2], "├─♤n: null   ");
    assert_eq!(lines[3], "└─♤s: x      ");
}

#[test]
fn tree_empty_container_value_renders_bare_key() {
    let v = obj(vec![("a", JsonValue::Object(vec![]))]);
    let lines = lines_of(render_doc(&v, "tree", "pokerface").unwrap());
    assert_eq!(lines, vec!["└─♤a  ".to_string()]);
    let v2 = obj(vec![("a", JsonValue::Array(vec![]))]);
    let lines2 = lines_of(render_doc(&v2, "tree", "pokerface").unwrap());
    assert_eq!(lines2, vec!["└─♤a  ".to_string()]);
}

#[test]
fn rendering_twice_is_identical() {
    let v = obj(vec![("a", obj(vec![("b", num("2"))])), ("c", num("3"))]);
    let first = lines_of(render_doc(&v, "tree", "pokerface").unwrap());
    let second = lines_of(render_doc(&v, "tree", "pokerface").unwrap());
    assert_eq!(first, second);
    let r1 = lines_of(render_doc(&v, "rectangle", "heart").unwrap());
    let r2 = lines_of(render_doc(&v, "rectangle", "heart").unwrap());
    assert_eq!(r1, r2);
}

#[test]
fn line_count_equals_flattened_key_count() {
    // Keys: a, b, c, d and the two object elements' keys x, y; array
    // elements themselves add no row.
    let v = obj(vec![
        ("a", obj(vec![("b", num("1")), ("c", num("2"))])),
        (
            "d",
            JsonValue::Array(vec![
                obj(vec![("x", num("3"))]),
                obj(vec![("y", num("4"))]),
                num("5"),
            ]),
        ),
    ]);
    let lines = lines_of(render_doc(&v, "tree", "pokerface").unwrap());
    assert_eq!(lines.len(), 6);
}

#[test]
fn rectangle_frame_and_body() {
    let v = obj(vec![("a", obj(vec![("b", num("2"))])), ("c", num("3"))]);
    let lines = lines_of(render_doc(&v, "rectangle", "pokerface").unwrap());
    assert_eq!(lines.len(), 3);
    assert_eq!(lines[0], "┌─♢a───────┐");
    assert_eq!(lines[1], "│  ├─♤b: 2 ┤");
    assert_eq!(lines[2], "└─♤c:─3 ───┘");
}

#[test]
fn rectangle_corner_glyphs() {
    let v = obj(vec![("first", num("1")), ("second", num("2")), ("third", num("3"))]);
    let lines = lines_of(render_doc(&v, "rectangle", "pokerface").unwrap());
    let top: Vec<char> = lines[0].chars().collect();
    let bottom: Vec<char> = lines[lines.len() - 1].chars().collect();
    assert_eq!(top[0], '┌');
    assert_eq!(top[top.len() - 1], '┐');
    assert_eq!(bottom[0], '└');
    assert_eq!(bottom[bottom.len() - 1], '┘');
}

#[test]
fn deep_nesting_stays_within_capacity() {
    let mut v = num("0");
    for depth in 1..=10 {
        let name = format!("k{}", depth);
        v = obj(vec![(&name, v)]);
    }
    let lines = lines_of(render_doc(&v, "tree", "pokerface").unwrap());
    assert_eq!(lines.len(), 10);
    let rect = lines_of(render_doc(&v, "rectangle", "pokerface").unwrap());
    assert_eq!(rect.len(), 10);
}

#[test]
fn render_takes_parsed_style_and_icon() {
    let v = obj(vec![("a", num("1"))]);
    let icon = Icon::new("pokerface").unwrap();
    let rows = render(&v, Style::Tree, &icon).unwrap();
    let lines = lines_of(rows);
    assert_eq!(lines, vec!["└─♤a: 1  ".to_string()]);
}

#[test]
fn rectangle_right_edge_tees() {
    let v = obj(vec![("a", num("1")), ("b", num("2")), ("c", num("3"))]);
    let lines = lines_of(render_doc(&v, "rectangle", "pokerface").unwrap());
    assert_eq!(lines.len(), 3);
    let middle: Vec<char> = lines[1].chars().collect();
    assert_eq!(middle[middle.len() - 1], '┤');
}
