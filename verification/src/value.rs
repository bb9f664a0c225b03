use vstd::prelude::*;

verus! {

/// A JSON document, already parsed and materialized in memory.
///
/// Objects are ordered mappings whose insertion order is preserved; arrays
/// are ordered sequences.  String and number scalars carry their canonical
/// single-line text (for strings, the text without surrounding quotes).
pub enum JsonValue {
    Object(Vec<(Vec<char>, JsonValue)>),
    Array(Vec<JsonValue>),
    Text(Vec<char>),
    Number(Vec<char>),
    Bool(bool),
    Null,
}

/// The canonical text of a scalar: strings and numbers as their stored
/// text, booleans and null as their literal text.
pub open spec fn scalar_text(v: JsonValue) -> Seq<char> {
    match v {
        JsonValue::Text(s) => s@,
        JsonValue::Number(s) => s@,
        JsonValue::Bool(b) => if b {
            seq!['t', 'r', 'u', 'e']
        } else {
            seq!['f', 'a', 'l', 's', 'e']
        },
        JsonValue::Null => seq!['n', 'u', 'l', 'l'],
        _ => Seq::empty(),
    }
}

/// The exact number of grid rows a document demands: one per object key,
/// recursively, where array elements are walked but add no row of their
/// own (arrays are transparent).
pub open spec fn key_count(v: JsonValue) -> nat
    decreases v, 0int,
{
    match v {
        JsonValue::Object(ps) => key_count_pairs(ps, 0),
        JsonValue::Array(es) => key_count_elems(es, 0),
        _ => 0,
    }
}

pub open spec fn key_count_pairs(ps: Vec<(Vec<char>, JsonValue)>, i: int) -> nat
    decreases ps, ps@.len() - i,
{
    if 0 <= i < ps@.len() {
        1 + key_count(ps@[i].1) + key_count_pairs(ps, i + 1)
    } else {
        0
    }
}

pub open spec fn key_count_elems(es: Vec<JsonValue>, i: int) -> nat
    decreases es, es@.len() - i,
{
    if 0 <= i < es@.len() {
        key_count(es@[i]) + key_count_elems(es, i + 1)
    } else {
        0
    }
}

/// A key can anchor a row only if its text starts with a visible character:
/// the decoration pass finds each row's key by its first non-space column.
pub open spec fn key_ok(k: Seq<char>) -> bool {
    k.len() > 0 && k[0] != ' '
}

/// Every object key in the document, at every nesting level, anchors a row.
pub open spec fn keys_ok(v: JsonValue) -> bool
    decreases v, 0int,
{
    match v {
        JsonValue::Object(ps) => keys_ok_pairs(ps, 0),
        JsonValue::Array(es) => keys_ok_elems(es, 0),
        _ => true,
    }
}

pub open spec fn keys_ok_pairs(ps: Vec<(Vec<char>, JsonValue)>, i: int) -> bool
    decreases ps, ps@.len() - i,
{
    if 0 <= i < ps@.len() {
        key_ok(ps@[i].0@) && keys_ok(ps@[i].1) && keys_ok_pairs(ps, i + 1)
    } else {
        true
    }
}

pub open spec fn keys_ok_elems(es: Vec<JsonValue>, i: int) -> bool
    decreases es, es@.len() - i,
{
    if 0 <= i < es@.len() {
        keys_ok(es@[i]) && keys_ok_elems(es, i + 1)
    } else {
        true
    }
}

/// A document the renderer accepts: an object with at least one key (a bare
/// scalar or array at the root has no row to attach to), all of whose keys
/// anchor their rows.
pub open spec fn renderable(v: JsonValue) -> bool {
    &&& v is Object
    &&& v->Object_0@.len() > 0
    &&& keys_ok(v)
}

/// Checks `keys_ok` for a whole document.
pub fn check_keys(v: &JsonValue) -> (r: bool)
    ensures
        r == keys_ok(*v),
    decreases *v, 0int,
{
    match v {
        JsonValue::Object(ps) => check_keys_pairs(ps, 0),
        JsonValue::Array(es) => check_keys_elems(es, 0),
        _ => true,
    }
}

fn check_keys_pairs(ps: &Vec<(Vec<char>, JsonValue)>, i: usize) -> (r: bool)
    ensures
        r == keys_ok_pairs(*ps, i as int),
    decreases *ps, ps@.len() - i,
{
    if i >= ps.len() {
        true
    } else {
        let pair = &ps[i];
        if pair.0.len() == 0 || pair.0[0] == ' ' {
            false
        } else if !check_keys(&pair.1) {
            false
        } else {
            check_keys_pairs(ps, i + 1)
        }
    }
}

fn check_keys_elems(es: &Vec<JsonValue>, i: usize) -> (r: bool)
    ensures
        r == keys_ok_elems(*es, i as int),
    decreases *es, es@.len() - i,
{
    if i >= es.len() {
        true
    } else if !check_keys(&es[i]) {
        false
    } else {
        check_keys_elems(es, i + 1)
    }
}

/// Checks that a value is renderable as a whole document.
pub fn check_renderable(v: &JsonValue) -> (r: bool)
    ensures
        r == renderable(*v),
{
    match v {
        JsonValue::Object(ps) => ps.len() > 0 && check_keys(v),
        _ => false,
    }
}

} // verus!
