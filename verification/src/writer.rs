use vstd::prelude::*;

use crate::value::JsonValue;
use crate::value::scalar_text;
use crate::value::key_count;
use crate::value::key_count_pairs;
use crate::value::key_count_elems;
use crate::value::keys_ok;
use crate::value::keys_ok_pairs;
use crate::value::keys_ok_elems;
use crate::value::key_ok;
use crate::grid::spaces;
use crate::grid::rows_view;
use crate::grid::is_first_at;
use crate::grid::wf_row;
use crate::grid::clone_chars;
use crate::grid::append_chars;

verus! {

/// The separator written between a key and its scalar value.
pub open spec fn sep() -> Seq<char> {
    seq![':', ' ']
}

/// A scalar is the value half of the most recently written key's row: it
/// appends the separator and its canonical text to the last line.  With no
/// line to attach to it writes nothing (the renderer rejects such roots).
pub open spec fn append_scalar(rows: Seq<Seq<char>>, t: Seq<char>) -> Seq<Seq<char>> {
    if rows.len() == 0 {
        rows
    } else {
        rows.update(rows.len() - 1, rows.last() + sep() + t)
    }
}

/// The fill pass, one value: lines produced so far are `rows`, keys of this
/// value (if it is an object) are indented by the all-space prefix `pre`.
///
/// An object appends one line per key, then fills the key's value indented
/// three further columns.  An array is transparent: its elements are filled
/// at the array's own position.  A scalar extends the last line.
pub open spec fn fill(v: JsonValue, pre: Seq<char>, rows: Seq<Seq<char>>) -> Seq<Seq<char>>
    decreases v, 0int,
{
    match v {
        JsonValue::Object(ps) => fill_pairs(ps, 0, pre, rows),
        JsonValue::Array(es) => fill_elems(es, 0, pre, rows),
        _ => append_scalar(rows, scalar_text(v)),
    }
}

pub open spec fn fill_pairs(
    ps: Vec<(Vec<char>, JsonValue)>,
    i: int,
    pre: Seq<char>,
    rows: Seq<Seq<char>>,
) -> Seq<Seq<char>>
    decreases ps, ps@.len() - i,
{
    if 0 <= i < ps@.len() {
        fill_pairs(ps, i + 1, pre, fill(ps@[i].1, pre + spaces(3), rows.push(pre + ps@[i].0@)))
    } else {
        rows
    }
}

pub open spec fn fill_elems(
    es: Vec<JsonValue>,
    i: int,
    pre: Seq<char>,
    rows: Seq<Seq<char>>,
) -> Seq<Seq<char>>
    decreases es, es@.len() - i,
{
    if 0 <= i < es@.len() {
        fill_elems(es, i + 1, pre, fill(es@[i], pre, rows))
    } else {
        rows
    }
}

/// All the lines of a document: the fill pass run from an empty line store,
/// with the root object's keys indented by the three-column connector
/// margin.
pub open spec fn doc_lines(v: JsonValue) -> Seq<Seq<char>> {
    fill(v, spaces(3), Seq::empty())
}

fn write_value(v: &JsonValue, pre: &mut Vec<char>, rows: &mut Vec<Vec<char>>)
    requires
        *v is Object || old(rows)@.len() > 0,
    ensures
        rows_view(final(rows)@) == fill(*v, old(pre)@, rows_view(old(rows)@)),
        final(pre)@ == old(pre)@,
        final(rows)@.len() >= old(rows)@.len(),
    decreases *v, 0int,
{
    match v {
        JsonValue::Object(ps) => write_pairs(ps, 0, pre, rows),
        JsonValue::Array(es) => write_elems(es, 0, pre, rows),
        _ => {
            let last = rows.len() - 1;
            let mut row = clone_chars(&rows[last]);
            row.push(':');
            row.push(' ');
            match v {
                JsonValue::Text(s) => append_chars(&mut row, s),
                JsonValue::Number(s) => append_chars(&mut row, s),
                JsonValue::Bool(b) => {
                    if *b {
                        row.push('t');
                        row.push('r');
                        row.push('u');
                        row.push('e');
                    } else {
                        row.push('f');
                        row.push('a');
                        row.push('l');
                        row.push('s');
                        row.push('e');
                    }
                },
                JsonValue::Null => {
                    row.push('n');
                    row.push('u');
                    row.push('l');
                    row.push('l');
                },
                _ => {
                    proof {
                        assert(false);
                    }
                },
            }
            proof {
                assert(row@ =~= rows_view(old(rows)@).last() + sep() + scalar_text(*v));
            }
            rows.set(last, row);
            proof {
                assert(rows_view(rows@) =~= append_scalar(
                    rows_view(old(rows)@),
                    scalar_text(*v),
                ));
            }
        },
    }
}

fn write_pairs(
    ps: &Vec<(Vec<char>, JsonValue)>,
    i: usize,
    pre: &mut Vec<char>,
    rows: &mut Vec<Vec<char>>,
)
    requires
        i <= ps@.len(),
    ensures
        rows_view(final(rows)@) == fill_pairs(*ps, i as int, old(pre)@, rows_view(old(rows)@)),
        final(pre)@ == old(pre)@,
        final(rows)@.len() >= old(rows)@.len(),
    decreases *ps, ps@.len() - i,
{
    if i < ps.len() {
        let pair = &ps[i];
        let mut row = clone_chars(pre);
        append_chars(&mut row, &pair.0);
        rows.push(row);
        proof {
            assert(rows_view(rows@) =~= rows_view(old(rows)@).push(
                old(pre)@ + ps@[i as int].0@,
            ));
        }
        pre.push(' ');
        pre.push(' ');
        pre.push(' ');
        proof {
            assert(pre@ =~= old(pre)@ + spaces(3));
        }
        write_value(&pair.1, pre, rows);
        let _ = pre.pop();
        let _ = pre.pop();
        let _ = pre.pop();
        proof {
            assert(pre@ =~= old(pre)@);
        }
        write_pairs(ps, i + 1, pre, rows);
    }
}

fn write_elems(es: &Vec<JsonValue>, i: usize, pre: &mut Vec<char>, rows: &mut Vec<Vec<char>>)
    requires
        i <= es@.len(),
        old(rows)@.len() > 0,
    ensures
        rows_view(final(rows)@) == fill_elems(*es, i as int, old(pre)@, rows_view(old(rows)@)),
        final(pre)@ == old(pre)@,
        final(rows)@.len() >= old(rows)@.len(),
    decreases *es, es@.len() - i,
{
    if i < es.len() {
        write_value(&es[i], pre, rows);
        write_elems(es, i + 1, pre, rows);
    }
}

/// The fill pass for a whole document: one line per object key, in
/// traversal order, each carrying its indentation, key text, and any
/// scalar values attached to it.
pub fn write_lines(v: &JsonValue) -> (lines: Vec<Vec<char>>)
    requires
        *v is Object,
    ensures
        rows_view(lines@) == doc_lines(*v),
{
    let mut pre: Vec<char> = Vec::new();
    pre.push(' ');
    pre.push(' ');
    pre.push(' ');
    proof {
        assert(pre@ =~= spaces(3));
    }
    let mut rows: Vec<Vec<char>> = Vec::new();
    proof {
        assert(rows_view(rows@) =~= Seq::<Seq<char>>::empty());
    }
    write_value(v, &mut pre, &mut rows);
    rows
}

/// Every line in the store is well formed.
pub open spec fn all_rows_wf(rows: Seq<Seq<char>>) -> bool {
    forall|i: int| 0 <= i < rows.len() ==> wf_row(#[trigger] rows[i])
}

/// An indentation prefix: all spaces, a whole number of three-column
/// stops, at least the connector margin.
pub open spec fn pre_wf(pre: Seq<char>) -> bool {
    &&& pre.len() >= 3
    &&& pre.len() % 3 == 0
    &&& forall|j: int| 0 <= j < pre.len() ==> pre[j] == ' '
}

/// The fill pass appends exactly `key_count` lines: one per object key,
/// none for array elements or scalars.
pub proof fn lemma_fill_count(v: JsonValue, pre: Seq<char>, rows: Seq<Seq<char>>)
    ensures
        fill(v, pre, rows).len() == rows.len() + key_count(v),
    decreases v, 0int,
{
    match v {
        JsonValue::Object(ps) => lemma_fill_count_pairs(ps, 0, pre, rows),
        JsonValue::Array(es) => lemma_fill_count_elems(es, 0, pre, rows),
        _ => {},
    }
}

proof fn lemma_fill_count_pairs(
    ps: Vec<(Vec<char>, JsonValue)>,
    i: int,
    pre: Seq<char>,
    rows: Seq<Seq<char>>,
)
    ensures
        fill_pairs(ps, i, pre, rows).len() == rows.len() + key_count_pairs(ps, i),
    decreases ps, ps@.len() - i,
{
    if 0 <= i < ps@.len() {
        let rows1 = rows.push(pre + ps@[i].0@);
        lemma_fill_count(ps@[i].1, pre + spaces(3), rows1);
        lemma_fill_count_pairs(ps, i + 1, pre, fill(ps@[i].1, pre + spaces(3), rows1));
    }
}

proof fn lemma_fill_count_elems(es: Vec<JsonValue>, i: int, pre: Seq<char>, rows: Seq<Seq<char>>)
    ensures
        fill_elems(es, i, pre, rows).len() == rows.len() + key_count_elems(es, i),
    decreases es, es@.len() - i,
{
    if 0 <= i < es@.len() {
        lemma_fill_count(es@[i], pre, rows);
        lemma_fill_count_elems(es, i + 1, pre, fill(es@[i], pre, rows));
    }
}

/// The number of lines a document renders to equals the number of its
/// object keys, walked recursively with arrays flattened.
pub proof fn lemma_doc_line_count(v: JsonValue)
    ensures
        doc_lines(v).len() == key_count(v),
{
    lemma_fill_count(v, spaces(3), Seq::empty());
}

/// The fill pass only appends well-formed lines and keeps existing lines
/// well formed: every line's key text begins at its indentation stop.
pub proof fn lemma_fill_wf(v: JsonValue, pre: Seq<char>, rows: Seq<Seq<char>>)
    requires
        keys_ok(v),
        pre_wf(pre),
        all_rows_wf(rows),
    ensures
        all_rows_wf(fill(v, pre, rows)),
    decreases v, 0int,
{
    match v {
        JsonValue::Object(ps) => lemma_fill_wf_pairs(ps, 0, pre, rows),
        JsonValue::Array(es) => lemma_fill_wf_elems(es, 0, pre, rows),
        _ => {
            if rows.len() > 0 {
                let r2 = append_scalar(rows, scalar_text(v));
                assert(wf_row(rows.last()));
                let d = choose|d: int| is_first_at(rows.last(), d);
                assert(is_first_at(rows.last() + sep() + scalar_text(v), d));
                assert forall|i: int| 0 <= i < r2.len() implies wf_row(#[trigger] r2[i]) by {
                    if i == rows.len() - 1 {
                        assert(is_first_at(r2[i], d));
                    } else {
                        assert(r2[i] == rows[i]);
                    }
                }
            }
        },
    }
}

proof fn lemma_fill_wf_pairs(
    ps: Vec<(Vec<char>, JsonValue)>,
    i: int,
    pre: Seq<char>,
    rows: Seq<Seq<char>>,
)
    requires
        keys_ok_pairs(ps, i),
        pre_wf(pre),
        all_rows_wf(rows),
    ensures
        all_rows_wf(fill_pairs(ps, i, pre, rows)),
    decreases ps, ps@.len() - i,
{
    if 0 <= i < ps@.len() {
        let newrow = pre + ps@[i].0@;
        assert(key_ok(ps@[i].0@));
        assert(is_first_at(newrow, pre.len() as int)) by {
            assert(newrow[pre.len() as int] == ps@[i].0@[0]);
            assert(forall|j: int| 0 <= j < pre.len() ==> newrow[j] == pre[j]);
        }
        let rows1 = rows.push(newrow);
        assert forall|k: int| 0 <= k < rows1.len() implies wf_row(#[trigger] rows1[k]) by {
            if k == rows.len() {
                assert(is_first_at(newrow, pre.len() as int));
            } else {
                assert(rows1[k] == rows[k]);
            }
        }
        let pre1 = pre + spaces(3);
        assert(pre_wf(pre1)) by {
            assert(forall|j: int| 0 <= j < pre1.len() ==> pre1[j] == ' ');
        }
        lemma_fill_wf(ps@[i].1, pre1, rows1);
        lemma_fill_wf_pairs(ps, i + 1, pre, fill(ps@[i].1, pre1, rows1));
    }
}

proof fn lemma_fill_wf_elems(es: Vec<JsonValue>, i: int, pre: Seq<char>, rows: Seq<Seq<char>>)
    requires
        keys_ok_elems(es, i),
        pre_wf(pre),
        all_rows_wf(rows),
    ensures
        all_rows_wf(fill_elems(es, i, pre, rows)),
    decreases es, es@.len() - i,
{
    if 0 <= i < es@.len() {
        lemma_fill_wf(es@[i], pre, rows);
        lemma_fill_wf_elems(es, i + 1, pre, fill(es@[i], pre, rows));
    }
}

/// Every line of a document whose keys anchor their rows is well formed.
pub proof fn lemma_doc_lines_wf(v: JsonValue)
    requires
        keys_ok(v),
    ensures
        all_rows_wf(doc_lines(v)),
{
    assert(pre_wf(spaces(3)));
    lemma_fill_wf(v, spaces(3), Seq::empty());
}

} // verus!
