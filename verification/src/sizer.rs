use vstd::prelude::*;

use crate::value::JsonValue;
use crate::value::key_count;
use crate::value::renderable;
use crate::value::check_renderable;
use crate::writer::doc_lines;
use crate::writer::write_lines;
use crate::writer::lemma_doc_line_count;
use crate::render::RenderError;
use crate::grid::rows_view;

verus! {

/// Greatest length among the first `n` lines.
pub open spec fn max_len_upto(rows: Seq<Seq<char>>, n: int) -> int
    decreases n,
{
    if n <= 0 {
        0
    } else {
        let prev = max_len_upto(rows, n - 1);
        if rows[n - 1].len() > prev {
            rows[n - 1].len() as int
        } else {
            prev
        }
    }
}

/// Greatest line length of the whole store.
pub open spec fn max_line_len(rows: Seq<Seq<char>>) -> int {
    max_len_upto(rows, rows.len() as int)
}

pub proof fn lemma_max_len_bound(rows: Seq<Seq<char>>, i: int, n: int)
    requires
        0 <= i < n <= rows.len(),
    ensures
        rows[i].len() <= max_len_upto(rows, n),
    decreases n,
{
    if i < n - 1 {
        lemma_max_len_bound(rows, i, n - 1);
    }
}

/// The number of rows the grid needs: one per object key.
pub open spec fn grid_rows(v: JsonValue) -> int {
    doc_lines(v).len() as int
}

/// The number of columns the grid needs: the longest line, plus a gap
/// column and a border column on the right.
pub open spec fn grid_width(v: JsonValue) -> int {
    max_line_len(doc_lines(v)) + 2
}

/// The greatest line length of a concrete line store.
#[verifier::loop_isolation(false)]
fn max_width(lines: &Vec<Vec<char>>) -> (m: usize)
    ensures
        m == max_len_upto(rows_view(lines@), lines@.len() as int),
{
    let mut m: usize = 0;
    let n = lines.len();
    for i in 0..n
        invariant
            m == max_len_upto(rows_view(lines@), i as int),
    {
        let l = lines[i].len();
        proof {
            assert(rows_view(lines@)[i as int].len() == l);
        }
        if l > m {
            m = l;
        }
    }
    m
}

/// The sizing pass: determines the grid's row count and column width for a
/// document, by the same traversal rules the fill pass uses.
pub fn size(v: &JsonValue) -> (r: Result<(usize, usize), RenderError>)
    ensures
        !renderable(*v) ==> r == Err::<(usize, usize), RenderError>(RenderError::UnrenderableRoot),
        renderable(*v) && grid_width(*v) > usize::MAX ==> r == Err::<(usize, usize), RenderError>(
            RenderError::TooLarge,
        ),
        renderable(*v) && grid_width(*v) <= usize::MAX ==> r == Ok::<(usize, usize), RenderError>(
            (key_count(*v) as usize, grid_width(*v) as usize),
        ),
        r is Ok <==> renderable(*v) && grid_width(*v) <= usize::MAX,
{
    if !check_renderable(v) {
        return Err(RenderError::UnrenderableRoot);
    }
    let lines = write_lines(v);
    let m = max_width(&lines);
    proof {
        lemma_doc_line_count(*v);
    }
    match m.checked_add(2) {
        Some(w) => Ok((lines.len(), w)),
        None => Err(RenderError::TooLarge),
    }
}

/// Capacity consistency of the sizing and fill passes: every line the fill
/// pass produces fits strictly within the sized grid's width, leaving the
/// gap and border columns free, and the line count equals the sized row
/// count.
pub proof fn lemma_size_accommodates_fill(v: JsonValue)
    ensures
        forall|i: int|
            0 <= i < doc_lines(v).len() ==> (#[trigger] doc_lines(v)[i]).len() + 2 <= grid_width(
                v,
            ),
        grid_rows(v) == key_count(v),
{
    assert forall|i: int|
        0 <= i < doc_lines(v).len() implies (#[trigger] doc_lines(v)[i]).len() + 2 <= grid_width(
        v,
    ) by {
        lemma_max_len_bound(doc_lines(v), i, doc_lines(v).len() as int);
    }
    lemma_doc_line_count(v);
}

} // verus!
