use vstd::prelude::*;

verus! {

/// A run of `n` space characters.
pub open spec fn spaces(n: int) -> Seq<char> {
    Seq::new(n as nat, |i: int| ' ')
}

/// The mathematical view of a character grid or of a list of lines: each
/// row as a sequence of characters.
pub open spec fn rows_view(g: Seq<Vec<char>>) -> Seq<Seq<char>> {
    Seq::new(g.len() as nat, |i: int| g[i]@)
}

/// A grid is rectangular: every row has the same width.
pub open spec fn rectangular(g: Seq<Seq<char>>, w: int) -> bool {
    forall|i: int| 0 <= i < g.len() ==> (#[trigger] g[i]).len() == w
}

/// One cell of a grid replaced.
pub open spec fn cell_set(g: Seq<Seq<char>>, i: int, j: int, c: char) -> Seq<Seq<char>> {
    g.update(i, g[i].update(j, c))
}

/// `d` is the column of the row's first non-space character, where the key
/// text begins: at or right of the connector margin, on an indentation
/// stop (a multiple of three columns).
pub open spec fn is_first_at(r: Seq<char>, d: int) -> bool {
    &&& 3 <= d < r.len()
    &&& d % 3 == 0
    &&& r[d] != ' '
    &&& forall|j: int| 0 <= j < d ==> r[j] == ' '
}

/// A row the decoration pass accepts: it has a first non-space column on
/// an indentation stop.
pub open spec fn wf_row(r: Seq<char>) -> bool {
    exists|d: int| is_first_at(r, d)
}

pub proof fn lemma_first_at_unique(r: Seq<char>, d1: int, d2: int)
    requires
        is_first_at(r, d1),
        is_first_at(r, d2),
    ensures
        d1 == d2,
{
    if d1 < d2 {
        assert(r[d1] == ' ');
    }
    if d2 < d1 {
        assert(r[d2] == ' ');
    }
}

/// A copy of a character buffer.
pub fn clone_chars(src: &Vec<char>) -> (r: Vec<char>)
    ensures
        r@ == src@,
{
    let mut r: Vec<char> = Vec::new();
    let n = src.len();
    for i in 0..n
        invariant
            n == src@.len(),
            r@ == src@.take(i as int),
    {
        r.push(src[i]);
        assert(r@ =~= src@.take(i + 1));
    }
    assert(r@ =~= src@);
    r
}

/// Appends one character buffer to another.
pub fn append_chars(dst: &mut Vec<char>, src: &Vec<char>)
    ensures
        final(dst)@ == old(dst)@ + src@,
{
    let n = src.len();
    for i in 0..n
        invariant
            n == src@.len(),
            dst@ == old(dst)@ + src@.take(i as int),
    {
        dst.push(src[i]);
        assert(dst@ =~= old(dst)@ + src@.take(i + 1));
    }
    assert(dst@ =~= old(dst)@ + src@);
}

/// Pads a row with spaces on the right up to width `w`.
pub fn pad_row(row: &mut Vec<char>, w: usize)
    requires
        old(row)@.len() <= w,
    ensures
        final(row)@ == old(row)@ + spaces(w - old(row)@.len()),
{
    while row.len() < w
        invariant
            old(row)@.len() <= row@.len() <= w,
            row@ == old(row)@ + spaces(row@.len() - old(row)@.len()),
        decreases w - row@.len(),
    {
        row.push(' ');
        assert(row@ =~= old(row)@ + spaces(row@.len() - old(row)@.len()));
    }
}

/// Allocates the grid: every line padded with spaces to width `w`.
pub fn make_grid(lines: &Vec<Vec<char>>, w: usize) -> (g: Vec<Vec<char>>)
    requires
        forall|i: int|
            0 <= i < lines@.len() ==> (#[trigger] lines@[i]@).len() <= w,
    ensures
        rows_view(g@).len() == lines@.len(),
        forall|i: int|
            0 <= i < lines@.len() ==> rows_view(g@)[i] == lines@[i]@ + spaces(
                w - lines@[i]@.len(),
            ),
        rectangular(rows_view(g@), w as int),
{
    let mut g: Vec<Vec<char>> = Vec::new();
    let n = lines.len();
    for i in 0..n
        invariant
            n == lines@.len(),
            forall|k: int|
                0 <= k < lines@.len() ==> (#[trigger] lines@[k]@).len() <= w,
            g@.len() == i,
            forall|k: int|
                0 <= k < i ==> #[trigger] g@[k]@ == lines@[k]@ + spaces(w - lines@[k]@.len()),
    {
        let mut row = clone_chars(&lines[i]);
        pad_row(&mut row, w);
        g.push(row);
    }
    proof {
        assert forall|i: int| 0 <= i < lines@.len() implies rows_view(g@)[i] == lines@[i]@
            + spaces(w - lines@[i]@.len()) by {
            assert(rows_view(g@)[i] == g@[i]@);
        }
        assert forall|i: int| 0 <= i < rows_view(g@).len() implies (#[trigger] rows_view(
            g@,
        )[i]).len() == w as int by {
            assert(rows_view(g@)[i] == g@[i]@);
        }
    }
    g
}

/// Replaces one cell of the grid.
pub fn set_cell(g: &mut Vec<Vec<char>>, i: usize, j: usize, c: char)
    requires
        i < old(g)@.len(),
        j < rows_view(old(g)@)[i as int].len(),
    ensures
        rows_view(final(g)@) == cell_set(rows_view(old(g)@), i as int, j as int, c),
        final(g)@.len() == old(g)@.len(),
{
    proof {
        assert(rows_view(g@)[i as int] == g@[i as int]@);
    }
    let mut row = clone_chars(&g[i]);
    row.set(j, c);
    g.set(i, row);
    assert(rows_view(g@) =~= cell_set(rows_view(old(g)@), i as int, j as int, c));
}

/// Reads one cell of the grid.
pub fn get_cell(g: &Vec<Vec<char>>, i: usize, j: usize) -> (c: char)
    requires
        i < g@.len(),
        j < rows_view(g@)[i as int].len(),
    ensures
        c == rows_view(g@)[i as int][j as int],
{
    proof {
        assert(rows_view(g@)[i as int] == g@[i as int]@);
    }
    g[i][j]
}

/// Finds the column of a row's first non-space character.
#[verifier::loop_isolation(false)]
pub fn scan_first(row: &Vec<char>) -> (r: usize)
    requires
        wf_row(row@),
    ensures
        is_first_at(row@, r as int),
{
    let ghost d: int = choose|d: int| is_first_at(row@, d);
    let n = row.len();
    let mut j: usize = 0;
    while row[j] == ' '
        invariant
            is_first_at(row@, d),
            0 <= j <= d,
            d < row@.len(),
        decreases d - j,
    {
        proof {
            if j as int == d {
                assert(false);
            }
        }
        j = j + 1;
    }
    proof {
        if (j as int) < d {
            assert(row@[j as int] == ' ');
        }
    }
    j
}

/// The first non-space column of every row of the grid.
pub fn compute_firsts(g: &Vec<Vec<char>>) -> (fs: Vec<usize>)
    requires
        forall|i: int| 0 <= i < g@.len() ==> wf_row(#[trigger] rows_view(g@)[i]),
    ensures
        fs@.len() == g@.len(),
        forall|i: int|
            0 <= i < g@.len() ==> is_first_at(rows_view(g@)[i], #[trigger] fs@[i] as int),
{
    let mut fs: Vec<usize> = Vec::new();
    let n = g.len();
    for i in 0..n
        invariant
            n == g@.len(),
            forall|k: int| 0 <= k < g@.len() ==> wf_row(#[trigger] rows_view(g@)[k]),
            fs@.len() == i,
            forall|k: int|
                0 <= k < i ==> is_first_at(rows_view(g@)[k], #[trigger] fs@[k] as int),
    {
        proof {
            assert(wf_row(rows_view(g@)[i as int]));
            assert(rows_view(g@)[i as int] == g@[i as int]@);
        }
        let f = scan_first(&g[i]);
        fs.push(f);
        proof {
            assert(is_first_at(rows_view(g@)[i as int], f as int));
        }
    }
    fs
}

} // verus!
