use vstd::prelude::*;

use crate::grid::rows_view;
use crate::grid::cell_set;
use crate::grid::is_first_at;
use crate::grid::rectangular;
use crate::grid::set_cell;
use crate::grid::get_cell;

verus! {

/// The integer view of a column-index vector.
pub open spec fn firsts_view(fs: Seq<usize>) -> Seq<int> {
    Seq::new(fs.len(), |i: int| fs[i] as int)
}

/// A grid ready for decoration: at least one row, rectangular of width
/// `w`, each row's first non-space character at column `fs[i]` on an
/// indentation stop, and the two rightmost columns still blank.
pub open spec fn decor_ready(g: Seq<Seq<char>>, fs: Seq<int>, w: int) -> bool {
    &&& g.len() >= 1
    &&& fs.len() == g.len()
    &&& rectangular(g, w)
    &&& forall|i: int| 0 <= i < g.len() ==> is_first_at(g[i], #[trigger] fs[i])
    &&& forall|i: int|
        0 <= i < g.len() ==> (#[trigger] g[i])[w - 2] == ' ' && g[i][w - 1] == ' '
}

/// Glyphs a vertical continuation line may stand on.
pub open spec fn tree_stem(c: char) -> bool {
    c == '└' || c == '├' || c == '│'
}

/// The icon for row `i`: the non-leaf glyph when the next row exists and
/// is indented deeper (the row's key has nested children), else the leaf
/// glyph.
pub open spec fn icon_glyph(fs: Seq<int>, i: int, nl: char, lf: char) -> char {
    if i + 1 < fs.len() && fs[i + 1] > fs[i] {
        nl
    } else {
        lf
    }
}

/// The icon pass applied to the first `n` rows: each gets its icon in the
/// column immediately left of its key.
pub open spec fn icon_pass_upto(
    g: Seq<Seq<char>>,
    fs: Seq<int>,
    nl: char,
    lf: char,
    n: int,
) -> Seq<Seq<char>> {
    Seq::new(
        g.len(),
        |i: int|
            if i < n {
                g[i].update(fs[i] - 1, icon_glyph(fs, i, nl, lf))
            } else {
                g[i]
            },
    )
}

/// The icon pass over the whole grid.
pub open spec fn icon_pass(g: Seq<Seq<char>>, fs: Seq<int>, nl: char, lf: char) -> Seq<Seq<char>> {
    icon_pass_upto(g, fs, nl, lf, g.len() as int)
}

/// Upward continuation from a corner: blank stem cells become vertical
/// lines while the row directly below carries a connector glyph, stopping
/// at the first non-blank stem cell.
pub open spec fn prop_up(g: Seq<Seq<char>>, s: int, j: int) -> Seq<Seq<char>>
    decreases j + 1,
{
    if j < 0 {
        g
    } else if g[j][s] != ' ' {
        g
    } else {
        let g1 = if tree_stem(g[j + 1][s]) {
            cell_set(g, j, s, '│')
        } else {
            g
        };
        prop_up(g1, s, j - 1)
    }
}

/// One row of the tree connector pass: a corner glyph if the stem cell is
/// still blank (the row is the last child at its indent), with vertical
/// continuation drawn upward; otherwise a branch glyph.
pub open spec fn tree_step(g: Seq<Seq<char>>, fs: Seq<int>, i: int) -> Seq<Seq<char>> {
    let s = fs[i] - 3;
    if g[i][s] == ' ' {
        prop_up(cell_set(cell_set(g, i, s, '└'), i, s + 1, '─'), s, i - 1)
    } else {
        cell_set(cell_set(g, i, s, '├'), i, s + 1, '─')
    }
}

/// The tree connector pass over rows `i` down to `0`.
pub open spec fn tree_pass(g: Seq<Seq<char>>, fs: Seq<int>, i: int) -> Seq<Seq<char>>
    decreases i + 1,
{
    if i < 0 {
        g
    } else {
        tree_pass(tree_step(g, fs, i), fs, i - 1)
    }
}

/// The fully decorated tree grid: icons, then connectors bottom to top.
pub open spec fn tree_decorated(
    g: Seq<Seq<char>>,
    fs: Seq<int>,
    nl: char,
    lf: char,
) -> Seq<Seq<char>> {
    tree_pass(icon_pass(g, fs, nl, lf), fs, g.len() - 1)
}

/// Icon placement, shared by both decoration variants, in place.
#[verifier::loop_isolation(false)]
pub fn place_icons(g: &mut Vec<Vec<char>>, fs: &Vec<usize>, w: usize, nl: char, lf: char)
    requires
        decor_ready(rows_view(old(g)@), firsts_view(fs@), w as int),
    ensures
        rows_view(final(g)@) == icon_pass(rows_view(old(g)@), firsts_view(fs@), nl, lf),
        final(g)@.len() == old(g)@.len(),
        rectangular(rows_view(final(g)@), w as int),
        forall|k: int|
            0 <= k < final(g)@.len() ==> (#[trigger] rows_view(final(g)@)[k])[w - 2] == ' '
                && rows_view(final(g)@)[k][w - 1] == ' ',
{
    let ghost g0 = rows_view(old(g)@);
    let ghost fsv = firsts_view(fs@);
    let r = g.len();
    proof {
        assert forall|k: int| 0 <= k < r implies 3 <= #[trigger] fsv[k] <= w - 3 by {
            assert(is_first_at(g0[k], fsv[k]));
            assert(g0[k][fsv[k]] != ' ');
            assert(g0[k][w - 2] == ' ');
            assert(g0[k][w - 1] == ' ');
        }
    }
    for i in 0..r
        invariant
            g@.len() == r,
            rows_view(g@) == icon_pass_upto(g0, fsv, nl, lf, i as int),
    {
        let f = fs[i];
        let deeper = i + 1 < r && fs[i + 1] > f;
        let c = if deeper {
            nl
        } else {
            lf
        };
        proof {
            assert(is_first_at(g0[i as int], fsv[i as int]));
            assert(rows_view(g@)[i as int].len() == g0[i as int].len());
        }
        set_cell(g, i, f - 1, c);
        proof {
            assert(rows_view(g@) =~= icon_pass_upto(g0, fsv, nl, lf, i as int + 1));
        }
    }
    proof {
        let gi = rows_view(g@);
        assert(gi == icon_pass(g0, fsv, nl, lf));
        assert forall|k: int| 0 <= k < gi.len() implies (#[trigger] gi[k]).len() == w as int by {
            assert(g0[k].len() == w as int);
        }
        assert forall|k: int| 0 <= k < gi.len() implies (#[trigger] gi[k])[w - 2] == ' '
            && gi[k][w - 1] == ' ' by {
            assert(g0[k][w - 2] == ' ' && g0[k][w - 1] == ' ');
            assert(fsv[k] - 1 < w - 3);
        }
    }
}

/// Stem columns sit on indentation stops and dashes just right of them:
/// the upward continuation never touches a column two past a stop.
proof fn lemma_prop_up_frame(g: Seq<Seq<char>>, s: int, j: int, w: int)
    requires
        rectangular(g, w),
        0 <= s < w,
        s % 3 == 0,
        j < g.len(),
    ensures
        prop_up(g, s, j).len() == g.len(),
        rectangular(prop_up(g, s, j), w),
        forall|a: int, b: int|
            0 <= a < g.len() && 0 <= b < w && b % 3 == 2 ==> #[trigger] prop_up(g, s, j)[a][b]
                == g[a][b],
    decreases j + 1,
{
    if j < 0 {
    } else if g[j][s] != ' ' {
    } else {
        let g1 = if tree_stem(g[j + 1][s]) {
            cell_set(g, j, s, '│')
        } else {
            g
        };
        assert(rectangular(g1, w)) by {
            assert forall|a: int| 0 <= a < g1.len() implies (#[trigger] g1[a]).len() == w by {
                assert(g[a].len() == w);
            }
        }
        lemma_prop_up_frame(g1, s, j - 1, w);
    }
}

/// One step of the connector pass writes only into the stem column and
/// the dash column beside it: never into an icon column.
proof fn lemma_tree_step_frame(g: Seq<Seq<char>>, fs: Seq<int>, i: int, w: int)
    requires
        rectangular(g, w),
        0 <= i < g.len(),
        i < fs.len(),
        3 <= fs[i] < w,
        fs[i] % 3 == 0,
    ensures
        tree_step(g, fs, i).len() == g.len(),
        rectangular(tree_step(g, fs, i), w),
        forall|a: int, b: int|
            0 <= a < g.len() && 0 <= b < w && b % 3 == 2 ==> #[trigger] tree_step(g, fs, i)[a][b]
                == g[a][b],
{
    let s = fs[i] - 3;
    let ga = cell_set(cell_set(g, i, s, '└'), i, s + 1, '─');
    let gb = cell_set(cell_set(g, i, s, '├'), i, s + 1, '─');
    assert(rectangular(ga, w) && rectangular(gb, w)) by {
        assert forall|a: int| 0 <= a < g.len() implies (#[trigger] ga[a]).len() == w && gb[a].len()
            == w by {
            assert(g[a].len() == w);
        }
    }
    if g[i][s] == ' ' {
        lemma_prop_up_frame(ga, s, i - 1, w);
    }
}

/// The whole connector pass leaves every icon column unchanged.
proof fn lemma_tree_pass_frame(g: Seq<Seq<char>>, fs: Seq<int>, i: int, w: int)
    requires
        rectangular(g, w),
        fs.len() == g.len(),
        i < g.len(),
        forall|k: int| 0 <= k < fs.len() ==> 3 <= #[trigger] fs[k] < w && fs[k] % 3 == 0,
    ensures
        tree_pass(g, fs, i).len() == g.len(),
        rectangular(tree_pass(g, fs, i), w),
        forall|a: int, b: int|
            0 <= a < g.len() && 0 <= b < w && b % 3 == 2 ==> #[trigger] tree_pass(g, fs, i)[a][b]
                == g[a][b],
    decreases i + 1,
{
    if i >= 0 {
        lemma_tree_step_frame(g, fs, i, w);
        lemma_tree_pass_frame(tree_step(g, fs, i), fs, i - 1, w);
    }
}

/// Icon placement survives decoration: in the decorated tree grid, row
/// `i` carries the non-leaf glyph in the column left of its key exactly
/// when the next row exists and is indented deeper (the key has nested
/// children); otherwise it carries the leaf glyph.
pub proof fn lemma_tree_icons(g: Seq<Seq<char>>, fs: Seq<int>, w: int, nl: char, lf: char)
    requires
        decor_ready(g, fs, w),
    ensures
        tree_decorated(g, fs, nl, lf).len() == g.len(),
        forall|i: int|
            0 <= i < g.len() ==> #[trigger] tree_decorated(g, fs, nl, lf)[i][fs[i] - 1]
                == icon_glyph(fs, i, nl, lf),
{
    let gi = icon_pass(g, fs, nl, lf);
    assert forall|k: int| 0 <= k < fs.len() implies 3 <= #[trigger] fs[k] < w && fs[k] % 3
        == 0 by {
        assert(is_first_at(g[k], fs[k]));
    }
    assert(rectangular(gi, w)) by {
        assert forall|a: int| 0 <= a < gi.len() implies (#[trigger] gi[a]).len() == w by {
            assert(g[a].len() == w);
        }
    }
    lemma_tree_pass_frame(gi, fs, g.len() - 1, w);
    assert forall|i: int| 0 <= i < g.len() implies #[trigger] tree_decorated(g, fs, nl, lf)[i][fs[i]
        - 1] == icon_glyph(fs, i, nl, lf) by {
        assert(is_first_at(g[i], fs[i]));
        assert(gi[i] == g[i].update(fs[i] - 1, icon_glyph(fs, i, nl, lf)));
        assert(gi[i][fs[i] - 1] == icon_glyph(fs, i, nl, lf));
        assert((fs[i] - 1) % 3 == 2);
        assert(tree_decorated(g, fs, nl, lf)[i][fs[i] - 1] == gi[i][fs[i] - 1]);
    }
}

/// The tree decoration pass, in place.
#[verifier::loop_isolation(false)]
pub fn tree_decorate(g: &mut Vec<Vec<char>>, fs: &Vec<usize>, w: usize, nl: char, lf: char)
    requires
        decor_ready(rows_view(old(g)@), firsts_view(fs@), w as int),
    ensures
        rows_view(final(g)@) == tree_decorated(rows_view(old(g)@), firsts_view(fs@), nl, lf),
        final(g)@.len() == old(g)@.len(),
        rectangular(rows_view(final(g)@), w as int),
{
    let ghost g0 = rows_view(old(g)@);
    let ghost fsv = firsts_view(fs@);
    let r = g.len();
    place_icons(g, fs, w, nl, lf);
    let ghost gi = rows_view(g@);
    let mut i: usize = r;
    while i > 0
        invariant
            i <= r,
            g@.len() == r,
            rectangular(rows_view(g@), w as int),
            tree_pass(rows_view(g@), fsv, i as int - 1) == tree_pass(gi, fsv, r as int - 1),
        decreases i,
    {
        let row = i - 1;
        let ghost gcur = rows_view(g@);
        proof {
            assert(is_first_at(g0[row as int], fsv[row as int]));
        }
        let s = fs[row] - 3;
        let c = get_cell(g, row, s);
        if c == ' ' {
            set_cell(g, row, s, '└');
            set_cell(g, row, s + 1, '─');
            let ghost ga = rows_view(g@);
            let mut j: usize = row;
            while j > 0
                invariant
                    j <= row,
                    g@.len() == r,
                    rectangular(rows_view(g@), w as int),
                    prop_up(rows_view(g@), s as int, j as int - 1) == prop_up(
                        ga,
                        s as int,
                        row as int - 1,
                    ),
                decreases j,
            {
                let jj = j - 1;
                let cj = get_cell(g, jj, s);
                if cj != ' ' {
                    break ;
                }
                let below = get_cell(g, jj + 1, s);
                if below == '└' || below == '├' || below == '│' {
                    set_cell(g, jj, s, '│');
                }
                j = jj;
            }
            proof {
                assert(rows_view(g@) == prop_up(ga, s as int, row as int - 1));
                assert(rows_view(g@) == tree_step(gcur, fsv, row as int));
            }
        } else {
            set_cell(g, row, s, '├');
            set_cell(g, row, s + 1, '─');
            proof {
                assert(rows_view(g@) == tree_step(gcur, fsv, row as int));
            }
        }
        i = row;
    }
}

} // verus!
