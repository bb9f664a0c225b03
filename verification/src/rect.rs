use vstd::prelude::*;

use crate::grid::rows_view;
use crate::grid::cell_set;
use crate::grid::is_first_at;
use crate::grid::rectangular;
use crate::grid::set_cell;
use crate::grid::get_cell;
use crate::tree::firsts_view;
use crate::tree::decor_ready;
use crate::tree::icon_pass;
use crate::tree::place_icons;

verus! {

/// Glyphs the rectangle's vertical continuation may stand on.
pub open spec fn rect_stem(c: char) -> bool {
    c == '├' || c == '│'
}

/// Upward continuation from a branch stem: blank stem cells above become
/// vertical lines while the row directly below carries a stem glyph,
/// stopping at the first non-blank stem cell.
pub open spec fn rprop_up(g: Seq<Seq<char>>, s: int, j: int) -> Seq<Seq<char>>
    decreases j + 1,
{
    if j < 0 {
        g
    } else if g[j][s] != ' ' {
        g
    } else {
        let g1 = if rect_stem(g[j + 1][s]) {
            cell_set(g, j, s, '│')
        } else {
            g
        };
        rprop_up(g1, s, j - 1)
    }
}

/// Downward continuation: the frame needs unbroken vertical lines, so
/// blank stem cells below a branch become vertical lines too, while the
/// row directly above carries a stem glyph.
pub open spec fn rprop_down(g: Seq<Seq<char>>, s: int, j: int, r: int) -> Seq<Seq<char>>
    decreases r - j,
{
    if j >= r {
        g
    } else if g[j][s] != ' ' {
        g
    } else {
        let g1 = if rect_stem(g[j - 1][s]) {
            cell_set(g, j, s, '│')
        } else {
            g
        };
        rprop_down(g1, s, j + 1, r)
    }
}

/// Right fill: scanning from the right edge, blank cells of row `i`
/// become horizontal fill down to the row's last written character, which
/// keeps one blank gap cell after it.
pub open spec fn rfill(g: Seq<Seq<char>>, i: int, j: int, lo: int) -> Seq<Seq<char>>
    decreases j - lo,
{
    if j <= lo {
        g
    } else if g[i][j] != ' ' {
        cell_set(g, i, j + 1, ' ')
    } else {
        rfill(cell_set(g, i, j, '─'), i, j - 1, lo)
    }
}

/// One row of the rectangle connector pass: always a branch glyph (there
/// is no last-child distinction inside the body); a stem drawn into a
/// blank cell continues both upward and downward; then the row is filled
/// to the right edge.
pub open spec fn rect_step(g: Seq<Seq<char>>, fs: Seq<int>, i: int, r: int, w: int) -> Seq<
    Seq<char>,
> {
    let s = fs[i] - 3;
    let g2 = if g[i][s] == ' ' {
        rprop_down(rprop_up(cell_set(cell_set(g, i, s, '├'), i, s + 1, '─'), s, i - 1), s, i + 1, r)
    } else {
        cell_set(cell_set(g, i, s, '├'), i, s + 1, '─')
    };
    rfill(g2, i, w - 1, fs[i])
}

/// The rectangle connector pass over rows `i` down to `0`.
pub open spec fn rect_pass(g: Seq<Seq<char>>, fs: Seq<int>, i: int, r: int, w: int) -> Seq<
    Seq<char>,
>
    decreases i + 1,
{
    if i < 0 {
        g
    } else {
        rect_pass(rect_step(g, fs, i, r, w), fs, i - 1, r, w)
    }
}

/// The frame's corner overlay.
pub open spec fn corners(g: Seq<Seq<char>>, r: int, w: int) -> Seq<Seq<char>> {
    cell_set(cell_set(cell_set(cell_set(g, 0, 0, '┌'), r - 1, 0, '└'), 0, w - 1, '┐'), r - 1, w - 1, '┘')
}

/// Right-edge cells that are fill become right tees, in the first `n`
/// rows.
pub open spec fn tee_upto(g: Seq<Seq<char>>, w: int, n: int) -> Seq<Seq<char>> {
    Seq::new(
        g.len(),
        |i: int|
            if i < n && g[i][w - 1] == '─' {
                g[i].update(w - 1, '┤')
            } else {
                g[i]
            },
    )
}

/// The bottom edge closed along the last row, up to the second-to-last
/// row's key column: blank cells become horizontal fill, vertical or
/// branch cells become bottom tees.
pub open spec fn bottom_pass(g: Seq<Seq<char>>, j: int, hi: int, r: int) -> Seq<Seq<char>>
    decreases hi - j,
{
    if j >= hi {
        g
    } else {
        let c = g[r - 1][j];
        let g1 = if c == ' ' {
            cell_set(g, r - 1, j, '─')
        } else if c == '│' || c == '├' {
            cell_set(g, r - 1, j, '┴')
        } else {
            g
        };
        bottom_pass(g1, j + 1, hi, r)
    }
}

/// The fully decorated rectangle grid: icons, connectors and right fill
/// bottom to top, then the frame overlay.
pub open spec fn rect_decorated(
    g: Seq<Seq<char>>,
    fs: Seq<int>,
    nl: char,
    lf: char,
    w: int,
) -> Seq<Seq<char>> {
    let r = g.len() as int;
    let g1 = rect_pass(icon_pass(g, fs, nl, lf), fs, r - 1, r, w);
    let g2 = tee_upto(corners(g1, r, w), w, r);
    if r >= 2 {
        bottom_pass(g2, 1, fs[r - 2], r)
    } else {
        g2
    }
}

/// The rectangle decoration pass, in place.  When the grid has at least
/// two rows, the frame's four corners stand in the result.
#[verifier::loop_isolation(false)]
#[verifier::rlimit(30)]
pub fn rect_decorate(g: &mut Vec<Vec<char>>, fs: &Vec<usize>, w: usize, nl: char, lf: char)
    requires
        decor_ready(rows_view(old(g)@), firsts_view(fs@), w as int),
    ensures
        rows_view(final(g)@) == rect_decorated(
            rows_view(old(g)@),
            firsts_view(fs@),
            nl,
            lf,
            w as int,
        ),
        final(g)@.len() == old(g)@.len(),
        rectangular(rows_view(final(g)@), w as int),
        old(g)@.len() >= 2 ==> {
            let d = rows_view(final(g)@);
            let r = old(g)@.len() as int;
            &&& d[0][0] == '┌'
            &&& d[r - 1][0] == '└'
            &&& d[0][w - 1] == '┐'
            &&& d[r - 1][w - 1] == '┘'
        },
{
    let ghost g0 = rows_view(old(g)@);
    let ghost fsv = firsts_view(fs@);
    let r = g.len();
    proof {
        assert forall|k: int| 0 <= k < r implies 3 <= #[trigger] fsv[k] <= w - 3 by {
            assert(is_first_at(g0[k], fsv[k]));
            assert(g0[k][fsv[k]] != ' ');
            assert(g0[k][w - 2] == ' ');
            assert(g0[k][w - 1] == ' ');
        }
        assert(3 <= fsv[0] <= w - 3);
        assert(w >= 6);
    }
    place_icons(g, fs, w, nl, lf);
    let ghost gi = rows_view(g@);
    let mut i: usize = r;
    while i > 0
        invariant
            i <= r,
            g@.len() == r,
            rectangular(rows_view(g@), w as int),
            forall|k: int|
                0 <= k < i ==> (#[trigger] rows_view(g@)[k])[w - 2] == ' ' && rows_view(
                    g@,
                )[k][w - 1] == ' ',
            rect_pass(rows_view(g@), fsv, i as int - 1, r as int, w as int) == rect_pass(
                gi,
                fsv,
                r as int - 1,
                r as int,
                w as int,
            ),
        decreases i,
    {
        let row = i - 1;
        let ghost gcur = rows_view(g@);
        let s = fs[row] - 3;
        let c = get_cell(g, row, s);
        if c == ' ' {
            set_cell(g, row, s, '├');
            set_cell(g, row, s + 1, '─');
            let ghost ga = rows_view(g@);
            let mut j: usize = row;
            while j > 0
                invariant
                    j <= row,
                    g@.len() == r,
                    rectangular(rows_view(g@), w as int),
                    forall|k: int|
                        0 <= k < i ==> (#[trigger] rows_view(g@)[k])[w - 2] == ' ' && rows_view(
                            g@,
                        )[k][w - 1] == ' ',
                    rprop_up(rows_view(g@), s as int, j as int - 1) == rprop_up(
                        ga,
                        s as int,
                        row as int - 1,
                    ),
                decreases j,
            {
                let jj = j - 1;
                let cj = get_cell(g, jj, s);
                if cj != ' ' {
                    break ;
                }
                let below = get_cell(g, jj + 1, s);
                if below == '├' || below == '│' {
                    set_cell(g, jj, s, '│');
                }
                j = jj;
            }
            proof {
                assert(rows_view(g@) == rprop_up(ga, s as int, row as int - 1));
            }
            let ghost gb = rows_view(g@);
            let mut d: usize = row + 1;
            while d < r
                invariant
                    row < d <= r,
                    g@.len() == r,
                    rectangular(rows_view(g@), w as int),
                    forall|k: int|
                        0 <= k < i ==> (#[trigger] rows_view(g@)[k])[w - 2] == ' ' && rows_view(
                            g@,
                        )[k][w - 1] == ' ',
                    rprop_down(rows_view(g@), s as int, d as int, r as int) == rprop_down(
                        gb,
                        s as int,
                        row as int + 1,
                        r as int,
                    ),
                decreases r - d,
            {
                let cd = get_cell(g, d, s);
                if cd != ' ' {
                    break ;
                }
                let above = get_cell(g, d - 1, s);
                if above == '├' || above == '│' {
                    set_cell(g, d, s, '│');
                }
                d = d + 1;
            }
            proof {
                assert(rows_view(g@) == rprop_down(gb, s as int, row as int + 1, r as int));
            }
        } else {
            set_cell(g, row, s, '├');
            set_cell(g, row, s + 1, '─');
        }
        let ghost g2 = rows_view(g@);
        proof {
            assert(g2 == if gcur[row as int][s as int] == ' ' {
                rprop_down(
                    rprop_up(
                        cell_set(cell_set(gcur, row as int, s as int, '├'), row as int, s + 1, '─'),
                        s as int,
                        row as int - 1,
                    ),
                    s as int,
                    row as int + 1,
                    r as int,
                )
            } else {
                cell_set(cell_set(gcur, row as int, s as int, '├'), row as int, s + 1, '─')
            });
        }
        let lo = fs[row];
        let mut j: usize = w - 1;
        while j > lo
            invariant
                lo <= j <= w - 1,
                g@.len() == r,
                rectangular(rows_view(g@), w as int),
                forall|k: int|
                    0 <= k < row ==> (#[trigger] rows_view(g@)[k])[w - 2] == ' ' && rows_view(
                        g@,
                    )[k][w - 1] == ' ',
                j == w - 1 ==> rows_view(g@) == g2,
                rfill(rows_view(g@), row as int, j as int, lo as int) == rfill(
                    g2,
                    row as int,
                    w as int - 1,
                    lo as int,
                ),
            decreases j - lo,
        {
            let cj = get_cell(g, row, j);
            if cj != ' ' {
                proof {
                    if j == w - 1 {
                        assert(g2[row as int][w - 1] == ' ');
                        assert(false);
                    }
                }
                let ghost gprev = rows_view(g@);
                set_cell(g, row, j + 1, ' ');
                proof {
                    assert(rfill(gprev, row as int, j as int, lo as int) == cell_set(
                        gprev,
                        row as int,
                        j as int + 1,
                        ' ',
                    ));
                    assert(rows_view(g@)[row as int][j as int] == cj);
                    assert(cell_set(rows_view(g@), row as int, j as int + 1, ' ') =~~= rows_view(
                        g@,
                    ));
                    assert(rfill(rows_view(g@), row as int, j as int, lo as int) == rfill(
                        g2,
                        row as int,
                        w as int - 1,
                        lo as int,
                    ));
                }
                break ;
            }
            set_cell(g, row, j, '─');
            j = j - 1;
        }
        proof {
            assert(rows_view(g@) == rfill(g2, row as int, w as int - 1, lo as int));
            assert(rows_view(g@) == rect_step(gcur, fsv, row as int, r as int, w as int));
        }
        i = row;
    }
    proof {
        assert(rows_view(g@) == rect_pass(gi, fsv, r as int - 1, r as int, w as int));
    }
    let ghost g1 = rows_view(g@);
    set_cell(g, 0, 0, '┌');
    set_cell(g, r - 1, 0, '└');
    set_cell(g, 0, w - 1, '┐');
    set_cell(g, r - 1, w - 1, '┘');
    let ghost gc = rows_view(g@);
    proof {
        assert(gc == corners(g1, r as int, w as int));
    }
    for i in 0..r
        invariant
            g@.len() == r,
            rectangular(rows_view(g@), w as int),
            rows_view(g@) == tee_upto(gc, w as int, i as int),
    {
        let c = get_cell(g, i, w - 1);
        if c == '─' {
            proof {
                assert(rows_view(g@)[i as int] == gc[i as int]);
            }
            set_cell(g, i, w - 1, '┤');
        }
        proof {
            assert(rows_view(g@) =~= tee_upto(gc, w as int, i as int + 1));
        }
    }
    let ghost gt = rows_view(g@);
    proof {
        assert(gt == tee_upto(gc, w as int, r as int));
    }
    if r >= 2 {
        let hi = fs[r - 2];
        let mut j: usize = 1;
        while j < hi
            invariant
                1 <= j <= hi,
                g@.len() == r,
                rectangular(rows_view(g@), w as int),
                bottom_pass(rows_view(g@), j as int, hi as int, r as int) == bottom_pass(
                    gt,
                    1,
                    hi as int,
                    r as int,
                ),
            decreases hi - j,
        {
            let c = get_cell(g, r - 1, j);
            if c == ' ' {
                set_cell(g, r - 1, j, '─');
            } else if c == '│' || c == '├' {
                set_cell(g, r - 1, j, '┴');
            }
            j = j + 1;
        }
        proof {
            assert(rows_view(g@) == bottom_pass(gt, 1, hi as int, r as int));
        }
    }
    proof {
        assert(rows_view(g@) == rect_decorated(g0, fsv, nl, lf, w as int));
        if r >= 2 {
            lemma_bottom_frame(gt, 1, fsv[r as int - 2], r as int, w as int);
            assert(gt[0][0] == '┌');
            assert(gt[r as int - 1][0] == '└');
            assert(gt[0][w - 1] == '┐');
            assert(gt[r as int - 1][w - 1] == '┘');
        }
    }
}

/// The bottom-edge pass touches only the last row, strictly between
/// column zero and the `hi` column: the frame's corners survive it.
proof fn lemma_bottom_frame(g: Seq<Seq<char>>, j: int, hi: int, r: int, w: int)
    requires
        1 <= j,
        hi <= w - 1,
        2 <= r <= g.len(),
        g[r - 1].len() == w,
    ensures
        bottom_pass(g, j, hi, r).len() == g.len(),
        bottom_pass(g, j, hi, r)[0] == g[0],
        bottom_pass(g, j, hi, r)[r - 1].len() == w,
        bottom_pass(g, j, hi, r)[r - 1][0] == g[r - 1][0],
        bottom_pass(g, j, hi, r)[r - 1][w - 1] == g[r - 1][w - 1],
    decreases hi - j,
{
    if j < hi {
        let c = g[r - 1][j];
        let g1 = if c == ' ' {
            cell_set(g, r - 1, j, '─')
        } else if c == '│' || c == '├' {
            cell_set(g, r - 1, j, '┴')
        } else {
            g
        };
        assert(g1.len() == g.len());
        assert(g1[0] == g[0]);
        assert(g1[r - 1].len() == w);
        assert(g1[r - 1][0] == g[r - 1][0]);
        assert(g1[r - 1][w - 1] == g[r - 1][w - 1]);
        lemma_bottom_frame(g1, j + 1, hi, r, w);
    }
}

} // verus!
