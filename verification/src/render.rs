use vstd::prelude::*;

use crate::value::JsonValue;
use crate::value::renderable;
use crate::value::key_count;
use crate::writer::doc_lines;
use crate::writer::write_lines;
use crate::writer::lemma_doc_lines_wf;
use crate::sizer::size;
use crate::sizer::grid_width;
use crate::grid::rows_view;
use crate::grid::make_grid;
use crate::grid::compute_firsts;
use crate::grid::spaces;
use crate::grid::wf_row;
use crate::grid::is_first_at;
use crate::grid::lemma_first_at_unique;
use crate::tree::firsts_view;
use crate::tree::decor_ready;
use crate::tree::tree_decorated;
use crate::tree::tree_decorate;
use crate::rect::rect_decorated;
use crate::rect::rect_decorate;
use crate::icon::Icon;
use crate::icon::family_icon;
use crate::icon::family_glyphs;

verus! {

/// The ways a render request can fail.  All are reported to the caller;
/// none aborts the process.
#[derive(Debug, Clone, Copy, PartialEq, Eq, Structural)]
pub enum RenderError {
    /// The requested output style is not recognized.
    UnsupportedStyle,
    /// The requested icon family is not in the registry.
    UnknownIconFamily,
    /// The root is a bare scalar or array (no enclosing key to attach a
    /// row to), an empty object (no rows at all), or some key cannot
    /// anchor a row (empty, or starting with a space).
    UnrenderableRoot,
    /// The document's grid would exceed the machine's addressable width.
    TooLarge,
}

/// The two output styles.
#[derive(Debug, Clone, Copy, PartialEq, Eq, Structural)]
pub enum Style {
    Tree,
    Rectangle,
}

/// Selects the decoration variant for a style name.
pub fn parse_style(name: &str) -> (r: Result<Style, RenderError>)
    ensures
        name@ == "tree"@ ==> r == Ok::<Style, RenderError>(Style::Tree),
        name@ == "rectangle"@ ==> r == Ok::<Style, RenderError>(Style::Rectangle),
        name@ != "tree"@ && name@ != "rectangle"@ ==> r == Err::<Style, RenderError>(
            RenderError::UnsupportedStyle,
        ),
{
    proof {
        reveal_strlit("tree");
        reveal_strlit("rectangle");
        assert("tree"@.len() == 4);
        assert("rectangle"@.len() == 9);
        assert("tree"@ != "rectangle"@);
    }
    let n = String::from_str(name);
    if n == String::from_str("tree") {
        Ok(Style::Tree)
    } else if n == String::from_str("rectangle") {
        Ok(Style::Rectangle)
    } else {
        Err(RenderError::UnsupportedStyle)
    }
}

/// The sized and filled grid before decoration: every line of the
/// document padded with spaces to the grid's width.
pub open spec fn base_grid(v: JsonValue) -> Seq<Seq<char>> {
    Seq::new(
        doc_lines(v).len(),
        |i: int| doc_lines(v)[i] + spaces(grid_width(v) - doc_lines(v)[i].len()),
    )
}

/// The column of each grid row's first non-space character.
pub open spec fn doc_firsts(v: JsonValue) -> Seq<int> {
    Seq::new(doc_lines(v).len(), |i: int| choose|d: int| is_first_at(base_grid(v)[i], d))
}

/// The rendered grid for a document, style and icon pair.
pub open spec fn rendered(v: JsonValue, style: Style, icon: Icon) -> Seq<Seq<char>> {
    match style {
        Style::Tree => tree_decorated(
            base_grid(v),
            doc_firsts(v),
            icon.non_leaf_icon,
            icon.leaf_icon,
        ),
        Style::Rectangle => rect_decorated(
            base_grid(v),
            doc_firsts(v),
            icon.non_leaf_icon,
            icon.leaf_icon,
            grid_width(v),
        ),
    }
}

/// Renders a document with a chosen style and icon pair: one row of
/// characters per object key, sized, filled and decorated.
pub fn render(v: &JsonValue, style: Style, icon: &Icon) -> (r: Result<Vec<Vec<char>>, RenderError>)
    ensures
        !renderable(*v) ==> r == Err::<Vec<Vec<char>>, RenderError>(RenderError::UnrenderableRoot),
        renderable(*v) && grid_width(*v) > usize::MAX ==> r == Err::<Vec<Vec<char>>, RenderError>(
            RenderError::TooLarge,
        ),
        renderable(*v) && grid_width(*v) <= usize::MAX ==> r is Ok && rows_view(r->Ok_0@)
            == rendered(*v, style, *icon),
        renderable(*v) && grid_width(*v) <= usize::MAX ==> r->Ok_0@.len() == key_count(*v),
        renderable(*v) && grid_width(*v) <= usize::MAX && style == Style::Rectangle && key_count(
            *v,
        ) >= 2 ==> {
            let d = rows_view(r->Ok_0@);
            &&& d[0][0] == '┌'
            &&& d[key_count(*v) - 1][0] == '└'
            &&& d[0][grid_width(*v) - 1] == '┐'
            &&& d[key_count(*v) - 1][grid_width(*v) - 1] == '┘'
        },
{
    let w = match size(v) {
        Ok(p) => p.1,
        Err(e) => { return Err(e) },
    };
    let lines = write_lines(v);
    proof {
        crate::sizer::lemma_size_accommodates_fill(*v);
        assert forall|i: int| 0 <= i < lines@.len() implies (#[trigger] lines@[i]@).len()
            <= w by {
            assert(rows_view(lines@)[i] == lines@[i]@);
        }
    }
    let mut g = make_grid(&lines, w);
    proof {
        assert(rows_view(g@) =~= base_grid(*v));
        lemma_doc_lines_wf(*v);
        assert forall|i: int| 0 <= i < g@.len() implies wf_row(#[trigger] rows_view(g@)[i]) by {
            assert(wf_row(doc_lines(*v)[i]));
            let d = choose|d: int| is_first_at(doc_lines(*v)[i], d);
            assert(is_first_at(rows_view(g@)[i], d));
        }
    }
    let fs = compute_firsts(&g);
    proof {
        assert(doc_lines(*v).len() >= 1) by {
            crate::writer::lemma_doc_line_count(*v);
        }
        assert forall|i: int| 0 <= i < g@.len() implies (#[trigger] rows_view(g@)[i])[w - 2] == ' '
            && rows_view(g@)[i][w - 1] == ' ' by {
            assert(doc_lines(*v)[i].len() + 2 <= w);
            assert(rows_view(g@)[i][w - 2] == spaces(w - doc_lines(*v)[i].len())[w - 2
                - doc_lines(*v)[i].len()]);
            assert(rows_view(g@)[i][w - 1] == spaces(w - doc_lines(*v)[i].len())[w - 1
                - doc_lines(*v)[i].len()]);
        }
        assert(decor_ready(rows_view(g@), firsts_view(fs@), w as int));
        assert forall|i: int| 0 <= i < g@.len() implies firsts_view(fs@)[i] == doc_firsts(*v)[i] by {
            assert(is_first_at(base_grid(*v)[i], firsts_view(fs@)[i]));
            assert(wf_row(base_grid(*v)[i]));
            lemma_first_at_unique(base_grid(*v)[i], firsts_view(fs@)[i], doc_firsts(*v)[i]);
        }
        assert(firsts_view(fs@) =~= doc_firsts(*v));
    }
    proof {
        assert(g@.len() == key_count(*v));
    }
    match style {
        Style::Tree => tree_decorate(&mut g, &fs, w, icon.non_leaf_icon, icon.leaf_icon),
        Style::Rectangle => rect_decorate(&mut g, &fs, w, icon.non_leaf_icon, icon.leaf_icon),
    }
    Ok(g)
}

/// A document's base grid, with its first non-space columns, is ready for
/// decoration.
pub proof fn lemma_base_grid_ready(v: JsonValue)
    requires
        renderable(v),
    ensures
        decor_ready(base_grid(v), doc_firsts(v), grid_width(v)),
        base_grid(v).len() == key_count(v),
{
    let g = base_grid(v);
    let fs = doc_firsts(v);
    let w = grid_width(v);
    crate::sizer::lemma_size_accommodates_fill(v);
    crate::writer::lemma_doc_line_count(v);
    lemma_doc_lines_wf(v);
    assert forall|i: int| 0 <= i < g.len() implies (#[trigger] g[i]).len() == w by {
        assert(doc_lines(v)[i].len() + 2 <= w);
    }
    assert forall|i: int| 0 <= i < g.len() implies is_first_at(g[i], #[trigger] fs[i]) by {
        assert(wf_row(doc_lines(v)[i]));
        let d = choose|d: int| is_first_at(doc_lines(v)[i], d);
        assert(is_first_at(g[i], d));
        assert(is_first_at(g[i], fs[i]));
    }
    assert forall|i: int| 0 <= i < g.len() implies (#[trigger] g[i])[w - 2] == ' ' && g[i][w - 1]
        == ' ' by {
        assert(doc_lines(v)[i].len() + 2 <= w);
        assert(g[i][w - 2] == spaces(w - doc_lines(v)[i].len())[w - 2 - doc_lines(v)[i].len()]);
        assert(g[i][w - 1] == spaces(w - doc_lines(v)[i].len())[w - 1 - doc_lines(v)[i].len()]);
    }
}

/// For the tree style, every row whose following row is indented deeper
/// (its key has nested children) carries the non-leaf glyph in the column
/// left of its key, and every row whose following row is shallower or
/// absent carries the leaf glyph there.
pub proof fn lemma_tree_style_icons(v: JsonValue, icon: Icon)
    requires
        renderable(v),
    ensures
        forall|i: int|
            0 <= i < key_count(v) ==> #[trigger] rendered(v, Style::Tree, icon)[i][doc_firsts(
                v,
            )[i] - 1] == crate::tree::icon_glyph(
                doc_firsts(v),
                i,
                icon.non_leaf_icon,
                icon.leaf_icon,
            ),
{
    lemma_base_grid_ready(v);
    crate::tree::lemma_tree_icons(
        base_grid(v),
        doc_firsts(v),
        grid_width(v),
        icon.non_leaf_icon,
        icon.leaf_icon,
    );
}

/// The whole renderer: resolves the icon family, selects the style, then
/// sizes, fills and decorates the grid.  An unknown icon family is
/// reported first, then an unsupported style, then an unrenderable root.
pub fn render_doc(v: &JsonValue, style: &str, family: &str) -> (r: Result<
    Vec<Vec<char>>,
    RenderError,
>)
    ensures
        family_glyphs(family@) is None ==> r == Err::<Vec<Vec<char>>, RenderError>(
            RenderError::UnknownIconFamily,
        ),
        family_glyphs(family@) is Some && style@ != "tree"@ && style@ != "rectangle"@ ==> r
            == Err::<Vec<Vec<char>>, RenderError>(RenderError::UnsupportedStyle),
        family_glyphs(family@) is Some && (style@ == "tree"@ || style@ == "rectangle"@)
            && !renderable(*v) ==> r == Err::<Vec<Vec<char>>, RenderError>(
            RenderError::UnrenderableRoot,
        ),
        family_glyphs(family@) is Some && style@ == "tree"@ && renderable(*v) && grid_width(*v)
            <= usize::MAX ==> r is Ok && rows_view(r->Ok_0@) == rendered(
            *v,
            Style::Tree,
            family_icon(family@),
        ),
        family_glyphs(family@) is Some && style@ == "rectangle"@ && renderable(*v) && grid_width(
            *v,
        ) <= usize::MAX ==> r is Ok && rows_view(r->Ok_0@) == rendered(
            *v,
            Style::Rectangle,
            family_icon(family@),
        ),
{
    let icon = match Icon::new(family) {
        Ok(icon) => icon,
        Err(e) => { return Err(e) },
    };
    let style = match parse_style(style) {
        Ok(s) => s,
        Err(e) => { return Err(e) },
    };
    render(v, style, &icon)
}

} // verus!
