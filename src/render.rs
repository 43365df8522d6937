use vstd::prelude::*;
use crate::project::{row_view, Align, Field};
use crate::text::{chars_of, push_all, push_spaces, spaces, string_of};

verus! {

/// A grid's rows as sequences of (text, alignment) pairs.
pub open spec fn grid_view(g: Seq<Vec<Field>>) -> Seq<Seq<(Seq<char>, Align)>> {
    g.map_values(|r: Vec<Field>| row_view(r@))
}

/// Every row has as many fields as the first.
pub open spec fn uniform(g: Seq<Seq<(Seq<char>, Align)>>) -> bool {
    forall|i: int| 0 <= i < g.len() ==> (#[trigger] g[i]).len() == g[0].len()
}

/// The width of column `k`: the largest character count of its texts.
pub open spec fn col_width(g: Seq<Seq<(Seq<char>, Align)>>, k: int) -> nat
    decreases g.len(),
{
    if g.len() == 0 {
        0
    } else {
        let w = col_width(g.drop_last(), k);
        let t = g.last()[k].0.len();
        if t > w { t } else { w }
    }
}

/// A text padded to `width` by its alignment.
pub open spec fn padded(t: Seq<char>, width: nat, a: Align) -> Seq<char> {
    let gap = if width > t.len() { (width - t.len()) as nat } else { 0 };
    match a {
        Align::Right => spaces(gap) + t,
        Align::Left => t + spaces(gap),
        Align::Unpadded => t,
    }
}

/// The first `n` fields of a detailed row, each padded and followed by a space.
pub open spec fn detailed_fields(g: Seq<Seq<(Seq<char>, Align)>>, row: Seq<(Seq<char>, Align)>, n: int) -> Seq<char>
    decreases n,
{
    if n <= 0 {
        seq![]
    } else {
        detailed_fields(g, row, n - 1) + padded(row[n - 1].0, col_width(g, n - 1), g[0][n - 1].1)
            + seq![' ']
    }
}

/// The first `n` rows in detailed mode, each ending in a line break.
pub open spec fn detailed_rows(g: Seq<Seq<(Seq<char>, Align)>>, n: int) -> Seq<char>
    decreases n,
{
    if n <= 0 {
        seq![]
    } else {
        detailed_rows(g, n - 1) + detailed_fields(g, g[n - 1], g[n - 1].len() as int) + seq!['\n']
    }
}

/// The first `n` fields of a compact row, each followed by a space.
pub open spec fn compact_fields(row: Seq<(Seq<char>, Align)>, n: int) -> Seq<char>
    decreases n,
{
    if n <= 0 {
        seq![]
    } else {
        compact_fields(row, n - 1) + row[n - 1].0 + seq![' ']
    }
}

/// The first `n` rows in compact mode, each followed by one more space.
pub open spec fn compact_rows(g: Seq<Seq<(Seq<char>, Align)>>, n: int) -> Seq<char>
    decreases n,
{
    if n <= 0 {
        seq![]
    } else {
        compact_rows(g, n - 1) + compact_fields(g[n - 1], g[n - 1].len() as int) + seq![' ']
    }
}

/// The rendered text of a grid: nothing for an empty grid; else aligned lines
/// in detailed mode, or one space-separated stream ended by a line break.
pub open spec fn rendered(g: Seq<Seq<(Seq<char>, Align)>>, detailed: bool) -> Seq<char> {
    if g.len() == 0 {
        seq![]
    } else if detailed {
        detailed_rows(g, g.len() as int)
    } else {
        compact_rows(g, g.len() as int) + seq!['\n']
    }
}

/// No text of column `k` is wider than the column.
pub proof fn lemma_width_bounds(g: Seq<Seq<(Seq<char>, Align)>>, k: int)
    ensures
        forall|i: int| 0 <= i < g.len() ==> (#[trigger] g[i])[k].0.len() <= col_width(g, k),
    decreases g.len(),
{
    if g.len() > 0 {
        lemma_width_bounds(g.drop_last(), k);
        assert forall|i: int| 0 <= i < g.len() implies (#[trigger] g[i])[k].0.len() <= col_width(g, k) by {
            if i < g.len() - 1 {
                assert(g[i] == g.drop_last()[i]);
            }
        }
    }
}

/// The width of column `k`.
fn column_width(g: &Vec<Vec<Field>>, k: usize) -> (w: usize)
    requires
        forall|i: int| 0 <= i < g@.len() ==> k < (#[trigger] g@[i])@.len(),
    ensures
        w == col_width(grid_view(g@), k as int),
{
    let ghost gv = grid_view(g@);
    let mut w: usize = 0;
    let mut i: usize = 0;
    while i < g.len()
        invariant
            i <= g@.len(),
            gv == grid_view(g@),
            forall|t: int| 0 <= t < g@.len() ==> k < (#[trigger] g@[t])@.len(),
            w == col_width(gv.subrange(0, i as int), k as int),
        decreases g@.len() - i,
    {
        let t = chars_of(g[i][k].text.as_str());
        assert(gv.subrange(0, i + 1 as int).drop_last() == gv.subrange(0, i as int));
        assert(gv.subrange(0, i + 1 as int).last()[k as int].0 == t@);
        if t.len() > w {
            w = t.len();
        }
        i = i + 1;
    }
    assert(gv.subrange(0, g@.len() as int) == gv);
    w
}

/// Renders a grid: in detailed mode every field is padded to its column's
/// width by the first row's alignment; in compact mode no padding is done.
pub fn render(g: &Vec<Vec<Field>>, detailed: bool) -> (r: String)
    requires
        uniform(grid_view(g@)),
    ensures
        r@ == rendered(grid_view(g@), detailed),
{
    let ghost gv = grid_view(g@);
    let mut out: Vec<char> = Vec::new();
    if g.len() == 0 {
        assert(out@ =~= rendered(gv, detailed));
        return string_of(&out);
    }
    let ncols = g[0].len();
    let mut widths: Vec<usize> = Vec::new();
    if detailed {
        let mut k: usize = 0;
        while k < ncols
            invariant
                k <= ncols,
                ncols == g@[0]@.len(),
                gv == grid_view(g@),
                uniform(gv),
                widths@.len() == k,
                forall|c: int| 0 <= c < k ==> widths@[c] == col_width(gv, c),
            decreases ncols - k,
        {
            assert forall|i: int| 0 <= i < g@.len() implies k < (#[trigger] g@[i])@.len() by {
                assert(gv[i].len() == gv[0].len());
            }
            let w = column_width(g, k);
            widths.push(w);
            k = k + 1;
        }
    }
    let mut i: usize = 0;
    while i < g.len()
        invariant
            i <= g@.len(),
            g@.len() > 0,
            ncols == g@[0]@.len(),
            gv == grid_view(g@),
            uniform(gv),
            detailed ==> widths@.len() == ncols,
            detailed ==> forall|c: int| 0 <= c < ncols ==> widths@[c] == col_width(gv, c),
            detailed ==> out@ == detailed_rows(gv, i as int),
            !detailed ==> out@ == compact_rows(gv, i as int),
        decreases g@.len() - i,
    {
        let row = &g[i];
        let ghost rv = gv[i as int];
        assert(rv.len() == ncols) by {
            assert(gv[i as int].len() == gv[0].len());
        }
        let ghost start = out@;
        let mut k: usize = 0;
        while k < row.len()
            invariant
                k <= row@.len(),
                row@.len() == ncols,
                rv == row_view(row@),
                gv == grid_view(g@),
                g@.len() > 0,
                i < g@.len(),
                rv == gv[i as int],
                ncols == g@[0]@.len(),
                detailed ==> widths@.len() == ncols,
                detailed ==> forall|c: int| 0 <= c < ncols ==> widths@[c] == col_width(gv, c),
                detailed ==> out@ == start + detailed_fields(gv, rv, k as int),
                !detailed ==> out@ == start + compact_fields(rv, k as int),
            decreases row@.len() - k,
        {
            let t = chars_of(row[k].text.as_str());
            if detailed {
                let w = widths[k];
                proof {
                    lemma_width_bounds(gv, k as int);
                    assert(gv[i as int][k as int].0 == t@);
                }
                match g[0][k].align {
                    Align::Right => {
                        push_spaces(&mut out, w - t.len());
                        push_all(&mut out, &t);
                    },
                    Align::Left => {
                        push_all(&mut out, &t);
                        push_spaces(&mut out, w - t.len());
                    },
                    Align::Unpadded => {
                        push_all(&mut out, &t);
                    },
                }
                out.push(' ');
                proof {
                    assert(gv[0][k as int].1 == g@[0]@[k as int].align);
                    assert(out@ =~= start + detailed_fields(gv, rv, k + 1));
                }
            } else {
                push_all(&mut out, &t);
                out.push(' ');
                assert(out@ =~= start + compact_fields(rv, k + 1));
            }
            k = k + 1;
        }
        if detailed {
            out.push('\n');
            assert(out@ =~= detailed_rows(gv, i + 1));
        } else {
            out.push(' ');
            assert(out@ =~= compact_rows(gv, i + 1));
        }
        i = i + 1;
    }
    if !detailed {
        out.push('\n');
    }
    assert(out@ =~= rendered(gv, detailed));
    string_of(&out)
}

} // verus!

verus! {

/// In detailed mode every padded field of column `k` takes exactly the
/// column's width, whichever row it is in.
pub proof fn lemma_padded_width(g: Seq<Seq<(Seq<char>, Align)>>, k: int, i: int, a: Align)
    requires
        0 <= i < g.len(),
        a != Align::Unpadded,
    ensures
        padded(g[i][k].0, col_width(g, k), a).len() == col_width(g, k),
{
    lemma_width_bounds(g, k);
}

/// An empty grid renders as nothing at all, in either mode.
pub proof fn lemma_empty_grid(detailed: bool)
    ensures
        rendered(Seq::<Seq<(Seq<char>, Align)>>::empty(), detailed) == Seq::<char>::empty(),
{
}

} // verus!
