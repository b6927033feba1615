//! General properties of the widget model, stated and proved once over
//! the ghost tree: out-of-range queries are empty, grid division never
//! exceeds the assigned total, nested margins collapse, size assignment
//! is idempotent, and a degenerate frame renders as nothing.

use vstd::prelude::*;
use crate::cell::{VChar, eff_cell, cell_is_empty};
use crate::geom::{sat_i, tdiv, min_i};
use crate::model::{
    WView,
    text_layout,
    max_line_of,
    row_width,
    row_height,
    col_width,
    col_height,
    row_cell,
    col_cell,
    set_all,
    sum_widths,
    sum_heights,
    tdiv_z,
    LINE_CAP,
    lemma_text_layout_wf,
    lemma_dims_in_range,
    lemma_set_all_len,
    lemma_set_all_index,
};
use crate::render::render_spec;

verus! {

/// No line is longer than the longest line.
proof fn lemma_max_line_elem(lines: Seq<Seq<VChar>>, i: int)
    requires
        0 <= i < lines.len(),
    ensures
        lines[i].len() <= max_line_of(lines),
    decreases lines.len(),
{
    if i == lines.len() - 1 {
    } else {
        lemma_max_line_elem(lines.drop_last(), i);
        assert(lines.drop_last()[i] == lines[i]);
    }
}

/// The longest line of a capped buffer stays below the capacity bound.
proof fn lemma_max_line_le_cap(lines: Seq<Seq<VChar>>)
    requires
        forall|i: int| 0 <= i < lines.len() ==> (#[trigger] lines[i]).len() <= LINE_CAP as int,
    ensures
        0 <= max_line_of(lines) <= LINE_CAP as int,
    decreases lines.len(),
{
    if lines.len() > 0 {
        assert(forall|i: int|
            0 <= i < lines.drop_last().len() ==> (#[trigger] lines.drop_last()[i]).len()
                <= LINE_CAP as int);
        lemma_max_line_le_cap(lines.drop_last());
    }
}

/// A width sum decomposes at the front.
proof fn lemma_sum_widths_front(cs: Seq<WView>)
    requires
        cs.len() > 0,
    ensures
        sum_widths(cs) == cs[0].width() + sum_widths(cs.skip(1)),
    decreases cs.len(),
{
    if cs.len() == 1 {
        assert(cs.drop_last().len() == 0);
        assert(cs.skip(1).len() == 0);
        assert(sum_widths(cs.skip(1)) == 0);
        assert(sum_widths(cs) == sum_widths(cs.drop_last()) + cs.last().width());
    } else {
        lemma_sum_widths_front(cs.drop_last());
        assert(cs.drop_last()[0] == cs[0]);
        assert(cs.skip(1).drop_last() =~= cs.drop_last().skip(1));
        assert(cs.skip(1).last() == cs.last());
        assert(sum_widths(cs) == sum_widths(cs.drop_last()) + cs.last().width());
        assert(sum_widths(cs.skip(1)) == sum_widths(cs.skip(1).drop_last()) + cs.skip(
            1,
        ).last().width());
    }
}

/// A height sum decomposes at the front.
proof fn lemma_sum_heights_front(cs: Seq<WView>)
    requires
        cs.len() > 0,
    ensures
        sum_heights(cs) == cs[0].height() + sum_heights(cs.skip(1)),
    decreases cs.len(),
{
    if cs.len() == 1 {
        assert(cs.drop_last().len() == 0);
        assert(cs.skip(1).len() == 0);
        assert(sum_heights(cs.skip(1)) == 0);
        assert(sum_heights(cs) == sum_heights(cs.drop_last()) + cs.last().height());
    } else {
        lemma_sum_heights_front(cs.drop_last());
        assert(cs.drop_last()[0] == cs[0]);
        assert(cs.skip(1).drop_last() =~= cs.drop_last().skip(1));
        assert(cs.skip(1).last() == cs.last());
        assert(sum_heights(cs) == sum_heights(cs.drop_last()) + cs.last().height());
        assert(sum_heights(cs.skip(1)) == sum_heights(cs.skip(1).drop_last()) + cs.skip(
            1,
        ).last().height());
    }
}

/// With non-negative extents whose sum fits the machine word, the
/// saturating row width is the exact sum.
proof fn lemma_row_width_exact(cs: Seq<WView>)
    requires
        forall|i: int| 0 <= i < cs.len() ==> (#[trigger] cs[i]).width() >= 0,
        sum_widths(cs) <= isize::MAX as int,
    ensures
        0 <= sum_widths(cs),
        row_width(cs) == sum_widths(cs),
    decreases cs.len(),
{
    if cs.len() > 0 {
        assert(forall|i: int|
            0 <= i < cs.drop_last().len() ==> (#[trigger] cs.drop_last()[i]).width() >= 0);
        assert(cs.last().width() >= 0);
        lemma_row_width_exact(cs.drop_last());
    }
}

/// With non-negative extents whose sum fits the machine word, the
/// saturating column height is the exact sum.
proof fn lemma_col_height_exact(cs: Seq<WView>)
    requires
        forall|i: int| 0 <= i < cs.len() ==> (#[trigger] cs[i]).height() >= 0,
        sum_heights(cs) <= isize::MAX as int,
    ensures
        0 <= sum_heights(cs),
        col_height(cs) == sum_heights(cs),
    decreases cs.len(),
{
    if cs.len() > 0 {
        assert(forall|i: int|
            0 <= i < cs.drop_last().len() ==> (#[trigger] cs.drop_last()[i]).height() >= 0);
        assert(cs.last().height() >= 0);
        lemma_col_height_exact(cs.drop_last());
    }
}

/// No row child is taller than the row.
proof fn lemma_row_height_elem(cs: Seq<WView>, i: int)
    requires
        0 <= i < cs.len(),
    ensures
        cs[i].height() <= row_height(cs),
        row_height(cs) >= 0,
    decreases cs.len(),
{
    if cs.len() == 0 {
    } else if i == cs.len() - 1 {
        lemma_row_height_nonneg(cs.drop_last());
    } else {
        lemma_row_height_elem(cs.drop_last(), i);
        assert(cs.drop_last()[i] == cs[i]);
    }
}

/// Row height is never negative.
proof fn lemma_row_height_nonneg(cs: Seq<WView>)
    ensures
        row_height(cs) >= 0,
    decreases cs.len(),
{
    if cs.len() > 0 {
        lemma_row_height_nonneg(cs.drop_last());
    }
}

/// Dropping the first child cannot raise the row height.
proof fn lemma_row_height_skip(cs: Seq<WView>)
    requires
        cs.len() > 0,
    ensures
        row_height(cs.skip(1)) <= row_height(cs),
    decreases cs.len(),
{
    if cs.len() == 1 {
        assert(cs.skip(1).len() == 0);
        lemma_row_height_nonneg(cs);
    } else {
        lemma_row_height_skip(cs.drop_last());
        assert(cs.skip(1).drop_last() =~= cs.drop_last().skip(1));
        assert(cs.skip(1).last() == cs.last());
    }
}

/// No column child is wider than the column.
proof fn lemma_col_width_elem(cs: Seq<WView>, i: int)
    requires
        0 <= i < cs.len(),
    ensures
        cs[i].width() <= col_width(cs),
        col_width(cs) >= 0,
    decreases cs.len(),
{
    if cs.len() == 0 {
    } else if i == cs.len() - 1 {
        lemma_col_width_nonneg(cs.drop_last());
    } else {
        lemma_col_width_elem(cs.drop_last(), i);
        assert(cs.drop_last()[i] == cs[i]);
    }
}

/// Column width is never negative.
proof fn lemma_col_width_nonneg(cs: Seq<WView>)
    ensures
        col_width(cs) >= 0,
    decreases cs.len(),
{
    if cs.len() > 0 {
        lemma_col_width_nonneg(cs.drop_last());
    }
}

/// Dropping the first child cannot raise the column width.
proof fn lemma_col_width_skip(cs: Seq<WView>)
    requires
        cs.len() > 0,
    ensures
        col_width(cs.skip(1)) <= col_width(cs),
    decreases cs.len(),
{
    if cs.len() == 1 {
        assert(cs.skip(1).len() == 0);
        lemma_col_width_nonneg(cs);
    } else {
        lemma_col_width_skip(cs.drop_last());
        assert(cs.skip(1).drop_last() =~= cs.drop_last().skip(1));
        assert(cs.skip(1).last() == cs.last());
    }
}

/// Out-of-range cells of a row of laid-out children are empty.
proof fn lemma_row_cell_empty(cs: Seq<WView>, x: int, y: int)
    requires
        forall|i: int| 0 <= i < cs.len() ==> (#[trigger] cs[i]).wf(),
        forall|i: int| 0 <= i < cs.len() ==> (#[trigger] cs[i]).laid_out(),
        forall|i: int| 0 <= i < cs.len() ==> (#[trigger] cs[i]).width() >= 0,
        sum_widths(cs) <= isize::MAX as int,
        x < 0 || y < 0 || x >= row_width(cs) || y >= row_height(cs),
    ensures
        cell_is_empty(row_cell(cs, x, y)),
    decreases cs,
{
    if cs.len() == 0 {
    } else {
        lemma_row_width_exact(cs);
        lemma_sum_widths_front(cs);
        assert(forall|i: int| 0 <= i < cs.skip(1).len() ==> (#[trigger] cs.skip(1)[i]).wf());
        assert(forall|i: int|
            0 <= i < cs.skip(1).len() ==> (#[trigger] cs.skip(1)[i]).laid_out());
        assert(forall|i: int|
            0 <= i < cs.skip(1).len() ==> (#[trigger] cs.skip(1)[i]).width() >= 0);
        lemma_row_width_exact(cs.skip(1));
        lemma_row_height_elem(cs, 0);
        lemma_row_height_skip(cs);
        if x < cs[0].width() {
            // The query lands in the first child; the reason it is out of
            // range must be vertical or a negative column.
            assert(x < row_width(cs) || x < 0);
            lemma_cell_empty_outside(cs[0], x, y);
        } else {
            let x2 = sat_i(x - cs[0].width());
            assert(x2 >= 0);
            assert(x2 >= row_width(cs.skip(1)) || y < 0 || y >= row_height(cs.skip(1)) || x2 < 0);
            lemma_row_cell_empty(cs.skip(1), x2, y);
        }
    }
}

/// Out-of-range cells of a column of laid-out children are empty.
proof fn lemma_col_cell_empty(cs: Seq<WView>, x: int, y: int)
    requires
        forall|i: int| 0 <= i < cs.len() ==> (#[trigger] cs[i]).wf(),
        forall|i: int| 0 <= i < cs.len() ==> (#[trigger] cs[i]).laid_out(),
        forall|i: int| 0 <= i < cs.len() ==> (#[trigger] cs[i]).height() >= 0,
        sum_heights(cs) <= isize::MAX as int,
        x < 0 || y < 0 || x >= col_width(cs) || y >= col_height(cs),
    ensures
        cell_is_empty(col_cell(cs, x, y)),
    decreases cs,
{
    if cs.len() == 0 {
    } else {
        lemma_col_height_exact(cs);
        lemma_sum_heights_front(cs);
        assert(forall|i: int| 0 <= i < cs.skip(1).len() ==> (#[trigger] cs.skip(1)[i]).wf());
        assert(forall|i: int|
            0 <= i < cs.skip(1).len() ==> (#[trigger] cs.skip(1)[i]).laid_out());
        assert(forall|i: int|
            0 <= i < cs.skip(1).len() ==> (#[trigger] cs.skip(1)[i]).height() >= 0);
        lemma_col_height_exact(cs.skip(1));
        lemma_col_width_elem(cs, 0);
        lemma_col_width_skip(cs);
        if y < cs[0].height() {
            assert(y < col_height(cs) || y < 0);
            lemma_cell_empty_outside(cs[0], x, y);
        } else {
            let y2 = sat_i(y - cs[0].height());
            assert(y2 >= 0);
            assert(y2 >= col_height(cs.skip(1)) || x < 0 || x >= col_width(cs.skip(1)) || y2 < 0);
            lemma_col_cell_empty(cs.skip(1), x, y2);
        }
    }
}

/// Every widget answers the empty cell outside its own box
/// `[0,width) x [0,height)`, for every laid-out, well-formed tree —
/// including one whose assigned width or height is negative, whose box is
/// then empty.
pub proof fn lemma_cell_empty_outside(v: WView, x: int, y: int)
    requires
        v.wf(),
        v.laid_out(),
        !(0 <= x < v.width() && 0 <= y < v.height()),
    ensures
        cell_is_empty(v.cell(x, y)),
    decreases v,
{
    match v {
        WView::Term(t) => {},
        WView::Text { width, content } => {
            lemma_text_layout_wf(width, content);
            let t = text_layout(width, content);
            if 0 <= y < t.lines.len() && 0 <= x < t.lines[y].len() && x < t.width {
                lemma_max_line_elem(t.lines, y);
                lemma_max_line_le_cap(t.lines);
            }
        },
        WView::Margin { .. } => {},
        WView::Center { w, h, cw, ch, child } => {
            lemma_dims_in_range(*child);
            lemma_dims_in_range(v);
            let hx = tdiv_z(sat_i(w - cw), 2);
            let hy = tdiv_z(sat_i(h - ch), 2);
            let d = sat_i(w - cw);
            let e = sat_i(h - ch);
            vstd::arithmetic::div_mod::lemma_div_pos_is_pos(d, 2);
            vstd::arithmetic::div_mod::lemma_div_nonincreasing(d, 2);
            vstd::arithmetic::div_mod::lemma_div_pos_is_pos(e, 2);
            vstd::arithmetic::div_mod::lemma_div_nonincreasing(e, 2);
            assert(0 <= hx <= d);
            assert(0 <= hy <= e);
            let cx = sat_i(x - hx);
            let cy = sat_i(y - hy);
            if x < 0 || x >= v.width() || y < 0 || y >= v.height() {
                if x < 0 {
                    assert(cx < 0);
                } else if x >= v.width() {
                    assert(w - hx >= cw);
                    assert(cx >= cw);
                }
                if y < 0 {
                    assert(cy < 0);
                } else if y >= v.height() {
                    assert(h - hy >= ch);
                    assert(cy >= ch);
                }
                lemma_cell_empty_outside(*child, cx, cy);
            }
        },
        WView::Spacer { w, h, child } => {
            if x < 0 || y < 0 {
                lemma_cell_empty_outside(*child, x, y);
            } else {
                assert(x >= child.width() || y >= child.height());
                lemma_cell_empty_outside(*child, x, y);
            }
        },
        WView::Max { .. } => {},
        WView::Back { color, child } => {
            lemma_cell_empty_outside(*child, x, y);
        },
        WView::Frame { .. } => {},
        WView::Row { children } => {
            lemma_row_cell_empty(children, x, y);
        },
        WView::Col { children } => {
            lemma_col_cell_empty(children, x, y);
        },
    }
}

/// Dividing a grid's extent evenly never hands out more than the total:
/// with `n` children each assigned the floor of `total / n`, the assigned
/// extents sum to at most the total, and the dropped remainder is less
/// than one extra cell per child. The leftover cells at the end of the
/// grid render empty, as `lemma_cell_empty_outside` shows.
pub proof fn lemma_grid_even_division(total: int, n: int)
    requires
        n >= 1,
        total >= 0,
    ensures
        0 <= n * tdiv(total, n) <= total,
        0 <= total - n * tdiv(total, n) < n,
{
    vstd::arithmetic::div_mod::lemma_fundamental_div_mod(total, n);
    vstd::arithmetic::div_mod::lemma_div_pos_is_pos(total, n);
    vstd::arithmetic::div_mod::lemma_mod_bound(total, n);
}

/// Assigning a size to a grid row assigns each child exactly the evenly
/// divided extent.
pub proof fn lemma_row_set_children(cs: Seq<WView>, w: int, h: int, i: int)
    requires
        cs.len() >= 1,
        0 <= i < cs.len(),
    ensures
        (WView::Row { children: cs }).set_size(w, h) == (WView::Row {
            children: set_all(cs, tdiv(w, sat_i(cs.len() as int)), h),
        }),
        set_all(cs, tdiv(w, sat_i(cs.len() as int)), h)[i] == cs[i].set_size(
            tdiv(w, sat_i(cs.len() as int)),
            h,
        ),
{
    lemma_set_all_index(cs, tdiv(w, sat_i(cs.len() as int)), h, i);
}

/// A margin wrapped in an equal margin is one margin of twice the band:
/// the natural sizes agree and every cell agrees. The bands must be
/// small enough that the doubled margin does not overflow the machine
/// word; at the overflow boundary the two sizes saturate differently.
pub proof fn lemma_margin_compose(dx: int, dy: int, c: WView, x: int, y: int)
    requires
        c.wf(),
        0 <= dx,
        0 <= dy,
        c.width() + 4 * dx <= isize::MAX as int,
        c.height() + 4 * dy <= isize::MAX as int,
    ensures
        ({
            let m1 = WView::Margin {
                dx,
                dy,
                child: Box::new(WView::Margin { dx, dy, child: Box::new(c) }),
            };
            let m2 = WView::Margin { dx: dx + dx, dy: dy + dy, child: Box::new(c) };
            m1.width() == m2.width() && m1.height() == m2.height() && m1.cell(x, y) == m2.cell(
                x,
                y,
            )
        }),
{
    let inner = WView::Margin { dx, dy, child: Box::new(c) };
    let m1 = WView::Margin { dx, dy, child: Box::new(inner) };
    let m2 = WView::Margin { dx: dx + dx, dy: dy + dy, child: Box::new(c) };
    lemma_dims_in_range(c);
    let cw = c.width();
    let chh = c.height();
    assert(inner.width() == cw + 2 * dx);
    assert(inner.height() == chh + 2 * dy);
    let wi = inner.width();
    let hi = inner.height();
    assert(m1.width() == wi + 2 * dx);
    assert(m1.height() == hi + 2 * dy);
    assert(m2.width() == cw + 2 * (dx + dx));
    assert(m2.height() == chh + 2 * (dy + dy));
    let w = m1.width();
    let h = m1.height();
    if x < 0 || y < 0 || x >= w || y >= h {
        assert(m1.cell(x, y) == Option::None::<VChar>);
        assert(m2.cell(x, y) == Option::None::<VChar>);
    } else if dx <= x < w - dx && dy <= y < h - dy {
        // Inside the outer band; the coordinate reaches the inner margin,
        // whose own box certainly contains it.
        let xi = x - dx;
        let yi = y - dy;
        assert(0 <= xi && xi < wi);
        assert(0 <= yi && yi < hi);
        assert(m1.cell(x, y) == Option::Some(eff_cell(inner.cell(xi, yi))));
        if dx <= xi < wi - dx && dy <= yi < hi - dy {
            assert(inner.cell(xi, yi) == Option::Some(eff_cell(c.cell(xi - dx, yi - dy))));
            assert(m1.cell(x, y) == Option::Some(eff_cell(c.cell(x - (dx + dx), y - (dy + dy)))));
            assert(m2.cell(x, y) == Option::Some(eff_cell(c.cell(x - (dx + dx), y - (dy + dy)))));
        } else {
            assert(inner.cell(xi, yi) == Option::Some(VChar::spec_space()));
            assert(m1.cell(x, y) == Option::Some(VChar::spec_space()));
            assert(m2.cell(x, y) == Option::Some(VChar::spec_space()));
        }
    } else {
        // The outer margin band itself.
        assert(m1.cell(x, y) == Option::Some(VChar::spec_space()));
        assert(x < dx + dx || x >= w - (dx + dx) || y < dy + dy || y >= h - (dy + dy));
        assert(m2.cell(x, y) == Option::Some(VChar::spec_space()));
    }
}

/// Children of identical views assigned the same size pointwise stay
/// identical, so reassignment of a grid is pointwise reassignment.
proof fn lemma_set_all_idempotent(cs: Seq<WView>, w: int, h: int)
    requires
        forall|i: int| 0 <= i < cs.len() ==> (#[trigger] cs[i]).wf(),
        isize::MIN as int <= w <= isize::MAX as int,
        isize::MIN as int <= h <= isize::MAX as int,
    ensures
        set_all(set_all(cs, w, h), w, h) == set_all(cs, w, h),
    decreases cs,
{
    lemma_set_all_len(cs, w, h);
    lemma_set_all_len(set_all(cs, w, h), w, h);
    assert forall|i: int| 0 <= i < cs.len() implies #[trigger] set_all(set_all(cs, w, h), w, h)[i]
        == set_all(cs, w, h)[i] by {
        lemma_set_all_index(cs, w, h, i);
        lemma_set_all_index(set_all(cs, w, h), w, h, i);
        lemma_set_size_idempotent(cs[i], w, h);
    }
    assert(set_all(set_all(cs, w, h), w, h) =~= set_all(cs, w, h));
}

/// Assigning the same size twice is the same as assigning it once: the
/// second assignment changes nothing, so the cell output is identical
/// both times.
pub proof fn lemma_set_size_idempotent(v: WView, w: int, h: int)
    requires
        v.wf(),
        isize::MIN as int <= w <= isize::MAX as int,
        isize::MIN as int <= h <= isize::MAX as int,
    ensures
        v.set_size(w, h).set_size(w, h) == v.set_size(w, h),
    decreases v,
{
    match v {
        WView::Term(t) => {},
        WView::Text { .. } => {},
        WView::Margin { dx, dy, child } => {
            lemma_set_size_idempotent(*child, sat_i(w - 2 * dx), sat_i(h - 2 * dy));
        },
        WView::Center { child, .. } => {
            lemma_set_size_idempotent(*child, w, h);
        },
        WView::Spacer { child, .. } => {
            lemma_set_size_idempotent(*child, w, h);
        },
        WView::Max { max_w, max_h, child } => {
            lemma_set_size_idempotent(*child, min_i(max_w, w), min_i(max_h, h));
        },
        WView::Back { child, .. } => {
            lemma_set_size_idempotent(*child, w, h);
        },
        WView::Frame { child, .. } => {
            lemma_set_size_idempotent(*child, sat_i(w - 2), sat_i(h - 2));
        },
        WView::Row { children } => {
            if children.len() > 0 {
                let avg = tdiv(w, sat_i(children.len() as int));
                crate::model::lemma_grid_avg_in_range(w, children.len() as int);
                lemma_set_all_len(children, avg, h);
                lemma_set_all_idempotent(children, avg, h);
            }
        },
        WView::Col { children } => {
            if children.len() > 0 {
                let avg = tdiv(h, sat_i(children.len() as int));
                crate::model::lemma_grid_avg_in_range(h, children.len() as int);
                lemma_set_all_len(children, w, avg);
                lemma_set_all_idempotent(children, w, avg);
            }
        },
    }
}

/// A frame of zero or negative size renders as the empty string.
pub proof fn lemma_render_degenerate(v: WView)
    requires
        v.width() <= 0 || v.height() <= 0,
    ensures
        render_spec(v) == Seq::<char>::empty(),
{
}

} // verus!
