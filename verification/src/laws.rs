//! Laws of the renderer: proved statements about the rendering contract
//! that relate its stages and modes across all inputs.

use crate::arith::{lemma_round_away_exact, lemma_round_away_monotone, lemma_round_away_zero};
use crate::config::{spec_validate, Params};
use crate::error::ChartError;
use crate::grid::{cell_at, drawn_rows, glyph_for, prev_row, row_of};
use crate::numfmt::{
    fmt_char, lemma_fmt_fixed_chars, lemma_fmt_sample_chars, spec_fmt_fixed, spec_fmt_sample,
};
use crate::render::{
    bound_bad, bound_value, chart_cell, label_text, spec_grid_lines, spec_line, spec_render,
};
use crate::sample::{
    finite_values, lemma_finite_values_all, lemma_finite_values_member, lemma_finite_values_none,
    lemma_seq_min_max_bounds, lemma_seq_min_max_member, sample_ge, seq_max, seq_min, Sample,
};
use crate::symbols::Symbols;
use crate::text::{
    count_char, lemma_join_lines_chars, lemma_join_lines_contains, lemma_join_lines_len,
    lemma_join_lines_newlines,
};
use vstd::prelude::*;

verus! {

/// A configuration the renderer can always work under: positive dimensions,
/// and explicit bounds that are absent or finite, in order when both are
/// given.
pub open spec fn usable_params(p: Params) -> bool {
    &&& p.height >= 1
    &&& p.width >= 1
    &&& !bound_bad(p.min)
    &&& !bound_bad(p.max)
    &&& !(p.min matches Some(a) && p.max matches Some(b) && sample_ge(a, b))
}

/// Rendering succeeds, with non-empty text, on every non-empty series
/// holding at least one finite sample, under a usable configuration.
pub proof fn lemma_render_succeeds(series: Seq<Sample>, p: Params)
    requires
        usable_params(p),
        series.len() > 0,
        exists|i: int| 0 <= i < series.len() && (#[trigger] series[i]) is Finite,
    ensures
        spec_render(series, p) is Ok,
        spec_render(series, p)->Ok_0.len() > 0,
{
    if series.len() == 1 {
        lemma_fmt_sample_chars(series[0], p.precision as nat);
    } else {
        let i = choose|i: int| 0 <= i < series.len() && (#[trigger] series[i]) is Finite;
        lemma_finite_values_member(series, i);
        let fv = finite_values(series);
        let vmin = bound_value(p.min, seq_min(fv));
        let vmax = bound_value(p.max, seq_max(fv));
        if vmax == vmin {
            lemma_fmt_fixed_chars(vmin, p.precision as nat);
        } else {
            let lines = spec_grid_lines(series, p, vmin, vmax);
            assert(lines.len() == p.height + 1);
            assert(lines.last().len() >= 1);
            lemma_join_lines_len(lines);
        }
    }
}

/// An empty series under a valid configuration always fails with
/// `EmptyData`.
pub proof fn lemma_empty_series(series: Seq<Sample>, p: Params)
    requires
        spec_validate(p) is Ok,
        series.len() == 0,
    ensures
        spec_render(series, p) == Err::<Seq<char>, ChartError>(ChartError::EmptyData),
{
}

/// A multi-sample series without a single finite value always fails with
/// `InvalidRange` under a valid configuration.  (A one-sample series takes
/// the single-value shortcut instead and prints the non-finite name.)
pub proof fn lemma_no_finite_sample(series: Seq<Sample>, p: Params)
    requires
        spec_validate(p) is Ok,
        series.len() >= 2,
        forall|i: int| 0 <= i < series.len() ==> !((#[trigger] series[i]) is Finite),
    ensures
        spec_render(series, p) == Err::<Seq<char>, ChartError>(ChartError::InvalidRange),
{
    lemma_finite_values_none(series);
}

/// A one-sample series renders as exactly the formatted text of its sample.
pub proof fn lemma_single_sample(series: Seq<Sample>, p: Params)
    requires
        spec_validate(p) is Ok,
        series.len() == 1,
    ensures
        spec_render(series, p) == Ok::<Seq<char>, ChartError>(
            spec_fmt_sample(series[0], p.precision as nat),
        ),
{
}

/// A flat series — every sample the same finite value — renders as the
/// formatted text of that value, not as a grid, under automatic bounds.
pub proof fn lemma_flat_series(series: Seq<Sample>, p: Params, v: i64)
    requires
        p.height >= 1,
        p.width >= 1,
        p.min is None,
        p.max is None,
        series.len() >= 2,
        forall|i: int| 0 <= i < series.len() ==> #[trigger] series[i] == Sample::Finite(v),
    ensures
        spec_render(series, p) == Ok::<Seq<char>, ChartError>(
            spec_fmt_fixed(v as int, p.precision as nat),
        ),
{
    assert(forall|i: int| 0 <= i < series.len() ==> (#[trigger] series[i]) is Finite);
    lemma_finite_values_all(series);
    let fv = finite_values(series);
    assert forall|i: int| 0 <= i < fv.len() implies fv[i] == v as int by {
        assert(series[i] == Sample::Finite(v));
        assert(fv[i] == series[i].spec_value());
    }
    lemma_seq_min_max_member(fv);
    let i = choose|i: int| 0 <= i < fv.len() && fv[i] == seq_min(fv);
    let j = choose|j: int| 0 <= j < fv.len() && fv[j] == seq_max(fv);
    assert(seq_min(fv) == v as int);
    assert(seq_max(fv) == v as int);
}

/// A zero height or width always fails with `InvalidDimensions`, whatever
/// the series holds.
pub proof fn lemma_zero_dimensions(series: Seq<Sample>, p: Params)
    requires
        p.height == 0 || p.width == 0,
    ensures
        spec_render(series, p) == Err::<Seq<char>, ChartError>(ChartError::InvalidDimensions),
{
}

/// Explicit bounds out of order (`min >= max`, equality included) always
/// fail with `InvalidRange` once the dimensions pass, whatever the series
/// holds.
pub proof fn lemma_inverted_bounds(series: Seq<Sample>, p: Params)
    requires
        p.height >= 1,
        p.width >= 1,
        p.min matches Some(a) && p.max matches Some(b) && sample_ge(a, b),
    ensures
        spec_render(series, p) == Err::<Seq<char>, ChartError>(ChartError::InvalidRange),
{
}

/// A character the grid itself can produce: a blank or one of the six line
/// and corner glyphs.
pub open spec fn is_line_glyph(c: char, sym: Symbols) -> bool {
    c == ' ' || c == sym.horizontal || c == sym.vertical || c == sym.top_right || c
        == sym.bottom_right || c == sym.bottom_left || c == sym.top_left
}

/// No glyph of this set is a newline.
pub open spec fn newline_free_symbols(sym: Symbols) -> bool {
    &&& sym.horizontal != '\n'
    &&& sym.vertical != '\n'
    &&& sym.top_right != '\n'
    &&& sym.bottom_right != '\n'
    &&& sym.bottom_left != '\n'
    &&& sym.top_left != '\n'
    &&& sym.axis_vertical != '\n'
}

/// Every character of an output row is a grid glyph, the axis separator, or
/// a label character; without labels, a grid glyph alone.
pub proof fn lemma_line_chars(
    pts: Seq<Option<usize>>,
    idx: int,
    p: Params,
    vmin: int,
    vmax: int,
    k: int,
)
    requires
        0 <= k < spec_line(pts, idx, p, vmin, vmax).len(),
    ensures
        !p.show_labels ==> is_line_glyph(spec_line(pts, idx, p, vmin, vmax)[k], p.symbols),
        p.show_labels ==> is_line_glyph(spec_line(pts, idx, p, vmin, vmax)[k], p.symbols)
            || spec_line(pts, idx, p, vmin, vmax)[k] == p.symbols.axis_vertical || fmt_char(
            spec_line(pts, idx, p, vmin, vmax)[k],
        ),
{
    let line = spec_line(pts, idx, p, vmin, vmax);
    if p.show_labels {
        let lbl = label_text(
            idx,
            vmin,
            vmax,
            p.height as int,
            p.label_ticks as int,
            p.precision as nat,
        );
        if k < lbl.len() {
            assert(line[k] == lbl[k]);
            lemma_fmt_fixed_chars(
                crate::render::row_value(idx, vmin, vmax, p.height as int),
                p.precision as nat,
            );
            assert(lbl[k] == ' ' || fmt_char(lbl[k]));
        } else if k == lbl.len() {
            assert(line[k] == p.symbols.axis_vertical);
        } else {
            let j = k - lbl.len() - 1;
            assert(line[k] == chart_cell(pts, idx, j, p.symbols));
        }
    } else {
        assert(line[k] == cell_at(pts, idx, k, p.symbols));
    }
}

/// On the full-grid path the output has exactly `height` newlines — that
/// is, `height + 1` rows — whenever no glyph is itself a newline.
pub proof fn lemma_grid_row_count(series: Seq<Sample>, p: Params)
    requires
        usable_params(p),
        series.len() >= 2,
        finite_values(series).len() > 0,
        bound_value(p.max, seq_max(finite_values(series))) != bound_value(
            p.min,
            seq_min(finite_values(series)),
        ),
        newline_free_symbols(p.symbols),
    ensures
        spec_render(series, p) is Ok,
        count_char(spec_render(series, p)->Ok_0, '\n') == p.height,
{
    let fv = finite_values(series);
    let vmin = bound_value(p.min, seq_min(fv));
    let vmax = bound_value(p.max, seq_max(fv));
    let lines = spec_grid_lines(series, p, vmin, vmax);
    let pts = drawn_rows(series, vmin, vmax, p.height as int, p.width as int);
    assert forall|i: int, k: int|
        0 <= i < lines.len() && 0 <= k < lines[i].len() implies #[trigger] lines[i][k] != '\n' by {
        assert(lines[i] == spec_line(pts, i, p, vmin, vmax));
        lemma_line_chars(pts, i, p, vmin, vmax, k);
    }
    lemma_join_lines_newlines(lines);
}

/// Without labels, every character of the full-grid output is a blank, a
/// newline, or one of the six line and corner glyphs; so an axis separator
/// distinct from all of those never appears.
pub proof fn lemma_no_labels_no_axis(series: Seq<Sample>, p: Params)
    requires
        usable_params(p),
        p.show_labels == false,
        series.len() >= 2,
        finite_values(series).len() > 0,
        bound_value(p.max, seq_max(finite_values(series))) != bound_value(
            p.min,
            seq_min(finite_values(series)),
        ),
        !is_line_glyph(p.symbols.axis_vertical, p.symbols),
        p.symbols.axis_vertical != '\n',
    ensures
        spec_render(series, p) is Ok,
        !spec_render(series, p)->Ok_0.contains(p.symbols.axis_vertical),
{
    let fv = finite_values(series);
    let vmin = bound_value(p.min, seq_min(fv));
    let vmax = bound_value(p.max, seq_max(fv));
    let lines = spec_grid_lines(series, p, vmin, vmax);
    let pts = drawn_rows(series, vmin, vmax, p.height as int, p.width as int);
    let ax = p.symbols.axis_vertical;
    if spec_render(series, p)->Ok_0.contains(ax) {
        lemma_join_lines_chars(lines, ax);
        let i = choose|i: int| 0 <= i < lines.len() && #[trigger] lines[i].contains(ax);
        let k = choose|k: int| 0 <= k < lines[i].len() && lines[i][k] == ax;
        assert(lines[i] == spec_line(pts, i, p, vmin, vmax));
        lemma_line_chars(pts, i, p, vmin, vmax, k);
    }
}

/// Samples at or beyond the drawable window do not matter: two series that
/// agree on the window render identically under explicit finite bounds.
pub proof fn lemma_truncation(s1: Seq<Sample>, s2: Seq<Sample>, p: Params)
    requires
        p.height >= 1,
        p.width >= 3,
        p.min matches Some(a) && a is Finite,
        p.max matches Some(b) && b is Finite,
        !(p.min matches Some(a) && p.max matches Some(b) && sample_ge(a, b)),
        s1.len() >= p.width - 1,
        s2.len() >= p.width - 1,
        s1.take(p.width - 1) == s2.take(p.width - 1),
        exists|i: int| 0 <= i < p.width - 1 && (#[trigger] s1[i]) is Finite,
    ensures
        spec_render(s1, p) == spec_render(s2, p),
{
    let w = p.width as int;
    let i = choose|i: int| 0 <= i < w - 1 && (#[trigger] s1[i]) is Finite;
    assert(s2[i] == s2.take(w - 1)[i]);
    assert(s1[i] == s1.take(w - 1)[i]);
    lemma_finite_values_member(s1, i);
    lemma_finite_values_member(s2, i);
    let vmin = bound_value(p.min, seq_min(finite_values(s1)));
    let vmax = bound_value(p.max, seq_max(finite_values(s1)));
    assert(vmin == bound_value(p.min, seq_min(finite_values(s2))));
    assert(vmax == bound_value(p.max, seq_max(finite_values(s2))));
    assert(vmin < vmax);
    let pts1 = drawn_rows(s1, vmin, vmax, p.height as int, w);
    let pts2 = drawn_rows(s2, vmin, vmax, p.height as int, w);
    assert forall|x: int| 0 <= x < w - 1 implies s1[x] == s2[x] by {
        assert(s1.take(w - 1)[x] == s1[x]);
        assert(s2.take(w - 1)[x] == s2[x]);
    }
    assert(pts1 =~= pts2);
}

/// Toggling labels changes only the gutter and the axis separator: past
/// them, a labeled row shows exactly the characters of the raw grid row,
/// except that a leading glyph equal to the separator is blanked.
pub proof fn lemma_labels_touch_only_gutter(
    series: Seq<Sample>,
    p: Params,
    vmin: int,
    vmax: int,
    idx: int,
)
    requires
        p.show_labels,
        p.width >= 1,
        0 <= idx <= p.height,
    ensures
        ({
            let q = Params { show_labels: false, ..p };
            let ell = spec_grid_lines(series, p, vmin, vmax)[idx];
            let en = spec_grid_lines(series, q, vmin, vmax)[idx];
            let w = p.width as int;
            &&& en.len() == w
            &&& ell.len() >= w
            &&& ell[ell.len() - w] == p.symbols.axis_vertical
            &&& forall|cx: int| 2 <= cx < w ==> ell[ell.len() - w + cx] == en[cx]
            &&& (p.width >= 2 ==> ell[ell.len() - w + 1] == (if en[1] == p.symbols.axis_vertical {
                ' '
            } else {
                en[1]
            }))
        }),
{
    let q = Params { show_labels: false, ..p };
    let w = p.width as int;
    let pts = drawn_rows(series, vmin, vmax, p.height as int, w);
    let ell = spec_grid_lines(series, p, vmin, vmax)[idx];
    let en = spec_grid_lines(series, q, vmin, vmax)[idx];
    let lbl = label_text(idx, vmin, vmax, p.height as int, p.label_ticks as int, p.precision as nat);
    assert(ell == spec_line(pts, idx, p, vmin, vmax));
    assert(en == spec_line(pts, idx, q, vmin, vmax));
    assert(ell.len() == lbl.len() + w);
    assert(ell[lbl.len() as int] == p.symbols.axis_vertical);
    assert forall|cx: int| 2 <= cx < w implies ell[ell.len() - w + cx] == en[cx] by {
        assert(ell[lbl.len() as int + cx] == chart_cell(pts, idx, cx - 1, p.symbols));
        assert(en[cx] == cell_at(pts, idx, cx, p.symbols));
    }
    if p.width >= 2 {
        assert(ell[lbl.len() as int + 1] == chart_cell(pts, idx, 0, p.symbols));
        assert(en[1] == cell_at(pts, idx, 1, p.symbols));
    }
}

/// Quantization is antitone: a larger value lands on the same or a higher
/// (smaller-index) row.
pub proof fn lemma_row_of_antitone(v1: int, v2: int, vmin: int, vmax: int, h: int)
    requires
        vmin < vmax,
        h >= 1,
        v1 <= v2,
    ensures
        row_of(v2, vmin, vmax, h) <= row_of(v1, vmin, vmax, h),
{
    assert((vmax - v2) * h <= (vmax - v1) * h) by (nonlinear_arith)
        requires
            v1 <= v2,
            h >= 1,
    ;
    lemma_round_away_monotone((vmax - v2) * h, (vmax - v1) * h, vmax - vmin);
}

/// The endpoints of the range quantize to the bottom and top rows.
pub proof fn lemma_row_of_endpoints(vmin: int, vmax: int, h: int)
    requires
        vmin < vmax,
        h >= 1,
    ensures
        row_of(vmin, vmin, vmax, h) == h,
        row_of(vmax, vmin, vmax, h) == 0,
{
    assert((vmax - vmin) * h == h * (vmax - vmin)) by (nonlinear_arith);
    lemma_round_away_exact(h, vmax - vmin);
    assert((vmax - vmax) * h == 0) by (nonlinear_arith);
    lemma_round_away_zero(vmax - vmin);
}

/// In a strictly ascending series every earlier sample value is at most any
/// later one.
proof fn lemma_strict_chain(series: Seq<Sample>, i: int, j: int)
    requires
        forall|k: int|
            0 <= k && k + 1 < series.len() ==> (#[trigger] series[k]).spec_value() < series[k
                + 1].spec_value(),
        0 <= i <= j < series.len(),
    ensures
        series[i].spec_value() <= series[j].spec_value(),
    decreases j - i,
{
    if i < j {
        lemma_strict_chain(series, i, j - 1);
        assert(series[j - 1].spec_value() < series[j].spec_value());
    }
}

/// In a strictly descending series every earlier sample value is at least
/// any later one.
proof fn lemma_strict_chain_down(series: Seq<Sample>, i: int, j: int)
    requires
        forall|k: int|
            0 <= k && k + 1 < series.len() ==> (#[trigger] series[k]).spec_value() > series[k
                + 1].spec_value(),
        0 <= i <= j < series.len(),
    ensures
        series[i].spec_value() >= series[j].spec_value(),
    decreases j - i,
{
    if i < j {
        lemma_strict_chain_down(series, i, j - 1);
        assert(series[j - 1].spec_value() > series[j].spec_value());
    }
}

/// When every adjacent pair lands on one row, the whole series does.
proof fn lemma_rows_chain(series: Seq<Sample>, vmin: int, vmax: int, h: int, j: int)
    requires
        0 <= j < series.len(),
        forall|k: int|
            0 <= k && k + 1 < series.len() ==> row_of(
                (#[trigger] series[k]).spec_value(),
                vmin,
                vmax,
                h,
            ) == row_of(series[k + 1].spec_value(), vmin, vmax, h),
    ensures
        row_of(series[0].spec_value(), vmin, vmax, h) == row_of(
            series[j].spec_value(),
            vmin,
            vmax,
            h,
        ),
    decreases j,
{
    if j > 0 {
        lemma_rows_chain(series, vmin, vmax, h, j - 1);
    }
}

/// An all-finite, fully drawn series with an adjacent pair on different
/// rows puts a matched pair of corner glyphs in the rendered text: falling
/// then rising for a rise of the line, rising then falling for a drop.
proof fn lemma_corner_in_output(series: Seq<Sample>, p: Params, i: int)
    requires
        p.height >= 1,
        p.width >= 1,
        p.min is None,
        p.max is None,
        series.len() >= 2,
        series.len() <= p.width - 1,
        forall|k: int| 0 <= k < series.len() ==> (#[trigger] series[k]) is Finite,
        0 <= i,
        i + 1 < series.len(),
        seq_min(finite_values(series)) < seq_max(finite_values(series)),
        row_of(
            series[i].spec_value(),
            seq_min(finite_values(series)),
            seq_max(finite_values(series)),
            p.height as int,
        ) != row_of(
            series[i + 1].spec_value(),
            seq_min(finite_values(series)),
            seq_max(finite_values(series)),
            p.height as int,
        ),
    ensures
        spec_render(series, p) is Ok,
        ({
            let vmin = seq_min(finite_values(series));
            let vmax = seq_max(finite_values(series));
            let h = p.height as int;
            let ri = row_of(series[i].spec_value(), vmin, vmax, h);
            let rj = row_of(series[i + 1].spec_value(), vmin, vmax, h);
            if rj < ri {
                spec_render(series, p)->Ok_0.contains(p.symbols.top_left) && spec_render(
                    series,
                    p,
                )->Ok_0.contains(p.symbols.bottom_right)
            } else {
                spec_render(series, p)->Ok_0.contains(p.symbols.top_right) && spec_render(
                    series,
                    p,
                )->Ok_0.contains(p.symbols.bottom_left)
            }
        }),
{
    lemma_finite_values_all(series);
    let fv = finite_values(series);
    let vmin = seq_min(fv);
    let vmax = seq_max(fv);
    let h = p.height as int;
    let w = p.width as int;
    let pts = drawn_rows(series, vmin, vmax, h, w);
    assert(pts.len() == series.len());
    let ri = row_of(series[i].spec_value(), vmin, vmax, h);
    let rj = row_of(series[i + 1].spec_value(), vmin, vmax, h);
    assert(0 <= ri <= h && 0 <= rj <= h);
    assert(pts[i] == Some(ri as usize));
    assert(pts[i + 1] == Some(rj as usize));
    assert(pts.take(i + 1).last() == pts[i]);
    assert(prev_row(pts.take(i + 1)) == Some(ri as usize));
    let cx = i + 2;
    assert(cell_at(pts, rj, cx, p.symbols) == glyph_for(
        rj,
        Some(ri as usize),
        rj as usize,
        p.symbols,
    ));
    assert(cell_at(pts, ri, cx, p.symbols) == glyph_for(
        ri,
        Some(ri as usize),
        rj as usize,
        p.symbols,
    ));
    let (c_at_rj, c_at_ri) = if rj < ri {
        (p.symbols.top_left, p.symbols.bottom_right)
    } else {
        (p.symbols.bottom_left, p.symbols.top_right)
    };
    assert(cell_at(pts, rj, cx, p.symbols) == c_at_rj);
    assert(cell_at(pts, ri, cx, p.symbols) == c_at_ri);
    // the two cells survive into their output rows
    let lines = spec_grid_lines(series, p, vmin, vmax);
    assert(lines.len() == h + 1);
    assert forall|r: int, c: char|
        0 <= r <= h && c == cell_at(pts, r, cx, p.symbols) implies #[trigger] lines[r].contains(
        c,
    ) by {
        let line = spec_line(pts, r, p, vmin, vmax);
        assert(lines[r] == line);
        if p.show_labels {
            let lbl = label_text(
                r,
                vmin,
                vmax,
                p.height as int,
                p.label_ticks as int,
                p.precision as nat,
            );
            let pos = lbl.len() + 1 + (cx - 1);
            assert(line[pos as int] == chart_cell(pts, r, cx - 1, p.symbols));
            assert(chart_cell(pts, r, cx - 1, p.symbols) == cell_at(pts, r, cx, p.symbols));
            assert(line[pos as int] == c);
        } else {
            assert(line[cx] == cell_at(pts, r, cx, p.symbols));
        }
    }
    lemma_join_lines_contains(lines, rj, c_at_rj);
    lemma_join_lines_contains(lines, ri, c_at_ri);
}

/// An ascending run of drawn samples always shows a rising pair of corner
/// glyphs: the bottom-right corner leaving a row and the top-left corner
/// arriving at a higher one.
pub proof fn lemma_ascending_corners(series: Seq<Sample>, p: Params)
    requires
        p.height >= 1,
        p.width >= 1,
        p.min is None,
        p.max is None,
        series.len() >= 2,
        series.len() <= p.width - 1,
        forall|k: int| 0 <= k < series.len() ==> (#[trigger] series[k]) is Finite,
        forall|k: int|
            0 <= k && k + 1 < series.len() ==> (#[trigger] series[k]).spec_value() < series[k
                + 1].spec_value(),
    ensures
        spec_render(series, p) is Ok,
        spec_render(series, p)->Ok_0.contains(p.symbols.top_left),
        spec_render(series, p)->Ok_0.contains(p.symbols.bottom_right),
{
    lemma_finite_values_all(series);
    let fv = finite_values(series);
    let n = series.len() as int;
    let h = p.height as int;
    lemma_seq_min_max_member(fv);
    let a = choose|a: int| 0 <= a < fv.len() && fv[a] == seq_min(fv);
    let b = choose|b: int| 0 <= b < fv.len() && fv[b] == seq_max(fv);
    lemma_strict_chain(series, 0, a);
    lemma_strict_chain(series, b, n - 1);
    lemma_seq_min_max_bounds(fv, 0);
    lemma_seq_min_max_bounds(fv, n - 1);
    let vmin = seq_min(fv);
    let vmax = seq_max(fv);
    assert(vmin == series[0].spec_value());
    assert(vmax == series[n - 1].spec_value());
    assert(series[n - 2].spec_value() < series[n - 1].spec_value());
    assert(vmin < vmax) by {
        lemma_strict_chain(series, 0, n - 2);
    }
    lemma_row_of_endpoints(vmin, vmax, h);
    if forall|k: int|
        0 <= k && k + 1 < series.len() ==> row_of(
            (#[trigger] series[k]).spec_value(),
            vmin,
            vmax,
            h,
        ) == row_of(series[k + 1].spec_value(), vmin, vmax, h) {
        lemma_rows_chain(series, vmin, vmax, h, n - 1);
        assert(false);
    }
    let i = choose|i: int|
        0 <= i && i + 1 < series.len() && row_of(
            (#[trigger] series[i]).spec_value(),
            vmin,
            vmax,
            h,
        ) != row_of(series[i + 1].spec_value(), vmin, vmax, h);
    lemma_row_of_antitone(series[i].spec_value(), series[i + 1].spec_value(), vmin, vmax, h);
    lemma_corner_in_output(series, p, i);
}

/// A descending run of drawn samples always shows a falling pair of corner
/// glyphs: the top-right corner leaving a row and the bottom-left corner
/// arriving at a lower one.
pub proof fn lemma_descending_corners(series: Seq<Sample>, p: Params)
    requires
        p.height >= 1,
        p.width >= 1,
        p.min is None,
        p.max is None,
        series.len() >= 2,
        series.len() <= p.width - 1,
        forall|k: int| 0 <= k < series.len() ==> (#[trigger] series[k]) is Finite,
        forall|k: int|
            0 <= k && k + 1 < series.len() ==> (#[trigger] series[k]).spec_value() > series[k
                + 1].spec_value(),
    ensures
        spec_render(series, p) is Ok,
        spec_render(series, p)->Ok_0.contains(p.symbols.top_right),
        spec_render(series, p)->Ok_0.contains(p.symbols.bottom_left),
{
    lemma_finite_values_all(series);
    let fv = finite_values(series);
    let n = series.len() as int;
    let h = p.height as int;
    lemma_seq_min_max_member(fv);
    let a = choose|a: int| 0 <= a < fv.len() && fv[a] == seq_min(fv);
    let b = choose|b: int| 0 <= b < fv.len() && fv[b] == seq_max(fv);
    lemma_strict_chain_down(series, a, n - 1);
    lemma_strict_chain_down(series, 0, b);
    lemma_seq_min_max_bounds(fv, 0);
    lemma_seq_min_max_bounds(fv, n - 1);
    let vmin = seq_min(fv);
    let vmax = seq_max(fv);
    assert(vmin == series[n - 1].spec_value());
    assert(vmax == series[0].spec_value());
    assert(vmin < vmax) by {
        lemma_strict_chain_down(series, 1, n - 1);
        assert(series[0].spec_value() > series[1].spec_value());
    }
    lemma_row_of_endpoints(vmin, vmax, h);
    if forall|k: int|
        0 <= k && k + 1 < series.len() ==> row_of(
            (#[trigger] series[k]).spec_value(),
            vmin,
            vmax,
            h,
        ) == row_of(series[k + 1].spec_value(), vmin, vmax, h) {
        lemma_rows_chain(series, vmin, vmax, h, n - 1);
        assert(false);
    }
    let i = choose|i: int|
        0 <= i && i + 1 < series.len() && row_of(
            (#[trigger] series[i]).spec_value(),
            vmin,
            vmax,
            h,
        ) != row_of(series[i + 1].spec_value(), vmin, vmax, h);
    lemma_row_of_antitone(series[i + 1].spec_value(), series[i].spec_value(), vmin, vmax, h);
    lemma_corner_in_output(series, p, i);
}

} // verus!
