//! The renderer: range resolution, label layout, and the rendering pipeline.
//!
//! `spec_render` is the contract of the whole pipeline, mirroring its
//! stages: configuration validation, the empty and single-sample cases,
//! range resolution over the finite samples, the degenerate flat range, and
//! finally the glyph grid with its optional label gutter.

use crate::arith::{
    lemma_round_away_range, round_away,
};
use crate::config::{cfg_params, default_params, spec_validate, Config, Params};
use crate::error::{error_text, ChartError};
use crate::grid::{cell_at, drawn_rows, glyph_char, lemma_prev_row_push, prev_row, quantize_row};
use crate::numfmt::{format_fixed, format_sample, spec_fmt_fixed, spec_fmt_sample};
use crate::sample::{
    finite_values, lemma_finite_values_push, lemma_seq_min_max_concat, lemma_seq_min_max_push,
    seq_max, seq_min, Sample,
};
use crate::symbols::{ascii_symbols, Symbols};
use crate::text::{chars_to_string, join_lines, push_repeat, repeat_char};
use vstd::prelude::*;

verus! {

/// Left-pads a label with spaces up to the gutter width; a label already as
/// wide is kept whole.
pub open spec fn pad_left(s: Seq<char>, w: int) -> Seq<char> {
    let fill = if w >= s.len() {
        (w - s.len()) as nat
    } else {
        0
    };
    repeat_char(' ', fill) + s
}

/// Width of the label gutter: room for the wider of the two range end
/// labels.
pub open spec fn label_width(vmin: int, vmax: int, prec: nat) -> int {
    let a = spec_fmt_fixed(vmax, prec).len() as int;
    let b = spec_fmt_fixed(vmin, prec).len() as int;
    if a >= b {
        a
    } else {
        b
    }
}

/// Whether the row at `idx` carries a numeric label: the top and bottom
/// rows always do, an interior row only at every `h / ticks`'th step.
pub open spec fn is_labeled_row(idx: int, h: int, ticks: int) -> bool {
    idx == 0 || idx == h || (ticks > 0 && h >= ticks && h / ticks > 0 && idx % (h / ticks) == 0)
}

/// The value an interior labeled row shows: the range position interpolated
/// at `idx` rows below the top, rounded to a fixed-point step.
pub open spec fn tick_value(idx: int, vmin: int, vmax: int, h: int) -> int {
    round_away(vmax * (h - idx) + vmin * idx, h)
}

/// The value the row at `idx` is labeled with.
pub open spec fn row_value(idx: int, vmin: int, vmax: int, h: int) -> int {
    if idx == 0 {
        vmax
    } else if idx == h {
        vmin
    } else {
        tick_value(idx, vmin, vmax, h)
    }
}

/// The gutter text of the row at `idx`: a right-aligned value or blanks.
pub open spec fn label_text(idx: int, vmin: int, vmax: int, h: int, ticks: int, prec: nat) -> Seq<
    char,
> {
    let lw = label_width(vmin, vmax, prec);
    if is_labeled_row(idx, h, ticks) {
        pad_left(spec_fmt_fixed(row_value(idx, vmin, vmax, h), prec), lw)
    } else {
        repeat_char(' ', lw as nat)
    }
}

/// The chart area of a labeled row, one character per drawable column
/// (`j = 0` is grid column 1): as the grid has it, except that a leading
/// glyph equal to the axis separator is blanked to avoid doubling it.
pub open spec fn chart_cell(pts: Seq<Option<usize>>, r: int, j: int, sym: Symbols) -> char {
    let raw = cell_at(pts, r, j + 1, sym);
    if j == 0 && raw == sym.axis_vertical {
        ' '
    } else {
        raw
    }
}

/// A character of the chart area right of the reserved column, patched or
/// raw depending on the output mode.
pub open spec fn area_cell(pts: Seq<Option<usize>>, r: int, j: int, sym: Symbols, patch: bool) -> char {
    if patch {
        chart_cell(pts, r, j, sym)
    } else {
        cell_at(pts, r, j + 1, sym)
    }
}

/// One output row: with labels, the gutter text, the axis separator and the
/// patched chart area; without, the raw grid row, reserved column included.
pub open spec fn spec_line(
    pts: Seq<Option<usize>>,
    idx: int,
    p: Params,
    vmin: int,
    vmax: int,
) -> Seq<char> {
    if p.show_labels {
        label_text(idx, vmin, vmax, p.height as int, p.label_ticks as int, p.precision as nat)
            + seq![p.symbols.axis_vertical] + Seq::new(
            (p.width - 1) as nat,
            |j: int| chart_cell(pts, idx, j, p.symbols),
        )
    } else {
        Seq::new(p.width as nat, |cx: int| cell_at(pts, idx, cx, p.symbols))
    }
}

/// All `height + 1` output rows over a drawn-row sequence.
pub open spec fn lines_of(pts: Seq<Option<usize>>, p: Params, vmin: int, vmax: int) -> Seq<
    Seq<char>,
> {
    Seq::new((p.height + 1) as nat, |idx: int| spec_line(pts, idx, p, vmin, vmax))
}

/// The output rows of the full-grid path for a series.
pub open spec fn spec_grid_lines(series: Seq<Sample>, p: Params, vmin: int, vmax: int) -> Seq<
    Seq<char>,
> {
    lines_of(drawn_rows(series, vmin, vmax, p.height as int, p.width as int), p, vmin, vmax)
}

/// Whether an explicit bound is present but unusable as a range endpoint.
pub open spec fn bound_bad(b: Option<Sample>) -> bool {
    match b {
        Some(s) => !(s is Finite),
        None => false,
    }
}

/// An explicit finite bound, or the given fallback.
pub open spec fn bound_value(b: Option<Sample>, fallback: int) -> int {
    match b {
        Some(Sample::Finite(m)) => m as int,
        _ => fallback,
    }
}

/// What rendering a series returns, stage by stage: the validation error of
/// a bad configuration; `EmptyData` for no samples at all; the formatted
/// sole sample of a one-point series; `InvalidRange` when no finite sample
/// and no usable explicit bound yields a range; the formatted single value
/// of a flat (degenerate) range; otherwise the joined rows of the glyph
/// grid.
pub open spec fn spec_render(series: Seq<Sample>, p: Params) -> Result<Seq<char>, ChartError> {
    if spec_validate(p) is Err {
        Err(spec_validate(p)->Err_0)
    } else if series.len() == 0 {
        Err(ChartError::EmptyData)
    } else if series.len() == 1 {
        Ok(spec_fmt_sample(series[0], p.precision as nat))
    } else if finite_values(series).len() == 0 {
        Err(ChartError::InvalidRange)
    } else if bound_bad(p.min) || bound_bad(p.max) {
        Err(ChartError::InvalidRange)
    } else {
        let vmin = bound_value(p.min, seq_min(finite_values(series)));
        let vmax = bound_value(p.max, seq_max(finite_values(series)));
        if vmax == vmin {
            Ok(spec_fmt_fixed(vmin, p.precision as nat))
        } else {
            Ok(join_lines(spec_grid_lines(series, p, vmin, vmax)))
        }
    }
}

/// How an executable result realizes a specified one: same error, or the
/// returned string spells the specified text.
pub open spec fn render_matches(
    r: Result<String, ChartError>,
    m: Result<Seq<char>, ChartError>,
) -> bool {
    match (r, m) {
        (Ok(s), Ok(t)) => s@ == t,
        (Err(a), Err(b)) => a == b,
        _ => false,
    }
}

/// The text a never-failing entry point shows: the rendered chart, or the
/// error's message.
pub open spec fn spec_plot_text(series: Seq<Sample>, p: Params) -> Seq<char> {
    match spec_render(series, p) {
        Ok(s) => s,
        Err(e) => error_text(e),
    }
}

/// The least and greatest finite value of a series, when it has any.
fn finite_min_max(series: &Vec<Sample>) -> (r: Option<(i64, i64)>)
    ensures
        match r {
            None => finite_values(series@).len() == 0,
            Some((mn, mx)) => finite_values(series@).len() > 0 && mn as int == seq_min(
                finite_values(series@),
            ) && mx as int == seq_max(finite_values(series@)),
        },
{
    let mut found = false;
    let mut mn: i64 = 0;
    let mut mx: i64 = 0;
    let n = series.len();
    for i in 0..n
        invariant
            n == series@.len(),
            found <==> finite_values(series@.take(i as int)).len() > 0,
            found ==> mn as int == seq_min(finite_values(series@.take(i as int))) && mx as int
                == seq_max(finite_values(series@.take(i as int))),
    {
        let ghost pre = series@.take(i as int);
        proof {
            assert(pre.push(series@[i as int]) =~= series@.take(i as int + 1));
            lemma_finite_values_push(pre, series@[i as int]);
        }
        match series[i] {
            Sample::Finite(m) => {
                proof {
                    assert(finite_values(pre) + seq![m as int] =~= finite_values(pre).push(
                        m as int,
                    ));
                    lemma_seq_min_max_push(finite_values(pre), m as int);
                }
                if !found {
                    found = true;
                    mn = m;
                    mx = m;
                } else {
                    if m < mn {
                        mn = m;
                    }
                    if m > mx {
                        mx = m;
                    }
                }
            },
            _ => {
                proof {
                    assert(finite_values(pre) + Seq::<int>::empty() =~= finite_values(pre));
                }
            },
        }
    }
    proof {
        assert(series@.take(n as int) =~= series@);
    }
    if found {
        Some((mn, mx))
    } else {
        None
    }
}

/// Quantizes every sample of the drawable window.
fn compute_pts(series: &Vec<Sample>, vmin: i64, vmax: i64, h: usize, w: usize) -> (pts: Vec<
    Option<usize>,
>)
    requires
        vmin != vmax,
        h >= 1,
        w >= 1,
    ensures
        pts@ == drawn_rows(series@, vmin as int, vmax as int, h as int, w as int),
{
    let ghost dr = drawn_rows(series@, vmin as int, vmax as int, h as int, w as int);
    let lim = if series.len() <= w - 1 {
        series.len()
    } else {
        w - 1
    };
    proof {
        assert(dr.len() == lim as int);
    }
    let mut pts: Vec<Option<usize>> = Vec::new();
    for x in 0..lim
        invariant
            lim <= series@.len(),
            dr == drawn_rows(series@, vmin as int, vmax as int, h as int, w as int),
            dr.len() == lim as int,
            vmin != vmax,
            h >= 1,
            pts@.len() == x as int,
            forall|j: int| 0 <= j < x as int ==> pts@[j] == dr[j],
    {
        match series[x] {
            Sample::Finite(m) => {
                let r = quantize_row(m, vmin, vmax, h);
                pts.push(Some(r));
            },
            _ => {
                pts.push(None);
            },
        }
    }
    proof {
        assert(pts@ =~= dr);
    }
    pts
}

/// The interpolated fixed-point value of an interior labeled row.
fn tick_val(idx: usize, vmin: i64, vmax: i64, h: usize) -> (r: i64)
    requires
        h >= 1,
        idx <= h,
    ensures
        r as int == tick_value(idx as int, vmin as int, vmax as int, h as int),
{
    let ghost lo: int = if vmin <= vmax {
        vmin as int
    } else {
        vmax as int
    };
    let ghost hi: int = if vmin <= vmax {
        vmax as int
    } else {
        vmin as int
    };
    let ghost ia: int = (vmax as int) * (h as int - idx as int);
    let ghost ib: int = (vmin as int) * (idx as int);
    let ghost cap: int = 0x8000_0000_0000_0000int * 0xFFFF_FFFF_FFFF_FFFFint;
    proof {
        assert(-cap <= ia <= cap && -cap <= ib <= cap) by (nonlinear_arith)
            requires
                ia == (vmax as int) * (h as int - idx as int),
                ib == (vmin as int) * (idx as int),
                cap == 0x8000_0000_0000_0000int * 0xFFFF_FFFF_FFFF_FFFFint,
                -0x8000_0000_0000_0000 <= vmax as int <= 0x7FFF_FFFF_FFFF_FFFF,
                -0x8000_0000_0000_0000 <= vmin as int <= 0x7FFF_FFFF_FFFF_FFFF,
                0 <= idx as int <= h as int,
                h as int <= 0xFFFF_FFFF_FFFF_FFFF,
        ;
        assert(lo * (h as int) <= ia + ib <= hi * (h as int)) by (nonlinear_arith)
            requires
                ia == (vmax as int) * (h as int - idx as int),
                ib == (vmin as int) * (idx as int),
                lo <= vmin as int <= hi,
                lo <= vmax as int <= hi,
                0 <= idx as int <= h as int,
        ;
        assert(-cap <= lo * (h as int) && hi * (h as int) <= cap) by (nonlinear_arith)
            requires
                cap == 0x8000_0000_0000_0000int * 0xFFFF_FFFF_FFFF_FFFFint,
                -0x8000_0000_0000_0000 <= lo <= hi <= 0x7FFF_FFFF_FFFF_FFFF,
                0 <= h as int <= 0xFFFF_FFFF_FFFF_FFFF,
        ;
    }
    let a: i128 = (vmax as i128) * ((h - idx) as i128);
    let b: i128 = (vmin as i128) * (idx as i128);
    let n: i128 = a + b;
    let r = crate::arith::div_round_i128(n, h as i128);
    proof {
        lemma_round_away_range(n as int, h as int, lo, hi);
    }
    r as i64
}

/// Appends the chart area of one row: one character per drawable column.
fn push_chart_cells(
    line: &mut Vec<char>,
    pts: &Vec<Option<usize>>,
    idx: usize,
    w: usize,
    sym: &Symbols,
    patch: bool,
)
    requires
        w >= 1,
    ensures
        final(line)@ == old(line)@ + Seq::new(
            (w - 1) as nat,
            |j: int| area_cell(pts@, idx as int, j, *sym, patch),
        ),
{
    let n = w - 1;
    let mut prev: Option<usize> = None;
    for j in 0..n
        invariant
            n == w - 1,
            line@ == old(line)@ + Seq::new(
                j as nat,
                |jj: int| area_cell(pts@, idx as int, jj, *sym, patch),
            ),
            prev == prev_row(
                pts@.take(
                    if j as int <= pts@.len() {
                        j as int
                    } else {
                        pts@.len() as int
                    },
                ),
            ),
    {
        let raw: char = if j < pts.len() {
            match pts[j] {
                Some(cur) => glyph_char(idx, prev, cur, sym),
                None => ' ',
            }
        } else {
            ' '
        };
        proof {
            assert(raw == cell_at(pts@, idx as int, j as int + 1, *sym));
        }
        let c: char = if patch && j == 0 && raw == sym.axis_vertical {
            ' '
        } else {
            raw
        };
        line.push(c);
        if j < pts.len() {
            match pts[j] {
                Some(_) => {
                    prev = pts[j];
                },
                None => {},
            }
            proof {
                assert(pts@.take(j as int).push(pts@[j as int]) =~= pts@.take(j as int + 1));
                lemma_prev_row_push(pts@.take(j as int), pts@[j as int]);
            }
        }
        proof {
            assert(line@ =~= old(line)@ + Seq::new(
                (j + 1) as nat,
                |jj: int| area_cell(pts@, idx as int, jj, *sym, patch),
            ));
        }
    }
}

/// Builds one output row of the grid path.
fn build_line(pts: &Vec<Option<usize>>, idx: usize, vmin: i64, vmax: i64, p: &Params) -> (v: Vec<
    char,
>)
    requires
        p.precision <= 2,
        p.width >= 1,
        p.height >= 1,
        idx <= p.height,
    ensures
        v@ == spec_line(pts@, idx as int, *p, vmin as int, vmax as int),
{
    let mut line: Vec<char> = Vec::new();
    if p.show_labels {
        let maxl = format_fixed(vmax, p.precision);
        let minl = format_fixed(vmin, p.precision);
        let lw = if maxl.len() >= minl.len() {
            maxl.len()
        } else {
            minl.len()
        };
        proof {
            assert(lw as int == label_width(vmin as int, vmax as int, p.precision as nat));
        }
        let mut labeled = idx == 0 || idx == p.height;
        if !labeled && p.label_ticks > 0 && p.height >= p.label_ticks {
            let step = p.height / p.label_ticks;
            if step > 0 && idx % step == 0 {
                labeled = true;
            }
        }
        proof {
            assert(labeled == is_labeled_row(idx as int, p.height as int, p.label_ticks as int));
        }
        if labeled {
            let val: i64 = if idx == 0 {
                vmax
            } else if idx == p.height {
                vmin
            } else {
                tick_val(idx, vmin, vmax, p.height)
            };
            proof {
                assert(val as int == row_value(
                    idx as int,
                    vmin as int,
                    vmax as int,
                    p.height as int,
                ));
            }
            let mut lbl = format_fixed(val, p.precision);
            if lbl.len() < lw {
                push_repeat(&mut line, ' ', lw - lbl.len());
            }
            line.append(&mut lbl);
            proof {
                assert(line@ =~= label_text(
                    idx as int,
                    vmin as int,
                    vmax as int,
                    p.height as int,
                    p.label_ticks as int,
                    p.precision as nat,
                ));
            }
        } else {
            push_repeat(&mut line, ' ', lw);
            proof {
                assert(line@ =~= label_text(
                    idx as int,
                    vmin as int,
                    vmax as int,
                    p.height as int,
                    p.label_ticks as int,
                    p.precision as nat,
                ));
            }
        }
        line.push(p.symbols.axis_vertical);
        push_chart_cells(&mut line, pts, idx, p.width, &p.symbols, true);
        proof {
            assert(Seq::new(
                (p.width - 1) as nat,
                |j: int| area_cell(pts@, idx as int, j, p.symbols, true),
            ) =~= Seq::new((p.width - 1) as nat, |j: int| chart_cell(pts@, idx as int, j, p.symbols)));
            assert(line@ =~= spec_line(pts@, idx as int, *p, vmin as int, vmax as int));
        }
    } else {
        line.push(' ');
        push_chart_cells(&mut line, pts, idx, p.width, &p.symbols, false);
        proof {
            assert(line@ =~= spec_line(pts@, idx as int, *p, vmin as int, vmax as int));
        }
    }
    line
}

/// Main plotting function: renders a series as chart text under the given
/// configuration, or reports why it cannot be.
pub fn plot_with_config(series: &Vec<Sample>, config: Config) -> (r: Result<String, ChartError>)
    ensures
        render_matches(r, spec_render(series@, cfg_params(config))),
{
    let p = config.params();
    match config.validate() {
        Err(e) => {
            return Err(e);
        },
        Ok(()) => {},
    }
    if series.len() == 0 {
        return Err(ChartError::EmptyData);
    }
    if series.len() == 1 {
        let v = format_sample(series[0], p.precision);
        return Ok(chars_to_string(&v));
    }
    let mm = finite_min_max(series);
    let (mn, mx) = match mm {
        None => {
            return Err(ChartError::InvalidRange);
        },
        Some(t) => t,
    };
    let vmin: i64 = match p.min {
        Some(Sample::Finite(m)) => m,
        Some(_) => {
            return Err(ChartError::InvalidRange);
        },
        None => mn,
    };
    let vmax: i64 = match p.max {
        Some(Sample::Finite(m)) => m,
        Some(_) => {
            return Err(ChartError::InvalidRange);
        },
        None => mx,
    };
    if vmax == vmin {
        let v = format_fixed(vmin, p.precision);
        return Ok(chars_to_string(&v));
    }
    let pts = compute_pts(series, vmin, vmax, p.height, p.width);
    let ghost lines = lines_of(pts@, p, vmin as int, vmax as int);
    let mut out: Vec<char> = Vec::new();
    let mut idx: usize = 0;
    loop
        invariant_except_break
            p.precision <= 2,
            p.width >= 1,
            p.height >= 1,
            0 <= idx <= p.height,
            lines == lines_of(pts@, p, vmin as int, vmax as int),
            lines.len() == p.height + 1,
            out@ == join_lines(lines.take(idx as int)),
        ensures
            out@ == join_lines(lines),
        decreases p.height - idx,
    {
        let line = build_line(&pts, idx, vmin, vmax, &p);
        if idx > 0 {
            out.push('\n');
        }
        let mut lv = line;
        out.append(&mut lv);
        proof {
            assert(lines.take(idx as int + 1).drop_last() =~= lines.take(idx as int));
            assert(lines.take(idx as int + 1).last() == lines[idx as int]);
            if idx == 0 {
                assert(out@ =~= join_lines(lines.take(1)));
            } else {
                assert(out@ =~= join_lines(lines.take(idx as int + 1)));
            }
        }
        if idx == p.height {
            proof {
                assert(lines.take(idx as int + 1) =~= lines);
            }
            break;
        }
        idx = idx + 1;
    }
    proof {
        assert(join_lines(lines) == join_lines(
            spec_grid_lines(series@, p, vmin as int, vmax as int),
        ));
    }
    Ok(chars_to_string(&out))
}

/// Simple plot with the default configuration; an error is shown as its
/// message.
pub fn plot(series: &Vec<Sample>) -> (r: String)
    ensures
        r@ == spec_plot_text(series@, default_params()),
{
    match plot_with_config(series, Config::default()) {
        Ok(s) => s,
        Err(e) => e.message(),
    }
}

/// Plot with custom height and width; an error is shown as its message.
pub fn plot_sized(series: &Vec<Sample>, height: usize, width: usize) -> (r: String)
    ensures
        r@ == spec_plot_text(series@, Params { height, width, ..default_params() }),
{
    match plot_with_config(series, Config::default().with_height(height).with_width(width)) {
        Ok(s) => s,
        Err(e) => e.message(),
    }
}

/// Plot without axis labels; an error is shown as its message.
pub fn plot_no_labels(series: &Vec<Sample>) -> (r: String)
    ensures
        r@ == spec_plot_text(series@, Params { show_labels: false, ..default_params() }),
{
    match plot_with_config(series, Config::default().with_labels(false)) {
        Ok(s) => s,
        Err(e) => e.message(),
    }
}

/// Plot with explicit axis bounds; an error is shown as its message.
pub fn plot_range(series: &Vec<Sample>, min: Sample, max: Sample) -> (r: String)
    ensures
        r@ == spec_plot_text(
            series@,
            Params { min: Some(min), max: Some(max), ..default_params() },
        ),
{
    match plot_with_config(series, Config::default().with_min(min).with_max(max)) {
        Ok(s) => s,
        Err(e) => e.message(),
    }
}

/// Plot using ASCII-only characters; an error is shown as its message.
pub fn plot_ascii(series: &Vec<Sample>) -> (r: String)
    ensures
        r@ == spec_plot_text(series@, Params { symbols: ascii_symbols(), ..default_params() }),
{
    match plot_with_config(series, Config::default().with_ascii_symbols()) {
        Ok(s) => s,
        Err(e) => e.message(),
    }
}

/// The finite values of a collection of series, in order.
pub open spec fn all_finite_values(ss: Seq<Vec<Sample>>) -> Seq<int>
    decreases ss.len(),
{
    if ss.len() == 0 {
        Seq::empty()
    } else {
        all_finite_values(ss.drop_last()) + finite_values(ss.last()@)
    }
}

/// Appending one series extends the collected finite values by its own.
pub proof fn lemma_all_finite_values_push(ss: Seq<Vec<Sample>>, s: Vec<Sample>)
    ensures
        all_finite_values(ss.push(s)) == all_finite_values(ss) + finite_values(s@),
{
    assert(ss.push(s).drop_last() =~= ss);
    assert(ss.push(s).last() == s);
}

/// What plotting a collection of series shows: a fixed sentinel without
/// series or without any finite value; otherwise the first series rendered
/// against the global range of them all.
pub open spec fn spec_plot_multiple(ss: Seq<Vec<Sample>>) -> Seq<char> {
    if ss.len() == 0 {
        "No data"@
    } else if all_finite_values(ss).len() == 0 {
        "Invalid data"@
    } else {
        let gmin = seq_min(all_finite_values(ss));
        let gmax = seq_max(all_finite_values(ss));
        spec_plot_text(
            ss[0]@,
            Params {
                min: Some(Sample::Finite(gmin as i64)),
                max: Some(Sample::Finite(gmax as i64)),
                ..default_params()
            },
        )
    }
}

/// Plots the first series against the global range of all the given ones.
pub fn plot_multiple(series: &Vec<Vec<Sample>>) -> (r: String)
    ensures
        r@ == spec_plot_multiple(series@),
{
    if series.len() == 0 {
        return "No data".to_owned();
    }
    let mut found = false;
    let mut gmn: i64 = 0;
    let mut gmx: i64 = 0;
    let n = series.len();
    for i in 0..n
        invariant
            n == series@.len(),
            found <==> all_finite_values(series@.take(i as int)).len() > 0,
            found ==> gmn as int == seq_min(all_finite_values(series@.take(i as int))) && gmx
                as int == seq_max(all_finite_values(series@.take(i as int))),
    {
        let ghost pre = series@.take(i as int);
        proof {
            assert(pre.push(series@[i as int]) =~= series@.take(i as int + 1));
            lemma_all_finite_values_push(pre, series@[i as int]);
        }
        match finite_min_max(&series[i]) {
            Some((mn, mx)) => {
                proof {
                    lemma_seq_min_max_concat(
                        all_finite_values(pre),
                        finite_values(series@[i as int]@),
                    );
                }
                if !found {
                    found = true;
                    gmn = mn;
                    gmx = mx;
                } else {
                    if mn < gmn {
                        gmn = mn;
                    }
                    if mx > gmx {
                        gmx = mx;
                    }
                }
            },
            None => {
                proof {
                    assert(all_finite_values(pre) + finite_values(series@[i as int]@)
                        =~= all_finite_values(pre));
                }
            },
        }
    }
    proof {
        assert(series@.take(n as int) =~= series@);
    }
    if !found {
        return "Invalid data".to_owned();
    }
    let config = Config::default().with_min(Sample::Finite(gmn)).with_max(Sample::Finite(gmx));
    match plot_with_config(&series[0], config) {
        Ok(s) => s,
        Err(e) => e.message(),
    }
}

} // verus!
