//! Quantization and the glyph grid.
//!
//! Each sample inside the drawable window is quantized to a row: row 0 is
//! the top of the chart (the maximum), row `height` the bottom (the
//! minimum).  Column 0 is a reserved separator and never carries a glyph;
//! the sample at index `x` is drawn in column `x + 1`.  A column's glyphs
//! depend only on the drawn row of its own sample and of the nearest drawn
//! sample to its left, so every cell of the grid has a closed form.

use crate::arith::{
    div_round_u128, lemma_round_away_le_num, lemma_round_away_zero, round_away,
};
use crate::sample::Sample;
use crate::symbols::Symbols;
use vstd::prelude::*;

verus! {

/// The quantized row of value `v` on a grid of `h + 1` rows spanning
/// `vmin..vmax`: nearest-integer scaling, clamped to the grid.
pub open spec fn row_of(v: int, vmin: int, vmax: int, h: int) -> int {
    let r = round_away((vmax - v) * h, vmax - vmin);
    if r < 0 {
        0
    } else if r > h {
        h
    } else {
        r
    }
}

/// One entry per sample of the drawable window: the drawn row of a finite
/// sample, nothing for a non-finite one.
pub open spec fn drawn_rows(series: Seq<Sample>, vmin: int, vmax: int, h: int, w: int) -> Seq<
    Option<usize>,
> {
    let n = if series.len() <= w - 1 {
        series.len() as int
    } else {
        w - 1
    };
    Seq::new(n as nat, |x: int| match series[x] {
        Sample::Finite(m) => Some(row_of(m as int, vmin, vmax, h) as usize),
        _ => None,
    })
}

/// The row of the nearest drawn sample at or before the end of `pts`.
pub open spec fn prev_row(pts: Seq<Option<usize>>) -> Option<usize>
    decreases pts.len(),
{
    if pts.len() == 0 {
        None
    } else {
        match pts.last() {
            Some(y) => Some(y),
            None => prev_row(pts.drop_last()),
        }
    }
}

/// Appending a column updates the carried row exactly when it is drawn.
pub proof fn lemma_prev_row_push(pts: Seq<Option<usize>>, x: Option<usize>)
    ensures
        prev_row(pts.push(x)) == match x {
            Some(y) => Some(y),
            None => prev_row(pts),
        },
{
    assert(pts.push(x).drop_last() =~= pts);
    assert(pts.push(x).last() == x);
}

/// The glyph a drawn column puts at row `r`, given the row `cur` of its own
/// sample and the row of the previous drawn sample:
/// the first drawn sample is a bare vertical; a level step continues with
/// the horizontal glyph; a rise or drop draws a corner at each end of the
/// vertical run and verticals in between.
pub open spec fn glyph_for(r: int, prev: Option<usize>, cur: usize, sym: Symbols) -> char {
    match prev {
        None => if r == cur as int {
            sym.vertical
        } else {
            ' '
        },
        Some(p) => if p == cur {
            if r == cur as int {
                sym.horizontal
            } else {
                ' '
            }
        } else if (p as int) < (cur as int) {
            if r == p as int {
                sym.top_right
            } else if r == cur as int {
                sym.bottom_left
            } else if (p as int) < r < (cur as int) {
                sym.vertical
            } else {
                ' '
            }
        } else {
            if r == p as int {
                sym.bottom_right
            } else if r == cur as int {
                sym.top_left
            } else if (cur as int) < r < (p as int) {
                sym.vertical
            } else {
                ' '
            }
        },
    }
}

/// The character of the full grid at row `r`, column `cx`: blank in the
/// reserved column 0, beyond the drawn window, and wherever no glyph falls.
pub open spec fn cell_at(pts: Seq<Option<usize>>, r: int, cx: int, sym: Symbols) -> char {
    if 1 <= cx <= pts.len() {
        match pts[cx - 1] {
            Some(cur) => glyph_for(r, prev_row(pts.take(cx - 1)), cur, sym),
            None => ' ',
        }
    } else {
        ' '
    }
}

/// Executable form of [`glyph_for`].
pub(crate) fn glyph_char(r: usize, prev: Option<usize>, cur: usize, sym: &Symbols) -> (c: char)
    ensures
        c == glyph_for(r as int, prev, cur, *sym),
{
    match prev {
        None => if r == cur {
            sym.vertical
        } else {
            ' '
        },
        Some(p) => if p == cur {
            if r == cur {
                sym.horizontal
            } else {
                ' '
            }
        } else if p < cur {
            if r == p {
                sym.top_right
            } else if r == cur {
                sym.bottom_left
            } else if p < r && r < cur {
                sym.vertical
            } else {
                ' '
            }
        } else {
            if r == p {
                sym.bottom_right
            } else if r == cur {
                sym.top_left
            } else if cur < r && r < p {
                sym.vertical
            } else {
                ' '
            }
        },
    }
}

/// Quantizes one finite sample value onto the grid.
pub(crate) fn quantize_row(m: i64, vmin: i64, vmax: i64, h: usize) -> (r: usize)
    requires
        vmin != vmax,
        h >= 1,
    ensures
        r as int == row_of(m as int, vmin as int, vmax as int, h as int),
{
    let diff: i128 = vmax as i128 - m as i128;
    let range: i128 = vmax as i128 - vmin as i128;
    let ghost nn = (vmax - m) * h;
    let ghost dd = vmax - vmin;
    if diff == 0 {
        proof {
            lemma_round_away_zero(dd as int);
        }
        return 0;
    }
    if (diff < 0) != (range < 0) {
        // the scaled offset is negative, so the clamp pins the row to the top
        proof {
            let sn = if dd < 0 {
                -nn
            } else {
                nn
            };
            assert(sn < 0) by (nonlinear_arith)
                requires
                    sn == if dd < 0 {
                        -((vmax - m) * h)
                    } else {
                        (vmax - m) * h
                    },
                    nn == (vmax - m) * h,
                    dd == vmax - vmin,
                    dd != 0,
                    h >= 1,
                    ((vmax - m < 0) != (dd < 0)),
                    vmax - m != 0,
            ;
            assert(round_away(nn as int, dd as int) <= 0) by {
                let sd = if dd < 0 {
                    -dd
                } else {
                    dd
                };
                vstd::arithmetic::div_mod::lemma_div_pos_is_pos(2 * -sn + sd, 2 * sd);
            }
        }
        return 0;
    }
    let dmag: u128 = if diff >= 0 {
        diff as u128
    } else {
        (-diff) as u128
    };
    let rmag: u128 = if range >= 0 {
        range as u128
    } else {
        (-range) as u128
    };
    proof {
        assert(dmag * (h as u128) <= u128::MAX) by (nonlinear_arith)
            requires
                dmag <= 0xFFFF_FFFF_FFFF_FFFFu128,
                (h as u128) <= 0xFFFF_FFFF_FFFF_FFFFu128,
        ;
    }
    let num = dmag * (h as u128);
    let q = div_round_u128(num, rmag);
    proof {
        // the magnitudes feed the same rounding the specification applies
        let sn = if dd < 0 {
            -nn
        } else {
            nn
        };
        let sd = if dd < 0 {
            -dd
        } else {
            dd
        };
        assert(sn == num && sd == rmag) by (nonlinear_arith)
            requires
                sn == if dd < 0 {
                    -((vmax - m) * h)
                } else {
                    (vmax - m) * h
                },
                sd == if dd < 0 {
                    -(vmax - vmin)
                } else {
                    (vmax - vmin)
                },
                nn == (vmax - m) * h,
                dd == vmax - vmin,
                num == dmag * (h as u128),
                dmag == if vmax - m >= 0 {
                    vmax - m
                } else {
                    -(vmax - m)
                },
                rmag == if vmax - vmin >= 0 {
                    vmax - vmin
                } else {
                    -(vmax - vmin)
                },
                ((vmax - m < 0) == (dd < 0)),
                h >= 0,
        ;
        assert(round_away(nn as int, dd as int) == round_away(num as int, rmag as int));
        assert(round_away(num as int, rmag as int) >= 0) by {
            lemma_round_away_le_num(num as int, rmag as int);
        }
    }
    if q > h as u128 {
        h
    } else {
        q as usize
    }
}

} // verus!
