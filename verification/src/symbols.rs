//! The glyph set a chart is drawn with.

use vstd::prelude::*;

verus! {

/// Characters used for drawing the chart: the line glyphs, the four corner
/// glyphs joining vertical runs, and the axis glyphs of the label gutter.
#[derive(Clone, Copy, Debug)]
pub struct Symbols {
    pub horizontal: char,
    pub vertical: char,
    pub top_right: char,
    pub bottom_right: char,
    pub bottom_left: char,
    pub top_left: char,
    pub axis_vertical: char,
    pub axis_corner: char,
    pub axis_bottom: char,
}

/// The default glyph set: Unicode box-drawing characters.
pub open spec fn default_symbols() -> Symbols {
    Symbols {
        horizontal: '─',
        vertical: '│',
        top_right: '╮',
        bottom_right: '╯',
        bottom_left: '╰',
        top_left: '╭',
        axis_vertical: '│',
        axis_corner: '┤',
        axis_bottom: '┴',
    }
}

/// The ASCII glyph set: every corner is a plus sign.
pub open spec fn ascii_symbols() -> Symbols {
    Symbols {
        horizontal: '-',
        vertical: '|',
        top_right: '+',
        bottom_right: '+',
        bottom_left: '+',
        top_left: '+',
        axis_vertical: '|',
        axis_corner: '|',
        axis_bottom: '+',
    }
}

impl Default for Symbols {
    /// Unicode box-drawing characters.
    fn default() -> (r: Self)
        ensures
            r == default_symbols(),
    {
        Symbols {
            horizontal: '─',
            vertical: '│',
            top_right: '╮',
            bottom_right: '╯',
            bottom_left: '╰',
            top_left: '╭',
            axis_vertical: '│',
            axis_corner: '┤',
            axis_bottom: '┴',
        }
    }
}

impl Symbols {
    /// ASCII-only symbols for compatibility.
    pub fn ascii() -> (r: Self)
        ensures
            r == ascii_symbols(),
    {
        Symbols {
            horizontal: '-',
            vertical: '|',
            top_right: '+',
            bottom_right: '+',
            bottom_left: '+',
            top_left: '+',
            axis_vertical: '|',
            axis_corner: '|',
            axis_bottom: '+',
        }
    }
}

} // verus!
