//! Chart configuration: a fluent builder over plain fields, its validation,
//! and the parsed parameter record the renderer works from.

use crate::error::ChartError;
use crate::numfmt::{precision_of, spec_precision};
use crate::sample::{sample_ge, sample_ge_exec, Sample};
use crate::symbols::{ascii_symbols, default_symbols, Symbols};
use vstd::prelude::*;

verus! {

/// Configuration for chart rendering.
#[derive(Clone, Debug)]
pub struct Config {
    /// Height of the chart in rows (the grid gains one extra row so both
    /// range endpoints are drawable).
    pub height: usize,
    /// Width of the chart in columns, the reserved separator column
    /// included.
    pub width: usize,
    /// Offset for labels (left margin); carried but not interpreted by the
    /// renderer.
    pub offset: usize,
    /// Explicit lower bound of the value axis; derived from the data when
    /// absent.
    pub min: Option<Sample>,
    /// Explicit upper bound of the value axis; derived from the data when
    /// absent.
    pub max: Option<Sample>,
    /// Whether to draw the label gutter and axis separator.
    pub show_labels: bool,
    /// Requested number of interior tick labels.
    pub label_ticks: usize,
    /// Format selector for labels; `:.0`, `:.1` and `:.2` choose the number
    /// of decimal places, anything else means two.
    pub label_format: String,
    /// Characters to use for drawing.
    pub symbols: Symbols,
}

/// What the renderer reads from a configuration, with the format string
/// already condensed to its precision.
#[derive(Clone, Copy, Debug)]
pub struct Params {
    pub height: usize,
    pub width: usize,
    pub min: Option<Sample>,
    pub max: Option<Sample>,
    pub show_labels: bool,
    pub label_ticks: usize,
    pub precision: u8,
    pub symbols: Symbols,
}

/// The parameter record a configuration denotes.
pub open spec fn cfg_params(c: Config) -> Params {
    Params {
        height: c.height,
        width: c.width,
        min: c.min,
        max: c.max,
        show_labels: c.show_labels,
        label_ticks: c.label_ticks,
        precision: spec_precision(c.label_format@),
        symbols: c.symbols,
    }
}

/// The parameter record of the default configuration.
pub open spec fn default_params() -> Params {
    Params {
        height: 10,
        width: 80,
        min: None,
        max: None,
        show_labels: true,
        label_ticks: 5,
        precision: 2,
        symbols: default_symbols(),
    }
}

/// Which error, if any, a configuration is rejected with: zero dimensions
/// first, then an out-of-order explicit bound pair.
pub open spec fn spec_validate(p: Params) -> Result<(), ChartError> {
    if p.height == 0 || p.width == 0 {
        Err(ChartError::InvalidDimensions)
    } else if p.min matches Some(a) && p.max matches Some(b) && sample_ge(a, b) {
        Err(ChartError::InvalidRange)
    } else {
        Ok(())
    }
}

/// The default format string selects two decimal places.
pub proof fn lemma_default_precision()
    ensures
        spec_precision("{:.2}"@) == 2,
{
    reveal_strlit("{:.2}");
    assert(0 <= 1int && 1int + 2 < "{:.2}"@.len() && "{:.2}"@[1] == ':' && "{:.2}"@[1int + 1] == '.'
        && "{:.2}"@[1int + 2] == '2');
}

impl Default for Config {
    /// A 10 by 80 labeled chart with five ticks, two decimal places and the
    /// Unicode glyph set.
    fn default() -> (r: Self)
        ensures
            cfg_params(r) == default_params(),
            r.offset == 3,
            r.label_format@ == "{:.2}"@,
    {
        proof {
            lemma_default_precision();
        }
        Config {
            height: 10,
            width: 80,
            offset: 3,
            min: None,
            max: None,
            show_labels: true,
            label_ticks: 5,
            label_format: "{:.2}".to_owned(),
            symbols: Symbols::default(),
        }
    }
}

impl Config {
    /// Create a new Config with default values.
    pub fn new() -> (r: Self)
        ensures
            cfg_params(r) == default_params(),
            r.offset == 3,
            r.label_format@ == "{:.2}"@,
    {
        Config::default()
    }

    /// Set the chart height.
    pub fn with_height(self, height: usize) -> (r: Self)
        ensures
            r == (Config { height, ..self }),
    {
        Config { height, ..self }
    }

    /// Set the chart width.
    pub fn with_width(self, width: usize) -> (r: Self)
        ensures
            r == (Config { width, ..self }),
    {
        Config { width, ..self }
    }

    /// Set the label offset.
    pub fn with_offset(self, offset: usize) -> (r: Self)
        ensures
            r == (Config { offset, ..self }),
    {
        Config { offset, ..self }
    }

    /// Set the minimum axis value.
    pub fn with_min(self, min: Sample) -> (r: Self)
        ensures
            r == (Config { min: Some(min), ..self }),
    {
        Config { min: Some(min), ..self }
    }

    /// Set the maximum axis value.
    pub fn with_max(self, max: Sample) -> (r: Self)
        ensures
            r == (Config { max: Some(max), ..self }),
    {
        Config { max: Some(max), ..self }
    }

    /// Set whether to show axis labels.
    pub fn with_labels(self, show: bool) -> (r: Self)
        ensures
            r == (Config { show_labels: show, ..self }),
    {
        Config { show_labels: show, ..self }
    }

    /// Set the number of axis label ticks.
    pub fn with_label_ticks(self, ticks: usize) -> (r: Self)
        ensures
            r == (Config { label_ticks: ticks, ..self }),
    {
        Config { label_ticks: ticks, ..self }
    }

    /// Set the label format string.
    pub fn with_label_format(self, format: String) -> (r: Self)
        ensures
            r == (Config { label_format: format, ..self }),
    {
        Config { label_format: format, ..self }
    }

    /// Use ASCII-only symbols.
    pub fn with_ascii_symbols(self) -> (r: Self)
        ensures
            r == (Config { symbols: ascii_symbols(), ..self }),
    {
        Config { symbols: Symbols::ascii(), ..self }
    }

    /// Set custom symbols.
    pub fn with_symbols(self, symbols: Symbols) -> (r: Self)
        ensures
            r == (Config { symbols, ..self }),
    {
        Config { symbols, ..self }
    }

    /// The parameter record this configuration denotes.
    pub fn params(&self) -> (p: Params)
        ensures
            p == cfg_params(*self),
    {
        Params {
            height: self.height,
            width: self.width,
            min: self.min,
            max: self.max,
            show_labels: self.show_labels,
            label_ticks: self.label_ticks,
            precision: precision_of(self.label_format.as_str()),
            symbols: self.symbols,
        }
    }

    /// Validate the configuration: the grid must have room, and an explicit
    /// bound pair must be strictly increasing.
    pub fn validate(&self) -> (r: Result<(), ChartError>)
        ensures
            r == spec_validate(cfg_params(*self)),
    {
        if self.height == 0 || self.width == 0 {
            return Err(ChartError::InvalidDimensions);
        }
        match (self.min, self.max) {
            (Some(a), Some(b)) => {
                if sample_ge_exec(a, b) {
                    return Err(ChartError::InvalidRange);
                }
            },
            _ => {},
        }
        Ok(())
    }
}

} // verus!
