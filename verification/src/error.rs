//! Error taxonomy of the renderer.

use vstd::prelude::*;

verus! {

/// Why a chart could not be rendered.
#[derive(Clone, Copy, Debug, PartialEq, Eq, Structural)]
pub enum ChartError {
    /// The series has no samples at all.
    EmptyData,
    /// The value range is unusable: explicit bounds out of order or
    /// non-finite, or no finite sample to derive a range from.
    InvalidRange,
    /// The grid has zero height or zero width.
    InvalidDimensions,
}

/// The display text of each error kind.
pub open spec fn error_text(e: ChartError) -> Seq<char> {
    match e {
        ChartError::EmptyData => "Cannot plot empty data"@,
        ChartError::InvalidRange => "Invalid min/max range"@,
        ChartError::InvalidDimensions => "Invalid chart dimensions"@,
    }
}

impl ChartError {
    /// Human-readable description of the error.
    pub fn message(&self) -> (r: String)
        ensures
            r@ == error_text(*self),
    {
        match self {
            ChartError::EmptyData => "Cannot plot empty data".to_owned(),
            ChartError::InvalidRange => "Invalid min/max range".to_owned(),
            ChartError::InvalidDimensions => "Invalid chart dimensions".to_owned(),
        }
    }
}

} // verus!
