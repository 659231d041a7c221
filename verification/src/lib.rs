//! Terminal line charts over fixed-point samples.
//!
//! A series of samples is quantized onto a character grid and drawn with
//! box-drawing (or plain ASCII) glyphs; rows may carry right-aligned numeric
//! labels.  Sample values are fixed-point numbers counted in millionths of a
//! unit, so every step of the rendering pipeline is integer arithmetic.

pub mod arith;
pub mod config;
pub mod error;
pub mod grid;
pub mod laws;
pub mod numfmt;
pub mod render;
pub mod sample;
pub mod symbols;
pub mod text;

pub use config::{Config, Params};
pub use error::ChartError;
pub use sample::Sample;
pub use render::{plot, plot_ascii, plot_multiple, plot_no_labels, plot_range, plot_sized, plot_with_config};
pub use symbols::Symbols;
