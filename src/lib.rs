//! Compact bar charts in the terminal.
//!
//! A chart shows up to 100 values as vertical bars, eight steps to a line of
//! text, with an optional comparison series beside them and an optional legend
//! of labels below. Where not all values fit the chart's height, a view
//! preference decides whether the small or the large values are drawn; the
//! others are marked.

pub mod chart;
pub mod columns;
pub mod palette;
pub mod params;
pub mod render;
pub mod scale;

pub use chart::Chart;
pub use columns::{ColumnsError, StdinColumns};
pub use palette::Palette;
