//! Parameters for creating a `Chart`.
use vstd::prelude::*;

verus! {

/// Which end of the range of values is shown when not all of them fit.
#[derive(Debug, Clone, Copy, PartialEq, Eq, Structural)]
pub enum ViewPreference {
    /// Show the small values; larger ones are marked as excluded.
    /// If no small values exist, show the large ones.
    Bottom,
    /// Show the large values; smaller ones are marked as hidden.
    /// If no large values exist, show the small ones.
    Top,
}

/// How the space around the chart is used.
#[derive(Debug)]
pub enum DisplayMode<'a> {
    /// Just the chart.
    Compact,
    /// Chart with a legend of labels below it, one label for each data point.
    Portrait { labels: &'a [&'a str] },
}

/// Options of a `Chart`.
#[derive(Debug)]
pub struct ChartOptions<'a> {
    /// The vertical size of the chart, in lines of text.
    pub height: u16,
    /// Determines how outliers are displayed.
    pub view: ViewPreference,
    /// Determines how space surrounding the chart is used.
    pub display: DisplayMode<'a>,
}

impl<'a> Default for ChartOptions<'a> {
    fn default() -> (r: Self)
        ensures
            r.height == 8,
            r.view == ViewPreference::Top,
            r.display is Compact,
    {
        ChartOptions { height: 8, view: ViewPreference::Top, display: DisplayMode::Compact }
    }
}

/// A second series of values, shown next to the primary one.
#[derive(Debug)]
pub struct ChartComparison<'a> {
    /// Another slice of values to display next to the chart's data.
    pub data: &'a [u32],
}

} // verus!
