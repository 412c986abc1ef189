//! The options a run is configured with, as plain data.

use crate::stats::Measure;
use vstd::prelude::*;

verus! {

/// Number of fractional digits a percentage is shown with.
#[derive(Debug, Clone, Copy, PartialEq, Eq, Structural)]
pub enum Precision {
    Single,
    Double,
}

impl Precision {
    /// The number of fractional digits this precision stands for.
    pub open spec fn spec_digits(self) -> nat {
        match self {
            Precision::Single => 1,
            Precision::Double => 2,
        }
    }

    /// The power of ten that moves that many digits in front of the point.
    pub open spec fn spec_scale(self) -> nat {
        match self {
            Precision::Single => 10,
            Precision::Double => 100,
        }
    }

    pub fn digits(self) -> (d: u32)
        ensures
            d == self.spec_digits(),
    {
        match self {
            Precision::Single => 1,
            Precision::Double => 2,
        }
    }

    pub fn scale(self) -> (s: u64)
        ensures
            s == self.spec_scale(),
    {
        match self {
            Precision::Single => 10,
            Precision::Double => 100,
        }
    }
}

/// The shape a single row is rendered in.
#[derive(Debug, Clone, Copy, PartialEq, Eq, Structural)]
pub enum RowDisplay {
    Table,
    Csv,
    Pretty,
    OneLine,
}

/// The output style asked for.
#[derive(Debug, Clone, Copy, PartialEq, Eq, Structural)]
pub enum Layout {
    Pretty,
    Table,
    OneLine,
    Csv,
    Json,
}

impl Layout {
    /// The row shape each style is built from; the structured style reuses
    /// the comma separated one.
    pub open spec fn spec_row_display(self) -> RowDisplay {
        match self {
            Layout::Pretty => RowDisplay::Pretty,
            Layout::Table => RowDisplay::Table,
            Layout::OneLine => RowDisplay::OneLine,
            Layout::Csv => RowDisplay::Csv,
            Layout::Json => RowDisplay::Csv,
        }
    }

    pub fn row_display(self) -> (display: RowDisplay)
        ensures
            display == self.spec_row_display(),
    {
        match self {
            Layout::Pretty => RowDisplay::Pretty,
            Layout::Table => RowDisplay::Table,
            Layout::OneLine => RowDisplay::OneLine,
            Layout::Csv | Layout::Json => RowDisplay::Csv,
        }
    }
}

impl Default for Layout {
    fn default() -> (layout: Layout)
        ensures
            layout == Layout::Pretty,
    {
        Layout::Pretty
    }
}

/// What a tally adds up: files, or their sizes in kilobytes.
#[derive(Debug, Clone, Copy, PartialEq, Eq, Structural)]
pub enum CalculateBy {
    File,
    Kb,
}

impl CalculateBy {
    /// What a tally measures when it is calculated by this unit.
    pub open spec fn spec_measure(self) -> Measure {
        match self {
            CalculateBy::File => Measure::Files,
            CalculateBy::Kb => Measure::KBytes,
        }
    }

    pub fn measure(self) -> (measure: Measure)
        ensures
            measure == self.spec_measure(),
    {
        match self {
            CalculateBy::File => Measure::Files,
            CalculateBy::Kb => Measure::KBytes,
        }
    }
}

impl Default for CalculateBy {
    fn default() -> (unit: CalculateBy)
        ensures
            unit == CalculateBy::File,
    {
        CalculateBy::File
    }
}

/// The options of one run.
#[derive(Debug)]
pub struct Args {
    /// Root of the tree to look at.
    pub path: String,
    /// Output style.
    pub style: Layout,
    /// Show every language instead of folding the negligible ones.
    pub full: bool,
    /// Count files or kilobytes.
    pub unit: CalculateBy,
}

impl Args {
    /// Rows are compacted unless the full listing was asked for.
    pub fn is_compact(&self) -> (compact: bool)
        ensures
            compact == !self.full,
    {
        !self.full
    }
}

} // verus!
