//! One ranked row and its renderings.

use crate::args::{Precision, RowDisplay};
use crate::color::{
    ansi_reset, holds_reset, is_heading, is_tinted, lemma_escape_free_holds_no_reset, paint,
    paint_heading, Color,
};
use crate::dto::{EntryView, WhatInResult};
use crate::percentage::{
    has_decimals, lemma_scaled_is_nearest, lemma_text_has_decimals, Percentage,
};
use crate::stats::Measure;
use crate::text::{
    append_decimal, append_padded_left, append_padded_right, append_repeated, decimal_digits,
    decimal_text, fixed_digits, lemma_repeated_chars, lemma_repeated_len, pad_left, pad_right,
    repeated,
};
use vstd::prelude::*;
use vstd::string::StringExecFns;

verus! {

/// The colours handed out by rank, in order.
pub const COLORS_BARS: [Color; 6] = [
    Color::Blue,
    Color::Red,
    Color::Yellow,
    Color::Green,
    Color::Magenta,
    Color::Cyan,
];

/// The cycle of colours as a sequence.
pub open spec fn palette() -> Seq<Color> {
    seq![Color::Blue, Color::Red, Color::Yellow, Color::Green, Color::Magenta, Color::Cyan]
}

/// The colour of the row at `rank`: the palette, cycled.
pub open spec fn rank_color(rank: nat) -> Color {
    palette()[(rank % 6) as int]
}

/// The colour of the row at `rank`.
pub fn bar_color(rank: usize) -> (color: Color)
    ensures
        color == rank_color(rank as nat),
{
    COLORS_BARS[rank % COLORS_BARS.len()]
}

/// A row is printed on its own: each of its shapes needs nothing but the row.
#[derive(Debug)]
pub struct TableRow<'a> {
    pub lang: &'a str,
    pub percentage: Percentage,
    pub value: u64,
    pub color: Color,
    pub precision: Precision,
    pub output: RowDisplay,
    pub measure: Measure,
}

/// A row with the characters of its language name.
pub struct RowView {
    pub lang: Seq<char>,
    pub percentage: Percentage,
    pub value: u64,
    pub color: Color,
    pub precision: Precision,
    pub output: RowDisplay,
    pub measure: Measure,
}

impl<'a> View for TableRow<'a> {
    type V = RowView;

    open spec fn view(&self) -> RowView {
        RowView {
            lang: self.lang@,
            percentage: self.percentage,
            value: self.value,
            color: self.color,
            precision: self.precision,
            output: self.output,
            measure: self.measure,
        }
    }
}

/// The rows of `rows`, in order.
pub open spec fn row_views<'a>(rows: Seq<TableRow<'a>>) -> Seq<RowView> {
    Seq::new(rows.len(), |i: int| rows[i]@)
}

impl RowView {
    /// A row's percentage is a percentage.
    pub open spec fn wf(self) -> bool {
        self.percentage.wf()
    }

    /// The unit after the value: files are counted in the singular exactly
    /// when there is one, kilobytes are abbreviated.
    pub open spec fn unit_label(self) -> Seq<char> {
        match self.measure {
            Measure::Files => if self.value == 1 {
                "file"@
            } else {
                "files"@
            },
            Measure::KBytes => "KB"@,
        }
    }

    /// The percentage at the row's precision.
    pub open spec fn percent_text(self) -> Seq<char> {
        self.percentage.spec_text(self.precision)
    }

    /// One block for each whole percent, the percentage rounded.
    pub open spec fn bar(self) -> Seq<char> {
        repeated("\u{2588}"@, self.percentage.spec_rounded())
    }

    /// The language name filled up to the width of the first column.
    pub open spec fn heading(self) -> Seq<char> {
        pad_right(self.lang, 20)
    }

    /// Language, percentage and value, separated by commas.
    pub open spec fn csv_line(self) -> Seq<char> {
        self.lang + ","@ + self.percent_text() + ","@ + decimal_digits(self.value as nat)
    }

    /// The columns of a table line around the tinted `name` and `bar`.
    pub open spec fn table_line(self, name: Seq<char>, bar: Seq<char>) -> Seq<char> {
        name + " | "@ + pad_left(self.percent_text(), 5) + "% | "@ + pad_left(
            decimal_digits(self.value as nat),
            9,
        ) + " "@ + pad_right(self.unit_label(), 5) + " "@ + bar
    }

    /// Language, value and unit on one line, the tinted `bar` and the
    /// percentage on the next.
    pub open spec fn pretty_lines(self, bar: Seq<char>) -> Seq<char> {
        self.lang + " - "@ + decimal_digits(self.value as nat) + " "@ + self.unit_label() + "\n"@
            + bar + " "@ + self.percent_text() + "%"@
    }

    /// The tinted `circle` and the language, spaced for a legend.
    pub open spec fn legend_entry(self, circle: Seq<char>) -> Seq<char> {
        circle + "  "@ + self.lang + "      "@
    }

    /// `text` is a rendering of the row in its own shape. The comma
    /// separated shape has one rendering; the others have one for each way
    /// their tinted parts may come out.
    pub open spec fn renders(self, text: Seq<char>) -> bool {
        match self.output {
            RowDisplay::Csv => text == self.csv_line(),
            RowDisplay::Table => exists|name: Seq<char>, bar: Seq<char>|
                is_heading(self.heading(), name) && is_tinted(self.bar(), bar, self.color) && text
                    == #[trigger] self.table_line(name, bar),
            RowDisplay::Pretty => exists|bar: Seq<char>|
                is_tinted(self.bar(), bar, self.color) && text == #[trigger] self.pretty_lines(bar),
            RowDisplay::OneLine => exists|circle: Seq<char>|
                is_tinted("\u{2b24}"@, circle, self.color) && text == #[trigger] self.legend_entry(
                    circle,
                ),
        }
    }

    /// The percentage as a structured result holds it: always with two
    /// fractional digits, whatever the row's precision.
    pub open spec fn fixed_percent_text(self) -> Seq<char> {
        self.percentage.spec_text(Precision::Double)
    }

    /// The row as an entry of a structured result: the percentage with
    /// two fractional digits, the value under the name of what was measured.
    pub open spec fn representation(self) -> EntryView {
        match self.measure {
            Measure::Files => EntryView::AsCount {
                language: self.lang,
                percentage: self.fixed_percent_text(),
                number_of_files: decimal_digits(self.value as nat),
            },
            Measure::KBytes => EntryView::InBytes {
                language: self.lang,
                percentage: self.fixed_percent_text(),
                kbytes: decimal_digits(self.value as nat),
            },
        }
    }
}

/// The percentage of a structured entry does not depend on the row's
/// precision. It is the hundredths nearest to the share, so it reads to
/// within half a hundredth of the percentage: with `h` the hundredths, the
/// distance of `h / 100` from `100 * part / whole` is at most `1 / 200`.
pub proof fn lemma_fixed_percent_text(row: RowView, other: Precision)
    requires
        row.wf(),
    ensures
        (RowView { precision: other, ..row }).representation() == row.representation(),
        has_decimals(row.fixed_percent_text(), 2),
        ({
            let hundredths = row.percentage.spec_scaled(Precision::Double);
            &&& row.fixed_percent_text() == decimal_digits(hundredths / 100) + seq!['.']
                + fixed_digits(hundredths % 100, 2)
            &&& -(row.percentage.whole as int) <= 2 * (hundredths * row.percentage.whole
                - row.percentage.part * 10000) <= row.percentage.whole
        }),
{
    lemma_text_has_decimals(row.percentage, Precision::Double);
    lemma_scaled_is_nearest(row.percentage, Precision::Double);
    assert(row.percentage.part * 100 * Precision::Double.spec_scale() == row.percentage.part
        * 10000) by (nonlinear_arith)
        requires
            Precision::Double.spec_scale() == 100,
    ;
}

/// A bar has one block for each whole percent.
pub proof fn lemma_bar_len(row: RowView)
    ensures
        row.bar().len() == row.percentage.spec_rounded(),
{
    reveal_strlit("\u{2588}");
    lemma_repeated_len("\u{2588}"@, row.percentage.spec_rounded());
}

/// What a row hands over to be tinted holds no reset sequence: never its
/// bar or the circle of its legend entry, and its heading where the
/// language name holds none. Of those the tint is known exactly.
pub proof fn lemma_tinted_parts_hold_no_reset(row: RowView)
    ensures
        !holds_reset(row.bar()),
        !holds_reset("\u{2b24}"@),
        !holds_reset(row.lang) ==> !holds_reset(row.heading()),
{
    reveal_strlit("\u{2588}");
    reveal_strlit("\u{2b24}");
    reveal_strlit(" ");
    lemma_repeated_chars("\u{2588}"@, row.percentage.spec_rounded());
    lemma_escape_free_holds_no_reset(row.bar());
    lemma_escape_free_holds_no_reset("\u{2b24}"@);
    if row.lang.len() < 20 && !holds_reset(row.lang) {
        let fill = repeated(" "@, (20 - row.lang.len()) as nat);
        let heading = row.heading();
        lemma_repeated_chars(" "@, (20 - row.lang.len()) as nat);
        assert forall|at: int| 0 <= at && at + 4 <= heading.len() implies #[trigger] heading.subrange(
            at,
            at + 4,
        ) != ansi_reset() by {
            if at + 4 <= row.lang.len() {
                assert(heading.subrange(at, at + 4) =~= row.lang.subrange(at, at + 4));
            } else {
                assert(heading.subrange(at, at + 4)[3] == fill[at + 3 - row.lang.len()]);
                assert(" "@.contains(fill[at + 3 - row.lang.len()]));
                assert(ansi_reset()[3] == 'm');
            }
        }
    }
}

/// The unit of a count of files is in the singular for one file and in the
/// plural for every other count, and the two differ.
pub proof fn lemma_unit_label(row: RowView)
    ensures
        row.measure == Measure::Files && row.value == 1 ==> row.unit_label() == "file"@,
        row.measure == Measure::Files && row.value != 1 ==> row.unit_label() == "files"@,
        row.measure == Measure::KBytes ==> row.unit_label() == "KB"@,
        "file"@ != "files"@,
{
    reveal_strlit("file");
    reveal_strlit("files");
    assert("file"@.len() != "files"@.len());
}

impl<'a> TableRow<'a> {
    pub fn to_representation(&self) -> (entry: WhatInResult)
        requires
            self@.wf(),
        ensures
            entry@ == self@.representation(),
    {
        match self.measure {
            Measure::Files => WhatInResult::AsCount {
                language: String::from_str(self.lang),
                percentage: self.percentage.to_text(Precision::Double),
                number_of_files: decimal_text(self.value),
            },
            Measure::KBytes => WhatInResult::InBytes {
                language: String::from_str(self.lang),
                percentage: self.percentage.to_text(Precision::Double),
                kbytes: decimal_text(self.value),
            },
        }
    }

    /// The unit that follows the value.
    pub fn unit_label(&self) -> (label: &'static str)
        ensures
            label@ == self@.unit_label(),
    {
        match self.measure {
            Measure::Files => {
                if self.value == 1 {
                    "file"
                } else {
                    "files"
                }
            },
            Measure::KBytes => "KB",
        }
    }

    /// The bar of the row, not yet tinted.
    pub fn bar(&self) -> (bar: String)
        requires
            self@.wf(),
        ensures
            bar@ == self@.bar(),
    {
        let mut bar = String::new();
        append_repeated(&mut bar, "\u{2588}", self.percentage.rounded());
        assert(bar@ =~= self@.bar());
        bar
    }

    /// The row as comma separated values.
    pub fn csv_line(&self) -> (text: String)
        requires
            self@.wf(),
        ensures
            text@ == self@.csv_line(),
    {
        let mut text = String::from_str(self.lang);
        text.append(",");
        text.append(self.percentage.to_text(self.precision).as_str());
        text.append(",");
        append_decimal(&mut text, self.value);
        text
    }

    /// The row as a line of a table, around a name and a bar that were
    /// tinted already.
    pub fn table_line(&self, name: &str, bar: &str) -> (text: String)
        requires
            self@.wf(),
        ensures
            text@ == self@.table_line(name@, bar@),
    {
        let mut text = String::from_str(name);
        text.append(" | ");
        append_padded_left(&mut text, self.percentage.to_text(self.precision).as_str(), 5);
        text.append("% | ");
        append_padded_left(&mut text, decimal_text(self.value).as_str(), 9);
        text.append(" ");
        append_padded_right(&mut text, self.unit_label(), 5);
        text.append(" ");
        text.append(bar);
        text
    }

    /// The row in its two line shape, around a bar that was tinted already.
    pub fn pretty_lines(&self, bar: &str) -> (text: String)
        requires
            self@.wf(),
        ensures
            text@ == self@.pretty_lines(bar@),
    {
        let mut text = String::from_str(self.lang);
        text.append(" - ");
        append_decimal(&mut text, self.value);
        text.append(" ");
        text.append(self.unit_label());
        text.append("\n");
        text.append(bar);
        text.append(" ");
        text.append(self.percentage.to_text(self.precision).as_str());
        text.append("%");
        text
    }

    /// The row as an entry of a legend, after a circle that was tinted
    /// already.
    pub fn legend_entry(&self, circle: &str) -> (text: String)
        ensures
            text@ == self@.legend_entry(circle@),
    {
        let mut text = String::from_str(circle);
        text.append("  ");
        text.append(self.lang);
        text.append("      ");
        text
    }

    /// The row in the shape it was built for.
    pub fn to_string(&self) -> (text: String)
        requires
            self@.wf(),
        ensures
            self@.renders(text@),
    {
        match self.output {
            RowDisplay::Csv => self.csv_line(),
            RowDisplay::Table => {
                let mut heading = String::new();
                append_padded_right(&mut heading, self.lang, 20);
                assert(heading@ =~= self@.heading());
                let name = paint_heading(heading.as_str());
                let bar = paint(self.bar().as_str(), self.color);
                self.table_line(name.as_str(), bar.as_str())
            },
            RowDisplay::Pretty => {
                let bar = paint(self.bar().as_str(), self.color);
                self.pretty_lines(bar.as_str())
            },
            RowDisplay::OneLine => {
                let circle = paint("\u{2b24}", self.color);
                self.legend_entry(circle.as_str())
            },
        }
    }
}

} // verus!
