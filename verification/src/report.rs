//! The whole output of a run, in each style.

use crate::args::{Layout, RowDisplay};
use crate::dto::{entry_views, AggregatedResult, EntryView, WhatInResult};
use crate::format::{row_views, RowView, TableRow};
use crate::graphs::{all_wf, one_line_draws, Graph, OneLineGraph};
use crate::stats::ProjectStats;
use crate::text::{join, joined, texts};
use vstd::prelude::*;

verus! {

/// What a run puts out: text to print as it is, or a structured result.
#[derive(Debug)]
pub enum Output {
    Text(String),
    Structured(AggregatedResult),
}

/// The entries that `rows` become in a structured result.
pub open spec fn representations(rows: Seq<RowView>) -> Seq<EntryView> {
    Seq::new(rows.len(), |i: int| rows[i].representation())
}

/// `text` lists `rows`: some rendering of each row in its own shape, each
/// ended by a line feed.
pub open spec fn is_listing(rows: Seq<RowView>, text: Seq<char>) -> bool {
    exists|lines: Seq<Seq<char>>|
        {
            &&& lines.len() == rows.len()
            &&& forall|i: int| 0 <= i < rows.len() ==> rows[i].renders(#[trigger] lines[i])
            &&& text == #[trigger] joined(lines, 1)
        }
}

/// The rows as comma separated values, a line each.
pub open spec fn csv_listing(rows: Seq<RowView>) -> Seq<char> {
    joined(Seq::new(rows.len(), |i: int| rows[i].csv_line()), 1)
}

/// A listing of comma separated rows is the one text `csv_listing` gives.
pub proof fn lemma_csv_listing(rows: Seq<RowView>, text: Seq<char>)
    requires
        is_listing(rows, text),
        forall|i: int| 0 <= i < rows.len() ==> (#[trigger] rows[i]).output == RowDisplay::Csv,
    ensures
        text == csv_listing(rows),
{
    let lines = choose|lines: Seq<Seq<char>>|
        {
            &&& lines.len() == rows.len()
            &&& forall|i: int| 0 <= i < rows.len() ==> rows[i].renders(#[trigger] lines[i])
            &&& text == #[trigger] joined(lines, 1)
        };
    assert(lines =~= Seq::new(rows.len(), |i: int| rows[i].csv_line())) by {
        assert forall|i: int| 0 <= i < rows.len() implies lines[i] == rows[i].csv_line() by {
            assert(rows[i].renders(lines[i]));
        }
    }
}

/// The rows, one after another, each in its own shape and on a line of its
/// own.
pub fn listing(rows: &Vec<TableRow<'_>>) -> (text: String)
    requires
        all_wf(row_views(rows@)),
    ensures
        is_listing(row_views(rows@), text@),
{
    let ghost views = row_views(rows@);
    let mut lines: Vec<String> = Vec::new();
    let mut done: usize = 0;
    while done < rows.len()
        invariant
            done <= rows.len(),
            views == row_views(rows@),
            all_wf(views),
            lines.len() == done,
            forall|i: int| 0 <= i < done ==> views[i].renders(#[trigger] texts(lines@)[i]),
        decreases rows.len() - done,
    {
        assert(rows[done as int]@ == views[done as int]);
        let ghost before = texts(lines@);
        lines.push(rows[done].to_string());
        proof {
            assert forall|i: int| 0 <= i < done + 1 implies views[i].renders(
                #[trigger] texts(lines@)[i],
            ) by {
                if i < done {
                    assert(texts(lines@)[i] == before[i]);
                }
            }
        }
        done = done + 1;
    }
    let text = join(&lines, 1);
    assert(text@ == joined(texts(lines@), 1));
    text
}

/// The rows as a structured result, an entry for each.
pub fn structured(rows: &Vec<TableRow<'_>>) -> (result: AggregatedResult)
    requires
        all_wf(row_views(rows@)),
    ensures
        result@ == representations(row_views(rows@)),
{
    let ghost views = row_views(rows@);
    let mut data: Vec<WhatInResult> = Vec::new();
    let mut done: usize = 0;
    while done < rows.len()
        invariant
            done <= rows.len(),
            views == row_views(rows@),
            all_wf(views),
            data.len() == done,
            forall|i: int| 0 <= i < done ==> (#[trigger] data[i])@ == views[i].representation(),
        decreases rows.len() - done,
    {
        assert(rows[done as int]@ == views[done as int]);
        data.push(rows[done].to_representation());
        done = done + 1;
    }
    assert(entry_views(data@) =~= representations(views));
    AggregatedResult::new(data)
}

/// `out` is the output in `style` for a table whose rows are `asked`, and
/// `full` where every language is shown as comma separated values: the
/// structured result of the full rows, the one line graph of the rows asked
/// for, or their listing.
pub open spec fn is_rendering(
    full: Seq<RowView>,
    asked: Seq<RowView>,
    style: Layout,
    out: Output,
) -> bool {
    match style {
        Layout::Json => out matches Output::Structured(result) && result@ == representations(full),
        Layout::OneLine => out matches Output::Text(text) && one_line_draws(asked, text@),
        Layout::Csv => out matches Output::Text(text) && text@ == csv_listing(asked),
        Layout::Pretty | Layout::Table => out matches Output::Text(text) && is_listing(
            asked,
            text@,
        ),
    }
}

/// Output that holds no tint is a function of the rows: two renderings of
/// the same rows as comma separated values, or as a structured result, are
/// the same.
pub proof fn lemma_render_is_repeatable(
    full: Seq<RowView>,
    asked: Seq<RowView>,
    style: Layout,
    first: Output,
    second: Output,
)
    requires
        style == Layout::Csv || style == Layout::Json,
        is_rendering(full, asked, style, first),
        is_rendering(full, asked, style, second),
    ensures
        match (first, second) {
            (Output::Text(a), Output::Text(b)) => a@ == b@,
            (Output::Structured(a), Output::Structured(b)) => a@ == b@,
            _ => false,
        },
{
}

/// The output of a run in `style`. The structured style always shows every
/// language, each percentage with two fractional digits; the others compact
/// the rows where `compact` says so and use the precision of the statistics.
pub fn render(stats: &ProjectStats, style: Layout, compact: bool) -> (out: Output)
    requires
        stats.wf(),
    ensures
        is_rendering(
            stats@.table(false, RowDisplay::Csv),
            stats@.table(compact, style.spec_row_display()),
            style,
            out,
        ),
{
    match style {
        Layout::Json => {
            let table = stats.to_table(false, RowDisplay::Csv);
            Output::Structured(structured(&table))
        },
        Layout::OneLine => {
            let table = stats.to_table(compact, RowDisplay::OneLine);
            let graph = OneLineGraph::new(table);
            Output::Text(graph.render())
        },
        Layout::Pretty | Layout::Table | Layout::Csv => {
            let table = stats.to_table(compact, style.row_display());
            let text = listing(&table);
            proof {
                if style == Layout::Csv {
                    lemma_csv_listing(row_views(table@), text@);
                }
            }
            Output::Text(text)
        },
    }
}

} // verus!
