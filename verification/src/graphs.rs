//! Graphs: output that is drawn from all rows together.

use crate::color::{is_tinted, paint};
use crate::format::{row_views, RowView, TableRow};
use crate::text::{join, joined, texts};
use vstd::prelude::*;
use vstd::string::StringExecFns;

verus! {

/// A graph is drawn as a whole, not row by row.
pub trait Graph {
    /// What has to hold of the graph for it to be drawn.
    spec fn drawable(&self) -> bool;

    /// `text` is a drawing of the graph.
    spec fn draws(&self, text: Seq<char>) -> bool;

    /// The graph as text.
    fn render(&self) -> (text: String)
        requires
            self.drawable(),
        ensures
            self.draws(text@),
    ;
}

/// All bars on one line, and under them a legend of four entries a line.
pub struct OneLineGraph<'a> {
    table: Vec<TableRow<'a>>,
}

impl<'a> View for OneLineGraph<'a> {
    type V = Seq<RowView>;

    closed spec fn view(&self) -> Seq<RowView> {
        row_views(self.table@)
    }
}

/// The line of bars, a line feed, then the legend with a line feed after
/// every fourth entry.
pub open spec fn one_line(bars: Seq<Seq<char>>, entries: Seq<Seq<char>>) -> Seq<char> {
    joined(bars, 0) + "\n"@ + joined(entries, 4)
}

/// `text` is a drawing of `rows` on one line: some tinting of each row's
/// bar and some rendering of each row, laid out by `one_line`.
pub open spec fn one_line_draws(rows: Seq<RowView>, text: Seq<char>) -> bool {
    exists|bars: Seq<Seq<char>>, entries: Seq<Seq<char>>|
        {
            &&& bars.len() == rows.len()
            &&& entries.len() == rows.len()
            &&& forall|i: int|
                0 <= i < rows.len() ==> is_tinted(rows[i].bar(), #[trigger] bars[i], rows[i].color)
            &&& forall|i: int| 0 <= i < rows.len() ==> rows[i].renders(#[trigger] entries[i])
            &&& text == #[trigger] one_line(bars, entries)
        }
}

/// Every row of `rows` is well formed.
pub open spec fn all_wf(rows: Seq<RowView>) -> bool {
    forall|i: int| 0 <= i < rows.len() ==> (#[trigger] rows[i]).wf()
}

impl<'a> OneLineGraph<'a> {
    pub fn new(table: Vec<TableRow<'a>>) -> (graph: Self)
        ensures
            graph@ == row_views(table@),
    {
        OneLineGraph { table }
    }

    /// Lays out bars and legend entries that were tinted already.
    pub fn compose(bars: &Vec<String>, entries: &Vec<String>) -> (text: String)
        ensures
            text@ == one_line(texts(bars@), texts(entries@)),
    {
        let mut text = join(bars, 0);
        text.append("\n");
        text.append(join(entries, 4).as_str());
        text
    }
}

impl<'a> Graph for OneLineGraph<'a> {
    open spec fn drawable(&self) -> bool {
        all_wf(self@)
    }

    open spec fn draws(&self, text: Seq<char>) -> bool {
        one_line_draws(self@, text)
    }

    fn render(&self) -> (text: String) {
        let ghost rows = self@;
        let mut bars: Vec<String> = Vec::new();
        let mut entries: Vec<String> = Vec::new();
        let mut done: usize = 0;
        while done < self.table.len()
            invariant
                done <= self.table.len(),
                rows == row_views(self.table@),
                all_wf(rows),
                bars.len() == done,
                entries.len() == done,
                forall|i: int|
                    0 <= i < done ==> is_tinted(
                        rows[i].bar(),
                        #[trigger] texts(bars@)[i],
                        rows[i].color,
                    ),
                forall|i: int| 0 <= i < done ==> rows[i].renders(#[trigger] texts(entries@)[i]),
            decreases self.table.len() - done,
        {
            let row = &self.table[done];
            assert(row@ == rows[done as int]);
            let ghost bars_before = texts(bars@);
            let ghost entries_before = texts(entries@);
            bars.push(paint(row.bar().as_str(), row.color));
            entries.push(row.to_string());
            proof {
                assert forall|i: int| 0 <= i < done + 1 implies is_tinted(
                    rows[i].bar(),
                    #[trigger] texts(bars@)[i],
                    rows[i].color,
                ) by {
                    if i < done {
                        assert(texts(bars@)[i] == bars_before[i]);
                    }
                }
                assert forall|i: int| 0 <= i < done + 1 implies rows[i].renders(
                    #[trigger] texts(entries@)[i],
                ) by {
                    if i < done {
                        assert(texts(entries@)[i] == entries_before[i]);
                    }
                }
            }
            done = done + 1;
        }
        let text = OneLineGraph::compose(&bars, &entries);
        assert(text@ == one_line(texts(bars@), texts(entries@)));
        text
    }
}

} // verus!
