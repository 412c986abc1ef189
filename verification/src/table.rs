//! What holds of the rows of every table.

use crate::args::RowDisplay;
use crate::color::Color;
use crate::format::{palette, rank_color, RowView};
use crate::percentage::{has_decimals, lemma_text_has_decimals};
use crate::stats::{precision_for, Measure, StatsView};
use crate::tally::{
    lemma_ascending, lemma_first_where, lemma_sum_reverse, lemma_sum_split, lemma_value_le_sum,
    ranked, sum_values, Entry,
};
use vstd::prelude::*;

verus! {

/// The parts of the total that the rows' percentages stand for, added up.
pub open spec fn sum_parts(rows: Seq<RowView>) -> nat
    decreases rows.len(),
{
    if rows.len() == 0 {
        0
    } else {
        sum_parts(rows.drop_last()) + rows.last().percentage.part as nat
    }
}

/// The ranked entries have the tally's size and sum, no more rows are
/// shown than there are entries, and what the rows shown add up to is part
/// of the total.
pub proof fn lemma_shown(stats: StatsView, compact: bool)
    requires
        stats.wf(),
    ensures
        ranked(stats.tally).len() == stats.tally.len(),
        sum_values(ranked(stats.tally)) == stats.total,
        0 <= stats.shown(compact) <= stats.tally.len(),
        stats.shown_sum(compact) <= stats.total,
        forall|i: int|
            0 <= i < stats.tally.len() ==> (#[trigger] ranked(stats.tally)[i]).value <= stats.total,
        forall|i: int|
            0 <= i < stats.shown(true) ==> (#[trigger] ranked(stats.tally)[i]).value * 200
                >= stats.total,
{
    let by_rank = ranked(stats.tally);
    lemma_ascending(stats.tally);
    lemma_sum_reverse(crate::tally::ascending(stats.tally));
    lemma_first_where(by_rank, |e: Entry| e.value * 200 < stats.total);
    lemma_sum_split(by_rank, stats.shown(compact));
    assert forall|i: int| 0 <= i < stats.tally.len() implies (#[trigger] by_rank[i]).value
        <= stats.total by {
        lemma_value_le_sum(by_rank, i);
    }
}

/// The rows of the first `upto` ranked entries stand for parts that add up
/// to the sum of those entries.
proof fn lemma_sum_parts_of_rows(stats: StatsView, output: RowDisplay, upto: int)
    requires
        stats.wf(),
        0 <= upto <= stats.tally.len(),
    ensures
        sum_parts(Seq::new(upto as nat, |i: int| stats.row(ranked(stats.tally)[i], i as nat, output)))
            == sum_values(ranked(stats.tally).take(upto)),
    decreases upto,
{
    let by_rank = ranked(stats.tally);
    let rows = Seq::new(upto as nat, |i: int| stats.row(by_rank[i], i as nat, output));
    lemma_shown(stats, false);
    if upto > 0 {
        lemma_sum_parts_of_rows(stats, output, upto - 1);
        assert(rows.drop_last() =~= Seq::new(
            (upto - 1) as nat,
            |i: int| stats.row(by_rank[i], i as nat, output),
        ));
        assert(by_rank.take(upto).drop_last() =~= by_rank.take(upto - 1));
        assert(by_rank.take(upto).last() == by_rank[upto - 1]);
        assert(rows.last().percentage.part == by_rank[upto - 1].value);
    } else {
        assert(by_rank.take(0) =~= Seq::<Entry>::empty());
    }
}

/// Every row is well formed: a share of the total, the total not empty.
pub proof fn lemma_rows_wf(stats: StatsView, compact: bool, output: RowDisplay)
    requires
        stats.wf(),
    ensures
        forall|i: int|
            0 <= i < stats.table(compact, output).len() ==> {
                &&& (#[trigger] stats.table(compact, output)[i]).wf()
                &&& stats.table(compact, output)[i].percentage.whole == stats.total
                &&& stats.table(compact, output)[i].percentage.part == stats.table(
                    compact,
                    output,
                )[i].value
            },
{
    lemma_shown(stats, compact);
}

/// The percentages of a table add up to one hundred. Each row stands for a
/// part of the total. Where every language is shown, or a row gathers the
/// remainder, the parts add up to the total; else they miss it by less
/// than a thousandth.
pub proof fn lemma_table_adds_up(stats: StatsView, compact: bool, output: RowDisplay)
    requires
        stats.wf(),
        stats.total > 0,
    ensures
        sum_parts(stats.table(compact, output)) <= stats.total,
        999 * stats.total <= 1000 * sum_parts(stats.table(compact, output)),
        !compact || stats.has_other(compact) ==> sum_parts(stats.table(compact, output))
            == stats.total,
{
    let by_rank = ranked(stats.tally);
    let shown = stats.shown(compact);
    lemma_shown(stats, compact);
    lemma_sum_parts_of_rows(stats, output, shown);
    let rows = Seq::new(shown as nat, |i: int| stats.row(by_rank[i], i as nat, output));
    if stats.has_other(compact) {
        let table = stats.table(compact, output);
        assert(table.drop_last() =~= rows);
    } else if !compact {
        assert(by_rank.take(shown) =~= by_rank);
    }
}

/// The rows of a compacted table are the first rows of the full table, in
/// the same order, followed by at most one row for the remainder.
pub proof fn lemma_compact_is_prefix(stats: StatsView, output: RowDisplay)
    requires
        stats.wf(),
    ensures
        ({
            let full = stats.table(false, output);
            let compacted = stats.table(true, output);
            let kept = if stats.total == 0 {
                0
            } else {
                stats.shown(true)
            };
            &&& 0 <= kept <= full.len()
            &&& if stats.total > 0 && stats.has_other(true) {
                compacted == full.take(kept).push(
                    stats.other_row((stats.total - stats.shown_sum(true)) as nat, output),
                )
            } else {
                compacted == full.take(kept)
            }
        }),
{
    lemma_shown(stats, true);
    lemma_shown(stats, false);
    let full = stats.table(false, output);
    let compacted = stats.table(true, output);
    if stats.total > 0 {
        let kept = stats.shown(true);
        let rows = Seq::new(
            kept as nat,
            |i: int| stats.row(ranked(stats.tally)[i], i as nat, output),
        );
        assert(rows =~= full.take(kept));
    } else {
        assert(full.take(0) =~= compacted);
    }
}

/// A table is a function of the statistics: the same statistics, compaction
/// and shape give the same rows, whatever else the two runs differ in.
pub proof fn lemma_table_is_repeatable(
    first: StatsView,
    second: StatsView,
    compact: bool,
    output: RowDisplay,
)
    requires
        first.tally == second.tally,
        first.total == second.total,
        first.precision == second.precision,
        first.measure == second.measure,
    ensures
        first.table(compact, output) == second.table(compact, output),
{
    assert(first.table(compact, output) =~= second.table(compact, output));
}

/// Every percentage of a table has the digits that go with what was
/// measured: one behind the point for up to a thousand files, two for more
/// files and for kilobytes.
pub proof fn lemma_table_precision(stats: StatsView, compact: bool, output: RowDisplay, i: int)
    requires
        stats.wf(),
        0 <= i < stats.table(compact, output).len(),
    ensures
        ({
            let row = stats.table(compact, output)[i];
            let digits: nat = if stats.measure == Measure::Files && stats.total <= 1000 {
                1
            } else {
                2
            };
            &&& row.precision == precision_for(stats.measure, stats.total)
            &&& row.precision.spec_digits() == digits
            &&& has_decimals(row.percent_text(), digits)
        }),
{
    let row = stats.table(compact, output)[i];
    lemma_text_has_decimals(row.percentage, row.precision);
}

/// The colour of a row follows from its rank alone: the palette in turn,
/// starting over after its six colours. Only the row for the remainder
/// stands outside the cycle.
pub proof fn lemma_colors_cycle(stats: StatsView, compact: bool, output: RowDisplay, i: int)
    requires
        stats.wf(),
        stats.total > 0,
        0 <= i < stats.shown(compact),
    ensures
        stats.table(compact, output)[i].color == palette()[i % 6],
        stats.table(compact, output)[i].color == stats.table(compact, output)[i % 6].color,
        stats.table(compact, output)[i].color != Color::White,
        stats.has_other(compact) ==> stats.table(compact, output)[stats.shown(compact)].color
            == Color::White,
{
    lemma_shown(stats, compact);
    assert(rank_color(i as nat) == palette()[i % 6]);
    assert(rank_color((i % 6) as nat) == palette()[i % 6]);
}

} // verus!
