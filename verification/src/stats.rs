//! Tallies per language and the ranked rows derived from them.

use crate::args::{CalculateBy, Precision, RowDisplay};
use crate::color::Color;
use crate::format::{bar_color, rank_color, row_views, RowView, TableRow};
use crate::percentage::Percentage;
use crate::tally::{
    ascending, credit, first_where, lemma_ascending, lemma_count_at_most, lemma_credit,
    lemma_first_where_is, lemma_sum_reverse, lemma_sum_split, lemma_value_le_sum, names_distinct,
    ranked, sum_values, value_of, Entry,
};
use vstd::prelude::*;

verus! {

/// What the values of a tally measure.
#[derive(Debug, Clone, Copy, PartialEq, Eq, Structural)]
pub enum Measure {
    Files,
    KBytes,
}

impl Default for Measure {
    fn default() -> (measure: Measure)
        ensures
            measure == Measure::Files,
    {
        Measure::Files
    }
}

/// What is known of one file that was found: the language its extension
/// stands for, if it has an extension, and its length in bytes, if that
/// could be read.
#[derive(Debug)]
pub struct FileEntry {
    pub language: Option<String>,
    pub bytes: Option<u64>,
}

/// A file with the characters of its language name.
pub struct FileView {
    pub language: Option<Seq<char>>,
    pub bytes: Option<u64>,
}

impl View for FileEntry {
    type V = FileView;

    open spec fn view(&self) -> FileView {
        FileView {
            language: match self.language {
                Some(name) => Some(name@),
                None => None,
            },
            bytes: self.bytes,
        }
    }
}

/// The files of `files`, in order.
pub open spec fn file_views(files: Seq<FileEntry>) -> Seq<FileView> {
    Seq::new(files.len(), |i: int| files[i]@)
}

/// What one file adds to a tally. A file without an extension adds nothing.
/// Counting files, every other file adds one to its language. Adding up
/// sizes, it adds its whole kilobytes, and nothing where its length is not
/// known.
pub open spec fn contribution(file: FileView, measure: Measure) -> Option<Entry> {
    match (file.language, measure) {
        (Some(name), Measure::Files) => Some(Entry { name, value: 1 }),
        (Some(name), Measure::KBytes) => match file.bytes {
            Some(bytes) => Some(Entry { name, value: (bytes / 1000) as nat }),
            None => None,
        },
        (None, _) => None,
    }
}

/// The tally after each of `files` in turn was credited to it.
pub open spec fn tally_after(t: Seq<Entry>, files: Seq<FileView>, measure: Measure) -> Seq<Entry>
    decreases files.len(),
{
    if files.len() == 0 {
        t
    } else {
        let before = tally_after(t, files.drop_last(), measure);
        match contribution(files.last(), measure) {
            Some(e) => credit(before, e.name, e.value),
            None => before,
        }
    }
}

/// Everything that `files` add to a tally.
pub open spec fn added(files: Seq<FileView>, measure: Measure) -> nat
    decreases files.len(),
{
    if files.len() == 0 {
        0
    } else {
        added(files.drop_last(), measure) + match contribution(files.last(), measure) {
            Some(e) => e.value,
            None => 0,
        }
    }
}

/// The precision that goes with a total: two digits for kilobytes and for
/// more than a thousand files, else one.
pub open spec fn precision_for(measure: Measure, total: nat) -> Precision {
    match measure {
        Measure::Files => if total > 1000 {
            Precision::Double
        } else {
            Precision::Single
        },
        Measure::KBytes => Precision::Double,
    }
}

/// The statistics of a tree: the tally, its total, what it measures and
/// the precision for its percentages.
pub struct StatsView {
    pub path: Seq<char>,
    pub tally: Seq<Entry>,
    pub total: nat,
    pub precision: Precision,
    pub measure: Measure,
}

impl StatsView {
    /// No language is listed twice, the total is the sum of the tally and
    /// fits the machine, and the precision is the one that goes with it.
    pub open spec fn wf(self) -> bool {
        &&& names_distinct(self.tally)
        &&& self.total == sum_values(self.tally)
        &&& self.total <= u64::MAX
        &&& self.precision == precision_for(self.measure, self.total)
    }

    /// The statistics of a tree of which nothing was processed yet.
    pub open spec fn fresh(path: Seq<char>) -> StatsView {
        StatsView {
            path,
            tally: Seq::empty(),
            total: 0,
            precision: Precision::Single,
            measure: Measure::Files,
        }
    }

    /// The statistics after `files` were processed under `measure`.
    pub open spec fn processed(self, files: Seq<FileView>, measure: Measure) -> StatsView {
        StatsView {
            path: self.path,
            tally: tally_after(self.tally, files, measure),
            total: self.total + added(files, measure),
            precision: precision_for(measure, self.total + added(files, measure)),
            measure,
        }
    }

    /// The row of the entry `e` at `rank`.
    pub open spec fn row(self, e: Entry, rank: nat, output: RowDisplay) -> RowView {
        RowView {
            lang: e.name,
            percentage: Percentage { part: e.value as u64, whole: self.total as u64 },
            value: e.value as u64,
            color: rank_color(rank),
            precision: self.precision,
            output,
            measure: self.measure,
        }
    }

    /// The row that gathers `rest`, the part of the total that no other row
    /// shows.
    pub open spec fn other_row(self, rest: nat, output: RowDisplay) -> RowView {
        RowView {
            lang: "Other"@,
            percentage: Percentage { part: rest as u64, whole: self.total as u64 },
            value: rest as u64,
            color: Color::White,
            precision: self.precision,
            output,
            measure: self.measure,
        }
    }

    /// How many entries, by rank, get a row of their own: all of them, or
    /// when compacting those in front of the first that is below half a
    /// percent of the total.
    pub open spec fn shown(self, compact: bool) -> int {
        if compact {
            first_where(ranked(self.tally), |e: Entry| e.value * 200 < self.total)
        } else {
            ranked(self.tally).len() as int
        }
    }

    /// The sum of the entries that get a row of their own.
    pub open spec fn shown_sum(self, compact: bool) -> nat {
        sum_values(ranked(self.tally).take(self.shown(compact)))
    }

    /// Whether a row gathers the remainder: only when compacting, and only
    /// where the rows shown are not within a thousandth of the total. They
    /// never exceed it, so that is where they fall short of 99.9 percent.
    pub open spec fn has_other(self, compact: bool) -> bool {
        compact && self.shown_sum(compact) * 1000 < 999 * self.total
    }

    /// The rows: none for an empty total; else one for each entry shown, by
    /// rank, and behind them the row for the remainder where there is one.
    pub open spec fn table(self, compact: bool, output: RowDisplay) -> Seq<RowView> {
        if self.total == 0 {
            Seq::empty()
        } else {
            let rows = Seq::new(
                self.shown(compact) as nat,
                |i: int| self.row(ranked(self.tally)[i], i as nat, output),
            );
            if self.has_other(compact) {
                rows.push(self.other_row((self.total - self.shown_sum(compact)) as nat, output))
            } else {
                rows
            }
        }
    }
}

/// The entries held in a list of names and amounts.
pub open spec fn entries_of(m: Seq<(String, u64)>) -> Seq<Entry> {
    Seq::new(m.len(), |i: int| Entry { name: m[i].0@, value: m[i].1 as nat })
}

/// The entries that a list of borrowed names and amounts refers to.
pub open spec fn entries_at(m: Seq<(&String, &u64)>) -> Seq<Entry> {
    Seq::new(m.len(), |i: int| Entry { name: m[i].0@, value: *m[i].1 as nat })
}

/// What `files` add to the language `name`.
pub open spec fn added_to(files: Seq<FileView>, measure: Measure, name: Seq<char>) -> nat
    decreases files.len(),
{
    if files.len() == 0 {
        0
    } else {
        added_to(files.drop_last(), measure, name) + match contribution(files.last(), measure) {
            Some(e) => if e.name == name {
                e.value
            } else {
                0
            },
            None => 0,
        }
    }
}

/// Processing files lists no language twice, adds to each language what
/// the files of that language add, whatever their order and whatever lies
/// between them, and adds to the sum what all of them add.
pub proof fn lemma_tally_after(t: Seq<Entry>, files: Seq<FileView>, measure: Measure)
    requires
        names_distinct(t),
    ensures
        names_distinct(tally_after(t, files, measure)),
        sum_values(tally_after(t, files, measure)) == sum_values(t) + added(files, measure),
        forall|name: Seq<char>| #[trigger]
            value_of(tally_after(t, files, measure), name) == value_of(t, name) + added_to(
                files,
                measure,
                name,
            ),
    decreases files.len(),
{
    if files.len() > 0 {
        let before = tally_after(t, files.drop_last(), measure);
        lemma_tally_after(t, files.drop_last(), measure);
        match contribution(files.last(), measure) {
            Some(e) => {
                lemma_credit(before, e.name, e.value);
            },
            None => {},
        }
        assert forall|name: Seq<char>| #[trigger]
            value_of(tally_after(t, files, measure), name) == value_of(t, name) + added_to(
                files,
                measure,
                name,
            ) by {
            assert(value_of(before, name) == value_of(t, name) + added_to(
                files.drop_last(),
                measure,
                name,
            ));
        }
    }
}

/// What was measured decides the precision, whatever the files and
/// whatever was tallied before: adding up sizes always ends with kilobytes
/// and two digits; counting ends with files, and with two digits exactly
/// where the total is above a thousand.
pub proof fn lemma_processed_precision(stats: StatsView, files: Seq<FileView>)
    ensures
        stats.processed(files, Measure::KBytes).measure == Measure::KBytes,
        stats.processed(files, Measure::KBytes).precision == Precision::Double,
        stats.processed(files, Measure::Files).measure == Measure::Files,
        stats.processed(files, Measure::Files).precision == if stats.processed(
            files,
            Measure::Files,
        ).total > 1000 {
            Precision::Double
        } else {
            Precision::Single
        },
{
}

/// Part of the files add no more than all of them.
pub proof fn lemma_added_prefix(files: Seq<FileView>, measure: Measure, upto: int)
    requires
        0 <= upto <= files.len(),
    ensures
        added(files.take(upto), measure) <= added(files, measure),
    decreases files.len(),
{
    if upto == files.len() {
        assert(files.take(upto) =~= files);
    } else {
        lemma_added_prefix(files.drop_last(), measure, upto);
        assert(files.drop_last().take(upto) =~= files.take(upto));
    }
}

/// Files that are counted add at most one each.
pub proof fn lemma_added_files_le_len(files: Seq<FileView>)
    ensures
        added(files, Measure::Files) <= files.len(),
    decreases files.len(),
{
    if files.len() > 0 {
        lemma_added_files_le_len(files.drop_last());
    }
}

/// The statistics of one tree. The tally lists each language once, in the
/// order in which the languages were first met.
#[derive(Debug)]
pub struct ProjectStats {
    path: String,
    map: Vec<(String, u64)>,
    total: u64,
    precision: Precision,
    measure: Measure,
}

impl View for ProjectStats {
    type V = StatsView;

    closed spec fn view(&self) -> StatsView {
        StatsView {
            path: self.path@,
            tally: entries_of(self.map@),
            total: self.total as nat,
            precision: self.precision,
            measure: self.measure,
        }
    }
}

/// Credits `amount` to `name`: adds it to the entry for `name`, or lists
/// `name` last.
fn credit_entry(map: &mut Vec<(String, u64)>, name: &String, amount: u64)
    requires
        sum_values(entries_of(old(map)@)) + amount <= u64::MAX,
    ensures
        entries_of(final(map)@) == credit(entries_of(old(map)@), name@, amount as nat),
{
    let ghost before = entries_of(map@);
    let mut at: usize = 0;
    while at < map.len()
        invariant
            at <= map.len(),
            map@ == old(map)@,
            before == entries_of(map@),
            sum_values(before) + amount <= u64::MAX,
            forall|i: int| 0 <= i < at ==> (#[trigger] before[i]).name != name@,
        decreases map.len() - at,
    {
        if map[at].0 == *name {
            proof {
                assert(before[at as int].name == name@);
                lemma_first_where_is(before, |e: Entry| e.name == name@, at as int);
                lemma_value_le_sum(before, at as int);
            }
            let value = map[at].1 + amount;
            map[at].1 = value;
            assert(entries_of(map@) =~= credit(before, name@, amount as nat));
            return ;
        }
        at = at + 1;
    }
    proof {
        lemma_first_where_is(before, |e: Entry| e.name == name@, at as int);
    }
    map.push((name.clone(), amount));
    assert(entries_of(map@) =~= credit(before, name@, amount as nat));
}

/// What `file` adds under `measure`, with the language it goes to.
fn counted(file: &FileEntry, measure: Measure) -> (found: Option<(&String, u64)>)
    ensures
        match contribution(file@, measure) {
            Some(e) => found matches Some(pair) && pair.0@ == e.name && pair.1 == e.value,
            None => found is None,
        },
{
    match &file.language {
        Some(name) => match measure {
            Measure::Files => Some((name, 1)),
            Measure::KBytes => match file.bytes {
                Some(bytes) => Some((name, bytes / 1000)),
                None => None,
            },
        },
        None => None,
    }
}

impl ProjectStats {
    /// The statistics are well formed.
    pub open spec fn wf(&self) -> bool {
        self@.wf()
    }

    pub fn new(path: String) -> (stats: Self)
        ensures
            stats.wf(),
            stats@ == StatsView::fresh(path@),
    {
        let stats = ProjectStats {
            path,
            map: Vec::new(),
            total: 0,
            precision: Precision::Single,
            measure: Measure::Files,
        };
        assert(stats@.tally =~= Seq::empty());
        stats
    }

    /// Whether the tally can take what `files` add under `measure` without
    /// its total leaving the range of the machine's integers.
    pub fn fits(&self, files: &Vec<FileEntry>, measure: Measure) -> (fits: bool)
        ensures
            fits == (self@.total + added(file_views(files@), measure) <= u64::MAX),
    {
        let ghost views = file_views(files@);
        let mut total = self.total;
        let mut done: usize = 0;
        while done < files.len()
            invariant
                done <= files.len(),
                views == file_views(files@),
                total == self@.total + added(views.take(done as int), measure),
            decreases files.len() - done,
        {
            proof {
                lemma_added_prefix(views, measure, done + 1);
                assert(views.take(done + 1).drop_last() =~= views.take(done as int));
                assert(views.take(done + 1).last() == files[done as int]@);
            }
            match counted(&files[done], measure) {
                Some((_, amount)) => {
                    if amount > u64::MAX - total {
                        return false;
                    }
                    total = total + amount;
                },
                None => {},
            }
            done = done + 1;
        }
        assert(views.take(files.len() as int) =~= views);
        true
    }

    /// The statistics of the tree at `path` in which `files` were found,
    /// calculated by `mode`; nothing where the total would leave the range of
    /// the machine's integers, which no count of files does.
    pub fn aggregate(path: String, mode: CalculateBy, files: &Vec<FileEntry>) -> (result: Option<
        ProjectStats,
    >)
        ensures
            match result {
                Some(stats) => stats.wf() && stats@ == StatsView::fresh(path@).processed(
                    file_views(files@),
                    mode.spec_measure(),
                ),
                None => mode == CalculateBy::Kb && added(file_views(files@), Measure::KBytes)
                    > u64::MAX,
            },
    {
        let mut stats = ProjectStats::new(path);
        let count = files.len();
        proof {
            lemma_added_files_le_len(file_views(files@));
            assert(file_views(files@).len() == count);
        }
        if stats.fits(files, mode.measure()) {
            match mode {
                CalculateBy::File => stats.process_by_file_count(files),
                CalculateBy::Kb => stats.process_by_file_size(files),
            }
            Some(stats)
        } else {
            None
        }
    }

    /// Credits each of `files` to the tally, then settles total, precision
    /// and measure.
    fn process(&mut self, files: &Vec<FileEntry>, measure: Measure)
        requires
            old(self).wf(),
            old(self)@.total + added(file_views(files@), measure) <= u64::MAX,
        ensures
            final(self).wf(),
            final(self)@ == old(self)@.processed(file_views(files@), measure),
    {
        let ghost views = file_views(files@);
        let mut total = self.total;
        let mut done: usize = 0;
        while done < files.len()
            invariant
                done <= files.len(),
                views == file_views(files@),
                self.path == old(self).path,
                entries_of(self.map@) == tally_after(
                    old(self)@.tally,
                    views.take(done as int),
                    measure,
                ),
                names_distinct(entries_of(self.map@)),
                total == sum_values(entries_of(self.map@)),
                total == old(self)@.total + added(views.take(done as int), measure),
                old(self)@.total + added(views, measure) <= u64::MAX,
            decreases files.len() - done,
        {
            proof {
                lemma_added_prefix(views, measure, done + 1);
                assert(views.take(done + 1).drop_last() =~= views.take(done as int));
                assert(views.take(done + 1).last() == files[done as int]@);
            }
            match counted(&files[done], measure) {
                Some((name, amount)) => {
                    proof {
                        lemma_credit(entries_of(self.map@), name@, amount as nat);
                    }
                    credit_entry(&mut self.map, name, amount);
                    total = total + amount;
                },
                None => {},
            }
            done = done + 1;
        }
        assert(views.take(files.len() as int) =~= views);
        self.total = total;
        self.precision = match measure {
            Measure::Files => {
                if total > 1000 {
                    Precision::Double
                } else {
                    Precision::Single
                }
            },
            Measure::KBytes => Precision::Double,
        };
        self.measure = measure;
    }

    /// Counts the files of each language: every file with an extension adds
    /// one to the language of its extension.
    pub fn process_by_file_count(&mut self, files: &Vec<FileEntry>)
        requires
            old(self).wf(),
            old(self)@.total + added(file_views(files@), Measure::Files) <= u64::MAX,
        ensures
            final(self).wf(),
            final(self)@ == old(self)@.processed(file_views(files@), Measure::Files),
    {
        self.process(files, Measure::Files);
    }

    /// Adds up the sizes of the files of each language: every file with an
    /// extension and a known length adds its whole kilobytes to the language
    /// of its extension.
    pub fn process_by_file_size(&mut self, files: &Vec<FileEntry>)
        requires
            old(self).wf(),
            old(self)@.total + added(file_views(files@), Measure::KBytes) <= u64::MAX,
        ensures
            final(self).wf(),
            final(self)@ == old(self)@.processed(file_views(files@), Measure::KBytes),
    {
        self.process(files, Measure::KBytes);
    }

    /// The entries of the tally by rising amount; entries of equal amount
    /// in the order in which their languages were first met.
    pub fn to_sorted_list(&self) -> (sorted: Vec<(&String, &u64)>)
        ensures
            entries_at(sorted@) == ascending(self@.tally),
    {
        let ghost tally = entries_of(self.map@);
        let mut sorted: Vec<(&String, &u64)> = Vec::new();
        let mut next: usize = 0;
        assert(entries_at(sorted@) =~= ascending(tally.take(0)));
        while next < self.map.len()
            invariant
                next <= self.map.len(),
                tally == entries_of(self.map@),
                entries_at(sorted@) == ascending(tally.take(next as int)),
            decreases self.map.len() - next,
        {
            let value = self.map[next].1;
            let ghost placed = entries_at(sorted@);
            let mut at: usize = 0;
            while at < sorted.len() && *sorted[at].1 <= value
                invariant
                    at <= sorted.len(),
                    placed == entries_at(sorted@),
                    forall|i: int| 0 <= i < at ==> (#[trigger] placed[i]).value <= value,
                decreases sorted.len() - at,
            {
                at = at + 1;
            }
            proof {
                lemma_ascending(tally.take(next as int));
                assert forall|i: int| at <= i < placed.len() implies (#[trigger] placed[i]).value
                    > value by {
                    assert(placed[at as int].value <= placed[i].value);
                }
                lemma_count_at_most(placed, value as nat, at as int);
                assert(tally.take(next + 1).drop_last() =~= tally.take(next as int));
                assert(tally.take(next + 1).last() == tally[next as int]);
            }
            sorted.insert(at, (&self.map[next].0, &self.map[next].1));
            assert(entries_at(sorted@) =~= placed.insert(at as int, tally[next as int]));
            next = next + 1;
        }
        assert(tally.take(self.map.len() as int) =~= tally);
        sorted
    }

    /// The rows to show, ranked by amount. When compacting, the languages
    /// below half a percent are left out and one row gathers what they add
    /// up to.
    pub fn to_table(&self, is_compact_output: bool, output: RowDisplay) -> (table: Vec<
        TableRow<'_>,
    >)
        requires
            self.wf(),
        ensures
            row_views(table@) == self@.table(is_compact_output, output),
            table.len() == self@.table(is_compact_output, output).len(),
            forall|i: int| 0 <= i < table.len() ==> (#[trigger] table[i])@.wf(),
    {
        let mut table: Vec<TableRow<'_>> = Vec::new();
        if self.total == 0 {
            assert(row_views(table@) =~= self@.table(is_compact_output, output));
            return table;
        }
        let sorted = self.to_sorted_list();
        let count = sorted.len();
        let ghost by_rank = ranked(self@.tally);
        proof {
            lemma_ascending(self@.tally);
            lemma_sum_reverse(ascending(self@.tally));
            if count == 0 {
                lemma_first_where_is(by_rank, |e: Entry| e.value * 200 < self@.total, 0);
            }
        }
        let mut emitted: u64 = 0;
        let mut rank: usize = 0;
        while rank < count
            invariant
                rank <= count,
                count == sorted.len(),
                count == by_rank.len(),
                self.wf(),
                self.total > 0,
                by_rank == ranked(self@.tally),
                entries_at(sorted@) == ascending(self@.tally),
                sum_values(by_rank) == self.total,
                emitted == sum_values(by_rank.take(rank as int)),
                table.len() == rank,
                forall|i: int|
                    0 <= i < rank ==> (#[trigger] table[i])@ == self@.row(
                        by_rank[i],
                        i as nat,
                        output,
                    ),
                forall|i: int| 0 <= i < rank ==> (#[trigger] table[i])@.wf(),
                is_compact_output ==> forall|i: int|
                    0 <= i < rank ==> !((#[trigger] by_rank[i]).value * 200 < self.total),
                rank == count ==> rank == self@.shown(is_compact_output),
            ensures
                rank == self@.shown(is_compact_output),
            decreases count - rank,
        {
            let (name, amount) = sorted[count - 1 - rank];
            proof {
                assert(entries_at(sorted@)[count - 1 - rank] == by_rank[rank as int]);
                lemma_sum_split(by_rank, rank + 1);
                assert(by_rank.take(rank + 1).drop_last() =~= by_rank.take(rank as int));
                assert(by_rank.take(rank + 1).last() == by_rank[rank as int]);
            }
            let percentage = Percentage { part: *amount, whole: self.total };
            if is_compact_output && percentage.is_negligible() {
                proof {
                    lemma_first_where_is(
                        by_rank,
                        |e: Entry| e.value * 200 < self@.total,
                        rank as int,
                    );
                }
                break ;
            }
            table.push(
                TableRow {
                    lang: name.as_str(),
                    percentage,
                    value: *amount,
                    color: bar_color(rank),
                    precision: self.precision,
                    output,
                    measure: self.measure,
                },
            );
            emitted = emitted + *amount;
            rank = rank + 1;
            proof {
                if rank == count && is_compact_output {
                    lemma_first_where_is(
                        by_rank,
                        |e: Entry| e.value * 200 < self@.total,
                        rank as int,
                    );
                }
            }
        }
        proof {
            lemma_sum_split(by_rank, rank as int);
        }
        let total: u128 = self.total as u128;
        if is_compact_output && (emitted as u128) * 1000 < 999 * total {
            let rest = self.total - emitted;
            table.push(
                TableRow {
                    lang: "Other",
                    percentage: Percentage { part: rest, whole: self.total },
                    value: rest,
                    color: Color::White,
                    precision: self.precision,
                    output,
                    measure: self.measure,
                },
            );
        }
        assert(row_views(table@) =~= self@.table(is_compact_output, output));
        table
    }

    pub fn total_files(&self) -> (total: u64)
        ensures
            total == self@.total,
    {
        self.total
    }

    pub fn precision(&self) -> (precision: Precision)
        ensures
            precision == self@.precision,
    {
        self.precision
    }

    /// What the tally measures.
    pub fn measure(&self) -> (measure: Measure)
        ensures
            measure == self@.measure,
    {
        self.measure
    }

    /// The root of the tree the statistics are about.
    pub fn path(&self) -> (path: &str)
        ensures
            path@ == self@.path,
    {
        self.path.as_str()
    }
}

} // verus!
