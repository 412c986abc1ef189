//! The structured form of a result: every field a string.

use vstd::prelude::*;

verus! {

/// One language of a structured result. Which of the two shapes an entry
/// has follows from what was measured.
#[derive(Debug, Clone)]
pub enum WhatInResult {
    AsCount { language: String, percentage: String, number_of_files: String },
    InBytes { language: String, percentage: String, kbytes: String },
}

/// An entry with the characters of each field.
pub enum EntryView {
    AsCount { language: Seq<char>, percentage: Seq<char>, number_of_files: Seq<char> },
    InBytes { language: Seq<char>, percentage: Seq<char>, kbytes: Seq<char> },
}

impl View for WhatInResult {
    type V = EntryView;

    open spec fn view(&self) -> EntryView {
        match self {
            WhatInResult::AsCount { language, percentage, number_of_files } => EntryView::AsCount {
                language: language@,
                percentage: percentage@,
                number_of_files: number_of_files@,
            },
            WhatInResult::InBytes { language, percentage, kbytes } => EntryView::InBytes {
                language: language@,
                percentage: percentage@,
                kbytes: kbytes@,
            },
        }
    }
}

/// The characters of each entry of `entries`, in order.
pub open spec fn entry_views(entries: Seq<WhatInResult>) -> Seq<EntryView> {
    Seq::new(entries.len(), |i: int| entries[i]@)
}

/// A whole structured result: the list of its entries.
#[derive(Debug)]
pub struct AggregatedResult {
    data: Vec<WhatInResult>,
}

impl View for AggregatedResult {
    type V = Seq<EntryView>;

    closed spec fn view(&self) -> Seq<EntryView> {
        entry_views(self.data@)
    }
}

impl AggregatedResult {
    pub fn new(data: Vec<WhatInResult>) -> (result: Self)
        ensures
            result@ == entry_views(data@),
    {
        AggregatedResult { data }
    }

    /// The entries, in order.
    pub fn data(&self) -> (data: &Vec<WhatInResult>)
        ensures
            entry_views(data@) == self@,
    {
        &self.data
    }
}

} // verus!
