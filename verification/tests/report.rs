use project_stats::args::{Args, CalculateBy, Layout, RowDisplay};
use project_stats::dto::WhatInResult;
use project_stats::report::{render, structured, Output};
use project_stats::stats::{FileEntry, ProjectStats};

fn counted(tally: &[(&str, usize)]) -> ProjectStats {
    let mut files: Vec<FileEntry> = Vec::new();
    for (language, count) in tally {
        for _ in 0..*count {
            files.push(FileEntry { language: Some(language.to_string()), bytes: None });
        }
    }
    ProjectStats::aggregate(".".to_string(), CalculateBy::File, &files).unwrap()
}

fn fields(entry: &WhatInResult) -> (String, String, String, bool) {
    match entry {
        WhatInResult::AsCount { language, percentage, number_of_files } => {
            (language.clone(), percentage.clone(), number_of_files.clone(), true)
        }
        WhatInResult::InBytes { language, percentage, kbytes } => {
            (language.clone(), percentage.clone(), kbytes.clone(), false)
        }
    }
}

fn owned(language: &str, percentage: &str, value: &str, count: bool) -> (String, String, String, bool) {
    (language.to_string(), percentage.to_string(), value.to_string(), count)
}

#[test]
fn csv_render_lists_the_rows() {
    let stats = counted(&[("Rust", 80), ("Markdown", 15), ("TOML", 5)]);
    match render(&stats, Layout::Csv, false) {
        Output::Text(text) => assert_eq!(text, "Rust,80.0,80\nMarkdown,15.0,15\nTOML,5.0,5\n"),
        Output::Structured(_) => panic!("text was expected"),
    }
}

#[test]
fn csv_render_compacts_when_asked() {
    let stats = counted(&[("Rust", 996), ("TOML", 3), ("JSON", 1)]);
    match render(&stats, Layout::Csv, true) {
        Output::Text(text) => assert_eq!(text, "Rust,99.6,996\nOther,0.4,4\n"),
        Output::Structured(_) => panic!("text was expected"),
    }
    match render(&stats, Layout::Csv, false) {
        Output::Text(text) => assert_eq!(text, "Rust,99.6,996\nTOML,0.3,3\nJSON,0.1,1\n"),
        Output::Structured(_) => panic!("text was expected"),
    }
}

#[test]
fn csv_render_is_the_same_each_time() {
    let stats = counted(&[("Rust", 996), ("TOML", 3), ("JSON", 1)]);
    for compact in [false, true] {
        let first = match render(&stats, Layout::Csv, compact) {
            Output::Text(text) => text,
            Output::Structured(_) => panic!("text was expected"),
        };
        let second = match render(&stats, Layout::Csv, compact) {
            Output::Text(text) => text,
            Output::Structured(_) => panic!("text was expected"),
        };
        assert_eq!(first.as_bytes(), second.as_bytes());
    }
}

#[test]
fn structured_render_shows_every_language_even_when_compacting() {
    let stats = counted(&[("Rust", 996), ("TOML", 3), ("JSON", 1)]);
    for compact in [false, true] {
        match render(&stats, Layout::Json, compact) {
            Output::Structured(result) => {
                let entries: Vec<_> = result.data().iter().map(fields).collect();
                assert_eq!(
                    entries,
                    vec![
                        owned("Rust", "99.60", "996", true),
                        owned("TOML", "0.30", "3", true),
                        owned("JSON", "0.10", "1", true),
                    ]
                );
            }
            Output::Text(_) => panic!("a structured result was expected"),
        }
    }
}

#[test]
fn structured_render_of_sizes_uses_kilobytes() {
    let files = vec![
        FileEntry { language: Some("Rust".to_string()), bytes: Some(3000) },
        FileEntry { language: Some("TOML".to_string()), bytes: Some(1999) },
    ];
    let stats = ProjectStats::aggregate(".".to_string(), CalculateBy::Kb, &files).unwrap();
    match render(&stats, Layout::Json, true) {
        Output::Structured(result) => {
            let entries: Vec<_> = result.data().iter().map(fields).collect();
            assert_eq!(
                entries,
                vec![owned("Rust", "75.00", "3", false), owned("TOML", "25.00", "1", false)]
            );
        }
        Output::Text(_) => panic!("a structured result was expected"),
    }
}

#[test]
fn structured_percentages_have_two_digits_whatever_the_precision() {
    let stats = counted(&[("Rust", 1), ("TOML", 1), ("JSON", 1)]);
    assert_eq!(stats.precision(), project_stats::args::Precision::Single);
    match render(&stats, Layout::Json, true) {
        Output::Structured(result) => {
            let entries: Vec<_> = result.data().iter().map(fields).collect();
            assert_eq!(
                entries,
                vec![
                    owned("JSON", "33.33", "1", true),
                    owned("TOML", "33.33", "1", true),
                    owned("Rust", "33.33", "1", true),
                ]
            );
            for (_, percentage, _, _) in entries {
                let read: f64 = percentage.parse().unwrap();
                assert!((read - 100.0 / 3.0).abs() <= 0.005);
            }
        }
        Output::Text(_) => panic!("a structured result was expected"),
    }
    match render(&stats, Layout::Csv, true) {
        Output::Text(text) => assert_eq!(text, "JSON,33.3,1\nTOML,33.3,1\nRust,33.3,1\n"),
        Output::Structured(_) => panic!("text was expected"),
    }
}

#[test]
fn structured_render_of_an_empty_total_has_no_entries() {
    let stats = counted(&[]);
    match render(&stats, Layout::Json, true) {
        Output::Structured(result) => assert!(result.data().is_empty()),
        Output::Text(_) => panic!("a structured result was expected"),
    }
}

#[test]
fn structured_takes_rows_as_they_are() {
    let stats = counted(&[("Rust", 996), ("TOML", 3), ("JSON", 1)]);
    let rows = stats.to_table(true, RowDisplay::Csv);
    let entries: Vec<_> = structured(&rows).data().iter().map(fields).collect();
    assert_eq!(
        entries,
        vec![owned("Rust", "99.60", "996", true), owned("Other", "0.40", "4", true)]
    );
}

#[test]
fn styles_have_their_row_shapes() {
    assert_eq!(Layout::Pretty.row_display(), RowDisplay::Pretty);
    assert_eq!(Layout::Table.row_display(), RowDisplay::Table);
    assert_eq!(Layout::OneLine.row_display(), RowDisplay::OneLine);
    assert_eq!(Layout::Csv.row_display(), RowDisplay::Csv);
    assert_eq!(Layout::Json.row_display(), RowDisplay::Csv);
    assert_eq!(Layout::default(), Layout::Pretty);
}

#[test]
fn compaction_is_on_unless_the_full_listing_is_asked_for() {
    let mut args = Args {
        path: ".".to_string(),
        style: Layout::default(),
        full: false,
        unit: CalculateBy::default(),
    };
    assert!(args.is_compact());
    args.full = true;
    assert!(!args.is_compact());
}
