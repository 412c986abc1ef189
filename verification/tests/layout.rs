use project_stats::args::{Precision, RowDisplay};
use project_stats::color::Color;
use project_stats::dto::{AggregatedResult, WhatInResult};
use project_stats::format::TableRow;
use project_stats::graphs::OneLineGraph;
use project_stats::percentage::Percentage;
use project_stats::stats::Measure;

fn row(lang: &str, part: u64, whole: u64, precision: Precision, measure: Measure) -> TableRow<'_> {
    TableRow {
        lang,
        percentage: Percentage::new(part, whole).unwrap(),
        value: part,
        color: Color::Blue,
        precision,
        output: RowDisplay::Csv,
        measure,
    }
}

#[test]
fn csv_line_has_three_fields() {
    let r = row("Rust", 80, 100, Precision::Single, Measure::Files);
    assert_eq!(r.csv_line(), "Rust,80.0,80");
    assert_eq!(r.to_string(), "Rust,80.0,80");
    let r = row("Rust", 80, 100, Precision::Double, Measure::KBytes);
    assert_eq!(r.csv_line(), "Rust,80.00,80");
    let r = row("C++", 1, 3, Precision::Double, Measure::Files);
    assert_eq!(r.to_string(), "C++,33.33,1");
    assert_eq!(r.to_string(), format!("{},{:.2},{}", "C++", 1.0 / 3.0 * 100.0, 1));
}

#[test]
fn table_line_aligns_its_columns() {
    let r = row("Rust", 80, 100, Precision::Single, Measure::Files);
    let bar = "#".repeat(80);
    let expected = format!(
        "{:<20} | {:>5.1}% | {:>9} {:<5} {}",
        "Rust", 80.0, 80, "files", bar
    );
    assert_eq!(r.table_line(&format!("{:<20}", "Rust"), &bar), expected);
    assert_eq!(
        r.table_line("Rust                ", "##"),
        "Rust                 |  80.0% |        80 files ##"
    );
    let r = row("Markdown", 5, 1000, Precision::Double, Measure::KBytes);
    assert_eq!(
        r.table_line("Markdown            ", ""),
        "Markdown             |  0.50% |         5 KB    "
    );
    let r = row("TOML", 1, 1, Precision::Double, Measure::Files);
    assert_eq!(
        r.table_line("TOML                ", "|"),
        "TOML                 | 100.00% |         1 file  |"
    );
}

#[test]
fn table_line_does_not_cut_wide_values() {
    let mut r = row("Rust", 1, 1, Precision::Single, Measure::Files);
    r.value = 12_345_678_901;
    assert_eq!(
        r.table_line("Rust", "-"),
        format!("{} | {:>5.1}% | {:>9} {:<5} {}", "Rust", 100.0, 12_345_678_901u64, "files", "-")
    );
}

#[test]
fn pretty_lines_put_the_bar_under_the_name() {
    let r = row("Rust", 80, 100, Precision::Single, Measure::Files);
    assert_eq!(r.pretty_lines("####"), "Rust - 80 files\n#### 80.0%");
    let r = row("Rust", 1, 3, Precision::Double, Measure::KBytes);
    assert_eq!(r.pretty_lines("#"), "Rust - 1 KB\n# 33.33%");
    let r = row("Go", 1, 3, Precision::Single, Measure::Files);
    assert_eq!(
        r.pretty_lines("#"),
        format!("{} - {} {}\n{} {:.1}%", "Go", 1, "file", "#", 1.0 / 3.0 * 100.0)
    );
}

#[test]
fn legend_entry_follows_its_circle() {
    let r = row("Rust", 80, 100, Precision::Single, Measure::Files);
    assert_eq!(r.legend_entry("o"), "o  Rust      ");
    assert_eq!(r.legend_entry("o"), format!("{}  {}      ", "o", "Rust"));
}

#[test]
fn unit_is_singular_for_one_file_only() {
    assert_eq!(row("R", 1, 5, Precision::Single, Measure::Files).unit_label(), "file");
    assert_eq!(row("R", 0, 5, Precision::Single, Measure::Files).unit_label(), "files");
    assert_eq!(row("R", 2, 5, Precision::Single, Measure::Files).unit_label(), "files");
    assert_eq!(row("R", 5, 5, Precision::Single, Measure::Files).unit_label(), "files");
    assert_eq!(row("R", 1, 5, Precision::Single, Measure::KBytes).unit_label(), "KB");
    assert_eq!(row("R", 2, 5, Precision::Single, Measure::KBytes).unit_label(), "KB");
    let one = row("R", 1, 5, Precision::Single, Measure::Files);
    assert_eq!(one.pretty_lines(""), "R - 1 file\n 20.0%");
    let two = row("R", 2, 5, Precision::Single, Measure::Files);
    assert_eq!(two.pretty_lines(""), "R - 2 files\n 40.0%");
}

#[test]
fn bar_has_a_block_for_each_whole_percent() {
    assert_eq!(row("R", 80, 100, Precision::Single, Measure::Files).bar(), "\u{2588}".repeat(80));
    assert_eq!(row("R", 0, 100, Precision::Single, Measure::Files).bar(), "");
    assert_eq!(row("R", 1, 200, Precision::Single, Measure::Files).bar(), "\u{2588}");
    assert_eq!(row("R", 1, 201, Precision::Single, Measure::Files).bar(), "");
    assert_eq!(row("R", 7, 7, Precision::Single, Measure::Files).bar(), "\u{2588}".repeat(100));
    assert_eq!(
        row("R", 1, 3, Precision::Single, Measure::Files).bar(),
        "\u{2588}".repeat((1.0f64 / 3.0 * 100.0).round() as usize)
    );
}

#[test]
fn representation_holds_strings_under_the_measure_s_names() {
    let entry = row("Rust", 80, 100, Precision::Single, Measure::Files).to_representation();
    match entry {
        WhatInResult::AsCount { language, percentage, number_of_files } => {
            assert_eq!(language, "Rust");
            assert_eq!(percentage, "80.00");
            assert_eq!(number_of_files, "80");
        }
        WhatInResult::InBytes { .. } => panic!("a count was expected"),
    }
    let entry = row("Rust", 1, 3, Precision::Double, Measure::KBytes).to_representation();
    match entry {
        WhatInResult::InBytes { language, percentage, kbytes } => {
            assert_eq!(language, "Rust");
            assert_eq!(percentage, "33.33");
            assert_eq!(kbytes, "1");
        }
        WhatInResult::AsCount { .. } => panic!("a size was expected"),
    }
}

#[test]
fn representation_reads_to_within_half_a_hundredth() {
    for whole in 1..=60u64 {
        for part in 0..=whole {
            for precision in [Precision::Single, Precision::Double] {
                let entry = row("R", part, whole, precision, Measure::Files).to_representation();
                let text = match entry {
                    WhatInResult::AsCount { percentage, .. } => percentage,
                    WhatInResult::InBytes { .. } => panic!("a count was expected"),
                };
                assert_eq!(text, Percentage::new(part, whole).unwrap().to_text(Precision::Double));
                let read: f64 = text.parse().unwrap();
                assert!((read - part as f64 / whole as f64 * 100.0).abs() <= 0.005 + 1e-9);
                assert!(!text.contains('%') && !text.contains('\u{1b}'));
            }
        }
    }
}

#[test]
fn aggregated_result_keeps_its_entries_in_order() {
    let first = row("Rust", 80, 100, Precision::Single, Measure::Files).to_representation();
    let second = row("TOML", 20, 100, Precision::Single, Measure::Files).to_representation();
    let result = AggregatedResult::new(vec![first, second]);
    let names: Vec<String> = result
        .data()
        .iter()
        .map(|entry| match entry {
            WhatInResult::AsCount { language, .. } => language.clone(),
            WhatInResult::InBytes { language, .. } => language.clone(),
        })
        .collect();
    assert_eq!(names, vec!["Rust", "TOML"]);
    assert!(AggregatedResult::new(Vec::new()).data().is_empty());
}

#[test]
fn one_line_layout_breaks_the_legend_after_four_entries() {
    let bars: Vec<String> = ["##", "#", "", "###", "#"].iter().map(|s| s.to_string()).collect();
    let entries: Vec<String> =
        ["a ", "b ", "c ", "d ", "e "].iter().map(|s| s.to_string()).collect();
    assert_eq!(OneLineGraph::compose(&bars, &entries), "#######\na b c d \ne ");
    assert_eq!(OneLineGraph::compose(&bars[..4].to_vec(), &entries[..4].to_vec()), "######\na b c d \n");
    assert_eq!(OneLineGraph::compose(&Vec::new(), &Vec::new()), "\n");
}
