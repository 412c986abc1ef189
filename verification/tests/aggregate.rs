use project_stats::args::{CalculateBy, Precision};
use project_stats::stats::{FileEntry, Measure, ProjectStats};

fn file(language: &str, bytes: Option<u64>) -> FileEntry {
    FileEntry { language: Some(language.to_string()), bytes }
}

fn many(language: &str, count: usize) -> Vec<FileEntry> {
    (0..count).map(|_| file(language, None)).collect()
}

fn listed(stats: &ProjectStats) -> Vec<(String, u64)> {
    stats.to_sorted_list().into_iter().map(|(name, value)| (name.clone(), *value)).collect()
}

#[test]
fn new_statistics_are_empty() {
    let stats = ProjectStats::new("some/where".to_string());
    assert_eq!(stats.total_files(), 0);
    assert_eq!(stats.precision(), Precision::Single);
    assert_eq!(stats.measure(), Measure::Files);
    assert_eq!(stats.path(), "some/where");
    assert!(stats.to_sorted_list().is_empty());
}

#[test]
fn counting_adds_one_for_each_file_with_an_extension() {
    let mut files = many("Rust", 3);
    files.push(FileEntry { language: None, bytes: Some(5000) });
    files.extend(many("TOML", 1));
    files.push(FileEntry { language: None, bytes: None });
    let mut stats = ProjectStats::new(".".to_string());
    assert!(stats.fits(&files, Measure::Files));
    stats.process_by_file_count(&files);
    assert_eq!(stats.total_files(), 4);
    assert_eq!(stats.measure(), Measure::Files);
    assert_eq!(listed(&stats), vec![("TOML".to_string(), 1), ("Rust".to_string(), 3)]);
}

#[test]
fn extensions_of_one_language_merge() {
    let files = vec![
        file("C++", None),
        file("Rust", None),
        file("C++", None),
        file("C++", None),
    ];
    let stats = ProjectStats::aggregate(".".to_string(), CalculateBy::File, &files).unwrap();
    assert_eq!(listed(&stats), vec![("Rust".to_string(), 1), ("C++".to_string(), 3)]);
    assert_eq!(stats.total_files(), 4);
}

#[test]
fn sizes_are_whole_kilobytes_per_file() {
    let files = vec![file("Rust", Some(500)), file("Rust", Some(1700))];
    let mut stats = ProjectStats::new(".".to_string());
    assert!(stats.fits(&files, Measure::KBytes));
    stats.process_by_file_size(&files);
    assert_eq!(listed(&stats), vec![("Rust".to_string(), 1)]);
    assert_eq!(stats.total_files(), 1);
    assert_eq!(stats.measure(), Measure::KBytes);
    assert_eq!(stats.precision(), Precision::Double);
}

#[test]
fn sizes_skip_files_without_extension_or_length() {
    let files = vec![
        file("Rust", Some(2999)),
        file("Rust", None),
        FileEntry { language: None, bytes: Some(9000) },
        file("TOML", Some(999)),
        file("JSON", Some(1000)),
    ];
    let stats = ProjectStats::aggregate(".".to_string(), CalculateBy::Kb, &files).unwrap();
    assert_eq!(
        listed(&stats),
        vec![("TOML".to_string(), 0), ("JSON".to_string(), 1), ("Rust".to_string(), 2)]
    );
    assert_eq!(stats.total_files(), 3);
}

#[test]
fn counting_ignores_lengths() {
    let files = vec![file("Rust", Some(123_456)), file("Rust", None)];
    let stats = ProjectStats::aggregate(".".to_string(), CalculateBy::File, &files).unwrap();
    assert_eq!(listed(&stats), vec![("Rust".to_string(), 2)]);
}

#[test]
fn an_empty_tree_has_an_empty_total() {
    let files: Vec<FileEntry> = vec![
        FileEntry { language: None, bytes: Some(10) },
        FileEntry { language: None, bytes: None },
    ];
    for mode in [CalculateBy::File, CalculateBy::Kb] {
        let stats = ProjectStats::aggregate(".".to_string(), mode, &files).unwrap();
        assert_eq!(stats.total_files(), 0);
        assert!(stats.to_sorted_list().is_empty());
    }
}

#[test]
fn precision_is_single_up_to_a_thousand_files() {
    let stats = ProjectStats::aggregate(".".to_string(), CalculateBy::File, &many("Rust", 1000))
        .unwrap();
    assert_eq!(stats.total_files(), 1000);
    assert_eq!(stats.precision(), Precision::Single);
}

#[test]
fn precision_is_double_above_a_thousand_files() {
    let stats = ProjectStats::aggregate(".".to_string(), CalculateBy::File, &many("Rust", 1001))
        .unwrap();
    assert_eq!(stats.total_files(), 1001);
    assert_eq!(stats.precision(), Precision::Double);
}

#[test]
fn precision_is_double_for_kilobytes_whatever_the_total() {
    let small = ProjectStats::aggregate(
        ".".to_string(),
        CalculateBy::Kb,
        &vec![file("Rust", Some(1000))],
    )
    .unwrap();
    assert_eq!(small.total_files(), 1);
    assert_eq!(small.precision(), Precision::Double);
    let large = ProjectStats::aggregate(
        ".".to_string(),
        CalculateBy::Kb,
        &vec![file("Rust", Some(5_000_000))],
    )
    .unwrap();
    assert_eq!(large.total_files(), 5000);
    assert_eq!(large.precision(), Precision::Double);
}

#[test]
fn a_total_beyond_the_machine_is_refused() {
    let files: Vec<FileEntry> = (0..1001).map(|_| file("Rust", Some(u64::MAX))).collect();
    let stats = ProjectStats::new(".".to_string());
    assert!(!stats.fits(&files, Measure::KBytes));
    assert!(stats.fits(&files, Measure::Files));
    assert!(ProjectStats::aggregate(".".to_string(), CalculateBy::Kb, &files).is_none());
    let fewer: Vec<FileEntry> = (0..1000).map(|_| file("Rust", Some(u64::MAX))).collect();
    let fit = ProjectStats::aggregate(".".to_string(), CalculateBy::Kb, &fewer).unwrap();
    assert_eq!(fit.total_files(), (u64::MAX / 1000) * 1000);
}

#[test]
fn processing_twice_adds_to_the_same_tally() {
    let mut stats = ProjectStats::new(".".to_string());
    stats.process_by_file_count(&many("Rust", 2));
    let more = vec![file("TOML", None), file("Rust", None)];
    assert!(stats.fits(&more, Measure::Files));
    stats.process_by_file_count(&more);
    assert_eq!(listed(&stats), vec![("TOML".to_string(), 1), ("Rust".to_string(), 3)]);
    assert_eq!(stats.total_files(), 4);
}

#[test]
fn sorting_rises_and_keeps_equal_amounts_in_first_met_order() {
    let mut files = many("B", 2);
    files.extend(many("A", 2));
    files.extend(many("D", 1));
    files.extend(many("C", 2));
    files.extend(many("E", 5));
    let stats = ProjectStats::aggregate(".".to_string(), CalculateBy::File, &files).unwrap();
    assert_eq!(
        listed(&stats),
        vec![
            ("D".to_string(), 1),
            ("B".to_string(), 2),
            ("A".to_string(), 2),
            ("C".to_string(), 2),
            ("E".to_string(), 5),
        ]
    );
}

#[test]
fn units_map_to_measures() {
    assert_eq!(CalculateBy::File.measure(), Measure::Files);
    assert_eq!(CalculateBy::Kb.measure(), Measure::KBytes);
    assert_eq!(CalculateBy::default(), CalculateBy::File);
    assert_eq!(Measure::default(), Measure::Files);
}
