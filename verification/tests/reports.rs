use forge_coverage::hits::Hit;
use forge_coverage::identity::CompilerVersion;
use forge_coverage::item::{CoverageItem, ItemKind, SourceRange};
use forge_coverage::lcov::{lcov_records, line_number, line_records_of, render_lcov, LineRecord};
use forge_coverage::map::{CoverageMap, SourceEntry};
use forge_coverage::report::{
    render, render_debug, CoverageReportKind, CoverageReporter, Destination,
};
use forge_coverage::source_map::{Jump, SourceMap, SourceMapEntry};
use forge_coverage::summary::{count_hit, render_summary, summarize};
use forge_coverage::text::{decimal_text, push_decimal};

fn version() -> CompilerVersion {
    CompilerVersion::new(0, 8, 13)
}

fn item(kind: ItemKind, index: usize, start: usize, length: usize, hits: u64) -> CoverageItem {
    CoverageItem { kind, index, range: SourceRange { start, length }, hits }
}

const COUNTER: &str = "contract Counter {\n  uint n;\n  function inc() public {\n    n += 1;\n  }\n}\n";

/// Two files: the first with a line marker on line 2, two on line 3 and a
/// statement on line 4; the second with one branch.
fn sample() -> CoverageMap {
    let mut map = CoverageMap::new();
    let counter = SourceEntry::new(String::from(COUNTER), vec![
        item(ItemKind::Line, 0, 21, 6, 0),
        item(ItemKind::Line, 1, 31, 40, 0),
        item(ItemKind::Statement, 2, 59, 7, 0),
        item(ItemKind::Line, 3, 40, 5, 0),
    ]).unwrap();
    let other = SourceEntry::new(String::from("if (x) {}"), vec![
        item(ItemKind::Branch, 0, 0, 9, 0),
    ]).unwrap();
    map.register_source(version(), String::from("src/Counter.sol"), counter);
    map.register_source(version(), String::from("src/Other.sol"), other);
    let entries = vec![
        SourceMapEntry::new(0, 1, SourceRange::new(59, 7), Jump::Regular, true),
        SourceMapEntry::new(1, 1, SourceRange::new(40, 5), Jump::Regular, true),
    ];
    let source_map = SourceMap::from_entries(entries).unwrap();
    map.merge_hits(&version(), &source_map, &vec![Hit::new(0, 12), Hit::new(1, 30)]);
    map
}

#[test]
fn the_sample_has_the_expected_counts() {
    let map = sample();
    let counts: Vec<u64> = map.file(0).unwrap().items.iter().map(|i| i.hits).collect();
    assert_eq!(counts, vec![0, 42, 12, 30]);
    assert_eq!(map.file(1).unwrap().items[0].hits, 0);
}

#[test]
fn numbers_are_written_in_decimal() {
    assert_eq!(decimal_text(0), "0");
    assert_eq!(decimal_text(7), "7");
    assert_eq!(decimal_text(10), "10");
    assert_eq!(decimal_text(1234567890), "1234567890");
    assert_eq!(decimal_text(u64::MAX as u128), "18446744073709551615");
    assert_eq!(decimal_text(u128::MAX), "340282366920938463463374607431768211455");
    let mut out = String::from("n=");
    push_decimal(&mut out, 905);
    assert_eq!(out, "n=905");
}

#[test]
fn the_summary_counts_hit_items_and_all_items() {
    let summary = summarize(&sample());
    assert_eq!(summary.files.len(), 2);
    assert_eq!(summary.files[0].path, "src/Counter.sol");
    assert_eq!(summary.files[0].version, version());
    assert_eq!(summary.files[0].hit, 3);
    assert_eq!(summary.files[0].total, 4);
    assert_eq!(summary.files[1].path, "src/Other.sol");
    assert_eq!(summary.files[1].hit, 0);
    assert_eq!(summary.files[1].total, 1);
    assert_eq!(summary.hit, 3);
    assert_eq!(summary.total, 5);
}

#[test]
fn the_summary_reconciles_with_the_map() {
    let map = sample();
    let summary = summarize(&map);
    let mut hit = 0;
    let mut total = 0;
    for i in 0..map.len() {
        let file = map.file(i).unwrap();
        let file_hit = file.items.iter().filter(|item| item.hits > 0).count();
        assert_eq!(summary.files[i].hit, file_hit);
        assert_eq!(summary.files[i].total, file.items.len());
        hit += file_hit;
        total += file.items.len();
    }
    assert_eq!(summary.hit, hit as u128);
    assert_eq!(summary.total, total as u128);
}

#[test]
fn the_summary_of_an_empty_map_is_all_zero() {
    let summary = summarize(&CoverageMap::new());
    assert!(summary.files.is_empty());
    assert_eq!(summary.hit, 0);
    assert_eq!(summary.total, 0);
    assert_eq!(render_summary(&CoverageMap::new()), "Total: 0/0\n");
}

#[test]
fn count_hit_counts_the_items_above_zero() {
    assert_eq!(count_hit(&vec![]), 0);
    let items = vec![
        item(ItemKind::Line, 0, 0, 1, 0),
        item(ItemKind::Line, 1, 0, 1, 1),
        item(ItemKind::Line, 2, 0, 1, u64::MAX),
        item(ItemKind::Line, 3, 0, 1, 0),
    ];
    assert_eq!(count_hit(&items), 2);
}

#[test]
fn the_summary_as_text() {
    assert_eq!(
        render_summary(&sample()),
        "src/Counter.sol: 3/4\nsrc/Other.sol: 0/1\nTotal: 3/5\n"
    );
}

#[test]
fn lines_are_counted_from_one() {
    assert_eq!(line_number("", 0), 1);
    assert_eq!(line_number("", 5), 1);
    assert_eq!(line_number("ab\ncd\n\nef", 0), 1);
    assert_eq!(line_number("ab\ncd\n\nef", 2), 1);
    assert_eq!(line_number("ab\ncd\n\nef", 3), 2);
    assert_eq!(line_number("ab\ncd\n\nef", 5), 2);
    assert_eq!(line_number("ab\ncd\n\nef", 6), 3);
    assert_eq!(line_number("ab\ncd\n\nef", 7), 4);
    assert_eq!(line_number("ab\ncd\n\nef", 9), 4);
    assert_eq!(line_number("ab\ncd\n\nef", usize::MAX), 4);
    assert_eq!(line_number("ab\n", 3), 2);
    assert_eq!(line_number(COUNTER, 21), 2);
    assert_eq!(line_number(COUNTER, 31), 3);
    assert_eq!(line_number(COUNTER, 59), 4);
}

#[test]
fn offsets_are_bytes_not_characters() {
    let text = "// \u{e9}\u{e9}\nx";
    assert_eq!(text.len(), 9);
    assert_eq!(line_number(text, 6), 1);
    assert_eq!(line_number(text, 7), 1);
    assert_eq!(line_number(text, 8), 2);
}

#[test]
fn each_marked_line_has_one_record() {
    let map = sample();
    let file = map.file(0).unwrap();
    let records = line_records_of(file.text, file.items);
    assert_eq!(records, vec![
        LineRecord { line: 2, hits: 0 },
        LineRecord { line: 3, hits: 42 },
    ]);
}

#[test]
fn a_line_keeps_the_highest_count_of_its_markers() {
    let text = "a\nb\nc\n";
    let items = vec![
        item(ItemKind::Line, 0, 4, 1, 5),
        item(ItemKind::Line, 1, 0, 1, 9),
        item(ItemKind::Statement, 2, 2, 1, 100),
        item(ItemKind::Line, 3, 5, 1, 7),
        item(ItemKind::Line, 4, 4, 1, 6),
        item(ItemKind::Branch, 5, 2, 1, 100),
        item(ItemKind::Line, 6, 1, 1, 2),
    ];
    assert_eq!(line_records_of(text, &items), vec![
        LineRecord { line: 3, hits: 7 },
        LineRecord { line: 1, hits: 9 },
    ]);
    assert!(line_records_of(text, &vec![]).is_empty());
}

#[test]
fn there_is_one_file_record_per_file() {
    let map = sample();
    let records = lcov_records(&map);
    assert_eq!(records.len(), map.len());
    assert_eq!(records[0].path, "src/Counter.sol");
    assert_eq!(records[0].lines.len(), 2);
    assert_eq!(records[1].path, "src/Other.sol");
    assert!(records[1].lines.is_empty());
    assert!(lcov_records(&CoverageMap::new()).is_empty());
}

#[test]
fn the_exchange_format_as_text() {
    assert_eq!(
        render_lcov(&sample()),
        "SF:src/Counter.sol\nDA:2,0\nDA:3,42\nend_of_record\nSF:src/Other.sol\nend_of_record\n"
    );
    assert_eq!(render_lcov(&CoverageMap::new()), "");
}

#[test]
fn the_exchange_format_has_one_block_per_file_and_one_line_per_marked_line() {
    let map = sample();
    let text = render_lcov(&map);
    let lines: Vec<&str> = text.lines().collect();
    assert_eq!(lines.iter().filter(|l| l.starts_with("SF:")).count(), map.len());
    assert_eq!(lines.iter().filter(|l| **l == "end_of_record").count(), map.len());
    assert_eq!(lines.iter().filter(|l| l.starts_with("DA:")).count(), 2);
}

#[test]
fn the_dump_lists_every_item() {
    assert_eq!(
        render_debug(&sample()),
        "src/Counter.sol: line 21..27: 0\n\
         src/Counter.sol: line 31..71: 42\n\
         src/Counter.sol: statement 59..66: 12\n\
         src/Counter.sol: line 40..45: 30\n\
         src/Other.sol: branch 0..9: 0\n"
    );
    assert_eq!(render_debug(&CoverageMap::new()), "");
}

#[test]
fn the_dump_shows_ranges_beyond_the_largest_offset() {
    let mut map = CoverageMap::new();
    let wide = item(ItemKind::Statement, 0, usize::MAX, usize::MAX, u64::MAX);
    let entry = SourceEntry::new(String::new(), vec![wide]).unwrap();
    map.register_source(version(), String::from("w"), entry);
    let end = usize::MAX as u128 * 2;
    assert_eq!(
        render_debug(&map),
        format!("w: statement {}..{}: {}\n", usize::MAX, end, u64::MAX)
    );
}

#[test]
fn each_kind_of_report_goes_to_its_place() {
    let map = sample();
    let summary = render(CoverageReportKind::Summary, &map);
    assert_eq!(summary.destination, Destination::StandardOutput);
    assert_eq!(summary.text, render_summary(&map));
    let lcov = render(CoverageReportKind::Lcov, &map);
    assert_eq!(lcov.destination, Destination::ProjectFile(String::from("lcov.info")));
    assert_eq!(lcov.text, render_lcov(&map));
    let debug = render(CoverageReportKind::Debug, &map);
    assert_eq!(debug.destination, Destination::StandardOutput);
    assert_eq!(debug.text, render_debug(&map));
}

#[test]
fn a_reporter_renders_the_map_it_took_in() {
    let mut reporter = CoverageReporter::new(CoverageReportKind::Summary);
    assert!(reporter.build(sample()));
    let report = reporter.finalize();
    assert_eq!(report.destination, Destination::StandardOutput);
    assert_eq!(report.text, "src/Counter.sol: 3/4\nsrc/Other.sol: 0/1\nTotal: 3/5\n");
}

#[test]
fn a_reporter_takes_in_one_map_only() {
    let mut reporter = CoverageReporter::new(CoverageReportKind::Lcov);
    assert!(reporter.build(CoverageMap::new()));
    assert!(!reporter.build(sample()));
    let report = reporter.finalize();
    assert_eq!(report.destination, Destination::ProjectFile(String::from("lcov.info")));
    assert_eq!(report.text, "");
}

#[test]
fn a_reporter_without_a_map_reports_on_nothing() {
    assert_eq!(CoverageReporter::new(CoverageReportKind::Summary).finalize().text, "Total: 0/0\n");
    assert_eq!(CoverageReporter::new(CoverageReportKind::Lcov).finalize().text, "");
    assert_eq!(CoverageReporter::new(CoverageReportKind::Debug).finalize().text, "");
}
