use forge_coverage::artifacts::SourceMaps;
use forge_coverage::collect::{
    correlate, merge_address, merge_suite, merge_test, CoveragePass, Execution, PassError,
    ResolvedAddress, SuiteResult, TestResult, TRACE_VERBOSITY,
};
use forge_coverage::hits::{Hit, HitMap};
use forge_coverage::identity::{Address, ArtifactIdentity, CompilerVersion};
use forge_coverage::item::{CoverageItem, ItemKind, SourceRange};
use forge_coverage::map::{CoverageMap, SourceEntry};
use forge_coverage::report::{CoverageReportKind, Destination};
use forge_coverage::source_map::{Jump, SourceMap, SourceMapEntry};

fn version() -> CompilerVersion {
    CompilerVersion::new(0, 8, 13)
}

fn counter() -> ArtifactIdentity {
    ArtifactIdentity::new(version(), String::from("Counter"), String::from("src/Counter.sol"))
}

fn address(n: u128) -> Address {
    Address::new(0, n)
}

fn one_statement_map() -> CoverageMap {
    let item = CoverageItem::new(ItemKind::Statement, 0, SourceRange::new(10, 10));
    let entry = SourceEntry::new(String::from("contract Counter {}"), vec![item]).unwrap();
    let mut map = CoverageMap::new();
    map.register_source(version(), String::from("src/Counter.sol"), entry);
    map
}

fn covering_map() -> SourceMap {
    let entry = SourceMapEntry::new(0, 5, SourceRange::new(10, 10), Jump::Regular, true);
    SourceMap::from_entries(vec![entry]).unwrap()
}

fn table(creation: SourceMap, runtime: SourceMap) -> SourceMaps {
    let mut table = SourceMaps::new();
    table.insert(counter(), creation, runtime);
    table
}

fn resolved(n: u128) -> ResolvedAddress {
    ResolvedAddress { address: address(n), artifacts: vec![counter()] }
}

fn hit_map(n: u128, offset: usize, count: u64) -> HitMap {
    let mut hits = HitMap::new();
    hits.record(address(n), offset, count);
    hits
}

fn hits(map: &CoverageMap) -> u64 {
    map.items(&version(), &String::from("src/Counter.sol")).unwrap()[0].hits
}

#[test]
fn a_round_trip_adds_exactly_the_recorded_count() {
    let mut map = one_statement_map();
    let source_maps = table(covering_map(), SourceMap::new());
    let test = TestResult { coverage: Some(hit_map(1, 2, 7)), traces: vec![vec![resolved(1)]] };
    merge_test(&mut map, &source_maps, &test);
    assert_eq!(hits(&map), 7);
}

#[test]
fn only_the_suite_with_hits_adds_coverage() {
    let suite_a = SuiteResult {
        tests: vec![TestResult { coverage: None, traces: vec![vec![resolved(1)]] }],
    };
    let suite_b = SuiteResult {
        tests: vec![TestResult {
            coverage: Some(hit_map(1, 2, 3)),
            traces: vec![vec![resolved(1)]],
        }],
    };
    let source_maps = table(SourceMap::new(), covering_map());
    let mut pass = CoveragePass::new(CoverageReportKind::Summary, one_statement_map(), source_maps);
    pass.accept(&suite_a);
    assert_eq!(hits(pass.map()), 0);
    pass.accept(&suite_b);
    assert_eq!(hits(pass.map()), 3);
    let report = pass.finish(Execution::Completed).unwrap();
    assert_eq!(report.destination, Destination::StandardOutput);
    assert_eq!(report.text, "src/Counter.sol: 1/1\nTotal: 1/1\n");
}

#[test]
fn the_order_of_the_suites_does_not_matter() {
    let suite = |n: u128, offset: usize, count: u64| SuiteResult {
        tests: vec![TestResult {
            coverage: Some(hit_map(n, offset, count)),
            traces: vec![vec![resolved(n)]],
        }],
    };
    let first = suite(1, 2, 3);
    let second = suite(2, 4, 10);
    let mut one = one_statement_map();
    let source_maps = table(covering_map(), SourceMap::new());
    merge_suite(&mut one, &source_maps, &first);
    merge_suite(&mut one, &source_maps, &second);
    let mut other = one_statement_map();
    merge_suite(&mut other, &source_maps, &second);
    merge_suite(&mut other, &source_maps, &first);
    assert_eq!(hits(&one), 13);
    assert_eq!(hits(&other), 13);
}

#[test]
fn an_offset_valid_in_both_layouts_counts_twice() {
    let mut map = one_statement_map();
    let source_maps = table(covering_map(), covering_map());
    let test = TestResult { coverage: Some(hit_map(1, 2, 7)), traces: vec![vec![resolved(1)]] };
    merge_test(&mut map, &source_maps, &test);
    assert_eq!(hits(&map), 14);
}

#[test]
fn correlate_tries_both_source_maps() {
    let hits_at_two = vec![Hit::new(2, 7)];
    let mut map = one_statement_map();
    correlate(&mut map, &counter(), &covering_map(), &SourceMap::new(), &hits_at_two);
    assert_eq!(hits(&map), 7);
    correlate(&mut map, &counter(), &SourceMap::new(), &covering_map(), &hits_at_two);
    assert_eq!(hits(&map), 14);
    correlate(&mut map, &counter(), &covering_map(), &covering_map(), &hits_at_two);
    assert_eq!(hits(&map), 28);
    correlate(&mut map, &counter(), &SourceMap::new(), &SourceMap::new(), &hits_at_two);
    assert_eq!(hits(&map), 28);
}

#[test]
fn an_unresolved_address_adds_nothing() {
    let mut map = one_statement_map();
    let source_maps = table(covering_map(), SourceMap::new());
    let unresolved = ResolvedAddress { address: address(1), artifacts: vec![] };
    merge_address(&mut map, &source_maps, &hit_map(1, 2, 7), &unresolved);
    assert_eq!(hits(&map), 0);
}

#[test]
fn an_ambiguous_address_adds_nothing() {
    let mut map = one_statement_map();
    let source_maps = table(covering_map(), SourceMap::new());
    let other = ArtifactIdentity::new(
        version(),
        String::from("Other"),
        String::from("src/Counter.sol"),
    );
    let ambiguous = ResolvedAddress { address: address(1), artifacts: vec![counter(), other] };
    merge_address(&mut map, &source_maps, &hit_map(1, 2, 7), &ambiguous);
    assert_eq!(hits(&map), 0);
    let twice = ResolvedAddress { address: address(1), artifacts: vec![counter(), counter()] };
    merge_address(&mut map, &source_maps, &hit_map(1, 2, 7), &twice);
    assert_eq!(hits(&map), 0);
    merge_address(&mut map, &source_maps, &hit_map(1, 2, 7), &resolved(1));
    assert_eq!(hits(&map), 7);
}

#[test]
fn an_artifact_without_source_maps_adds_nothing() {
    let mut map = one_statement_map();
    let unknown = ResolvedAddress {
        address: address(1),
        artifacts: vec![ArtifactIdentity::new(
            version(),
            String::from("Other"),
            String::from("src/Counter.sol"),
        )],
    };
    let source_maps = table(covering_map(), SourceMap::new());
    merge_address(&mut map, &source_maps, &hit_map(1, 2, 7), &unknown);
    assert_eq!(hits(&map), 0);
    merge_address(&mut map, &SourceMaps::new(), &hit_map(1, 2, 7), &resolved(1));
    assert_eq!(hits(&map), 0);
}

#[test]
fn an_address_without_recorded_hits_adds_nothing() {
    let mut map = one_statement_map();
    let source_maps = table(covering_map(), SourceMap::new());
    merge_address(&mut map, &source_maps, &hit_map(2, 2, 7), &resolved(1));
    assert_eq!(hits(&map), 0);
    merge_address(&mut map, &source_maps, &HitMap::new(), &resolved(1));
    assert_eq!(hits(&map), 0);
}

#[test]
fn a_test_without_traces_adds_nothing() {
    let mut map = one_statement_map();
    let source_maps = table(covering_map(), SourceMap::new());
    let test = TestResult { coverage: Some(hit_map(1, 2, 7)), traces: vec![] };
    merge_test(&mut map, &source_maps, &test);
    assert_eq!(hits(&map), 0);
    let test = TestResult { coverage: Some(hit_map(1, 2, 7)), traces: vec![vec![], vec![]] };
    merge_test(&mut map, &source_maps, &test);
    assert_eq!(hits(&map), 0);
}

#[test]
fn each_touched_address_is_merged_once() {
    let mut map = one_statement_map();
    let source_maps = table(covering_map(), SourceMap::new());
    let mut coverage = HitMap::new();
    coverage.record(address(1), 2, 7);
    coverage.record(address(2), 0, 100);
    coverage.record(address(3), 9, 1000);
    let test = TestResult {
        coverage: Some(coverage),
        traces: vec![
            vec![resolved(1), resolved(2), resolved(3)],
            vec![resolved(1), ResolvedAddress { address: address(2), artifacts: vec![] }],
            vec![resolved(4)],
        ],
    };
    merge_test(&mut map, &source_maps, &test);
    assert_eq!(hits(&map), 107);
}

#[test]
fn two_traces_that_touch_one_address_count_its_hits_once() {
    let mut map = one_statement_map();
    let source_maps = table(covering_map(), SourceMap::new());
    let test = TestResult {
        coverage: Some(hit_map(1, 2, 7)),
        traces: vec![vec![resolved(1)], vec![resolved(1)]],
    };
    merge_test(&mut map, &source_maps, &test);
    assert_eq!(hits(&map), 7);
}

#[test]
fn an_address_touched_twice_in_one_trace_counts_once() {
    let mut map = one_statement_map();
    let source_maps = table(covering_map(), SourceMap::new());
    let test = TestResult {
        coverage: Some(hit_map(1, 2, 7)),
        traces: vec![vec![resolved(1), resolved(2), resolved(1)], vec![], vec![resolved(1)]],
    };
    merge_test(&mut map, &source_maps, &test);
    assert_eq!(hits(&map), 7);
}

#[test]
fn a_pass_counts_a_test_with_two_traces_once() {
    let source_maps = table(covering_map(), SourceMap::new());
    let mut pass = CoveragePass::new(CoverageReportKind::Debug, one_statement_map(), source_maps);
    pass.accept(&SuiteResult {
        tests: vec![TestResult {
            coverage: Some(hit_map(1, 2, 7)),
            traces: vec![vec![resolved(1)], vec![resolved(1)]],
        }],
    });
    assert_eq!(hits(pass.map()), 7);
    let report = pass.finish(Execution::Completed).unwrap();
    assert_eq!(report.text, "src/Counter.sol: statement 10..20: 7\n");
}

#[test]
fn two_tests_that_touch_one_address_both_count() {
    let mut map = one_statement_map();
    let source_maps = table(covering_map(), SourceMap::new());
    let suite = SuiteResult {
        tests: vec![
            TestResult { coverage: Some(hit_map(1, 2, 7)), traces: vec![vec![resolved(1)]] },
            TestResult { coverage: Some(hit_map(1, 2, 7)), traces: vec![vec![resolved(1)]] },
        ],
    };
    merge_suite(&mut map, &source_maps, &suite);
    assert_eq!(hits(&map), 14);
}

#[test]
fn the_first_resolution_of_an_address_counts() {
    let source_maps = table(covering_map(), SourceMap::new());
    let unresolved = || ResolvedAddress { address: address(1), artifacts: vec![] };
    let mut map = one_statement_map();
    let test = TestResult {
        coverage: Some(hit_map(1, 2, 7)),
        traces: vec![vec![unresolved()], vec![resolved(1)]],
    };
    merge_test(&mut map, &source_maps, &test);
    assert_eq!(hits(&map), 0);
    let test = TestResult {
        coverage: Some(hit_map(1, 2, 7)),
        traces: vec![vec![resolved(1)], vec![unresolved()]],
    };
    merge_test(&mut map, &source_maps, &test);
    assert_eq!(hits(&map), 7);
}

#[test]
fn all_tests_of_a_suite_are_merged() {
    let mut map = one_statement_map();
    let source_maps = table(covering_map(), SourceMap::new());
    let suite = SuiteResult {
        tests: vec![
            TestResult { coverage: Some(hit_map(1, 2, 7)), traces: vec![vec![resolved(1)]] },
            TestResult { coverage: None, traces: vec![vec![resolved(1)]] },
            TestResult { coverage: Some(hit_map(1, 4, 2)), traces: vec![vec![resolved(1)]] },
        ],
    };
    merge_suite(&mut map, &source_maps, &suite);
    assert_eq!(hits(&map), 9);
    merge_suite(&mut map, &source_maps, &SuiteResult { tests: vec![] });
    assert_eq!(hits(&map), 9);
}

#[test]
fn a_failed_execution_fails_the_pass() {
    let source_maps = table(covering_map(), SourceMap::new());
    let mut pass = CoveragePass::new(CoverageReportKind::Lcov, one_statement_map(), source_maps);
    pass.accept(&SuiteResult {
        tests: vec![TestResult {
            coverage: Some(hit_map(1, 2, 3)),
            traces: vec![vec![resolved(1)]],
        }],
    });
    assert_eq!(pass.finish(Execution::Failed), Err(PassError::ExecutionFailed));
}

#[test]
fn a_pass_without_suites_reports_the_prepared_map() {
    let pass = CoveragePass::new(CoverageReportKind::Debug, one_statement_map(), SourceMaps::new());
    assert_eq!(hits(pass.map()), 0);
    let report = pass.finish(Execution::Completed).unwrap();
    assert_eq!(report.destination, Destination::StandardOutput);
    assert_eq!(report.text, "src/Counter.sol: statement 10..20: 0\n");
}

#[test]
fn a_pass_runs_at_the_verbosity_that_records_traces() {
    assert_eq!(TRACE_VERBOSITY, 3);
}
