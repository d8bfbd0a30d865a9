//! The dynamic half of an analysis pass: the results of the test suites come
//! in one by one, and the hits they carry are added to the coverage map.

use vstd::prelude::*;
use crate::artifacts::{row_of, ArtifactRow, SourceMaps};
use crate::hits::{has_address, hits_of, AddressHits, Hit, HitMap};
use crate::identity::{Address, ArtifactIdentity};
use crate::laws::lemma_suite_grows;
use crate::map::{grown, merged, CoverageMap, FileView};
use crate::report::{destined, render, rendered, CoverageReportKind, Report};
use crate::source_map::SourceMap;

verus! {

/// The verbosity at which the execution engine records traces. A pass always
/// runs at it: without traces nothing says which addresses a test touched.
pub const TRACE_VERBOSITY: u8 = 3;

/// An address seen in an execution trace, with every artifact that it was
/// found to run: none for an address that could not be resolved, several for
/// an ambiguous one.
#[derive(Clone, Debug, PartialEq, Eq)]
pub struct ResolvedAddress {
    pub address: Address,
    pub artifacts: Vec<ArtifactIdentity>,
}

/// The artifact that runs at a resolved address, where it is known: an
/// address with no artifact or with several has none.
pub open spec fn artifact_of(resolved: ResolvedAddress) -> Option<ArtifactIdentity> {
    if resolved.artifacts.len() == 1 {
        Some(resolved.artifacts[0])
    } else {
        None
    }
}

/// What one test left behind: the hits it recorded, if it recorded any, and
/// for each of its execution traces the addresses that the trace touched.
pub struct TestResult {
    pub coverage: Option<HitMap>,
    pub traces: Vec<Vec<ResolvedAddress>>,
}

/// The results of the tests of one suite.
pub struct SuiteResult {
    pub tests: Vec<TestResult>,
}

/// `files` after `hits` of the artifact of `row` were tried against both of
/// its source maps, for the files of the artifact's compiler version. Both
/// count: a trace does not say whether it ran the creation code or the
/// runtime code.
pub open spec fn correlated(files: Seq<FileView>, row: ArtifactRow, hits: Seq<Hit>) -> Seq<
    FileView,
> {
    merged(merged(files, row.key.version, row.creation, hits), row.key.version, row.runtime, hits)
}

/// `files` after the hits at one resolved address were merged. An address
/// that resolves to no artifact or to several, or to an artifact without
/// source maps, or at which the test recorded nothing, contributes nothing.
pub open spec fn address_merged(
    files: Seq<FileView>,
    table: Seq<ArtifactRow>,
    coverage: Seq<AddressHits>,
    resolved: ResolvedAddress,
) -> Seq<FileView> {
    match artifact_of(resolved) {
        Some(id) => match row_of(table, id@) {
            Some(row) => if has_address(coverage, resolved.address) {
                correlated(files, row, hits_of(coverage, resolved.address))
            } else {
                files
            },
            None => files,
        },
        None => files,
    }
}

/// `files` after the hits at each of the resolved addresses `trace` were
/// merged, in order.
pub open spec fn trace_merged(
    files: Seq<FileView>,
    table: Seq<ArtifactRow>,
    coverage: Seq<AddressHits>,
    trace: Seq<ResolvedAddress>,
) -> Seq<FileView>
    decreases trace.len(),
{
    if trace.len() == 0 {
        files
    } else {
        address_merged(
            trace_merged(files, table, coverage, trace.drop_last()),
            table,
            coverage,
            trace.last(),
        )
    }
}

/// Whether one of `resolved` is at `address`.
pub open spec fn touches(resolved: Seq<ResolvedAddress>, address: Address) -> bool {
    exists|i: int| 0 <= i < resolved.len() && (#[trigger] resolved[i]).address == address
}

/// Every address that `traces` touch, trace after trace, as often as it is
/// touched.
pub open spec fn all_touched(traces: Seq<Vec<ResolvedAddress>>) -> Seq<ResolvedAddress>
    decreases traces.len(),
{
    if traces.len() == 0 {
        Seq::empty()
    } else {
        all_touched(traces.drop_last()) + traces.last()@
    }
}

/// `resolved` with each address once, in the order in which the addresses
/// first occur. Of an address that occurs several times the first occurrence
/// stays.
pub open spec fn each_once(resolved: Seq<ResolvedAddress>) -> Seq<ResolvedAddress>
    decreases resolved.len(),
{
    if resolved.len() == 0 {
        Seq::empty()
    } else if touches(resolved.drop_last(), resolved.last().address) {
        each_once(resolved.drop_last())
    } else {
        each_once(resolved.drop_last()).push(resolved.last())
    }
}

/// `files` after one test was merged: the hits at each address that the
/// test's traces touch are merged once, however many of the traces touch
/// the address. The traces serve to tell the addresses; the hits are those
/// of the test. A test that recorded no hits changes nothing.
pub open spec fn test_merged(files: Seq<FileView>, table: Seq<ArtifactRow>, test: TestResult) -> Seq<
    FileView,
> {
    match test.coverage {
        Some(coverage) => trace_merged(
            files,
            table,
            coverage@,
            each_once(all_touched(test.traces@)),
        ),
        None => files,
    }
}

/// `files` after the tests of a suite were merged in order.
pub open spec fn suite_merged(files: Seq<FileView>, table: Seq<ArtifactRow>, tests: Seq<TestResult>) -> Seq<
    FileView,
>
    decreases tests.len(),
{
    if tests.len() == 0 {
        files
    } else {
        test_merged(suite_merged(files, table, tests.drop_last()), table, tests.last())
    }
}

/// Carries the hits of one contract instance through both source maps of its
/// artifact, the creation map first, and adds them to the files of the
/// artifact's compiler version.
pub fn correlate(
    map: &mut CoverageMap,
    id: &ArtifactIdentity,
    creation: &SourceMap,
    runtime: &SourceMap,
    hits: &Vec<Hit>,
)
    ensures
        final(map)@ == correlated(
            old(map)@,
            (ArtifactRow { key: id@, creation: creation@, runtime: runtime@ }),
            hits@,
        ),
{
    map.merge_hits(&id.version, creation, hits);
    map.merge_hits(&id.version, runtime, hits);
}

/// Merges what `coverage` holds for one resolved address.
pub fn merge_address(
    map: &mut CoverageMap,
    source_maps: &SourceMaps,
    coverage: &HitMap,
    resolved: &ResolvedAddress,
)
    ensures
        final(map)@ == address_merged(old(map)@, source_maps@, coverage@, *resolved),
{
    if resolved.artifacts.len() == 1 {
        let id = &resolved.artifacts[0];
        match source_maps.get(id) {
            Some((creation, runtime)) => {
                match coverage.get(resolved.address) {
                    Some(hits) => {
                        correlate(map, id, creation, runtime, hits);
                    },
                    None => {},
                }
            },
            None => {},
        }
    }
}

/// Whether `addresses` hold `address`.
fn holds_address(addresses: &Vec<Address>, address: Address) -> (r: bool)
    ensures
        r == addresses@.contains(address),
{
    let mut k: usize = 0;
    while k < addresses.len()
        invariant
            k <= addresses.len(),
            forall|i: int| 0 <= i < k ==> addresses[i] != address,
        decreases addresses.len() - k,
    {
        if addresses[k] == address {
            return true;
        }
        k += 1;
    }
    false
}

/// One more resolved address is touched, besides those touched before.
pub proof fn lemma_touches_push(resolved: Seq<ResolvedAddress>, next: ResolvedAddress)
    ensures
        forall|address: Address| #[trigger]
            touches(resolved.push(next), address) <==> (touches(resolved, address) || next.address
                == address),
{
    let more = resolved.push(next);
    assert forall|address: Address| #[trigger]
        touches(more, address) <==> (touches(resolved, address) || next.address
            == address) by {
        if touches(resolved, address) {
            let i = choose|i: int|
                0 <= i < resolved.len() && (#[trigger] resolved[i]).address == address;
            assert(more[i].address == address);
        }
        if next.address == address {
            assert(more[resolved.len() as int].address == address);
        }
        if touches(more, address) {
            let i = choose|i: int| 0 <= i < more.len() && (#[trigger] more[i]).address == address;
            if i < resolved.len() {
                assert(resolved[i].address == address);
            }
        }
    }
}

/// `done` holds exactly the addresses that `resolved` touch.
spec fn marks(done: Seq<Address>, resolved: Seq<ResolvedAddress>) -> bool {
    &&& forall|i: int| 0 <= i < done.len() ==> touches(resolved, #[trigger] done[i])
    &&& forall|i: int| 0 <= i < resolved.len() ==> done.contains((#[trigger] resolved[i]).address)
}

/// With one more resolved address, the marked addresses are those marked
/// before and, where it was not marked, the new one.
proof fn lemma_marks_push(done: Seq<Address>, resolved: Seq<ResolvedAddress>, next: ResolvedAddress)
    requires
        marks(done, resolved),
    ensures
        done.contains(next.address) <==> touches(resolved, next.address),
        done.contains(next.address) ==> marks(done, resolved.push(next)),
        !done.contains(next.address) ==> marks(done.push(next.address), resolved.push(next)),
{
    let more = resolved.push(next);
    lemma_touches_push(resolved, next);
    if done.contains(next.address) {
        let k = choose|k: int| 0 <= k < done.len() && done[k] == next.address;
        assert(touches(resolved, done[k]));
        assert forall|i: int| 0 <= i < done.len() implies touches(more, #[trigger] done[i]) by {
            assert(touches(resolved, done[i]));
        }
        assert forall|i: int| 0 <= i < more.len() implies done.contains(
            (#[trigger] more[i]).address,
        ) by {
            if i < resolved.len() {
                assert(more[i] == resolved[i]);
            }
        }
    } else {
        if touches(resolved, next.address) {
            let i = choose|i: int|
                0 <= i < resolved.len() && (#[trigger] resolved[i]).address == next.address;
            assert(done.contains(resolved[i].address));
        }
        let marked = done.push(next.address);
        assert forall|i: int| 0 <= i < marked.len() implies touches(more, #[trigger] marked[i]) by {
            if i < done.len() {
                assert(marked[i] == done[i]);
                assert(touches(resolved, done[i]));
            }
        }
        assert forall|i: int| 0 <= i < more.len() implies marked.contains(
            (#[trigger] more[i]).address,
        ) by {
            if i < resolved.len() {
                assert(more[i] == resolved[i]);
                let k = choose|k: int| 0 <= k < done.len() && done[k] == resolved[i].address;
                assert(marked[k] == resolved[i].address);
            } else {
                assert(marked[done.len() as int] == next.address);
            }
        }
    }
}

/// Merges one test: the hits at each address that its traces touch, once
/// for each address, in the order in which the addresses first occur.
pub fn merge_test(map: &mut CoverageMap, source_maps: &SourceMaps, test: &TestResult)
    ensures
        final(map)@ == test_merged(old(map)@, source_maps@, *test),
{
    match &test.coverage {
        Some(coverage) => {
            let mut done: Vec<Address> = Vec::new();
            let mut t: usize = 0;
            assert(test.traces@.take(0) == Seq::<Vec<ResolvedAddress>>::empty());
            while t < test.traces.len()
                invariant
                    t <= test.traces.len(),
                    map@ == trace_merged(
                        old(map)@,
                        source_maps@,
                        coverage@,
                        each_once(all_touched(test.traces@.take(t as int))),
                    ),
                    marks(done@, all_touched(test.traces@.take(t as int))),
                decreases test.traces.len() - t,
            {
                let trace = &test.traces[t];
                let ghost before = all_touched(test.traces@.take(t as int));
                let mut a: usize = 0;
                assert(before + trace@.take(0) == before);
                while a < trace.len()
                    invariant
                        a <= trace.len(),
                        map@ == trace_merged(
                            old(map)@,
                            source_maps@,
                            coverage@,
                            each_once(before + trace@.take(a as int)),
                        ),
                        marks(done@, before + trace@.take(a as int)),
                    decreases trace.len() - a,
                {
                    let resolved = &trace[a];
                    let ghost earlier = before + trace@.take(a as int);
                    proof {
                        assert(before + trace@.take(a + 1) == earlier.push(*resolved));
                        assert(earlier.push(*resolved).drop_last() == earlier);
                        lemma_marks_push(done@, earlier, *resolved);
                    }
                    if !holds_address(&done, resolved.address) {
                        done.push(resolved.address);
                        proof {
                            let once = each_once(earlier).push(*resolved);
                            assert(once.drop_last() == each_once(earlier));
                        }
                        merge_address(map, source_maps, coverage, resolved);
                    }
                    a += 1;
                }
                proof {
                    assert(trace@.take(trace.len() as int) == trace@);
                    assert(test.traces@.take(t + 1).drop_last() == test.traces@.take(t as int));
                }
                t += 1;
            }
            assert(test.traces@.take(test.traces.len() as int) == test.traces@);
        },
        None => {},
    }
}

/// Merges the tests of one suite, in order.
pub fn merge_suite(map: &mut CoverageMap, source_maps: &SourceMaps, suite: &SuiteResult)
    ensures
        final(map)@ == suite_merged(old(map)@, source_maps@, suite.tests@),
        grown(old(map)@, final(map)@),
{
    let mut i: usize = 0;
    while i < suite.tests.len()
        invariant
            i <= suite.tests.len(),
            map@ == suite_merged(old(map)@, source_maps@, suite.tests@.take(i as int)),
        decreases suite.tests.len() - i,
    {
        proof {
            assert(suite.tests@.take(i + 1).drop_last() == suite.tests@.take(i as int));
        }
        merge_test(map, source_maps, &suite.tests[i]);
        i += 1;
    }
    proof {
        assert(suite.tests@.take(suite.tests.len() as int) == suite.tests@);
        lemma_suite_grows(old(map)@, source_maps@, suite.tests@);
    }
}

/// How the execution of the test suites ended.
#[derive(Clone, Copy, Debug, PartialEq, Eq, Structural)]
pub enum Execution {
    /// Every suite ran and delivered its result.
    Completed,
    /// The execution broke off abnormally.
    Failed,
}

/// Why an analysis pass gave no report.
#[derive(Clone, Copy, Debug, PartialEq, Eq, Structural)]
pub enum PassError {
    /// The execution of the test suites broke off abnormally.
    ExecutionFailed,
}

/// What an analysis pass holds.
pub struct PassView {
    pub kind: CoverageReportKind,
    pub files: Seq<FileView>,
    pub table: Seq<ArtifactRow>,
}

/// An analysis pass while the test suites run. It owns the coverage map:
/// each suite result that comes in is merged into it, and in the end it is
/// rendered as the report that was asked for.
pub struct CoveragePass {
    kind: CoverageReportKind,
    map: CoverageMap,
    source_maps: SourceMaps,
}

impl View for CoveragePass {
    type V = PassView;

    closed spec fn view(&self) -> PassView {
        PassView { kind: self.kind, files: self.map@, table: self.source_maps@ }
    }
}

impl CoveragePass {
    /// Starts a pass on the prepared `map` and `source_maps`, to end in a
    /// report of `kind`.
    pub fn new(kind: CoverageReportKind, map: CoverageMap, source_maps: SourceMaps) -> (r:
        CoveragePass)
        ensures
            r@ == (PassView { kind, files: map@, table: source_maps@ }),
    {
        CoveragePass { kind, map, source_maps }
    }

    /// The coverage map as it stands.
    pub fn map(&self) -> (r: &CoverageMap)
        ensures
            r@ == self@.files,
    {
        &self.map
    }

    /// Takes in the result of one suite and merges the hits it carries.
    pub fn accept(&mut self, suite: &SuiteResult)
        ensures
            final(self)@ == (PassView {
                files: suite_merged(old(self)@.files, old(self)@.table, suite.tests@),
                ..old(self)@
            }),
            grown(old(self)@.files, final(self)@.files),
    {
        merge_suite(&mut self.map, &self.source_maps, suite);
    }

    /// Ends the pass once the execution of the test suites has ended. Where
    /// it failed, so does the pass; else the map is rendered as it stands.
    pub fn finish(self, execution: Execution) -> (r: Result<Report, PassError>)
        ensures
            r is Ok <==> execution == Execution::Completed,
            r matches Ok(report) ==> report.text@ == rendered(self@.kind, self@.files) && destined(
                self@.kind,
                report.destination,
            ),
            r matches Err(error) ==> error == PassError::ExecutionFailed,
    {
        match execution {
            Execution::Completed => Ok(render(self.kind, &self.map)),
            Execution::Failed => Err(PassError::ExecutionFailed),
        }
    }
}

} // verus!
