//! What holds of merging, whatever the files, source maps and hits.

use vstd::prelude::*;
use crate::artifacts::{row_of, ArtifactRow};
use crate::collect::{
    all_touched, artifact_of, each_once, lemma_touches_push, suite_merged, test_merged,
    touches, trace_merged, ResolvedAddress, TestResult,
};
use crate::hits::{has_address, hits_of, total_at, AddressHits, Hit};
use crate::identity::{Address, VersionKey};
use crate::item::SourceRange;
use crate::map::{
    credit, grown, merged, registered, resolves, with_source, EntryView, FileView,
};
use crate::source_map::{covering, SourceMapEntry};

verus! {

/// The hits of `a` followed by those of `b` add what `a` adds and what `b`
/// adds.
pub proof fn lemma_credit_concat(
    range: SourceRange,
    source_map: Seq<SourceMapEntry>,
    a: Seq<Hit>,
    b: Seq<Hit>,
)
    ensures
        credit(range, source_map, a + b) == credit(range, source_map, a) + credit(
            range,
            source_map,
            b,
        ),
    decreases b.len(),
{
    if b.len() > 0 {
        assert((a + b).drop_last() == a + b.drop_last());
        lemma_credit_concat(range, source_map, a, b.drop_last());
    }
}

/// How often the instruction at `offset` ran according to `a` followed by
/// `b`: the two totals added.
pub proof fn lemma_total_concat(a: Seq<Hit>, b: Seq<Hit>, offset: int)
    ensures
        total_at(a + b, offset) == total_at(a, offset) + total_at(b, offset),
    decreases b.len(),
{
    if b.len() > 0 {
        assert((a + b).drop_last() == a + b.drop_last());
        lemma_total_concat(a, b.drop_last(), offset);
    }
}

/// `hits` without those at `offset`.
pub open spec fn without(hits: Seq<Hit>, offset: int) -> Seq<Hit>
    decreases hits.len(),
{
    if hits.len() == 0 {
        Seq::empty()
    } else if hits.last().offset == offset {
        without(hits.drop_last(), offset)
    } else {
        without(hits.drop_last(), offset).push(hits.last())
    }
}

proof fn lemma_without(
    range: SourceRange,
    source_map: Seq<SourceMapEntry>,
    hits: Seq<Hit>,
    offset: int,
)
    ensures
        without(hits, offset).len() <= hits.len(),
        total_at(hits, offset) > 0 ==> without(hits, offset).len() < hits.len(),
        hits.len() > 0 && hits.last().offset == offset ==> without(hits, offset).len()
            < hits.len(),
        total_at(without(hits, offset), offset) == 0,
        forall|other: int|
            other != offset ==> total_at(without(hits, offset), other) == total_at(hits, other),
        credit(range, source_map, hits) == credit(range, source_map, without(hits, offset)) + (
        if resolves(range, source_map, offset) {
            total_at(hits, offset)
        } else {
            0
        }),
    decreases hits.len(),
{
    if hits.len() > 0 {
        let rest = hits.drop_last();
        let last = hits.last();
        lemma_without(range, source_map, rest, offset);
        if last.offset != offset {
            let kept = without(rest, offset).push(last);
            assert(kept.drop_last() == without(rest, offset));
        }
        assert forall|other: int| other != offset implies total_at(without(hits, offset), other)
            == total_at(hits, other) by {
            assert(total_at(without(rest, offset), other) == total_at(rest, other));
        }
    }
}

proof fn lemma_credit_of_nothing(range: SourceRange, source_map: Seq<SourceMapEntry>, hits: Seq<Hit>)
    requires
        forall|offset: int| total_at(hits, offset) == 0,
    ensures
        credit(range, source_map, hits) == 0,
    decreases hits.len(),
{
    if hits.len() > 0 {
        let rest = hits.drop_last();
        let last = hits.last();
        assert(total_at(hits, last.offset as int) == 0);
        assert forall|offset: int| total_at(rest, offset) == 0 by {
            assert(total_at(hits, offset) == 0);
        }
        lemma_credit_of_nothing(range, source_map, rest);
    }
}

/// What hits add to an item depends only on how often each offset ran, not
/// on how the hits are split up or ordered.
pub proof fn lemma_credit_by_totals(
    range: SourceRange,
    source_map: Seq<SourceMapEntry>,
    a: Seq<Hit>,
    b: Seq<Hit>,
)
    requires
        forall|offset: int| total_at(a, offset) == total_at(b, offset),
    ensures
        credit(range, source_map, a) == credit(range, source_map, b),
    decreases a.len(),
{
    if a.len() == 0 {
        lemma_credit_of_nothing(range, source_map, b);
    } else {
        let offset = a.last().offset as int;
        lemma_without(range, source_map, a, offset);
        lemma_without(range, source_map, b, offset);
        assert forall|other: int|
            total_at(without(a, offset), other) == total_at(without(b, offset), other) by {
            assert(total_at(a, other) == total_at(b, other));
        }
        lemma_credit_by_totals(range, source_map, without(a, offset), without(b, offset));
    }
}

/// Merges commute: the map after two merges does not depend on which of
/// them came first, whatever their versions, source maps and hits.
pub proof fn lemma_merge_commutes(
    files: Seq<FileView>,
    v1: VersionKey,
    m1: Seq<SourceMapEntry>,
    h1: Seq<Hit>,
    v2: VersionKey,
    m2: Seq<SourceMapEntry>,
    h2: Seq<Hit>,
)
    ensures
        merged(merged(files, v1, m1, h1), v2, m2, h2) == merged(
            merged(files, v2, m2, h2),
            v1,
            m1,
            h1,
        ),
{
    let one = merged(merged(files, v1, m1, h1), v2, m2, h2);
    let other = merged(merged(files, v2, m2, h2), v1, m1, h1);
    assert forall|i: int| 0 <= i < files.len() implies one[i] == other[i] by {
        assert(one[i].items =~= other[i].items);
    }
}

/// Merging two hit maps one after the other is merging any hit map that
/// holds, for each offset, the sum of what the two hold for it.
pub proof fn lemma_merge_sum(
    files: Seq<FileView>,
    version: VersionKey,
    source_map: Seq<SourceMapEntry>,
    h1: Seq<Hit>,
    h2: Seq<Hit>,
    sum: Seq<Hit>,
)
    requires
        forall|offset: int| total_at(sum, offset) == total_at(h1, offset) + total_at(h2, offset),
    ensures
        merged(merged(files, version, source_map, h1), version, source_map, h2) == merged(
            files,
            version,
            source_map,
            sum,
        ),
{
    let twice = merged(merged(files, version, source_map, h1), version, source_map, h2);
    let once = merged(files, version, source_map, sum);
    assert forall|offset: int| total_at(sum, offset) == total_at(h1 + h2, offset) by {
        lemma_total_concat(h1, h2, offset);
    }
    assert forall|i: int| 0 <= i < files.len() implies twice[i] == once[i] by {
        if files[i].version == version {
            assert forall|j: int| 0 <= j < files[i].items.len() implies twice[i].items[j]
                == once[i].items[j] by {
                let range = files[i].items[j].range;
                lemma_credit_by_totals(range, source_map, sum, h1 + h2);
                lemma_credit_concat(range, source_map, h1, h2);
            }
        }
        assert(twice[i].items =~= once[i].items);
    }
}

/// Merging is associative: of three hit maps merged in a row, the first two
/// may be taken together, or the last two.
pub proof fn lemma_merge_associates(
    files: Seq<FileView>,
    version: VersionKey,
    source_map: Seq<SourceMapEntry>,
    h1: Seq<Hit>,
    h2: Seq<Hit>,
    h3: Seq<Hit>,
)
    ensures
        merged(merged(files, version, source_map, h1 + h2), version, source_map, h3) == merged(
            merged(files, version, source_map, h1),
            version,
            source_map,
            h2 + h3,
        ),
{
    assert forall|offset: int|
        total_at(h1 + h2 + h3, offset) == total_at(h1 + h2, offset) + total_at(h3, offset) by {
        lemma_total_concat(h1 + h2, h3, offset);
    }
    lemma_merge_sum(files, version, source_map, h1 + h2, h3, h1 + h2 + h3);
    assert(h1 + h2 + h3 == h1 + (h2 + h3));
    assert forall|offset: int|
        total_at(h1 + (h2 + h3), offset) == total_at(h1, offset) + total_at(h2 + h3, offset) by {
        lemma_total_concat(h1, h2 + h3, offset);
    }
    lemma_merge_sum(files, version, source_map, h1, h2 + h3, h1 + (h2 + h3));
}

/// What grew twice has grown.
pub proof fn lemma_grown_transitive(a: Seq<FileView>, b: Seq<FileView>, c: Seq<FileView>)
    requires
        grown(a, b),
        grown(b, c),
    ensures
        grown(a, c),
{
}

/// One merge of a pass: the hits of one contract instance, the source map they
/// are carried through, and the compiler version they count for.
pub struct MergeStep {
    pub version: VersionKey,
    pub source_map: Seq<SourceMapEntry>,
    pub hits: Seq<Hit>,
}

/// `files` after the merges `steps`, in order.
pub open spec fn merged_all(files: Seq<FileView>, steps: Seq<MergeStep>) -> Seq<FileView>
    decreases steps.len(),
{
    if steps.len() == 0 {
        files
    } else {
        merged(
            merged_all(files, steps.drop_last()),
            steps.last().version,
            steps.last().source_map,
            steps.last().hits,
        )
    }
}

/// Over any sequence of merges, no hit count ever falls: the map after any
/// number of the merges has grown out of the map after fewer of them.
pub proof fn lemma_merges_grow(files: Seq<FileView>, steps: Seq<MergeStep>, fewer: int)
    requires
        0 <= fewer <= steps.len(),
    ensures
        grown(merged_all(files, steps.take(fewer)), merged_all(files, steps)),
    decreases steps.len(),
{
    if fewer == steps.len() {
        assert(steps.take(fewer) == steps);
    } else {
        let rest = steps.drop_last();
        assert(rest.take(fewer) == steps.take(fewer));
        lemma_merges_grow(files, rest, fewer);
    }
}

/// A hit that resolves to no item of the merged version changes nothing:
/// one at an offset that no entry of the source map holds, one whose entry is
/// not valid, and one whose entry maps to bytes that no item covers.
pub proof fn lemma_miss_adds_nothing(
    files: Seq<FileView>,
    version: VersionKey,
    source_map: Seq<SourceMapEntry>,
    hits: Seq<Hit>,
    hit: Hit,
)
    requires
        forall|i: int, j: int|
            0 <= i < files.len() && 0 <= j < files[i].items.len() && files[i].version == version
                ==> !resolves((#[trigger] files[i].items[j]).range, source_map, hit.offset as int),
    ensures
        merged(files, version, source_map, hits.push(hit)) == merged(
            files,
            version,
            source_map,
            hits,
        ),
{
    let more = hits.push(hit);
    assert(more.drop_last() == hits);
    let one = merged(files, version, source_map, more);
    let other = merged(files, version, source_map, hits);
    assert forall|i: int| 0 <= i < files.len() implies one[i] == other[i] by {
        if files[i].version == version {
            assert(one[i].items =~= other[i].items);
        }
    }
}

/// A hit at an offset that no entry of the source map holds changes nothing.
pub proof fn lemma_unmapped_offset_adds_nothing(
    files: Seq<FileView>,
    version: VersionKey,
    source_map: Seq<SourceMapEntry>,
    hits: Seq<Hit>,
    hit: Hit,
)
    requires
        covering(source_map, hit.offset as int) is None,
    ensures
        merged(files, version, source_map, hits.push(hit)) == merged(
            files,
            version,
            source_map,
            hits,
        ),
{
    lemma_miss_adds_nothing(files, version, source_map, hits, hit);
}

/// A merge for a compiler version under which nothing is registered
/// changes nothing.
pub proof fn lemma_merge_unknown_version(
    files: Seq<FileView>,
    version: VersionKey,
    source_map: Seq<SourceMapEntry>,
    hits: Seq<Hit>,
)
    requires
        forall|i: int| 0 <= i < files.len() ==> (#[trigger] files[i]).version != version,
    ensures
        merged(files, version, source_map, hits) == files,
{
}

/// Registering is idempotent: a second registration under the same version
/// and path changes nothing, whatever entry it brings.
pub proof fn lemma_register_idempotent(
    files: Seq<FileView>,
    version: VersionKey,
    path: Seq<char>,
    first: EntryView,
    second: EntryView,
)
    ensures
        with_source(with_source(files, version, path, first), version, path, second)
            == with_source(files, version, path, first),
{
    let once = with_source(files, version, path, first);
    if !registered(files, version, path) {
        assert(once[files.len() as int].version == version);
    }
}

/// `after` is `before` with each item credited by what `amount` gives for
/// the version of its file and its range.
pub open spec fn raised(
    before: Seq<FileView>,
    after: Seq<FileView>,
    amount: spec_fn(VersionKey, SourceRange) -> nat,
) -> bool {
    &&& after.len() == before.len()
    &&& forall|i: int|
        0 <= i < before.len() ==> {
            &&& (#[trigger] after[i]).version == before[i].version
            &&& after[i].path == before[i].path
            &&& after[i].text == before[i].text
            &&& after[i].items.len() == before[i].items.len()
        }
    &&& forall|i: int, j: int|
        0 <= i < before.len() && 0 <= j < before[i].items.len() ==> (#[trigger] after[i].items[j])
            == before[i].items[j].credited(amount(before[i].version, before[i].items[j].range))
}

/// What was raised by the same amounts is the same.
proof fn lemma_raised_unique(
    a: Seq<FileView>,
    b: Seq<FileView>,
    c: Seq<FileView>,
    one: spec_fn(VersionKey, SourceRange) -> nat,
    other: spec_fn(VersionKey, SourceRange) -> nat,
)
    requires
        raised(a, b, one),
        raised(a, c, other),
        forall|version: VersionKey, range: SourceRange| #[trigger]
            one(version, range) == other(version, range),
    ensures
        b == c,
{
    assert forall|i: int| 0 <= i < a.len() implies b[i] == c[i] by {
        assert(b[i].items =~= c[i].items);
    }
}

/// What the hits at one resolved address add to an item at `range` in a
/// file of compiler `version`.
pub open spec fn address_credit(
    table: Seq<ArtifactRow>,
    coverage: Seq<AddressHits>,
    resolved: ResolvedAddress,
    version: VersionKey,
    range: SourceRange,
) -> nat {
    match artifact_of(resolved) {
        Some(id) => match row_of(table, id@) {
            Some(row) => if has_address(coverage, resolved.address) && row.key.version == version {
                credit(range, row.creation, hits_of(coverage, resolved.address)) + credit(
                    range,
                    row.runtime,
                    hits_of(coverage, resolved.address),
                )
            } else {
                0
            },
            None => 0,
        },
        None => 0,
    }
}

/// What the hits at each of the resolved addresses `trace` add to such an
/// item, all told.
pub open spec fn trace_credit(
    table: Seq<ArtifactRow>,
    coverage: Seq<AddressHits>,
    trace: Seq<ResolvedAddress>,
    version: VersionKey,
    range: SourceRange,
) -> nat
    decreases trace.len(),
{
    if trace.len() == 0 {
        0
    } else {
        trace_credit(table, coverage, trace.drop_last(), version, range) + address_credit(
            table,
            coverage,
            trace.last(),
            version,
            range,
        )
    }
}

/// What one test adds to such an item: what the addresses that its traces
/// touch add, each address once; nothing, if the test recorded no hits.
pub open spec fn test_credit(
    table: Seq<ArtifactRow>,
    test: TestResult,
    version: VersionKey,
    range: SourceRange,
) -> nat {
    match test.coverage {
        Some(coverage) => trace_credit(
            table,
            coverage@,
            each_once(all_touched(test.traces@)),
            version,
            range,
        ),
        None => 0,
    }
}

/// What the tests of a suite add to such an item.
pub open spec fn suite_credit(
    table: Seq<ArtifactRow>,
    tests: Seq<TestResult>,
    version: VersionKey,
    range: SourceRange,
) -> nat
    decreases tests.len(),
{
    if tests.len() == 0 {
        0
    } else {
        suite_credit(table, tests.drop_last(), version, range) + test_credit(
            table,
            tests.last(),
            version,
            range,
        )
    }
}

proof fn lemma_trace_raised(
    files: Seq<FileView>,
    table: Seq<ArtifactRow>,
    coverage: Seq<AddressHits>,
    trace: Seq<ResolvedAddress>,
)
    ensures
        raised(
            files,
            trace_merged(files, table, coverage, trace),
            |v: VersionKey, r: SourceRange| trace_credit(table, coverage, trace, v, r),
        ),
    decreases trace.len(),
{
    if trace.len() > 0 {
        lemma_trace_raised(files, table, coverage, trace.drop_last());
    }
}

/// What a test adds to an item depends on the test alone, not on the map
/// it is merged into.
pub proof fn lemma_test_raised(files: Seq<FileView>, table: Seq<ArtifactRow>, test: TestResult)
    ensures
        raised(
            files,
            test_merged(files, table, test),
            |v: VersionKey, r: SourceRange| test_credit(table, test, v, r),
        ),
{
    if let Some(coverage) = test.coverage {
        lemma_trace_raised(files, table, coverage@, each_once(all_touched(test.traces@)));
    }
}

/// What a suite adds to an item depends on the suite alone, not on the map
/// it is merged into: each item is credited with the suite's hits for its
/// file's version and its range.
pub proof fn lemma_suite_raised(
    files: Seq<FileView>,
    table: Seq<ArtifactRow>,
    tests: Seq<TestResult>,
)
    ensures
        raised(
            files,
            suite_merged(files, table, tests),
            |v: VersionKey, r: SourceRange| suite_credit(table, tests, v, r),
        ),
    decreases tests.len(),
{
    if tests.len() > 0 {
        let middle = suite_merged(files, table, tests.drop_last());
        lemma_suite_raised(files, table, tests.drop_last());
        lemma_test_raised(middle, table, tests.last());
    }
}

/// No suite lowers a hit count, or removes, adds or reorders a file or an
/// item.
pub proof fn lemma_suite_grows(files: Seq<FileView>, table: Seq<ArtifactRow>, tests: Seq<TestResult>)
    ensures
        grown(files, suite_merged(files, table, tests)),
{
    lemma_suite_raised(files, table, tests);
}

/// The order in which the results of two suites come in does not matter.
pub proof fn lemma_suites_commute(
    files: Seq<FileView>,
    table: Seq<ArtifactRow>,
    first: Seq<TestResult>,
    second: Seq<TestResult>,
)
    ensures
        suite_merged(suite_merged(files, table, first), table, second) == suite_merged(
            suite_merged(files, table, second),
            table,
            first,
        ),
{
    let sum = |v: VersionKey, r: SourceRange|
        suite_credit(table, first, v, r) + suite_credit(table, second, v, r);
    let mirrored = |v: VersionKey, r: SourceRange|
        suite_credit(table, second, v, r) + suite_credit(table, first, v, r);
    let a = suite_merged(files, table, first);
    let ab = suite_merged(a, table, second);
    let b = suite_merged(files, table, second);
    let ba = suite_merged(b, table, first);
    lemma_suite_raised(files, table, first);
    lemma_suite_raised(a, table, second);
    lemma_suite_raised(files, table, second);
    lemma_suite_raised(b, table, first);
    lemma_raised_unique(files, ab, ba, sum, mirrored);
}

/// Among the addresses taken once each, no address occurs twice, and every
/// address that was touched occurs: so a test's hits at an address are merged
/// once, however often its traces touch the address.
pub proof fn lemma_each_once(resolved: Seq<ResolvedAddress>)
    ensures
        forall|i: int, j: int|
            0 <= i < j < each_once(resolved).len() ==> (#[trigger] each_once(resolved)[i]).address
                != (#[trigger] each_once(resolved)[j]).address,
        forall|address: Address| #[trigger]
            touches(each_once(resolved), address) <==> touches(resolved, address),
    decreases resolved.len(),
{
    if resolved.len() > 0 {
        let rest = resolved.drop_last();
        let last = resolved.last();
        let once = each_once(resolved);
        lemma_each_once(rest);
        assert(rest.push(last) == resolved);
        lemma_touches_push(rest, last);
        lemma_touches_push(each_once(rest), last);
        assert forall|address: Address| #[trigger]
            touches(once, address) <==> touches(resolved, address) by {
            assert(touches(each_once(rest), address) <==> touches(rest, address));
            assert(touches(resolved, address) <==> (touches(rest, address) || last.address
                == address));
            if !touches(rest, last.address) {
                assert(touches(once, address) <==> (touches(each_once(rest), address)
                    || last.address == address));
            }
        }
        if !touches(rest, last.address) {
            assert forall|i: int, j: int| 0 <= i < j < once.len() implies (#[trigger] once[i]).address
                != (#[trigger] once[j]).address by {
                if j == once.len() - 1 {
                    assert(each_once(rest)[i].address == once[i].address);
                    assert(touches(each_once(rest), once[i].address));
                }
            }
        }
    }
}

} // verus!
