//! The static half of an analysis pass: from the compiler's output to an
//! empty-handed coverage map and the table of source maps.

use vstd::prelude::*;
use crate::artifacts::{decoded_rows, ArtifactMaps, SourceMaps};
use crate::extract::{extracted, AstNode};
use crate::identity::{CompilerVersion, VersionKey};
use crate::map::{registered, with_source, CoverageMap, EntryView, FileView, SourceEntry};

verus! {

/// A source file as one compiler version saw it. Where the compiler gave no
/// syntax tree, `ast` is `None`.
#[derive(Debug)]
pub struct SourceUnit {
    pub path: String,
    pub version: CompilerVersion,
    pub text: String,
    pub ast: Option<AstNode>,
}

/// The entry under which `unit` is registered: none for a file without a
/// syntax tree, and none for one whose tree yields no coverage item.
pub open spec fn entry_of(unit: SourceUnit) -> Option<EntryView> {
    match unit.ast {
        Some(ast) => if extracted(ast).len() > 0 {
            Some(EntryView { text: unit.text@, items: extracted(ast) })
        } else {
            None
        },
        None => None,
    }
}

/// The files of the map after `units` were registered one by one.
pub open spec fn registered_units(units: Seq<SourceUnit>) -> Seq<FileView>
    decreases units.len(),
{
    if units.len() == 0 {
        Seq::empty()
    } else {
        let before = registered_units(units.drop_last());
        match entry_of(units.last()) {
            Some(entry) => with_source(before, units.last().version@, units.last().path@, entry),
            None => before,
        }
    }
}

/// A file is in the prepared map exactly if one of the units with its version
/// and path has coverage items; and every file in the map has some. So a
/// file whose syntax tree yields no item never gets into the map.
pub proof fn lemma_registered_units(units: Seq<SourceUnit>)
    ensures
        forall|i: int|
            0 <= i < registered_units(units).len() ==> (#[trigger] registered_units(
                units,
            )[i]).items.len() > 0,
        forall|version: VersionKey, path: Seq<char>| #[trigger]
            registered(registered_units(units), version, path) <==> exists|k: int|
                0 <= k < units.len() && (#[trigger] units[k]).version@ == version && units[k].path@
                    == path && entry_of(units[k]) is Some,
    decreases units.len(),
{
    if units.len() > 0 {
        let rest = units.drop_last();
        let last = units.last();
        let before = registered_units(rest);
        let after = registered_units(units);
        lemma_registered_units(rest);
        assert forall|version: VersionKey, path: Seq<char>| #[trigger]
            registered(after, version, path) <==> exists|k: int|
                0 <= k < units.len() && (#[trigger] units[k]).version@ == version && units[k].path@
                    == path && entry_of(units[k]) is Some by {
            let within = exists|k: int|
                0 <= k < rest.len() && (#[trigger] rest[k]).version@ == version && rest[k].path@
                    == path && entry_of(rest[k]) is Some;
            let here = last.version@ == version && last.path@ == path && entry_of(last) is Some;
            assert(registered(before, version, path) <==> within);
            if registered(after, version, path) {
                let i = choose|i: int|
                    0 <= i < after.len() && (#[trigger] after[i]).version == version
                        && after[i].path == path;
                if i < before.len() {
                    assert(after[i] == before[i]);
                    assert(registered(before, version, path));
                    let k = choose|k: int|
                        0 <= k < rest.len() && (#[trigger] rest[k]).version@ == version
                            && rest[k].path@ == path && entry_of(rest[k]) is Some;
                    assert(units[k] == rest[k]);
                } else {
                    assert(here);
                    assert(units[units.len() - 1] == last);
                }
            }
            if exists|k: int|
                0 <= k < units.len() && (#[trigger] units[k]).version@ == version && units[k].path@
                    == path && entry_of(units[k]) is Some {
                let k = choose|k: int|
                    0 <= k < units.len() && (#[trigger] units[k]).version@ == version
                        && units[k].path@ == path && entry_of(units[k]) is Some;
                if k < rest.len() {
                    assert(rest[k] == units[k]);
                    assert(within);
                    let i = choose|i: int|
                        0 <= i < before.len() && (#[trigger] before[i]).version == version
                            && before[i].path == path;
                    assert(after[i] == before[i]);
                } else {
                    assert(here);
                    if registered(before, version, path) {
                        let i = choose|i: int|
                            0 <= i < before.len() && (#[trigger] before[i]).version == version
                                && before[i].path == path;
                        assert(after[i] == before[i]);
                    } else {
                        assert(after[before.len() as int].version == version);
                    }
                }
            }
        }
    }
}

/// Builds what an analysis pass starts from: the coverage map, holding every
/// source unit that has coverage items, none of them hit yet, and the source
/// maps of every artifact whose source maps decode.
pub fn prepare(artifacts: &Vec<ArtifactMaps>, sources: &Vec<SourceUnit>) -> (r: (
    CoverageMap,
    SourceMaps,
))
    ensures
        r.0@ == registered_units(sources@),
        r.1@ == decoded_rows(artifacts@),
        forall|i: int| 0 <= i < r.0@.len() ==> (#[trigger] r.0@[i]).items.len() > 0,
        forall|version: VersionKey, path: Seq<char>| #[trigger]
            registered(r.0@, version, path) <==> exists|k: int|
                0 <= k < sources.len() && (#[trigger] sources[k]).version@ == version
                    && sources[k].path@ == path && entry_of(sources[k]) is Some,
{
    let source_maps = SourceMaps::decode(artifacts);
    let mut map = CoverageMap::new();
    let mut i: usize = 0;
    while i < sources.len()
        invariant
            i <= sources.len(),
            map@ == registered_units(sources@.take(i as int)),
        decreases sources.len() - i,
    {
        let unit = &sources[i];
        proof {
            assert(sources@.take(i + 1).drop_last() == sources@.take(i as int));
        }
        match &unit.ast {
            Some(ast) => {
                let entry = SourceEntry::extract(unit.text.clone(), ast);
                if !entry.is_empty() {
                    map.register_source(unit.version.duplicate(), unit.path.clone(), entry);
                }
            },
            None => {},
        }
        i += 1;
    }
    proof {
        assert(sources@.take(sources.len() as int) == sources@);
        lemma_registered_units(sources@);
    }
    (map, source_maps)
}

} // verus!
