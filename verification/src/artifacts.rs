//! The source maps of the compiled artifacts, looked up by artifact identity.

use vstd::prelude::*;
use crate::identity::{ArtifactIdentity, ArtifactKey};
use crate::source_map::{decoded_elements, entries_of_elements, SourceMap, SourceMapEntry};

verus! {

/// The two source maps of one artifact: that of the bytecode that deploys the
/// contract, and that of the bytecode that runs at every later call.
pub struct ArtifactRow {
    pub key: ArtifactKey,
    pub creation: Seq<SourceMapEntry>,
    pub runtime: Seq<SourceMapEntry>,
}

/// The row that `rows` hold for `key`: the last one, where there are several.
pub open spec fn row_of(rows: Seq<ArtifactRow>, key: ArtifactKey) -> Option<ArtifactRow>
    decreases rows.len(),
{
    if rows.len() == 0 {
        None
    } else if rows.last().key == key {
        Some(rows.last())
    } else {
        row_of(rows.drop_last(), key)
    }
}

/// An artifact as the compiler hands it over: its identity and, where the
/// compiler produced them, its two source maps in their text form.
#[derive(Clone, Debug, PartialEq, Eq)]
pub struct ArtifactMaps {
    pub id: ArtifactIdentity,
    pub creation: Option<String>,
    pub runtime: Option<String>,
}

/// The row of an artifact, for one that has both source maps and whose
/// source maps both decode.
pub open spec fn decoded_row(artifact: ArtifactMaps) -> Option<ArtifactRow> {
    match (artifact.creation, artifact.runtime) {
        (Some(creation), Some(runtime)) => match (
            decoded_elements(creation@),
            decoded_elements(runtime@),
        ) {
            (Some(c), Some(r)) => Some(
                ArtifactRow {
                    key: artifact.id@,
                    creation: entries_of_elements(c),
                    runtime: entries_of_elements(r),
                },
            ),
            _ => None,
        },
        _ => None,
    }
}

/// The rows of the artifacts that have one, in the artifacts' order.
pub open spec fn decoded_rows(artifacts: Seq<ArtifactMaps>) -> Seq<ArtifactRow>
    decreases artifacts.len(),
{
    if artifacts.len() == 0 {
        Seq::empty()
    } else {
        let before = decoded_rows(artifacts.drop_last());
        match decoded_row(artifacts.last()) {
            Some(row) => before.push(row),
            None => before,
        }
    }
}

struct Slot {
    id: ArtifactIdentity,
    creation: SourceMap,
    runtime: SourceMap,
}

impl View for Slot {
    type V = ArtifactRow;

    closed spec fn view(&self) -> ArtifactRow {
        ArtifactRow { key: self.id@, creation: self.creation@, runtime: self.runtime@ }
    }
}

/// The source maps of all artifacts of a build.
pub struct SourceMaps {
    slots: Vec<Slot>,
}

impl View for SourceMaps {
    type V = Seq<ArtifactRow>;

    closed spec fn view(&self) -> Seq<ArtifactRow> {
        Seq::new(self.slots.len() as nat, |i: int| self.slots[i]@)
    }
}

impl SourceMaps {
    pub fn new() -> (r: SourceMaps)
        ensures
            r@ == Seq::<ArtifactRow>::empty(),
    {
        let r = SourceMaps { slots: Vec::new() };
        r
    }

    pub fn len(&self) -> (r: usize)
        ensures
            r == self@.len(),
    {
        self.slots.len()
    }

    /// Adds the source maps of the artifact `id`. Where the table held source
    /// maps for that artifact, the new ones are handed out from now on.
    pub fn insert(&mut self, id: ArtifactIdentity, creation: SourceMap, runtime: SourceMap)
        ensures
            final(self)@ == old(self)@.push(
                (ArtifactRow { key: id@, creation: creation@, runtime: runtime@ }),
            ),
    {
        self.slots.push(Slot { id, creation, runtime });
    }

    /// The creation and runtime source maps of the artifact `id`.
    pub fn get(&self, id: &ArtifactIdentity) -> (r: Option<(&SourceMap, &SourceMap)>)
        ensures
            r is Some <==> row_of(self@, id@) is Some,
            r matches Some(maps) ==> row_of(self@, id@) == Some(
                (ArtifactRow { key: id@, creation: maps.0@, runtime: maps.1@ }),
            ),
    {
        let mut k: usize = self.slots.len();
        assert(self@.take(k as int) == self@);
        while k > 0
            invariant
                k <= self.slots.len(),
                row_of(self@, id@) == row_of(self@.take(k as int), id@),
            decreases k,
        {
            k -= 1;
            proof {
                assert(self@.take(k + 1).drop_last() == self@.take(k as int));
            }
            if self.slots[k].id.same(id) {
                return Some((&self.slots[k].creation, &self.slots[k].runtime));
            }
        }
        None
    }

    /// Decodes the source maps of `artifacts` and keeps those of every
    /// artifact that has both and whose both decode. The others are left
    /// out: they contribute no coverage.
    pub fn decode(artifacts: &Vec<ArtifactMaps>) -> (r: SourceMaps)
        ensures
            r@ == decoded_rows(artifacts@),
    {
        let mut table = SourceMaps::new();
        let mut i: usize = 0;
        while i < artifacts.len()
            invariant
                i <= artifacts.len(),
                table@ == decoded_rows(artifacts@.take(i as int)),
            decreases artifacts.len() - i,
        {
            let artifact = &artifacts[i];
            proof {
                assert(artifacts@.take(i + 1).drop_last() == artifacts@.take(i as int));
            }
            match (&artifact.creation, &artifact.runtime) {
                (Some(creation), Some(runtime)) => {
                    match (SourceMap::decode(creation.as_str()), SourceMap::decode(runtime.as_str())) {
                        (Some(c), Some(r)) => {
                            let id = ArtifactIdentity::new(
                                artifact.id.version.duplicate(),
                                artifact.id.name.clone(),
                                artifact.id.path.clone(),
                            );
                            table.insert(id, c, r);
                        },
                        _ => {},
                    }
                },
                _ => {},
            }
            i += 1;
        }
        assert(artifacts@.take(artifacts.len() as int) == artifacts@);
        table
    }
}

} // verus!
