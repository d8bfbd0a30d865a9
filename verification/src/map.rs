//! The coverage map: every registered source file with its items and their
//! accumulated hit counts.

use vstd::prelude::*;
use crate::extract::{extract_items, extracted, AstNode};
use crate::hits::Hit;
use crate::identity::{CompilerVersion, VersionKey};
use crate::item::{CoverageItem, SourceRange};
use crate::source_map::{covering, SourceMap, SourceMapEntry};

verus! {

/// Item `i` of `items` carries the index `i`.
pub open spec fn indexed(items: Seq<CoverageItem>) -> bool {
    forall|i: int| 0 <= i < items.len() ==> (#[trigger] items[i]).index == i
}

/// What a source entry holds.
pub struct EntryView {
    pub text: Seq<char>,
    pub items: Seq<CoverageItem>,
}

/// One source file as one compiler version saw it: its text and its coverage
/// items, in the order in which they were found.
pub struct SourceEntry {
    text: String,
    items: Vec<CoverageItem>,
}

impl View for SourceEntry {
    type V = EntryView;

    closed spec fn view(&self) -> EntryView {
        EntryView { text: self.text@, items: self.items@ }
    }
}

impl SourceEntry {
    #[verifier::type_invariant]
    spec fn well_formed(self) -> bool {
        indexed(self.items@)
    }

    /// An entry of `items` for the file with the given `text`, if each item
    /// carries its own position as its index.
    pub fn new(text: String, items: Vec<CoverageItem>) -> (r: Option<SourceEntry>)
        ensures
            r is Some <==> indexed(items@),
            r matches Some(e) ==> e@ == (EntryView { text: text@, items: items@ }),
    {
        let mut k: usize = 0;
        while k < items.len()
            invariant
                k <= items.len(),
                forall|i: int| 0 <= i < k ==> (#[trigger] items[i]).index == i,
            decreases items.len() - k,
        {
            if items[k].index != k {
                return None;
            }
            k += 1;
        }
        Some(SourceEntry { text, items })
    }

    /// The entry of the file with the given `text` and syntax tree `ast`:
    /// its items are those extracted from the tree.
    pub fn extract(text: String, ast: &AstNode) -> (r: SourceEntry)
        ensures
            r@ == (EntryView { text: text@, items: extracted(*ast) }),
    {
        let items = extract_items(ast);
        SourceEntry { text, items }
    }

    /// Whether the file has no coverage items at all.
    pub fn is_empty(&self) -> (r: bool)
        ensures
            r == (self@.items.len() == 0),
    {
        self.items.len() == 0
    }

    pub fn text(&self) -> (r: &String)
        ensures
            r@ == self@.text,
    {
        &self.text
    }

    pub fn items(&self) -> (r: &Vec<CoverageItem>)
        ensures
            r@ == self@.items,
            indexed(r@),
    {
        proof {
            use_type_invariant(self);
        }
        &self.items
    }
}

/// One registered file of a coverage map.
pub struct FileView {
    pub version: VersionKey,
    pub path: Seq<char>,
    pub text: Seq<char>,
    pub items: Seq<CoverageItem>,
}

/// A look at one registered file of a coverage map.
pub struct FileRef<'a> {
    pub version: &'a CompilerVersion,
    pub path: &'a String,
    pub text: &'a String,
    pub items: &'a Vec<CoverageItem>,
}

impl<'a> View for FileRef<'a> {
    type V = FileView;

    open spec fn view(&self) -> FileView {
        FileView { version: self.version@, path: self.path@, text: self.text@, items: self.items@ }
    }
}

/// Whether `files` hold the file at `path` under compiler `version`.
pub open spec fn registered(files: Seq<FileView>, version: VersionKey, path: Seq<char>) -> bool {
    exists|i: int|
        0 <= i < files.len() && (#[trigger] files[i]).version == version && files[i].path == path
}

/// Position `i` is the first of `files` that holds the file at `path` under
/// compiler `version`. Where no two files share version and path, it is the
/// only one.
pub open spec fn first_at(
    files: Seq<FileView>,
    version: VersionKey,
    path: Seq<char>,
    i: int,
) -> bool {
    &&& 0 <= i < files.len()
    &&& files[i].version == version
    &&& files[i].path == path
    &&& forall|j: int| 0 <= j < i ==> !((#[trigger] files[j]).version == version && files[j].path == path)
}

/// No two of `files` share version and path.
pub open spec fn distinct_keys(files: Seq<FileView>) -> bool {
    forall|i: int, j: int|
        0 <= i < j < files.len() ==> !((#[trigger] files[i]).version == (
        #[trigger] files[j]).version && files[i].path == files[j].path)
}

/// `files` after an attempt to register one more: a file whose version and
/// path are taken already changes nothing.
pub open spec fn with_source(
    files: Seq<FileView>,
    version: VersionKey,
    path: Seq<char>,
    entry: EntryView,
) -> Seq<FileView> {
    if registered(files, version, path) {
        files
    } else {
        files.push(FileView { version, path, text: entry.text, items: entry.items })
    }
}

/// Whether running the instruction at `offset` counts for an item at `range`:
/// a valid entry of the source map holds the offset, and the bytes it maps to
/// lie within the item.
pub open spec fn resolves(range: SourceRange, source_map: Seq<SourceMapEntry>, offset: int) -> bool {
    match covering(source_map, offset) {
        Some(entry) => entry.valid && range.covers(entry.range),
        None => false,
    }
}

/// The executions that `hits` add to an item at `range`.
pub open spec fn credit(range: SourceRange, source_map: Seq<SourceMapEntry>, hits: Seq<Hit>) -> nat
    decreases hits.len(),
{
    if hits.len() == 0 {
        0
    } else {
        credit(range, source_map, hits.drop_last()) + if resolves(
            range,
            source_map,
            hits.last().offset as int,
        ) {
            hits.last().count as nat
        } else {
            0
        }
    }
}

/// `items` after `hits` were carried through `source_map`.
pub open spec fn merged_items(
    items: Seq<CoverageItem>,
    source_map: Seq<SourceMapEntry>,
    hits: Seq<Hit>,
) -> Seq<CoverageItem> {
    Seq::new(items.len(), |j: int| items[j].credited(credit(items[j].range, source_map, hits)))
}

/// `files` after `hits` were carried through `source_map` onto the files of
/// compiler `version`. Files of other versions stay as they are.
pub open spec fn merged(
    files: Seq<FileView>,
    version: VersionKey,
    source_map: Seq<SourceMapEntry>,
    hits: Seq<Hit>,
) -> Seq<FileView> {
    Seq::new(
        files.len(),
        |i: int|
            if files[i].version == version {
                FileView { items: merged_items(files[i].items, source_map, hits), ..files[i] }
            } else {
                files[i]
            },
    )
}

/// `items` after `count` executions of code that stems from `target`.
pub open spec fn credited_items(items: Seq<CoverageItem>, target: SourceRange, count: nat) -> Seq<
    CoverageItem,
> {
    Seq::new(
        items.len(),
        |j: int|
            if items[j].range.covers(target) {
                items[j].credited(count)
            } else {
                items[j]
            },
    )
}

/// `files` after `count` executions, under compiler `version`, of code that
/// stems from `target`.
pub open spec fn credited_files(
    files: Seq<FileView>,
    version: VersionKey,
    target: SourceRange,
    count: nat,
) -> Seq<FileView> {
    Seq::new(
        files.len(),
        |i: int|
            if files[i].version == version {
                FileView { items: credited_items(files[i].items, target, count), ..files[i] }
            } else {
                files[i]
            },
    )
}

/// Merging no hits changes nothing.
pub proof fn lemma_merged_nothing(
    files: Seq<FileView>,
    version: VersionKey,
    source_map: Seq<SourceMapEntry>,
)
    ensures
        merged(files, version, source_map, Seq::empty()) == files,
{
    let after = merged(files, version, source_map, Seq::empty());
    assert forall|i: int| 0 <= i < files.len() implies after[i] == files[i] by {
        if files[i].version == version {
            assert(after[i].items =~= files[i].items);
        }
    }
}

/// Merging one more hit credits the range that its offset maps to, or changes
/// nothing where the offset maps to no source.
pub proof fn lemma_merged_push(
    files: Seq<FileView>,
    version: VersionKey,
    source_map: Seq<SourceMapEntry>,
    hits: Seq<Hit>,
    hit: Hit,
)
    ensures
        merged(files, version, source_map, hits.push(hit)) == (match covering(
            source_map,
            hit.offset as int,
        ) {
            Some(entry) if entry.valid => credited_files(
                merged(files, version, source_map, hits),
                version,
                entry.range,
                hit.count as nat,
            ),
            _ => merged(files, version, source_map, hits),
        }),
{
    let more = hits.push(hit);
    assert(more.drop_last() == hits);
    let before = merged(files, version, source_map, hits);
    let after = merged(files, version, source_map, more);
    let expected = match covering(source_map, hit.offset as int) {
        Some(entry) if entry.valid => credited_files(before, version, entry.range, hit.count as nat),
        _ => before,
    };
    assert forall|i: int| 0 <= i < after.len() implies after[i] == expected[i] by {
        if files[i].version == version {
            assert(after[i].items =~= expected[i].items);
        }
    }
}

/// `after` holds the files and items of `before` with no hit count lower.
pub open spec fn grown(before: Seq<FileView>, after: Seq<FileView>) -> bool {
    &&& after.len() == before.len()
    &&& forall|i: int|
        0 <= i < before.len() ==> {
            &&& (#[trigger] after[i]).version == before[i].version
            &&& after[i].path == before[i].path
            &&& after[i].text == before[i].text
            &&& after[i].items.len() == before[i].items.len()
        }
    &&& forall|i: int, j: int|
        0 <= i < before.len() && 0 <= j < before[i].items.len() ==> {
            &&& (#[trigger] after[i].items[j]).kind == before[i].items[j].kind
            &&& after[i].items[j].index == before[i].items[j].index
            &&& after[i].items[j].range == before[i].items[j].range
            &&& after[i].items[j].hits >= before[i].items[j].hits
        }
}

/// A merge never lowers a hit count, and never removes, adds or reorders a
/// file or an item.
pub proof fn lemma_merge_grows(
    files: Seq<FileView>,
    version: VersionKey,
    source_map: Seq<SourceMapEntry>,
    hits: Seq<Hit>,
)
    ensures
        grown(files, merged(files, version, source_map, hits)),
        distinct_keys(files) ==> distinct_keys(merged(files, version, source_map, hits)),
{
}

struct FileSlot {
    version: CompilerVersion,
    path: String,
    text: String,
    items: Vec<CoverageItem>,
}

impl View for FileSlot {
    type V = FileView;

    closed spec fn view(&self) -> FileView {
        FileView { version: self.version@, path: self.path@, text: self.text@, items: self.items@ }
    }
}

spec fn views(slots: Seq<FileSlot>) -> Seq<FileView> {
    Seq::new(slots.len(), |i: int| slots[i]@)
}

/// Credits `count` executions to every item of `items` that covers `target`.
fn credit_items(items: &mut Vec<CoverageItem>, target: SourceRange, count: u64)
    ensures
        final(items)@ == credited_items(old(items)@, target, count as nat),
{
    let mut j: usize = 0;
    while j < items.len()
        invariant
            j <= items.len(),
            items.len() == old(items).len(),
            forall|k: int|
                0 <= k < j ==> items[k] == credited_items(old(items)@, target, count as nat)[k],
            forall|k: int| j <= k < items.len() ==> items[k] == old(items)[k],
        decreases items.len() - j,
    {
        if items[j].range.contains(&target) {
            items[j].add_hits(count);
        }
        j += 1;
    }
}

/// Credits `count` executions to every item of a file of `version` that
/// covers `target`.
fn credit_slots(slots: &mut Vec<FileSlot>, version: &CompilerVersion, target: SourceRange, count: u64)
    ensures
        views(final(slots)@) == credited_files(views(old(slots)@), version@, target, count as nat),
{
    let mut i: usize = 0;
    while i < slots.len()
        invariant
            i <= slots.len(),
            slots.len() == old(slots).len(),
            forall|k: int|
                0 <= k < i ==> slots[k]@ == credited_files(
                    views(old(slots)@),
                    version@,
                    target,
                    count as nat,
                )[k],
            forall|k: int| i <= k < slots.len() ==> slots[k] == old(slots)[k],
        decreases slots.len() - i,
    {
        if slots[i].version.same(version) {
            credit_items(&mut slots[i].items, target, count);
        }
        i += 1;
    }
}

/// All registered source files, keyed by compiler version and path, with the
/// hit counts accumulated so far. Files keep the order of their registration.
pub struct CoverageMap {
    files: Vec<FileSlot>,
}

impl View for CoverageMap {
    type V = Seq<FileView>;

    closed spec fn view(&self) -> Seq<FileView> {
        views(self.files@)
    }
}

impl CoverageMap {
    #[verifier::type_invariant]
    spec fn well_formed(self) -> bool {
        &&& distinct_keys(views(self.files@))
        &&& forall|i: int| 0 <= i < self.files.len() ==> indexed((#[trigger] self.files[i]).items@)
    }

    /// The map of an analysis pass that has not registered anything yet.
    pub fn new() -> (r: CoverageMap)
        ensures
            r@ == Seq::<FileView>::empty(),
    {
        let r = CoverageMap { files: Vec::new() };
        r
    }

    /// The number of registered files.
    pub fn len(&self) -> (r: usize)
        ensures
            r == self@.len(),
    {
        self.files.len()
    }

    /// The file registered at position `i`, with its items as they stand.
    pub fn file(&self, i: usize) -> (r: Option<FileRef<'_>>)
        ensures
            r is Some <==> i < self@.len(),
            r matches Some(file) ==> file@ == self@[i as int] && indexed(file.items@),
    {
        proof {
            use_type_invariant(self);
        }
        if i < self.files.len() {
            let slot = &self.files[i];
            Some(
                FileRef {
                    version: &slot.version,
                    path: &slot.path,
                    text: &slot.text,
                    items: &slot.items,
                },
            )
        } else {
            None
        }
    }

    fn position(&self, version: &CompilerVersion, path: &String) -> (r: Option<usize>)
        ensures
            r is Some <==> registered(self@, version@, path@),
            r matches Some(k) ==> first_at(self@, version@, path@, k as int),
    {
        let mut k: usize = 0;
        while k < self.files.len()
            invariant
                k <= self.files.len(),
                forall|i: int|
                    0 <= i < k ==> !((#[trigger] self@[i]).version == version@ && self@[i].path
                        == path@),
            decreases self.files.len() - k,
        {
            if self.files[k].version.same(version) && self.files[k].path == *path {
                assert(self@[k as int].version == version@ && self@[k as int].path == path@);
                return Some(k);
            }
            k += 1;
        }
        None
    }

    /// Whether the file at `path` is registered under compiler `version`.
    pub fn contains(&self, version: &CompilerVersion, path: &String) -> (r: bool)
        ensures
            r == registered(self@, version@, path@),
    {
        self.position(version, path).is_some()
    }

    /// The items of the file at `path` under compiler `version`, with their
    /// hit counts as they stand.
    pub fn items(&self, version: &CompilerVersion, path: &String) -> (r: Option<&Vec<CoverageItem>>)
        ensures
            r is Some <==> registered(self@, version@, path@),
            r matches Some(items) ==> exists|i: int|
                first_at(self@, version@, path@, i) && (#[trigger] self@[i]).items == items@,
    {
        match self.position(version, path) {
            Some(k) => {
                Some(&self.files[k].items)
            },
            None => None,
        }
    }

    /// Registers the source file at `path` under compiler `version`, unless
    /// that pair is registered already. Says whether the file was added.
    pub fn register_source(&mut self, version: CompilerVersion, path: String, entry: SourceEntry) -> (added:
        bool)
        ensures
            added == !registered(old(self)@, version@, path@),
            final(self)@ == with_source(old(self)@, version@, path@, entry@),
            distinct_keys(final(self)@),
    {
        proof {
            use_type_invariant(&*self);
            use_type_invariant(&entry);
        }
        if self.position(&version, &path).is_some() {
            return false;
        }
        let mut files: Vec<FileSlot> = Vec::new();
        core::mem::swap(&mut self.files, &mut files);
        let SourceEntry { text, items } = entry;
        files.push(FileSlot { version, path, text, items });
        proof {
            let before = old(self)@;
            let after = views(files@);
            assert forall|i: int, j: int| 0 <= i < j < after.len() implies !((
            #[trigger] after[i]).version == (#[trigger] after[j]).version && after[i].path
                == after[j].path) by {
                if j < before.len() {
                    assert(after[i] == before[i] && after[j] == before[j]);
                } else {
                    assert(after[i] == before[i]);
                }
            }
        }
        self.files = files;
        true
    }

    /// Carries the `hits` of one contract instance through `source_map` and
    /// adds them to the items of every file of compiler `version`: each hit
    /// counts for the items that cover the bytes its offset maps to. A hit
    /// whose offset maps to no source, or to bytes that no item covers,
    /// counts for nothing.
    pub fn merge_hits(&mut self, version: &CompilerVersion, source_map: &SourceMap, hits: &Vec<Hit>)
        ensures
            final(self)@ == merged(old(self)@, version@, source_map@, hits@),
            grown(old(self)@, final(self)@),
            distinct_keys(final(self)@),
    {
        proof {
            use_type_invariant(&*self);
        }
        let mut files: Vec<FileSlot> = Vec::new();
        core::mem::swap(&mut self.files, &mut files);
        let ghost start = views(files@);
        proof {
            lemma_merged_nothing(start, version@, source_map@);
            assert(hits@.take(0) == Seq::<Hit>::empty());
        }
        let mut k: usize = 0;
        while k < hits.len()
            invariant
                k <= hits.len(),
                views(files@) == merged(start, version@, source_map@, hits@.take(k as int)),
            decreases hits.len() - k,
        {
            let hit = hits[k];
            proof {
                assert(hits@.take(k + 1) == hits@.take(k as int).push(hit));
                lemma_merged_push(start, version@, source_map@, hits@.take(k as int), hit);
            }
            match source_map.lookup(hit.offset) {
                Some(entry) => {
                    if entry.valid {
                        credit_slots(&mut files, version, entry.range, hit.count);
                    }
                },
                None => {},
            }
            k += 1;
        }
        proof {
            assert(hits@.take(hits.len() as int) == hits@);
            let after = views(files@);
            assert forall|i: int| 0 <= i < files.len() implies indexed(
                (#[trigger] files[i]).items@,
            ) by {
                assert(after[i].items == files[i].items@);
            }
        }
        self.files = files;
    }
}

} // verus!
