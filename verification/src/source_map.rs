//! Source maps: which source bytes each bytecode instruction came from.

use vstd::prelude::*;
use crate::item::SourceRange;

verus! {

/// The jump annotation of a source map element.
#[derive(Clone, Copy, Debug, PartialEq, Eq, Structural)]
pub enum Jump {
    /// The instruction jumps into a function.
    In,
    /// The instruction returns from a function.
    Out,
    /// Any other instruction.
    Regular,
}

/// One decoded element of a compiler source map. The compiler emits one per
/// instruction, in instruction order.
#[derive(Clone, Copy, Debug, PartialEq, Eq)]
pub struct SourceElement {
    pub offset: usize,
    pub length: usize,
    /// The source file's index; `None` for code that stems from no source file.
    pub index: Option<u32>,
    pub jump: Jump,
    pub modifier_depth: usize,
}

/// Maps the instruction offsets `first .. first + count` to a source range.
/// An entry that is not `valid` stands for code without a source.
#[derive(Clone, Copy, Debug, PartialEq, Eq, Structural)]
pub struct SourceMapEntry {
    pub first: usize,
    pub count: usize,
    pub range: SourceRange,
    pub jump: Jump,
    pub valid: bool,
}

impl SourceMapEntry {
    /// One past the last instruction offset of the entry.
    pub open spec fn end(self) -> int {
        self.first + self.count
    }

    /// The entry's run of instruction offsets includes `offset`.
    pub open spec fn holds(self, offset: int) -> bool {
        self.first <= offset < self.end()
    }

    pub fn new(first: usize, count: usize, range: SourceRange, jump: Jump, valid: bool) -> (r:
        SourceMapEntry)
        ensures
            r == (SourceMapEntry { first, count, range, jump, valid }),
    {
        SourceMapEntry { first, count, range, jump, valid }
    }

    pub fn includes(&self, offset: usize) -> (r: bool)
        ensures
            r == self.holds(offset as int),
    {
        self.first <= offset && offset - self.first < self.count
    }
}

/// The runs of `entries` follow one another without overlap.
pub open spec fn ordered(entries: Seq<SourceMapEntry>) -> bool {
    forall|i: int, j: int| 0 <= i < j < entries.len() ==> entries[i].end() <= entries[j].first
}

/// The first entry of `entries` whose run includes `offset`.
pub open spec fn covering(entries: Seq<SourceMapEntry>, offset: int) -> Option<SourceMapEntry>
    decreases entries.len(),
{
    if entries.len() == 0 {
        None
    } else if entries[0].holds(offset) {
        Some(entries[0])
    } else {
        covering(entries.subrange(1, entries.len() as int), offset)
    }
}

/// Where no entry holds `offset`, the search finds none.
pub proof fn lemma_covering_none(entries: Seq<SourceMapEntry>, offset: int)
    requires
        forall|i: int| 0 <= i < entries.len() ==> !entries[i].holds(offset),
    ensures
        covering(entries, offset) is None,
    decreases entries.len(),
{
    if entries.len() > 0 {
        let rest = entries.subrange(1, entries.len() as int);
        lemma_covering_none(rest, offset);
    }
}

/// Where entry `k` holds `offset` and none before it does, the search finds it.
pub proof fn lemma_covering_at(entries: Seq<SourceMapEntry>, offset: int, k: int)
    requires
        0 <= k < entries.len(),
        entries[k].holds(offset),
        forall|i: int| 0 <= i < k ==> !entries[i].holds(offset),
    ensures
        covering(entries, offset) == Some(entries[k]),
    decreases entries.len(),
{
    if k > 0 {
        let rest = entries.subrange(1, entries.len() as int);
        lemma_covering_at(rest, offset, k - 1);
    }
}

/// What the compiler toolchain's decoder makes of a source map in its
/// compressed text form: one element per instruction, or nothing where the
/// text is no source map.
pub uninterp spec fn decoded_elements(text: Seq<char>) -> Option<Seq<SourceElement>>;

/// Calls `ethers::solc::sourcemap::parse`, which decodes the compiler's
/// compressed source map text. Trusted: the result is the decoder's, a function
/// of the text alone, with each element's five fields carried over and a
/// syntax error turned into `None`.
#[verifier::external_body]
fn decode_elements(text: &str) -> (r: Option<Vec<SourceElement>>)
    ensures
        r is Some <==> decoded_elements(text@) is Some,
        r matches Some(v) ==> decoded_elements(text@) == Some(v@),
{
    let parsed = ethers::solc::sourcemap::parse(text).ok()?;
    let mut elements = Vec::new();
    for e in parsed {
        let jump = match e.jump {
            ethers::solc::sourcemap::Jump::In => Jump::In,
            ethers::solc::sourcemap::Jump::Out => Jump::Out,
            ethers::solc::sourcemap::Jump::Regular => Jump::Regular,
        };
        let (offset, length, index, modifier_depth) = (e.offset, e.length, e.index, e.modifier_depth);
        elements.push(SourceElement { offset, length, index, jump, modifier_depth });
    }
    Some(elements)
}

/// The entry that stands for element `i` of a decoded source map: it maps the
/// one instruction `i` to the element's bytes, and is valid where the element
/// names a source file.
pub open spec fn entry_of_element(i: int, element: SourceElement) -> SourceMapEntry {
    SourceMapEntry {
        first: i as usize,
        count: 1,
        range: SourceRange { start: element.offset, length: element.length },
        jump: element.jump,
        valid: element.index is Some,
    }
}

/// The entries that stand for the decoded `elements`, in instruction order.
pub open spec fn entries_of_elements(elements: Seq<SourceElement>) -> Seq<SourceMapEntry> {
    Seq::new(elements.len(), |i: int| entry_of_element(i, elements[i]))
}

/// An offset-ordered source map.
pub struct SourceMap {
    entries: Vec<SourceMapEntry>,
}

impl View for SourceMap {
    type V = Seq<SourceMapEntry>;

    closed spec fn view(&self) -> Seq<SourceMapEntry> {
        self.entries@
    }
}

impl SourceMap {
    #[verifier::type_invariant]
    spec fn well_formed(self) -> bool {
        ordered(self.entries@)
    }

    /// The map without entries, which covers no offset.
    pub fn new() -> (r: SourceMap)
        ensures
            r@ == Seq::<SourceMapEntry>::empty(),
    {
        SourceMap { entries: Vec::new() }
    }

    /// Takes `entries` as a map if their runs are ordered.
    pub fn from_entries(entries: Vec<SourceMapEntry>) -> (r: Option<SourceMap>)
        ensures
            r is Some <==> ordered(entries@),
            r matches Some(m) ==> m@ == entries@,
    {
        let mut k: usize = 1;
        while k < entries.len()
            invariant
                1 <= k,
                forall|i: int, j: int|
                    0 <= i < j < k && j < entries.len() ==> entries[i].end() <= entries[j].first,
            decreases entries.len() - k,
        {
            let prev = entries[k - 1];
            let next = entries[k];
            if !(prev.first <= next.first && prev.count <= next.first - prev.first) {
                return None;
            }
            k += 1;
        }
        Some(SourceMap { entries })
    }

    /// The map of a decoded source map: instruction `i` maps to the bytes of
    /// element `i`.
    pub fn from_elements(elements: &Vec<SourceElement>) -> (r: SourceMap)
        ensures
            r@ == entries_of_elements(elements@),
    {
        let mut entries: Vec<SourceMapEntry> = Vec::new();
        let mut i: usize = 0;
        while i < elements.len()
            invariant
                i <= elements.len(),
                entries@ == entries_of_elements(elements@.take(i as int)),
            decreases elements.len() - i,
        {
            let element = elements[i];
            entries.push(
                SourceMapEntry {
                    first: i,
                    count: 1,
                    range: SourceRange { start: element.offset, length: element.length },
                    jump: element.jump,
                    valid: element.index.is_some(),
                },
            );
            i += 1;
        }
        SourceMap { entries }
    }

    /// Decodes a source map from the compiler's text form; `None` where the
    /// decoder rejects the text.
    pub fn decode(text: &str) -> (r: Option<SourceMap>)
        ensures
            r is Some <==> decoded_elements(text@) is Some,
            r matches Some(m) ==> m@ == entries_of_elements(decoded_elements(text@).unwrap()),
    {
        match decode_elements(text) {
            Some(elements) => Some(SourceMap::from_elements(&elements)),
            None => None,
        }
    }

    pub fn len(&self) -> (r: usize)
        ensures
            r == self@.len(),
    {
        self.entries.len()
    }

    /// The entry at position `i`.
    pub fn entry(&self, i: usize) -> (r: Option<SourceMapEntry>)
        ensures
            r == (if i < self@.len() {
                Some(self@[i as int])
            } else {
                None
            }),
    {
        if i < self.entries.len() {
            Some(self.entries[i])
        } else {
            None
        }
    }

    /// The entry whose run includes `offset`, found by bisection. The runs of
    /// a map are ordered, so no other entry holds the offset.
    pub fn lookup(&self, offset: usize) -> (r: Option<SourceMapEntry>)
        ensures
            r == covering(self@, offset as int),
            ordered(self@),
    {
        proof {
            use_type_invariant(self);
        }
        let mut low: usize = 0;
        let mut high: usize = self.entries.len();
        while low < high
            invariant
                0 <= low <= high <= self.entries.len(),
                ordered(self.entries@),
                forall|i: int| 0 <= i < low ==> self.entries[i].first <= offset,
                forall|i: int| high <= i < self.entries.len() ==> self.entries[i].first > offset,
            decreases high - low,
        {
            let mid = low + (high - low) / 2;
            if self.entries[mid].first <= offset {
                low = mid + 1;
            } else {
                high = mid;
            }
        }
        if low > 0 && self.entries[low - 1].includes(offset) {
            proof {
                lemma_covering_at(self.entries@, offset as int, low - 1);
            }
            Some(self.entries[low - 1])
        } else {
            proof {
                lemma_covering_none(self.entries@, offset as int);
            }
            None
        }
    }
}

} // verus!
