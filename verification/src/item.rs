//! Coverage items: the source-level units whose execution is counted.

use vstd::prelude::*;

verus! {

/// What a coverage item marks in the source.
#[derive(Clone, Copy, Debug, PartialEq, Eq, Structural)]
pub enum ItemKind {
    Statement,
    Branch,
    Line,
}

/// A run of bytes in a source file: `length` bytes from byte `start` on.
#[derive(Clone, Copy, Debug, PartialEq, Eq, Structural)]
pub struct SourceRange {
    pub start: usize,
    pub length: usize,
}

impl SourceRange {
    /// The first byte after the range.
    pub open spec fn end(self) -> int {
        self.start + self.length
    }

    /// Every byte of `inner` lies in `self`.
    pub open spec fn covers(self, inner: SourceRange) -> bool {
        self.start <= inner.start && inner.end() <= self.end()
    }

    pub fn new(start: usize, length: usize) -> (r: SourceRange)
        ensures
            r == (SourceRange { start, length }),
    {
        SourceRange { start, length }
    }

    /// Decides `covers` without leaving `usize`.
    pub fn contains(&self, inner: &SourceRange) -> (r: bool)
        ensures
            r == self.covers(*inner),
    {
        self.start <= inner.start && inner.length <= self.length && inner.start - self.start
            <= self.length - inner.length
    }
}

/// The counter value reached from `hits` after `amount` more executions. A
/// counter never wraps: it stays at `u64::MAX` once it gets there.
pub open spec fn saturated(hits: u64, amount: nat) -> u64 {
    if hits + amount > u64::MAX {
        u64::MAX
    } else {
        (hits + amount) as u64
    }
}

/// One unit of coverage in a source file. `index` is the item's place in the
/// traversal that found it; `hits` counts executions and only ever grows.
#[derive(Clone, Copy, Debug, PartialEq, Eq, Structural)]
pub struct CoverageItem {
    pub kind: ItemKind,
    pub index: usize,
    pub range: SourceRange,
    pub hits: u64,
}

impl CoverageItem {
    /// The same item after `amount` more executions.
    pub open spec fn credited(self, amount: nat) -> CoverageItem {
        CoverageItem { hits: saturated(self.hits, amount), ..self }
    }

    /// A fresh item, not yet executed.
    pub fn new(kind: ItemKind, index: usize, range: SourceRange) -> (r: CoverageItem)
        ensures
            r == (CoverageItem { kind, index, range, hits: 0 }),
    {
        CoverageItem { kind, index, range, hits: 0 }
    }

    /// Counts `count` more executions of the item.
    pub fn add_hits(&mut self, count: u64)
        ensures
            *final(self) == old(self).credited(count as nat),
    {
        self.hits = if count > u64::MAX - self.hits {
            u64::MAX
        } else {
            self.hits + count
        };
    }

    pub fn is_hit(&self) -> (r: bool)
        ensures
            r == (self.hits > 0),
    {
        self.hits > 0
    }
}

/// Crediting in two steps is crediting the sum.
pub proof fn lemma_credited_twice(item: CoverageItem, a: nat, b: nat)
    ensures
        item.credited(a).credited(b) == item.credited(a + b),
{
}

} // verus!
