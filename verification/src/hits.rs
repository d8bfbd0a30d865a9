//! Raw execution evidence: how often each instruction offset ran.

use vstd::prelude::*;
use crate::identity::Address;

verus! {

/// `count` executions of the instruction at `offset`.
#[derive(Clone, Copy, Debug, PartialEq, Eq, Structural)]
pub struct Hit {
    pub offset: usize,
    pub count: u64,
}

impl Hit {
    pub fn new(offset: usize, count: u64) -> (r: Hit)
        ensures
            r == (Hit { offset, count }),
    {
        Hit { offset, count }
    }
}

/// How often `hits` say the instruction at `offset` ran, all told.
pub open spec fn total_at(hits: Seq<Hit>, offset: int) -> nat
    decreases hits.len(),
{
    if hits.len() == 0 {
        0
    } else {
        total_at(hits.drop_last(), offset) + if hits.last().offset == offset {
            hits.last().count as nat
        } else {
            0
        }
    }
}

/// The hits recorded at one address.
pub struct AddressHits {
    pub address: Address,
    pub hits: Seq<Hit>,
}

/// Whether `records` hold hits for `address`.
pub open spec fn has_address(records: Seq<AddressHits>, address: Address) -> bool {
    exists|i: int| 0 <= i < records.len() && #[trigger] records[i].address == address
}

/// The hits that `records` hold for `address`; none where there is no record.
pub open spec fn hits_of(records: Seq<AddressHits>, address: Address) -> Seq<Hit>
    decreases records.len(),
{
    if records.len() == 0 {
        Seq::empty()
    } else if records[0].address == address {
        records[0].hits
    } else {
        hits_of(records.subrange(1, records.len() as int), address)
    }
}

/// No address has two records.
pub open spec fn distinct_addresses(records: Seq<AddressHits>) -> bool {
    forall|i: int, j: int|
        0 <= i < j < records.len() ==> (#[trigger] records[i]).address != (
        #[trigger] records[j]).address
}

/// `records` after one more hit at `address`.
pub open spec fn recorded(records: Seq<AddressHits>, address: Address, hit: Hit) -> Seq<
    AddressHits,
> {
    if has_address(records, address) {
        Seq::new(
            records.len(),
            |i: int|
                if records[i].address == address {
                    AddressHits { address, hits: records[i].hits.push(hit) }
                } else {
                    records[i]
                },
        )
    } else {
        records.push(AddressHits { address, hits: seq![hit] })
    }
}

/// Where record `k` is the first for `address`, its hits are the address's.
pub proof fn lemma_hits_of_at(records: Seq<AddressHits>, address: Address, k: int)
    requires
        0 <= k < records.len(),
        records[k].address == address,
        forall|i: int| 0 <= i < k ==> records[i].address != address,
    ensures
        hits_of(records, address) == records[k].hits,
    decreases records.len(),
{
    if k > 0 {
        let rest = records.subrange(1, records.len() as int);
        lemma_hits_of_at(rest, address, k - 1);
    }
}

/// An address without a record has no hits.
pub proof fn lemma_hits_of_absent(records: Seq<AddressHits>, address: Address)
    requires
        !has_address(records, address),
    ensures
        hits_of(records, address) == Seq::<Hit>::empty(),
    decreases records.len(),
{
    if records.len() > 0 {
        let rest = records.subrange(1, records.len() as int);
        lemma_hits_of_absent(rest, address);
    }
}

struct Record {
    address: Address,
    hits: Vec<Hit>,
}

/// The execution evidence of one test: for each contract address that ran,
/// the hits of its instructions.
pub struct HitMap {
    records: Vec<Record>,
}

impl View for HitMap {
    type V = Seq<AddressHits>;

    closed spec fn view(&self) -> Seq<AddressHits> {
        Seq::new(
            self.records.len() as nat,
            |i: int| AddressHits { address: self.records[i].address, hits: self.records[i].hits@ },
        )
    }
}

impl HitMap {
    #[verifier::type_invariant]
    spec fn well_formed(self) -> bool {
        forall|i: int, j: int|
            0 <= i < j < self.records.len() ==> (#[trigger] self.records[i]).address != (
            #[trigger] self.records[j]).address
    }

    /// The evidence of a test in which nothing ran.
    pub fn new() -> (r: HitMap)
        ensures
            r@ == Seq::<AddressHits>::empty(),
    {
        let r = HitMap { records: Vec::new() };
        r
    }

    fn position(&self, address: Address) -> (r: Option<usize>)
        ensures
            r is Some <==> has_address(self@, address),
            r matches Some(k) ==> k < self@.len() && self@[k as int].address == address
                && self.records[k as int].hits@ == hits_of(self@, address),
            r is None ==> hits_of(self@, address) == Seq::<Hit>::empty(),
    {
        let mut k: usize = 0;
        while k < self.records.len()
            invariant
                k <= self.records.len(),
                forall|i: int| 0 <= i < k ==> self@[i].address != address,
            decreases self.records.len() - k,
        {
            if self.records[k].address == address {
                proof {
                    lemma_hits_of_at(self@, address, k as int);
                }
                return Some(k);
            }
            k += 1;
        }
        proof {
            lemma_hits_of_absent(self@, address);
        }
        None
    }

    /// Adds `count` executions of the instruction at `offset` of the contract
    /// at `address`.
    pub fn record(&mut self, address: Address, offset: usize, count: u64)
        ensures
            final(self)@ == recorded(old(self)@, address, (Hit { offset, count })),
            distinct_addresses(final(self)@),
    {
        proof {
            use_type_invariant(&*self);
        }
        let found = self.position(address);
        let mut records: Vec<Record> = Vec::new();
        core::mem::swap(&mut self.records, &mut records);
        match found {
            Some(k) => {
                records[k].hits.push(Hit { offset, count });
            },
            None => {
                let mut hits: Vec<Hit> = Vec::new();
                hits.push(Hit { offset, count });
                records.push(Record { address, hits });
            },
        }
        proof {
            let before = old(self).records@;
            assert forall|i: int, j: int| 0 <= i < j < records.len() implies (
            #[trigger] records[i]).address != (#[trigger] records[j]).address by {
                if j >= before.len() {
                    assert(old(self)@[i].address == before[i].address);
                }
            }
        }
        self.records = records;
    }

    /// Whether anything was recorded at `address`.
    pub fn contains(&self, address: Address) -> (r: bool)
        ensures
            r == has_address(self@, address),
    {
        self.position(address).is_some()
    }

    /// The hits recorded at `address`, if there are any.
    pub fn get(&self, address: Address) -> (r: Option<&Vec<Hit>>)
        ensures
            r is Some <==> has_address(self@, address),
            r matches Some(hits) ==> hits@ == hits_of(self@, address),
    {
        match self.position(address) {
            Some(k) => Some(&self.records[k].hits),
            None => None,
        }
    }
}

} // verus!
