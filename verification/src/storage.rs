//! Block Storage Accessor: a typed model of the host's page file for one
//! index.  Content pages hold at most [`BLOCK_CAPACITY`] bytes each; one
//! fixed, well-known metadata block holds the generation counter and the
//! saved index-metadata payload, read and written through a typed header
//! rather than raw pointer arithmetic into the page's special region.
//!
//! Locking discipline is modelled by Rust borrows: a shared page lock
//! corresponds to `&self`, an exclusive page lock to `&mut self`, so a reader
//! can never observe a half-finished mutation.  Durability (write-ahead-log
//! image registration on every mutation) is the host's concern and adds no
//! visible behaviour here.

use vstd::prelude::*;

verus! {

/// Number of content bytes one block can hold (the page's free space outside
/// its header and special region).
pub const BLOCK_CAPACITY: usize = 4096;

/// Typed image of the metadata block: the current generation counter and the
/// most recently saved index-metadata payload.
struct MetadataBlock {
    generation: u64,
    payload: Vec<u8>,
}

/// Block-addressed page store for one index.
pub struct BlockStorage {
    meta: MetadataBlock,
    pages: Vec<Vec<u8>>,
}

impl BlockStorage {
    /// The content bytes of every allocated page, by block id.
    pub closed spec fn pages(&self) -> Seq<Seq<u8>> {
        Seq::new(self.pages@.len(), |i: int| self.pages@[i]@)
    }

    /// The metadata block's generation counter.
    pub closed spec fn generation(&self) -> u64 {
        self.meta.generation
    }

    /// The metadata block's saved payload.
    pub closed spec fn payload(&self) -> Seq<u8> {
        self.meta.payload@
    }

    /// Every page respects the fixed block capacity.
    pub open spec fn wf(&self) -> bool {
        forall|i: int| 0 <= i < self.pages().len() ==> (#[trigger] self.pages()[i]).len()
            <= BLOCK_CAPACITY
    }

    /// A fresh store: no content pages, generation zero, empty payload.
    pub fn new() -> (s: Self)
        ensures
            s.wf(),
            s.pages() =~= Seq::<Seq<u8>>::empty(),
            s.generation() == 0,
            s.payload() =~= Seq::<u8>::empty(),
    {
        BlockStorage { meta: MetadataBlock { generation: 0, payload: Vec::new() }, pages: Vec::new() }
    }

    /// Number of allocated content pages.
    pub fn page_count(&self) -> (n: usize)
        ensures
            n == self.pages().len(),
    {
        self.pages.len()
    }

    /// Allocates a fresh, empty page and returns its block id.
    pub fn allocate_page(&mut self) -> (id: usize)
        requires
            old(self).wf(),
        ensures
            final(self).wf(),
            id == old(self).pages().len(),
            final(self).pages() =~= old(self).pages().push(Seq::<u8>::empty()),
            final(self).generation() == old(self).generation(),
            final(self).payload() == old(self).payload(),
    {
        let id = self.pages.len();
        self.pages.push(Vec::new());
        proof {
            assert(self.pages() =~= old(self).pages().push(Seq::<u8>::empty()));
            assert forall|i: int| 0 <= i < self.pages().len() implies (#[trigger] self.pages()[i]).len()
                <= BLOCK_CAPACITY by {
                if i < old(self).pages().len() {
                    assert(old(self).pages()[i].len() <= BLOCK_CAPACITY);
                }
            }
        }
        id
    }

    /// Overwrites one page's content under an exclusive page lock.
    pub fn write_page(&mut self, id: usize, bytes: Vec<u8>)
        requires
            old(self).wf(),
            id < old(self).pages().len(),
            bytes@.len() <= BLOCK_CAPACITY,
        ensures
            final(self).wf(),
            final(self).pages() =~= old(self).pages().update(id as int, bytes@),
            final(self).generation() == old(self).generation(),
            final(self).payload() == old(self).payload(),
    {
        let slot = &mut self.pages[id];
        *slot = bytes;
        proof {
            assert(self.pages() =~= old(self).pages().update(id as int, bytes@));
            assert forall|i: int| 0 <= i < self.pages().len() implies (#[trigger] self.pages()[i]).len()
                <= BLOCK_CAPACITY by {
                if i != id {
                    assert(old(self).pages()[i].len() <= BLOCK_CAPACITY);
                }
            }
        }
    }

    /// Reads one page's content under a shared page lock.
    pub fn read_page(&self, id: usize) -> (page: &Vec<u8>)
        requires
            id < self.pages().len(),
        ensures
            page@ == self.pages()[id as int],
    {
        &self.pages[id]
    }

    /// Reads the metadata block under a shared page lock: the generation
    /// counter and the saved payload are observed together, from one state,
    /// so no reader ever sees a partially updated pair.
    pub fn read_metadata(&self) -> (r: (u64, &Vec<u8>))
        ensures
            r.0 == self.generation(),
            r.1@ == self.payload(),
    {
        (self.meta.generation, &self.meta.payload)
    }

    /// Replaces the saved payload under an exclusive page lock and advances
    /// the generation counter.  The counter never decreases, so any later
    /// read observes a generation at least as large as any earlier one.
    pub fn write_metadata(&mut self, payload: Vec<u8>)
        requires
            old(self).wf(),
        ensures
            final(self).wf(),
            final(self).pages() == old(self).pages(),
            final(self).payload() == payload@,
            final(self).generation() >= old(self).generation(),
            old(self).generation() < u64::MAX ==> final(self).generation() == old(
                self,
            ).generation() + 1,
    {
        if self.meta.generation < u64::MAX {
            self.meta.generation = self.meta.generation + 1;
        }
        self.meta.payload = payload;
        proof {
            assert(self.pages() =~= old(self).pages());
            assert forall|i: int| 0 <= i < self.pages().len() implies (#[trigger] self.pages()[i]).len()
                <= BLOCK_CAPACITY by {
                assert(old(self).pages()[i].len() <= BLOCK_CAPACITY);
            }
        }
    }
}

} // verus!
