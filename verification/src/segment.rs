//! Segment Component Reader/Writer: stream abstractions over the catalog.
//! A writer is a sequential append-only sink bound to one logical path; a
//! reader serves random-access byte ranges of one entry's content, which is
//! safe to snapshot because segment files are immutable once written and
//! the page store only ever grows.

use vstd::prelude::*;

use crate::Error;
use crate::catalog::Catalog;
use crate::catalog::DirectoryEntry;
use crate::catalog::entry_content;
use crate::catalog::entry_wf;
use crate::catalog::span_bytes;
use crate::catalog::span_wf;
use crate::catalog::spans_bytes;
use crate::storage::BlockStorage;

verus! {

/// Law: bytes appended to a path and later read back at their own range are
/// returned exactly as written.  A writer's `write_all` grows the content
/// from `prev` to `prev + data`, and a reader's `read_bytes` returns
/// subranges of that content, so reading the appended range yields `data`.
pub proof fn lemma_write_read_round_trip(prev: Seq<u8>, data: Seq<u8>)
    ensures
        (prev + data).subrange(prev.len() as int, (prev + data).len() as int) == data,
{
    assert((prev + data).subrange(prev.len() as int, (prev + data).len() as int) =~= data);
}

/// Sequential append-only writer bound to one logical path.
pub struct SegmentComponentWriter {
    path: String,
}

impl SegmentComponentWriter {
    /// The logical path this writer is bound to.
    pub closed spec fn path(&self) -> Seq<char> {
        self.path@
    }

    /// A writer for `path`.
    pub fn new(path: &String) -> (w: Self)
        ensures
            w.path() == path@,
    {
        SegmentComponentWriter { path: path.clone() }
    }

    /// The writer's path, as a string.
    pub fn path_name(&self) -> (p: &String)
        ensures
            p@ == self.path(),
    {
        &self.path
    }

    /// Appends `data` to the writer's path.  Fails with `InvalidState` once
    /// the path is finalized and with `StorageError` when the grown content
    /// could not be addressed; in either failure nothing changes.
    pub fn write_all(&self, catalog: &mut Catalog, storage: &mut BlockStorage, data: &Vec<u8>) -> (r:
        Result<(), Error>)
        requires
            old(catalog).wf(old(storage).pages()),
            old(storage).wf(),
        ensures
            final(catalog).wf(final(storage).pages()),
            final(storage).wf(),
            final(storage).generation() == old(storage).generation(),
            final(storage).payload() == old(storage).payload(),
            old(storage).pages().len() <= final(storage).pages().len(),
            forall|i: int|
                0 <= i < old(storage).pages().len() ==> final(storage).pages()[i] == old(
                    storage,
                ).pages()[i],
            old(catalog).is_finalized(self.path()) ==> r == Err::<(), Error>(Error::InvalidState)
                && final(catalog).entries() == old(catalog).entries()
                && final(storage).pages() == old(storage).pages(),
            !old(catalog).is_finalized(self.path()) && old(catalog).content(
                old(storage).pages(),
                self.path(),
            ).len() + data@.len() > usize::MAX ==> r == Err::<(), Error>(Error::StorageError)
                && final(catalog).entries() == old(catalog).entries()
                && final(storage).pages() == old(storage).pages(),
            !old(catalog).is_finalized(self.path()) && old(catalog).content(
                old(storage).pages(),
                self.path(),
            ).len() + data@.len() <= usize::MAX ==> {
                &&& r == Ok::<(), Error>(())
                &&& final(catalog).has_path(self.path())
                &&& !final(catalog).is_finalized(self.path())
                &&& final(catalog).content(final(storage).pages(), self.path()) == old(
                    catalog,
                ).content(old(storage).pages(), self.path()) + data@
                &&& forall|q: Seq<char>|
                    q != self.path() ==> #[trigger] final(catalog).has_path(q) == old(
                        catalog,
                    ).has_path(q)
                &&& forall|q: Seq<char>|
                    q != self.path() ==> #[trigger] final(catalog).is_finalized(q) == old(
                        catalog,
                    ).is_finalized(q)
                &&& forall|q: Seq<char>|
                    q != self.path() ==> #[trigger] final(catalog).content(
                        final(storage).pages(),
                        q,
                    ) == old(catalog).content(old(storage).pages(), q)
            },
    {
        catalog.append(storage, &self.path, data)
    }

    /// Finalizes the writer's path: the content becomes immutable and any
    /// later write fails with `InvalidState`.  Fails with `InvalidState`
    /// when the path is already finalized, changing nothing.
    pub fn terminate(self, catalog: &mut Catalog) -> (r: Result<(), Error>)
        requires
            crate::catalog::paths_unique(old(catalog).entries()),
        ensures
            crate::catalog::paths_unique(final(catalog).entries()),
            forall|pages: Seq<Seq<u8>>|
                old(catalog).wf(pages) ==> #[trigger] final(catalog).wf(pages),
            old(catalog).is_finalized(self.path()) ==> r == Err::<(), Error>(Error::InvalidState)
                && final(catalog).entries() == old(catalog).entries(),
            !old(catalog).is_finalized(self.path()) ==> {
                &&& r == Ok::<(), Error>(())
                &&& final(catalog).has_path(self.path())
                &&& final(catalog).is_finalized(self.path())
                &&& forall|pages: Seq<Seq<u8>>|
                    #[trigger] final(catalog).content(pages, self.path()) == old(catalog).content(
                        pages,
                        self.path(),
                    )
                &&& forall|q: Seq<char>|
                    q != self.path() ==> #[trigger] final(catalog).has_path(q) == old(
                        catalog,
                    ).has_path(q)
                &&& forall|q: Seq<char>|
                    q != self.path() ==> #[trigger] final(catalog).is_finalized(q) == old(
                        catalog,
                    ).is_finalized(q)
                &&& forall|q: Seq<char>, pages: Seq<Seq<u8>>|
                    q != self.path() ==> #[trigger] final(catalog).content(pages, q) == old(
                        catalog,
                    ).content(pages, q)
            },
    {
        catalog.finalize(&self.path)
    }
}

/// Random-access reader over one entry's content, holding a snapshot of the
/// entry.  The snapshot stays valid because entries are immutable once
/// finalized and existing pages are never rewritten.
pub struct SegmentComponentReader {
    entry: DirectoryEntry,
}

impl SegmentComponentReader {
    /// The entry snapshot this reader serves.
    pub closed spec fn entry(&self) -> DirectoryEntry {
        self.entry
    }

    /// A reader over `entry`.
    pub fn new(entry: DirectoryEntry) -> (r: Self)
        ensures
            r.entry() == entry,
    {
        SegmentComponentReader { entry }
    }

    /// The whole content of the reader's entry.
    fn read_all(&self, storage: &BlockStorage) -> (v: Vec<u8>)
        requires
            entry_wf(storage.pages(), self.entry()),
        ensures
            v@ == entry_content(storage.pages(), self.entry()),
    {
        let ghost pages = storage.pages();
        let ghost spans = self.entry.spans@;
        let mut acc: Vec<u8> = Vec::new();
        let mut i: usize = 0;
        proof {
            assert(spans.take(0) =~= Seq::<crate::catalog::BlockSpan>::empty());
        }
        while i < self.entry.spans.len()
            invariant
                i <= spans.len(),
                spans == self.entry.spans@,
                pages == storage.pages(),
                entry_wf(storage.pages(), self.entry()),
                self.entry() == self.entry,
                acc@ == spans_bytes(pages, spans.take(i as int)),
            decreases spans.len() - i,
        {
            let s = self.entry.spans[i];
            proof {
                assert(span_wf(pages, spans[i as int]));
            }
            let page = storage.read_page(s.block);
            let mut j: usize = 0;
            let ghost acc_before = acc@;
            while j < s.len
                invariant
                    j <= s.len,
                    s.len <= page@.len(),
                    page@ == pages[s.block as int],
                    acc@ == acc_before + page@.subrange(0, j as int),
                decreases s.len - j,
            {
                acc.push(page[j]);
                proof {
                    assert(acc@ =~= acc_before + page@.subrange(0, j + 1));
                }
                j = j + 1;
            }
            proof {
                assert(spans.take(i + 1).drop_last() =~= spans.take(i as int));
                assert(spans.take(i + 1).last() == spans[i as int]);
                assert(acc@ == spans_bytes(pages, spans.take(i as int)) + span_bytes(
                    pages,
                    spans[i as int],
                ));
            }
            i = i + 1;
        }
        proof {
            assert(spans.take(spans.len() as int) =~= spans);
        }
        acc
    }

    /// Serves the byte range `[start, end)` of the entry's content.  A range
    /// that does not lie inside the stored content is refused as a storage
    /// error.
    pub fn read_bytes(&self, storage: &BlockStorage, start: usize, end: usize) -> (r: Result<
        Vec<u8>,
        Error,
    >)
        requires
            entry_wf(storage.pages(), self.entry()),
        ensures
            start <= end <= self.entry().total_len ==> (r matches Ok(v) && v@ == entry_content(
                storage.pages(),
                self.entry(),
            ).subrange(start as int, end as int)),
            !(start <= end <= self.entry().total_len) ==> r == Err::<Vec<u8>, Error>(
                Error::StorageError,
            ),
    {
        if start > end || end > self.entry.total_len {
            return Err(Error::StorageError);
        }
        let all = self.read_all(storage);
        let mut out: Vec<u8> = Vec::new();
        let mut m: usize = start;
        while m < end
            invariant
                start <= m <= end,
                end <= all@.len(),
                out@ == all@.subrange(start as int, m as int),
            decreases end - m,
        {
            out.push(all[m]);
            proof {
                assert(out@ =~= all@.subrange(start as int, m + 1));
            }
            m = m + 1;
        }
        Ok(out)
    }
}

} // verus!
