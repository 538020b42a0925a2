//! Directory Entry Catalog: maps a logical segment-component path to an
//! ordered list of block spans plus a small header (total length, finalized
//! flag); owns allocation and growth of per-path storage.
//!
//! Paths are case-sensitive, case-exact strings.  Appending to a path that
//! does not yet exist implicitly creates it; appending after finalize fails
//! with [`Error::InvalidState`].  Garbage collection of unreferenced blocks
//! is deliberately deferred to the host's own vacuum cycle, so
//! [`Catalog::delete_unreferenced`] has no effect here.

use vstd::prelude::*;

use crate::Error;
use crate::storage::BLOCK_CAPACITY;
use crate::storage::BlockStorage;

verus! {

/// One contiguous run of bytes stored in a single block: `len` content bytes
/// at the start of block `block`.
#[derive(Clone, Copy)]
pub struct BlockSpan {
    pub block: usize,
    pub len: usize,
}

/// Catalog entry for one logical segment-component path.  The concatenation
/// of the referenced block byte ranges, in order, is the file's full
/// content; entries are append-only until finalized and immutable after.
pub struct DirectoryEntry {
    pub path: String,
    pub spans: Vec<BlockSpan>,
    pub total_len: usize,
    pub finalized: bool,
}

impl Clone for DirectoryEntry {
    /// An entry's clone carries the same path, spans, length and state.
    fn clone(&self) -> (r: Self)
        ensures
            r.path == self.path,
            r.spans@ == self.spans@,
            r.total_len == self.total_len,
            r.finalized == self.finalized,
    {
        let mut spans: Vec<BlockSpan> = Vec::new();
        let mut i: usize = 0;
        while i < self.spans.len()
            invariant
                i <= self.spans@.len(),
                spans@ == self.spans@.take(i as int),
            decreases self.spans@.len() - i,
        {
            spans.push(self.spans[i]);
            proof {
                assert(spans@ =~= self.spans@.take(i + 1));
            }
            i = i + 1;
        }
        proof {
            assert(spans@ =~= self.spans@);
        }
        DirectoryEntry {
            path: self.path.clone(),
            spans,
            total_len: self.total_len,
            finalized: self.finalized,
        }
    }
}

/// The bytes one span stands for.
pub open spec fn span_bytes(pages: Seq<Seq<u8>>, s: BlockSpan) -> Seq<u8> {
    pages[s.block as int].subrange(0, s.len as int)
}

/// A span references an allocated block and stays inside its content.
pub open spec fn span_wf(pages: Seq<Seq<u8>>, s: BlockSpan) -> bool {
    s.block < pages.len() && s.len <= pages[s.block as int].len()
}

/// The concatenation of the referenced block byte ranges, in order.
pub open spec fn spans_bytes(pages: Seq<Seq<u8>>, spans: Seq<BlockSpan>) -> Seq<u8>
    decreases spans.len(),
{
    if spans.len() == 0 {
        Seq::<u8>::empty()
    } else {
        spans_bytes(pages, spans.drop_last()) + span_bytes(pages, spans.last())
    }
}

/// The full content of one entry.
pub open spec fn entry_content(pages: Seq<Seq<u8>>, e: DirectoryEntry) -> Seq<u8> {
    spans_bytes(pages, e.spans@)
}

/// An entry's spans are all valid and its header length is the content
/// length.
pub open spec fn entry_wf(pages: Seq<Seq<u8>>, e: DirectoryEntry) -> bool {
    &&& forall|i: int| 0 <= i < e.spans@.len() ==> span_wf(pages, #[trigger] e.spans@[i])
    &&& e.total_len == entry_content(pages, e).len()
}

/// Every path occurs at most once in `es`.
pub open spec fn paths_unique(es: Seq<DirectoryEntry>) -> bool {
    forall|i: int, j: int| 0 <= i < j < es.len() ==> es[i].path@ != es[j].path@
}

/// Index of the entry for path `p` in `es`, or `-1` when none exists.
pub open spec fn idx_of(es: Seq<DirectoryEntry>, p: Seq<char>) -> int
    decreases es.len(),
{
    if es.len() == 0 {
        -1
    } else if es.last().path@ == p {
        es.len() - 1
    } else {
        idx_of(es.drop_last(), p)
    }
}

/// `idx_of` stays in range and, when it finds an index, that index carries
/// the path looked for.
pub proof fn lemma_idx_of_props(es: Seq<DirectoryEntry>, p: Seq<char>)
    ensures
        -1 <= idx_of(es, p) < es.len(),
        idx_of(es, p) >= 0 ==> es[idx_of(es, p)].path@ == p,
    decreases es.len(),
{
    if es.len() > 0 && es.last().path@ != p {
        lemma_idx_of_props(es.drop_last(), p);
    }
}

/// When every path in `es` occurs once, `idx_of` finds exactly the index
/// that carries it.
pub proof fn lemma_idx_of_unique(es: Seq<DirectoryEntry>, p: Seq<char>, k: int)
    requires
        paths_unique(es),
        0 <= k < es.len(),
        es[k].path@ == p,
    ensures
        idx_of(es, p) == k,
    decreases es.len(),
{
    if es.last().path@ == p {
        assert(k == es.len() - 1);
    } else {
        assert(k < es.len() - 1);
        lemma_idx_of_unique(es.drop_last(), p, k);
    }
}

/// Appending an entry leaves the index of every other path unchanged.
pub proof fn lemma_idx_of_push(es: Seq<DirectoryEntry>, e: DirectoryEntry, p: Seq<char>)
    ensures
        idx_of(es.push(e), p) == if e.path@ == p {
            es.len() as int
        } else {
            idx_of(es, p)
        },
{
    assert(es.push(e).drop_last() =~= es);
    assert(es.push(e).last() == e);
}

/// Replacing an entry with one that carries the same path leaves the index
/// of every path unchanged.
pub proof fn lemma_idx_of_update_same_path(
    es: Seq<DirectoryEntry>,
    k: int,
    e2: DirectoryEntry,
    p: Seq<char>,
)
    requires
        0 <= k < es.len(),
        e2.path@ == es[k].path@,
    ensures
        idx_of(es.update(k, e2), p) == idx_of(es, p),
    decreases es.len(),
{
    let es2 = es.update(k, e2);
    if k == es.len() - 1 {
        assert(es2.last() == e2);
        assert(es2.last().path@ == es.last().path@);
        if es.last().path@ != p {
            assert(es2.drop_last() =~= es.drop_last());
        }
    } else {
        assert(es2.last() == es.last());
        if es.last().path@ != p {
            assert(es2.drop_last() =~= es.drop_last().update(k, e2));
            lemma_idx_of_update_same_path(es.drop_last(), k, e2, p);
        }
    }
}

/// Extending the page store (new pages appended, existing pages untouched)
/// changes neither the validity nor the bytes of existing spans.
pub proof fn lemma_spans_bytes_frame(
    pages1: Seq<Seq<u8>>,
    pages2: Seq<Seq<u8>>,
    spans: Seq<BlockSpan>,
)
    requires
        pages1.len() <= pages2.len(),
        forall|i: int| 0 <= i < pages1.len() ==> pages2[i] == pages1[i],
        forall|i: int| 0 <= i < spans.len() ==> span_wf(pages1, #[trigger] spans[i]),
    ensures
        forall|i: int| 0 <= i < spans.len() ==> span_wf(pages2, #[trigger] spans[i]),
        spans_bytes(pages2, spans) == spans_bytes(pages1, spans),
    decreases spans.len(),
{
    if spans.len() > 0 {
        lemma_spans_bytes_frame(pages1, pages2, spans.drop_last());
        assert(span_wf(pages1, spans.last()));
        assert(span_bytes(pages2, spans.last()) == span_bytes(pages1, spans.last()));
    }
}

/// The in-page catalog of directory entries.
pub struct Catalog {
    entries: Vec<DirectoryEntry>,
}

impl Catalog {
    /// The catalog's entries, in insertion order.
    pub closed spec fn entries(&self) -> Seq<DirectoryEntry> {
        self.entries@
    }

    /// Whether an entry exists for path `p`.
    pub open spec fn has_path(&self, p: Seq<char>) -> bool {
        idx_of(self.entries(), p) >= 0
    }

    /// The entry for path `p` (meaningful only when `has_path(p)`).
    pub open spec fn entry_for(&self, p: Seq<char>) -> DirectoryEntry {
        self.entries()[idx_of(self.entries(), p)]
    }

    /// The content of path `p`: the concatenation of its block ranges, or
    /// empty when no entry exists.
    pub open spec fn content(&self, pages: Seq<Seq<u8>>, p: Seq<char>) -> Seq<u8> {
        if self.has_path(p) {
            entry_content(pages, self.entry_for(p))
        } else {
            Seq::<u8>::empty()
        }
    }

    /// Whether path `p` has been finalized.
    pub open spec fn is_finalized(&self, p: Seq<char>) -> bool {
        self.has_path(p) && self.entry_for(p).finalized
    }

    /// Every entry is well formed against `pages` and every path occurs at
    /// most once.
    pub open spec fn wf(&self, pages: Seq<Seq<u8>>) -> bool {
        &&& forall|i: int|
            0 <= i < self.entries().len() ==> entry_wf(pages, #[trigger] self.entries()[i])
        &&& paths_unique(self.entries())
    }

    /// An empty catalog.
    pub fn new() -> (c: Self)
        ensures
            c.entries() =~= Seq::<DirectoryEntry>::empty(),
            forall|pages: Seq<Seq<u8>>| c.wf(pages),
            forall|p: Seq<char>| !c.has_path(p),
    {
        let c = Catalog { entries: Vec::new() };
        proof {
            assert forall|p: Seq<char>| !c.has_path(p) by {
                lemma_idx_of_props(c.entries(), p);
            }
        }
        c
    }

    /// Position of the entry for `path`, when one exists.
    fn find(&self, path: &String) -> (r: Option<usize>)
        requires
            paths_unique(self.entries()),
        ensures
            match r {
                Some(k) => k == idx_of(self.entries(), path@) && k < self.entries().len(),
                None => idx_of(self.entries(), path@) == -1,
            },
    {
        let n = self.entries.len();
        let mut i: usize = 0;
        while i < n
            invariant
                n == self.entries().len(),
                i <= n,
                paths_unique(self.entries()),
                forall|j: int| 0 <= j < i ==> (#[trigger] self.entries()[j]).path@ != path@,
            decreases n - i,
        {
            if self.entries[i].path == *path {
                proof {
                    lemma_idx_of_unique(self.entries(), path@, i as int);
                }
                return Some(i);
            }
            i = i + 1;
        }
        proof {
            lemma_idx_of_props(self.entries(), path@);
        }
        None
    }

    /// Looks up the entry for `path`.
    pub fn lookup(&self, path: &String) -> (r: Option<&DirectoryEntry>)
        requires
            paths_unique(self.entries()),
        ensures
            r is Some <==> self.has_path(path@),
            r matches Some(e) ==> *e == self.entry_for(path@),
    {
        match self.find(path) {
            Some(k) => Some(&self.entries[k]),
            None => None,
        }
    }

    /// Appends `data` to the content of `path`, creating the entry when none
    /// exists yet.  Fails with `InvalidState` when the path is finalized and
    /// with `StorageError` when the grown content could not be addressed;
    /// in either failure nothing changes.  On success the path's content is
    /// its old content followed by `data`, and no other path is touched.
    pub fn append(&mut self, storage: &mut BlockStorage, path: &String, data: &Vec<u8>) -> (r:
        Result<(), Error>)
        requires
            old(self).wf(old(storage).pages()),
            old(storage).wf(),
        ensures
            final(self).wf(final(storage).pages()),
            final(storage).wf(),
            final(storage).generation() == old(storage).generation(),
            final(storage).payload() == old(storage).payload(),
            old(storage).pages().len() <= final(storage).pages().len(),
            forall|i: int|
                0 <= i < old(storage).pages().len() ==> final(storage).pages()[i] == old(storage).pages()[i],
            old(self).is_finalized(path@) ==> r == Err::<(), Error>(Error::InvalidState)
                && final(self).entries() == old(self).entries()
                && final(storage).pages() == old(storage).pages(),
            !old(self).is_finalized(path@) && old(self).content(old(storage).pages(), path@).len()
                + data@.len() > usize::MAX ==> r == Err::<(), Error>(Error::StorageError)
                && final(self).entries() == old(self).entries()
                && final(storage).pages() == old(storage).pages(),
            !old(self).is_finalized(path@) && old(self).content(old(storage).pages(), path@).len()
                + data@.len() <= usize::MAX ==> {
                &&& r == Ok::<(), Error>(())
                &&& final(self).has_path(path@)
                &&& !final(self).is_finalized(path@)
                &&& final(self).content(final(storage).pages(), path@) == old(self).content(
                    old(storage).pages(),
                    path@,
                ) + data@
                &&& forall|q: Seq<char>|
                    q != path@ ==> #[trigger] final(self).has_path(q) == old(self).has_path(q)
                &&& forall|q: Seq<char>|
                    q != path@ ==> #[trigger] final(self).is_finalized(q) == old(self).is_finalized(q)
                &&& forall|q: Seq<char>|
                    q != path@ ==> #[trigger] final(self).content(final(storage).pages(), q)
                        == old(self).content(old(storage).pages(), q)
            },
    {
        let k: usize;
        match self.find(path) {
            Some(i) => {
                proof {
                    lemma_idx_of_props(self.entries(), path@);
                }
                if self.entries[i].finalized {
                    return Err(Error::InvalidState);
                }
                k = i;
            },
            None => {
                k = self.entries.len();
                let e = DirectoryEntry {
                    path: path.clone(),
                    spans: Vec::new(),
                    total_len: 0,
                    finalized: false,
                };
                self.entries.push(e);
                proof {
                    let es0 = old(self).entries();
                    let es1 = self.entries@;
                    assert forall|i: int, j: int|
                        0 <= i < j < es1.len() implies es1[i].path@ != es1[j].path@ by {
                        if j == es1.len() - 1 {
                            if es0[i].path@ == path@ {
                                lemma_idx_of_unique(es0, path@, i);
                            }
                        }
                    }
                    assert forall|i: int|
                        0 <= i < es1.len() implies entry_wf(
                        storage.pages(),
                        #[trigger] es1[i],
                    ) by {
                        if i < es0.len() {
                            assert(entry_wf(storage.pages(), es0[i]));
                        } else {
                            assert(es1[i].spans@.len() == 0);
                        }
                    }
                }
            },
        }
        proof {
            lemma_idx_of_unique(self.entries@, path@, k as int);
            assert(entry_wf(storage.pages(), self.entries@[k as int]));
        }
        let cur = self.entries[k].total_len;
        if data.len() > usize::MAX - cur {
            proof {
                // only an existing entry can overflow, so nothing was pushed
                assert(old(self).has_path(path@));
            }
            return Err(Error::StorageError);
        }
        let ghost entries1 = self.entries@;
        let ghost pages1 = storage.pages();
        let ghost content0 = old(self).content(old(storage).pages(), path@);
        proof {
            assert(entry_content(pages1, entries1[k as int]) == content0);
            assert(entries1[k as int].total_len == content0.len());
        }
        let mut off: usize = 0;
        while off < data.len()
            invariant
                off <= data@.len(),
                k < self.entries@.len(),
                self.entries@.len() == entries1.len(),
                forall|i: int|
                    0 <= i < entries1.len() && i != k ==> #[trigger] self.entries@[i] == entries1[i],
                self.entries@[k as int].path@ == path@,
                self.entries@[k as int].finalized == false,
                entries1[k as int].total_len == content0.len(),
                entries1[k as int].total_len + data@.len() <= usize::MAX,
                self.entries@[k as int].total_len == entries1[k as int].total_len + off,
                storage.wf(),
                self.wf(storage.pages()),
                pages1.len() <= storage.pages().len(),
                forall|i: int| 0 <= i < pages1.len() ==> #[trigger] storage.pages()[i] == pages1[i],
                storage.generation() == old(storage).generation(),
                storage.payload() == old(storage).payload(),
                entry_content(storage.pages(), self.entries@[k as int]) == content0
                    + data@.subrange(0, off as int),
            decreases data@.len() - off,
        {
            let remaining = data.len() - off;
            let take = if remaining < BLOCK_CAPACITY {
                remaining
            } else {
                BLOCK_CAPACITY
            };
            let n = data.len();
            let mut chunk: Vec<u8> = Vec::new();
            let mut j: usize = 0;
            while j < take
                invariant
                    j <= take,
                    n == data@.len(),
                    off + take <= n,
                    chunk@ == data@.subrange(off as int, off + j),
                decreases take - j,
            {
                chunk.push(data[off + j]);
                proof {
                    assert(chunk@ =~= data@.subrange(off as int, off + j + 1));
                }
                j = j + 1;
            }
            let ghost chunk_bytes = chunk@;
            let ghost pages_pre = storage.pages();
            let ghost entry_pre = self.entries@[k as int];
            let id = storage.allocate_page();
            storage.write_page(id, chunk);
            proof {
                let pages_post = storage.pages();
                assert(pages_post[id as int] == chunk_bytes);
                assert forall|i: int|
                    0 <= i < pages_pre.len() implies #[trigger] pages_post[i] == pages_pre[i] by {}
            }
            let entry = &mut self.entries[k];
            entry.spans.push(BlockSpan { block: id, len: take });
            entry.total_len = entry.total_len + take;
            off = off + take;
            proof {
                let pages_post = storage.pages();
                let e2 = self.entries@[k as int];
                let s = BlockSpan { block: id, len: take };
                assert(e2.spans@ == entry_pre.spans@.push(s));
                assert(e2.spans@.drop_last() =~= entry_pre.spans@);
                assert(e2.spans@.last() == s);
                // the old spans keep their bytes in the grown page store
                lemma_spans_bytes_frame(pages_pre, pages_post, entry_pre.spans@);
                assert(span_bytes(pages_post, s) == chunk_bytes);
                assert(entry_content(pages_post, e2) == entry_content(pages_pre, entry_pre)
                    + chunk_bytes);
                assert(data@.subrange(0, off as int) =~= data@.subrange(0, off - take) + chunk_bytes);
                // every other entry is untouched and keeps its bytes
                assert forall|i: int|
                    0 <= i < self.entries@.len() implies entry_wf(
                    pages_post,
                    #[trigger] self.entries@[i],
                ) by {
                    if i != k {
                        assert(entry_wf(pages_pre, self.entries@[i]));
                        lemma_spans_bytes_frame(pages_pre, pages_post, self.entries@[i].spans@);
                    } else {
                        assert(entry_wf(pages_pre, entry_pre));
                    }
                }
                assert(paths_unique(self.entries@));
            }
        }
        proof {
            let es_fin = self.entries@;
            let pages_fin = storage.pages();
            lemma_idx_of_unique(es_fin, path@, k as int);
            assert(data@.subrange(0, data@.len() as int) =~= data@);
            assert(self.content(pages_fin, path@) == content0 + data@);
            // relate the final state to the state before the call, path by path
            assert forall|q: Seq<char>| q != path@ implies #[trigger] self.has_path(q) == old(self).has_path(q) && self.is_finalized(q) == old(self).is_finalized(q) && self.content(
                pages_fin,
                q,
            ) == old(self).content(old(storage).pages(), q) by {
                let es0 = old(self).entries();
                assert(es_fin =~= entries1.update(k as int, es_fin[k as int]));
                lemma_idx_of_update_same_path(entries1, k as int, es_fin[k as int], q);
                if entries1.len() > es0.len() {
                    // the entry for `path` was created by this call
                    assert(entries1 =~= es0.push(entries1[entries1.len() - 1]));
                    lemma_idx_of_push(es0, entries1[entries1.len() - 1], q);
                }
                lemma_idx_of_props(es0, q);
                if old(self).has_path(q) {
                    let m = idx_of(es0, q);
                    assert(es_fin[m] == es0[m]);
                    assert(entry_wf(old(storage).pages(), es0[m]));
                    lemma_spans_bytes_frame(old(storage).pages(), pages_fin, es0[m].spans@);
                }
            }
        }
        Ok(())
    }

    /// Marks `path` as finalized, creating an empty entry when none exists
    /// yet.  Fails with `InvalidState` when the path is already finalized,
    /// changing nothing.  Content is never altered.
    pub fn finalize(&mut self, path: &String) -> (r: Result<(), Error>)
        requires
            paths_unique(old(self).entries()),
        ensures
            paths_unique(final(self).entries()),
            forall|pages: Seq<Seq<u8>>|
                old(self).wf(pages) ==> #[trigger] final(self).wf(pages),
            old(self).is_finalized(path@) ==> r == Err::<(), Error>(Error::InvalidState) && final(self).entries() == old(self).entries(),
            !old(self).is_finalized(path@) ==> {
                &&& r == Ok::<(), Error>(())
                &&& final(self).has_path(path@)
                &&& final(self).is_finalized(path@)
                &&& forall|pages: Seq<Seq<u8>>|
                    #[trigger] final(self).content(pages, path@) == old(self).content(pages, path@)
                &&& forall|q: Seq<char>|
                    q != path@ ==> #[trigger] final(self).has_path(q) == old(self).has_path(q)
                &&& forall|q: Seq<char>|
                    q != path@ ==> #[trigger] final(self).is_finalized(q) == old(self).is_finalized(q)
                &&& forall|q: Seq<char>, pages: Seq<Seq<u8>>|
                    q != path@ ==> #[trigger] final(self).content(pages, q) == old(self).content(
                        pages,
                        q,
                    )
            },
    {
        let k: usize;
        match self.find(path) {
            Some(i) => {
                proof {
                    lemma_idx_of_props(self.entries(), path@);
                }
                if self.entries[i].finalized {
                    return Err(Error::InvalidState);
                }
                k = i;
            },
            None => {
                k = self.entries.len();
                let e = DirectoryEntry {
                    path: path.clone(),
                    spans: Vec::new(),
                    total_len: 0,
                    finalized: false,
                };
                self.entries.push(e);
                proof {
                    let es0 = old(self).entries();
                    let es1 = self.entries@;
                    assert forall|i: int, j: int|
                        0 <= i < j < es1.len() implies es1[i].path@ != es1[j].path@ by {
                        if j == es1.len() - 1 {
                            if es0[i].path@ == path@ {
                                lemma_idx_of_unique(es0, path@, i);
                            }
                        }
                    }
                }
            },
        }
        let ghost entries1 = self.entries@;
        let entry = &mut self.entries[k];
        entry.finalized = true;
        proof {
            let es0 = old(self).entries();
            let es_fin = self.entries@;
            assert(es_fin == entries1.update(k as int, es_fin[k as int]));
            assert(es_fin[k as int].path@ == path@);
            assert forall|i: int, j: int|
                0 <= i < j < es_fin.len() implies es_fin[i].path@ != es_fin[j].path@ by {
                assert(entries1[i].path@ != entries1[j].path@);
            }
            lemma_idx_of_unique(es_fin, path@, k as int);
            assert forall|pages: Seq<Seq<u8>>| old(self).wf(pages) implies #[trigger] self.wf(
                pages,
            ) by {
                assert forall|i: int|
                    0 <= i < es_fin.len() implies entry_wf(pages, #[trigger] es_fin[i]) by {
                    if i != k {
                        assert(entry_wf(pages, es0[i]));
                    } else if k < es0.len() {
                        assert(entry_wf(pages, es0[k as int]));
                        assert(es_fin[i].spans@ == es0[k as int].spans@);
                    } else {
                        assert(es_fin[i].spans@.len() == 0);
                    }
                }
            }
            assert forall|q: Seq<char>| q != path@ implies #[trigger] self.has_path(q) == old(self).has_path(q) && self.is_finalized(q) == old(self).is_finalized(q) && forall|
                pages: Seq<Seq<u8>>,
            |
                #[trigger] self.content(pages, q) == old(self).content(pages, q) by {
                lemma_idx_of_update_same_path(entries1, k as int, es_fin[k as int], q);
                if entries1.len() > es0.len() {
                    assert(entries1 =~= es0.push(entries1[entries1.len() - 1]));
                    lemma_idx_of_push(es0, entries1[entries1.len() - 1], q);
                }
                lemma_idx_of_props(es0, q);
            }
        }
        Ok(())
    }

    /// Deferred garbage collection: unreferenced blocks are reclaimed by the
    /// host's own vacuum cycle, never eagerly here, so this changes nothing.
    pub fn delete_unreferenced(&mut self)
        ensures
            final(self).entries() == old(self).entries(),
    {
    }
}

} // verus!
