//! Blocking Directory Adapter: implements the index library's directory
//! capability set directly against the catalog and the block storage
//! accessor, usable synchronously from a single thread.  It also exposes the
//! managed-file list and the metadata save/load primitives used for catalog
//! bookkeeping.
//!
//! Several capabilities are deliberately degenerate: `delete` succeeds with
//! no effect and `file_exists` always reports true, so that the index
//! library's own garbage collection never runs and cleanup is driven by the
//! host's vacuum cycle instead; `atomic_write`/`atomic_read` and `watch` are
//! contract violations because this adapter owns metadata save/load itself;
//! `acquire_lock` always succeeds because the host enforces the
//! single-writer discipline; `sync_directory` succeeds with no effect
//! because durability is the host write-ahead log's concern.

use vstd::prelude::*;

use crate::Error;
use crate::catalog::Catalog;
use crate::catalog::DirectoryEntry;
use crate::catalog::entry_wf;
use crate::segment::SegmentComponentReader;
use crate::segment::SegmentComponentWriter;
use crate::storage::BlockStorage;

verus! {

/// The set of paths a list of managed files stands for.
pub open spec fn path_set(files: Seq<String>) -> Set<Seq<char>>
    decreases files.len(),
{
    if files.len() == 0 {
        Set::<Seq<char>>::empty()
    } else {
        path_set(files.drop_last()).insert(files.last()@)
    }
}

/// Membership in `path_set` is exactly membership in the list.
pub proof fn lemma_path_set_contains(files: Seq<String>, p: Seq<char>)
    ensures
        path_set(files).contains(p) <==> exists|i: int|
            0 <= i < files.len() && (#[trigger] files[i])@ == p,
    decreases files.len(),
{
    if files.len() > 0 {
        lemma_path_set_contains(files.drop_last(), p);
        if files.last()@ == p {
            assert(files[files.len() - 1]@ == p);
        } else if exists|i: int| 0 <= i < files.len() && (#[trigger] files[i])@ == p {
            let i = choose|i: int| 0 <= i < files.len() && (#[trigger] files[i])@ == p;
            assert(files.drop_last()[i] == files[i]);
        }
    }
}

/// Finds whether a path occurs in a list of files.
fn contains_path(list: &Vec<String>, f: &String) -> (r: bool)
    ensures
        r == path_set(list@).contains(f@),
{
    proof {
        lemma_path_set_contains(list@, f@);
    }
    let n = list.len();
    let mut i: usize = 0;
    while i < n
        invariant
            n == list@.len(),
            i <= n,
            forall|j: int| 0 <= j < i ==> (#[trigger] list@[j])@ != f@,
        decreases n - i,
    {
        if list[i] == *f {
            proof {
                assert(list@[i as int]@ == f@);
                lemma_path_set_contains(list@, f@);
            }
            return true;
        }
        i = i + 1;
    }
    false
}

/// Direct, single-threaded implementation of the directory capability set,
/// owning the block storage, the catalog and the managed-file list.
pub struct BlockingDirectory {
    storage: BlockStorage,
    catalog: Catalog,
    managed: Vec<String>,
}

impl BlockingDirectory {
    /// The content pages of the underlying store.
    pub closed spec fn pages(&self) -> Seq<Seq<u8>> {
        self.storage.pages()
    }

    /// The metadata block's generation counter.
    pub closed spec fn generation(&self) -> u64 {
        self.storage.generation()
    }

    /// The metadata block's saved payload.
    pub closed spec fn payload(&self) -> Seq<u8> {
        self.storage.payload()
    }

    /// The set of managed file paths.
    pub closed spec fn managed(&self) -> Set<Seq<char>> {
        path_set(self.managed@)
    }

    /// Whether a catalog entry exists for path `p`.
    pub closed spec fn has_path(&self, p: Seq<char>) -> bool {
        self.catalog.has_path(p)
    }

    /// The content of path `p` (empty when no entry exists).
    pub closed spec fn content(&self, p: Seq<char>) -> Seq<u8> {
        self.catalog.content(self.storage.pages(), p)
    }

    /// Whether path `p` has been finalized.
    pub closed spec fn is_finalized(&self, p: Seq<char>) -> bool {
        self.catalog.is_finalized(p)
    }

    /// The catalog entry for path `p` (meaningful only when `has_path(p)`).
    pub closed spec fn entry_of(&self, p: Seq<char>) -> DirectoryEntry {
        self.catalog.entry_for(p)
    }

    /// The storage, catalog and managed list are all well formed.
    pub closed spec fn wf(&self) -> bool {
        &&& self.storage.wf()
        &&& self.catalog.wf(self.storage.pages())
        &&& forall|i: int, j: int|
            0 <= i < j < self.managed@.len() ==> (#[trigger] self.managed@[i])@ != (
            #[trigger] self.managed@[j])@
    }

    /// A fresh adapter over empty storage: no entries, no managed files,
    /// generation zero.
    pub fn new() -> (d: Self)
        ensures
            d.wf(),
            d.generation() == 0,
            d.payload() =~= Seq::<u8>::empty(),
            d.managed() =~= Set::<Seq<char>>::empty(),
            forall|p: Seq<char>| !d.has_path(p),
            forall|p: Seq<char>| #[trigger] d.content(p) == Seq::<u8>::empty(),
            forall|p: Seq<char>| !d.is_finalized(p),
    {
        let d = BlockingDirectory {
            storage: BlockStorage::new(),
            catalog: Catalog::new(),
            managed: Vec::new(),
        };
        d
    }

    /// An append-only writer for `path`; the entry itself is created lazily
    /// by the first write.
    pub fn open_write(&self, path: &String) -> (w: SegmentComponentWriter)
        ensures
            w.path() == path@,
    {
        SegmentComponentWriter::new(path)
    }

    /// Appends `data` through `w` to its path.  Fails with `InvalidState`
    /// once the path is finalized and with `StorageError` when the grown
    /// content could not be addressed; in either failure nothing changes.
    pub fn write_with(&mut self, w: &SegmentComponentWriter, data: &Vec<u8>) -> (r: Result<
        (),
        Error,
    >)
        requires
            old(self).wf(),
        ensures
            final(self).wf(),
            final(self).generation() == old(self).generation(),
            final(self).payload() == old(self).payload(),
            final(self).managed() == old(self).managed(),
            old(self).pages().len() <= final(self).pages().len(),
            forall|i: int|
                0 <= i < old(self).pages().len() ==> final(self).pages()[i] == old(self).pages()[i],
            old(self).is_finalized(w.path()) ==> r == Err::<(), Error>(Error::InvalidState)
                && final(self).pages() == old(self).pages(),
            !old(self).is_finalized(w.path()) && old(self).content(w.path()).len() + data@.len()
                > usize::MAX ==> r == Err::<(), Error>(Error::StorageError) && final(self).pages()
                == old(self).pages(),
            !old(self).is_finalized(w.path()) && old(self).content(w.path()).len() + data@.len()
                <= usize::MAX ==> {
                &&& r == Ok::<(), Error>(())
                &&& final(self).has_path(w.path())
                &&& !final(self).is_finalized(w.path())
                &&& final(self).content(w.path()) == old(self).content(w.path()) + data@
            },
            r is Err ==> final(self).has_path(w.path()) == old(self).has_path(w.path())
                && final(self).is_finalized(w.path()) == old(self).is_finalized(w.path())
                && final(self).content(w.path()) == old(self).content(w.path()),
            forall|q: Seq<char>|
                q != w.path() ==> #[trigger] final(self).has_path(q) == old(self).has_path(q),
            forall|q: Seq<char>|
                q != w.path() ==> #[trigger] final(self).is_finalized(q) == old(self).is_finalized(
                    q,
                ),
            forall|q: Seq<char>|
                q != w.path() ==> #[trigger] final(self).content(q) == old(self).content(q),
    {
        let r = w.write_all(&mut self.catalog, &mut self.storage, data);
        proof {
            if old(self).is_finalized(w.path()) || old(self).content(w.path()).len() + data@.len()
                > usize::MAX {
                assert(final(self).pages() == old(self).pages());
            }
        }
        r
    }

    /// Finalizes `w`'s path; later writes fail with `InvalidState`.  Fails
    /// with `InvalidState` when the path is already finalized.
    pub fn terminate_writer(&mut self, w: SegmentComponentWriter) -> (r: Result<(), Error>)
        requires
            old(self).wf(),
        ensures
            final(self).wf(),
            final(self).pages() == old(self).pages(),
            final(self).generation() == old(self).generation(),
            final(self).payload() == old(self).payload(),
            final(self).managed() == old(self).managed(),
            old(self).is_finalized(w.path()) ==> r == Err::<(), Error>(Error::InvalidState),
            !old(self).is_finalized(w.path()) ==> {
                &&& r == Ok::<(), Error>(())
                &&& final(self).has_path(w.path())
                &&& final(self).is_finalized(w.path())
                &&& final(self).content(w.path()) == old(self).content(w.path())
            },
            r is Err ==> final(self).has_path(w.path()) == old(self).has_path(w.path())
                && final(self).is_finalized(w.path()) == old(self).is_finalized(w.path())
                && final(self).content(w.path()) == old(self).content(w.path()),
            forall|q: Seq<char>|
                q != w.path() ==> #[trigger] final(self).has_path(q) == old(self).has_path(q),
            forall|q: Seq<char>|
                q != w.path() ==> #[trigger] final(self).is_finalized(q) == old(self).is_finalized(
                    q,
                ),
            forall|q: Seq<char>|
                q != w.path() ==> #[trigger] final(self).content(q) == old(self).content(q),
    {
        let ghost p = w.path();
        let r = w.terminate(&mut self.catalog);
        proof {
            if !old(self).is_finalized(p) {
                assert(final(self).content(p) == old(self).content(p));
            }
        }
        r
    }

    /// The catalog entry registered for `path`, or `StorageError` when the
    /// path is unknown.
    pub fn directory_lookup(&self, path: &String) -> (r: Result<DirectoryEntry, Error>)
        requires
            self.wf(),
        ensures
            r is Ok <==> self.has_path(path@),
            r matches Ok(e) ==> e.path@ == path@ && e.spans@ == self.entry_of(path@).spans@
                && e.total_len == self.entry_of(path@).total_len && e.finalized == self.entry_of(
                path@,
            ).finalized,
            r is Err ==> r == Err::<DirectoryEntry, Error>(Error::StorageError),
    {
        proof {
            crate::catalog::lemma_idx_of_props(self.catalog.entries(), path@);
        }
        match self.catalog.lookup(path) {
            Some(e) => Ok(e.clone()),
            None => Err(Error::StorageError),
        }
    }

    /// A reader over the entry registered for `path`, or `StorageError`
    /// when the path is unknown.
    pub fn get_file_handle(&self, path: &String) -> (r: Result<SegmentComponentReader, Error>)
        requires
            self.wf(),
        ensures
            r is Ok <==> self.has_path(path@),
            r matches Ok(rd) ==> {
                &&& entry_wf(self.pages(), rd.entry())
                &&& rd.entry().path@ == path@
                &&& crate::catalog::entry_content(self.pages(), rd.entry()) == self.content(path@)
                &&& rd.entry().total_len == self.content(path@).len()
            },
            r is Err ==> r == Err::<SegmentComponentReader, Error>(Error::StorageError),
    {
        match self.directory_lookup(path) {
            Ok(e) => {
                proof {
                    crate::catalog::lemma_idx_of_props(self.catalog.entries(), path@);
                    let m = crate::catalog::idx_of(self.catalog.entries(), path@);
                    assert(entry_wf(self.pages(), self.catalog.entries()[m]));
                }
                Ok(SegmentComponentReader::new(e))
            },
            Err(e) => Err(e),
        }
    }

    /// Serves the byte range `[start, end)` of `rd`'s entry content.
    pub fn read_with(&self, rd: &SegmentComponentReader, start: usize, end: usize) -> (r: Result<
        Vec<u8>,
        Error,
    >)
        requires
            entry_wf(self.pages(), rd.entry()),
        ensures
            start <= end <= rd.entry().total_len ==> (r matches Ok(v)
                && v@ == crate::catalog::entry_content(self.pages(), rd.entry()).subrange(
                start as int,
                end as int,
            )),
            !(start <= end <= rd.entry().total_len) ==> r == Err::<Vec<u8>, Error>(
                Error::StorageError,
            ),
    {
        rd.read_bytes(&self.storage, start, end)
    }

    /// The list of managed files, without duplicates.
    pub fn list_managed_files(&self) -> (r: Vec<String>)
        requires
            self.wf(),
        ensures
            path_set(r@) == self.managed(),
            forall|i: int, j: int|
                0 <= i < j < r@.len() ==> (#[trigger] r@[i])@ != (#[trigger] r@[j])@,
    {
        let n = self.managed.len();
        let mut out: Vec<String> = Vec::new();
        let mut i: usize = 0;
        while i < n
            invariant
                n == self.managed@.len(),
                i <= n,
                out@.len() == i,
                forall|j: int| 0 <= j < i ==> #[trigger] out@[j] == self.managed@[j],
            decreases n - i,
        {
            out.push(self.managed[i].clone());
            i = i + 1;
        }
        proof {
            assert(out@ =~= self.managed@);
        }
        out
    }

    /// Registers `files` as managed.  With `overwrite` the managed set
    /// becomes exactly the given paths; without it the given paths join the
    /// set.  Nothing else changes.
    pub fn register_files_as_managed(&mut self, files: &Vec<String>, overwrite: bool)
        requires
            old(self).wf(),
        ensures
            final(self).wf(),
            overwrite ==> final(self).managed() == path_set(files@),
            !overwrite ==> final(self).managed() == old(self).managed().union(path_set(files@)),
            final(self).pages() == old(self).pages(),
            final(self).generation() == old(self).generation(),
            final(self).payload() == old(self).payload(),
            forall|q: Seq<char>| #[trigger] final(self).has_path(q) == old(self).has_path(q),
            forall|q: Seq<char>|
                #[trigger] final(self).is_finalized(q) == old(self).is_finalized(q),
            forall|q: Seq<char>| #[trigger] final(self).content(q) == old(self).content(q),
    {
        if overwrite {
            self.managed = Vec::new();
        }
        let ghost base = path_set(self.managed@);
        let n = files.len();
        let mut i: usize = 0;
        proof {
            assert(files@.take(0) =~= Seq::<String>::empty());
            assert(base.union(path_set(files@.take(0))) =~= base);
        }
        while i < n
            invariant
                n == files@.len(),
                i <= n,
                self.storage == old(self).storage,
                self.catalog == old(self).catalog,
                path_set(self.managed@) == base.union(path_set(files@.take(i as int))),
                forall|i2: int, j2: int|
                    0 <= i2 < j2 < self.managed@.len() ==> (#[trigger] self.managed@[i2])@ != (
                    #[trigger] self.managed@[j2])@,
            decreases n - i,
        {
            let ghost managed_pre = self.managed@;
            let f = &files[i];
            let present = contains_path(&self.managed, f);
            if !present {
                self.managed.push(f.clone());
                proof {
                    assert(self.managed@.drop_last() =~= managed_pre);
                    assert(self.managed@.last()@ == files@[i as int]@);
                    lemma_path_set_contains(managed_pre, files@[i as int]@);
                }
            } else {
                proof {
                    assert(path_set(managed_pre).contains(files@[i as int]@));
                }
            }
            proof {
                assert(files@.take(i + 1).drop_last() =~= files@.take(i as int));
                assert(files@.take(i + 1).last() == files@[i as int]);
                assert(path_set(files@.take(i + 1)) == path_set(files@.take(i as int)).insert(
                    files@[i as int]@,
                ));
                assert(path_set(self.managed@) =~= base.union(path_set(files@.take(i + 1))));
                if !present {
                    assert forall|i2: int, j2: int|
                        0 <= i2 < j2 < self.managed@.len() implies (#[trigger] self.managed@[i2])@
                        != (#[trigger] self.managed@[j2])@ by {
                        if j2 == self.managed@.len() - 1 {
                            lemma_path_set_contains(managed_pre, self.managed@[j2]@);
                        }
                    }
                }
            }
            i = i + 1;
        }
        proof {
            assert(files@.take(n as int) =~= files@);
            if overwrite {
                assert(path_set(self.managed@) =~= path_set(files@));
            }
        }
    }

    /// Saves an index-metadata payload into the metadata block and advances
    /// the generation counter; the counter never decreases.
    pub fn save_metas(&mut self, payload: Vec<u8>)
        requires
            old(self).wf(),
        ensures
            final(self).wf(),
            final(self).payload() == payload@,
            final(self).generation() >= old(self).generation(),
            old(self).generation() < u64::MAX ==> final(self).generation() == old(
                self,
            ).generation() + 1,
            final(self).pages() == old(self).pages(),
            final(self).managed() == old(self).managed(),
            forall|q: Seq<char>| #[trigger] final(self).has_path(q) == old(self).has_path(q),
            forall|q: Seq<char>|
                #[trigger] final(self).is_finalized(q) == old(self).is_finalized(q),
            forall|q: Seq<char>| #[trigger] final(self).content(q) == old(self).content(q),
    {
        self.storage.write_metadata(payload);
    }

    /// Loads the saved metadata: the generation counter and the payload are
    /// read together under one shared lock, so the returned pair always
    /// belongs to one single save and is never partially updated.
    pub fn load_metas(&self) -> (r: (u64, Vec<u8>))
        ensures
            r.0 == self.generation(),
            r.1@ == self.payload(),
    {
        let (g, p) = self.storage.read_metadata();
        let n = p.len();
        let mut out: Vec<u8> = Vec::new();
        let mut i: usize = 0;
        while i < n
            invariant
                n == p@.len(),
                i <= n,
                out@ == p@.take(i as int),
            decreases n - i,
        {
            out.push(p[i]);
            proof {
                assert(out@ =~= p@.take(i + 1));
            }
            i = i + 1;
        }
        proof {
            assert(out@ =~= p@);
        }
        (g, out)
    }

    /// Atomic writes must never reach this adapter: it owns metadata
    /// save/load itself, so the call is a contract violation.
    pub fn atomic_write(&self, _path: &String, _data: &Vec<u8>) -> (r: Result<(), Error>)
        ensures
            r == Err::<(), Error>(Error::ContractViolation),
    {
        Err(Error::ContractViolation)
    }

    /// Atomic reads must never reach this adapter: it owns metadata
    /// save/load itself, so the call is a contract violation.
    pub fn atomic_read(&self, _path: &String) -> (r: Result<Vec<u8>, Error>)
        ensures
            r == Err::<Vec<u8>, Error>(Error::ContractViolation),
    {
        Err(Error::ContractViolation)
    }

    /// Deletion always succeeds with no effect: cleanup is driven by the
    /// host's vacuum cycle, not by the index library.
    pub fn delete(&self, _path: &String) -> (r: Result<(), Error>)
        ensures
            r == Ok::<(), Error>(()),
    {
        Ok(())
    }

    /// Existence checks always report true, so the index library's
    /// metadata-driven cleanup never triggers.
    pub fn file_exists(&self, _path: &String) -> (r: Result<bool, Error>)
        ensures
            r == Ok::<bool, Error>(true),
    {
        Ok(true)
    }

    /// Lock acquisition always succeeds immediately: the host enforces the
    /// single-writer discipline, not this adapter.
    pub fn acquire_lock(&self, _lock: &String) -> (r: Result<(), Error>)
        ensures
            r == Ok::<(), Error>(()),
    {
        Ok(())
    }

    /// Directory watching is unsupported (it would only serve a delayed
    /// reload policy this system does not use).
    pub fn watch(&self) -> (r: Result<(), Error>)
        ensures
            r == Err::<(), Error>(Error::ContractViolation),
    {
        Err(Error::ContractViolation)
    }

    /// Syncing always succeeds with no effect: durability is delegated to
    /// the host's write-ahead log.
    pub fn sync_directory(&self) -> (r: Result<(), Error>)
        ensures
            r == Ok::<(), Error>(()),
    {
        Ok(())
    }
}

} // verus!
