//! Channel Directory Adapter + Request Handler.
//!
//! The adapter is a lightweight value holding only a sender handle: every
//! directory call builds the matching [`ChannelRequest`], sends it, and —
//! for calls with a result — blocks on the paired one-shot reply.  That
//! makes it cheap to clone and safe to hand to the index library on any
//! thread.
//!
//! The handler owns the real [`BlockingDirectory`] and the open segment
//! writers, and runs two interleaved loops.  The primary loop
//! ([`ChannelRequestHandler::receive_blocking`]) drains requests and
//! dispatches each to the blocking adapter.  The action loop
//! ([`ChannelRequestHandler::wait_for`]) hands one action to a worker over
//! a bounded channel and then polls for the worker's reply without ever
//! blocking on it: while the reply is pending it keeps draining and
//! answering the directory requests that the action itself issues, because
//! the reply cannot arrive until those callbacks are serviced.

use vstd::prelude::*;

use crate::Error;
use crate::blocking::BlockingDirectory;
use crate::blocking::path_set;
use crate::catalog::DirectoryEntry;
use crate::segment::SegmentComponentWriter;
use crate::transport::PollOutcome;
use crate::transport::channel_bounded;
use crate::transport::channel_recv;
use crate::transport::channel_send;
use crate::transport::channel_sender_clone;
use crate::transport::channel_try_recv;
use crate::transport::oneshot_pair;
use crate::transport::oneshot_recv;
use crate::transport::oneshot_send;

verus! {

/// One directory operation forwarded over the request channel.  Variants
/// that expect a result carry a one-shot reply sender, consumed exactly
/// once by the handler.
pub enum ChannelRequest {
    ListManagedFiles(oneshot::Sender<Vec<String>>),
    RegisterFilesAsManaged(Vec<String>, bool),
    SegmentRead(String, usize, usize, oneshot::Sender<Vec<u8>>),
    SegmentWrite(String, Vec<u8>),
    SegmentWriteTerminate(String),
    GetSegmentComponent(String, oneshot::Sender<DirectoryEntry>),
    SaveMetas(Vec<u8>),
    LoadMetas(oneshot::Sender<(u64, Vec<u8>)>),
    Terminate,
}

/// Client-side proxy of the directory capability set: forwards every call
/// over the request channel.  A local send or receive failure is surfaced
/// as [`Error::Disconnected`].
pub struct ChannelDirectory {
    sender: crossbeam::channel::Sender<ChannelRequest>,
}

impl Clone for ChannelDirectory {
    /// A clone feeds the same request channel.
    fn clone(&self) -> Self {
        ChannelDirectory { sender: channel_sender_clone(&self.sender) }
    }
}

impl ChannelDirectory {
    /// An adapter sending over `sender`.
    pub fn new(sender: crossbeam::channel::Sender<ChannelRequest>) -> Self {
        ChannelDirectory { sender }
    }

    /// Asks the handler for the managed-file list.
    pub fn list_managed_files(&self) -> (r: Result<Vec<String>, Error>)
        ensures
            r matches Err(e) ==> e == Error::Disconnected,
    {
        let (tx, rx) = oneshot_pair::<Vec<String>>();
        match channel_send(&self.sender, ChannelRequest::ListManagedFiles(tx)) {
            Ok(()) => oneshot_recv(rx),
            Err(e) => Err(e),
        }
    }

    /// Asks the handler to register `files` as managed.
    pub fn register_files_as_managed(&self, files: Vec<String>, overwrite: bool) -> (r: Result<
        (),
        Error,
    >)
        ensures
            r matches Err(e) ==> e == Error::Disconnected,
    {
        channel_send(&self.sender, ChannelRequest::RegisterFilesAsManaged(files, overwrite))
    }

    /// Asks the handler for the catalog entry of `path`.
    pub fn get_file_handle(&self, path: String) -> (r: Result<DirectoryEntry, Error>)
        ensures
            r matches Err(e) ==> e == Error::Disconnected,
    {
        let (tx, rx) = oneshot_pair::<DirectoryEntry>();
        match channel_send(&self.sender, ChannelRequest::GetSegmentComponent(path, tx)) {
            Ok(()) => oneshot_recv(rx),
            Err(e) => Err(e),
        }
    }

    /// Asks the handler for the byte range `[start, end)` of `path`.
    pub fn read_bytes(&self, path: String, start: usize, end: usize) -> (r: Result<Vec<u8>, Error>)
        ensures
            r matches Err(e) ==> e == Error::Disconnected,
    {
        let (tx, rx) = oneshot_pair::<Vec<u8>>();
        match channel_send(&self.sender, ChannelRequest::SegmentRead(path, start, end, tx)) {
            Ok(()) => oneshot_recv(rx),
            Err(e) => Err(e),
        }
    }

    /// Asks the handler to append `data` to `path`.
    pub fn write_bytes(&self, path: String, data: Vec<u8>) -> (r: Result<(), Error>)
        ensures
            r matches Err(e) ==> e == Error::Disconnected,
    {
        channel_send(&self.sender, ChannelRequest::SegmentWrite(path, data))
    }

    /// Asks the handler to finalize the writer for `path`.
    pub fn terminate_write(&self, path: String) -> (r: Result<(), Error>)
        ensures
            r matches Err(e) ==> e == Error::Disconnected,
    {
        channel_send(&self.sender, ChannelRequest::SegmentWriteTerminate(path))
    }

    /// Asks the handler to save an index-metadata payload.
    pub fn save_metas(&self, payload: Vec<u8>) -> (r: Result<(), Error>)
        ensures
            r matches Err(e) ==> e == Error::Disconnected,
    {
        channel_send(&self.sender, ChannelRequest::SaveMetas(payload))
    }

    /// Asks the handler for the saved metadata and its generation.
    pub fn load_metas(&self) -> (r: Result<(u64, Vec<u8>), Error>)
        ensures
            r matches Err(e) ==> e == Error::Disconnected,
    {
        let (tx, rx) = oneshot_pair::<(u64, Vec<u8>)>();
        match channel_send(&self.sender, ChannelRequest::LoadMetas(tx)) {
            Ok(()) => oneshot_recv(rx),
            Err(e) => Err(e),
        }
    }

    /// Asks the handler to stop its loop.
    pub fn terminate_session(&self) -> (r: Result<(), Error>)
        ensures
            r matches Err(e) ==> e == Error::Disconnected,
    {
        channel_send(&self.sender, ChannelRequest::Terminate)
    }

    /// Atomic writes must never reach this adapter (see the blocking
    /// adapter): the call is a contract violation.
    pub fn atomic_write(&self, _path: &String, _data: &Vec<u8>) -> (r: Result<(), Error>)
        ensures
            r == Err::<(), Error>(Error::ContractViolation),
    {
        Err(Error::ContractViolation)
    }

    /// Atomic reads must never reach this adapter: the call is a contract
    /// violation.
    pub fn atomic_read(&self, _path: &String) -> (r: Result<Vec<u8>, Error>)
        ensures
            r == Err::<Vec<u8>, Error>(Error::ContractViolation),
    {
        Err(Error::ContractViolation)
    }

    /// Deletion always succeeds with no effect.
    pub fn delete(&self, _path: &String) -> (r: Result<(), Error>)
        ensures
            r == Ok::<(), Error>(()),
    {
        Ok(())
    }

    /// Existence checks always report true.
    pub fn file_exists(&self, _path: &String) -> (r: Result<bool, Error>)
        ensures
            r == Ok::<bool, Error>(true),
    {
        Ok(true)
    }

    /// Lock acquisition always succeeds immediately.
    pub fn acquire_lock(&self, _lock: &String) -> (r: Result<(), Error>)
        ensures
            r == Ok::<(), Error>(()),
    {
        Ok(())
    }

    /// Directory watching is unsupported.
    pub fn watch(&self) -> (r: Result<(), Error>)
        ensures
            r == Err::<(), Error>(Error::ContractViolation),
    {
        Err(Error::ContractViolation)
    }

    /// Syncing always succeeds with no effect.
    pub fn sync_directory(&self) -> (r: Result<(), Error>)
        ensures
            r == Ok::<(), Error>(()),
    {
        Ok(())
    }
}

/// The worker's ends of the action/reply channels: the embedder's worker
/// receives each action here and sends back exactly one reply for it.
#[verifier::reject_recursive_types(A)]
#[verifier::reject_recursive_types(R)]
pub struct WorkerEndpoints<A, R> {
    pub action_receiver: crossbeam::channel::Receiver<A>,
    pub reply_sender: crossbeam::channel::Sender<R>,
}

/// Server side of the channel protocol: owns the blocking adapter and the
/// open segment writers, consumes requests, and runs the action/reply
/// sub-protocol for blocking open/create calls.
#[verifier::reject_recursive_types(A)]
#[verifier::reject_recursive_types(R)]
pub struct ChannelRequestHandler<A, R> {
    directory: BlockingDirectory,
    receiver: crossbeam::channel::Receiver<ChannelRequest>,
    writers: Vec<SegmentComponentWriter>,
    action_sender: crossbeam::channel::Sender<A>,
    reply_receiver: crossbeam::channel::Receiver<R>,
}

impl<A, R> ChannelRequestHandler<A, R> {
    /// The blocking adapter this handler owns.
    pub closed spec fn directory(&self) -> BlockingDirectory {
        self.directory
    }

    /// Whether an open (not yet terminated) writer exists for path `p`.
    pub closed spec fn has_writer(&self, p: Seq<char>) -> bool {
        exists|i: int|
            0 <= i < self.writers@.len() && (#[trigger] self.writers@[i]).path() == p
    }

    /// At most one open writer per path.
    pub closed spec fn writers_wf(&self) -> bool {
        writer_paths_unique(self.writers@)
    }

    /// The handler's adapter is well formed and writers are one per path.
    pub open spec fn wf(&self) -> bool {
        self.directory().wf() && self.writers_wf()
    }

    /// Opens a handler over `directory`, consuming requests from
    /// `receiver`, and returns the worker's ends of the freshly created
    /// action/reply channels (each bounded to one in-flight message, so at
    /// most one action/reply pair is ever outstanding).
    pub fn open(directory: BlockingDirectory, receiver: crossbeam::channel::Receiver<
        ChannelRequest,
    >) -> (r: (Self, WorkerEndpoints<A, R>))
        requires
            directory.wf(),
        ensures
            r.0.wf(),
            r.0.directory() == directory,
            forall|p: Seq<char>| !r.0.has_writer(p),
    {
        let (action_sender, action_receiver) = channel_bounded::<A>(1);
        let (reply_sender, reply_receiver) = channel_bounded::<R>(1);
        let handler = ChannelRequestHandler {
            directory,
            receiver,
            writers: Vec::new(),
            action_sender,
            reply_receiver,
        };
        (handler, WorkerEndpoints { action_receiver, reply_sender })
    }

    /// Position of the open writer for `path`, when one exists.
    fn find_writer(&self, path: &String) -> (r: Option<usize>)
        ensures
            match r {
                Some(i) => i < self.writers@.len() && self.writers@[i as int].path() == path@,
                None => !self.has_writer(path@),
            },
    {
        let n = self.writers.len();
        let mut i: usize = 0;
        while i < n
            invariant
                n == self.writers@.len(),
                i <= n,
                forall|j: int| 0 <= j < i ==> (#[trigger] self.writers@[j]).path() != path@,
            decreases n - i,
        {
            if *self.writers[i].path_name() == *path {
                return Some(i);
            }
            i = i + 1;
        }
        None
    }

    /// Dispatches one request to the blocking adapter, sending the answer
    /// back through the request's one-shot sender, and reports whether the
    /// handler should stop (only an explicit `Terminate` does).  A failed
    /// directory operation or a dropped reply receiver surfaces as the
    /// matching error; the adapter's generation counter never decreases.
    #[verifier::rlimit(100)]
    #[verifier::spinoff_prover]
    pub fn process_message(&mut self, msg: ChannelRequest) -> (r: Result<bool, Error>)
        requires
            old(self).wf(),
        ensures
            final(self).wf(),
            final(self).directory().generation() >= old(self).directory().generation(),
            forall|p: Seq<char>|
                #[trigger] old(self).directory().is_finalized(p) ==> final(self).directory().is_finalized(p) && final(self).directory().content(p) == old(self).directory().content(p),
            r matches Ok(stop) ==> stop == (msg is Terminate),
            msg is Terminate ==> r == Ok::<bool, Error>(true) && *final(self) == *old(self),
            msg is ListManagedFiles ==> *final(self) == *old(self) && (r == Ok::<bool, Error>(false)
                || r == Err::<bool, Error>(Error::Disconnected)),
            msg is LoadMetas ==> *final(self) == *old(self) && (r == Ok::<bool, Error>(false) || r
                == Err::<bool, Error>(Error::Disconnected)),
            msg matches ChannelRequest::GetSegmentComponent(path, _tx) ==> *final(self) == *old(self)
                && (old(self).directory().has_path(path@) ==> (r == Ok::<bool, Error>(false) || r
                == Err::<bool, Error>(Error::Disconnected))) && (!old(self).directory().has_path(path@) ==> r == Err::<bool, Error>(Error::StorageError)),
            msg matches ChannelRequest::SegmentRead(path, start, end, _tx) ==> *final(self) == *old(self) && {
                let ok_range = old(self).directory().has_path(path@) && start <= end <= old(self).directory().content(path@).len();
                &&& ok_range ==> (r == Ok::<bool, Error>(false) || r == Err::<bool, Error>(
                    Error::Disconnected,
                ))
                &&& !ok_range ==> r == Err::<bool, Error>(Error::StorageError)
            },
            msg matches ChannelRequest::RegisterFilesAsManaged(files, ow) ==> {
                &&& r == Ok::<bool, Error>(false)
                &&& ow ==> final(self).directory().managed() == path_set(files@)
                &&& !ow ==> final(self).directory().managed() == old(self).directory().managed().union(path_set(files@))
                &&& final(self).directory().pages() == old(self).directory().pages()
                &&& final(self).directory().generation() == old(self).directory().generation()
                &&& final(self).directory().payload() == old(self).directory().payload()
                &&& forall|q: Seq<char>|
                    #[trigger] final(self).directory().has_path(q) == old(self).directory().has_path(q)
                &&& forall|q: Seq<char>|
                    #[trigger] final(self).directory().is_finalized(q) == old(self).directory().is_finalized(q)
                &&& forall|q: Seq<char>|
                    #[trigger] final(self).directory().content(q) == old(self).directory().content(q)
                &&& forall|q: Seq<char>|
                    #[trigger] final(self).has_writer(q) == old(self).has_writer(q)
            },
            msg matches ChannelRequest::SaveMetas(payload) ==> {
                &&& r == Ok::<bool, Error>(false)
                &&& final(self).directory().payload() == payload@
                &&& old(self).directory().generation() < u64::MAX ==> final(self).directory().generation() == old(self).directory().generation() + 1
                &&& final(self).directory().pages() == old(self).directory().pages()
                &&& final(self).directory().managed() == old(self).directory().managed()
                &&& forall|q: Seq<char>|
                    #[trigger] final(self).directory().has_path(q) == old(self).directory().has_path(q)
                &&& forall|q: Seq<char>|
                    #[trigger] final(self).directory().is_finalized(q) == old(self).directory().is_finalized(q)
                &&& forall|q: Seq<char>|
                    #[trigger] final(self).directory().content(q) == old(self).directory().content(q)
                &&& forall|q: Seq<char>|
                    #[trigger] final(self).has_writer(q) == old(self).has_writer(q)
            },
            msg matches ChannelRequest::SegmentWrite(path, data) ==> {
                &&& forall|q: Seq<char>|
                    #[trigger] final(self).has_writer(q) == (old(self).has_writer(q) || q == path@)
                &&& final(self).directory().generation() == old(self).directory().generation()
                &&& final(self).directory().payload() == old(self).directory().payload()
                &&& final(self).directory().managed() == old(self).directory().managed()
                &&& old(self).directory().is_finalized(path@) ==> r == Err::<bool, Error>(
                    Error::InvalidState,
                ) && final(self).directory().pages() == old(self).directory().pages()
                &&& !old(self).directory().is_finalized(path@) && old(self).directory().content(
                    path@,
                ).len() + data@.len() > usize::MAX ==> r == Err::<bool, Error>(Error::StorageError)
                    && final(self).directory().pages() == old(self).directory().pages()
                &&& !old(self).directory().is_finalized(path@) && old(self).directory().content(
                    path@,
                ).len() + data@.len() <= usize::MAX ==> {
                    &&& r == Ok::<bool, Error>(false)
                    &&& final(self).directory().has_path(path@)
                    &&& !final(self).directory().is_finalized(path@)
                    &&& final(self).directory().content(path@) == old(self).directory().content(
                        path@,
                    ) + data@
                }
                &&& forall|q: Seq<char>|
                    q != path@ ==> #[trigger] final(self).directory().has_path(q) == old(self).directory().has_path(q)
                &&& forall|q: Seq<char>|
                    q != path@ ==> #[trigger] final(self).directory().is_finalized(q) == old(self).directory().is_finalized(q)
                &&& forall|q: Seq<char>|
                    q != path@ ==> #[trigger] final(self).directory().content(q) == old(self).directory().content(q)
            },
            msg matches ChannelRequest::SegmentWriteTerminate(path) ==> {
                &&& final(self).directory().generation() == old(self).directory().generation()
                &&& final(self).directory().payload() == old(self).directory().payload()
                &&& final(self).directory().managed() == old(self).directory().managed()
                &&& final(self).directory().pages() == old(self).directory().pages()
                &&& !old(self).has_writer(path@) ==> r == Err::<bool, Error>(Error::InvalidState)
                    && *final(self) == *old(self)
                &&& old(self).has_writer(path@) ==> {
                    &&& !final(self).has_writer(path@)
                    &&& forall|q: Seq<char>|
                        q != path@ ==> #[trigger] final(self).has_writer(q) == old(self).has_writer(q)
                    &&& old(self).directory().is_finalized(path@) ==> r == Err::<bool, Error>(
                        Error::InvalidState,
                    )
                    &&& !old(self).directory().is_finalized(path@) ==> {
                        &&& r == Ok::<bool, Error>(false)
                        &&& final(self).directory().is_finalized(path@)
                        &&& final(self).directory().content(path@) == old(self).directory().content(path@)
                    }
                }
                &&& forall|q: Seq<char>|
                    q != path@ ==> #[trigger] final(self).directory().has_path(q) == old(self).directory().has_path(q)
                &&& forall|q: Seq<char>|
                    q != path@ ==> #[trigger] final(self).directory().is_finalized(q) == old(self).directory().is_finalized(q)
                &&& forall|q: Seq<char>|
                    q != path@ ==> #[trigger] final(self).directory().content(q) == old(self).directory().content(q)
            },
    {
        match msg {
            ChannelRequest::ListManagedFiles(tx) => {
                let files = self.directory.list_managed_files();
                match oneshot_send(tx, files) {
                    Ok(()) => Ok(false),
                    Err(e) => Err(e),
                }
            },
            ChannelRequest::RegisterFilesAsManaged(files, overwrite) => {
                self.directory.register_files_as_managed(&files, overwrite);
                Ok(false)
            },
            ChannelRequest::GetSegmentComponent(path, tx) => {
                match self.directory.directory_lookup(&path) {
                    Ok(entry) => match oneshot_send(tx, entry) {
                        Ok(()) => Ok(false),
                        Err(e) => Err(e),
                    },
                    Err(e) => Err(e),
                }
            },
            ChannelRequest::SegmentRead(path, start, end, tx) => {
                match self.directory.get_file_handle(&path) {
                    Ok(reader) => {
                        match self.directory.read_with(&reader, start, end) {
                            Ok(bytes) => match oneshot_send(tx, bytes) {
                                Ok(()) => Ok(false),
                                Err(e) => Err(e),
                            },
                            Err(e) => Err(e),
                        }
                    },
                    Err(e) => Err(e),
                }
            },
            ChannelRequest::SegmentWrite(path, data) => {
                let wi: usize;
                match self.find_writer(&path) {
                    Some(i) => {
                        wi = i;
                    },
                    None => {
                        wi = self.writers.len();
                        let w = self.directory.open_write(&path);
                        let ghost writers_pre = self.writers@;
                        self.writers.push(w);
                        proof {
                            assert forall|i2: int, j2: int|
                                0 <= i2 < j2 < self.writers@.len() implies self.writers@[
                                i2].path() != self.writers@[j2].path() by {
                                if j2 == self.writers@.len() - 1 {
                                    assert(writers_pre[i2].path() != path@);
                                } else {
                                    assert(self.writers@[i2] == writers_pre[i2]);
                                    assert(self.writers@[j2] == writers_pre[j2]);
                                }
                            }
                        }
                    },
                }
                let r = self.directory.write_with(&self.writers[wi], &data);
                proof {
                    assert(self.writers@[wi as int].path() == path@);
                    assert forall|q: Seq<char>| #[trigger] self.has_writer(q) == (old(self).has_writer(q) || q == path@) by {
                        if q == path@ {
                            assert(self.has_writer(q));
                        } else {
                            if old(self).has_writer(q) {
                                let j = choose|j: int|
                                    0 <= j < old(self).writers@.len() && (#[trigger] old(self).writers@[j]).path() == q;
                                assert(self.writers@[j].path() == q);
                            }
                            if self.has_writer(q) {
                                let j = choose|j: int|
                                    0 <= j < self.writers@.len() && (#[trigger] self.writers@[j]).path() == q;
                                assert(j < old(self).writers@.len());
                                assert(old(self).writers@[j].path() == q);
                            }
                        }
                    }
                }
                match r {
                    Ok(()) => Ok(false),
                    Err(e) => Err(e),
                }
            },
            ChannelRequest::SegmentWriteTerminate(path) => {
                match self.find_writer(&path) {
                    Some(i) => {
                        let ghost writers_pre = self.writers@;
                        let w = self.writers.swap_remove(i);
                        let r = self.directory.terminate_writer(w);
                        proof {
                            assert(w.path() == path@);
                            assert forall|q: Seq<char>| q != path@ implies #[trigger] self
                                .has_writer(q) == old(self).has_writer(q) by {
                                lemma_swap_remove_same_paths(
                                    writers_pre,
                                    self.writers@,
                                    i as int,
                                    q,
                                );
                            }
                            lemma_swap_remove_unique(writers_pre, self.writers@, i as int);
                            assert(!self.has_writer(path@));
                        }
                        match r {
                            Ok(()) => Ok(false),
                            Err(e) => Err(e),
                        }
                    },
                    None => Err(Error::InvalidState),
                }
            },
            ChannelRequest::SaveMetas(payload) => {
                self.directory.save_metas(payload);
                Ok(false)
            },
            ChannelRequest::LoadMetas(tx) => {
                let metas = self.directory.load_metas();
                match oneshot_send(tx, metas) {
                    Ok(()) => Ok(false),
                    Err(e) => Err(e),
                }
            },
            ChannelRequest::Terminate => Ok(true),
        }
    }

    /// Drains every request that is already pending, without blocking, and
    /// reports whether a `Terminate` was processed.
    fn drain_pending(&mut self) -> (r: Result<bool, Error>)
        requires
            old(self).wf(),
        ensures
            final(self).wf(),
            final(self).directory().generation() >= old(self).directory().generation(),
            forall|p: Seq<char>|
                #[trigger] old(self).directory().is_finalized(p) ==> final(self).directory().is_finalized(p) && final(self).directory().content(p) == old(self).directory().content(p),
    {
        let mut budget: u64 = u64::MAX;
        while budget > 0
            invariant
                self.wf(),
                self.directory().generation() >= old(self).directory().generation(),
                forall|p: Seq<char>|
                    #[trigger] old(self).directory().is_finalized(p) ==> self
                        .directory().is_finalized(p) && self.directory().content(p) == old(self).directory().content(p),
            decreases budget,
        {
            budget = budget - 1;
            match channel_try_recv(&self.receiver) {
                PollOutcome::Received(msg) => {
                    match self.process_message(msg) {
                        Ok(stop) => {
                            if stop {
                                return Ok(true);
                            }
                        },
                        Err(e) => {
                            return Err(e);
                        },
                    }
                },
                PollOutcome::Empty => {
                    return Ok(false);
                },
                PollOutcome::Disconnected => {
                    return Ok(false);
                },
            }
        }
        Ok(false)
    }

    /// Submits `action` to the worker and polls for its reply without ever
    /// blocking on it: while the reply is pending, every directory request
    /// the action triggers is drained and answered, because the reply
    /// cannot arrive until those callbacks are serviced.  The call fails
    /// with `Disconnected` when the worker is gone or a processed request
    /// signalled termination, and with the processing error when a
    /// dispatched request fails.
    pub fn wait_for(&mut self, action: A) -> (r: Result<R, Error>)
        requires
            old(self).wf(),
        ensures
            final(self).wf(),
            final(self).directory().generation() >= old(self).directory().generation(),
            forall|p: Seq<char>|
                #[trigger] old(self).directory().is_finalized(p) ==> final(self).directory().is_finalized(p) && final(self).directory().content(p) == old(self).directory().content(p),
    {
        match channel_send(&self.action_sender, action) {
            Ok(()) => {},
            Err(e) => {
                return Err(e);
            },
        }
        let mut budget: u64 = u64::MAX;
        while budget > 0
            invariant
                self.wf(),
                self.directory().generation() >= old(self).directory().generation(),
                forall|p: Seq<char>|
                    #[trigger] old(self).directory().is_finalized(p) ==> self
                        .directory().is_finalized(p) && self.directory().content(p) == old(self).directory().content(p),
            decreases budget,
        {
            budget = budget - 1;
            match channel_try_recv(&self.reply_receiver) {
                PollOutcome::Received(reply) => {
                    return Ok(reply);
                },
                PollOutcome::Disconnected => {
                    return Err(Error::Disconnected);
                },
                PollOutcome::Empty => {
                    match self.drain_pending() {
                        Ok(stop) => {
                            if stop {
                                return Err(Error::Disconnected);
                            }
                        },
                        Err(e) => {
                            return Err(e);
                        },
                    }
                },
            }
        }
        Err(Error::Disconnected)
    }

    /// Primary loop: blocks on the request channel and dispatches each
    /// request until a `Terminate` arrives or every sender is gone; a
    /// failed directory operation stops the loop with its error.
    pub fn receive_blocking(&mut self) -> (r: Result<(), Error>)
        requires
            old(self).wf(),
        ensures
            final(self).wf(),
            final(self).directory().generation() >= old(self).directory().generation(),
            forall|p: Seq<char>|
                #[trigger] old(self).directory().is_finalized(p) ==> final(self).directory().is_finalized(p) && final(self).directory().content(p) == old(self).directory().content(p),
    {
        let mut budget: u64 = u64::MAX;
        while budget > 0
            invariant
                self.wf(),
                self.directory().generation() >= old(self).directory().generation(),
                forall|p: Seq<char>|
                    #[trigger] old(self).directory().is_finalized(p) ==> self
                        .directory().is_finalized(p) && self.directory().content(p) == old(self).directory().content(p),
            decreases budget,
        {
            budget = budget - 1;
            match channel_recv(&self.receiver) {
                Ok(msg) => {
                    match self.process_message(msg) {
                        Ok(stop) => {
                            if stop {
                                return Ok(());
                            }
                        },
                        Err(e) => {
                            return Err(e);
                        },
                    }
                },
                Err(_) => {
                    return Ok(());
                },
            }
        }
        Ok(())
    }
}

/// Every path is bound to at most one writer in `ws`.
pub open spec fn writer_paths_unique(ws: Seq<SegmentComponentWriter>) -> bool {
    forall|i: int, j: int| 0 <= i < j < ws.len() ==> ws[i].path() != ws[j].path()
}

/// Removing the writer at one position keeps one writer per path and
/// leaves no writer for the removed path.
proof fn lemma_swap_remove_unique(
    ws1: Seq<SegmentComponentWriter>,
    ws2: Seq<SegmentComponentWriter>,
    i: int,
)
    requires
        0 <= i < ws1.len(),
        ws2 == ws1.update(i, ws1.last()).drop_last(),
        writer_paths_unique(ws1),
    ensures
        writer_paths_unique(ws2),
        !exists|j: int| 0 <= j < ws2.len() && (#[trigger] ws2[j]).path() == ws1[i].path(),
{
    assert forall|j: int, k: int|
        0 <= j < k < ws2.len() implies ws2[j].path() != ws2[k].path() by {
        if j == i {
            assert(ws2[j] == ws1[ws1.len() - 1]);
            assert(ws2[k] == ws1[k]);
        } else if k == i {
            assert(ws2[k] == ws1[ws1.len() - 1]);
            assert(ws2[j] == ws1[j]);
        } else {
            assert(ws2[j] == ws1[j]);
            assert(ws2[k] == ws1[k]);
        }
    }
    assert forall|j: int| 0 <= j < ws2.len() implies (#[trigger] ws2[j]).path() != ws1[i].path() by {
        if j == i {
            assert(ws2[j] == ws1[ws1.len() - 1]);
        } else {
            assert(ws2[j] == ws1[j]);
        }
    }
}

/// Removing the writer at one position keeps every other path's writer.
proof fn lemma_swap_remove_same_paths(
    ws1: Seq<SegmentComponentWriter>,
    ws2: Seq<SegmentComponentWriter>,
    i: int,
    q: Seq<char>,
)
    requires
        0 <= i < ws1.len(),
        ws2 == ws1.update(i, ws1.last()).drop_last(),
        q != ws1[i].path(),
    ensures
        (exists|j: int| 0 <= j < ws2.len() && (#[trigger] ws2[j]).path() == q) <==> (exists|j: int|
            0 <= j < ws1.len() && (#[trigger] ws1[j]).path() == q),
{
    if exists|j: int| 0 <= j < ws2.len() && (#[trigger] ws2[j]).path() == q {
        let j = choose|j: int| 0 <= j < ws2.len() && (#[trigger] ws2[j]).path() == q;
        if j == i {
            assert(ws1[ws1.len() - 1].path() == q);
        } else {
            assert(ws1[j].path() == q);
        }
    }
    if exists|j: int| 0 <= j < ws1.len() && (#[trigger] ws1[j]).path() == q {
        let j = choose|j: int| 0 <= j < ws1.len() && (#[trigger] ws1[j]).path() == q;
        if j == ws1.len() - 1 {
            assert(j != i);
            assert(ws2[i] == ws1[j]);
        } else {
            assert(ws2[j] == ws1[j]);
        }
    }
}

} // verus!
