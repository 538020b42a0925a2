//! Index Session Facade: selects the resource budget for one writer
//! session from the triggering operation kind, and wires a channel session
//! together — the request channel, the channel adapter handed to the index
//! library, and the request handler owning the blocking adapter.
//!
//! Opening or creating the underlying index blocks and calls back into the
//! directory, so it must run on the embedder's worker thread: the embedder
//! receives each action on the returned endpoints, performs it, and sends
//! the reply back, while [`ChannelRequestHandler::wait_for`] services the
//! directory callbacks the action triggers.

use vstd::prelude::*;

use crate::blocking::BlockingDirectory;
use crate::channel::ChannelDirectory;
use crate::channel::ChannelRequest;
use crate::channel::ChannelRequestHandler;
use crate::channel::WorkerEndpoints;
use crate::transport::channel_bounded;

verus! {

/// The operation kind that triggers a writer session.
#[derive(Clone, Copy, Debug, PartialEq, Eq, Structural)]
pub enum WriterResources {
    CreateIndex,
    Statement,
    Vacuum,
}

/// Host configuration consulted when selecting a session's budget.  All
/// parallelism degrees are at least one.
pub struct HostConfig {
    pub create_index_parallelism: usize,
    pub create_index_memory_budget: usize,
    pub statement_parallelism: usize,
    pub statement_memory_budget: usize,
}

impl HostConfig {
    /// Parallelism degrees are meaningful (at least one worker).
    pub open spec fn wf(&self) -> bool {
        self.create_index_parallelism >= 1 && self.statement_parallelism >= 1
    }
}

/// Per-index options consulted when selecting a session's budget.
pub struct SearchIndexCreateOptions {
    pub target_segment_count: usize,
    pub merge_on_insert: bool,
}

/// The configuration tuple governing one writer session, immutable for the
/// session's lifetime.
#[derive(Clone, Copy, Debug, PartialEq, Eq, Structural)]
pub struct ResourceDescriptor {
    pub parallelism: usize,
    pub memory_budget: usize,
    pub target_segment_count: usize,
    pub do_merging: bool,
}

impl WriterResources {
    /// The resource descriptor for one writer session: index creation and
    /// vacuum always merge; an ordinary statement merges only when the
    /// index options ask for it; index creation takes the creation budget,
    /// the other kinds the statement budget.
    pub fn resources(&self, config: &HostConfig, index_options: &SearchIndexCreateOptions) -> (r:
        ResourceDescriptor)
        requires
            config.wf(),
        ensures
            r.parallelism >= 1,
            self is CreateIndex ==> r == (ResourceDescriptor {
                parallelism: config.create_index_parallelism,
                memory_budget: config.create_index_memory_budget,
                target_segment_count: index_options.target_segment_count,
                do_merging: true,
            }),
            self is Statement ==> r == (ResourceDescriptor {
                parallelism: config.statement_parallelism,
                memory_budget: config.statement_memory_budget,
                target_segment_count: index_options.target_segment_count,
                do_merging: index_options.merge_on_insert,
            }),
            self is Vacuum ==> r == (ResourceDescriptor {
                parallelism: config.statement_parallelism,
                memory_budget: config.statement_memory_budget,
                target_segment_count: index_options.target_segment_count,
                do_merging: true,
            }),
    {
        match self {
            WriterResources::CreateIndex => ResourceDescriptor {
                parallelism: config.create_index_parallelism,
                memory_budget: config.create_index_memory_budget,
                target_segment_count: index_options.target_segment_count,
                do_merging: true,
            },
            WriterResources::Statement => ResourceDescriptor {
                parallelism: config.statement_parallelism,
                memory_budget: config.statement_memory_budget,
                target_segment_count: index_options.target_segment_count,
                do_merging: index_options.merge_on_insert,
            },
            WriterResources::Vacuum => ResourceDescriptor {
                parallelism: config.statement_parallelism,
                memory_budget: config.statement_memory_budget,
                target_segment_count: index_options.target_segment_count,
                do_merging: true,
            },
        }
    }
}

/// Wires one writer session over `directory`: a request channel bounded to
/// one in-flight message, the channel adapter for the index library, the
/// request handler owning the blocking adapter, and the worker's ends of
/// the action/reply channels.
pub fn open_session<A, R>(directory: BlockingDirectory) -> (r: (
    ChannelDirectory,
    ChannelRequestHandler<A, R>,
    WorkerEndpoints<A, R>,
))
    requires
        directory.wf(),
    ensures
        r.1.wf(),
        r.1.directory() == directory,
        forall|p: Seq<char>| !r.1.has_writer(p),
{
    let (req_sender, req_receiver) = channel_bounded::<ChannelRequest>(1);
    let channel_dir = ChannelDirectory::new(req_sender);
    let (handler, endpoints) = ChannelRequestHandler::<A, R>::open(directory, req_receiver);
    (channel_dir, handler, endpoints)
}

} // verus!
