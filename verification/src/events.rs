//! Progress events, commands, and shared transfer types.
//!
//! Progress events flow one way from the orchestrator to the consumer;
//! commands flow the other way. Every event carries the transfer id it
//! belongs to. Ghost models of the types carry the same data over
//! mathematical sequences, and contracts speak in terms of those models.

use vstd::prelude::*;

verus! {

/// How the receiver treats a file that already exists at its target path.
#[derive(Debug, Clone, Copy, PartialEq, Eq, Structural)]
pub enum ConflictResolution {
    /// Write under `name (k)` for the first free `k`.
    Rename,
    /// Delete the existing file first.
    Overwrite,
    /// Leave the existing file and skip the entry.
    Skip,
    /// Stop the transfer.
    Cancel,
}

/// Limits on concurrently active transfers, one per direction.
#[derive(Debug, Clone, Copy, PartialEq, Eq, Structural)]
pub struct TransferLimits {
    /// Most sends active at once.
    pub max_concurrent_sends: usize,
    /// Most receives active at once.
    pub max_concurrent_receives: usize,
}

impl Default for TransferLimits {
    /// Fifty concurrent transfers each way.
    fn default() -> (r: Self)
        ensures
            r.max_concurrent_sends == 50,
            r.max_concurrent_receives == 50,
    {
        TransferLimits { max_concurrent_sends: 50, max_concurrent_receives: 50 }
    }
}

/// Ghost model of a progress event.
pub enum EventModel {
    Preparing { id: Seq<char>, status: Seq<char> },
    Connecting { id: Seq<char> },
    Started { id: Seq<char>, name: Seq<char>, total_bytes: u64 },
    Progress { id: Seq<char>, transferred_bytes: u64, speed_bps: u64 },
    Connected { id: Seq<char>, is_relay: bool },
    TicketReady { id: Seq<char>, ticket: Seq<char> },
    Completed { id: Seq<char>, total_bytes: u64, duration_millis: u64 },
    Failed { id: Seq<char>, error: Seq<char> },
    Cancelled { id: Seq<char> },
    FileConflicts { id: Seq<char>, conflicts: Seq<(Seq<char>, Seq<char>)>, total_bytes: u64 },
    Queued { id: Seq<char>, position: usize },
    FileList { id: Seq<char>, files: Seq<(Seq<char>, u64)> },
}

impl EventModel {
    /// The id the event speaks of.
    pub open spec fn id(self) -> Seq<char> {
        match self {
            EventModel::Preparing { id, .. } => id,
            EventModel::Connecting { id } => id,
            EventModel::Started { id, .. } => id,
            EventModel::Progress { id, .. } => id,
            EventModel::Connected { id, .. } => id,
            EventModel::TicketReady { id, .. } => id,
            EventModel::Completed { id, .. } => id,
            EventModel::Failed { id, .. } => id,
            EventModel::Cancelled { id } => id,
            EventModel::FileConflicts { id, .. } => id,
            EventModel::Queued { id, .. } => id,
            EventModel::FileList { id, .. } => id,
        }
    }

    /// Whether the event ends its transfer's record.
    pub open spec fn is_terminal(self) -> bool {
        self is Completed || self is Failed || self is Cancelled
    }
}

/// A progress event, as emitted to the consumer.
#[derive(Debug, Clone)]
pub enum TransferProgress {
    /// The transfer is preparing; the status string is shown verbatim.
    Preparing { id: String, status: String },
    /// Waiting for the peer.
    Connecting { id: String },
    /// The label and total size are final; transfer about to run.
    Started { id: String, name: String, total_bytes: u64 },
    /// Cumulative bytes moved and current speed.
    Progress { id: String, transferred_bytes: u64, speed_bps: u64 },
    /// Peer connection established.
    Connected { id: String, is_relay: bool },
    /// The ticket to hand to the receiving side (sender only).
    TicketReady { id: String, ticket: String },
    /// Terminal: finished successfully.
    Completed { id: String, total_bytes: u64, duration_millis: u64 },
    /// Terminal: failed, with a human-readable message.
    Failed { id: String, error: String },
    /// Terminal: cancelled.
    Cancelled { id: String },
    /// Files already exist; a resolution command is expected (receiver only).
    FileConflicts { id: String, conflicts: Vec<(String, String)>, total_bytes: u64 },
    /// Waiting for a slot, at this 1-based queue position.
    Queued { id: String, position: usize },
    /// The names and sizes about to be received (receiver only).
    FileList { id: String, files: Vec<(String, u64)> },
}

/// The views of a list of `(name, text)` pairs.
pub open spec fn pair_views(s: Seq<(String, String)>) -> Seq<(Seq<char>, Seq<char>)> {
    s.map_values(|p: (String, String)| (p.0@, p.1@))
}

/// The views of a list of `(name, size)` pairs.
pub open spec fn sized_views(s: Seq<(String, u64)>) -> Seq<(Seq<char>, u64)> {
    s.map_values(|p: (String, u64)| (p.0@, p.1))
}

impl View for TransferProgress {
    type V = EventModel;

    open spec fn view(&self) -> EventModel {
        match self {
            TransferProgress::Preparing { id, status } => EventModel::Preparing {
                id: id@,
                status: status@,
            },
            TransferProgress::Connecting { id } => EventModel::Connecting { id: id@ },
            TransferProgress::Started { id, name, total_bytes } => EventModel::Started {
                id: id@,
                name: name@,
                total_bytes: *total_bytes,
            },
            TransferProgress::Progress { id, transferred_bytes, speed_bps } => EventModel::Progress {
                id: id@,
                transferred_bytes: *transferred_bytes,
                speed_bps: *speed_bps,
            },
            TransferProgress::Connected { id, is_relay } => EventModel::Connected {
                id: id@,
                is_relay: *is_relay,
            },
            TransferProgress::TicketReady { id, ticket } => EventModel::TicketReady {
                id: id@,
                ticket: ticket@,
            },
            TransferProgress::Completed { id, total_bytes, duration_millis } => EventModel::Completed {
                id: id@,
                total_bytes: *total_bytes,
                duration_millis: *duration_millis,
            },
            TransferProgress::Failed { id, error } => EventModel::Failed {
                id: id@,
                error: error@,
            },
            TransferProgress::Cancelled { id } => EventModel::Cancelled { id: id@ },
            TransferProgress::FileConflicts { id, conflicts, total_bytes } => EventModel::FileConflicts {
                id: id@,
                conflicts: pair_views(conflicts@),
                total_bytes: *total_bytes,
            },
            TransferProgress::Queued { id, position } => EventModel::Queued {
                id: id@,
                position: *position,
            },
            TransferProgress::FileList { id, files } => EventModel::FileList {
                id: id@,
                files: sized_views(files@),
            },
        }
    }
}

/// A command from the consumer to the orchestrator.
#[derive(Debug)]
pub enum TransferCommand {
    /// Offer files for upload under a fresh id.
    Send { id: String, paths: Vec<String>, follow_symlinks: bool },
    /// Fetch the contents named by a ticket into an output directory.
    Receive { id: String, ticket: String, output_dir: String },
    /// Cancel a queued or active transfer.
    Cancel { id: String },
    /// Cancel everything and stop the event loop.
    Shutdown,
    /// Answer a pending file-conflict question.
    ResolveConflict { id: String, resolution: ConflictResolution },
}

} // verus!
