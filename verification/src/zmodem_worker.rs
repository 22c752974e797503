//! The transfer worker: every decision of a transfer as one step from a state
//! and an event to the next state and the action to take. The driver around it
//! performs the actions (files, queues, waiting) and reports what came of them.

use std::collections::VecDeque;

use vstd::prelude::*;
use vstd::string::*;
use vstd::utf8::{decode_utf8, encode_utf8, valid_utf8};

use crate::bytes::copy_range;
use crate::clock::{Duration, Instant};
use crate::link::{
    receiver_file_written, receiver_poll, receiver_submit_wire, receiver_timeout, sender_finish,
    sender_poll, sender_start_file, sender_submit_file, sender_submit_wire, ActionView, LinkAction,
    ReceiverCall, ReceiverHistory, SenderCall, SenderHistory,
};
use crate::peer_headers::{PeerHeaders, PeerHeadersView};
use crate::protocol::{Protocol, ProtocolView};
use crate::transfer_handle::{chunks_view, Configuration, ConfigurationView};
use crate::zmodem_runtime::{
    checked_name, copy_path, error, is_safe_name, join_path, joined, lemma_paths_view_push,
    path_budget_failure, path_view, paths_fit, paths_view, safe_name, validate_path_budget, ErrorKind,
    ErrorView, FileOutcome, FileOutcomeView, OverwritePolicy, PathBytes, Role, RuntimeOutput,
    RuntimeOutputView, TransferError, TransferEvent, TransferEventView, TransferId, TransferOutcome,
    TransferOutcomeView, MAX_FILES, MAX_INPUT_CHUNK, MAX_PATH_BYTES,
};

verus! {

/// Time to choose files or a directory.
pub const CHOICE_TIMEOUT: Duration = 120_000_000_000;

/// Time without effective progress.
pub const TRANSFER_TIMEOUT: Duration = 30_000_000_000;

/// Silence of the peer after which the protocol repeats itself.
pub const RETRY_TIMEOUT: Duration = 5_000_000_000;

/// Time left to a receiving peer for the line end of its last header.
pub const CLOSING_TIMEOUT: Duration = 1_000_000_000;

/// Least time between two progress reports.
pub const PROGRESS_INTERVAL: Duration = 100_000_000;

/// Time left to the consumer for the last outputs.
pub const DRAIN_TIMEOUT: Duration = 1_000_000_000;

/// Last point in time that still has room for every timeout.
pub const LAST_INSTANT: Instant = 0xffff_ffe0_0000_0000;

/// Consecutive cancel bytes with which the peer cancels.
pub const CANCEL_RUN: u8 = 5;

/// The bytes reserved for the number in a renamed download's path.
pub const RENAME_RESERVE: usize = 32;

/// Why a transfer stops before its end.
#[derive(Debug)]
pub enum Stop {
    Cancelled,
    RemoteCancelled,
    Failed(TransferError),
}

/// Why a transfer stops, over plain values.
pub ghost enum StopView {
    Cancelled,
    RemoteCancelled,
    Failed(ErrorView),
}

impl View for Stop {
    type V = StopView;

    open spec fn view(&self) -> StopView {
        match *self {
            Stop::Cancelled => StopView::Cancelled,
            Stop::RemoteCancelled => StopView::RemoteCancelled,
            Stop::Failed(failure) => StopView::Failed(failure@),
        }
    }
}

/// The stop in a result, over plain values.
pub open spec fn stop_view(result: Result<(), Stop>) -> Option<StopView> {
    match result {
        Ok(_) => None,
        Err(stop) => Some(stop@),
    }
}

/// A selected file that may be uploaded.
pub struct UploadSource {
    pub path: PathBytes,
    pub name: String,
    pub len: u32,
}

/// A selected file over plain values.
pub ghost struct SourceView {
    pub path: Seq<u8>,
    pub name: Seq<char>,
    pub len: u32,
}

impl View for UploadSource {
    type V = SourceView;

    open spec fn view(&self) -> SourceView {
        SourceView { path: self.path@, name: self.name@, len: self.len }
    }
}

/// The file in flight.
pub struct CurrentFile {
    pub name: String,
    pub size: Option<u64>,
    pub bytes: u64,
    /// Whether the file is read here, not written.
    pub upload: bool,
}

/// The file in flight over plain values.
pub ghost struct FileView {
    pub name: Seq<char>,
    pub size: Option<u64>,
    pub bytes: u64,
    pub upload: bool,
}

impl View for CurrentFile {
    type V = FileView;

    open spec fn view(&self) -> FileView {
        FileView {
            name: self.name@,
            size: self.size,
            bytes: self.bytes,
            upload: self.upload,
        }
    }
}

/// What came of publishing a download.
pub enum Publication {
    /// A cancellation came first; nothing was published.
    Lost,
    /// The file stands at this path.
    Published(PathBytes),
    /// The name was taken; nothing was published.
    Skipped,
    Failed(TransferError),
}

/// What came of publishing a download, over plain values.
pub ghost enum PublicationView {
    Lost,
    Published(Seq<u8>),
    Skipped,
    Failed(ErrorView),
}

impl View for Publication {
    type V = PublicationView;

    open spec fn view(&self) -> PublicationView {
        match *self {
            Publication::Lost => PublicationView::Lost,
            Publication::Published(path) => PublicationView::Published(path@),
            Publication::Skipped => PublicationView::Skipped,
            Publication::Failed(failure) => PublicationView::Failed(failure@),
        }
    }
}

/// Whether the configuration has arrived.
pub enum Choice {
    Pending,
    /// Nobody is left to choose.
    Gone,
    Made(Configuration),
}

/// Whether the configuration has arrived, over plain values.
pub ghost enum ChoiceView {
    Pending,
    Gone,
    Made(ConfigurationView),
}

impl View for Choice {
    type V = ChoiceView;

    open spec fn view(&self) -> ChoiceView {
        match *self {
            Choice::Pending => ChoiceView::Pending,
            Choice::Gone => ChoiceView::Gone,
            Choice::Made(configuration) => ChoiceView::Made(configuration@),
        }
    }
}

/// What came of the last action.
pub enum WorkerEvent {
    /// The driver is ready for the next action.
    Resume,
    /// The state of the choice, and whether the peer cancelled in the meantime.
    Choice { remote_cancelled: bool, choice: Choice },
    Inspected(Result<UploadSource, TransferError>),
    DirectoryOpened(Result<PathBytes, TransferError>),
    Sent(Result<(), Stop>),
    SourceRead(Result<Vec<u8>, TransferError>),
    Done(Result<(), TransferError>),
    Probed(Result<bool, TransferError>),
    Published(Publication),
    /// The next queued input, if there is any.
    Input(Option<Vec<u8>>),
    /// The input was closed; this is what was still queued.
    Closed(Vec<Vec<u8>>),
}

/// What came of the last action, over plain values.
pub ghost enum WorkerEventView {
    Resume,
    Choice { remote_cancelled: bool, choice: ChoiceView },
    Inspected(Result<SourceView, ErrorView>),
    DirectoryOpened(Result<Seq<u8>, ErrorView>),
    Sent(Option<StopView>),
    SourceRead(Result<Seq<u8>, ErrorView>),
    Done(Option<ErrorView>),
    Probed(Result<bool, ErrorView>),
    Published(PublicationView),
    Input(Option<Seq<u8>>),
    Closed(Seq<Seq<u8>>),
}

impl View for WorkerEvent {
    type V = WorkerEventView;

    open spec fn view(&self) -> WorkerEventView {
        match *self {
            WorkerEvent::Resume => WorkerEventView::Resume,
            WorkerEvent::Choice { remote_cancelled, choice } => WorkerEventView::Choice {
                remote_cancelled,
                choice: choice@,
            },
            WorkerEvent::Inspected(result) => WorkerEventView::Inspected(
                match result {
                    Ok(source) => Ok(source@),
                    Err(failure) => Err(failure@),
                },
            ),
            WorkerEvent::DirectoryOpened(result) => WorkerEventView::DirectoryOpened(
                match result {
                    Ok(path) => Ok(path@),
                    Err(failure) => Err(failure@),
                },
            ),
            WorkerEvent::Sent(result) => WorkerEventView::Sent(stop_view(result)),
            WorkerEvent::SourceRead(result) => WorkerEventView::SourceRead(
                match result {
                    Ok(data) => Ok(data@),
                    Err(failure) => Err(failure@),
                },
            ),
            WorkerEvent::Done(result) => WorkerEventView::Done(
                crate::transfer_handle::failure_view(result),
            ),
            WorkerEvent::Probed(result) => WorkerEventView::Probed(
                match result {
                    Ok(taken) => Ok(taken),
                    Err(failure) => Err(failure@),
                },
            ),
            WorkerEvent::Published(publication) => WorkerEventView::Published(publication@),
            WorkerEvent::Input(chunk) => WorkerEventView::Input(path_view(chunk)),
            WorkerEvent::Closed(chunks) => WorkerEventView::Closed(chunks_view(chunks@)),
        }
    }
}

/// What the driver has to do next, and the event that it owes for it.
pub enum WorkerAction {
    /// Nothing: `Resume` at once.
    Continue,
    /// Wait to be woken or for a moment, then `Resume`.
    Wait,
    /// Look for the configuration: `Choice`.
    AwaitChoice,
    /// Inspect a selected file: `Inspected`.
    Inspect(PathBytes),
    /// Open the download directory: `DirectoryOpened`.
    OpenDirectory(PathBytes),
    /// Call [`Worker::begin`].
    Begin,
    /// Put the output into the queue, and for wire bytes wait until they are
    /// within the window: `Sent`.
    Send { output: RuntimeOutput, terminal: bool },
    /// Open the next selected file: `Done`.
    OpenSource,
    /// Read from the open source: `SourceRead`.
    ReadSource { offset: u32, max_len: usize },
    /// Check that the open source is unchanged: `Done`.
    ValidateSource,
    /// Write to the open target: `Done`.
    Store(Vec<u8>),
    /// Look whether the name is taken: `Probed`.
    Probe(String),
    /// Create a target for the name: `Done`.
    Create(String),
    /// Flush the open target to disk: `Done`.
    Sync,
    /// Publish the open target, unless cancelled first: `Published`.
    Publish,
    /// Take the next queued input: `Input`.
    TakeInput,
    /// Close the input: `Closed`.
    CloseInput,
    /// The transfer is over.
    Stop(Result<(), Stop>),
}

/// What the driver has to do next, over plain values.
pub ghost enum WorkerActionView {
    Continue,
    Wait,
    AwaitChoice,
    Inspect(Seq<u8>),
    OpenDirectory(Seq<u8>),
    Begin,
    Send { output: RuntimeOutputView, terminal: bool },
    OpenSource,
    ReadSource { offset: u32, max_len: usize },
    ValidateSource,
    Store(Seq<u8>),
    Probe(Seq<char>),
    Create(Seq<char>),
    Sync,
    Publish,
    TakeInput,
    CloseInput,
    Stop(Option<StopView>),
}

impl View for WorkerAction {
    type V = WorkerActionView;

    open spec fn view(&self) -> WorkerActionView {
        match *self {
            WorkerAction::Continue => WorkerActionView::Continue,
            WorkerAction::Wait => WorkerActionView::Wait,
            WorkerAction::AwaitChoice => WorkerActionView::AwaitChoice,
            WorkerAction::Inspect(path) => WorkerActionView::Inspect(path@),
            WorkerAction::OpenDirectory(path) => WorkerActionView::OpenDirectory(path@),
            WorkerAction::Begin => WorkerActionView::Begin,
            WorkerAction::Send { output, terminal } => WorkerActionView::Send {
                output: output@,
                terminal,
            },
            WorkerAction::OpenSource => WorkerActionView::OpenSource,
            WorkerAction::ReadSource { offset, max_len } => WorkerActionView::ReadSource {
                offset,
                max_len,
            },
            WorkerAction::ValidateSource => WorkerActionView::ValidateSource,
            WorkerAction::Store(data) => WorkerActionView::Store(data@),
            WorkerAction::Probe(name) => WorkerActionView::Probe(name@),
            WorkerAction::Create(name) => WorkerActionView::Create(name@),
            WorkerAction::Sync => WorkerActionView::Sync,
            WorkerAction::Publish => WorkerActionView::Publish,
            WorkerAction::TakeInput => WorkerActionView::TakeInput,
            WorkerAction::CloseInput => WorkerActionView::CloseInput,
            WorkerAction::Stop(result) => WorkerActionView::Stop(stop_view(result)),
        }
    }
}

/// What the worker waits for.
pub enum Stage {
    /// The user's choice.
    Choosing,
    /// Inspection of the selected files; these are still to come.
    Inspecting { paths: VecDeque<PathBytes> },
    /// The download directory.
    OpeningDirectory,
    /// The protocol.
    Beginning,
    /// The next action of the protocol.
    Polling,
    /// Wire bytes to reach the queue.
    Sending { count: usize },
    /// Data of the source.
    Reading { offset: u32 },
    /// Data to reach the target.
    Storing { count: usize },
    /// The start of a file to be reported.
    Announcing { name: String, size: Option<u64> },
    /// Whether the name is taken.
    Probing { name: String, size: Option<u64> },
    /// The report on a declined download.
    Declining,
    /// The target.
    Creating { name: String, size: Option<u64> },
    /// The source.
    Opening,
    /// A progress report.
    Progressing,
    /// The report on an upload that the peer skipped.
    Skipping,
    /// The source to be validated, or the target to reach the disk.
    Confirming,
    /// The last progress report of a file.
    Completing,
    /// The publication of the file.
    Publishing { name: String, bytes: u64 },
    /// The report on a completed file.
    Reporting,
    /// The report on a failed file.
    Failing { stop: Stop },
    /// Input from the peer.
    Fetching,
    /// The input to be closed.
    Closing,
    /// The output behind the transfer to be passed on; this is still to come.
    Tailing { tails: VecDeque<Vec<u8>> },
    /// Nothing: the transfer is over.
    Ended,
}

/// What the worker waits for, over plain values.
pub ghost enum StageView {
    Choosing,
    Inspecting { paths: Seq<Seq<u8>> },
    OpeningDirectory,
    Beginning,
    Polling,
    Sending { count: usize },
    Reading { offset: u32 },
    Storing { count: usize },
    Announcing { name: Seq<char>, size: Option<u64> },
    Probing { name: Seq<char>, size: Option<u64> },
    Declining,
    Creating { name: Seq<char>, size: Option<u64> },
    Opening,
    Progressing,
    Skipping,
    Confirming,
    Completing,
    Publishing { name: Seq<char>, bytes: u64 },
    Reporting,
    Failing { stop: StopView },
    Fetching,
    Closing,
    Tailing { tails: Seq<Seq<u8>> },
    Ended,
}

impl View for Stage {
    type V = StageView;

    open spec fn view(&self) -> StageView {
        match *self {
            Stage::Choosing => StageView::Choosing,
            Stage::Inspecting { paths } => StageView::Inspecting { paths: paths_view(paths@) },
            Stage::OpeningDirectory => StageView::OpeningDirectory,
            Stage::Beginning => StageView::Beginning,
            Stage::Polling => StageView::Polling,
            Stage::Sending { count } => StageView::Sending { count },
            Stage::Reading { offset } => StageView::Reading { offset },
            Stage::Storing { count } => StageView::Storing { count },
            Stage::Announcing { name, size } => StageView::Announcing { name: name@, size },
            Stage::Probing { name, size } => StageView::Probing { name: name@, size },
            Stage::Declining => StageView::Declining,
            Stage::Creating { name, size } => StageView::Creating { name: name@, size },
            Stage::Opening => StageView::Opening,
            Stage::Progressing => StageView::Progressing,
            Stage::Skipping => StageView::Skipping,
            Stage::Confirming => StageView::Confirming,
            Stage::Completing => StageView::Completing,
            Stage::Publishing { name, bytes } => StageView::Publishing { name: name@, bytes },
            Stage::Reporting => StageView::Reporting,
            Stage::Failing { stop } => StageView::Failing { stop: stop@ },
            Stage::Fetching => StageView::Fetching,
            Stage::Closing => StageView::Closing,
            Stage::Tailing { tails } => StageView::Tailing { tails: chunks_view(tails@) },
            Stage::Ended => StageView::Ended,
        }
    }
}

/// The worker over plain values.
pub ghost struct WorkerView {
    pub id: TransferId,
    pub role: Role,
    pub stage: StageView,
    /// The protocol, once it has begun.
    pub protocol: Option<ProtocolView>,
    /// Selected files that were not opened yet.
    pub uploads: Seq<SourceView>,
    /// Where downloads go.
    pub directory: Option<Seq<u8>>,
    pub policy: OverwritePolicy,
    /// Number of the last wire buffer.
    pub sequence: u64,
    pub deadline: Instant,
    pub last_progress: Instant,
    /// When the protocol repeats itself.
    pub retry_at: Instant,
    /// When the line end of a receiving peer's last header is no longer waited
    /// for.
    pub close_at: Instant,
    pub current: Option<FileView>,
    pub committed_paths: Seq<Seq<u8>>,
    pub committed_path_bytes: usize,
    /// Input in hand, and how much of it is used.
    pub input: Seq<u8>,
    pub offset: usize,
    /// Held cancel bytes that the protocol has not seen.
    pub cans: u8,
    /// What the peer of an upload said.
    pub peer: PeerHeadersView,
    /// The session is complete.
    pub complete: bool,
    /// How much of the end of the session was seen.
    pub closing: u8,
    /// No more files will be offered.
    pub finishing: bool,
    pub files_seen: usize,
}

/// A worker and the action that it asks for.
pub type Turn = (WorkerView, WorkerActionView);

/// Index of the first cancel byte from `from` on, or the end.
pub open spec fn run_end(input: Seq<u8>, from: int) -> int
    decreases input.len() - from,
{
    if 0 <= from < input.len() && input[from] != 0x18 {
        run_end(input, from + 1)
    } else {
        from
    }
}

/// The first of the two letters O was seen with which a sender ends its session.
pub const FIRST_LETTER: u8 = 3;

/// Nothing of the end of a session is left to come.
pub const CLOSED: u8 = 4;

/// How much of the end of a session was seen after one more byte, if the byte
/// belongs to it: a carriage return and a line feed, each of which may be
/// missing, and, where the peer is the sender, two times the letter O.
pub open spec fn closing_step(role: Role, seen: u8, byte: u8) -> Option<u8> {
    if (byte == 0x0d || byte == 0x8d) && seen < 1 {
        Some(1)
    } else if (byte == 0x0a || byte == 0x8a) && seen < 2 {
        match role {
            Role::Upload => Some(CLOSED),
            Role::Download => Some(2),
        }
    } else if role is Download && byte == 0x4f && seen < FIRST_LETTER {
        Some(FIRST_LETTER)
    } else if role is Download && byte == 0x4f && seen == FIRST_LETTER {
        Some(CLOSED)
    } else {
        None
    }
}

fn next_closing(role: Role, seen: u8, byte: u8) -> (r: Option<u8>)
    ensures
        r == closing_step(role, seen, byte),
{
    let download: bool = matches!(role, Role::Download);
    if (byte == 0x0d || byte == 0x8d) && seen < 1 {
        Some(1)
    } else if (byte == 0x0a || byte == 0x8a) && seen < 2 {
        if download {
            Some(2)
        } else {
            Some(CLOSED)
        }
    } else if download && byte == 0x4f && seen < FIRST_LETTER {
        Some(FIRST_LETTER)
    } else if download && byte == 0x4f && seen == FIRST_LETTER {
        Some(CLOSED)
    } else {
        None
    }
}

/// What is left of the input behind the transfer, piece by piece.
pub open spec fn tails_of(input: Seq<u8>, offset: int, chunks: Seq<Seq<u8>>) -> Seq<Seq<u8>> {
    if offset < input.len() {
        seq![input.skip(offset)] + chunks
    } else {
        chunks
    }
}

impl WorkerView {
    /// A worker that waits for its configuration.
    pub open spec fn new(id: TransferId, role: Role, now: Instant) -> WorkerView {
        WorkerView {
            id,
            role,
            stage: StageView::Choosing,
            protocol: None,
            uploads: Seq::empty(),
            directory: None,
            policy: OverwritePolicy::Skip,
            sequence: 0,
            deadline: (now + CHOICE_TIMEOUT) as u64,
            last_progress: now,
            retry_at: now,
            close_at: now,
            current: None,
            committed_paths: Seq::empty(),
            committed_path_bytes: 0,
            input: Seq::empty(),
            offset: 0,
            cans: 0,
            peer: PeerHeadersView::nothing(),
            complete: false,
            closing: 0,
            finishing: false,
            files_seen: 0,
        }
    }

    /// The event answers what the worker waits for.
    pub open spec fn expects(self, event: WorkerEventView) -> bool {
        match self.stage {
            StageView::Choosing => event is Resume || event is Choice,
            StageView::Inspecting { .. } => event is Inspected,
            StageView::OpeningDirectory => event is DirectoryOpened,
            StageView::Beginning => false,
            StageView::Polling => event is Resume,
            StageView::Sending { .. } => event is Sent,
            StageView::Reading { .. } => event matches WorkerEventView::SourceRead(result) && (
            result matches Ok(data) ==> data.len() <= MAX_INPUT_CHUNK),
            StageView::Storing { .. } => event is Done,
            StageView::Announcing { .. } => event is Sent,
            StageView::Probing { .. } => event is Probed,
            StageView::Declining => event is Sent,
            StageView::Creating { .. } => event is Done,
            StageView::Opening => event is Done,
            StageView::Progressing => event is Sent,
            StageView::Skipping => event is Sent,
            StageView::Confirming => event is Done,
            StageView::Completing => event is Sent,
            StageView::Publishing { .. } => event is Published,
            StageView::Reporting => event is Sent,
            StageView::Failing { .. } => event is Sent,
            StageView::Fetching => event is Input,
            StageView::Closing => event is Closed,
            StageView::Tailing { .. } => event is Sent,
            StageView::Ended => false,
        }
    }

    /// A file is in flight, and if it is a download of a known size, all of it
    /// was received.
    pub open spec fn has_whole_file(self) -> bool {
        self.current matches Some(file) && (!file.upload ==> (file.size matches Some(size)
            ==> file.bytes == size))
    }

    /// What each stage builds on: the protocol has begun, the source to open is
    /// there, the file to confirm is in flight, and its size can be counted.
    pub open spec fn wf(self) -> bool {
        match self.stage {
            StageView::Choosing => true,
            StageView::Inspecting { .. } => true,
            StageView::OpeningDirectory => true,
            StageView::Beginning => true,
            StageView::Ended => true,
            StageView::Opening => self.protocol is Some && self.uploads.len() > 0,
            StageView::Storing { count } => {
                &&& self.protocol is Some
                &&& self.current matches Some(file) && file.bytes + count <= u64::MAX
            },
            StageView::Confirming => self.protocol is Some && self.has_whole_file(),
            StageView::Completing => self.protocol is Some && self.has_whole_file(),
            StageView::Closing => self.protocol is Some && self.complete,
            StageView::Tailing { .. } => self.protocol is Some && self.complete,
            _ => self.protocol is Some,
        }
    }

    /// The transfer is over.
    pub open spec fn ended(self, stop: Option<StopView>) -> Turn {
        (WorkerView { stage: StageView::Ended, ..self }, WorkerActionView::Stop(stop))
    }

    /// The transfer fails.
    pub open spec fn failed(self, kind: ErrorKind, message: Seq<char>) -> Turn {
        self.ended(Some(StopView::Failed(ErrorView { kind, message })))
    }

    /// The worker waits in `stage` for what comes of `action`.
    pub open spec fn awaiting(self, stage: StageView, action: WorkerActionView) -> Turn {
        (WorkerView { stage, ..self }, action)
    }

    /// The worker goes on with the protocol.
    pub open spec fn going_on(self) -> Turn {
        self.awaiting(StageView::Polling, WorkerActionView::Continue)
    }

    /// The worker goes on unless there was a failure.
    pub open spec fn going_on_unless(self, failure: Option<ErrorView>) -> Turn {
        match failure {
            Some(failure) => self.ended(Some(StopView::Failed(failure))),
            None => self.going_on(),
        }
    }

    /// The worker waits in `stage` for `event` to be passed on.
    pub open spec fn reporting(
        self,
        stage: StageView,
        event: TransferEventView,
        terminal: bool,
    ) -> Turn {
        self.awaiting(
            stage,
            WorkerActionView::Send { output: RuntimeOutputView::Event(event), terminal },
        )
    }

    /// Why the transfer may not go on, if it may not.
    pub open spec fn checked(self, now: Instant, cancelled: bool) -> Option<StopView> {
        if cancelled {
            Some(StopView::Cancelled)
        } else if now >= self.deadline {
            Some(
                StopView::Failed(
                    ErrorView {
                        kind: ErrorKind::Timeout,
                        message: "No effective transfer progress before deadline"@,
                    },
                ),
            )
        } else {
            None
        }
    }

    /// Progress was made: the deadline starts anew.
    pub open spec fn renewed(self, now: Instant) -> WorkerView {
        WorkerView { deadline: (now + TRANSFER_TIMEOUT) as u64, ..self }
    }

    /// The report on the progress of `file`.
    pub open spec fn progress_event(self, file: FileView) -> TransferEventView {
        TransferEventView::Progress {
            id: self.id,
            role: self.role,
            name: file.name,
            bytes: file.bytes,
            total: file.size,
        }
    }

    /// The report on the end of a file.
    pub open spec fn result_event(
        self,
        name: Seq<char>,
        bytes: u64,
        outcome: FileOutcomeView,
        path: Option<Seq<u8>>,
    ) -> TransferEventView {
        TransferEventView::FileResult { id: self.id, role: self.role, name, bytes, outcome, path }
    }

    /// Reports progress, but not too often.
    pub open spec fn progressing(self, now: Instant) -> Turn {
        match self.current {
            Some(file) => if now - self.last_progress < PROGRESS_INTERVAL {
                self.going_on()
            } else {
                self.reporting(StageView::Progressing, self.progress_event(file), false)
            },
            None => self.going_on(),
        }
    }

    /// The next file to inspect, or the beginning of the protocol.
    pub open spec fn inspecting(self, paths: Seq<Seq<u8>>, now: Instant, cancelled: bool) -> Turn {
        if paths.len() == 0 {
            self.awaiting(StageView::Beginning, WorkerActionView::Begin)
        } else {
            match self.checked(now, cancelled) {
                Some(stop) => self.ended(Some(stop)),
                None => self.awaiting(
                    StageView::Inspecting { paths: paths.skip(1) },
                    WorkerActionView::Inspect(paths[0]),
                ),
            }
        }
    }

    /// The choice is looked at: cancellation, the deadline and a remote
    /// cancellation come before a configuration.
    pub open spec fn choosing(self, event: WorkerEventView, now: Instant, cancelled: bool) -> Turn {
        match event {
            WorkerEventView::Choice { remote_cancelled, choice } => match self.checked(
                now,
                cancelled,
            ) {
                Some(stop) => self.ended(Some(stop)),
                None => if remote_cancelled {
                    self.ended(Some(StopView::RemoteCancelled))
                } else {
                    match choice {
                        ChoiceView::Pending => self.awaiting(
                            StageView::Choosing,
                            WorkerActionView::Wait,
                        ),
                        ChoiceView::Gone => self.ended(Some(StopView::Cancelled)),
                        ChoiceView::Made(ConfigurationView::Upload(paths)) => self.inspecting(
                            paths,
                            now,
                            cancelled,
                        ),
                        ChoiceView::Made(ConfigurationView::Download(directory, policy)) => (
                        WorkerView { policy, ..self }).awaiting(
                            StageView::OpeningDirectory,
                            WorkerActionView::OpenDirectory(directory),
                        ),
                    }
                },
            },
            _ => self.awaiting(StageView::Choosing, WorkerActionView::AwaitChoice),
        }
    }

    /// A file was announced: its name and the number of files are checked
    /// before anything is reported.
    pub open spec fn announcing(self, name: Seq<u8>, size: Option<u64>, now: Instant) -> Turn {
        match checked_name(name) {
            Err(failure) => self.ended(Some(StopView::Failed(failure))),
            Ok(name) => if self.files_seen >= MAX_FILES {
                self.failed(ErrorKind::Configuration, "Batch exceeds 128 files"@)
            } else {
                let next = (WorkerView { files_seen: (self.files_seen + 1) as usize, ..self })
                    .renewed(now);
                next.reporting(
                    StageView::Announcing { name, size },
                    TransferEventView::FileStarted { id: self.id, role: self.role, name, size },
                    false,
                )
            },
        }
    }

    /// The start of a file was reported: a download is looked up or created if
    /// its path still fits into the budget.
    pub open spec fn announced(self, name: Seq<char>, size: Option<u64>) -> Turn {
        match self.directory {
            None => self.going_on(),
            Some(directory) => {
                let path = joined(directory, encode_utf8(name));
                if self.committed_path_bytes + path.len() + RENAME_RESERVE > MAX_PATH_BYTES {
                    self.failed(
                        ErrorKind::Configuration,
                        "Download path metadata budget exceeded"@,
                    )
                } else if self.policy is Skip {
                    self.awaiting(
                        StageView::Probing { name, size },
                        WorkerActionView::Probe(name),
                    )
                } else {
                    self.awaiting(
                        StageView::Creating { name, size },
                        WorkerActionView::Create(name),
                    )
                }
            },
        }
    }

    /// The protocol's next action.
    pub open spec fn polling(self, now: Instant, cancelled: bool) -> Turn {
        match self.checked(now, cancelled) {
            Some(stop) => self.ended(Some(stop)),
            None => {
                let (protocol, action) = (self.protocol->0).polled();
                (WorkerView { protocol: Some(protocol), ..self }).acting(action, now)
            },
        }
    }

    /// What the worker does with an action of the protocol.
    pub open spec fn acting(self, action: ActionView, now: Instant) -> Turn {
        match action {
            ActionView::WriteWire(bytes) => if bytes.len() > MAX_INPUT_CHUNK {
                self.failed(ErrorKind::Protocol, "Native wire buffer exceeded budget"@)
            } else {
                let sequence = (self.sequence + 1) as u64;
                (WorkerView { sequence, ..self }).awaiting(
                    StageView::Sending { count: bytes.len() as usize },
                    WorkerActionView::Send {
                        output: RuntimeOutputView::Wire { id: self.id, sequence, bytes },
                        terminal: false,
                    },
                )
            },
            ActionView::ReadFile { offset, max_len } => match self.current {
                None => self.failed(ErrorKind::Protocol, "File read without an active upload"@),
                Some(file) => if file.upload {
                    self.awaiting(
                        StageView::Reading { offset },
                        WorkerActionView::ReadSource { offset, max_len },
                    )
                } else {
                    self.failed(ErrorKind::Protocol, "Read requested during download"@)
                },
            },
            ActionView::WriteFile(data) => match self.current {
                None => self.failed(ErrorKind::Protocol, "File data without acceptance"@),
                Some(file) => if file.upload {
                    self.failed(ErrorKind::Protocol, "Write requested during upload"@)
                } else if file.bytes + data.len() > match file.size {
                    Some(size) => size,
                    None => u64::MAX,
                } {
                    self.failed(ErrorKind::Protocol, "Received data exceeds advertised size"@)
                } else {
                    self.awaiting(
                        StageView::Storing { count: data.len() as usize },
                        WorkerActionView::Store(data),
                    )
                },
            },
            ActionView::FileStarted { name, size } => self.announcing(
                name,
                match size {
                    Some(size) => Some(size as u64),
                    None => None,
                },
                now,
            ),
            ActionView::FileCompleted => self.finishing_file(),
            ActionView::SessionCompleted => if self.current is Some {
                self.failed(ErrorKind::Protocol, "Session finished with an incomplete file"@)
            } else {
                (WorkerView {
                    complete: true,
                    close_at: (now + CLOSING_TIMEOUT) as u64,
                    ..self
                }).going_on()
            },
            ActionView::Aborted => self.ended(Some(StopView::RemoteCancelled)),
            ActionView::Idle => self.idling(now),
            _ => self.failed(ErrorKind::Protocol, "Unsupported native protocol action"@),
        }
    }

    /// The protocol is through with the file in flight: a download of the
    /// announced size goes to disk, and an upload is validated unless the peer
    /// declined it with its last header.
    pub open spec fn finishing_file(self) -> Turn {
        match self.current {
            None => self.failed(ErrorKind::Protocol, "Completion without an active file"@),
            Some(file) => if file.upload {
                if self.peer.skipped {
                    (WorkerView { current: None, ..self }).reporting(
                        StageView::Skipping,
                        self.result_event(
                            file.name,
                            file.bytes,
                            FileOutcomeView::Skipped,
                            None,
                        ),
                        false,
                    )
                } else {
                    self.awaiting(StageView::Confirming, WorkerActionView::ValidateSource)
                }
            } else if file.size matches Some(size) && file.bytes != size {
                self.failed(
                    ErrorKind::Protocol,
                    "Received file size does not match metadata"@,
                )
            } else {
                self.awaiting(StageView::Confirming, WorkerActionView::Sync)
            },
        }
    }

    /// The protocol waits: the transfer closes, offers the next file, ends the
    /// batch, or turns to its input.
    pub open spec fn idling(self, now: Instant) -> Turn {
        if self.complete {
            self.closing_down()
        } else if self.current is None && !self.finishing && self.protocol
            matches Some(ProtocolView::Upload(_)) {
            if self.uploads.len() > 0 {
                self.awaiting(StageView::Opening, WorkerActionView::OpenSource)
            } else {
                let (protocol, failure) = (self.protocol->0).finished();
                (WorkerView { protocol: Some(protocol), ..self }).batch_ended(failure)
            }
        } else if self.offset >= self.input.len() {
            self.awaiting(StageView::Fetching, WorkerActionView::TakeInput)
        } else {
            self.consuming(now)
        }
    }

    /// The protocol was told that there are no more files, or refused it.
    pub open spec fn batch_ended(self, failure: Option<ErrorView>) -> Turn {
        (WorkerView { finishing: failure is None, ..self }).going_on_unless(failure)
    }

    /// The protocol is through with the session: the line end of the peer's
    /// last header and a sender's two closing letters belong to the transfer,
    /// everything behind them does not. A session with a sender is not over
    /// before both letters came; what comes in their place is not taken, and
    /// the worker waits for its deadline. A receiver need not end its line.
    pub open spec fn closing_down(self) -> Turn {
        if self.closing >= CLOSED {
            self.awaiting(StageView::Closing, WorkerActionView::CloseInput)
        } else if self.offset >= self.input.len() {
            self.awaiting(StageView::Fetching, WorkerActionView::TakeInput)
        } else if self.role is Download && self.input[self.offset as int] == 0x18 {
            self.holding_cancel()
        } else {
            match closing_step(self.role, self.closing, self.input[self.offset as int]) {
                Some(closing) if self.cans == 0 => (WorkerView {
                    offset: (self.offset + 1) as usize,
                    closing,
                    ..self
                }).going_on(),
                _ => match self.role {
                    Role::Upload => self.awaiting(
                        StageView::Closing,
                        WorkerActionView::CloseInput,
                    ),
                    Role::Download => self.awaiting(StageView::Polling, WorkerActionView::Wait),
                },
            }
        }
    }

    /// One more cancel byte of the peer: it is held, or ends a run that is long
    /// enough to cancel.
    pub open spec fn holding_cancel(self) -> Turn {
        if self.cans + 1 >= CANCEL_RUN {
            self.ended(Some(StopView::RemoteCancelled))
        } else {
            (WorkerView {
                cans: (self.cans + 1) as u8,
                offset: (self.offset + 1) as usize,
                ..self
            }).going_on()
        }
    }

    /// The input in hand: cancel bytes are held until their run ends or is long
    /// enough to cancel; the protocol gets them and everything else in order.
    pub open spec fn consuming(self, now: Instant) -> Turn {
        if self.input[self.offset as int] == 0x18 {
            self.holding_cancel()
        } else {
            let held = self.cans > 0;
            let bytes = if held {
                Seq::new(self.cans as nat, |i: int| 0x18u8)
            } else {
                self.input.subrange(
                    self.offset as int,
                    run_end(self.input, self.offset as int),
                )
            };
            let (protocol, result) = (self.protocol->0).submitted(bytes);
            (WorkerView { protocol: Some(protocol), ..self }).consumed(held, result, now)
        }
    }

    /// The worker listens to bytes that the protocol of an upload took.
    pub open spec fn listening(self, bytes: Seq<u8>) -> WorkerView {
        match self.role {
            Role::Upload => WorkerView { peer: self.peer.heard(bytes), ..self },
            Role::Download => self,
        }
    }

    /// The protocol took some of the held cancel bytes, or some of the input;
    /// one that takes nothing cannot go on.
    pub open spec fn consumed(
        self,
        held: bool,
        result: Result<usize, ErrorView>,
        now: Instant,
    ) -> Turn {
        match result {
            Err(failure) => self.ended(Some(StopView::Failed(failure))),
            Ok(count) => if count == 0 {
                self.failed(
                    ErrorKind::Protocol,
                    if held {
                        "Native escape made no progress"@
                    } else {
                        "Native protocol made no input progress"@
                    },
                )
            } else if held {
                (WorkerView { cans: (self.cans - count) as u8, ..self }).listening(
                    Seq::new(count as nat, |i: int| 0x18u8),
                ).going_on()
            } else {
                (WorkerView {
                    offset: (self.offset + count) as usize,
                    retry_at: (now + RETRY_TIMEOUT) as u64,
                    ..self
                }).listening(
                    self.input.subrange(self.offset as int, self.offset + count),
                ).confirming(now)
            },
        }
    }

    /// The peer of an upload may have confirmed more of the file than was read:
    /// that much counts as progress.
    pub open spec fn confirming(self, now: Instant) -> Turn {
        match (self.current, self.peer.position) {
            (Some(file), Some(position)) if self.role is Upload && position > file.bytes => (
            WorkerView {
                current: Some(FileView { bytes: position as u64, ..file }),
                ..self
            }).renewed(now).progressing(now),
            _ => self.going_on(),
        }
    }

    /// The next input arrived, or there was none.
    pub open spec fn fetched(self, chunk: Option<Seq<u8>>, now: Instant) -> Turn {
        let input = match chunk {
            Some(chunk) => chunk,
            None => Seq::empty(),
        };
        let next = WorkerView { input, offset: 0, ..self };
        if input.len() > 0 {
            if self.complete {
                next.closing_down()
            } else {
                next.consuming(now)
            }
        } else if self.complete && self.role is Upload {
            if now >= self.close_at {
                next.awaiting(StageView::Closing, WorkerActionView::CloseInput)
            } else {
                next.awaiting(StageView::Polling, WorkerActionView::Wait)
            }
        } else if now >= self.retry_at {
            let (protocol, failure) = (self.protocol->0).timed_out();
            (WorkerView { protocol: Some(protocol), ..next }).repeated(failure, now)
        } else {
            next.awaiting(StageView::Polling, WorkerActionView::Wait)
        }
    }

    /// The protocol repeated itself to a silent peer, or could not.
    pub open spec fn repeated(self, failure: Option<ErrorView>, now: Instant) -> Turn {
        match failure {
            Some(failure) => self.ended(Some(StopView::Failed(failure))),
            None => (WorkerView { retry_at: (now + RETRY_TIMEOUT) as u64, ..self }).awaiting(
                StageView::Polling,
                WorkerActionView::Wait,
            ),
        }
    }

    /// The next piece of output behind the transfer, or the end.
    pub open spec fn tailing(self, tails: Seq<Seq<u8>>) -> Turn {
        if tails.len() == 0 {
            self.ended(None)
        } else {
            self.awaiting(
                StageView::Tailing { tails: tails.skip(1) },
                WorkerActionView::Send {
                    output: RuntimeOutputView::Tail { id: self.id, bytes: tails[0] },
                    terminal: false,
                },
            )
        }
    }

    /// Data of the source arrived.
    pub open spec fn read(
        self,
        offset: u32,
        result: Result<Seq<u8>, ErrorView>,
        now: Instant,
        cancelled: bool,
    ) -> Turn {
        match result {
            Err(failure) => self.ended(Some(StopView::Failed(failure))),
            Ok(data) => match self.checked(now, cancelled) {
                Some(stop) => self.ended(Some(stop)),
                None => {
                    let (protocol, failure) = (self.protocol->0).supplied(data);
                    (WorkerView { protocol: Some(protocol), ..self }).supplied(
                        (offset + data.len()) as u64,
                        failure,
                        now,
                    )
                },
            },
        }
    }

    /// The protocol took the data of the source up to `end`, or refused it.
    pub open spec fn supplied(self, end: u64, failure: Option<ErrorView>, now: Instant) -> Turn {
        match failure {
            Some(failure) => self.ended(Some(StopView::Failed(failure))),
            None => (WorkerView {
                current: match self.current {
                    Some(file) => Some(FileView { bytes: end, ..file }),
                    None => None,
                },
                ..self
            }).renewed(now).progressing(now),
        }
    }

    /// Data reached the target.
    pub open spec fn stored(self, count: usize, now: Instant, cancelled: bool) -> Turn {
        let counted = WorkerView {
            current: match self.current {
                Some(file) => Some(FileView { bytes: (file.bytes + count) as u64, ..file }),
                None => None,
            },
            ..self
        };
        match self.checked(now, cancelled) {
            Some(stop) => counted.ended(Some(stop)),
            None => {
                let (protocol, failure) = (self.protocol->0).stored(count);
                (WorkerView { protocol: Some(protocol), ..counted }).confirmed_stored(
                    count,
                    failure,
                    now,
                )
            },
        }
    }

    /// The protocol was told of stored data, or refused it.
    pub open spec fn confirmed_stored(
        self,
        count: usize,
        failure: Option<ErrorView>,
        now: Instant,
    ) -> Turn {
        match failure {
            Some(failure) => self.ended(Some(StopView::Failed(failure))),
            None => if count == 0 {
                self.going_on()
            } else {
                self.renewed(now).progressing(now)
            },
        }
    }

    /// The target exists: the file is accepted.
    pub open spec fn created(
        self,
        name: Seq<char>,
        size: Option<u64>,
        now: Instant,
        cancelled: bool,
    ) -> Turn {
        let opened = WorkerView {
            current: Some(FileView { name, size, bytes: 0, upload: false }),
            ..self
        };
        match self.checked(now, cancelled) {
            Some(stop) => opened.ended(Some(stop)),
            None => {
                let (protocol, failure) = (self.protocol->0).accepted();
                (WorkerView { protocol: Some(protocol), ..opened }).going_on_unless(failure)
            },
        }
    }

    /// The source is open: the file is offered and its start reported.
    pub open spec fn opened(self, now: Instant) -> Turn {
        let source = self.uploads[0];
        let (protocol, failure) = (self.protocol->0).offered(encode_utf8(source.name), source.len);
        (WorkerView {
            protocol: Some(protocol),
            uploads: self.uploads.skip(1),
            ..self
        }).offered(source.name, source.len, failure, now)
    }

    /// The protocol took a file to offer, or refused it.
    pub open spec fn offered(
        self,
        name: Seq<char>,
        len: u32,
        failure: Option<ErrorView>,
        now: Instant,
    ) -> Turn {
        match failure {
            Some(failure) => self.ended(Some(StopView::Failed(failure))),
            None => (WorkerView {
                current: Some(
                    FileView { name, size: Some(len as u64), bytes: 0, upload: true },
                ),
                peer: PeerHeadersView { position: None, ..self.peer },
                ..self
            }).announcing(encode_utf8(name), Some(len as u64), now),
        }
    }

    /// The source is unchanged or the target is on disk: the last progress of
    /// the file is reported.
    pub open spec fn confirmed(self, now: Instant, cancelled: bool) -> Turn {
        let file = self.current->0;
        let counted = FileView {
            bytes: if file.upload && file.size is Some {
                file.size->0
            } else {
                file.bytes
            },
            ..file
        };
        let next = WorkerView { current: Some(counted), ..self };
        match self.checked(now, cancelled) {
            Some(stop) => next.ended(Some(stop)),
            None => next.reporting(StageView::Completing, self.progress_event(counted), false),
        }
    }

    /// The last progress of the file was reported: an upload is complete, a
    /// download is published.
    pub open spec fn completing(self, now: Instant) -> Turn {
        let file = self.current->0;
        let next = WorkerView { current: None, last_progress: now, ..self };
        if file.upload {
            next.reporting(
                StageView::Reporting,
                self.result_event(file.name, file.bytes, FileOutcomeView::Completed, None),
                true,
            )
        } else if self.directory is None {
            next.failed(ErrorKind::Configuration, "Missing download directory"@)
        } else {
            next.awaiting(
                StageView::Publishing { name: file.name, bytes: file.bytes },
                WorkerActionView::Publish,
            )
        }
    }

    /// The download was published, or was not; either is reported truthfully.
    pub open spec fn published(
        self,
        name: Seq<char>,
        bytes: u64,
        publication: PublicationView,
    ) -> Turn {
        match publication {
            PublicationView::Lost => self.reporting(
                StageView::Failing { stop: StopView::Cancelled },
                self.result_event(
                    name,
                    bytes,
                    FileOutcomeView::Failed(
                        ErrorView {
                            kind: ErrorKind::Protocol,
                            message: "File transfer cancelled before publication"@,
                        },
                    ),
                    None,
                ),
                true,
            ),
            PublicationView::Published(path) => {
                let total = self.committed_path_bytes + path.len();
                (WorkerView {
                    committed_paths: self.committed_paths.push(path),
                    committed_path_bytes: if total > usize::MAX {
                        usize::MAX
                    } else {
                        total as usize
                    },
                    ..self
                }).reporting(
                    StageView::Reporting,
                    self.result_event(name, bytes, FileOutcomeView::Completed, Some(path)),
                    true,
                )
            },
            PublicationView::Skipped => self.reporting(
                StageView::Reporting,
                self.result_event(name, bytes, FileOutcomeView::Skipped, None),
                true,
            ),
            PublicationView::Failed(failure) => self.reporting(
                StageView::Failing { stop: StopView::Failed(failure) },
                self.result_event(name, bytes, FileOutcomeView::Failed(failure), None),
                true,
            ),
        }
    }

    /// An output was passed on, or could not be.
    pub open spec fn sent(
        self,
        stage: StageView,
        failure: Option<StopView>,
        now: Instant,
        cancelled: bool,
    ) -> Turn {
        match (failure, stage) {
            (Some(stop), _) => self.ended(Some(stop)),
            (None, StageView::Sending { count }) => (WorkerView {
                protocol: Some((self.protocol->0).written(count)),
                ..self
            }).going_on(),
            (None, StageView::Announcing { name, size }) => self.announced(name, size),
            (None, StageView::Declining) => {
                let (protocol, failure) = (self.protocol->0).declined();
                (WorkerView { protocol: Some(protocol), ..self }).going_on_unless(failure)
            },
            (None, StageView::Progressing) => (WorkerView {
                last_progress: now,
                ..self
            }).going_on(),
            (None, StageView::Skipping) => self.renewed(now).going_on(),
            (None, StageView::Completing) => self.completing(now),
            (None, StageView::Reporting) => match self.checked(now, cancelled) {
                Some(stop) => self.ended(Some(stop)),
                None => self.renewed(now).going_on(),
            },
            (None, StageView::Failing { stop }) => self.ended(Some(stop)),
            (None, StageView::Tailing { tails }) => self.tailing(tails),
            _ => self.going_on(),
        }
    }

    /// A file operation was done.
    pub open spec fn done(
        self,
        stage: StageView,
        failure: Option<ErrorView>,
        now: Instant,
        cancelled: bool,
    ) -> Turn {
        match (failure, stage) {
            (Some(failure), _) => self.ended(Some(StopView::Failed(failure))),
            (None, StageView::Storing { count }) => self.stored(count, now, cancelled),
            (None, StageView::Creating { name, size }) => self.created(name, size, now, cancelled),
            (None, StageView::Opening) => self.opened(now),
            _ => self.confirmed(now, cancelled),
        }
    }

    /// A selected file was inspected; the rest of them is still to come.
    pub open spec fn inspected(
        self,
        paths: Seq<Seq<u8>>,
        result: Result<SourceView, ErrorView>,
        now: Instant,
        cancelled: bool,
    ) -> Turn {
        match result {
            Err(failure) => self.ended(Some(StopView::Failed(failure))),
            Ok(source) => (WorkerView {
                uploads: self.uploads.push(source),
                ..self
            }).inspecting(paths, now, cancelled),
        }
    }

    /// The download directory was opened.
    pub open spec fn directory_opened(self, result: Result<Seq<u8>, ErrorView>) -> Turn {
        match result {
            Err(failure) => self.ended(Some(StopView::Failed(failure))),
            Ok(directory) => if paths_fit(seq![directory]) {
                (WorkerView { directory: Some(directory), ..self }).awaiting(
                    StageView::Beginning,
                    WorkerActionView::Begin,
                )
            } else {
                self.ended(Some(StopView::Failed(path_budget_failure())))
            },
        }
    }

    /// The name of a download was looked up: a taken one is declined.
    pub open spec fn probed(
        self,
        name: Seq<char>,
        size: Option<u64>,
        result: Result<bool, ErrorView>,
    ) -> Turn {
        match result {
            Err(failure) => self.ended(Some(StopView::Failed(failure))),
            Ok(taken) => if taken {
                self.reporting(
                    StageView::Declining,
                    self.result_event(name, 0, FileOutcomeView::Skipped, None),
                    false,
                )
            } else {
                self.awaiting(StageView::Creating { name, size }, WorkerActionView::Create(name))
            },
        }
    }

    /// The same worker, waiting for nothing.
    pub open spec fn rested(self) -> WorkerView {
        WorkerView { stage: StageView::Ended, ..self }
    }

    /// One step of the worker.
    pub open spec fn advanced(self, event: WorkerEventView, now: Instant, cancelled: bool) -> Turn {
        let worker = self.rested();
        match (self.stage, event) {
            (StageView::Choosing, _) => worker.choosing(event, now, cancelled),
            (
                StageView::Inspecting { paths },
                WorkerEventView::Inspected(result),
            ) => worker.inspected(paths, result, now, cancelled),
            (
                StageView::OpeningDirectory,
                WorkerEventView::DirectoryOpened(result),
            ) => worker.directory_opened(result),
            (StageView::Polling, _) => worker.polling(now, cancelled),
            (StageView::Reading { offset }, WorkerEventView::SourceRead(result)) => worker.read(
                offset,
                result,
                now,
                cancelled,
            ),
            (StageView::Probing { name, size }, WorkerEventView::Probed(result)) => worker.probed(
                name,
                size,
                result,
            ),
            (
                StageView::Publishing { name, bytes },
                WorkerEventView::Published(publication),
            ) => worker.published(name, bytes, publication),
            (StageView::Fetching, WorkerEventView::Input(chunk)) => worker.fetched(chunk, now),
            (StageView::Closing, WorkerEventView::Closed(chunks)) => worker.tailing(
                tails_of(self.input, self.offset as int, chunks),
            ),
            (stage, WorkerEventView::Sent(failure)) => worker.sent(stage, failure, now, cancelled),
            (stage, WorkerEventView::Done(failure)) => worker.done(stage, failure, now, cancelled),
            _ => worker.going_on(),
        }
    }
}

/// The view of outputs.
pub open spec fn outputs_view(outputs: Seq<RuntimeOutput>) -> Seq<RuntimeOutputView> {
    outputs.map_values(|output: RuntimeOutput| output@)
}

impl WorkerView {
    /// How the transfer ended.
    pub open spec fn outcome(stop: Option<StopView>) -> TransferOutcomeView {
        match stop {
            None => TransferOutcomeView::Completed,
            Some(StopView::Cancelled) => TransferOutcomeView::Cancelled,
            Some(StopView::RemoteCancelled) => TransferOutcomeView::RemoteCancelled,
            Some(StopView::Failed(failure)) => TransferOutcomeView::Failed(failure),
        }
    }

    /// The report on the file that a stopped transfer leaves behind.
    pub open spec fn abandoned(self, file: FileView, stop: StopView) -> RuntimeOutputView {
        RuntimeOutputView::Event(
            self.result_event(
                file.name,
                file.bytes,
                FileOutcomeView::Failed(
                    match stop {
                        StopView::Failed(failure) => failure,
                        _ => ErrorView {
                            kind: ErrorKind::Protocol,
                            message: "File transfer cancelled"@,
                        },
                    },
                ),
                None,
            ),
        )
    }

    /// The last outputs: a transfer that did not complete is aborted and its
    /// file in flight has failed; the end with all published paths is last.
    pub open spec fn concluded(self, stop: Option<StopView>) -> Seq<RuntimeOutputView> {
        let finished = RuntimeOutputView::Event(
            TransferEventView::Finished {
                id: self.id,
                role: self.role,
                outcome: WorkerView::outcome(stop),
                committed_paths: self.committed_paths,
            },
        );
        match (stop, self.current) {
            (None, _) => seq![finished],
            (Some(stop), None) => seq![RuntimeOutputView::Abort { id: self.id }, finished],
            (Some(stop), Some(file)) => seq![
                RuntimeOutputView::Abort { id: self.id },
                self.abandoned(file, stop),
                finished,
            ],
        }
    }
}

/// The view of sources.
pub open spec fn sources_view(sources: Seq<UploadSource>) -> Seq<SourceView> {
    sources.map_values(|source: UploadSource| source@)
}

/// The transfer worker.
pub struct Worker {
    id: TransferId,
    role: Role,
    stage: Stage,
    protocol: Option<Protocol>,
    uploads: VecDeque<UploadSource>,
    directory: Option<PathBytes>,
    policy: OverwritePolicy,
    sequence: u64,
    deadline: Instant,
    last_progress: Instant,
    retry_at: Instant,
    close_at: Instant,
    current: Option<CurrentFile>,
    committed_paths: Vec<PathBytes>,
    committed_path_bytes: usize,
    input: Vec<u8>,
    offset: usize,
    cans: u8,
    peer: PeerHeaders,
    complete: bool,
    closing: u8,
    finishing: bool,
    files_seen: usize,
}

impl View for Worker {
    type V = WorkerView;

    closed spec fn view(&self) -> WorkerView {
        WorkerView {
            id: self.id,
            role: self.role,
            stage: self.stage@,
            protocol: match self.protocol {
                Some(protocol) => Some(protocol@),
                None => None,
            },
            uploads: sources_view(self.uploads@),
            directory: path_view(self.directory),
            policy: self.policy,
            sequence: self.sequence,
            deadline: self.deadline,
            last_progress: self.last_progress,
            retry_at: self.retry_at,
            close_at: self.close_at,
            current: match self.current {
                Some(file) => Some(file@),
                None => None,
            },
            committed_paths: paths_view(self.committed_paths@),
            committed_path_bytes: self.committed_path_bytes,
            input: self.input@,
            offset: self.offset,
            cans: self.cans,
            peer: self.peer@,
            complete: self.complete,
            closing: self.closing,
            finishing: self.finishing,
            files_seen: self.files_seen,
        }
    }
}

impl Worker {
    /// A worker that waits for its configuration.
    pub fn new(id: TransferId, role: Role, now: Instant) -> (r: Self)
        requires
            now <= LAST_INSTANT,
        ensures
            r@ == WorkerView::new(id, role, now),
            r@.wf(),
    {
        let worker = Worker {
            id,
            role,
            stage: Stage::Choosing,
            protocol: None,
            uploads: VecDeque::new(),
            directory: None,
            policy: OverwritePolicy::Skip,
            sequence: 0,
            deadline: now + CHOICE_TIMEOUT,
            last_progress: now,
            retry_at: now,
            close_at: now,
            current: None,
            committed_paths: Vec::new(),
            committed_path_bytes: 0,
            input: Vec::new(),
            offset: 0,
            cans: 0,
            peer: PeerHeaders::new(),
            complete: false,
            closing: 0,
            finishing: false,
            files_seen: 0,
        };
        assert(worker@.uploads =~= Seq::<SourceView>::empty());
        assert(worker@.committed_paths =~= Seq::<Seq<u8>>::empty());
        worker
    }

    /// Why the transfer may not go on, if it may not.
    pub fn check(&self, now: Instant, cancelled: bool) -> (r: Result<(), Stop>)
        ensures
            stop_view(r) == self@.checked(now, cancelled),
    {
        if cancelled {
            return Err(Stop::Cancelled);
        }
        if now >= self.deadline {
            return Err(
                Stop::Failed(
                    error(ErrorKind::Timeout, "No effective transfer progress before deadline"),
                ),
            );
        }
        Ok(())
    }

    /// Whether an output may still be offered to the queue: a terminal output
    /// until its own deadline, any other while the transfer may go on.
    pub fn may_emit(
        &self,
        terminal: bool,
        drain_deadline: Instant,
        now: Instant,
        cancelled: bool,
    ) -> (r: Result<(), Stop>)
        ensures
            stop_view(r) == if !terminal {
                self@.checked(now, cancelled)
            } else if now >= drain_deadline {
                Some(
                    StopView::Failed(
                        ErrorView {
                            kind: ErrorKind::WorkerStopped,
                            message: "Transfer event consumer stalled"@,
                        },
                    ),
                )
            } else {
                None
            },
    {
        if terminal {
            if now >= drain_deadline {
                return Err(
                    Stop::Failed(
                        error(ErrorKind::WorkerStopped, "Transfer event consumer stalled"),
                    ),
                );
            }
            Ok(())
        } else {
            self.check(now, cancelled)
        }
    }

    /// Whether the event answers what the worker waits for.
    pub fn expects(&self, event: &WorkerEvent) -> (r: bool)
        ensures
            r == self@.expects(event@),
    {
        match &self.stage {
            Stage::Choosing => matches!(event, WorkerEvent::Resume | WorkerEvent::Choice { .. }),
            Stage::Inspecting { .. } => matches!(event, WorkerEvent::Inspected(_)),
            Stage::OpeningDirectory => matches!(event, WorkerEvent::DirectoryOpened(_)),
            Stage::Beginning => false,
            Stage::Polling => matches!(event, WorkerEvent::Resume),
            Stage::Reading { .. } => match event {
                WorkerEvent::SourceRead(Ok(data)) => data.len() <= MAX_INPUT_CHUNK,
                WorkerEvent::SourceRead(Err(_)) => true,
                _ => false,
            },
            Stage::Probing { .. } => matches!(event, WorkerEvent::Probed(_)),
            Stage::Storing { .. } => matches!(event, WorkerEvent::Done(_)),
            Stage::Creating { .. } => matches!(event, WorkerEvent::Done(_)),
            Stage::Opening => matches!(event, WorkerEvent::Done(_)),
            Stage::Confirming => matches!(event, WorkerEvent::Done(_)),
            Stage::Publishing { .. } => matches!(event, WorkerEvent::Published(_)),
            Stage::Fetching => matches!(event, WorkerEvent::Input(_)),
            Stage::Closing => matches!(event, WorkerEvent::Closed(_)),
            Stage::Ended => false,
            _ => matches!(event, WorkerEvent::Sent(_)),
        }
    }

    fn end(&mut self, result: Result<(), Stop>) -> (r: WorkerAction)
        ensures
            (final(self)@, r@) == old(self)@.ended(stop_view(result)),
    {
        self.stage = Stage::Ended;
        WorkerAction::Stop(result)
    }

    fn fail(&mut self, kind: ErrorKind, message: &str) -> (r: WorkerAction)
        ensures
            (final(self)@, r@) == old(self)@.failed(kind, message@),
    {
        self.end(Err(Stop::Failed(error(kind, message))))
    }

    fn go_on(&mut self) -> (r: WorkerAction)
        ensures
            (final(self)@, r@) == old(self)@.going_on(),
    {
        self.stage = Stage::Polling;
        WorkerAction::Continue
    }

    /// Goes on with the protocol, unless it refused the last call.
    pub fn go_on_unless(&mut self, result: Result<(), TransferError>) -> (r: WorkerAction)
        ensures
            (final(self)@, r@) == old(self)@.going_on_unless(
                crate::transfer_handle::failure_view(result),
            ),
    {
        match result {
            Ok(()) => self.go_on(),
            Err(failure) => self.end(Err(Stop::Failed(failure))),
        }
    }

    fn report(&mut self, stage: Stage, event: TransferEvent, terminal: bool) -> (r: WorkerAction)
        ensures
            (final(self)@, r@) == old(self)@.reporting(stage@, event@, terminal),
    {
        self.stage = stage;
        WorkerAction::Send { output: RuntimeOutput::Event(event), terminal }
    }

    fn progress(&mut self, now: Instant) -> (r: WorkerAction)
        ensures
            (final(self)@, r@) == old(self)@.progressing(now),
    {
        if now < self.last_progress || now - self.last_progress < PROGRESS_INTERVAL {
            return self.go_on();
        }
        let event = match &self.current {
            Some(file) => TransferEvent::Progress {
                id: self.id,
                role: self.role,
                name: file.name.clone(),
                bytes: file.bytes,
                total: file.size,
            },
            None => return self.go_on(),
        };
        self.report(Stage::Progressing, event, false)
    }

    fn inspect(&mut self, paths: VecDeque<PathBytes>, now: Instant, cancelled: bool) -> (r:
        WorkerAction)
        ensures
            (final(self)@, r@) == old(self)@.inspecting(paths_view(paths@), now, cancelled),
    {
        let ghost all = paths_view(paths@);
        let mut paths = paths;
        if paths.len() == 0 {
            self.stage = Stage::Beginning;
            return WorkerAction::Begin;
        }
        if let Err(stop) = self.check(now, cancelled) {
            return self.end(Err(stop));
        }
        match paths.pop_front() {
            Some(path) => {
                assert(path@ == all[0]);
                assert(paths_view(paths@) =~= all.skip(1));
                self.stage = Stage::Inspecting { paths };
                WorkerAction::Inspect(path)
            },
            None => {
                self.stage = Stage::Beginning;
                WorkerAction::Begin
            },
        }
    }

    fn configure(&mut self, remote_cancelled: bool, choice: Choice, now: Instant, cancelled: bool) -> (r:
        WorkerAction)
        ensures
            (final(self)@, r@) == old(self)@.choosing(
                WorkerEventView::Choice { remote_cancelled, choice: choice@ },
                now,
                cancelled,
            ),
    {
        if let Err(stop) = self.check(now, cancelled) {
            return self.end(Err(stop));
        }
        if remote_cancelled {
            return self.end(Err(Stop::RemoteCancelled));
        }
        match choice {
            Choice::Pending => {
                self.stage = Stage::Choosing;
                WorkerAction::Wait
            },
            Choice::Gone => self.end(Err(Stop::Cancelled)),
            Choice::Made(Configuration::Upload(selected)) => {
                let paths = queue_of(selected);
                self.inspect(paths, now, cancelled)
            },
            Choice::Made(Configuration::Download(directory, policy)) => {
                self.policy = policy;
                self.stage = Stage::OpeningDirectory;
                WorkerAction::OpenDirectory(directory)
            },
        }
    }

    fn announce(&mut self, name: &[u8], size: Option<u64>, now: Instant) -> (r: WorkerAction)
        requires
            now <= LAST_INSTANT,
        ensures
            (final(self)@, r@) == old(self)@.announcing(name@, size, now),
    {
        let name = match safe_name(name) {
            Ok(name) => name,
            Err(failure) => return self.end(Err(Stop::Failed(failure))),
        };
        if self.files_seen >= MAX_FILES {
            return self.fail(ErrorKind::Configuration, "Batch exceeds 128 files");
        }
        self.files_seen = self.files_seen + 1;
        self.deadline = now + TRANSFER_TIMEOUT;
        let event = TransferEvent::FileStarted {
            id: self.id,
            role: self.role,
            name: name.clone(),
            size,
        };
        self.report(Stage::Announcing { name, size }, event, false)
    }

    fn look_up(&mut self, name: String, size: Option<u64>) -> (r: WorkerAction)
        ensures
            (final(self)@, r@) == old(self)@.announced(name@, size),
    {
        let path_len: usize = match &self.directory {
            None => return self.go_on(),
            Some(directory) => join_path(directory.as_slice(), name.as_str().as_bytes()).len(),
        };
        if path_len > MAX_PATH_BYTES - RENAME_RESERVE || self.committed_path_bytes
            > MAX_PATH_BYTES - RENAME_RESERVE - path_len {
            return self.fail(ErrorKind::Configuration, "Download path metadata budget exceeded");
        }
        let wanted = name.clone();
        if matches!(self.policy, OverwritePolicy::Skip) {
            self.stage = Stage::Probing { name, size };
            WorkerAction::Probe(wanted)
        } else {
            self.stage = Stage::Creating { name, size };
            WorkerAction::Create(wanted)
        }
    }

    fn poll(&mut self, now: Instant, cancelled: bool) -> (r: WorkerAction)
        requires
            now <= LAST_INSTANT,
            old(self)@.protocol is Some,
            old(self)@.sequence < u64::MAX,
        ensures
            (final(self)@, r@) == old(self)@.polling(now, cancelled),
    {
        if let Err(stop) = self.check(now, cancelled) {
            return self.end(Err(stop));
        }
        let action = match &mut self.protocol {
            Some(protocol) => protocol.poll(),
            None => return WorkerAction::Continue,
        };
        self.act(action, now)
    }

    /// Decides on an action of the protocol.
    pub fn act(&mut self, action: LinkAction, now: Instant) -> (r: WorkerAction)
        requires
            now <= LAST_INSTANT,
            action is Idle ==> old(self)@.protocol is Some,
            action is WriteWire ==> old(self)@.sequence < u64::MAX,
        ensures
            (final(self)@, r@) == old(self)@.acting(action@, now),
    {
        match action {
            LinkAction::WriteWire(bytes) => {
                let count: usize = bytes.len();
                if count > MAX_INPUT_CHUNK {
                    return self.fail(ErrorKind::Protocol, "Native wire buffer exceeded budget");
                }
                self.sequence = self.sequence + 1;
                self.stage = Stage::Sending { count };
                let output = RuntimeOutput::Wire { id: self.id, sequence: self.sequence, bytes };
                WorkerAction::Send { output, terminal: false }
            },
            LinkAction::ReadFile { offset, max_len } => {
                let upload: bool = match &self.current {
                    Some(file) => file.upload,
                    None => {
                        return self.fail(
                            ErrorKind::Protocol,
                            "File read without an active upload",
                        );
                    },
                };
                if !upload {
                    return self.fail(ErrorKind::Protocol, "Read requested during download");
                }
                self.stage = Stage::Reading { offset };
                WorkerAction::ReadSource { offset, max_len }
            },
            LinkAction::WriteFile(data) => {
                let (upload, bytes, limit): (bool, u64, u64) = match &self.current {
                    Some(file) => (
                        file.upload,
                        file.bytes,
                        match file.size {
                            Some(size) => size,
                            None => u64::MAX,
                        },
                    ),
                    None => {
                        return self.fail(ErrorKind::Protocol, "File data without acceptance");
                    },
                };
                if upload {
                    return self.fail(ErrorKind::Protocol, "Write requested during upload");
                }
                let count: usize = data.len();
                if bytes > limit || count as u64 > limit - bytes {
                    return self.fail(ErrorKind::Protocol, "Received data exceeds advertised size");
                }
                self.stage = Stage::Storing { count };
                WorkerAction::Store(data)
            },
            LinkAction::FileStarted { name, size } => {
                let size: Option<u64> = match size {
                    Some(size) => Some(size as u64),
                    None => None,
                };
                self.announce(name.as_slice(), size, now)
            },
            LinkAction::FileCompleted => self.finish_file(),
            LinkAction::SessionCompleted => {
                if self.current.is_some() {
                    return self.fail(
                        ErrorKind::Protocol,
                        "Session finished with an incomplete file",
                    );
                }
                self.complete = true;
                self.close_at = now + CLOSING_TIMEOUT;
                self.go_on()
            },
            LinkAction::Aborted => self.end(Err(Stop::RemoteCancelled)),
            LinkAction::Idle => self.idle(now),
            _ => self.fail(ErrorKind::Protocol, "Unsupported native protocol action"),
        }
    }

    fn finish_file(&mut self) -> (r: WorkerAction)
        ensures
            (final(self)@, r@) == old(self)@.finishing_file(),
    {
        let (upload, size, bytes): (bool, Option<u64>, u64) = match &self.current {
            Some(file) => (file.upload, file.size, file.bytes),
            None => {
                return self.fail(ErrorKind::Protocol, "Completion without an active file");
            },
        };
        if upload {
            if !self.peer.skipped() {
                self.stage = Stage::Confirming;
                return WorkerAction::ValidateSource;
            }
            match self.current.take() {
                Some(file) => {
                    let event = TransferEvent::FileResult {
                        id: self.id,
                        role: self.role,
                        name: file.name,
                        bytes: file.bytes,
                        outcome: FileOutcome::Skipped,
                        path: None,
                    };
                    self.report(Stage::Skipping, event, false)
                },
                None => WorkerAction::Continue,
            }
        } else {
            let matching: bool = match size {
                Some(size) => bytes == size,
                None => true,
            };
            if !matching {
                return self.fail(
                    ErrorKind::Protocol,
                    "Received file size does not match metadata",
                );
            }
            self.stage = Stage::Confirming;
            WorkerAction::Sync
        }
    }

    fn idle(&mut self, now: Instant) -> (r: WorkerAction)
        requires
            now <= LAST_INSTANT,
            old(self)@.protocol is Some,
        ensures
            (final(self)@, r@) == old(self)@.idling(now),
    {
        if self.complete {
            return self.close_down();
        }
        let upload: bool = matches!(&self.protocol, Some(Protocol::Upload(_)));
        if self.current.is_none() && !self.finishing && upload {
            if self.uploads.len() > 0 {
                self.stage = Stage::Opening;
                return WorkerAction::OpenSource;
            }
            let result = match &mut self.protocol {
                Some(protocol) => protocol.finish(),
                None => return WorkerAction::Continue,
            };
            return self.end_batch(result);
        }
        if self.offset >= self.input.len() {
            self.stage = Stage::Fetching;
            return WorkerAction::TakeInput;
        }
        self.consume(now)
    }

    /// Takes over whether the protocol accepts that there are no more files.
    pub fn end_batch(&mut self, result: Result<(), TransferError>) -> (r: WorkerAction)
        ensures
            (final(self)@, r@) == old(self)@.batch_ended(
                crate::transfer_handle::failure_view(result),
            ),
    {
        self.finishing = result.is_ok();
        self.go_on_unless(result)
    }

    fn close_down(&mut self) -> (r: WorkerAction)
        ensures
            (final(self)@, r@) == old(self)@.closing_down(),
    {
        if self.closing >= CLOSED {
            self.stage = Stage::Closing;
            return WorkerAction::CloseInput;
        }
        if self.offset >= self.input.len() {
            self.stage = Stage::Fetching;
            return WorkerAction::TakeInput;
        }
        let download: bool = matches!(self.role, Role::Download);
        if download && self.input[self.offset] == 0x18 {
            return self.hold_cancel();
        }
        match next_closing(self.role, self.closing, self.input[self.offset]) {
            Some(closing) if self.cans == 0 => {
                self.offset = self.offset + 1;
                self.closing = closing;
                self.go_on()
            },
            _ => {
                if download {
                    self.stage = Stage::Polling;
                    WorkerAction::Wait
                } else {
                    self.stage = Stage::Closing;
                    WorkerAction::CloseInput
                }
            },
        }
    }

    fn hold_cancel(&mut self) -> (r: WorkerAction)
        requires
            old(self)@.offset < old(self)@.input.len(),
        ensures
            (final(self)@, r@) == old(self)@.holding_cancel(),
    {
        if self.cans >= CANCEL_RUN - 1 {
            return self.end(Err(Stop::RemoteCancelled));
        }
        self.cans = self.cans + 1;
        let len: usize = self.input.len();
        assert(self.offset < len);
        self.offset = self.offset + 1;
        self.go_on()
    }

    fn consume(&mut self, now: Instant) -> (r: WorkerAction)
        requires
            now <= LAST_INSTANT,
            old(self)@.protocol is Some,
            old(self)@.offset < old(self)@.input.len(),
        ensures
            (final(self)@, r@) == old(self)@.consuming(now),
    {
        // Hold CAN runs before decoding: a split cancellation must not be mistaken
        // for a malformed escape/header before the fifth CAN arrives.
        if self.input[self.offset] == 0x18 {
            return self.hold_cancel();
        }
        if self.cans > 0 {
            let held: Vec<u8> = cancel_bytes(self.cans as usize);
            let result = match &mut self.protocol {
                Some(protocol) => protocol.submit(held.as_slice()),
                None => return WorkerAction::Continue,
            };
            return self.note_consumed(true, result, now);
        }
        // The codec's consumed count is authoritative, including successful tails.
        let mut boundary: usize = self.offset;
        while boundary < self.input.len() && self.input[boundary] != 0x18
            invariant
                self.offset <= boundary <= self.input.len(),
                run_end(self.input@, self.offset as int) == run_end(self.input@, boundary as int),
            decreases self.input.len() - boundary,
        {
            boundary = boundary + 1;
        }
        let submitted: Vec<u8> = copy_range(self.input.as_slice(), self.offset, boundary);
        let result = match &mut self.protocol {
            Some(protocol) => protocol.submit(submitted.as_slice()),
            None => return WorkerAction::Continue,
        };
        self.note_consumed(false, result, now)
    }

    /// Takes over how many of the held cancel bytes, or of the input, the
    /// protocol took.
    pub fn note_consumed(
        &mut self,
        held: bool,
        result: Result<usize, TransferError>,
        now: Instant,
    ) -> (r: WorkerAction)
        requires
            now <= LAST_INSTANT,
            result matches Ok(count) ==> if held {
                count <= old(self)@.cans
            } else {
                old(self)@.offset + count <= old(self)@.input.len()
            },
        ensures
            (final(self)@, r@) == old(self)@.consumed(
                held,
                crate::protocol::count_result(result),
                now,
            ),
    {
        match result {
            Err(failure) => self.end(Err(Stop::Failed(failure))),
            Ok(count) => {
                if count == 0 {
                    return if held {
                        self.fail(ErrorKind::Protocol, "Native escape made no progress")
                    } else {
                        self.fail(ErrorKind::Protocol, "Native protocol made no input progress")
                    };
                }
                let taken: Vec<u8> = if held {
                    self.cans = self.cans - count as u8;
                    cancel_bytes(count)
                } else {
                    let from: usize = self.offset;
                    let len: usize = self.input.len();
                    assert(from + count <= len);
                    self.offset = from + count;
                    self.retry_at = now + RETRY_TIMEOUT;
                    copy_range(self.input.as_slice(), from, self.offset)
                };
                if matches!(self.role, Role::Upload) {
                    self.peer.hear(taken.as_slice());
                    if !held {
                        return self.take_confirmation(now);
                    }
                }
                self.go_on()
            },
        }
    }

    fn take_confirmation(&mut self, now: Instant) -> (r: WorkerAction)
        requires
            now <= LAST_INSTANT,
            old(self)@.role is Upload,
        ensures
            (final(self)@, r@) == old(self)@.confirming(now),
    {
        let confirmed: Option<u32> = self.peer.position();
        match (&mut self.current, confirmed) {
            (Some(file), Some(position)) => {
                if position as u64 > file.bytes {
                    file.bytes = position as u64;
                    self.deadline = now + TRANSFER_TIMEOUT;
                    return self.progress(now);
                }
            },
            _ => {},
        }
        self.go_on()
    }

    fn fetched(&mut self, chunk: Option<Vec<u8>>, now: Instant) -> (r: WorkerAction)
        requires
            now <= LAST_INSTANT,
            old(self)@.protocol is Some,
        ensures
            (final(self)@, r@) == old(self)@.fetched(path_view(chunk), now),
    {
        self.input = match chunk {
            Some(chunk) => chunk,
            None => Vec::new(),
        };
        self.offset = 0;
        if self.input.len() > 0 {
            return if self.complete {
                self.close_down()
            } else {
                self.consume(now)
            };
        }
        if self.complete && matches!(self.role, Role::Upload) {
            if now >= self.close_at {
                self.stage = Stage::Closing;
                return WorkerAction::CloseInput;
            }
        } else if now >= self.retry_at {
            let result = match &mut self.protocol {
                Some(protocol) => protocol.timeout(),
                None => return WorkerAction::Continue,
            };
            return self.note_repeated(result, now);
        }
        self.stage = Stage::Polling;
        WorkerAction::Wait
    }

    /// Takes over whether the protocol could repeat itself to a silent peer.
    pub fn note_repeated(&mut self, result: Result<(), TransferError>, now: Instant) -> (r:
        WorkerAction)
        requires
            now <= LAST_INSTANT,
        ensures
            (final(self)@, r@) == old(self)@.repeated(
                crate::transfer_handle::failure_view(result),
                now,
            ),
    {
        if let Err(failure) = result {
            return self.end(Err(Stop::Failed(failure)));
        }
        self.retry_at = now + RETRY_TIMEOUT;
        self.stage = Stage::Polling;
        WorkerAction::Wait
    }

    /// Collects what is left of the input behind the transfer.
    fn finish_input(&mut self, chunks: Vec<Vec<u8>>) -> (r: WorkerAction)
        ensures
            (final(self)@, r@) == old(self)@.tailing(
                tails_of(old(self)@.input, old(self)@.offset as int, chunks_view(chunks@)),
            ),
    {
        let ghost queued = chunks_view(chunks@);
        let mut tails: VecDeque<Vec<u8>> = queue_of(chunks);
        assert(chunks_view(tails@) =~= queued);
        if self.offset < self.input.len() {
            let len: usize = self.input.len();
            let rest: Vec<u8> = copy_range(self.input.as_slice(), self.offset, len);
            assert(rest@ =~= self.input@.skip(self.offset as int));
            tails.push_front(rest);
            assert(chunks_view(tails@) =~= seq![rest@] + queued);
        }
        self.pass_on(tails)
    }

    fn pass_on(&mut self, tails: VecDeque<Vec<u8>>) -> (r: WorkerAction)
        ensures
            (final(self)@, r@) == old(self)@.tailing(chunks_view(tails@)),
    {
        let ghost all = chunks_view(tails@);
        let mut tails = tails;
        match tails.pop_front() {
            Some(bytes) => {
                assert(bytes@ == all[0]);
                assert(chunks_view(tails@) =~= all.skip(1));
                self.stage = Stage::Tailing { tails };
                let output = RuntimeOutput::Tail { id: self.id, bytes };
                WorkerAction::Send { output, terminal: false }
            },
            None => self.end(Ok(())),
        }
    }

    fn data_read(
        &mut self,
        offset: u32,
        result: Result<Vec<u8>, TransferError>,
        now: Instant,
        cancelled: bool,
    ) -> (r: WorkerAction)
        requires
            now <= LAST_INSTANT,
            old(self)@.protocol is Some,
            result matches Ok(data) ==> data.len() <= MAX_INPUT_CHUNK,
        ensures
            (final(self)@, r@) == old(self)@.read(
                offset,
                match result {
                    Ok(data) => Ok(data@),
                    Err(failure) => Err(failure@),
                },
                now,
                cancelled,
            ),
    {
        let data = match result {
            Ok(data) => data,
            Err(failure) => return self.end(Err(Stop::Failed(failure))),
        };
        if let Err(stop) = self.check(now, cancelled) {
            return self.end(Err(stop));
        }
        let supplied = match &mut self.protocol {
            Some(protocol) => protocol.submit_file(data.as_slice()),
            None => return WorkerAction::Continue,
        };
        self.note_supplied(offset as u64 + data.len() as u64, supplied, now)
    }

    /// Takes over whether the protocol took the data of the source up to `end`.
    pub fn note_supplied(
        &mut self,
        end: u64,
        result: Result<(), TransferError>,
        now: Instant,
    ) -> (r: WorkerAction)
        requires
            now <= LAST_INSTANT,
        ensures
            (final(self)@, r@) == old(self)@.supplied(
                end,
                crate::transfer_handle::failure_view(result),
                now,
            ),
    {
        if let Err(failure) = result {
            return self.end(Err(Stop::Failed(failure)));
        }
        if let Some(file) = &mut self.current {
            file.bytes = end;
        }
        self.deadline = now + TRANSFER_TIMEOUT;
        self.progress(now)
    }

    fn data_stored(&mut self, count: usize, now: Instant, cancelled: bool) -> (r: WorkerAction)
        requires
            now <= LAST_INSTANT,
            old(self)@.protocol is Some,
            old(self)@.current matches Some(file) && file.bytes + count <= u64::MAX,
        ensures
            (final(self)@, r@) == old(self)@.stored(count, now, cancelled),
    {
        if let Some(file) = &mut self.current {
            file.bytes = file.bytes + count as u64;
        }
        if let Err(stop) = self.check(now, cancelled) {
            return self.end(Err(stop));
        }
        let told = match &mut self.protocol {
            Some(protocol) => protocol.file_written(count),
            None => return WorkerAction::Continue,
        };
        self.note_stored(count, told, now)
    }

    /// Takes over whether the protocol accepts that data was stored.
    pub fn note_stored(&mut self, count: usize, result: Result<(), TransferError>, now: Instant) -> (r:
        WorkerAction)
        requires
            now <= LAST_INSTANT,
        ensures
            (final(self)@, r@) == old(self)@.confirmed_stored(
                count,
                crate::transfer_handle::failure_view(result),
                now,
            ),
    {
        if let Err(failure) = result {
            return self.end(Err(Stop::Failed(failure)));
        }
        if count == 0 {
            return self.go_on();
        }
        self.deadline = now + TRANSFER_TIMEOUT;
        self.progress(now)
    }

    fn target_created(&mut self, name: String, size: Option<u64>, now: Instant, cancelled: bool) -> (r:
        WorkerAction)
        requires
            old(self)@.protocol is Some,
        ensures
            (final(self)@, r@) == old(self)@.created(name@, size, now, cancelled),
    {
        self.current = Some(CurrentFile { name, size, bytes: 0, upload: false });
        if let Err(stop) = self.check(now, cancelled) {
            return self.end(Err(stop));
        }
        let accepted = match &mut self.protocol {
            Some(protocol) => protocol.accept_file(),
            None => return WorkerAction::Continue,
        };
        self.go_on_unless(accepted)
    }

    fn source_opened(&mut self, now: Instant) -> (r: WorkerAction)
        requires
            now <= LAST_INSTANT,
            old(self)@.protocol is Some,
            old(self)@.uploads.len() > 0,
        ensures
            (final(self)@, r@) == old(self)@.opened(now),
    {
        let ghost all = self@.uploads;
        let source = match self.uploads.pop_front() {
            Some(source) => source,
            None => return WorkerAction::Continue,
        };
        assert(source@ == all[0]);
        assert(sources_view(self.uploads@) =~= all.skip(1));
        let offered = match &mut self.protocol {
            Some(protocol) => protocol.start_file(source.name.as_str().as_bytes(), source.len),
            None => return WorkerAction::Continue,
        };
        self.note_offered(source.name, source.len, offered, now)
    }

    /// Takes over whether the protocol took a file to offer.
    pub fn note_offered(
        &mut self,
        name: String,
        len: u32,
        result: Result<(), TransferError>,
        now: Instant,
    ) -> (r: WorkerAction)
        requires
            now <= LAST_INSTANT,
        ensures
            (final(self)@, r@) == old(self)@.offered(
                name@,
                len,
                crate::transfer_handle::failure_view(result),
                now,
            ),
    {
        if let Err(failure) = result {
            return self.end(Err(Stop::Failed(failure)));
        }
        let size: Option<u64> = Some(len as u64);
        self.current = Some(CurrentFile { name: name.clone(), size, bytes: 0, upload: true });
        self.peer.forget_position();
        self.announce(name.as_str().as_bytes(), size, now)
    }

    fn confirm(&mut self, now: Instant, cancelled: bool) -> (r: WorkerAction)
        requires
            old(self)@.current is Some,
        ensures
            (final(self)@, r@) == old(self)@.confirmed(now, cancelled),
    {
        if let Some(file) = &mut self.current {
            if file.upload {
                if let Some(size) = file.size {
                    file.bytes = size;
                }
            }
        }
        if let Err(stop) = self.check(now, cancelled) {
            return self.end(Err(stop));
        }
        let event = match &self.current {
            Some(file) => TransferEvent::Progress {
                id: self.id,
                role: self.role,
                name: file.name.clone(),
                bytes: file.bytes,
                total: file.size,
            },
            None => return WorkerAction::Continue,
        };
        self.report(Stage::Completing, event, false)
    }

    fn complete_file(&mut self, now: Instant) -> (r: WorkerAction)
        requires
            old(self)@.current is Some,
        ensures
            (final(self)@, r@) == old(self)@.completing(now),
    {
        self.last_progress = now;
        let file = match self.current.take() {
            Some(file) => file,
            None => return WorkerAction::Continue,
        };
        if file.upload {
            let event = TransferEvent::FileResult {
                id: self.id,
                role: self.role,
                name: file.name,
                bytes: file.bytes,
                outcome: FileOutcome::Completed,
                path: None,
            };
            return self.report(Stage::Reporting, event, true);
        }
        if self.directory.is_none() {
            return self.fail(ErrorKind::Configuration, "Missing download directory");
        }
        self.stage = Stage::Publishing { name: file.name, bytes: file.bytes };
        WorkerAction::Publish
    }

    fn publish(&mut self, name: String, bytes: u64, publication: Publication) -> (r: WorkerAction)
        ensures
            (final(self)@, r@) == old(self)@.published(name@, bytes, publication@),
    {
        let (id, role): (TransferId, Role) = (self.id, self.role);
        match publication {
            Publication::Lost => {
                let outcome = FileOutcome::Failed(
                    error(ErrorKind::Protocol, "File transfer cancelled before publication"),
                );
                let event = TransferEvent::FileResult { id, role, name, bytes, outcome, path: None };
                self.report(Stage::Failing { stop: Stop::Cancelled }, event, true)
            },
            Publication::Published(path) => {
                let copy: PathBytes = copy_range(path.as_slice(), 0, path.len());
                assert(copy@ =~= path@);
                self.committed_path_bytes = self.committed_path_bytes.saturating_add(path.len());
                proof {
                    lemma_paths_view_push(self.committed_paths@, copy);
                }
                self.committed_paths.push(copy);
                let outcome = FileOutcome::Completed;
                let path = Some(path);
                let event = TransferEvent::FileResult { id, role, name, bytes, outcome, path };
                self.report(Stage::Reporting, event, true)
            },
            Publication::Skipped => {
                let outcome = FileOutcome::Skipped;
                let event = TransferEvent::FileResult { id, role, name, bytes, outcome, path: None };
                self.report(Stage::Reporting, event, true)
            },
            Publication::Failed(failure) => {
                let outcome = FileOutcome::Failed(failure.clone());
                let event = TransferEvent::FileResult { id, role, name, bytes, outcome, path: None };
                self.report(Stage::Failing { stop: Stop::Failed(failure) }, event, true)
            },
        }
    }

    fn sent(&mut self, stage: Stage, result: Result<(), Stop>, now: Instant, cancelled: bool) -> (r:
        WorkerAction)
        requires
            now <= LAST_INSTANT,
            (WorkerView { stage: stage@, ..old(self)@ }).wf(),
            (WorkerView { stage: stage@, ..old(self)@ }).expects(
                WorkerEventView::Sent(stop_view(result)),
            ),
        ensures
            (final(self)@, r@) == old(self)@.sent(stage@, stop_view(result), now, cancelled),
    {
        if let Err(stop) = result {
            return self.end(Err(stop));
        }
        match stage {
            Stage::Sending { count } => {
                if let Some(protocol) = &mut self.protocol {
                    protocol.wire_written(count);
                }
                self.go_on()
            },
            Stage::Announcing { name, size } => self.look_up(name, size),
            Stage::Declining => {
                let declined = match &mut self.protocol {
                    Some(protocol) => protocol.skip_file(),
                    None => return WorkerAction::Continue,
                };
                self.go_on_unless(declined)
            },
            Stage::Progressing => {
                self.last_progress = now;
                self.go_on()
            },
            Stage::Skipping => {
                self.deadline = now + TRANSFER_TIMEOUT;
                self.go_on()
            },
            Stage::Completing => self.complete_file(now),
            Stage::Reporting => {
                if let Err(stop) = self.check(now, cancelled) {
                    return self.end(Err(stop));
                }
                self.deadline = now + TRANSFER_TIMEOUT;
                self.go_on()
            },
            Stage::Failing { stop } => self.end(Err(stop)),
            Stage::Tailing { tails } => self.pass_on(tails),
            _ => self.go_on(),
        }
    }

    fn done(
        &mut self,
        stage: Stage,
        result: Result<(), TransferError>,
        now: Instant,
        cancelled: bool,
    ) -> (r: WorkerAction)
        requires
            now <= LAST_INSTANT,
            (WorkerView { stage: stage@, ..old(self)@ }).wf(),
            (WorkerView { stage: stage@, ..old(self)@ }).expects(
                WorkerEventView::Done(crate::transfer_handle::failure_view(result)),
            ),
        ensures
            (final(self)@, r@) == old(self)@.done(
                stage@,
                crate::transfer_handle::failure_view(result),
                now,
                cancelled,
            ),
    {
        if let Err(failure) = result {
            return self.end(Err(Stop::Failed(failure)));
        }
        match stage {
            Stage::Storing { count } => self.data_stored(count, now, cancelled),
            Stage::Creating { name, size } => self.target_created(name, size, now, cancelled),
            Stage::Opening => self.source_opened(now),
            _ => self.confirm(now, cancelled),
        }
    }

    fn inspected(
        &mut self,
        paths: VecDeque<PathBytes>,
        result: Result<UploadSource, TransferError>,
        now: Instant,
        cancelled: bool,
    ) -> (r: WorkerAction)
        ensures
            (final(self)@, r@) == old(self)@.inspected(
                paths_view(paths@),
                match result {
                    Ok(source) => Ok(source@),
                    Err(failure) => Err(failure@),
                },
                now,
                cancelled,
            ),
    {
        match result {
            Err(failure) => self.end(Err(Stop::Failed(failure))),
            Ok(source) => {
                let ghost before = sources_view(self.uploads@);
                let ghost view = source@;
                self.uploads.push_back(source);
                assert(sources_view(self.uploads@) =~= before.push(view));
                self.inspect(paths, now, cancelled)
            },
        }
    }

    fn directory_opened(&mut self, result: Result<PathBytes, TransferError>) -> (r: WorkerAction)
        ensures
            (final(self)@, r@) == old(self)@.directory_opened(
                match result {
                    Ok(path) => Ok(path@),
                    Err(failure) => Err(failure@),
                },
            ),
    {
        match result {
            Err(failure) => self.end(Err(Stop::Failed(failure))),
            Ok(directory) => {
                let mut only: Vec<PathBytes> = Vec::new();
                let copy: PathBytes = copy_range(directory.as_slice(), 0, directory.len());
                assert(copy@ =~= directory@);
                only.push(copy);
                assert(paths_view(only@) =~= seq![directory@]);
                if let Err(failure) = validate_path_budget(only.as_slice()) {
                    return self.end(Err(Stop::Failed(failure)));
                }
                self.directory = Some(directory);
                self.stage = Stage::Beginning;
                WorkerAction::Begin
            },
        }
    }

    fn probed(&mut self, name: String, size: Option<u64>, result: Result<bool, TransferError>) -> (r:
        WorkerAction)
        ensures
            (final(self)@, r@) == old(self)@.probed(
                name@,
                size,
                match result {
                    Ok(taken) => Ok(taken),
                    Err(failure) => Err(failure@),
                },
            ),
    {
        match result {
            Err(failure) => self.end(Err(Stop::Failed(failure))),
            Ok(taken) => {
                if taken {
                    let event = TransferEvent::FileResult {
                        id: self.id,
                        role: self.role,
                        name,
                        bytes: 0,
                        outcome: FileOutcome::Skipped,
                        path: None,
                    };
                    self.report(Stage::Declining, event, false)
                } else {
                    let wanted = name.clone();
                    self.stage = Stage::Creating { name, size };
                    WorkerAction::Create(wanted)
                }
            },
        }
    }

    /// One step: takes what came of the last action, and says what to do next.
    #[verifier::spinoff_prover]
    pub fn advance(&mut self, event: WorkerEvent, now: Instant, cancelled: bool) -> (r:
        WorkerAction)
        requires
            old(self)@.wf(),
            old(self)@.expects(event@),
            old(self)@.sequence < u64::MAX,
            now <= LAST_INSTANT,
        ensures
            (final(self)@, r@) == old(self)@.advanced(event@, now, cancelled),
            final(self)@.wf(),
    {
        proof {
            law_steps_keep_stages_sound(self@, event@, now, cancelled);
        }
        let mut stage = Stage::Ended;
        std::mem::swap(&mut stage, &mut self.stage);
        assert(self@ == old(self)@.rested());
        match event {
            WorkerEvent::Choice { remote_cancelled, choice } => self.configure(
                remote_cancelled,
                choice,
                now,
                cancelled,
            ),
            WorkerEvent::Resume => match stage {
                Stage::Choosing => {
                    self.stage = Stage::Choosing;
                    WorkerAction::AwaitChoice
                },
                _ => self.poll(now, cancelled),
            },
            WorkerEvent::Inspected(result) => match stage {
                Stage::Inspecting { paths } => self.inspected(paths, result, now, cancelled),
                _ => self.go_on(),
            },
            WorkerEvent::DirectoryOpened(result) => self.directory_opened(result),
            WorkerEvent::SourceRead(result) => match stage {
                Stage::Reading { offset } => self.data_read(offset, result, now, cancelled),
                _ => self.go_on(),
            },
            WorkerEvent::Probed(result) => match stage {
                Stage::Probing { name, size } => self.probed(name, size, result),
                _ => self.go_on(),
            },
            WorkerEvent::Published(publication) => match stage {
                Stage::Publishing { name, bytes } => self.publish(name, bytes, publication),
                _ => self.go_on(),
            },
            WorkerEvent::Input(chunk) => self.fetched(chunk, now),
            WorkerEvent::Closed(chunks) => self.finish_input(chunks),
            WorkerEvent::Sent(result) => self.sent(stage, result, now, cancelled),
            WorkerEvent::Done(result) => self.done(stage, result, now, cancelled),
        }
    }

    /// Begins the protocol once the configuration has been inspected.
    pub fn begin(&mut self, now: Instant) -> (r: WorkerAction)
        requires
            old(self)@.stage is Beginning,
            now <= LAST_INSTANT,
        ensures
            final(self)@.wf(),
            (final(self)@, r@) == (WorkerView {
                protocol: Some(ProtocolView::new(old(self)@.role)),
                retry_at: (now + RETRY_TIMEOUT) as u64,
                ..old(self)@.renewed(now)
            }).going_on(),
    {
        match Protocol::new(self.role) {
            Err(failure) => self.end(Err(Stop::Failed(failure))),
            Ok(protocol) => {
                self.deadline = now + TRANSFER_TIMEOUT;
                self.protocol = Some(protocol);
                self.retry_at = now + RETRY_TIMEOUT;
                self.go_on()
            },
        }
    }

    /// The transfer this worker serves.
    pub fn id(&self) -> (r: TransferId)
        ensures
            r == self@.id,
    {
        self.id
    }

    /// The directory downloads go to, and what to do with taken names.
    pub fn download_plan(&self) -> (r: Option<(PathBytes, OverwritePolicy)>)
        ensures
            match r {
                Some((directory, policy)) => self@.directory == Some(directory@) && policy
                    == self@.policy,
                None => self@.directory is None,
            },
    {
        match copy_path(&self.directory) {
            Some(directory) => Some((directory, self.policy)),
            None => None,
        }
    }

    /// Whether another wire buffer can still be numbered.
    pub fn can_number_wire(&self) -> (r: bool)
        ensures
            r == (self@.sequence < u64::MAX),
    {
        self.sequence < u64::MAX
    }

    /// The last outputs of a transfer, in order.
    pub fn conclude(&mut self, result: Result<(), Stop>) -> (r: Vec<RuntimeOutput>)
        ensures
            outputs_view(r@) == old(self)@.concluded(stop_view(result)),
            final(self)@ == (WorkerView {
                current: if result is Ok {
                    old(self)@.current
                } else {
                    None
                },
                committed_paths: Seq::empty(),
                ..old(self)@
            }),
    {
        let mut outputs: Vec<RuntimeOutput> = Vec::new();
        let outcome = match result {
            Ok(()) => TransferOutcome::Completed,
            Err(Stop::Cancelled) => TransferOutcome::Cancelled,
            Err(Stop::RemoteCancelled) => TransferOutcome::RemoteCancelled,
            Err(Stop::Failed(failure)) => TransferOutcome::Failed(failure),
        };
        let ghost mut view: Seq<RuntimeOutputView> = Seq::empty();
        if !matches!(outcome, TransferOutcome::Completed) {
            outputs.push(RuntimeOutput::Abort { id: self.id });
            proof {
                view = view.push(RuntimeOutputView::Abort { id: self.id });
                assert(outputs_view(outputs@) =~= view);
            }
            if let Some(file) = self.current.take() {
                let failure = match &outcome {
                    TransferOutcome::Failed(failure) => failure.clone(),
                    _ => error(ErrorKind::Protocol, "File transfer cancelled"),
                };
                let event = TransferEvent::FileResult {
                    id: self.id,
                    role: self.role,
                    name: file.name,
                    bytes: file.bytes,
                    outcome: FileOutcome::Failed(failure),
                    path: None,
                };
                proof {
                    view = view.push(RuntimeOutputView::Event(event@));
                }
                outputs.push(RuntimeOutput::Event(event));
                assert(outputs_view(outputs@) =~= view);
            }
        }
        let mut committed_paths: Vec<PathBytes> = Vec::new();
        std::mem::swap(&mut committed_paths, &mut self.committed_paths);
        let event = TransferEvent::Finished {
            id: self.id,
            role: self.role,
            outcome,
            committed_paths,
        };
        proof {
            view = view.push(RuntimeOutputView::Event(event@));
        }
        outputs.push(RuntimeOutput::Event(event));
        assert(outputs_view(outputs@) =~= view);
        assert(view =~= old(self)@.concluded(stop_view(result)));
        assert(self@.committed_paths =~= Seq::<Seq<u8>>::empty());
        outputs
    }
}

/// A run of cancel bytes.
fn cancel_bytes(count: usize) -> (r: Vec<u8>)
    ensures
        r@ == Seq::new(count as nat, |i: int| 0x18u8),
{
    let mut bytes: Vec<u8> = Vec::new();
    while bytes.len() < count
        invariant
            bytes.len() <= count,
            forall|i: int| 0 <= i < bytes.len() ==> bytes@[i] == 0x18u8,
        decreases count - bytes.len(),
    {
        bytes.push(0x18);
    }
    assert(bytes@ =~= Seq::new(count as nat, |i: int| 0x18u8));
    bytes
}

/// Pieces of bytes as a queue.
fn queue_of(paths: Vec<Vec<u8>>) -> (r: VecDeque<Vec<u8>>)
    ensures
        r@ == paths@,
{
    let ghost all = paths@;
    let mut queue: VecDeque<PathBytes> = VecDeque::new();
    let mut paths = paths;
    while paths.len() > 0
        invariant
            queue@ + paths@ == all,
        decreases paths.len(),
    {
        let path = paths.remove(0);
        queue.push_back(path);
        assert(queue@ + paths@ =~= all);
    }
    assert(queue@ =~= all);
    queue
}

/// What holds of every turn but a publication: it is sound, it neither ends
/// an incomplete session well nor stores more than was announced, and it
/// leaves the published paths alone.
spec fn orderly(worker: WorkerView, turn: Turn) -> bool {
    &&& turn.0.wf()
    &&& turn.1 == WorkerActionView::Stop(None) ==> worker.complete
    &&& turn.1 is CloseInput ==> worker.complete && (worker.role is Download ==> worker.closing
        >= CLOSED)
    &&& turn.1 matches WorkerActionView::Store(data) ==> {
        &&& worker.current matches Some(file)
        &&& !file.upload
        &&& file.size matches Some(size) ==> file.bytes + data.len() <= size
    }
    &&& turn.1 is Publish ==> {
        &&& worker.current matches Some(file)
        &&& !file.upload
        &&& worker.has_whole_file()
    }
    &&& turn.0.committed_paths == worker.committed_paths
}

proof fn lemma_consuming(worker: WorkerView, now: Instant)
    requires
        worker.protocol is Some,
    ensures
        orderly(worker, worker.consuming(now)),
        !(worker.consuming(now).1 is Publish),
{
}

proof fn lemma_idling(worker: WorkerView, now: Instant)
    requires
        worker.protocol is Some,
    ensures
        orderly(worker, worker.idling(now)),
        !(worker.idling(now).1 is Publish),
{
    lemma_consuming(worker, now);
}

proof fn lemma_acting(worker: WorkerView, action: ActionView, now: Instant)
    requires
        worker.protocol is Some,
    ensures
        orderly(worker, worker.acting(action, now)),
        !(worker.acting(action, now).1 is Publish),
{
    lemma_idling(worker, now);
}

proof fn lemma_fetched(worker: WorkerView, chunk: Option<Seq<u8>>, now: Instant)
    requires
        worker.protocol is Some,
    ensures
        orderly(worker, worker.fetched(chunk, now)),
        !(worker.fetched(chunk, now).1 is Publish),
{
    let input = match chunk {
        Some(chunk) => chunk,
        None => Seq::empty(),
    };
    lemma_consuming(WorkerView { input, offset: 0, ..worker }, now);
}

proof fn lemma_sent(worker: WorkerView, failure: Option<StopView>, now: Instant, cancelled: bool)
    requires
        worker.wf(),
        worker.expects(WorkerEventView::Sent(failure)),
    ensures
        orderly(worker, worker.rested().sent(worker.stage, failure, now, cancelled)),
        worker.rested().sent(worker.stage, failure, now, cancelled).1 is Publish
            ==> worker.stage is Completing,
{
}

proof fn lemma_done(worker: WorkerView, failure: Option<ErrorView>, now: Instant, cancelled: bool)
    requires
        worker.wf(),
        worker.expects(WorkerEventView::Done(failure)),
    ensures
        orderly(worker, worker.rested().done(worker.stage, failure, now, cancelled)),
        !(worker.rested().done(worker.stage, failure, now, cancelled).1 is Publish),
{
}

proof fn lemma_choosing(worker: WorkerView, event: WorkerEventView, now: Instant, cancelled: bool)
    ensures
        orderly(worker, worker.choosing(event, now, cancelled)),
        !(worker.choosing(event, now, cancelled).1 is Publish),
{
}

proof fn lemma_resumed(worker: WorkerView, now: Instant, cancelled: bool)
    requires
        worker.wf(),
        worker.stage is Polling,
    ensures
        orderly(worker, worker.advanced(WorkerEventView::Resume, now, cancelled)),
        !(worker.advanced(WorkerEventView::Resume, now, cancelled).1 is Publish),
{
    if worker.checked(now, cancelled) is None {
        let (protocol, action) = (worker.protocol->0).polled();
        lemma_acting(WorkerView { protocol: Some(protocol), ..worker.rested() }, action, now);
    }
}

proof fn lemma_answered(
    worker: WorkerView,
    event: WorkerEventView,
    now: Instant,
    cancelled: bool,
)
    requires
        worker.wf(),
        worker.expects(event),
        event is Inspected || event is DirectoryOpened || event is SourceRead || event is Probed
            || event is Closed,
    ensures
        orderly(worker, worker.advanced(event, now, cancelled)),
        !(worker.advanced(event, now, cancelled).1 is Publish),
{
}

#[verifier::spinoff_prover]
#[verifier::rlimit(40)]
proof fn lemma_step(worker: WorkerView, event: WorkerEventView, now: Instant, cancelled: bool)
    requires
        worker.wf(),
        worker.expects(event),
        !(event is Published),
    ensures
        orderly(worker, worker.advanced(event, now, cancelled)),
        worker.advanced(event, now, cancelled).1 is Publish ==> worker.stage is Completing,
{
    if worker.stage is Choosing {
        lemma_choosing(worker.rested(), event, now, cancelled);
    } else {
        match event {
            WorkerEventView::Sent(failure) => lemma_sent(worker, failure, now, cancelled),
            WorkerEventView::Done(failure) => lemma_done(worker, failure, now, cancelled),
            WorkerEventView::Input(chunk) => lemma_fetched(worker.rested(), chunk, now),
            WorkerEventView::Resume => lemma_resumed(worker, now, cancelled),
            _ => lemma_answered(worker, event, now, cancelled),
        }
    }
}

/// Every step of a sound worker leaves it sound: each stage finds what it
/// builds on, and only a completed session is closed.
pub proof fn law_steps_keep_stages_sound(
    worker: WorkerView,
    event: WorkerEventView,
    now: Instant,
    cancelled: bool,
)
    requires
        worker.wf(),
        worker.expects(event),
    ensures
        worker.advanced(event, now, cancelled).0.wf(),
{
    if !(event is Published) {
        lemma_step(worker, event, now, cancelled);
    }
}

/// A transfer ends well only after its session was completed.
pub proof fn law_only_complete_sessions_end_well(
    worker: WorkerView,
    event: WorkerEventView,
    now: Instant,
    cancelled: bool,
)
    requires
        worker.wf(),
        worker.expects(event),
        worker.advanced(event, now, cancelled).1 == WorkerActionView::Stop(None),
    ensures
        worker.complete,
{
    if !(event is Published) {
        lemma_step(worker, event, now, cancelled);
    }
}

/// No data is stored beyond the announced size of the file.
pub proof fn law_stored_data_stays_within_the_announced_size(
    worker: WorkerView,
    event: WorkerEventView,
    now: Instant,
    cancelled: bool,
)
    requires
        worker.wf(),
        worker.expects(event),
    ensures
        worker.advanced(event, now, cancelled).1 matches WorkerActionView::Store(data) ==> {
            &&& worker.current matches Some(file)
            &&& !file.upload
            &&& file.size matches Some(size) ==> file.bytes + data.len() <= size
        },
{
    if !(event is Published) {
        lemma_step(worker, event, now, cancelled);
    }
}

/// A download is published only when all of its announced bytes were received
/// and its last progress was reported.
pub proof fn law_only_whole_downloads_are_published(
    worker: WorkerView,
    event: WorkerEventView,
    now: Instant,
    cancelled: bool,
)
    requires
        worker.wf(),
        worker.expects(event),
        worker.advanced(event, now, cancelled).1 is Publish,
    ensures
        worker.stage is Completing,
        worker.current matches Some(file) && !file.upload && (file.size matches Some(size)
            ==> file.bytes == size),
{
    if !(event is Published) {
        lemma_step(worker, event, now, cancelled);
    }
}

/// The published paths change only with a publication, which adds its path and
/// reports the file as completed under that very path.
pub proof fn law_committed_paths_are_published_paths(
    worker: WorkerView,
    event: WorkerEventView,
    now: Instant,
    cancelled: bool,
)
    requires
        worker.wf(),
        worker.expects(event),
    ensures
        ({
            let (next, action) = worker.advanced(event, now, cancelled);
            match event {
                WorkerEventView::Published(PublicationView::Published(path)) => {
                    &&& next.committed_paths == worker.committed_paths.push(path)
                    &&& action matches WorkerActionView::Send { output, terminal }
                    &&& terminal
                    &&& output matches RuntimeOutputView::Event(
                        TransferEventView::FileResult { outcome, path: reported, .. },
                    )
                    &&& outcome is Completed
                    &&& reported == Some(path)
                },
                _ => next.committed_paths == worker.committed_paths,
            }
        }),
{
    if !(event is Published) {
        lemma_step(worker, event, now, cancelled);
    }
}

/// A file that could not be published is reported as failed, never as
/// completed, and the transfer stops once that report is out.
pub proof fn law_failed_publication_is_reported(
    worker: WorkerView,
    failure: ErrorView,
    now: Instant,
    later: Instant,
    cancelled: bool,
)
    requires
        worker.wf(),
        worker.stage is Publishing,
    ensures
        ({
            let (next, action) = worker.advanced(
                WorkerEventView::Published(PublicationView::Failed(failure)),
                now,
                cancelled,
            );
            &&& action matches WorkerActionView::Send { output, terminal }
            &&& terminal
            &&& output matches RuntimeOutputView::Event(
                TransferEventView::FileResult { outcome, path, .. },
            )
            &&& outcome == FileOutcomeView::Failed(failure)
            &&& path is None
            &&& next.advanced(WorkerEventView::Sent(None), later, cancelled).1
                == WorkerActionView::Stop(Some(StopView::Failed(failure)))
        }),
{
}

/// A cancelled transfer asks the protocol for nothing more: the next look at
/// it stops it.
pub proof fn law_cancellation_stops_the_protocol(worker: WorkerView, now: Instant)
    requires
        worker.wf(),
        worker.stage is Polling,
    ensures
        worker.advanced(WorkerEventView::Resume, now, true) == worker.ended(
            Some(StopView::Cancelled),
        ),
{
}

/// Without progress the deadline stops the transfer; input does not move the
/// deadline, unless the peer confirms more of the file in flight than was read.
pub proof fn law_only_progress_moves_the_deadline(
    worker: WorkerView,
    chunk: Option<Seq<u8>>,
    now: Instant,
)
    requires
        worker.wf(),
        worker.stage is Fetching,
    ensures
        ({
            let next = worker.advanced(WorkerEventView::Input(chunk), now, false).0;
            next.deadline == worker.deadline || {
                &&& worker.current matches Some(before)
                &&& next.current matches Some(after)
                &&& after.bytes > before.bytes
            }
        }),
        now >= worker.deadline ==> worker.checked(now, false) is Some,
{
}

/// A run of five cancel bytes stops the transfer as cancelled by the peer,
/// before the protocol sees any of them: each of the first four is only held.
pub proof fn law_cancel_run_stops_before_the_protocol(worker: WorkerView, now: Instant)
    requires
        worker.offset < worker.input.len(),
        worker.input[worker.offset as int] == 0x18,
        worker.offset < usize::MAX,
    ensures
        worker.cans >= CANCEL_RUN - 1 ==> worker.consuming(now) == worker.ended(
            Some(StopView::RemoteCancelled),
        ),
        worker.cans < CANCEL_RUN - 1 ==> worker.consuming(now) == (WorkerView {
            cans: (worker.cans + 1) as u8,
            offset: (worker.offset + 1) as usize,
            ..worker
        }).going_on(),
{
}

/// What follows a transfer is passed on piece by piece, in order and complete,
/// before the transfer ends.
pub proof fn law_tails_are_passed_on_in_order(
    worker: WorkerView,
    tails: Seq<Seq<u8>>,
    now: Instant,
    cancelled: bool,
)
    ensures
        tails.len() == 0 ==> worker.tailing(tails) == worker.ended(None),
        tails.len() > 0 ==> ({
            let (next, action) = worker.tailing(tails);
            &&& action == WorkerActionView::Send {
                output: RuntimeOutputView::Tail { id: worker.id, bytes: tails[0] },
                terminal: false,
            }
            &&& next.advanced(WorkerEventView::Sent(None), now, cancelled) == worker.rested().tailing(
                tails.skip(1),
            )
        }),
{
}

/// An upload is reported as skipped if and only if the peer declined it with
/// its last header, whatever the size of the file and however much of it was
/// read; otherwise its source is validated.
pub proof fn law_uploads_are_skipped_by_their_peer(worker: WorkerView, now: Instant)
    requires
        worker.current matches Some(file) && file.upload,
    ensures
        ({
            let (next, action) = worker.acting(ActionView::FileCompleted, now);
            if worker.peer.skipped {
                &&& next.current is None
                &&& action matches WorkerActionView::Send { output, .. }
                &&& output matches RuntimeOutputView::Event(
                    TransferEventView::FileResult { name, bytes, outcome, .. },
                )
                &&& outcome is Skipped
                &&& name == worker.current->0.name
                &&& bytes == worker.current->0.bytes
            } else {
                &&& next.current == worker.current
                &&& action is ValidateSource
            }
        }),
{
}

/// A download is over only after both letters O came with which a sender ends
/// its session, one after the other.
pub proof fn law_downloads_end_with_both_letters(
    worker: WorkerView,
    event: WorkerEventView,
    now: Instant,
    cancelled: bool,
)
    requires
        worker.wf(),
        worker.expects(event),
        worker.role is Download,
    ensures
        worker.advanced(event, now, cancelled).1 is CloseInput ==> worker.complete
            && worker.closing >= CLOSED,
        forall|seen: u8, byte: u8|
            seen < CLOSED ==> {
                &&& (#[trigger] closing_step(worker.role, seen, byte) == Some(CLOSED) <==> seen
                    == FIRST_LETTER && byte == 0x4f)
                &&& (closing_step(worker.role, seen, byte) == Some(FIRST_LETTER) ==> byte == 0x4f)
            },
{
    if !(event is Published) {
        lemma_step(worker, event, now, cancelled);
    }
}

/// What an upload's peer confirms beyond what was read counts as progress, and
/// what it confirms of less changes nothing.
pub proof fn law_confirmed_positions_count(worker: WorkerView, now: Instant)
    requires
        worker.role is Upload,
        worker.current is Some,
        worker.peer.position is Some,
    ensures
        ({
            let (next, _) = worker.confirming(now);
            let (file, position) = (worker.current->0, worker.peer.position->0);
            if position > file.bytes {
                &&& next.current == Some(FileView { bytes: position as u64, ..file })
                &&& next.deadline == (now + TRANSFER_TIMEOUT) as u64
            } else {
                worker.confirming(now) == worker.going_on()
            }
        }),
{
}

/// No more than the limit of files is ever announced.
pub proof fn law_announced_files_are_limited(
    worker: WorkerView,
    name: Seq<u8>,
    size: Option<u64>,
    now: Instant,
)
    ensures
        worker.announcing(name, size, now).1 is Send ==> {
            &&& worker.announcing(name, size, now).0.files_seen <= MAX_FILES
            &&& checked_name(name) is Ok
        },
{
}

/// Whatever ends a transfer, the last output is its end with every path that
/// was published, and unless it completed the first is an abort.
pub proof fn law_the_end_is_reported_last(worker: WorkerView, stop: Option<StopView>)
    ensures
        worker.concluded(stop).last() == RuntimeOutputView::Event(
            TransferEventView::Finished {
                id: worker.id,
                role: worker.role,
                outcome: WorkerView::outcome(stop),
                committed_paths: worker.committed_paths,
            },
        ),
        stop is Some <==> worker.concluded(stop)[0] == (RuntimeOutputView::Abort { id: worker.id }),
{
}

/// A worker of a download that asks its machine for the next action, which is
/// `action`.
pub open spec fn receiver_asks(
    worker: WorkerView,
    history: ReceiverHistory,
    action: ActionView,
    now: Instant,
) -> bool {
    &&& worker.stage is Polling
    &&& worker.role is Download
    &&& worker.protocol == Some(ProtocolView::Download(history))
    &&& receiver_poll(history) == action
    &&& now < worker.deadline
}

/// A worker of an upload that asks its machine for the next action, which is
/// `action`.
pub open spec fn sender_asks(
    worker: WorkerView,
    history: SenderHistory,
    action: ActionView,
    now: Instant,
) -> bool {
    &&& worker.stage is Polling
    &&& worker.role is Upload
    &&& worker.protocol == Some(ProtocolView::Upload(history))
    &&& sender_poll(history) == action
    &&& now < worker.deadline
}

/// The announced size as it is counted.
pub open spec fn counted_size(size: Option<u32>) -> Option<u64> {
    match size {
        Some(size) => Some(size as u64),
        None => None,
    }
}

/// A download is announced with the size that its sender gave, also where it
/// gave none, and the file in flight has that size: the start of the file
/// reports it, a free name is created, and what is then counted up starts from
/// nothing towards that size. The machine is told to accept the file from its
/// start.
pub proof fn law_announced_sizes_are_kept(
    worker: WorkerView,
    history: ReceiverHistory,
    name: Seq<u8>,
    size: Option<u32>,
    now: Instant,
    later: Instant,
    last: Instant,
)
    requires
        receiver_asks(worker, history, ActionView::FileStarted { name, size }, now),
        valid_utf8(name),
        is_safe_name(decode_utf8(name)),
        worker.files_seen < MAX_FILES,
        now <= LAST_INSTANT,
        last < now + TRANSFER_TIMEOUT,
        worker.directory matches Some(directory) && worker.committed_path_bytes + joined(
            directory,
            encode_utf8(decode_utf8(name)),
        ).len() + RENAME_RESERVE <= MAX_PATH_BYTES,
    ensures
        ({
            let shown = decode_utf8(name);
            let (started, first) = worker.advanced(WorkerEventView::Resume, now, false);
            let (reported, second) = started.advanced(WorkerEventView::Sent(None), later, false);
            let (free, third) = reported.advanced(WorkerEventView::Probed(Ok(false)), later, false);
            let creating = if worker.policy is Skip {
                free
            } else {
                reported
            };
            let (open, _) = creating.advanced(WorkerEventView::Done(None), last, false);
            &&& first == WorkerActionView::Send {
                output: RuntimeOutputView::Event(
                    TransferEventView::FileStarted {
                        id: worker.id,
                        role: worker.role,
                        name: shown,
                        size: counted_size(size),
                    },
                ),
                terminal: false,
            }
            &&& started.files_seen == worker.files_seen + 1
            &&& started.deadline == now + TRANSFER_TIMEOUT
            &&& worker.policy is Skip ==> second == WorkerActionView::Probe(shown) && third
                == WorkerActionView::Create(shown)
            &&& !(worker.policy is Skip) ==> second == WorkerActionView::Create(shown)
            &&& open.current == Some(
                FileView { name: shown, size: counted_size(size), bytes: 0, upload: false },
            )
            &&& open.protocol == Some(
                ProtocolView::Download(
                    history.then_call(ReceiverCall::Poll).then_call(ReceiverCall::AcceptFileAt(0)),
                ),
            )
        }),
{
}

/// A download whose name is taken is left alone where that is the policy: it is
/// reported as skipped with nothing received, the machine is told to skip it,
/// and no file is in flight.
pub proof fn law_taken_names_are_declined(
    worker: WorkerView,
    name: Seq<char>,
    size: Option<u64>,
    history: ReceiverHistory,
    now: Instant,
    later: Instant,
    cancelled: bool,
)
    requires
        worker.stage == (StageView::Probing { name, size }),
        worker.protocol == Some(ProtocolView::Download(history)),
    ensures
        ({
            let (told, action) = worker.advanced(
                WorkerEventView::Probed(Ok(true)),
                now,
                cancelled,
            );
            let (next, _) = told.advanced(WorkerEventView::Sent(None), later, cancelled);
            &&& action == WorkerActionView::Send {
                output: RuntimeOutputView::Event(
                    TransferEventView::FileResult {
                        id: worker.id,
                        role: worker.role,
                        name,
                        bytes: 0,
                        outcome: FileOutcomeView::Skipped,
                        path: None,
                    },
                ),
                terminal: false,
            }
            &&& next.protocol == Some(
                ProtocolView::Download(history.then_call(ReceiverCall::SkipFile)),
            )
            &&& next.current == worker.current
        }),
{
}

/// An announced file is refused, and nothing is reported of it, if its name is
/// not safe or if the batch has its most files already.
pub proof fn law_refused_announcements_stop_the_transfer(
    worker: WorkerView,
    history: ReceiverHistory,
    name: Seq<u8>,
    size: Option<u32>,
    now: Instant,
)
    requires
        receiver_asks(worker, history, ActionView::FileStarted { name, size }, now),
    ensures
        ({
            let (next, action) = worker.advanced(WorkerEventView::Resume, now, false);
            let safe = valid_utf8(name) && is_safe_name(decode_utf8(name));
            &&& !safe ==> (action matches WorkerActionView::Stop(Some(StopView::Failed(failure)))
                && failure.kind is UnsafeName)
            &&& safe && worker.files_seen >= MAX_FILES ==> (
            action matches WorkerActionView::Stop(Some(StopView::Failed(failure)))
                && failure.kind is Configuration && failure.message == "Batch exceeds 128 files"@)
            &&& safe && worker.files_seen < MAX_FILES ==> action is Send
            &&& next.current == worker.current
        }),
{
}

/// Data of a download is stored as it came, and each stored piece is counted
/// once: the machine is told of exactly that many bytes, the file in flight
/// has so many more, its name and size stay, and progress that is reported
/// carries the count and the announced size.
pub proof fn law_stored_bytes_are_counted(
    worker: WorkerView,
    history: ReceiverHistory,
    data: Seq<u8>,
    file: FileView,
    now: Instant,
    later: Instant,
)
    requires
        receiver_asks(worker, history, ActionView::WriteFile(data), now),
        worker.current == Some(file),
        !file.upload,
        data.len() <= MAX_INPUT_CHUNK,
        file.bytes + data.len() <= u64::MAX,
        file.size matches Some(size) ==> file.bytes + data.len() <= size,
        later < worker.deadline,
        later <= LAST_INSTANT,
        receiver_file_written(
            history.then_call(ReceiverCall::Poll),
            data.len() as usize,
        ) is Ok,
    ensures
        ({
            let (storing, first) = worker.advanced(WorkerEventView::Resume, now, false);
            let (next, second) = storing.advanced(WorkerEventView::Done(None), later, false);
            &&& first == WorkerActionView::Store(data)
            &&& storing.current == Some(file)
            &&& next.current matches Some(after)
            &&& after.bytes == file.bytes + data.len()
            &&& after.name == file.name
            &&& after.size == file.size
            &&& after.upload == file.upload
            &&& next.protocol == Some(
                ProtocolView::Download(
                    history.then_call(ReceiverCall::Poll).then_call(
                        ReceiverCall::FileWritten(data.len() as usize),
                    ),
                ),
            )
            &&& data.len() > 0 ==> next.deadline == later + TRANSFER_TIMEOUT
            &&& data.len() > 0 && later >= worker.last_progress + PROGRESS_INTERVAL ==> second
                == WorkerActionView::Send {
                output: RuntimeOutputView::Event(
                    TransferEventView::Progress {
                        id: worker.id,
                        role: worker.role,
                        name: file.name,
                        bytes: after.bytes,
                        total: file.size,
                    },
                ),
                terminal: false,
            }
            &&& data.len() == 0 || later < worker.last_progress + PROGRESS_INTERVAL ==> second
                is Continue
        }),
{
}

/// Data that does not belong to a download in flight, or goes beyond its
/// announced size, is not stored: the transfer stops.
pub proof fn law_unexpected_data_stops_the_transfer(
    worker: WorkerView,
    history: ReceiverHistory,
    data: Seq<u8>,
    now: Instant,
)
    requires
        receiver_asks(worker, history, ActionView::WriteFile(data), now),
        worker.current matches Some(file) ==> file.upload || (file.size matches Some(size)
            && file.bytes + data.len() > size),
    ensures
        ({
            let (_, action) = worker.advanced(WorkerEventView::Resume, now, false);
            &&& action matches WorkerActionView::Stop(Some(StopView::Failed(failure)))
            &&& failure.kind is Protocol
            &&& worker.current is None ==> failure.message == "File data without acceptance"@
            &&& worker.current matches Some(file) ==> failure.message == if file.upload {
                "Write requested during upload"@
            } else {
                "Received data exceeds advertised size"@
            }
        }),
{
}

/// A download that its sender completes is flushed to disk exactly if all of
/// the announced bytes came, or none were announced; one with fewer fails.
pub proof fn law_short_downloads_fail(
    worker: WorkerView,
    history: ReceiverHistory,
    file: FileView,
    now: Instant,
)
    requires
        receiver_asks(worker, history, ActionView::FileCompleted, now),
        worker.current == Some(file),
        !file.upload,
    ensures
        ({
            let (next, action) = worker.advanced(WorkerEventView::Resume, now, false);
            if file.size is Some && file.bytes != file.size->0 {
                action == WorkerActionView::Stop(
                    Some(
                        StopView::Failed(
                            ErrorView {
                                kind: ErrorKind::Protocol,
                                message: "Received file size does not match metadata"@,
                            },
                        ),
                    ),
                )
            } else {
                &&& action is Sync
                &&& next.current == Some(file)
            }
        }),
{
}

/// A flushed download is reported with all its bytes, then published under its
/// name, and the end of the file carries the same name and count.
pub proof fn law_flushed_downloads_are_published(
    worker: WorkerView,
    file: FileView,
    path: Seq<u8>,
    now: Instant,
    later: Instant,
)
    requires
        worker.stage is Confirming,
        worker.current == Some(file),
        !file.upload,
        worker.directory is Some,
        now < worker.deadline,
    ensures
        ({
            let (told, first) = worker.advanced(WorkerEventView::Done(None), now, false);
            let (publishing, second) = told.advanced(WorkerEventView::Sent(None), later, false);
            let (next, third) = publishing.advanced(
                WorkerEventView::Published(PublicationView::Published(path)),
                later,
                false,
            );
            &&& first == WorkerActionView::Send {
                output: RuntimeOutputView::Event(
                    TransferEventView::Progress {
                        id: worker.id,
                        role: worker.role,
                        name: file.name,
                        bytes: file.bytes,
                        total: file.size,
                    },
                ),
                terminal: false,
            }
            &&& second is Publish
            &&& publishing.current is None
            &&& third == WorkerActionView::Send {
                output: RuntimeOutputView::Event(
                    TransferEventView::FileResult {
                        id: worker.id,
                        role: worker.role,
                        name: file.name,
                        bytes: file.bytes,
                        outcome: FileOutcomeView::Completed,
                        path: Some(path),
                    },
                ),
                terminal: true,
            }
        }),
{
}

/// A file that was not published is reported under its name and count with
/// what became of it, and has no path: one that gave way to an existing file
/// was skipped, and one that a cancellation overtook has failed, which stops
/// the transfer as cancelled.
pub proof fn law_unpublished_files_are_reported(
    worker: WorkerView,
    name: Seq<char>,
    bytes: u64,
    now: Instant,
    later: Instant,
)
    requires
        worker.stage == (StageView::Publishing { name, bytes }),
    ensures
        ({
            let (kept, skipped) = worker.advanced(
                WorkerEventView::Published(PublicationView::Skipped),
                now,
                false,
            );
            let (lost, cancelled) = worker.advanced(
                WorkerEventView::Published(PublicationView::Lost),
                now,
                false,
            );
            let end = lost.advanced(WorkerEventView::Sent(None), later, false).1;
            &&& skipped == WorkerActionView::Send {
                output: RuntimeOutputView::Event(
                    TransferEventView::FileResult {
                        id: worker.id,
                        role: worker.role,
                        name,
                        bytes,
                        outcome: FileOutcomeView::Skipped,
                        path: None,
                    },
                ),
                terminal: true,
            }
            &&& cancelled matches WorkerActionView::Send { output, .. }
            &&& output matches RuntimeOutputView::Event(
                TransferEventView::FileResult {
                    name: told,
                    bytes: count,
                    outcome: FileOutcomeView::Failed(_),
                    path: None,
                    ..
                },
            )
            &&& told == name
            &&& count == bytes
            &&& end == WorkerActionView::Stop(Some(StopView::Cancelled))
        }),
{
}

/// Wire bytes are passed on whole under the next number, and once they are out
/// the machine is told of exactly that many.
pub proof fn law_wire_bytes_are_numbered_and_acknowledged(
    worker: WorkerView,
    history: ReceiverHistory,
    bytes: Seq<u8>,
    now: Instant,
    later: Instant,
)
    requires
        receiver_asks(worker, history, ActionView::WriteWire(bytes), now),
        bytes.len() <= MAX_INPUT_CHUNK,
        worker.sequence < u64::MAX,
    ensures
        ({
            let (sending, first) = worker.advanced(WorkerEventView::Resume, now, false);
            let (next, second) = sending.advanced(WorkerEventView::Sent(None), later, false);
            &&& first == WorkerActionView::Send {
                output: RuntimeOutputView::Wire {
                    id: worker.id,
                    sequence: (worker.sequence + 1) as u64,
                    bytes,
                },
                terminal: false,
            }
            &&& next.sequence == worker.sequence + 1
            &&& next.protocol == Some(
                ProtocolView::Download(
                    history.then_call(ReceiverCall::Poll).then_call(
                        ReceiverCall::WireWritten(bytes.len() as usize),
                    ),
                ),
            )
            &&& second is Continue
            &&& next.current == worker.current
        }),
{
}

/// The wire bytes of an upload are passed on and acknowledged in the same way.
pub proof fn law_upload_bytes_are_numbered_and_acknowledged(
    worker: WorkerView,
    history: SenderHistory,
    bytes: Seq<u8>,
    now: Instant,
    later: Instant,
)
    requires
        sender_asks(worker, history, ActionView::WriteWire(bytes), now),
        bytes.len() <= MAX_INPUT_CHUNK,
        worker.sequence < u64::MAX,
    ensures
        ({
            let (sending, first) = worker.advanced(WorkerEventView::Resume, now, false);
            let (next, second) = sending.advanced(WorkerEventView::Sent(None), later, false);
            &&& first == WorkerActionView::Send {
                output: RuntimeOutputView::Wire {
                    id: worker.id,
                    sequence: (worker.sequence + 1) as u64,
                    bytes,
                },
                terminal: false,
            }
            &&& next.sequence == worker.sequence + 1
            &&& next.protocol == Some(
                ProtocolView::Upload(
                    history.then_call(SenderCall::Poll).then_call(
                        SenderCall::WireWritten(bytes.len() as usize),
                    ),
                ),
            )
            &&& second is Continue
            &&& next.current == worker.current
        }),
{
}

/// The file bytes that the machine of an upload asks for are read from the
/// source at that very place, and reach the machine whole; the file in flight
/// has then been read up to their end.
pub proof fn law_read_bytes_reach_the_machine(
    worker: WorkerView,
    history: SenderHistory,
    file: FileView,
    offset: u32,
    max_len: usize,
    data: Seq<u8>,
    now: Instant,
    later: Instant,
)
    requires
        sender_asks(worker, history, ActionView::ReadFile { offset, max_len }, now),
        worker.current == Some(file),
        file.upload,
        data.len() <= MAX_INPUT_CHUNK,
        later < worker.deadline,
        later <= LAST_INSTANT,
        sender_submit_file(history.then_call(SenderCall::Poll), data) is Ok,
    ensures
        ({
            let (reading, first) = worker.advanced(WorkerEventView::Resume, now, false);
            let (next, second) = reading.advanced(
                WorkerEventView::SourceRead(Ok(data)),
                later,
                false,
            );
            &&& first == (WorkerActionView::ReadSource { offset, max_len })
            &&& next.protocol == Some(
                ProtocolView::Upload(
                    history.then_call(SenderCall::Poll).then_call(SenderCall::SubmitFile(data)),
                ),
            )
            &&& next.current matches Some(after)
            &&& after.bytes == offset + data.len()
            &&& after.name == file.name
            &&& after.size == file.size
            &&& next.deadline == later + TRANSFER_TIMEOUT
            &&& later >= worker.last_progress + PROGRESS_INTERVAL ==> second
                == WorkerActionView::Send {
                output: RuntimeOutputView::Event(
                    TransferEventView::Progress {
                        id: worker.id,
                        role: worker.role,
                        name: file.name,
                        bytes: after.bytes,
                        total: file.size,
                    },
                ),
                terminal: false,
            }
            &&& later < worker.last_progress + PROGRESS_INTERVAL ==> second is Continue
        }),
{
}

/// Once the machine of an upload has nothing to do and no file is in flight,
/// the first of the selected files is opened and offered under its name and
/// length, and the rest stays selected; the start of the file reports the
/// same.
pub proof fn law_selected_files_are_offered_in_order(
    worker: WorkerView,
    history: SenderHistory,
    now: Instant,
    later: Instant,
)
    requires
        sender_asks(worker, history, ActionView::Idle, now),
        worker.current is None,
        !worker.complete,
        !worker.finishing,
        worker.uploads.len() > 0,
        is_safe_name(worker.uploads[0].name),
        worker.files_seen < MAX_FILES,
        sender_start_file(
            history.then_call(SenderCall::Poll),
            encode_utf8(worker.uploads[0].name),
            worker.uploads[0].len,
        ) is Ok,
    ensures
        ({
            let source = worker.uploads[0];
            let (opening, first) = worker.advanced(WorkerEventView::Resume, now, false);
            let (next, second) = opening.advanced(WorkerEventView::Done(None), later, false);
            &&& first is OpenSource
            &&& opening.uploads == worker.uploads
            &&& worker.uploads == seq![source] + next.uploads
            &&& next.protocol == Some(
                ProtocolView::Upload(
                    history.then_call(SenderCall::Poll).then_call(
                        SenderCall::StartFile(encode_utf8(source.name), source.len),
                    ),
                ),
            )
            &&& next.current == Some(
                FileView {
                    name: source.name,
                    size: Some(source.len as u64),
                    bytes: 0,
                    upload: true,
                },
            )
            &&& second == WorkerActionView::Send {
                output: RuntimeOutputView::Event(
                    TransferEventView::FileStarted {
                        id: worker.id,
                        role: worker.role,
                        name: source.name,
                        size: Some(source.len as u64),
                    },
                ),
                terminal: false,
            }
        }),
{
    let source = worker.uploads[0];
    vstd::utf8::encode_utf8_valid_utf8(source.name);
    vstd::utf8::encode_utf8_decode_utf8(source.name);
    assert(worker.uploads =~= seq![source] + worker.uploads.skip(1));
}

/// When every selected file was offered, the machine of an upload is told once
/// that there are no more.
pub proof fn law_the_batch_is_ended_once(
    worker: WorkerView,
    history: SenderHistory,
    now: Instant,
)
    requires
        sender_asks(worker, history, ActionView::Idle, now),
        worker.current is None,
        !worker.complete,
        worker.uploads.len() == 0,
        sender_finish(history.then_call(SenderCall::Poll)) is Ok,
    ensures
        ({
            let (next, action) = worker.advanced(WorkerEventView::Resume, now, false);
            &&& !worker.finishing ==> {
                &&& next.finishing
                &&& action is Continue
                &&& next.protocol == Some(
                    ProtocolView::Upload(
                        history.then_call(SenderCall::Poll).then_call(SenderCall::Finish),
                    ),
                )
            }
            &&& worker.finishing && worker.offset >= worker.input.len() ==> {
                &&& next.finishing
                &&& action is TakeInput
                &&& next.protocol == Some(
                    ProtocolView::Upload(history.then_call(SenderCall::Poll)),
                )
            }
        }),
{
}

/// An upload whose source is unchanged is reported as read to its end, and its
/// end as completed with all its bytes.
pub proof fn law_valid_uploads_complete(
    worker: WorkerView,
    file: FileView,
    size: u64,
    now: Instant,
    later: Instant,
)
    requires
        worker.stage is Confirming,
        worker.current == Some(file),
        file.upload,
        file.size == Some(size),
        now < worker.deadline,
    ensures
        ({
            let (told, first) = worker.advanced(WorkerEventView::Done(None), now, false);
            let (next, second) = told.advanced(WorkerEventView::Sent(None), later, false);
            &&& first == WorkerActionView::Send {
                output: RuntimeOutputView::Event(
                    TransferEventView::Progress {
                        id: worker.id,
                        role: worker.role,
                        name: file.name,
                        bytes: size,
                        total: Some(size),
                    },
                ),
                terminal: false,
            }
            &&& second == WorkerActionView::Send {
                output: RuntimeOutputView::Event(
                    TransferEventView::FileResult {
                        id: worker.id,
                        role: worker.role,
                        name: file.name,
                        bytes: size,
                        outcome: FileOutcomeView::Completed,
                        path: None,
                    },
                ),
                terminal: true,
            }
            &&& next.current is None
        }),
{
}

/// Input reaches the machine in order and without its cancel bytes: what the
/// machine of a download is offered is the front of the chunk up to the first
/// cancel byte or to its end, and exactly what it takes is used up.
pub proof fn law_input_reaches_the_machine_in_order(
    worker: WorkerView,
    history: ReceiverHistory,
    chunk: Seq<u8>,
    now: Instant,
)
    requires
        worker.stage is Fetching,
        worker.role is Download,
        worker.protocol == Some(ProtocolView::Download(history)),
        !worker.complete,
        worker.cans == 0,
        0 < chunk.len() <= MAX_INPUT_CHUNK,
        chunk[0] != 0x18,
        now <= LAST_INSTANT,
    ensures
        ({
            let (next, action) = worker.advanced(WorkerEventView::Input(Some(chunk)), now, false);
            exists|end: int|
                {
                    &&& 0 < end <= chunk.len()
                    &&& forall|i: int| 0 <= i < end ==> chunk[i] != 0x18
                    &&& end == chunk.len() || chunk[end] == 0x18
                    &&& next.protocol == Some(
                        ProtocolView::Download(
                            history.then_call(
                                ReceiverCall::SubmitWire(#[trigger] chunk.take(end)),
                            ),
                        ),
                    )
                    &&& match receiver_submit_wire(history, chunk.take(end)) {
                        Ok(count) if 0 < count <= end => {
                            &&& action is Continue
                            &&& next.input == chunk
                            &&& next.offset == count
                            &&& next.retry_at == now + RETRY_TIMEOUT
                            &&& next.current == worker.current
                        },
                        Ok(count) if count == 0 => action matches WorkerActionView::Stop(
                            Some(StopView::Failed(_)),
                        ),
                        Ok(_) => true,
                        Err(_) => action matches WorkerActionView::Stop(
                            Some(StopView::Failed(_)),
                        ),
                    }
                }
        }),
{
    lemma_run_end(chunk, 0);
    let end = run_end(chunk, 0);
    assert(chunk.subrange(0, end) =~= chunk.take(end));
}

proof fn lemma_run_end(input: Seq<u8>, from: int)
    requires
        0 <= from < input.len(),
        input[from] != 0x18,
    ensures
        from < run_end(input, from) <= input.len(),
        forall|i: int| from <= i < run_end(input, from) ==> input[i] != 0x18,
        run_end(input, from) == input.len() || input[run_end(input, from)] == 0x18,
    decreases input.len() - from,
{
    if from + 1 < input.len() && input[from + 1] != 0x18 {
        lemma_run_end(input, from + 1);
    }
    reveal_with_fuel(run_end, 2);
}

/// Cancel bytes that turn out to be too few are given to the machine before
/// what follows them, and those that it takes are held no longer.
pub proof fn law_held_cancel_bytes_come_first(
    worker: WorkerView,
    history: ReceiverHistory,
    chunk: Seq<u8>,
    count: usize,
    now: Instant,
)
    requires
        worker.stage is Fetching,
        worker.role is Download,
        worker.protocol == Some(ProtocolView::Download(history)),
        !worker.complete,
        0 < worker.cans < 5,
        chunk.len() > 0,
        chunk[0] != 0x18,
        0 < count <= worker.cans,
        receiver_submit_wire(history, Seq::new(worker.cans as nat, |i: int| 0x18u8)) == Ok::<
            usize,
            zmodem2::Error,
        >(count),
    ensures
        ({
            let (next, action) = worker.advanced(WorkerEventView::Input(Some(chunk)), now, false);
            &&& action is Continue
            &&& next.protocol == Some(
                ProtocolView::Download(
                    history.then_call(
                        ReceiverCall::SubmitWire(Seq::new(worker.cans as nat, |i: int| 0x18u8)),
                    ),
                ),
            )
            &&& next.cans == worker.cans - count
            &&& next.input == chunk
            &&& next.offset == 0
        }),
{
}

/// A silent peer is asked again after each retry time, and not before.
pub proof fn law_silent_peers_are_asked_again(
    worker: WorkerView,
    history: ReceiverHistory,
    now: Instant,
)
    requires
        worker.stage is Fetching,
        worker.role is Download,
        worker.protocol == Some(ProtocolView::Download(history)),
        now <= LAST_INSTANT,
        receiver_timeout(history) is Ok,
    ensures
        ({
            let (next, action) = worker.advanced(WorkerEventView::Input(None), now, false);
            &&& action is Wait
            &&& now >= worker.retry_at ==> {
                &&& next.protocol == Some(
                    ProtocolView::Download(history.then_call(ReceiverCall::Timeout)),
                )
                &&& next.retry_at == now + 5 * crate::clock::SECOND
            }
            &&& now < worker.retry_at ==> {
                &&& next.protocol == worker.protocol
                &&& next.retry_at == worker.retry_at
            }
            &&& next.deadline == worker.deadline
        }),
{
}

/// A choice starts the transfer exactly if it comes in time and nobody has
/// cancelled: the files of an upload are inspected, the directory of a
/// download is opened under the chosen policy.
pub proof fn law_choices_start_the_transfer(
    worker: WorkerView,
    remote_cancelled: bool,
    choice: ChoiceView,
    now: Instant,
    cancelled: bool,
)
    requires
        worker.stage is Choosing,
    ensures
        ({
            let (next, action) = worker.advanced(
                WorkerEventView::Choice { remote_cancelled, choice },
                now,
                cancelled,
            );
            if cancelled {
                action == WorkerActionView::Stop(Some(StopView::Cancelled))
            } else if now >= worker.deadline {
                action matches WorkerActionView::Stop(Some(StopView::Failed(failure)))
                    && failure.kind is Timeout
            } else if remote_cancelled {
                action == WorkerActionView::Stop(Some(StopView::RemoteCancelled))
            } else {
                match choice {
                    ChoiceView::Pending => action is Wait && next.stage is Choosing,
                    ChoiceView::Gone => action == WorkerActionView::Stop(
                        Some(StopView::Cancelled),
                    ),
                    ChoiceView::Made(ConfigurationView::Upload(paths)) => if paths.len() == 0 {
                        action is Begin
                    } else {
                        &&& action == WorkerActionView::Inspect(paths[0])
                        &&& next.uploads == worker.uploads
                        &&& next.stage matches StageView::Inspecting { paths: rest }
                        &&& paths == seq![paths[0]] + rest
                    },
                    ChoiceView::Made(ConfigurationView::Download(directory, policy)) => {
                        &&& action == WorkerActionView::OpenDirectory(directory)
                        &&& next.policy == policy
                    },
                }
            }
        }),
{
    if let ChoiceView::Made(ConfigurationView::Upload(paths)) = choice {
        if paths.len() > 0 {
            assert(paths =~= seq![paths[0]] + paths.skip(1));
        }
    }
}

/// The selected files are inspected one after another, and each that passes is
/// selected behind the others; the transfer begins with the last.
pub proof fn law_inspected_files_stay_in_order(
    worker: WorkerView,
    paths: Seq<Seq<u8>>,
    source: SourceView,
    now: Instant,
)
    requires
        worker.stage == (StageView::Inspecting { paths }),
        now < worker.deadline,
    ensures
        ({
            let (next, action) = worker.advanced(
                WorkerEventView::Inspected(Ok(source)),
                now,
                false,
            );
            &&& next.uploads == worker.uploads.push(source)
            &&& if paths.len() == 0 {
                action is Begin
            } else {
                &&& action == WorkerActionView::Inspect(paths[0])
                &&& next.stage matches StageView::Inspecting { paths: rest }
                &&& paths == seq![paths[0]] + rest
            }
        }),
{
    if paths.len() > 0 {
        assert(paths =~= seq![paths[0]] + paths.skip(1));
    }
}

/// Whatever goes wrong outside stops the transfer with that very failure.
pub proof fn law_failures_stop_the_transfer(
    worker: WorkerView,
    failure: ErrorView,
    now: Instant,
    cancelled: bool,
)
    requires
        !(worker.stage is Choosing),
    ensures
        ({
            let stop = WorkerActionView::Stop(Some(StopView::Failed(failure)));
            let told = WorkerEventView::Sent(Some(StopView::Failed(failure)));
            &&& worker.stage is Inspecting ==> worker.advanced(
                WorkerEventView::Inspected(Err(failure)),
                now,
                cancelled,
            ).1 == stop
            &&& worker.stage is OpeningDirectory ==> worker.advanced(
                WorkerEventView::DirectoryOpened(Err(failure)),
                now,
                cancelled,
            ).1 == stop
            &&& worker.stage is Reading ==> worker.advanced(
                WorkerEventView::SourceRead(Err(failure)),
                now,
                cancelled,
            ).1 == stop
            &&& worker.stage is Probing ==> worker.advanced(
                WorkerEventView::Probed(Err(failure)),
                now,
                cancelled,
            ).1 == stop
            &&& worker.stage is Storing || worker.stage is Creating || worker.stage is Opening
                || worker.stage is Confirming ==> worker.advanced(
                WorkerEventView::Done(Some(failure)),
                now,
                cancelled,
            ).1 == stop
            &&& worker.stage is Sending || worker.stage is Announcing || worker.stage is Declining
                || worker.stage is Progressing || worker.stage is Skipping || worker.stage
                is Completing || worker.stage is Reporting || worker.stage is Failing
                || worker.stage is Tailing ==> worker.advanced(told, now, cancelled).1 == stop
        }),
{
}

/// A transfer without progress stops at its deadline as timed out, one that was
/// cancelled at the next look, and no other does so on its own.
pub proof fn law_deadlines_stop_the_transfer(worker: WorkerView, now: Instant, cancelled: bool)
    requires
        worker.stage is Polling,
        cancelled || now >= worker.deadline,
    ensures
        ({
            let (next, action) = worker.advanced(WorkerEventView::Resume, now, cancelled);
            &&& next.protocol == worker.protocol
            &&& if cancelled {
                action == WorkerActionView::Stop(Some(StopView::Cancelled))
            } else {
                action == WorkerActionView::Stop(
                    Some(
                        StopView::Failed(
                            ErrorView {
                                kind: ErrorKind::Timeout,
                                message: "No effective transfer progress before deadline"@,
                            },
                        ),
                    ),
                )
            }
        }),
{
}

/// A session that its peer completes is complete, unless a file is still in
/// flight; one that the peer aborts is cancelled by it.
pub proof fn law_sessions_end_as_the_peer_says(
    worker: WorkerView,
    history: ReceiverHistory,
    now: Instant,
)
    requires
        now <= LAST_INSTANT,
    ensures
        receiver_asks(worker, history, ActionView::Aborted, now) ==> worker.advanced(
            WorkerEventView::Resume,
            now,
            false,
        ).1 == WorkerActionView::Stop(Some(StopView::RemoteCancelled)),
        receiver_asks(worker, history, ActionView::SessionCompleted, now) ==> ({
            let (next, action) = worker.advanced(WorkerEventView::Resume, now, false);
            if worker.current is Some {
                action == WorkerActionView::Stop(
                    Some(
                        StopView::Failed(
                            ErrorView {
                                kind: ErrorKind::Protocol,
                                message: "Session finished with an incomplete file"@,
                            },
                        ),
                    ),
                )
            } else {
                &&& action is Continue
                &&& next.complete
                &&& next.close_at == now + crate::clock::SECOND
            }
        }),
{
}

/// The outcome of a transfer says why it stopped, and completed only where
/// nothing stopped it; the file that it leaves in flight has failed for the
/// same reason, under its name and count.
pub proof fn law_outcomes_say_why(worker: WorkerView, stop: Option<StopView>, failure: ErrorView)
    ensures
        ({
            let outputs = worker.concluded(stop);
            &&& outputs.last() matches RuntimeOutputView::Event(end)
            &&& end matches TransferEventView::Finished { id, role, outcome, committed_paths }
            &&& id == worker.id
            &&& role == worker.role
            &&& committed_paths == worker.committed_paths
            &&& outcome is Completed <==> stop is None
            &&& outcome is Cancelled <==> stop == Some(StopView::Cancelled)
            &&& outcome is RemoteCancelled <==> stop == Some(StopView::RemoteCancelled)
            &&& outcome == TransferOutcomeView::Failed(failure) <==> stop == Some(
                StopView::Failed(failure),
            )
            &&& stop is None ==> outputs.len() == 1
            &&& stop is Some && worker.current is None ==> outputs.len() == 2
            &&& stop is Some && worker.current is Some ==> {
                &&& outputs.len() == 3
                &&& outputs[1] matches RuntimeOutputView::Event(result)
                &&& result matches TransferEventView::FileResult {
                    name,
                    bytes,
                    outcome: FileOutcomeView::Failed(reason),
                    path,
                    ..
                }
                &&& name == (worker.current->0).name
                &&& bytes == (worker.current->0).bytes
                &&& path is None
                &&& stop == Some(StopView::Failed(failure)) ==> reason == failure
            }
        }),
{
}

/// What is left of the input and of the queue behind a finished transfer is
/// all passed on, in order.
pub proof fn law_everything_behind_a_transfer_is_passed_on(
    worker: WorkerView,
    chunks: Seq<Seq<u8>>,
    now: Instant,
)
    requires
        worker.stage is Closing,
        worker.offset <= worker.input.len(),
    ensures
        ({
            let (next, action) = worker.advanced(WorkerEventView::Closed(chunks), now, false);
            let left = worker.input.skip(worker.offset as int);
            let first = if left.len() > 0 {
                Some(left)
            } else if chunks.len() > 0 {
                Some(chunks[0])
            } else {
                None
            };
            match first {
                None => action == WorkerActionView::Stop(None),
                Some(bytes) => {
                    &&& action == WorkerActionView::Send {
                        output: RuntimeOutputView::Tail { id: worker.id, bytes },
                        terminal: false,
                    }
                    &&& next.stage matches StageView::Tailing { tails }
                    &&& tails == (if left.len() > 0 {
                        chunks
                    } else {
                        chunks.skip(1)
                    })
                },
            }
        }),
{
    let left = worker.input.skip(worker.offset as int);
    assert((seq![left] + chunks).skip(1) =~= chunks);
}

/// A download starts in the directory that was opened for it, unless the path
/// is too long to be kept.
pub proof fn law_downloads_go_to_their_directory(
    worker: WorkerView,
    directory: Seq<u8>,
    now: Instant,
    cancelled: bool,
)
    requires
        worker.stage is OpeningDirectory,
    ensures
        ({
            let (next, action) = worker.advanced(
                WorkerEventView::DirectoryOpened(Ok(directory)),
                now,
                cancelled,
            );
            if directory.len() <= 4_096 {
                &&& action is Begin
                &&& next.directory == Some(directory)
            } else {
                &&& action matches WorkerActionView::Stop(Some(StopView::Failed(failure)))
                &&& failure.kind is Configuration
                &&& next.directory == worker.directory
            }
        }),
{
    crate::zmodem_runtime::law_parts_of_fitting_paths_fit(Seq::empty(), Seq::empty());
    assert(paths_fit(seq![directory]) <==> directory.len() <= 4_096);
}

/// A download whose path would not fit into what is kept of paths is refused
/// before anything is created.
pub proof fn law_path_budgets_are_kept(
    worker: WorkerView,
    name: Seq<char>,
    size: Option<u64>,
    directory: Seq<u8>,
    now: Instant,
    cancelled: bool,
)
    requires
        worker.stage == (StageView::Announcing { name, size }),
        worker.directory == Some(directory),
    ensures
        ({
            let (next, action) = worker.advanced(WorkerEventView::Sent(None), now, cancelled);
            let room = worker.committed_path_bytes + joined(directory, encode_utf8(name)).len()
                + 32 <= 65_536;
            &&& !room ==> (action matches WorkerActionView::Stop(Some(StopView::Failed(failure)))
                && failure.kind is Configuration)
            &&& room && worker.policy is Skip ==> action == WorkerActionView::Probe(name)
            &&& room && !(worker.policy is Skip) ==> action == WorkerActionView::Create(name)
        }),
{
}

/// The end of a session belongs to the transfer, and nothing behind it: an
/// upload takes the line end of its peer's last header, a download the line end
/// and two letters O, and each byte that is taken is used up once.
pub proof fn law_the_end_of_a_session_is_taken(
    worker: WorkerView,
    history: ReceiverHistory,
    now: Instant,
)
    requires
        receiver_asks(worker, history, ActionView::Idle, now),
        worker.complete,
        worker.cans == 0,
        worker.offset < worker.input.len() <= MAX_INPUT_CHUNK,
        worker.closing < 4,
    ensures
        ({
            let (next, action) = worker.advanced(WorkerEventView::Resume, now, false);
            let byte = worker.input[worker.offset as int];
            &&& byte == 0x4f ==> {
                &&& action is Continue
                &&& next.offset == worker.offset + 1
                &&& next.closing == if worker.closing == 3 {
                    4u8
                } else {
                    3u8
                }
            }
            &&& byte == 0x0d && worker.closing == 0 ==> next.offset == worker.offset + 1
                && next.closing == 1
            &&& byte == 0x0a && worker.closing < 2 ==> next.offset == worker.offset + 1
                && next.closing == 2
            &&& byte != 0x4f && byte != 0x0d && byte != 0x8d && byte != 0x0a && byte != 0x8a && byte
                != 0x18 ==> {
                &&& action is Wait
                &&& next.offset == worker.offset
                &&& next.closing == worker.closing
            }
            &&& next.input == worker.input
        }),
{
}

/// An upload is over with the line end of its peer's last header, or with the
/// first byte that does not belong to it, which is not taken.
pub proof fn law_the_end_of_an_upload_is_taken(
    worker: WorkerView,
    history: SenderHistory,
    now: Instant,
)
    requires
        sender_asks(worker, history, ActionView::Idle, now),
        worker.complete,
        worker.cans == 0,
        worker.offset < worker.input.len() <= MAX_INPUT_CHUNK,
        worker.closing < 4,
    ensures
        ({
            let (next, action) = worker.advanced(WorkerEventView::Resume, now, false);
            let byte = worker.input[worker.offset as int];
            &&& byte == 0x0d && worker.closing == 0 ==> action is Continue && next.offset
                == worker.offset + 1 && next.closing == 1
            &&& byte == 0x0a && worker.closing < 2 ==> action is Continue && next.offset
                == worker.offset + 1 && next.closing == 4
            &&& byte != 0x0d && byte != 0x8d && byte != 0x0a && byte != 0x8a ==> action
                is CloseInput && next.offset == worker.offset
            &&& next.input == worker.input
        }),
        worker.closing < 4 ==> (WorkerView { closing: 4, ..worker }).advanced(
            WorkerEventView::Resume,
            now,
            false,
        ).1 is CloseInput,
{
}

/// The peer of an upload is heard: what the machine took of its bytes is
/// searched for its headers, in order.
pub proof fn law_peers_of_uploads_are_heard(
    worker: WorkerView,
    history: SenderHistory,
    chunk: Seq<u8>,
    count: usize,
    now: Instant,
)
    requires
        worker.stage is Fetching,
        worker.role is Upload,
        worker.protocol == Some(ProtocolView::Upload(history)),
        !worker.complete,
        worker.cans == 0,
        0 < chunk.len() <= MAX_INPUT_CHUNK,
        forall|i: int| 0 <= i < chunk.len() ==> chunk[i] != 0x18,
        0 < count <= chunk.len(),
        sender_submit_wire(history, chunk) == Ok::<usize, zmodem2::Error>(count),
    ensures
        ({
            let (next, _) = worker.advanced(WorkerEventView::Input(Some(chunk)), now, false);
            &&& next.protocol == Some(
                ProtocolView::Upload(history.then_call(SenderCall::SubmitWire(chunk))),
            )
            &&& next.peer == worker.peer.heard(chunk.take(count as int))
            &&& next.input == chunk
            &&& next.offset == count
            &&& match (worker.current, next.peer.position) {
                (Some(file), Some(position)) if position > file.bytes => next.current == Some(
                    FileView { bytes: position as u64, ..file },
                ),
                _ => next.current == worker.current,
            }
        }),
{
    lemma_run_end(chunk, 0);
    let end = run_end(chunk, 0);
    assert(end == chunk.len());
    assert(chunk.subrange(0, end) =~= chunk);
    assert(chunk.subrange(0, count as int) =~= chunk.take(count as int));
}

/// What is passed on changes only what it is about: reported progress sets the
/// time of the last report, the end of a file renews the deadline and lets go
/// of the file, and everything else stays as it is.
pub proof fn law_passing_on_changes_only_its_part(
    worker: WorkerView,
    failure: Option<StopView>,
    now: Instant,
    cancelled: bool,
)
    requires
        worker.wf(),
        worker.expects(WorkerEventView::Sent(failure)),
    ensures
        ({
            let (next, action) = worker.advanced(WorkerEventView::Sent(failure), now, cancelled);
            let stage = worker.stage;
            let passed = failure is None;
            &&& next == (WorkerView {
                stage: next.stage,
                protocol: next.protocol,
                current: next.current,
                deadline: next.deadline,
                last_progress: next.last_progress,
                ..worker
            })
            &&& next.current == (if passed && stage is Completing {
                None
            } else {
                worker.current
            })
            &&& next.last_progress == (if passed && (stage is Progressing || stage is Completing) {
                now
            } else {
                worker.last_progress
            })
            &&& next.deadline == (if passed && (stage is Skipping || (stage is Reporting
                && !cancelled && now < worker.deadline)) {
                (now + TRANSFER_TIMEOUT) as u64
            } else {
                worker.deadline
            })
            &&& !(passed && (stage is Sending || stage is Declining)) ==> next.protocol
                == worker.protocol
            &&& passed && (stage is Progressing || stage is Skipping) ==> action is Continue
            &&& passed && stage is Reporting ==> action == (if cancelled {
                WorkerActionView::Stop(Some(StopView::Cancelled))
            } else if now < worker.deadline {
                WorkerActionView::Continue
            } else {
                WorkerActionView::Stop(
                    Some(
                        StopView::Failed(
                            ErrorView {
                                kind: ErrorKind::Timeout,
                                message: "No effective transfer progress before deadline"@,
                            },
                        ),
                    ),
                )
            })
        }),
{
}

/// A file operation changes only what it is about: the file in flight with its
/// deadline, and for an opened source what is selected, heard of the peer and
/// counted.
pub proof fn law_file_operations_change_only_their_part(
    worker: WorkerView,
    failure: Option<ErrorView>,
    now: Instant,
    cancelled: bool,
)
    requires
        worker.wf(),
        worker.expects(WorkerEventView::Done(failure)),
    ensures
        ({
            let (next, action) = worker.advanced(WorkerEventView::Done(failure), now, cancelled);
            let opened = worker.stage is Opening && failure is None;
            &&& next == (WorkerView {
                stage: next.stage,
                protocol: next.protocol,
                current: next.current,
                deadline: next.deadline,
                uploads: next.uploads,
                peer: next.peer,
                files_seen: next.files_seen,
                ..worker
            })
            &&& next.peer == worker.peer || opened && next.peer == (PeerHeadersView {
                position: None,
                ..worker.peer
            })
            &&& opened && action is Send ==> {
                &&& next.peer.position is None
                &&& next.files_seen == worker.files_seen + 1
                &&& next.deadline == (now + TRANSFER_TIMEOUT) as u64
            }
            &&& !opened ==> next.uploads == worker.uploads && next.files_seen == worker.files_seen
            &&& worker.stage is Creating || worker.stage is Confirming ==> next.deadline
                == worker.deadline
            &&& worker.stage is Confirming ==> next.protocol == worker.protocol
            &&& failure is Some && !opened ==> next.current == worker.current && next.protocol
                == worker.protocol
            &&& worker.stage is Storing && failure is None && (cancelled || now
                >= worker.deadline) ==> action is Stop && next.protocol == worker.protocol
            &&& worker.stage is Creating && failure is None && (cancelled || now
                >= worker.deadline) ==> action is Stop && next.protocol == worker.protocol
        }),
{
}

/// A publication changes nothing but what was published: its path is kept, and
/// its bytes count against what may be kept of paths.
pub proof fn law_published_paths_are_counted(
    worker: WorkerView,
    publication: PublicationView,
    now: Instant,
    cancelled: bool,
)
    requires
        worker.stage is Publishing,
    ensures
        ({
            let (next, action) = worker.advanced(
                WorkerEventView::Published(publication),
                now,
                cancelled,
            );
            &&& next == (WorkerView {
                stage: next.stage,
                committed_paths: next.committed_paths,
                committed_path_bytes: next.committed_path_bytes,
                ..worker
            })
            &&& publication matches PublicationView::Published(path) ==> {
                &&& next.committed_paths == worker.committed_paths.push(path)
                &&& worker.committed_path_bytes + path.len() <= usize::MAX
                    ==> next.committed_path_bytes == worker.committed_path_bytes + path.len()
            }
            &&& !(publication is Published) ==> next.committed_paths == worker.committed_paths
                && next.committed_path_bytes == worker.committed_path_bytes
        }),
{
}

/// Input changes nothing but what is known of it: where it is used up to, the
/// cancel bytes held of it, what it says of the end of the session, what the
/// peer of an upload said in it, and when the peer is asked again.
pub proof fn law_input_changes_only_its_part(
    worker: WorkerView,
    chunk: Option<Seq<u8>>,
    now: Instant,
    cancelled: bool,
)
    requires
        worker.wf(),
        worker.stage is Fetching,
    ensures
        ({
            let (next, action) = worker.advanced(WorkerEventView::Input(chunk), now, cancelled);
            &&& next == (WorkerView {
                stage: next.stage,
                protocol: next.protocol,
                current: next.current,
                deadline: next.deadline,
                input: next.input,
                offset: next.offset,
                cans: next.cans,
                closing: next.closing,
                peer: next.peer,
                retry_at: next.retry_at,
                ..worker
            })
            &&& next.input == (match chunk {
                Some(chunk) => chunk,
                None => Seq::empty(),
            })
            &&& worker.role is Download ==> next.peer == worker.peer && next.current
                == worker.current && next.deadline == worker.deadline
            &&& worker.complete ==> next.protocol == worker.protocol || chunk is None || (
            chunk->0).len() == 0
        }),
{
}

/// The line end of an upload's peer is waited for until its time is over.
pub proof fn law_peers_need_not_end_their_line(worker: WorkerView, now: Instant)
    requires
        worker.wf(),
        worker.stage is Fetching,
        worker.role is Upload,
        worker.complete,
    ensures
        ({
            let (next, action) = worker.advanced(WorkerEventView::Input(None), now, false);
            &&& now >= worker.close_at ==> action is CloseInput
            &&& now < worker.close_at ==> action is Wait && next.stage is Polling
            &&& next.protocol == worker.protocol
        }),
{
}

/// The choice, what was published and the input in hand are the same.
spec fn keeps_choice(worker: WorkerView, turn: Turn) -> bool {
    let (next, action) = turn;
    &&& next.id == worker.id
    &&& next.role == worker.role
    &&& next.uploads == worker.uploads
    &&& next.directory == worker.directory
    &&& next.policy == worker.policy
    &&& next.last_progress == worker.last_progress
    &&& next.committed_paths == worker.committed_paths
    &&& next.committed_path_bytes == worker.committed_path_bytes
    &&& next.input == worker.input
    &&& worker.complete ==> next.complete
    &&& next.sequence == worker.sequence || action is Send
    &&& next.files_seen == worker.files_seen || action is Send
}

proof fn lemma_consuming_keeps_choice(worker: WorkerView, now: Instant)
    ensures
        keeps_choice(worker, worker.consuming(now)),
{
}

proof fn lemma_idling_keeps_choice(worker: WorkerView, now: Instant)
    ensures
        keeps_choice(worker, worker.idling(now)),
{
    lemma_consuming_keeps_choice(worker, now);
}

proof fn lemma_acting_keeps_choice(worker: WorkerView, action: ActionView, now: Instant)
    ensures
        keeps_choice(worker, worker.acting(action, now)),
{
    lemma_idling_keeps_choice(worker, now);
}

/// A look at the protocol changes neither what was chosen nor what was
/// published, and neither the input in hand nor the time of the last report.
pub proof fn law_looks_keep_what_was_chosen(worker: WorkerView, now: Instant, cancelled: bool)
    requires
        worker.wf(),
        worker.stage is Polling,
    ensures
        ({
            let (next, action) = worker.advanced(WorkerEventView::Resume, now, cancelled);
            &&& next.id == worker.id
            &&& next.role == worker.role
            &&& next.uploads == worker.uploads
            &&& next.directory == worker.directory
            &&& next.policy == worker.policy
            &&& next.last_progress == worker.last_progress
            &&& next.committed_paths == worker.committed_paths
            &&& next.committed_path_bytes == worker.committed_path_bytes
            &&& next.input == worker.input
            &&& worker.complete ==> next.complete
            &&& next.sequence == worker.sequence || action is Send
            &&& next.files_seen == worker.files_seen || action is Send
        }),
{
    if worker.checked(now, cancelled) is None {
        let (protocol, action) = (worker.protocol->0).polled();
        lemma_acting_keeps_choice(
            WorkerView { protocol: Some(protocol), ..worker.rested() },
            action,
            now,
        );
    }
}

/// What was read and what was looked up changes only the file in flight and its
/// deadline.
pub proof fn law_answers_change_only_their_part(
    worker: WorkerView,
    event: WorkerEventView,
    now: Instant,
    cancelled: bool,
)
    requires
        worker.wf(),
        worker.expects(event),
        event is SourceRead || event is Probed || event is Closed,
    ensures
        ({
            let (next, action) = worker.advanced(event, now, cancelled);
            &&& next == (WorkerView {
                stage: next.stage,
                protocol: next.protocol,
                current: next.current,
                deadline: next.deadline,
                ..worker
            })
            &&& !(event is SourceRead) ==> next.current == worker.current && next.deadline
                == worker.deadline && next.protocol == worker.protocol
        }),
{
}

/// A new worker waits for its choice for the time that a choice may take, and
/// has done nothing else.
pub proof fn law_new_workers_wait_for_a_choice(id: TransferId, role: Role, now: Instant)
    requires
        now <= LAST_INSTANT,
    ensures
        ({
            let worker = WorkerView::new(id, role, now);
            &&& worker.id == id
            &&& worker.role == role
            &&& worker.stage is Choosing
            &&& worker.deadline == now + 120 * crate::clock::SECOND
            &&& worker.protocol is None
            &&& worker.current is None
            &&& worker.directory is None
            &&& worker.uploads.len() == 0
            &&& worker.committed_paths.len() == 0
            &&& worker.committed_path_bytes == 0
            &&& worker.input.len() == 0
            &&& worker.offset == 0
            &&& worker.cans == 0
            &&& worker.sequence == 0
            &&& worker.files_seen == 0
            &&& worker.closing == 0
            &&& !worker.complete
            &&& !worker.finishing
            &&& worker.peer == PeerHeadersView::nothing()
            &&& worker.advanced(WorkerEventView::Resume, now, false).1 is AwaitChoice
        }),
{
}

/// A silent receiver is asked again by an upload after each retry time, and not
/// before.
pub proof fn law_silent_receivers_are_asked_again(
    worker: WorkerView,
    history: SenderHistory,
    now: Instant,
)
    requires
        worker.stage is Fetching,
        worker.role is Upload,
        !worker.complete,
        worker.protocol == Some(ProtocolView::Upload(history)),
        now <= LAST_INSTANT,
        crate::link::sender_timeout(history) is Ok,
    ensures
        ({
            let (next, action) = worker.advanced(WorkerEventView::Input(None), now, false);
            &&& action is Wait
            &&& next.stage is Polling
            &&& now >= worker.retry_at ==> {
                &&& next.protocol == Some(
                    ProtocolView::Upload(history.then_call(SenderCall::Timeout)),
                )
                &&& next.retry_at == now + 5 * crate::clock::SECOND
            }
            &&& now < worker.retry_at ==> {
                &&& next.protocol == worker.protocol
                &&& next.retry_at == worker.retry_at
            }
        }),
{
}

} // verus!
