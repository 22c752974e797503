//! The state that a transfer's handle and its worker share: queued input,
//! the configuration slot, write credit and the publication gate.

use std::collections::VecDeque;

use vstd::prelude::*;

use crate::bytes::copy_range;
use crate::zmodem_runtime::{
    error, path_budget_failure, paths_fit, paths_view, validate_path_budget, ErrorKind, ErrorView,
    OverwritePolicy, PathBytes, Role, RuntimeOutput, RuntimeOutputView, SubmitError,
    TransferError, TransferId, INPUT_SLOTS, MAX_FILES, MAX_INPUT_CHUNK, WIRE_WINDOW,
};

verus! {

/// Phase bit of a cancelled transfer.
pub const CANCELLED: u8 = 1;

/// Phase bit of a running publication.
pub const COMMITTING: u8 = 2;

/// Consecutive cancel bytes that cancel a transfer.
pub const CANCEL_RUN: u8 = 5;

/// The phase once the transfer is cancelled.
pub fn cancelled_phase(phase: u8) -> (r: u8)
    ensures
        r == phase | CANCELLED,
{
    phase | CANCELLED
}

/// The phase of a publication that may begin: only where nothing was
/// cancelled and no other publication runs.
pub fn publication_phase(phase: u8) -> (r: Option<u8>)
    ensures
        r == if phase == 0 {
            Some(COMMITTING)
        } else {
            None
        },
{
    if phase == 0 {
        Some(COMMITTING)
    } else {
        None
    }
}

/// The phase once a publication has ended.
pub fn published_phase(phase: u8) -> (r: u8)
    ensures
        r == phase & !COMMITTING,
{
    phase & !COMMITTING
}

/// Whether the phase is that of a cancelled transfer.
pub open spec fn phase_cancelled(phase: u8) -> bool {
    phase & CANCELLED != 0
}

/// Cancellation and publication have one winner, and neither waits: after a
/// cancellation no publication begins, and a cancellation during a publication
/// is what is left when the publication ends.
pub proof fn law_publication_gate_has_one_winner(phase: u8)
    ensures
        phase | CANCELLED != 0,
        phase_cancelled(phase | CANCELLED),
        (COMMITTING | CANCELLED) & !COMMITTING == CANCELLED,
        COMMITTING & !COMMITTING == 0,
{
    assert(phase | 1u8 != 0) by (bit_vector);
    assert((phase | 1u8) & 1u8 != 0) by (bit_vector);
    assert((2u8 | 1u8) & !2u8 == 1u8) by (bit_vector);
    assert(2u8 & !2u8 == 0u8) by (bit_vector);
}

/// What a transfer was told to do.
pub enum Configuration {
    Upload(Vec<PathBytes>),
    Download(PathBytes, OverwritePolicy),
}

/// What a transfer was told to do, over plain values.
pub ghost enum ConfigurationView {
    Upload(Seq<Seq<u8>>),
    Download(Seq<u8>, OverwritePolicy),
}

impl View for Configuration {
    type V = ConfigurationView;

    open spec fn view(&self) -> ConfigurationView {
        match *self {
            Configuration::Upload(paths) => ConfigurationView::Upload(paths_view(paths@)),
            Configuration::Download(directory, policy) => ConfigurationView::Download(
                directory@,
                policy,
            ),
        }
    }
}

/// Length of the run of cancel bytes at the end, after one more byte.
pub open spec fn cans_after(cans: u8, byte: u8) -> u8 {
    if byte != 0x18 {
        0
    } else if cans == 255 {
        255
    } else {
        (cans + 1) as u8
    }
}

/// The run of cancel bytes after `bytes`.
pub open spec fn cans_over(cans: u8, bytes: Seq<u8>) -> u8
    decreases bytes.len(),
{
    if bytes.len() == 0 {
        cans
    } else {
        cans_after(cans_over(cans, bytes.drop_last()), bytes.last())
    }
}

/// Some run of cancel bytes within `bytes` is long enough to cancel.
pub open spec fn cancels_within(cans: u8, bytes: Seq<u8>) -> bool {
    exists|end: int|
        0 < end <= bytes.len() && #[trigger] cans_over(cans, bytes.take(end)) >= CANCEL_RUN
}

proof fn lemma_cans_over_split(cans: u8, first: Seq<u8>, second: Seq<u8>)
    ensures
        cans_over(cans, first + second) == cans_over(cans_over(cans, first), second),
    decreases second.len(),
{
    if second.len() == 0 {
        assert(first + second =~= first);
    } else {
        lemma_cans_over_split(cans, first, second.drop_last());
        assert((first + second).drop_last() =~= first + second.drop_last());
    }
}

/// A cancellation is seen in the same way however the bytes are cut in two.
pub proof fn law_cancel_run_survives_splits(cans: u8, first: Seq<u8>, second: Seq<u8>)
    ensures
        cans_over(cans, first + second) == cans_over(cans_over(cans, first), second),
        cancels_within(cans, first + second) <==> cancels_within(cans, first) || cancels_within(
            cans_over(cans, first),
            second,
        ),
{
    let all = first + second;
    lemma_cans_over_split(cans, first, second);
    if cancels_within(cans, all) {
        let end = choose|end: int|
            0 < end <= all.len() && #[trigger] cans_over(cans, all.take(end)) >= CANCEL_RUN;
        if end <= first.len() {
            assert(all.take(end) =~= first.take(end));
            assert(cans_over(cans, first.take(end)) >= CANCEL_RUN);
        } else {
            let rest = second.take(end - first.len());
            assert(all.take(end) =~= first + rest);
            lemma_cans_over_split(cans, first, rest);
            assert(cans_over(cans_over(cans, first), rest) >= CANCEL_RUN);
        }
    }
    if cancels_within(cans, first) {
        let end = choose|end: int|
            0 < end <= first.len() && #[trigger] cans_over(cans, first.take(end)) >= CANCEL_RUN;
        assert(all.take(end) =~= first.take(end));
        assert(cans_over(cans, all.take(end)) >= CANCEL_RUN);
    }
    if cancels_within(cans_over(cans, first), second) {
        let end = choose|end: int|
            0 < end <= second.len() && #[trigger] cans_over(
                cans_over(cans, first),
                second.take(end),
            ) >= CANCEL_RUN;
        let whole = first.len() + end;
        assert(all.take(whole) =~= first + second.take(end));
        lemma_cans_over_split(cans, first, second.take(end));
        assert(cans_over(cans, all.take(whole)) >= CANCEL_RUN);
    }
}

/// The shared state over plain values.
pub ghost struct HandleView {
    pub id: TransferId,
    pub role: Role,
    /// Queued input, oldest first.
    pub chunks: Seq<Seq<u8>>,
    /// No more input is accepted.
    pub closed: bool,
    /// Run of cancel bytes at the end of the input before configuration.
    pub choice_cans: u8,
    /// The peer cancelled before configuration.
    pub remote_cancelled: bool,
    pub phase: u8,
    /// Last wire buffer that reached the PTY.
    pub acknowledged: u64,
    /// A configuration was accepted; a second one is not.
    pub configured: bool,
    /// The accepted configuration until the worker takes it.
    pub configuration: Option<ConfigurationView>,
    /// The worker is gone.
    pub stopped: bool,
    /// Last wire buffer handed to the PTY and not acknowledged.
    pub outstanding_write: Option<u64>,
}

/// The view of queued input.
pub open spec fn chunks_view(chunks: Seq<Vec<u8>>) -> Seq<Seq<u8>> {
    chunks.map_values(|chunk: Vec<u8>| chunk@)
}

impl HandleView {
    /// A transfer that has just been spawned.
    pub open spec fn new(id: TransferId, role: Role) -> HandleView {
        HandleView {
            id,
            role,
            chunks: Seq::empty(),
            closed: false,
            choice_cans: 0,
            remote_cancelled: false,
            phase: 0,
            acknowledged: 0,
            configured: false,
            configuration: None,
            stopped: false,
            outstanding_write: None,
        }
    }

    /// The transfer was cancelled.
    pub open spec fn is_cancelled(self) -> bool {
        phase_cancelled(self.phase)
    }

    /// The input queue keeps its bounds.
    pub open spec fn wf(self) -> bool {
        &&& self.chunks.len() <= INPUT_SLOTS
        &&& forall|i: int|
            0 <= i < self.chunks.len() ==> 0 < (#[trigger] self.chunks[i]).len() <= MAX_INPUT_CHUNK
    }

    /// The state after `bytes` were offered, and how many were accepted.
    pub open spec fn submitted(self, bytes: Seq<u8>) -> (HandleView, Result<usize, SubmitError>) {
        if self.closed || self.is_cancelled() {
            (self, Err(SubmitError::Closed))
        } else if bytes.len() == 0 {
            (self, Ok(0))
        } else if self.chunks.len() == INPUT_SLOTS {
            (self, Err(SubmitError::Full))
        } else {
            let count = if bytes.len() <= MAX_INPUT_CHUNK {
                bytes.len() as usize
            } else {
                MAX_INPUT_CHUNK
            };
            let chunk = bytes.take(count as int);
            let accepted = HandleView { chunks: self.chunks.push(chunk), ..self };
            if self.configured {
                (accepted, Ok(count))
            } else {
                (
                    HandleView {
                        choice_cans: cans_over(self.choice_cans, chunk),
                        remote_cancelled: self.remote_cancelled || cancels_within(
                            self.choice_cans,
                            chunk,
                        ),
                        ..accepted
                    },
                    Ok(count),
                )
            }
        }
    }

    /// The state after a valid configuration was offered, and what was wrong.
    pub open spec fn configured_with(self, configuration: ConfigurationView) -> (
        HandleView,
        Option<ErrorView>,
    ) {
        if self.is_cancelled() || self.configured {
            (
                self,
                Some(
                    ErrorView {
                        kind: ErrorKind::Configuration,
                        message: "Transfer no longer accepts configuration"@,
                    },
                ),
            )
        } else if self.stopped {
            (
                HandleView { configured: true, ..self },
                Some(
                    ErrorView {
                        kind: ErrorKind::WorkerStopped,
                        message: "Transfer configuration receiver closed"@,
                    },
                ),
            )
        } else {
            (
                HandleView { configured: true, configuration: Some(configuration), ..self },
                None,
            )
        }
    }

    /// The state after an upload selection was offered, and what was wrong.
    pub open spec fn configured_upload(self, paths: Seq<Seq<u8>>) -> (
        HandleView,
        Option<ErrorView>,
    ) {
        if self.role != Role::Upload || paths.len() == 0 || paths.len() > MAX_FILES {
            (
                self,
                Some(
                    ErrorView {
                        kind: ErrorKind::Configuration,
                        message: "Invalid upload selection"@,
                    },
                ),
            )
        } else if !paths_fit(paths) {
            (self, Some(path_budget_failure()))
        } else {
            self.configured_with(ConfigurationView::Upload(paths))
        }
    }

    /// The state after a download directory was offered, and what was wrong.
    pub open spec fn configured_download(self, directory: Seq<u8>, policy: OverwritePolicy) -> (
        HandleView,
        Option<ErrorView>,
    ) {
        if self.role != Role::Download {
            (
                self,
                Some(
                    ErrorView {
                        kind: ErrorKind::Configuration,
                        message: "Not a download transfer"@,
                    },
                ),
            )
        } else if !paths_fit(seq![directory]) {
            (self, Some(path_budget_failure()))
        } else {
            self.configured_with(ConfigurationView::Download(directory, policy))
        }
    }

    /// The state after the PTY took `output`, and what it is to be given: wire
    /// bytes of a cancelled transfer are dropped.
    pub open spec fn delivered(self, output: RuntimeOutputView) -> (
        HandleView,
        Option<RuntimeOutputView>,
    ) {
        match output {
            RuntimeOutputView::Wire { sequence, .. } => if self.is_cancelled() {
                (self, None)
            } else {
                (HandleView { outstanding_write: Some(sequence), ..self }, Some(output))
            },
            _ => (self, Some(output)),
        }
    }
}

/// The failure in a result, over plain values.
pub open spec fn failure_view(result: Result<(), TransferError>) -> Option<ErrorView> {
    match result {
        Ok(_) => None,
        Err(failure) => Some(failure@),
    }
}

/// The view of an optional output.
pub open spec fn output_view(output: Option<RuntimeOutput>) -> Option<RuntimeOutputView> {
    match output {
        Some(output) => Some(output@),
        None => None,
    }
}

/// The state that a transfer's handle and its worker share.
pub struct TransferHandle {
    id: TransferId,
    role: Role,
    chunks: VecDeque<Vec<u8>>,
    closed: bool,
    choice_cans: u8,
    remote_cancelled: bool,
    phase: u8,
    acknowledged: u64,
    configured: bool,
    configuration: Option<Configuration>,
    stopped: bool,
    outstanding_write: Option<u64>,
}

impl View for TransferHandle {
    type V = HandleView;

    closed spec fn view(&self) -> HandleView {
        HandleView {
            id: self.id,
            role: self.role,
            chunks: chunks_view(self.chunks@),
            closed: self.closed,
            choice_cans: self.choice_cans,
            remote_cancelled: self.remote_cancelled,
            phase: self.phase,
            acknowledged: self.acknowledged,
            configured: self.configured,
            configuration: match self.configuration {
                Some(configuration) => Some(configuration@),
                None => None,
            },
            stopped: self.stopped,
            outstanding_write: self.outstanding_write,
        }
    }
}

impl TransferHandle {
    /// The state of an unconfigured transfer.
    pub fn new(id: TransferId, role: Role) -> (r: Self)
        ensures
            r@ == HandleView::new(id, role),
            r@.wf(),
    {
        let handle = TransferHandle {
            id,
            role,
            chunks: VecDeque::new(),
            closed: false,
            choice_cans: 0,
            remote_cancelled: false,
            phase: 0,
            acknowledged: 0,
            configured: false,
            configuration: None,
            stopped: false,
            outstanding_write: None,
        };
        assert(handle@.chunks =~= Seq::<Seq<u8>>::empty());
        handle
    }

    pub fn id(&self) -> (r: TransferId)
        ensures
            r == self@.id,
    {
        self.id
    }

    pub fn role(&self) -> (r: Role)
        ensures
            r == self@.role,
    {
        self.role
    }

    /// Whether the transfer was cancelled.
    pub fn is_cancelled(&self) -> (r: bool)
        ensures
            r == self@.is_cancelled(),
    {
        self.phase & CANCELLED != 0
    }

    /// Whether the peer cancelled before configuration.
    pub fn is_remote_cancelled(&self) -> (r: bool)
        ensures
            r == self@.remote_cancelled,
    {
        self.remote_cancelled
    }

    /// Whether the worker is gone.
    pub fn is_stopped(&self) -> (r: bool)
        ensures
            r == self@.stopped,
    {
        self.stopped
    }

    /// Cancels; independent of queue capacity and of a running publication.
    pub fn cancel(&mut self)
        ensures
            final(self)@ == (HandleView { phase: old(self)@.phase | CANCELLED, ..old(self)@ }),
    {
        self.phase = cancelled_phase(self.phase);
    }

    /// Offers the files to upload.
    pub fn configure_upload(&mut self, paths: Vec<PathBytes>) -> (r: Result<(), TransferError>)
        ensures
            (final(self)@, failure_view(r)) == old(self)@.configured_upload(paths_view(paths@)),
    {
        if !matches!(self.role, Role::Upload) || paths.len() == 0 || paths.len() > MAX_FILES {
            return Err(error(ErrorKind::Configuration, "Invalid upload selection"));
        }
        if let Err(failure) = validate_path_budget(paths.as_slice()) {
            return Err(failure);
        }
        self.configure(Configuration::Upload(paths))
    }

    /// Offers the directory to download into.
    pub fn configure_download(&mut self, directory: PathBytes, policy: OverwritePolicy) -> (r:
        Result<(), TransferError>)
        ensures
            (final(self)@, failure_view(r)) == old(self)@.configured_download(directory@, policy),
    {
        if !matches!(self.role, Role::Download) {
            return Err(error(ErrorKind::Configuration, "Not a download transfer"));
        }
        let mut only: Vec<PathBytes> = Vec::new();
        let copy: PathBytes = copy_range(directory.as_slice(), 0, directory.len());
        assert(copy@ =~= directory@);
        only.push(copy);
        assert(paths_view(only@) =~= seq![directory@]);
        if let Err(failure) = validate_path_budget(only.as_slice()) {
            return Err(failure);
        }
        self.configure(Configuration::Download(directory, policy))
    }

    fn configure(&mut self, configuration: Configuration) -> (r: Result<(), TransferError>)
        ensures
            (final(self)@, failure_view(r)) == old(self)@.configured_with(configuration@),
    {
        if self.is_cancelled() || self.configured {
            return Err(
                error(ErrorKind::Configuration, "Transfer no longer accepts configuration"),
            );
        }
        self.configured = true;
        if self.stopped {
            return Err(
                error(ErrorKind::WorkerStopped, "Transfer configuration receiver closed"),
            );
        }
        self.configuration = Some(configuration);
        Ok(())
    }

    /// Accepts at most `MAX_INPUT_CHUNK` bytes. Retain and retry the unaccepted suffix.
    /// After `Full` no bytes were accepted.
    pub fn try_submit(&mut self, bytes: &[u8]) -> (r: Result<usize, SubmitError>)
        ensures
            (final(self)@, r) == old(self)@.submitted(bytes@),
            old(self)@.wf() ==> final(self)@.wf(),
    {
        if self.closed || self.is_cancelled() {
            return Err(SubmitError::Closed);
        }
        if bytes.len() == 0 {
            return Ok(0);
        }
        if self.chunks.len() == INPUT_SLOTS {
            return Err(SubmitError::Full);
        }
        let count: usize = if bytes.len() <= MAX_INPUT_CHUNK {
            bytes.len()
        } else {
            MAX_INPUT_CHUNK
        };
        let chunk: Vec<u8> = copy_range(bytes, 0, count);
        let ghost piece = chunk@;
        assert(piece =~= bytes@.take(count as int));
        if !self.configured {
            let mut cans: u8 = self.choice_cans;
            let mut cancelled: bool = false;
            let mut index: usize = 0;
            assert(piece.take(0) =~= Seq::<u8>::empty());
            while index < count
                invariant
                    index <= count,
                    count <= bytes.len(),
                    piece == bytes@.take(count as int),
                    cans == cans_over(self.choice_cans, piece.take(index as int)),
                    cancelled == cancels_within(self.choice_cans, piece.take(index as int)),
                decreases count - index,
            {
                proof {
                    let done = piece.take(index as int);
                    let next = seq![piece[index as int]];
                    assert(done + next =~= piece.take(index + 1));
                    law_cancel_run_survives_splits(self.choice_cans, done, next);
                    assert(next.drop_last() =~= Seq::<u8>::empty());
                    assert(cans_over(cans, next.drop_last()) == cans);
                    assert(next.last() == piece[index as int]);
                    assert(next.take(1) =~= next);
                    assert(cans_over(cans, next) == cans_after(cans, piece[index as int]));
                    assert(cancels_within(cans, next) == (cans_after(cans, piece[index as int])
                        >= CANCEL_RUN)) by {
                        if cans_after(cans, piece[index as int]) >= CANCEL_RUN {
                            assert(cans_over(cans, next.take(1)) >= CANCEL_RUN);
                        }
                    }
                }
                cans = if bytes[index] == 0x18 {
                    cans.saturating_add(1)
                } else {
                    0
                };
                if cans >= CANCEL_RUN {
                    cancelled = true;
                }
                index = index + 1;
            }
            assert(piece.take(count as int) =~= piece);
            self.choice_cans = cans;
            if cancelled {
                self.remote_cancelled = true;
            }
        }
        let ghost before = chunks_view(self.chunks@);
        self.chunks.push_back(chunk);
        assert(chunks_view(self.chunks@) =~= before.push(piece));
        Ok(count)
    }

    /// Takes a worker's output over: what the PTY is to be given of it.
    pub fn try_recv(&mut self, output: RuntimeOutput) -> (r: Option<RuntimeOutput>)
        ensures
            (final(self)@, output_view(r)) == old(self)@.delivered(output@),
    {
        if let RuntimeOutput::Wire { sequence, .. } = &output {
            if self.is_cancelled() {
                return None;
            }
            self.outstanding_write = Some(*sequence);
        }
        Some(output)
    }

    /// Call once the complete corresponding wire buffer has reached the PTY, not on dequeue.
    pub fn acknowledge_write(&mut self, sequence: u64) -> (r: bool)
        ensures
            r == (old(self)@.outstanding_write == Some(sequence)),
            final(self)@ == if r {
                HandleView { outstanding_write: None, acknowledged: sequence, ..old(self)@ }
            } else {
                old(self)@
            },
    {
        match self.outstanding_write {
            Some(outstanding) => {
                if outstanding != sequence {
                    return false;
                }
            },
            None => return false,
        }
        self.outstanding_write = None;
        self.acknowledged = sequence;
        true
    }

    /// Whether a worker that has queued the wire buffer `sequence` may go on
    /// without waiting for the PTY.
    pub fn within_window(&self, sequence: u64) -> (r: bool)
        ensures
            r == (sequence - self@.acknowledged < WIRE_WINDOW),
    {
        sequence < WIRE_WINDOW || sequence - WIRE_WINDOW < self.acknowledged
    }

    /// Takes the configuration for the worker.
    pub fn take_configuration(&mut self) -> (r: Option<Configuration>)
        ensures
            match r {
                Some(configuration) => old(self)@.configuration == Some(configuration@),
                None => old(self)@.configuration is None,
            },
            final(self)@ == (HandleView { configuration: None, ..old(self)@ }),
    {
        self.configuration.take()
    }

    /// Takes the oldest input for the worker.
    pub fn take_chunk(&mut self) -> (r: Option<Vec<u8>>)
        ensures
            match r {
                Some(chunk) => old(self)@.chunks.len() > 0 && chunk@ == old(self)@.chunks[0]
                    && final(self)@ == (HandleView {
                    chunks: old(self)@.chunks.skip(1),
                    ..old(self)@
                }),
                None => old(self)@.chunks.len() == 0 && final(self)@ == old(self)@,
            },
            old(self)@.wf() ==> final(self)@.wf(),
    {
        let chunk = self.chunks.pop_front();
        proof {
            if old(self)@.chunks.len() > 0 {
                assert(chunks_view(self.chunks@) =~= old(self)@.chunks.skip(1));
            }
        }
        chunk
    }

    /// Closes the input and takes what is queued.
    pub fn close(&mut self) -> (r: Vec<Vec<u8>>)
        ensures
            chunks_view(r@) == old(self)@.chunks,
            final(self)@ == (HandleView {
                closed: true,
                chunks: Seq::empty(),
                ..old(self)@
            }),
    {
        self.closed = true;
        let mut out: Vec<Vec<u8>> = Vec::new();
        let ghost all = chunks_view(self.chunks@);
        while self.chunks.len() > 0
            invariant
                chunks_view(out@) + chunks_view(self.chunks@) == all,
                self@ == (HandleView {
                    closed: true,
                    chunks: chunks_view(self.chunks@),
                    ..old(self)@
                }),
            decreases self.chunks.len(),
        {
            let ghost queued = chunks_view(self.chunks@);
            let ghost taken = chunks_view(out@);
            match self.chunks.pop_front() {
                Some(chunk) => {
                    out.push(chunk);
                    assert(chunks_view(self.chunks@) =~= queued.skip(1));
                    assert(chunks_view(out@) =~= taken.push(queued[0]));
                    assert(chunks_view(out@) + chunks_view(self.chunks@) =~= all);
                },
                None => {},
            }
        }
        assert(chunks_view(out@) =~= all);
        assert(self@.chunks =~= Seq::<Seq<u8>>::empty());
        out
    }

    /// Marks the worker as gone; no more input is accepted.
    pub fn stop(&mut self)
        ensures
            final(self)@ == (HandleView { closed: true, stopped: true, ..old(self)@ }),
    {
        self.closed = true;
        self.stopped = true;
    }

    /// Begins a publication unless the transfer was cancelled first.
    pub fn begin_publication(&mut self) -> (r: bool)
        ensures
            r == (old(self)@.phase == 0),
            final(self)@ == if r {
                HandleView { phase: COMMITTING, ..old(self)@ }
            } else {
                old(self)@
            },
    {
        match publication_phase(self.phase) {
            Some(phase) => {
                self.phase = phase;
                true
            },
            None => false,
        }
    }

    /// Ends a publication; a cancellation in the meantime stays.
    pub fn end_publication(&mut self)
        ensures
            final(self)@ == (HandleView { phase: old(self)@.phase & !COMMITTING, ..old(self)@ }),
    {
        self.phase = published_phase(self.phase);
    }
}

/// Offered input never takes the queue beyond its bounds, and what is accepted
/// is a prefix of what was offered that joins the end of the queue.
pub proof fn law_input_is_bounded_and_ordered(handle: HandleView, bytes: Seq<u8>)
    requires
        handle.wf(),
    ensures
        ({
            let (after, result) = handle.submitted(bytes);
            &&& after.wf()
            &&& match result {
                Ok(count) => {
                    &&& count <= bytes.len()
                    &&& count <= MAX_INPUT_CHUNK
                    &&& bytes.len() > 0 ==> count > 0
                    &&& count == 0 ==> after == handle
                    &&& count > 0 ==> after.chunks == handle.chunks.push(bytes.take(count as int))
                },
                Err(_) => after == handle,
            }
        }),
{
}

/// Once cancelled, a transfer takes no input, no configuration and no
/// publication, and hands out no wire bytes.
pub proof fn law_cancelled_transfer_is_inert(
    handle: HandleView,
    bytes: Seq<u8>,
    configuration: ConfigurationView,
    sequence: u64,
)
    requires
        handle.is_cancelled(),
    ensures
        handle.submitted(bytes) == (handle, Err::<usize, _>(SubmitError::Closed)),
        handle.configured_with(configuration).0 == handle,
        handle.configured_with(configuration).1 is Some,
        handle.phase != 0,
        handle.delivered(RuntimeOutputView::Wire { id: handle.id, sequence, bytes }).1 is None,
{
    assert(0u8 & 1u8 == 0u8) by (bit_vector);
}

/// All the queued input, in order.
pub open spec fn queued_bytes(chunks: Seq<Seq<u8>>) -> Seq<u8>
    decreases chunks.len(),
{
    if chunks.len() == 0 {
        Seq::empty()
    } else {
        queued_bytes(chunks.drop_last()) + chunks.last()
    }
}

/// Input is queued in order and in full: an open queue with room takes the
/// front of what is offered, all of it unless that is more than one chunk may
/// hold; a full one takes nothing, and a closed one refuses.
pub proof fn law_open_queues_take_what_they_can(handle: HandleView, bytes: Seq<u8>)
    requires
        handle.wf(),
        bytes.len() > 0,
    ensures
        ({
            let (after, result) = handle.submitted(bytes);
            let shut = handle.closed || handle.is_cancelled();
            &&& shut ==> result == Err::<usize, SubmitError>(SubmitError::Closed)
            &&& !shut && handle.chunks.len() == 8 ==> result == Err::<usize, SubmitError>(
                SubmitError::Full,
            )
            &&& !shut && handle.chunks.len() < 8 ==> {
                &&& result matches Ok(count)
                &&& count == if bytes.len() <= 16_384 {
                    bytes.len()
                } else {
                    16_384
                }
                &&& queued_bytes(after.chunks) == queued_bytes(handle.chunks) + bytes.take(
                    count as int,
                )
            }
            &&& after.id == handle.id && after.role == handle.role && after.phase == handle.phase
                && after.closed == handle.closed && after.configured == handle.configured
                && after.configuration == handle.configuration && after.stopped == handle.stopped
                && after.acknowledged == handle.acknowledged && after.outstanding_write
                == handle.outstanding_write
        }),
{
    let (after, result) = handle.submitted(bytes);
    if result is Ok {
        assert(after.chunks.drop_last() =~= handle.chunks);
    }
}

proof fn lemma_run_of_cancels(cans: u8, bytes: Seq<u8>, run: int)
    requires
        0 <= run <= bytes.len(),
        run <= 255,
        forall|i: int| bytes.len() - run <= i < bytes.len() ==> bytes[i] == 0x18,
        run < bytes.len() ==> bytes[bytes.len() - run - 1] != 0x18,
        run == bytes.len() ==> cans + run <= 255,
    ensures
        cans_over(cans, bytes) == if run == bytes.len() {
            cans + run
        } else {
            run
        },
    decreases bytes.len(),
{
    if bytes.len() > 0 && run > 0 {
        lemma_run_of_cancels(cans, bytes.drop_last(), run - 1);
    }
}

/// The run of cancel bytes is as long as the cancel bytes at the very end,
/// those before the input counted in where it holds nothing else.
pub proof fn law_runs_count_the_last_cancel_bytes(cans: u8, bytes: Seq<u8>, run: int)
    requires
        0 <= run <= bytes.len(),
        run <= 255,
        forall|i: int| bytes.len() - run <= i < bytes.len() ==> bytes[i] == 0x18,
        run < bytes.len() ==> bytes[bytes.len() - run - 1] != 0x18,
        run == bytes.len() ==> cans + run <= 255,
    ensures
        cans_over(cans, bytes) == if run == bytes.len() {
            cans + run
        } else {
            run
        },
{
    lemma_run_of_cancels(cans, bytes, run);
}

/// Before its configuration a transfer is cancelled by its peer exactly if five
/// cancel bytes come in a row; afterwards the worker watches for them.
pub proof fn law_early_cancellations_are_noticed(
    handle: HandleView,
    bytes: Seq<u8>,
    at: int,
)
    requires
        handle.wf(),
        !handle.closed,
        !handle.is_cancelled(),
        handle.chunks.len() < INPUT_SLOTS,
        0 < bytes.len() <= MAX_INPUT_CHUNK,
        0 <= at,
        at + 5 <= bytes.len(),
        forall|i: int| at <= i < at + 5 ==> bytes[i] == 0x18,
    ensures
        !handle.configured ==> handle.submitted(bytes).0.remote_cancelled,
        handle.configured ==> handle.submitted(bytes).0.remote_cancelled
            == handle.remote_cancelled,
{
    let front = bytes.take(at + 5);
    assert(bytes.take(bytes.len() as int) =~= bytes);
    lemma_five_cancels(handle.choice_cans, front);
    assert(cans_over(handle.choice_cans, front) >= CANCEL_RUN);
}

proof fn lemma_five_cancels(cans: u8, bytes: Seq<u8>)
    requires
        bytes.len() >= 5,
        forall|i: int| bytes.len() - 5 <= i < bytes.len() ==> bytes[i] == 0x18,
    ensures
        cans_over(cans, bytes) >= 5,
{
    let a = bytes.drop_last();
    let b = a.drop_last();
    let c = b.drop_last();
    let d = c.drop_last();
    assert(a.last() == 0x18 && b.last() == 0x18 && c.last() == 0x18 && d.last() == 0x18);
    assert(cans_over(cans, d) >= 1);
    assert(cans_over(cans, c) >= 2);
    assert(cans_over(cans, b) >= 3);
    assert(cans_over(cans, a) >= 4);
}

/// A configuration is taken exactly once: a valid one is what the worker gets,
/// and later ones, ones for the other direction, empty or overlong selections
/// and those of a cancelled transfer leave everything as it is.
pub proof fn law_one_configuration_is_taken(
    handle: HandleView,
    paths: Seq<Seq<u8>>,
    directory: Seq<u8>,
    policy: OverwritePolicy,
)
    requires
        !handle.stopped,
    ensures
        ({
            let open = !handle.is_cancelled() && !handle.configured;
            let (up, up_failure) = handle.configured_upload(paths);
            let (down, down_failure) = handle.configured_download(directory, policy);
            let sends = open && handle.role is Upload && 0 < paths.len() <= 128 && paths_fit(paths);
            let receives = open && handle.role is Download && paths_fit(seq![directory]);
            &&& sends <==> up_failure is None
            &&& sends ==> up == (HandleView {
                configured: true,
                configuration: Some(ConfigurationView::Upload(paths)),
                ..handle
            })
            &&& !sends ==> up == handle && (up_failure matches Some(failure)
                && failure.kind is Configuration)
            &&& receives <==> down_failure is None
            &&& receives ==> down == (HandleView {
                configured: true,
                configuration: Some(ConfigurationView::Download(directory, policy)),
                ..handle
            })
            &&& !receives ==> down == handle && (down_failure matches Some(failure)
                && failure.kind is Configuration)
        }),
{
}

/// Every output is handed out unless it is wire bytes of a cancelled transfer;
/// wire bytes are then outstanding under their number.
pub proof fn law_outputs_are_handed_out(handle: HandleView, output: RuntimeOutputView)
    ensures
        ({
            let (after, handed) = handle.delivered(output);
            &&& !(output is Wire && handle.is_cancelled()) ==> handed == Some(output)
            &&& output is Wire && handle.is_cancelled() ==> handed is None && after == handle
            &&& !(output is Wire) ==> after == handle
            &&& output matches RuntimeOutputView::Wire { sequence, .. } ==> (handed is Some
                ==> after == (HandleView { outstanding_write: Some(sequence), ..handle }))
        }),
{
}

/// A configuration that comes after the worker has gone is lost, and the one
/// who gave it is told so; no other is taken after it.
pub proof fn law_late_configurations_are_reported(
    handle: HandleView,
    configuration: ConfigurationView,
)
    requires
        handle.stopped,
        !handle.is_cancelled(),
        !handle.configured,
    ensures
        ({
            let (after, failure) = handle.configured_with(configuration);
            &&& failure matches Some(told) && told.kind is WorkerStopped
            &&& after == (HandleView { configured: true, ..handle })
        }),
{
}

/// A new transfer is open: it takes input and a configuration, and nothing of
/// it was cancelled, acknowledged or published.
pub proof fn law_new_transfers_are_open(id: TransferId, role: Role)
    ensures
        ({
            let handle = HandleView::new(id, role);
            &&& handle.id == id
            &&& handle.role == role
            &&& handle.wf()
            &&& handle.chunks.len() == 0
            &&& !handle.closed && !handle.stopped && !handle.configured
            &&& handle.phase == 0 && !handle.is_cancelled()
            &&& handle.choice_cans == 0 && !handle.remote_cancelled
            &&& handle.acknowledged == 0
            &&& handle.configuration is None
            &&& handle.outstanding_write is None
        }),
{
    assert(0u8 & 1u8 == 0u8) by (bit_vector);
}

} // verus!
