//! Routes PTY bytes between the screen and a transfer. The router decides;
//! the event loop around it owns the worker handles and performs what the
//! router asks for.

use std::collections::VecDeque;

use vstd::prelude::*;
use vstd::string::*;
use vstd::utf8::encode_utf8;

use crate::bytes::{append, copy_range};
use crate::clock::{Duration, Instant};
use crate::pty_writing::Writing;
use crate::status::{capped, scaled, status_line, status_text};
use crate::wire::{start_role, HeaderView, ZmodemRole};
use crate::zmodem_detector::{
    begins_with_header, scanned, DetectorOutcome, DetectorView, ZmodemDetector,
};
use crate::zmodem_runtime::{
    abort_sequence, cancel_bytes, paths_view, Control, ErrorKind, ErrorView, OverwritePolicy,
    PathBytes, Role, RuntimeOutput, RuntimeOutputView, SubmitError, TransferError, TransferEvent,
    TransferEventView, TransferId, TransferOutcome, TransferOutcomeView,
};
use crate::zmodem_worker::{outputs_view, LAST_INSTANT};

verus! {

/// Most bytes read from the PTY at once.
pub const READ_BUFFER_SIZE: usize = 16_384;

/// Most bytes retained for a worker that does not take them yet.
pub const MAX_RETAINED_INPUT: usize = 65_536;

/// How often a worker is looked at.
///
/// Transfers are acknowledgement-driven: the worker blocks until a wire buffer has actually been
/// written to the PTY. Polling faster keeps large transfers from stalling on this round trip.
pub const WORKER_POLL_INTERVAL: Duration = 1_000_000;

/// Time to choose files or a directory.
pub const CHOICE_TIMEOUT: Duration = 120_000_000_000;

/// Time left to a cancelled worker, and time in which the residue of a
/// transfer is kept from the screen.
pub const CANCEL_TIMEOUT: Duration = 500_000_000;

/// Least time between two shown progress lines.
pub const PROGRESS_RENDER_INTERVAL: Duration = 100_000_000;

/// Least time between two samples of the rate.
pub const RATE_INTERVAL: Duration = 250_000_000;

/// Outputs taken from the active worker in one turn.
pub const OUTPUT_BUDGET: usize = 256;

/// Outputs taken from a retiring worker in one turn.
pub const RETIRING_BUDGET: usize = 64;

/// The rate of a transfer over plain values.
#[derive(Clone, Copy, Debug, PartialEq, Eq)]
pub struct RateMeter {
    /// Bytes and time of the last sample.
    pub baseline: Option<(u64, Instant)>,
    /// Smoothed bytes per second.
    pub rate: Option<u64>,
}

impl RateMeter {
    /// A meter without a sample.
    pub open spec fn unset() -> RateMeter {
        RateMeter { baseline: None, rate: None }
    }

    /// The rate smoothed with one more sample; a sample of nothing is ignored.
    pub open spec fn smoothed(self, sample: int) -> Option<u64> {
        if sample <= 0 {
            self.rate
        } else {
            match self.rate {
                Some(previous) => Some((capped(capped(previous * 3) + sample) / 4) as u64),
                None => Some(sample as u64),
            }
        }
    }

    /// The meter after an event: a new file starts anew, progress is sampled
    /// where enough time has passed.
    pub open spec fn after(self, event: TransferEventView, now: Instant) -> RateMeter {
        match event {
            TransferEventView::FileStarted { .. } => RateMeter {
                baseline: Some((0, now)),
                rate: None,
            },
            TransferEventView::Progress { bytes, .. } => match self.baseline {
                None => RateMeter { baseline: Some((bytes, now)), ..self },
                Some((before, at)) => if now - at < RATE_INTERVAL || bytes < before {
                    self
                } else {
                    let millis = (now - at) / 1_000_000;
                    let sample = capped((bytes - before) * 1000) / millis;
                    RateMeter { baseline: Some((bytes, now)), rate: self.smoothed(sample) }
                },
            },
            _ => self,
        }
    }
}

/// Samples the rate of a transfer from its events.
pub fn update_rate(meter: &mut RateMeter, event: &TransferEvent, now: Instant)
    ensures
        *final(meter) == old(meter).after(event@, now),
{
    match event {
        TransferEvent::FileStarted { .. } => {
            meter.baseline = Some((0, now));
            meter.rate = None;
        },
        TransferEvent::Progress { bytes, .. } => {
            let (before, at): (u64, Instant) = match meter.baseline {
                Some(baseline) => baseline,
                None => {
                    meter.baseline = Some((*bytes, now));
                    return;
                },
            };
            let elapsed: u64 = now.saturating_sub(at);
            if elapsed < RATE_INTERVAL || *bytes < before {
                return;
            }
            let millis: u64 = elapsed / 1_000_000;
            let sample: u64 = scaled(*bytes - before, 1000) / millis;
            if sample > 0 {
                meter.rate = Some(
                    match meter.rate {
                        Some(previous) => scaled(previous, 3).saturating_add(sample) / 4,
                        None => sample,
                    },
                );
            }
            meter.baseline = Some((*bytes, now));
        },
        _ => {},
    }
}

/// The smaller of two timeouts, where there are any.
pub open spec fn smaller_timeout(a: Option<Duration>, b: Option<Duration>) -> Option<Duration> {
    match (a, b) {
        (Some(a), Some(b)) => Some(
            if a <= b {
                a
            } else {
                b
            },
        ),
        (Some(timeout), None) => Some(timeout),
        (None, b) => b,
    }
}

/// The smaller of two timeouts, where there are any.
pub fn minimum_timeout(a: Option<Duration>, b: Option<Duration>) -> (r: Option<Duration>)
    ensures
        r == smaller_timeout(a, b),
{
    match (a, b) {
        (Some(a), Some(b)) => Some(
            if a <= b {
                a
            } else {
                b
            },
        ),
        (Some(timeout), None) => Some(timeout),
        (None, b) => b,
    }
}

/// A transfer that holds the PTY, or did until it was cancelled.
pub struct ActiveTransfer {
    id: TransferId,
    role: Role,
    configured: bool,
    choice_deadline: Instant,
    cancel_deadline: Option<Instant>,
    retained: Vec<u8>,
    tail_received: bool,
    tail: Vec<u8>,
    completed: bool,
    finished: bool,
    last_progress_render: Option<Instant>,
    meter: RateMeter,
}

/// A transfer that holds the PTY, over plain values.
pub ghost struct ActiveView {
    pub id: TransferId,
    pub role: Role,
    pub configured: bool,
    pub choice_deadline: Instant,
    pub cancel_deadline: Option<Instant>,
    /// Bytes for the worker that it has not taken yet.
    pub retained: Seq<u8>,
    /// The worker gave output back.
    pub tail_received: bool,
    /// Output behind the transfer.
    pub tail: Seq<u8>,
    pub completed: bool,
    /// The end of the transfer was reported.
    pub finished: bool,
    pub last_progress_render: Option<Instant>,
    pub meter: RateMeter,
}

impl View for ActiveTransfer {
    type V = ActiveView;

    closed spec fn view(&self) -> ActiveView {
        ActiveView {
            id: self.id,
            role: self.role,
            configured: self.configured,
            choice_deadline: self.choice_deadline,
            cancel_deadline: self.cancel_deadline,
            retained: self.retained@,
            tail_received: self.tail_received,
            tail: self.tail@,
            completed: self.completed,
            finished: self.finished,
            last_progress_render: self.last_progress_render,
            meter: self.meter,
        }
    }
}

impl ActiveView {
    /// A transfer that has just begun.
    pub open spec fn new(id: TransferId, role: Role, now: Instant) -> ActiveView {
        ActiveView {
            id,
            role,
            configured: false,
            choice_deadline: (now + CHOICE_TIMEOUT) as u64,
            cancel_deadline: None,
            retained: Seq::empty(),
            tail_received: false,
            tail: Seq::empty(),
            completed: false,
            finished: false,
            last_progress_render: None,
            meter: RateMeter::unset(),
        }
    }

    /// A selection for this transfer is still welcome.
    pub open spec fn awaits(self, id: TransferId, role: Role, now: Instant) -> bool {
        &&& self.id == id
        &&& self.role == role
        &&& !self.configured
        &&& self.cancel_deadline is None
        &&& now < self.choice_deadline
    }

    /// The worker may be offered retained bytes.
    pub open spec fn may_submit(self) -> bool {
        self.cancel_deadline is None && !self.tail_received && self.retained.len() > 0
    }

    /// How many more bytes may be read for this transfer.
    pub open spec fn capacity(self) -> int {
        if self.cancel_deadline is Some || self.tail_received {
            0
        } else if self.configured && self.retained.len() != 0 {
            0
        } else {
            MAX_RETAINED_INPUT - self.retained.len()
        }
    }
}

impl ActiveTransfer {
    fn new(id: TransferId, role: Role, now: Instant) -> (r: Self)
        requires
            now <= LAST_INSTANT,
        ensures
            r@ == ActiveView::new(id, role, now),
    {
        let active = ActiveTransfer {
            id,
            role,
            configured: false,
            choice_deadline: now + CHOICE_TIMEOUT,
            cancel_deadline: None,
            retained: Vec::new(),
            tail_received: false,
            tail: Vec::new(),
            completed: false,
            finished: false,
            last_progress_render: None,
            meter: RateMeter { baseline: None, rate: None },
        };
        assert(active@.retained =~= Seq::<u8>::empty());
        active
    }

    /// How many retained bytes the worker has not taken yet.
    pub fn retained_len(&self) -> (r: usize)
        ensures
            r == self@.retained.len(),
    {
        self.retained.len()
    }

    /// Retains `bytes` behind what is retained already.
    pub fn retain(&mut self, bytes: &[u8])
        ensures
            final(self)@ == (ActiveView {
                retained: old(self)@.retained + bytes@,
                ..old(self)@
            }),
    {
        append(&mut self.retained, bytes);
    }

    /// The bytes to offer to the worker next, if it may be offered any.
    pub fn next_submission(&self) -> (r: Option<&[u8]>)
        ensures
            match r {
                Some(bytes) => self@.may_submit() && bytes@ == self@.retained,
                None => !self@.may_submit(),
            },
    {
        if self.cancel_deadline.is_some() || self.tail_received || self.retained.len() == 0 {
            return None;
        }
        Some(self.retained.as_slice())
    }

    /// Takes over how many of the offered bytes the worker took; whether it
    /// may be offered more at once.
    pub fn note_submission(&mut self, result: Result<usize, SubmitError>) -> (r: bool)
        requires
            result matches Ok(count) ==> count <= old(self)@.retained.len(),
        ensures
            match result {
                Ok(count) => {
                    &&& final(self)@ == (ActiveView {
                        retained: old(self)@.retained.skip(count as int),
                        ..old(self)@
                    })
                    &&& r == (count != 0)
                },
                Err(_) => final(self)@ == old(self)@ && !r,
            },
    {
        match result {
            Ok(count) => {
                let len: usize = self.retained.len();
                let rest: Vec<u8> = copy_range(self.retained.as_slice(), count, len);
                assert(rest@ =~= self.retained@.skip(count as int));
                self.retained = rest;
                count != 0
            },
            Err(_) => false,
        }
    }

    pub fn id(&self) -> (r: TransferId)
        ensures
            r == self@.id,
    {
        self.id
    }

    pub fn role(&self) -> (r: Role)
        ensures
            r == self@.role,
    {
        self.role
    }

    /// Whether the worker was configured.
    pub fn is_configured(&self) -> (r: bool)
        ensures
            r == self@.configured,
    {
        self.configured
    }
}

/// What is shown and reported.
pub struct Report {
    /// Bytes for the screen.
    pub render: Vec<u8>,
    /// Events for the application, in order.
    pub events: Vec<TransferEvent>,
}

/// What is shown and reported, over plain values.
pub ghost struct ReportView {
    pub render: Seq<u8>,
    pub events: Seq<TransferEventView>,
}

/// The view of events.
pub open spec fn events_view(events: Seq<TransferEvent>) -> Seq<TransferEventView> {
    events.map_values(|event: TransferEvent| event@)
}

impl View for Report {
    type V = ReportView;

    open spec fn view(&self) -> ReportView {
        ReportView { render: self.render@, events: events_view(self.events@) }
    }
}

impl ReportView {
    /// Nothing is shown and reported.
    pub open spec fn nothing() -> ReportView {
        ReportView { render: Seq::empty(), events: Seq::empty() }
    }

    /// More bytes are shown.
    pub open spec fn showing(self, bytes: Seq<u8>) -> ReportView {
        ReportView { render: self.render + bytes, ..self }
    }

    /// An event is reported without a line.
    pub open spec fn noting(self, event: TransferEventView) -> ReportView {
        ReportView { events: self.events.push(event), ..self }
    }

    /// An event is shown as a line and reported.
    pub open spec fn telling(self, event: TransferEventView, rate: Option<u64>) -> ReportView {
        self.showing(encode_utf8(status_text(event, rate))).noting(event)
    }
}

impl Report {
    /// Nothing to show and report.
    pub fn new() -> (r: Self)
        ensures
            r@ == ReportView::nothing(),
    {
        let report = Report { render: Vec::new(), events: Vec::new() };
        assert(report@.events =~= Seq::<TransferEventView>::empty());
        report
    }

    fn show(&mut self, bytes: &[u8])
        ensures
            final(self)@ == old(self)@.showing(bytes@),
    {
        append(&mut self.render, bytes);
    }

    fn note(&mut self, event: TransferEvent)
        ensures
            final(self)@ == old(self)@.noting(event@),
    {
        let ghost before = events_view(self.events@);
        let ghost view = event@;
        self.events.push(event);
        assert(events_view(self.events@) =~= before.push(view));
    }

    fn tell(&mut self, event: TransferEvent, rate: Option<u64>)
        ensures
            final(self)@ == old(self)@.telling(event@, rate),
    {
        let line: Vec<u8> = status_line(&event, rate);
        self.show(line.as_slice());
        self.note(event);
    }
}

/// A protocol buffer on its way to the PTY.
pub struct TransferWriting {
    pub id: TransferId,
    /// The number that its worker waits for; an abort has none.
    pub sequence: Option<u64>,
    pub buffer: Writing,
}

/// A protocol buffer on its way to the PTY, over plain values.
pub ghost struct WireView {
    pub id: TransferId,
    pub sequence: Option<u64>,
    /// The bytes that were not written yet.
    pub rest: Seq<u8>,
}

impl View for TransferWriting {
    type V = WireView;

    open spec fn view(&self) -> WireView {
        WireView { id: self.id, sequence: self.sequence, rest: self.buffer@ }
    }
}

/// The view of protocol buffers.
pub open spec fn wires_view(wires: Seq<TransferWriting>) -> Seq<WireView> {
    wires.map_values(|wire: TransferWriting| wire@)
}

/// The view of transfers.
pub open spec fn actives_view(actives: Seq<ActiveTransfer>) -> Seq<ActiveView> {
    actives.map_values(|active: ActiveTransfer| active@)
}

/// What was received from a worker in one turn.
pub struct Batch {
    pub outputs: Vec<RuntimeOutput>,
    /// The worker is gone, and these were its last outputs.
    pub gone: bool,
}

/// What was received from a worker, over plain values.
pub ghost struct BatchView {
    pub outputs: Seq<RuntimeOutputView>,
    pub gone: bool,
}

impl View for Batch {
    type V = BatchView;

    open spec fn view(&self) -> BatchView {
        BatchView { outputs: outputs_view(self.outputs@), gone: self.gone }
    }
}

/// The view of batches.
pub open spec fn batches_view(batches: Seq<Batch>) -> Seq<BatchView> {
    batches.map_values(|batch: Batch| batch@)
}

/// What becomes of the active worker's handle.
#[derive(Clone, Copy, Debug, PartialEq, Eq, Structural)]
pub enum Release {
    /// It stays.
    Keep,
    /// It is let go.
    Drop,
    /// It joins the retiring ones, last.
    Retire,
}

/// The router over plain values.
pub ghost struct RouterView {
    pub enabled: bool,
    pub detector: DetectorView,
    pub active: Option<ActiveView>,
    /// Cancelled transfers whose workers have not ended yet.
    pub retiring: Seq<ActiveView>,
    /// Outgoing protocol buffers, in order.
    pub wire: Seq<WireView>,
    /// Until when the residue of a transfer is kept from the screen.
    pub recovery_deadline: Option<Instant>,
}

/// The buffers that a worker waits for.
pub open spec fn numbered_wires(wire: Seq<WireView>) -> Seq<WireView> {
    wire.filter(|wire: WireView| wire.sequence is Some)
}

/// Whether the time has come.
pub open spec fn due(deadline: Option<Instant>, now: Instant) -> bool {
    deadline matches Some(deadline) && now >= deadline
}

/// Time left until a deadline.
pub open spec fn time_left(deadline: Option<Instant>, now: Instant) -> Option<Duration> {
    match deadline {
        Some(deadline) => Some(
            if now >= deadline {
                0
            } else {
                (deadline - now) as u64
            },
        ),
        None => None,
    }
}

/// A finished transfer without published paths.
pub open spec fn finished_event(
    id: TransferId,
    role: Role,
    outcome: TransferOutcomeView,
) -> TransferEventView {
    TransferEventView::Finished { id, role, outcome, committed_paths: Seq::empty() }
}

/// A failed transfer.
pub open spec fn failed_event(
    id: TransferId,
    role: Role,
    kind: ErrorKind,
    message: Seq<char>,
) -> TransferEventView {
    finished_event(id, role, TransferOutcomeView::Failed(ErrorView { kind, message }))
}

/// What the detector gives out of `bytes` read one by one, each start header
/// withheld.
pub open spec fn sifted(state: DetectorView, bytes: Seq<u8>, now: Instant) -> (
    DetectorView,
    Seq<u8>,
)
    decreases bytes.len(),
{
    if bytes.len() == 0 {
        (state, Seq::empty())
    } else {
        let (state, shown) = sifted(state, bytes.drop_last(), now);
        let scan = scanned(state, seq![bytes.last()], now);
        (scan.state, shown + scan.rendered)
    }
}

impl RouterView {
    /// A router that is not enabled yet.
    pub open spec fn new() -> RouterView {
        RouterView {
            enabled: false,
            detector: DetectorView::idle(),
            active: None,
            retiring: Seq::empty(),
            wire: Seq::empty(),
            recovery_deadline: None,
        }
    }

    /// The PTY is a transfer's.
    pub open spec fn busy(self) -> bool {
        self.active is Some || self.wire.len() > 0
    }

    /// How many bytes may be read from the PTY.
    pub open spec fn read_capacity(self) -> int {
        match self.active {
            Some(active) => active.capacity(),
            None => READ_BUFFER_SIZE as int,
        }
    }

    /// When the router has to be looked at again.
    pub open spec fn next_timeout(self, now: Instant) -> Option<Duration> {
        let worker = match self.active {
            Some(active) => if active.configured && active.cancel_deadline is None {
                Some(WORKER_POLL_INTERVAL)
            } else {
                smaller_timeout(
                    Some(WORKER_POLL_INTERVAL),
                    time_left(
                        match active.cancel_deadline {
                            Some(deadline) => Some(deadline),
                            None => Some(active.choice_deadline),
                        },
                        now,
                    ),
                )
            },
            None => None,
        };
        let retiring = if self.retiring.len() > 0 {
            Some(WORKER_POLL_INTERVAL)
        } else {
            None
        };
        smaller_timeout(
            smaller_timeout(time_left(self.detector.deadline, now), worker),
            smaller_timeout(time_left(self.recovery_deadline, now), retiring),
        )
    }

    /// Queued protocol data is discarded, the abort sequence takes its place,
    /// and residue is kept from the screen for a while.
    pub open spec fn aborting(self, id: TransferId, now: Instant) -> RouterView {
        RouterView {
            recovery_deadline: Some((now + CANCEL_TIMEOUT) as u64),
            wire: seq![WireView { id, sequence: None, rest: cancel_bytes() }],
            ..self
        }
    }

    /// The active transfer is cancelled, and whether its worker has to be told.
    pub open spec fn cancelled(self, now: Instant) -> (RouterView, bool) {
        match self.active {
            Some(active) if active.cancel_deadline is None => (
                (RouterView {
                    active: Some(
                        ActiveView {
                            cancel_deadline: Some((now + CANCEL_TIMEOUT) as u64),
                            ..active
                        },
                    ),
                    ..self
                }).aborting(active.id, now),
                true,
            ),
            _ => (self, false),
        }
    }

    /// The active transfer is cancelled because of a failure, which is reported
    /// unless its end was.
    pub open spec fn failed(self, failure: ErrorView, report: ReportView, now: Instant) -> (
        RouterView,
        ReportView,
        bool,
    ) {
        let (router, cancel) = self.cancelled(now);
        match router.active {
            Some(active) if !active.finished => (
                RouterView {
                    active: Some(ActiveView { finished: true, ..active }),
                    ..router
                },
                report.telling(
                    finished_event(active.id, active.role, TransferOutcomeView::Failed(failure)),
                    active.meter.rate,
                ),
                cancel,
            ),
            _ => (router, report, cancel),
        }
    }

    /// A worker was spawned for a transfer, or could not be.
    pub open spec fn begun(
        self,
        id: TransferId,
        role: Role,
        requested: bool,
        failure: Option<ErrorView>,
        report: ReportView,
        now: Instant,
    ) -> (RouterView, ReportView) {
        match failure {
            None => (
                RouterView { active: Some(ActiveView::new(id, role, now)), ..self },
                if requested {
                    report.telling(TransferEventView::Requested { id, role }, None)
                } else {
                    report
                },
            ),
            Some(failure) => (
                self.aborting(id, now),
                report.telling(
                    finished_event(id, role, TransferOutcomeView::Failed(failure)),
                    None,
                ),
            ),
        }
    }
}

/// A transfer that the router wants to be started.
pub struct Start {
    pub role: Role,
    /// The bytes that its worker gets first.
    pub protocol: Vec<u8>,
}

/// What becomes of a read.
pub struct Routed {
    /// Bytes for the screen.
    pub render: Vec<u8>,
    pub start: Option<Start>,
}

/// The role of a transfer that a header starts.
pub open spec fn transfer_role(role: ZmodemRole) -> Role {
    match role {
        ZmodemRole::Upload => Role::Upload,
        ZmodemRole::Download => Role::Download,
    }
}

/// The router after a read, what is shown, and the transfer to start.
pub open spec fn routed(router: RouterView, bytes: Seq<u8>, now: Instant) -> (
    RouterView,
    Seq<u8>,
    Option<(Role, Seq<u8>)>,
) {
    match router.active {
        Some(active) => (
            RouterView {
                active: Some(ActiveView { retained: active.retained + bytes, ..active }),
                ..router
            },
            Seq::empty(),
            None,
        ),
        None => if !router.enabled {
            (router, bytes, None)
        } else if router.recovery_deadline is Some {
            (router, Seq::empty(), None)
        } else if router.wire.len() > 0 {
            let (detector, shown) = sifted(router.detector, bytes, now);
            (RouterView { detector, ..router }, shown, None)
        } else {
            let scan = scanned(router.detector, bytes, now);
            (
                RouterView { detector: scan.state, ..router },
                scan.rendered,
                match scan.started {
                    Some((_, role, protocol)) => Some((transfer_role(role), protocol)),
                    None => None,
                },
            )
        },
    }
}

/// The view of a transfer to start.
pub open spec fn start_view(start: Option<Start>) -> Option<(Role, Seq<u8>)> {
    match start {
        Some(start) => Some((start.role, start.protocol@)),
        None => None,
    }
}

/// What the event loop has to do for a request.
pub enum Request {
    /// Nothing.
    Nothing,
    /// Spawn an upload worker, [`ZmodemRouter::begin`], and configure it.
    StartUpload { id: TransferId, paths: Vec<PathBytes> },
    /// Configure the active worker, then [`ZmodemRouter::configured`].
    ConfigureUpload { paths: Vec<PathBytes> },
    /// Configure the active worker, then [`ZmodemRouter::configured`].
    ConfigureDownload { directory: PathBytes, policy: OverwritePolicy },
    /// Cancel the active worker.
    CancelWorker,
}

/// What the event loop has to do for a request, over plain values.
pub ghost enum RequestView {
    Nothing,
    StartUpload { id: TransferId, paths: Seq<Seq<u8>> },
    ConfigureUpload { paths: Seq<Seq<u8>> },
    ConfigureDownload { directory: Seq<u8>, policy: OverwritePolicy },
    CancelWorker,
}

impl View for Request {
    type V = RequestView;

    open spec fn view(&self) -> RequestView {
        match *self {
            Request::Nothing => RequestView::Nothing,
            Request::StartUpload { id, paths } => RequestView::StartUpload {
                id,
                paths: paths_view(paths@),
            },
            Request::ConfigureUpload { paths } => RequestView::ConfigureUpload {
                paths: paths_view(paths@),
            },
            Request::ConfigureDownload { directory, policy } => RequestView::ConfigureDownload {
                directory: directory@,
                policy,
            },
            Request::CancelWorker => RequestView::CancelWorker,
        }
    }
}

/// The router after a control request, what is shown, and what the event loop
/// has to do. Requests for another transfer, for the other role, and selections
/// that come too late change nothing.
pub open spec fn controlled(router: RouterView, control: Control, now: Instant) -> (
    RouterView,
    Seq<u8>,
    RequestView,
) {
    let flushed = RouterView { detector: DetectorView::idle(), ..router };
    match control {
        Control::Enable(enabled) => if enabled {
            (RouterView { enabled, ..router }, Seq::empty(), RequestView::Nothing)
        } else {
            let (after, cancel) = (RouterView { enabled, ..flushed }).cancelled(now);
            (
                after,
                router.detector.pending,
                if cancel {
                    RequestView::CancelWorker
                } else {
                    RequestView::Nothing
                },
            )
        },
        Control::StartUpload { id, paths } => if router.enabled && !router.busy() {
            (
                flushed,
                router.detector.pending,
                RequestView::StartUpload { id, paths: paths_view(paths@) },
            )
        } else {
            (router, Seq::empty(), RequestView::Nothing)
        },
        Control::Upload { id, paths } => (
            router,
            Seq::empty(),
            match router.active {
                Some(active) if active.awaits(id, Role::Upload, now) => {
                    RequestView::ConfigureUpload { paths: paths_view(paths@) }
                },
                _ => RequestView::Nothing,
            },
        ),
        Control::Download { id, directory, policy } => (
            router,
            Seq::empty(),
            match router.active {
                Some(active) if active.awaits(id, Role::Download, now) => {
                    RequestView::ConfigureDownload { directory: directory@, policy }
                },
                _ => RequestView::Nothing,
            },
        ),
        Control::Cancel { id } => match router.active {
            Some(active) if active.id == id => {
                let (after, cancel) = router.cancelled(now);
                (
                    after,
                    Seq::empty(),
                    if cancel {
                        RequestView::CancelWorker
                    } else {
                        RequestView::Nothing
                    },
                )
            },
            _ => (router, Seq::empty(), RequestView::Nothing),
        },
    }
}

/// A retiring transfer after one output: until its end was reported, events
/// are passed on, and shown while no other transfer is active.
pub open spec fn retired_output(
    active: ActiveView,
    report: ReportView,
    output: RuntimeOutputView,
    visible: bool,
) -> (ActiveView, ReportView) {
    match output {
        RuntimeOutputView::Event(event) => if active.finished {
            (active, report)
        } else {
            (
                ActiveView { finished: event is Finished, ..active },
                if visible {
                    report.telling(event, active.meter.rate)
                } else {
                    report.noting(event)
                },
            )
        },
        RuntimeOutputView::Tail { bytes, .. } => (
            ActiveView { tail: active.tail + bytes, ..active },
            report,
        ),
        _ => (active, report),
    }
}

/// A retiring transfer after the outputs from `from` on.
pub open spec fn retired_outputs(
    active: ActiveView,
    report: ReportView,
    outputs: Seq<RuntimeOutputView>,
    from: int,
    visible: bool,
) -> (ActiveView, ReportView)
    decreases outputs.len() - from,
{
    if from < 0 || from >= outputs.len() {
        (active, report)
    } else {
        let (active, report) = retired_output(active, report, outputs[from], visible);
        retired_outputs(active, report, outputs, from + 1, visible)
    }
}

/// The retiring transfers after one batch each, from the batch `from` on: one
/// whose worker is gone leaves, and its end is reported if it was not.
pub open spec fn retired_batches(
    kept: Seq<ActiveView>,
    report: ReportView,
    retiring: Seq<ActiveView>,
    batches: Seq<BatchView>,
    from: int,
    visible: bool,
) -> (Seq<ActiveView>, ReportView)
    decreases retiring.len() - from,
{
    if from < 0 || from >= retiring.len() {
        (kept, report)
    } else {
        let batch = batches[from];
        let (active, report) = retired_outputs(
            retiring[from],
            report,
            batch.outputs,
            0,
            visible,
        );
        if !batch.gone {
            retired_batches(kept.push(active), report, retiring, batches, from + 1, visible)
        } else if active.finished {
            retired_batches(kept, report, retiring, batches, from + 1, visible)
        } else {
            retired_batches(
                kept,
                report.telling(
                    failed_event(
                        active.id,
                        active.role,
                        ErrorKind::WorkerStopped,
                        "Cancelled worker stopped before reporting its result"@,
                    ),
                    active.meter.rate,
                ),
                retiring,
                batches,
                from + 1,
                visible,
            )
        }
    }
}

/// The active transfer after one of its events: its rate, its end, and when
/// its progress was last shown.
pub open spec fn active_after(active: ActiveView, event: TransferEventView, now: Instant) -> (
    ActiveView,
    bool,
) {
    let refresh = !(event is Progress) || match active.last_progress_render {
        Some(at) => now - at >= PROGRESS_RENDER_INTERVAL,
        None => true,
    };
    (
        ActiveView {
            meter: active.meter.after(event, now),
            finished: event is Finished,
            completed: match event {
                TransferEventView::Finished { outcome, .. } => outcome is Completed,
                _ => active.completed,
            },
            last_progress_render: if refresh && event is Progress {
                Some(now)
            } else {
                active.last_progress_render
            },
            ..active
        },
        refresh,
    )
}

/// The router after one output of the active worker, and whether that worker's
/// end was reported. Outputs of another transfer and wire bytes of a cancelled
/// one are dropped.
pub open spec fn received_output(
    router: RouterView,
    report: ReportView,
    output: RuntimeOutputView,
    now: Instant,
) -> (RouterView, ReportView, bool) {
    match router.active {
        None => (router, report, false),
        Some(active) => match output {
            RuntimeOutputView::Wire { id, sequence, bytes } => (
                if id == active.id && active.cancel_deadline is None {
                    RouterView {
                        wire: router.wire.push(
                            WireView { id, sequence: Some(sequence), rest: bytes },
                        ),
                        ..router
                    }
                } else {
                    router
                },
                report,
                false,
            ),
            RuntimeOutputView::Abort { id } => (
                if id == active.id && active.cancel_deadline is None {
                    router.cancelled(now).0
                } else {
                    router
                },
                report,
                false,
            ),
            RuntimeOutputView::Tail { id, bytes } => (
                if id == active.id {
                    RouterView {
                        active: Some(
                            ActiveView {
                                tail_received: true,
                                tail: active.tail + bytes,
                                ..active
                            },
                        ),
                        ..router
                    }
                } else {
                    router
                },
                report,
                false,
            ),
            RuntimeOutputView::Event(event) => if active.finished {
                (router, report, false)
            } else {
                let (after, refresh) = active_after(active, event, now);
                (
                    RouterView { active: Some(after), ..router },
                    if refresh {
                        report.telling(event, after.meter.rate)
                    } else {
                        report
                    },
                    event is Finished,
                )
            },
        },
    }
}

/// The router after the outputs from `from` on, up to the reported end, and
/// whether the worker has ended.
pub open spec fn received_outputs(
    router: RouterView,
    report: ReportView,
    batch: BatchView,
    from: int,
    now: Instant,
) -> (RouterView, ReportView, bool)
    decreases batch.outputs.len() - from,
{
    if from < 0 || from >= batch.outputs.len() {
        (router, report, batch.gone)
    } else {
        let (router, report, ended) = received_output(router, report, batch.outputs[from], now);
        if ended {
            (router, report, true)
        } else {
            received_outputs(router, report, batch, from + 1, now)
        }
    }
}

impl RouterView {
    /// Expired candidate bytes are shown.
    pub open spec fn detector_expired(self, now: Instant) -> (RouterView, ReportView) {
        if self.detector.expired(now) {
            (
                RouterView { detector: DetectorView::idle(), ..self },
                ReportView::nothing().showing(self.detector.pending),
            )
        } else {
            (self, ReportView::nothing())
        }
    }

    /// The end of a recovery: what the detector retained is shown, and an
    /// abort that was not written is given up.
    pub open spec fn recovered(self, report: ReportView, now: Instant) -> (RouterView, ReportView) {
        if due(self.recovery_deadline, now) {
            (
                RouterView {
                    recovery_deadline: None,
                    detector: DetectorView::idle(),
                    wire: if self.active is None {
                        numbered_wires(self.wire)
                    } else {
                        self.wire
                    },
                    ..self
                },
                report.showing(self.detector.pending),
            )
        } else {
            (self, report)
        }
    }

    /// A selection that did not come in time fails the transfer.
    pub open spec fn choice_expired(self, report: ReportView, now: Instant) -> (
        RouterView,
        ReportView,
        bool,
    ) {
        match self.active {
            Some(active) if !active.configured && !active.finished && now
                >= active.choice_deadline => self.failed(
                ErrorView { kind: ErrorKind::Timeout, message: "File selection timed out"@ },
                report,
                now,
            ),
            _ => (self, report, false),
        }
    }

    /// The PTY is taken back from a transfer whose worker has ended or was
    /// cancelled too long ago. Accepted bytes belong to the worker; only its
    /// tail and the unaccepted suffix may return to the screen.
    pub open spec fn settled(self, report: ReportView, ended: bool, now: Instant) -> (
        RouterView,
        ReportView,
        Release,
    ) {
        match self.active {
            None => (self, report, Release::Keep),
            Some(active) => if !ended && !due(active.cancel_deadline, now) {
                (self, report, Release::Keep)
            } else {
                let freed = RouterView {
                    active: None,
                    recovery_deadline: if active.cancel_deadline is Some {
                        Some((now + CANCEL_TIMEOUT) as u64)
                    } else {
                        self.recovery_deadline
                    },
                    ..self
                };
                if !ended && !active.finished {
                    (
                        RouterView { retiring: self.retiring.push(active), ..freed },
                        report,
                        Release::Retire,
                    )
                } else {
                    let (router, told) = if active.finished {
                        (freed, report)
                    } else {
                        (
                            freed.aborting(active.id, now),
                            report.telling(
                                finished_event(
                                    active.id,
                                    active.role,
                                    if active.cancel_deadline is Some {
                                        TransferOutcomeView::Cancelled
                                    } else {
                                        TransferOutcomeView::Failed(
                                            ErrorView {
                                                kind: ErrorKind::WorkerStopped,
                                                message: "Transfer worker stopped"@,
                                            },
                                        )
                                    },
                                ),
                                active.meter.rate,
                            ),
                        )
                    };
                    let shown = if active.cancel_deadline is Some {
                        told
                    } else if active.completed || active.tail_received {
                        told.showing(active.tail).showing(active.retained)
                    } else {
                        told.showing(active.tail)
                    };
                    (router, shown, Release::Drop)
                }
            },
        }
    }

    /// One turn of the router: retained output, retiring transfers, recovery,
    /// the choice's deadline, and the active worker's outputs, in this order.
    pub open spec fn polled(self, retired: Seq<BatchView>, batch: BatchView, now: Instant) -> (
        RouterView,
        ReportView,
        bool,
        Release,
    ) {
        let (router, report) = self.detector_expired(now);
        let (retiring, report) = retired_batches(
            Seq::empty(),
            report,
            self.retiring,
            retired,
            0,
            self.active is None,
        );
        let (router, report) = (RouterView { retiring, ..router }).recovered(report, now);
        let (router, report, cancel) = router.choice_expired(report, now);
        let (router, report, ended) = if router.active is Some {
            received_outputs(router, report, batch, 0, now)
        } else {
            (router, report, false)
        };
        let (router, report, release) = router.settled(report, ended, now);
        (router, report, cancel, release)
    }
}

/// What one turn of the router comes to.
pub struct Polled {
    pub report: Report,
    /// The active worker has to be cancelled, before its handle is released.
    pub cancel_worker: bool,
    pub release: Release,
}

impl ActiveTransfer {
    fn set_cancel_deadline(&mut self, deadline: Instant)
        ensures
            final(self)@ == (ActiveView { cancel_deadline: Some(deadline), ..old(self)@ }),
    {
        self.cancel_deadline = Some(deadline);
    }

    fn set_configured(&mut self)
        ensures
            final(self)@ == (ActiveView { configured: true, ..old(self)@ }),
    {
        self.configured = true;
    }

    fn set_finished(&mut self, finished: bool)
        ensures
            final(self)@ == (ActiveView { finished, ..old(self)@ }),
    {
        self.finished = finished;
    }

    fn add_tail(&mut self, bytes: &[u8])
        ensures
            final(self)@ == (ActiveView { tail: old(self)@.tail + bytes@, ..old(self)@ }),
    {
        append(&mut self.tail, bytes);
    }

    fn set_tail_received(&mut self)
        ensures
            final(self)@ == (ActiveView { tail_received: true, ..old(self)@ }),
    {
        self.tail_received = true;
    }

    fn note_event(&mut self, event: &TransferEvent, now: Instant) -> (r: bool)
        ensures
            (final(self)@, r) == active_after(old(self)@, event@, now),
    {
        let mut meter: RateMeter = self.meter;
        update_rate(&mut meter, event, now);
        self.meter = meter;
        let progress: bool = matches!(event, TransferEvent::Progress { .. });
        let refresh: bool = !progress || match self.last_progress_render {
            Some(at) => now >= at && now - at >= PROGRESS_RENDER_INTERVAL,
            None => true,
        };
        match event {
            TransferEvent::Finished { outcome, .. } => {
                self.finished = true;
                self.completed = matches!(outcome, TransferOutcome::Completed);
            },
            _ => {
                self.finished = false;
            },
        }
        if refresh && progress {
            self.last_progress_render = Some(now);
        }
        refresh
    }

    fn note_retired(&mut self, report: &mut Report, output: RuntimeOutput, visible: bool)
        ensures
            (final(self)@, final(report)@) == retired_output(
                old(self)@,
                old(report)@,
                output@,
                visible,
            ),
    {
        match output {
            RuntimeOutput::Event(event) => {
                if !self.finished {
                    let rate: Option<u64> = self.meter.rate;
                    self.set_finished(matches!(event, TransferEvent::Finished { .. }));
                    if visible {
                        report.tell(event, rate);
                    } else {
                        report.note(event);
                    }
                }
            },
            RuntimeOutput::Tail { bytes, .. } => self.add_tail(bytes.as_slice()),
            _ => {},
        }
    }
}

fn failed_transfer(id: TransferId, role: Role, kind: ErrorKind, message: &str) -> (r: TransferEvent)
    ensures
        r@ == failed_event(id, role, kind, message@),
{
    let error = crate::zmodem_runtime::error(kind, message);
    finished_transfer(id, role, TransferOutcome::Failed(error))
}

fn finished_transfer(id: TransferId, role: Role, outcome: TransferOutcome) -> (r: TransferEvent)
    ensures
        r@ == finished_event(id, role, outcome@),
{
    let committed_paths: Vec<PathBytes> = Vec::new();
    assert(paths_view(committed_paths@) =~= Seq::<Seq<u8>>::empty());
    TransferEvent::Finished { id, role, outcome, committed_paths }
}

/// Routes PTY bytes between the screen and at most one active transfer.
pub struct ZmodemRouter {
    enabled: bool,
    detector: ZmodemDetector,
    active: Option<ActiveTransfer>,
    retiring: Vec<ActiveTransfer>,
    /// Outgoing protocol buffers, in order.
    ///
    /// This is a queue, not a single slot: assigning one buffer per poll silently drops a
    /// buffer that has not been written yet, which loses protocol bytes and makes the peer
    /// retransmit forever.
    wire: VecDeque<TransferWriting>,
    recovery_deadline: Option<Instant>,
}

impl View for ZmodemRouter {
    type V = RouterView;

    closed spec fn view(&self) -> RouterView {
        RouterView {
            enabled: self.enabled,
            detector: self.detector@,
            active: match self.active {
                Some(active) => Some(active@),
                None => None,
            },
            retiring: actives_view(self.retiring@),
            wire: wires_view(self.wire@),
            recovery_deadline: self.recovery_deadline,
        }
    }
}

impl Default for ZmodemRouter {
    fn default() -> (r: Self)
        ensures
            r@ == RouterView::new(),
    {
        let router = ZmodemRouter {
            enabled: false,
            detector: ZmodemDetector::new(),
            active: None,
            retiring: Vec::new(),
            wire: VecDeque::new(),
            recovery_deadline: None,
        };
        assert(router@.retiring =~= Seq::<ActiveView>::empty());
        assert(router@.wire =~= Seq::<WireView>::empty());
        router
    }
}

fn until(deadline: Option<Instant>, now: Instant) -> (r: Option<Duration>)
    ensures
        r == time_left(deadline, now),
{
    match deadline {
        Some(deadline) => Some(deadline.saturating_sub(now)),
        None => None,
    }
}

impl ZmodemRouter {
    /// Whether the PTY is a transfer's.
    pub fn busy(&self) -> (r: bool)
        ensures
            r == self@.busy(),
    {
        self.active.is_some() || self.wire.len() > 0
    }

    /// The active transfer.
    pub fn active(&self) -> (r: Option<&ActiveTransfer>)
        ensures
            match r {
                Some(active) => self@.active == Some(active@),
                None => self@.active is None,
            },
    {
        self.active.as_ref()
    }

    /// When detection gives up on retained bytes.
    pub fn detector_deadline(&self) -> (r: Option<Instant>)
        ensures
            r == self@.detector.deadline,
    {
        self.detector.next_deadline()
    }

    /// Until when the residue of a transfer is kept from the screen.
    pub fn recovery_deadline(&self) -> (r: Option<Instant>)
        ensures
            r == self@.recovery_deadline,
    {
        self.recovery_deadline
    }

    /// Whether protocol bytes wait to be written.
    pub fn has_wire(&self) -> (r: bool)
        ensures
            r == (self@.wire.len() > 0),
    {
        self.wire.len() > 0
    }

    /// How many transfers are retiring.
    pub fn retiring_len(&self) -> (r: usize)
        ensures
            r == self@.retiring.len(),
    {
        self.retiring.len()
    }

    /// How many bytes may be read from the PTY.
    pub fn read_capacity(&self) -> (r: usize)
        requires
            self@.active matches Some(active) ==> active.retained.len() <= MAX_RETAINED_INPUT,
        ensures
            r == self@.read_capacity(),
    {
        match &self.active {
            Some(active) => {
                if active.cancel_deadline.is_some() || active.tail_received {
                    0
                } else if active.configured && active.retained_len() != 0 {
                    0
                } else {
                    MAX_RETAINED_INPUT - active.retained_len()
                }
            },
            None => READ_BUFFER_SIZE,
        }
    }

    /// When the router has to be looked at again.
    pub fn next_timeout(&self, now: Instant) -> (r: Option<Duration>)
        ensures
            r == self@.next_timeout(now),
    {
        let candidate = until(self.detector.next_deadline(), now);
        let worker: Option<Duration> = match &self.active {
            Some(active) => {
                if active.configured && active.cancel_deadline.is_none() {
                    Some(WORKER_POLL_INTERVAL)
                } else {
                    let deadline: Option<Instant> = match active.cancel_deadline {
                        Some(deadline) => Some(deadline),
                        None => Some(active.choice_deadline),
                    };
                    minimum_timeout(Some(WORKER_POLL_INTERVAL), until(deadline, now))
                }
            },
            None => None,
        };
        let recovery = until(self.recovery_deadline, now);
        let retiring: Option<Duration> = if self.retiring.len() > 0 {
            Some(WORKER_POLL_INTERVAL)
        } else {
            None
        };
        minimum_timeout(minimum_timeout(candidate, worker), minimum_timeout(recovery, retiring))
    }

    /// Takes over that a worker was spawned for a transfer, or why not.
    pub fn begin(
        &mut self,
        id: TransferId,
        role: Role,
        requested: bool,
        spawned: Result<(), TransferError>,
        report: &mut Report,
        now: Instant,
    )
        requires
            now <= LAST_INSTANT,
        ensures
            (final(self)@, final(report)@) == old(self)@.begun(
                id,
                role,
                requested,
                crate::transfer_handle::failure_view(spawned),
                old(report)@,
                now,
            ),
    {
        match spawned {
            Ok(()) => {
                self.active = Some(ActiveTransfer::new(id, role, now));
                if requested {
                    report.tell(TransferEvent::Requested { id, role }, None);
                }
            },
            Err(error) => {
                self.queue_abort(id, now);
                let event = finished_transfer(id, role, TransferOutcome::Failed(error));
                report.tell(event, None);
            },
        }
    }

    /// Routes what was read from the PTY. While a transfer is active its bytes
    /// are retained for it; while its residue is awaited nothing is shown.
    pub fn route(&mut self, bytes: &[u8], now: Instant) -> (r: Routed)
        requires
            now <= LAST_INSTANT,
        ensures
            (final(self)@, r.render@, start_view(r.start)) == routed(old(self)@, bytes@, now),
    {
        if let Some(active) = &mut self.active {
            active.retain(bytes);
            return Routed { render: Vec::new(), start: None };
        }
        if !self.enabled {
            let render: Vec<u8> = copy_range(bytes, 0, bytes.len());
            assert(render@ =~= bytes@);
            return Routed { render, start: None };
        }
        if self.recovery_deadline.is_some() {
            return Routed { render: Vec::new(), start: None };
        }
        if self.wire.len() > 0 {
            let mut render: Vec<u8> = Vec::new();
            let mut index: usize = 0;
            assert(bytes@.take(0) =~= Seq::<u8>::empty());
            // Only a validated header is suppressed while the abort is being written, never its
            // following bytes: a repeated handshake and the shell prompt may share the same read.
            while index < bytes.len()
                invariant
                    now <= LAST_INSTANT,
                    index <= bytes.len(),
                    (self@.detector, render@) == sifted(
                        old(self)@.detector,
                        bytes@.take(index as int),
                        now,
                    ),
                    self@ == (RouterView { detector: self@.detector, ..old(self)@ }),
                decreases bytes.len() - index,
            {
                let one: Vec<u8> = copy_range(bytes, index, index + 1);
                proof {
                    assert(one@ =~= seq![bytes@[index as int]]);
                    assert(bytes@.take(index + 1).drop_last() =~= bytes@.take(index as int));
                    assert(bytes@.take(index + 1).last() == bytes@[index as int]);
                }
                match self.detector.push(one.as_slice(), now) {
                    DetectorOutcome::Render(shown) => append(&mut render, shown.as_slice()),
                    DetectorOutcome::Started { render_before, .. } => append(
                        &mut render,
                        render_before.as_slice(),
                    ),
                }
                index = index + 1;
            }
            assert(bytes@.take(index as int) =~= bytes@);
            return Routed { render, start: None };
        }
        match self.detector.push(bytes, now) {
            DetectorOutcome::Render(render) => Routed { render, start: None },
            DetectorOutcome::Started { role, render_before, protocol, .. } => {
                let role = match role {
                    ZmodemRole::Upload => Role::Upload,
                    ZmodemRole::Download => Role::Download,
                };
                Routed { render: render_before, start: Some(Start { role, protocol }) }
            },
        }
    }

    /// Retains bytes for the active transfer.
    pub fn retain(&mut self, bytes: &[u8])
        ensures
            final(self)@ == match old(self)@.active {
                Some(active) => RouterView {
                    active: Some(ActiveView { retained: active.retained + bytes@, ..active }),
                    ..old(self)@
                },
                None => old(self)@,
            },
    {
        if let Some(active) = &mut self.active {
            active.retain(bytes);
        }
    }

    /// Takes over how many of the active transfer's offered bytes its worker
    /// took; whether more may be offered at once.
    pub fn note_submission(&mut self, result: Result<usize, SubmitError>) -> (r: bool)
        requires
            result matches Ok(count) ==> (old(self)@.active matches Some(active) && count
                <= active.retained.len()),
        ensures
            match (old(self)@.active, result) {
                (Some(active), Ok(count)) => {
                    &&& final(self)@ == (RouterView {
                        active: Some(
                            ActiveView { retained: active.retained.skip(count as int), ..active },
                        ),
                        ..old(self)@
                    })
                    &&& r == (count != 0)
                },
                _ => final(self)@ == old(self)@ && !r,
            },
    {
        match &mut self.active {
            Some(active) => active.note_submission(result),
            None => false,
        }
    }

    /// Discards queued protocol data and sends the abort sequence first.
    ///
    /// Dropping the pending buffers matters for a user-initiated cancel: their Ctrl-C must not
    /// be followed by the rest of a file being written into the terminal.
    pub fn queue_abort(&mut self, id: TransferId, now: Instant)
        requires
            now <= LAST_INSTANT,
        ensures
            final(self)@ == old(self)@.aborting(id, now),
    {
        self.recovery_deadline = Some(now + CANCEL_TIMEOUT);
        self.wire.clear();
        self.wire.push_back(
            TransferWriting { id, sequence: None, buffer: Writing::new(abort_sequence()) },
        );
        assert(self@.wire =~= old(self)@.aborting(id, now).wire);
    }

    /// Cancels the active transfer; whether its worker has to be cancelled.
    pub fn cancel(&mut self, now: Instant) -> (r: bool)
        requires
            now <= LAST_INSTANT,
        ensures
            (final(self)@, r) == old(self)@.cancelled(now),
    {
        let id: TransferId = match &mut self.active {
            Some(active) => {
                if active.cancel_deadline.is_some() {
                    return false;
                }
                active.set_cancel_deadline(now + CANCEL_TIMEOUT);
                active.id
            },
            None => return false,
        };
        self.queue_abort(id, now);
        true
    }

    /// Cancels the active transfer because of a failure; whether its worker has
    /// to be cancelled.
    pub fn fail(&mut self, error: TransferError, report: &mut Report, now: Instant) -> (r: bool)
        requires
            now <= LAST_INSTANT,
        ensures
            (final(self)@, final(report)@, r) == old(self)@.failed(error@, old(report)@, now),
    {
        let cancel: bool = self.cancel(now);
        if let Some(active) = &mut self.active {
            if !active.finished {
                active.set_finished(true);
                let event = finished_transfer(
                    active.id,
                    active.role,
                    TransferOutcome::Failed(error),
                );
                report.tell(event, active.meter.rate);
            }
        }
        cancel
    }

    /// Decides on a request.
    pub fn control(&mut self, control: Control, now: Instant) -> (r: (Vec<u8>, Request))
        requires
            now <= LAST_INSTANT,
        ensures
            (final(self)@, r.0@, r.1@) == controlled(old(self)@, control, now),
    {
        match control {
            Control::Enable(enabled) => {
                self.enabled = enabled;
                if enabled {
                    return (Vec::new(), Request::Nothing);
                }
                let render: Vec<u8> = self.detector.flush();
                if self.cancel(now) {
                    (render, Request::CancelWorker)
                } else {
                    (render, Request::Nothing)
                }
            },
            Control::StartUpload { id, paths } => {
                if self.enabled && !self.busy() {
                    let render: Vec<u8> = self.detector.flush();
                    (render, Request::StartUpload { id, paths })
                } else {
                    (Vec::new(), Request::Nothing)
                }
            },
            Control::Upload { id, paths } => {
                if self.awaits(id, Role::Upload, now) {
                    (Vec::new(), Request::ConfigureUpload { paths })
                } else {
                    (Vec::new(), Request::Nothing)
                }
            },
            Control::Download { id, directory, policy } => {
                if self.awaits(id, Role::Download, now) {
                    (Vec::new(), Request::ConfigureDownload { directory, policy })
                } else {
                    (Vec::new(), Request::Nothing)
                }
            },
            Control::Cancel { id } => {
                let active: bool = match &self.active {
                    Some(active) => active.id == id,
                    None => false,
                };
                if active && self.cancel(now) {
                    (Vec::new(), Request::CancelWorker)
                } else {
                    (Vec::new(), Request::Nothing)
                }
            },
        }
    }

    fn awaits(&self, id: TransferId, role: Role, now: Instant) -> (r: bool)
        ensures
            r == (self@.active matches Some(active) && active.awaits(id, role, now)),
    {
        match &self.active {
            Some(active) => active.id == id && active.role == role && !active.configured
                && active.cancel_deadline.is_none() && now < active.choice_deadline,
            None => false,
        }
    }

    /// Takes over whether the active worker accepted its configuration; whether
    /// it has to be cancelled.
    pub fn configured(
        &mut self,
        result: Result<(), TransferError>,
        report: &mut Report,
        now: Instant,
    ) -> (r: bool)
        requires
            now <= LAST_INSTANT,
        ensures
            match result {
                Ok(_) => {
                    &&& final(self)@ == (RouterView {
                        active: match old(self)@.active {
                            Some(active) => Some(ActiveView { configured: true, ..active }),
                            None => None,
                        },
                        ..old(self)@
                    })
                    &&& final(report)@ == old(report)@
                    &&& !r
                },
                Err(error) => (final(self)@, final(report)@, r) == old(self)@.failed(
                    error@,
                    old(report)@,
                    now,
                ),
            },
    {
        match result {
            Ok(()) => {
                if let Some(active) = &mut self.active {
                    active.set_configured();
                }
                false
            },
            Err(error) => self.fail(error, report, now),
        }
    }

    fn poll_retiring(&mut self, retired: Vec<Batch>, report: &mut Report)
        requires
            retired.len() == old(self)@.retiring.len(),
        ensures
            ({
                let (retiring, told) = retired_batches(
                    Seq::empty(),
                    old(report)@,
                    old(self)@.retiring,
                    batches_view(retired@),
                    0,
                    old(self)@.active is None,
                );
                &&& final(self)@ == (RouterView { retiring, ..old(self)@ })
                &&& final(report)@ == told
            }),
    {
        let ghost all = self@.retiring;
        let ghost batches = batches_view(retired@);
        let ghost before = self@;
        let visible: bool = self.active.is_none();
        let mut queue: Vec<ActiveTransfer> = Vec::new();
        std::mem::swap(&mut queue, &mut self.retiring);
        let mut retired = retired;
        let ghost mut index: int = 0;
        assert(actives_view(self.retiring@) =~= Seq::<ActiveView>::empty());
        assert(actives_view(queue@) =~= all.skip(0));
        assert(batches_view(retired@) =~= batches.skip(0));
        while queue.len() > 0
            invariant
                0 <= index <= all.len(),
                all.len() == batches.len(),
                actives_view(queue@) == all.skip(index),
                batches_view(retired@) == batches.skip(index),
                visible == (before.active is None),
                self@ == (RouterView { retiring: self@.retiring, ..before }),
                retired_batches(
                    Seq::empty(),
                    old(report)@,
                    all,
                    batches,
                    0,
                    visible,
                ) == retired_batches(
                    self@.retiring,
                    report@,
                    all,
                    batches,
                    index,
                    visible,
                ),
            decreases queue.len(),
        {
            assert(actives_view(queue@).len() == queue@.len());
            assert(all.skip(index)[0] == all[index]);
            assert(batches_view(retired@).len() == retired@.len());
            assert(batches.skip(index)[0] == batches[index]);
            let ghost left = actives_view(queue@);
            let ghost owed = batches_view(retired@);
            let mut active = queue.remove(0);
            let batch = retired.remove(0);
            proof {
                assert(actives_view(queue@) =~= left.skip(1));
                assert(left.skip(1) =~= all.skip(index + 1));
                assert(batches_view(retired@) =~= owed.skip(1));
                assert(owed.skip(1) =~= batches.skip(index + 1));
            }
            let gone: bool = batch.gone;
            drain_retired(&mut active, report, batch.outputs, visible);
            let ghost kept = self@.retiring;
            if !gone {
                let ghost view = active@;
                self.retiring.push(active);
                assert(self@.retiring =~= kept.push(view));
            } else if !active.finished {
                let event = failed_transfer(
                    active.id,
                    active.role,
                    ErrorKind::WorkerStopped,
                    "Cancelled worker stopped before reporting its result",
                );
                report.tell(event, active.meter.rate);
            }
            proof {
                index = index + 1;
            }
        }
        assert(all.skip(index).len() == 0);
    }

    fn receive(&mut self, output: RuntimeOutput, report: &mut Report, now: Instant) -> (r: bool)
        requires
            now <= LAST_INSTANT,
        ensures
            (final(self)@, final(report)@, r) == received_output(
                old(self)@,
                old(report)@,
                output@,
                now,
            ),
    {
        let (active_id, cancelled): (TransferId, bool) = match &self.active {
            Some(active) => (active.id, active.cancel_deadline.is_some()),
            None => return false,
        };
        match output {
            RuntimeOutput::Wire { id, sequence, bytes } => {
                if id == active_id && !cancelled {
                    let ghost before = self@.wire;
                    let wire = TransferWriting {
                        id,
                        sequence: Some(sequence),
                        buffer: Writing::new(bytes),
                    };
                    let ghost view = wire@;
                    self.wire.push_back(wire);
                    assert(self@.wire =~= before.push(view));
                }
                false
            },
            RuntimeOutput::Abort { id } => {
                if id == active_id && !cancelled {
                    let _ = self.cancel(now);
                }
                false
            },
            RuntimeOutput::Tail { id, bytes } => {
                if id == active_id {
                    if let Some(active) = &mut self.active {
                        active.set_tail_received();
                        active.add_tail(bytes.as_slice());
                    }
                }
                false
            },
            RuntimeOutput::Event(event) => {
                if let Some(active) = &mut self.active {
                    if active.finished {
                        return false;
                    }
                    let ended: bool = matches!(event, TransferEvent::Finished { .. });
                    if active.note_event(&event, now) {
                        report.tell(event, active.meter.rate);
                    }
                    return ended;
                }
                false
            },
        }
    }

    /// Takes the PTY back from a transfer that has ended.
    fn settle(&mut self, ended: bool, report: &mut Report, now: Instant) -> (r: Release)
        requires
            now <= LAST_INSTANT,
        ensures
            (final(self)@, final(report)@, r) == old(self)@.settled(old(report)@, ended, now),
    {
        let detach: bool = match &self.active {
            Some(active) => match active.cancel_deadline {
                Some(deadline) => now >= deadline,
                None => false,
            },
            None => return Release::Keep,
        };
        if !ended && !detach {
            return Release::Keep;
        }
        let active = match self.active.take() {
            Some(active) => active,
            None => return Release::Keep,
        };
        let cancelled: bool = active.cancel_deadline.is_some();
        if cancelled {
            self.recovery_deadline = Some(now + CANCEL_TIMEOUT);
        }
        if !ended && !active.finished {
            // Cancellation cannot interrupt a blocked OS operation. Keep receiving its
            // ordered results after releasing the PTY, rather than guessing whether an
            // already-started atomic file publication committed. Live workers are capped
            // globally by the runtime, including these retiring handles.
            let ghost before = self@.retiring;
            let ghost view = active@;
            self.retiring.push(active);
            assert(self@.retiring =~= before.push(view));
            return Release::Retire;
        }
        if !active.finished {
            let event = if cancelled {
                finished_transfer(active.id, active.role, TransferOutcome::Cancelled)
            } else {
                failed_transfer(
                    active.id,
                    active.role,
                    ErrorKind::WorkerStopped,
                    "Transfer worker stopped",
                )
            };
            report.tell(event, active.meter.rate);
            self.queue_abort(active.id, now);
        }
        if !cancelled {
            report.show(active.tail.as_slice());
            if active.completed || active.tail_received {
                report.show(active.retained.as_slice());
            }
        }
        Release::Drop
    }

    fn drop_unnumbered(&mut self)
        ensures
            final(self)@ == (RouterView { wire: numbered_wires(old(self)@.wire), ..old(self)@ }),
    {
        let ghost all = self@.wire;
        let ghost before = self@;
        let mut queue: VecDeque<TransferWriting> = VecDeque::new();
        std::mem::swap(&mut queue, &mut self.wire);
        let ghost mut index: int = 0;
        assert(wires_view(self.wire@) =~= numbered_wires(all.take(0))) by {
            assert(all.take(0) =~= Seq::<WireView>::empty());
            reveal(Seq::filter);
        }
        assert(wires_view(queue@) =~= all.skip(0));
        while queue.len() > 0
            invariant
                0 <= index <= all.len(),
                wires_view(queue@) == all.skip(index),
                self@.wire == numbered_wires(all.take(index)),
                self@ == (RouterView { wire: self@.wire, ..before }),
            decreases queue.len(),
        {
            assert(wires_view(queue@).len() == queue@.len());
            assert(all.skip(index)[0] == all[index]);
            let ghost kept = self@.wire;
            let ghost left = wires_view(queue@);
            if let Some(wire) = queue.pop_front() {
                proof {
                    assert(wires_view(queue@) =~= left.skip(1));
                    assert(left.skip(1) =~= all.skip(index + 1));
                    assert(all.take(index + 1).drop_last() =~= all.take(index));
                    assert(all.take(index + 1).last() == all[index]);
                    reveal(Seq::filter);
                }
                let ghost view = wire@;
                if wire.sequence.is_some() {
                    self.wire.push_back(wire);
                    assert(self@.wire =~= kept.push(view));
                }
                assert(self@.wire == numbered_wires(all.take(index + 1)));
            }
            proof {
                index = index + 1;
            }
        }
        assert(all.take(index) =~= all);
    }

    /// One turn: `retired` holds what was received from each retiring worker in
    /// their order, `batch` what was received from the active one.
    pub fn poll(&mut self, retired: Vec<Batch>, batch: Batch, now: Instant) -> (r: Polled)
        requires
            now <= LAST_INSTANT,
            retired.len() == old(self)@.retiring.len(),
        ensures
            (final(self)@, r.report@, r.cancel_worker, r.release) == old(self)@.polled(
                batches_view(retired@),
                batch@,
                now,
            ),
    {
        let mut report = Report::new();
        let expired: Vec<u8> = self.detector.expire(now);
        report.show(expired.as_slice());
        assert(report@ == old(self)@.detector_expired(now).1) by {
            assert(report@.render =~= old(self)@.detector_expired(now).1.render);
        }
        self.poll_retiring(retired, &mut report);
        let recovered: bool = match self.recovery_deadline {
            Some(deadline) => now >= deadline,
            None => false,
        };
        if recovered {
            self.recovery_deadline = None;
            let held: Vec<u8> = self.detector.flush();
            report.show(held.as_slice());
            if self.active.is_none() {
                self.drop_unnumbered();
            }
        }
        let choice_expired: bool = match &self.active {
            Some(active) => !active.configured && !active.finished && now
                >= active.choice_deadline,
            None => false,
        };
        let cancel_worker: bool = if choice_expired {
            self.fail(
                crate::zmodem_runtime::error(ErrorKind::Timeout, "File selection timed out"),
                &mut report,
                now,
            )
        } else {
            false
        };
        let ended: bool = if self.active.is_some() {
            self.receive_all(batch, &mut report, now)
        } else {
            false
        };
        let release = self.settle(ended, &mut report, now);
        Polled { report, cancel_worker, release }
    }

    fn receive_all(&mut self, batch: Batch, report: &mut Report, now: Instant) -> (r: bool)
        requires
            now <= LAST_INSTANT,
        ensures
            (final(self)@, final(report)@, r) == received_outputs(
                old(self)@,
                old(report)@,
                batch@,
                0,
                now,
            ),
    {
        let ghost view = batch@;
        let gone: bool = batch.gone;
        let mut outputs = batch.outputs;
        let ghost mut index: int = 0;
        assert(outputs_view(outputs@) =~= view.outputs.skip(0));
        while outputs.len() > 0
            invariant
                now <= LAST_INSTANT,
                gone == view.gone,
                0 <= index <= view.outputs.len(),
                outputs_view(outputs@) == view.outputs.skip(index),
                received_outputs(old(self)@, old(report)@, view, 0, now) == received_outputs(
                    self@,
                    report@,
                    view,
                    index,
                    now,
                ),
                view == batch@,
            decreases outputs.len(),
        {
            assert(outputs_view(outputs@).len() == outputs@.len());
            assert(view.outputs.skip(index)[0] == view.outputs[index]);
            let ghost left = outputs_view(outputs@);
            let output = outputs.remove(0);
            assert(outputs_view(outputs@) =~= left.skip(1));
            assert(left.skip(1) =~= view.outputs.skip(index + 1));
            if self.receive(output, report, now) {
                return true;
            }
            proof {
                index = index + 1;
            }
        }
        assert(view.outputs.skip(index).len() == 0);
        gone
    }

    /// The protocol buffer to be written next.
    pub fn front_wire(&mut self) -> (r: Option<TransferWriting>)
        ensures
            match r {
                Some(wire) => old(self)@.wire.len() > 0 && wire@ == old(self)@.wire[0]
                    && final(self)@ == (RouterView {
                    wire: old(self)@.wire.skip(1),
                    ..old(self)@
                }),
                None => old(self)@.wire.len() == 0 && final(self)@ == old(self)@,
            },
    {
        let wire = self.wire.pop_front();
        proof {
            if old(self)@.wire.len() > 0 {
                assert(self@.wire =~= old(self)@.wire.skip(1));
            }
        }
        wire
    }

    /// Takes a protocol buffer back after a write. One that is not finished
    /// stays first in line. The number of a finished one is returned if the
    /// active worker waits for it; the end of an abort renews the recovery.
    pub fn wrote(&mut self, wire: TransferWriting, now: Instant) -> (r: Option<u64>)
        requires
            now <= LAST_INSTANT,
        ensures
            ({
                let view = wire@;
                if view.rest.len() > 0 {
                    final(self)@ == (RouterView {
                        wire: seq![view] + old(self)@.wire,
                        ..old(self)@
                    }) && r is None
                } else if view.sequence is None {
                    final(self)@ == (RouterView {
                        recovery_deadline: Some((now + CANCEL_TIMEOUT) as u64),
                        ..old(self)@
                    }) && r is None
                } else {
                    final(self)@ == old(self)@ && r == match old(self)@.active {
                        Some(active) if active.id == view.id => view.sequence,
                        _ => None,
                    }
                }
            }),
    {
        if !wire.buffer.finished() {
            let ghost view = wire@;
            self.wire.push_front(wire);
            assert(self@.wire =~= seq![view] + old(self)@.wire);
            return None;
        }
        if wire.sequence.is_none() {
            self.recovery_deadline = Some(now + CANCEL_TIMEOUT);
            return None;
        }
        match &self.active {
            Some(active) => {
                if active.id == wire.id {
                    wire.sequence
                } else {
                    None
                }
            },
            None => None,
        }
    }

    /// Gives out what the detector retained.
    pub fn flush(&mut self) -> (r: Vec<u8>)
        ensures
            r@ == old(self)@.detector.pending,
            final(self)@ == (RouterView { detector: DetectorView::idle(), ..old(self)@ }),
    {
        self.detector.flush()
    }

    /// Lets go of every transfer.
    pub fn release_all(&mut self)
        ensures
            final(self)@ == (RouterView { active: None, retiring: Seq::empty(), ..old(self)@ }),
    {
        self.active = None;
        self.retiring.clear();
        assert(self@.retiring =~= Seq::<ActiveView>::empty());
    }
}

fn drain_retired(
    active: &mut ActiveTransfer,
    report: &mut Report,
    outputs: Vec<RuntimeOutput>,
    visible: bool,
)
    ensures
        (final(active)@, final(report)@) == retired_outputs(
            old(active)@,
            old(report)@,
            outputs_view(outputs@),
            0,
            visible,
        ),
{
    let ghost all = outputs_view(outputs@);
    let mut outputs = outputs;
    let ghost mut index: int = 0;
    assert(outputs_view(outputs@) =~= all.skip(0));
    while outputs.len() > 0
        invariant
            0 <= index <= all.len(),
            outputs_view(outputs@) == all.skip(index),
            retired_outputs(old(active)@, old(report)@, all, 0, visible) == retired_outputs(
                active@,
                report@,
                all,
                index,
                visible,
            ),
        decreases outputs.len(),
    {
        assert(outputs_view(outputs@).len() == outputs@.len());
        assert(all.skip(index)[0] == all[index]);
        let ghost left = outputs_view(outputs@);
        let output = outputs.remove(0);
        assert(outputs_view(outputs@) =~= left.skip(1));
        assert(left.skip(1) =~= all.skip(index + 1));
        active.note_retired(report, output, visible);
        proof {
            index = index + 1;
        }
    }
    assert(all.skip(index).len() == 0);
}

/// A disabled router without a transfer passes every byte on unchanged.
pub proof fn law_disabled_router_is_transparent(router: RouterView, bytes: Seq<u8>, now: Instant)
    requires
        router.active is None,
        !router.enabled,
    ensures
        routed(router, bytes, now) == (router, bytes, None::<(Role, Seq<u8>)>),
{
}

/// After an abort nothing of the transfer's residue reaches the screen and no
/// transfer starts until the recovery is over.
pub proof fn law_recovery_shows_nothing(router: RouterView, id: TransferId, bytes: Seq<u8>, now: Instant)
    requires
        router.active is None,
        router.enabled,
    ensures
        ({
            let aborted = router.aborting(id, now);
            routed(aborted, bytes, now) == (
                aborted,
                Seq::<u8>::empty(),
                None::<(Role, Seq<u8>)>,
            )
        }),
{
}

/// While a transfer is active every byte is its own: nothing is shown, no
/// other transfer starts, and the bytes are retained in order.
pub proof fn law_active_transfer_owns_every_byte(router: RouterView, bytes: Seq<u8>, now: Instant)
    requires
        router.active is Some,
    ensures
        ({
            let (next, shown, start) = routed(router, bytes, now);
            &&& shown.len() == 0
            &&& start is None
            &&& next.active matches Some(active)
            &&& active.retained == (router.active->0).retained + bytes
        }),
{
}

/// A reader that keeps to the capacity never makes a transfer retain more than
/// the limit.
pub proof fn law_retained_input_is_bounded(router: RouterView, bytes: Seq<u8>, now: Instant)
    requires
        router.active matches Some(active) && active.retained.len() <= MAX_RETAINED_INPUT,
        bytes.len() <= router.read_capacity(),
    ensures
        routed(router, bytes, now).0.active matches Some(active) && active.retained.len()
            <= MAX_RETAINED_INPUT,
{
}

/// Cancelling replaces every queued protocol byte by the abort sequence, and a
/// second cancellation changes nothing.
pub proof fn law_cancellation_replaces_queued_data(router: RouterView, now: Instant, later: Instant)
    requires
        router.active matches Some(active) && active.cancel_deadline is None,
    ensures
        router.cancelled(now).1,
        router.cancelled(now).0.wire == seq![
            WireView {
                id: (router.active->0).id,
                sequence: None,
                rest: cancel_bytes(),
            },
        ],
        router.cancelled(now).0.cancelled(later) == (router.cancelled(now).0, false),
{
}

/// A selection that arrives without its transfer, or after its deadline, arms
/// nothing.
pub proof fn law_late_selection_changes_nothing(
    router: RouterView,
    id: TransferId,
    paths: Vec<PathBytes>,
    now: Instant,
)
    requires
        router.active matches Some(active) ==> active.id != id || now >= active.choice_deadline,
    ensures
        controlled(router, Control::Upload { id, paths }, now) == (
            router,
            Seq::<u8>::empty(),
            RequestView::Nothing,
        ),
{
}

/// Once the end of a transfer was reported, nothing more is shown or reported
/// for it, whatever its worker still puts out.
pub proof fn law_nothing_is_reported_after_the_end(
    router: RouterView,
    report: ReportView,
    batch: BatchView,
    from: int,
    now: Instant,
)
    requires
        router.active matches Some(active) && active.finished,
        0 <= from,
    ensures
        received_outputs(router, report, batch, from, now).1 == report,
    decreases batch.outputs.len() - from,
{
    if from < batch.outputs.len() {
        let (next, told, ended) = received_output(router, report, batch.outputs[from], now);
        law_nothing_is_reported_after_the_end(next, told, batch, from + 1, now);
    }
}

/// Wire bytes of a cancelled transfer never reach the PTY: whatever its worker
/// puts out, the queue stays as the cancellation left it.
pub proof fn law_cancelled_transfer_writes_nothing(
    router: RouterView,
    report: ReportView,
    batch: BatchView,
    from: int,
    now: Instant,
)
    requires
        router.active matches Some(active) && active.cancel_deadline is Some,
        0 <= from,
    ensures
        received_outputs(router, report, batch, from, now).0.wire == router.wire,
    decreases batch.outputs.len() - from,
{
    if from < batch.outputs.len() {
        let (next, told, ended) = received_output(router, report, batch.outputs[from], now);
        if !ended {
            law_cancelled_transfer_writes_nothing(next, told, batch, from + 1, now);
        }
    }
}

/// Without a retiring transfer, a running deadline or an active transfer, a
/// turn shows and changes nothing.
pub proof fn law_idle_router_is_silent(router: RouterView, batch: BatchView, now: Instant)
    requires
        router.active is None,
        router.retiring.len() == 0,
        router.recovery_deadline is None,
        router.detector.deadline is None,
    ensures
        router.polled(Seq::empty(), batch, now) == (
            router,
            ReportView::nothing(),
            false,
            Release::Keep,
        ),
{
    assert(router.retiring =~= Seq::<ActiveView>::empty());
}

/// What a worker gave back for the screen, in order.
pub open spec fn given_back(id: TransferId, outputs: Seq<RuntimeOutputView>) -> Seq<u8>
    decreases outputs.len(),
{
    if outputs.len() == 0 {
        Seq::empty()
    } else {
        let before = given_back(id, outputs.drop_last());
        match outputs.last() {
            RuntimeOutputView::Tail { id: from, bytes } => if from == id {
                before + bytes
            } else {
                before
            },
            _ => before,
        }
    }
}

/// The buffers that a worker wants to be written, in order.
pub open spec fn wanted(id: TransferId, outputs: Seq<RuntimeOutputView>) -> Seq<WireView>
    decreases outputs.len(),
{
    if outputs.len() == 0 {
        Seq::empty()
    } else {
        let before = wanted(id, outputs.drop_last());
        match outputs.last() {
            RuntimeOutputView::Wire { id: from, sequence, bytes } => if from == id {
                before.push(WireView { id, sequence: Some(sequence), rest: bytes })
            } else {
                before
            },
            _ => before,
        }
    }
}

/// The events of a worker, in order, but for those of its progress.
pub open spec fn news(outputs: Seq<RuntimeOutputView>) -> Seq<TransferEventView>
    decreases outputs.len(),
{
    if outputs.len() == 0 {
        Seq::empty()
    } else {
        let before = news(outputs.drop_last());
        match outputs.last() {
            RuntimeOutputView::Event(event) => if event is Progress {
                before
            } else {
                before.push(event)
            },
            _ => before,
        }
    }
}

/// The events but for those of progress.
pub open spec fn without_progress(events: Seq<TransferEventView>) -> Seq<TransferEventView>
    decreases events.len(),
{
    if events.len() == 0 {
        Seq::empty()
    } else if events.last() is Progress {
        without_progress(events.drop_last())
    } else {
        without_progress(events.drop_last()).push(events.last())
    }
}

/// The worker of `id` neither ended nor asked for an abort.
pub open spec fn works_on(id: TransferId, outputs: Seq<RuntimeOutputView>) -> bool {
    forall|i: int|
        0 <= i < outputs.len() ==> match #[trigger] outputs[i] {
            RuntimeOutputView::Abort { id: from } => from != id,
            RuntimeOutputView::Event(event) => !(event is Finished),
            _ => true,
        }
}

/// One of the outputs gives bytes back.
pub open spec fn gives_back(id: TransferId, outputs: Seq<RuntimeOutputView>) -> bool {
    exists|i: int|
        0 <= i < outputs.len() && (#[trigger] outputs[i] matches RuntimeOutputView::Tail {
            id: from,
            ..
        } && from == id)
}

/// The transfer has the PTY, goes on, and is not waited for in vain.
pub open spec fn is_running(router: RouterView, now: Instant) -> bool {
    router.active matches Some(active) && active.cancel_deadline is None && !active.finished && (
    active.configured || now < active.choice_deadline)
}

/// The screen ends with these bytes.
pub open spec fn shows_last(render: Seq<u8>, bytes: Seq<u8>) -> bool {
    exists|before: Seq<u8>| render == #[trigger] (before + bytes)
}

/// The transfer that has the PTY, whatever it has shown and measured.
spec fn same_transfer(a: ActiveView, b: ActiveView) -> bool {
    &&& a.id == b.id
    &&& a.role == b.role
    &&& a.configured == b.configured
    &&& a.choice_deadline == b.choice_deadline
    &&& a.cancel_deadline == b.cancel_deadline
    &&& a.retained == b.retained
    &&& a.completed == b.completed
    &&& a.finished == b.finished
}

spec fn extends<T>(all: Seq<T>, first: Seq<T>) -> bool {
    all.len() >= first.len() && all.take(first.len() as int) == first
}

/// The part of a turn in which a worker goes on.
#[verifier::rlimit(60)]
#[verifier::spinoff_prover]
proof fn lemma_received(
    router: RouterView,
    report: ReportView,
    batch: BatchView,
    to: int,
    now: Instant,
)
    requires
        0 <= to <= batch.outputs.len(),
        router.active matches Some(active) && !active.finished,
        works_on((router.active->0).id, batch.outputs.take(to)),
    ensures
        ({
            let active = router.active->0;
            let outputs = batch.outputs.take(to);
            exists|next: RouterView, told: ReportView|
                {
                    &&& #[trigger] received_outputs(router, report, batch, 0, now)
                        == #[trigger] received_outputs(next, told, batch, to, now)
                    &&& next == (RouterView { active: next.active, wire: next.wire, ..router })
                    &&& next.active matches Some(after)
                    &&& same_transfer(active, after)
                    &&& after.tail == active.tail + given_back(active.id, outputs)
                    &&& after.tail_received == (active.tail_received || gives_back(
                        active.id,
                        outputs,
                    ))
                    &&& next.wire == (if active.cancel_deadline is None {
                        router.wire + wanted(active.id, outputs)
                    } else {
                        router.wire
                    })
                    &&& extends(told.render, report.render)
                    &&& without_progress(told.events) == without_progress(report.events) + news(
                        outputs,
                    )
                }
        }),
    decreases to,
{
    let active = router.active->0;
    let outputs = batch.outputs.take(to);
    if to == 0 {
        assert(outputs =~= Seq::empty());
        assert(active.tail + given_back(active.id, outputs) =~= active.tail);
        assert(router.wire + wanted(active.id, outputs) =~= router.wire);
        assert(report.render.take(report.render.len() as int) =~= report.render);
        assert(without_progress(report.events) + news(outputs) =~= without_progress(report.events));
        assert(received_outputs(router, report, batch, 0, now) == received_outputs(
            router,
            report,
            batch,
            to,
            now,
        ));
    } else {
        let before = batch.outputs.take(to - 1);
        assert(outputs.drop_last() =~= before);
        assert forall|i: int| 0 <= i < before.len() implies match #[trigger] before[i] {
            RuntimeOutputView::Abort { id: from } => from != active.id,
            RuntimeOutputView::Event(event) => !(event is Finished),
            _ => true,
        } by {
            assert(outputs[i] == before[i]);
        }
        lemma_received(router, report, batch, to - 1, now);
        let (next, told) = choose|next: RouterView, told: ReportView|
            {
                &&& #[trigger] received_outputs(router, report, batch, 0, now)
                    == #[trigger] received_outputs(next, told, batch, to - 1, now)
                &&& next == (RouterView { active: next.active, wire: next.wire, ..router })
                &&& next.active matches Some(after)
                &&& same_transfer(active, after)
                &&& after.tail == active.tail + given_back(active.id, before)
                &&& after.tail_received == (active.tail_received || gives_back(active.id, before))
                &&& next.wire == (if active.cancel_deadline is None {
                    router.wire + wanted(active.id, before)
                } else {
                    router.wire
                })
                &&& extends(told.render, report.render)
                &&& without_progress(told.events) == without_progress(report.events) + news(before)
            };
        let output = batch.outputs[to - 1];
        assert(outputs.last() == output);
        assert(outputs[to - 1] == output);
        let (after, heard, ended) = received_output(next, told, output, now);
        assert(!ended);
        assert(received_outputs(next, told, batch, to - 1, now) == received_outputs(
            after,
            heard,
            batch,
            to,
            now,
        ));
        lemma_gives_back(active.id, outputs);
        match output {
            RuntimeOutputView::Tail { id, bytes } => {
                assert((active.tail + given_back(active.id, before)) + bytes =~= active.tail + (
                given_back(active.id, before) + bytes));
            },
            RuntimeOutputView::Wire { id, sequence, bytes } => {
                let wire = WireView { id: active.id, sequence: Some(sequence), rest: bytes };
                assert((router.wire + wanted(active.id, before)).push(wire) =~= router.wire
                    + wanted(active.id, before).push(wire));
            },
            RuntimeOutputView::Event(event) => {
                assert(told.events.push(event).drop_last() =~= told.events);
                assert((without_progress(report.events) + news(before)).push(event)
                    =~= without_progress(report.events) + news(before).push(event));
                assert(heard.render.take(report.render.len() as int) =~= told.render.take(
                    report.render.len() as int,
                ));
            },
            _ => {},
        }
        assert(same_transfer(active, after.active->0));
    }
}

proof fn lemma_gives_back(id: TransferId, outputs: Seq<RuntimeOutputView>)
    requires
        outputs.len() > 0,
    ensures
        gives_back(id, outputs) == (gives_back(id, outputs.drop_last()) || (
        outputs.last() matches RuntimeOutputView::Tail { id: from, .. } && from == id)),
{
    let before = outputs.drop_last();
    if gives_back(id, before) {
        let i = choose|i: int|
            0 <= i < before.len() && (#[trigger] before[i] matches RuntimeOutputView::Tail {
                id: from,
                ..
            } && from == id);
        assert(outputs[i] == before[i]);
    }
    if gives_back(id, outputs) {
        let i = choose|i: int|
            0 <= i < outputs.len() && (#[trigger] outputs[i] matches RuntimeOutputView::Tail {
                id: from,
                ..
            } && from == id);
        if i < before.len() {
            assert(before[i] == outputs[i]);
        }
    }
    assert(outputs[outputs.len() - 1] == outputs.last());
}

/// The router and the report of a turn, before the worker is heard.
spec fn turn_start(router: RouterView, retired: Seq<BatchView>, now: Instant) -> (
    RouterView,
    ReportView,
) {
    let (first, report) = router.detector_expired(now);
    let (retiring, report) = retired_batches(
        Seq::empty(),
        report,
        router.retiring,
        retired,
        0,
        router.active is None,
    );
    (RouterView { retiring, ..first }).recovered(report, now)
}

proof fn lemma_shows_last(before: Seq<u8>, bytes: Seq<u8>, more: Seq<u8>)
    ensures
        shows_last(before + bytes, bytes),
        shows_last(before + bytes + more, bytes + more),
{
    assert(before + bytes + more =~= before + (bytes + more));
}

/// The worker's outputs in a turn, the last of which is its end.
pub open spec fn ends_with_outcome(
    id: TransferId,
    outputs: Seq<RuntimeOutputView>,
    event: TransferEventView,
) -> bool {
    &&& outputs.len() > 0
    &&& outputs.last() == RuntimeOutputView::Event(event)
    &&& event is Finished
    &&& works_on(id, outputs.drop_last())
}

#[verifier::rlimit(40)]
#[verifier::spinoff_prover]
proof fn lemma_ended_turn(
    router: RouterView,
    retired: Seq<BatchView>,
    batch: BatchView,
    event: TransferEventView,
    now: Instant,
)
    requires
        is_running(router, now),
        ends_with_outcome((router.active->0).id, batch.outputs, event),
    ensures
        ({
            let (next, report, cancel, release) = router.polled(retired, batch, now);
            let active = router.active->0;
            let tail = active.tail + given_back(active.id, batch.outputs);
            let (start, first) = turn_start(router, retired, now);
            &&& next.active is None
            &&& release is Drop
            &&& !cancel
            &&& report.events.len() > 0
            &&& report.events.last() == event
            &&& shows_last(
                report.render,
                if event->Finished_outcome is Completed || active.tail_received || gives_back(
                    active.id,
                    batch.outputs,
                ) {
                    tail + active.retained
                } else {
                    tail
                },
            )
            &&& next.wire == router.wire + wanted(active.id, batch.outputs)
            &&& next.recovery_deadline == start.recovery_deadline
            &&& next.retiring == start.retiring
        }),
{
    let active = router.active->0;
    let (start, first) = turn_start(router, retired, now);
    let to = batch.outputs.len() - 1;
    let before = batch.outputs.take(to);
    assert(batch.outputs.drop_last() =~= before);
    lemma_received(start, first, batch, to, now);
    let (next, told) = choose|next: RouterView, told: ReportView|
        {
            &&& #[trigger] received_outputs(start, first, batch, 0, now)
                == #[trigger] received_outputs(next, told, batch, to, now)
            &&& next == (RouterView { active: next.active, wire: next.wire, ..start })
            &&& next.active matches Some(after)
            &&& same_transfer(active, after)
            &&& after.tail == active.tail + given_back(active.id, before)
            &&& after.tail_received == (active.tail_received || gives_back(active.id, before))
            &&& next.wire == (if active.cancel_deadline is None {
                start.wire + wanted(active.id, before)
            } else {
                start.wire
            })
            &&& extends(told.render, first.render)
            &&& without_progress(told.events) == without_progress(first.events) + news(before)
        };
    lemma_gives_back(active.id, batch.outputs);
    let (heard, last, ended) = received_output(next, told, batch.outputs[to], now);
    assert(ended);
    assert(received_outputs(next, told, batch, to, now) == (heard, last, true));
    let tail = active.tail + given_back(active.id, batch.outputs);
    assert((heard.active->0).tail == tail);
    lemma_shows_last(last.render, tail, active.retained);
}

/// No byte of a completed transfer is lost: where a transfer that was not
/// cancelled ends well, the turn shows last what its worker gave back and then
/// everything that was read for it and not taken, whether or not the worker
/// gave anything back.
pub proof fn law_completed_transfers_give_everything_back(
    router: RouterView,
    retired: Seq<BatchView>,
    batch: BatchView,
    event: TransferEventView,
    now: Instant,
)
    requires
        is_running(router, now),
        ends_with_outcome((router.active->0).id, batch.outputs, event),
        event->Finished_outcome is Completed,
    ensures
        ({
            let (next, report, cancel, release) = router.polled(retired, batch, now);
            let active = router.active->0;
            &&& shows_last(
                report.render,
                active.tail + given_back(active.id, batch.outputs) + active.retained,
            )
            &&& next.active is None
            &&& release is Drop
        }),
{
    lemma_ended_turn(router, retired, batch, event, now);
}

/// The end of a transfer is the last event of its turn, and frees the PTY;
/// what its worker wanted to be written stays queued.
pub proof fn law_the_end_frees_the_screen(
    router: RouterView,
    retired: Seq<BatchView>,
    batch: BatchView,
    event: TransferEventView,
    now: Instant,
)
    requires
        is_running(router, now),
        ends_with_outcome((router.active->0).id, batch.outputs, event),
    ensures
        ({
            let (next, report, cancel, release) = router.polled(retired, batch, now);
            let active = router.active->0;
            &&& next.active is None
            &&& release is Drop
            &&& !cancel
            &&& report.events.len() > 0 && report.events.last() == event
            &&& next.wire == router.wire + wanted(active.id, batch.outputs)
            &&& active.tail_received || gives_back(active.id, batch.outputs) ==> shows_last(
                report.render,
                active.tail + given_back(active.id, batch.outputs) + active.retained,
            )
        }),
{
    lemma_ended_turn(router, retired, batch, event, now);
}

/// The same router, whose transfer has other bytes in hand.
pub open spec fn holding(router: RouterView, tail: Seq<u8>, retained: Seq<u8>) -> RouterView {
    match router.active {
        Some(active) => RouterView {
            active: Some(ActiveView { tail, retained, ..active }),
            ..router
        },
        None => router,
    }
}

proof fn lemma_held_bytes_are_not_told(
    router: RouterView,
    tail: Seq<u8>,
    retained: Seq<u8>,
    report: ReportView,
    batch: BatchView,
    from: int,
    now: Instant,
)
    requires
        router.active is Some,
        0 <= from,
    ensures
        ({
            let (a, told, ended) = received_outputs(router, report, batch, from, now);
            let other = holding(router, tail, retained);
            let (b, heard, over) = received_outputs(other, report, batch, from, now);
            &&& told == heard
            &&& ended == over
            &&& a.active is Some
            &&& (a.active->0).retained == (router.active->0).retained
            &&& b.active matches Some(after) && after.retained == retained && b == holding(
                a,
                after.tail,
                retained,
            )
            &&& tail == (router.active->0).tail ==> (b.active->0).tail == (a.active->0).tail
        }),
    decreases batch.outputs.len() - from,
{
    if from < batch.outputs.len() {
        let (next, told, ended) = received_output(router, report, batch.outputs[from], now);
        let other = holding(router, tail, retained);
        let (other_next, other_told, other_ended) = received_output(
            other,
            report,
            batch.outputs[from],
            now,
        );
        assert(other_next == holding(next, (other_next.active->0).tail, retained));
        if !ended {
            lemma_held_bytes_are_not_told(
                next,
                (other_next.active->0).tail,
                retained,
                told,
                batch,
                from + 1,
                now,
            );
        }
    }
}

/// Nothing that was read for a cancelled transfer is shown: whatever it has in
/// hand, a turn shows and reports the same.
pub proof fn law_cancelled_transfers_show_nothing(
    router: RouterView,
    tail: Seq<u8>,
    retained: Seq<u8>,
    retired: Seq<BatchView>,
    batch: BatchView,
    now: Instant,
)
    requires
        router.active matches Some(active) && active.cancel_deadline is Some,
    ensures
        router.polled(retired, batch, now).1 == holding(router, tail, retained).polled(
            retired,
            batch,
            now,
        ).1,
{
    let (start, first) = turn_start(router, retired, now);
    let (after, report, _) = start.choice_expired(first, now);
    assert(holding(start, tail, retained).choice_expired(first, now).0 == holding(
        after,
        tail,
        retained,
    ));
    lemma_held_bytes_are_not_told(after, tail, retained, report, batch, 0, now);
    lemma_cancelled_stays(after, report, batch, 0, now);
}

proof fn lemma_cancelled_stays(
    router: RouterView,
    report: ReportView,
    batch: BatchView,
    from: int,
    now: Instant,
)
    requires
        router.active matches Some(active) && active.cancel_deadline is Some,
        0 <= from,
    ensures
        received_outputs(router, report, batch, from, now).0.active matches Some(active)
            && active.cancel_deadline == (router.active->0).cancel_deadline,
    decreases batch.outputs.len() - from,
{
    if from < batch.outputs.len() {
        let (next, told, ended) = received_output(router, report, batch.outputs[from], now);
        if !ended {
            lemma_cancelled_stays(next, told, batch, from + 1, now);
        }
    }
}

/// Of a transfer that failed before its worker gave anything back, the bytes
/// that were read for it are not shown: the turn is the same whatever they
/// are.
pub proof fn law_failed_transfers_keep_their_input(
    router: RouterView,
    retained: Seq<u8>,
    retired: Seq<BatchView>,
    batch: BatchView,
    event: TransferEventView,
    now: Instant,
)
    requires
        is_running(router, now),
        ends_with_outcome((router.active->0).id, batch.outputs, event),
        !(event->Finished_outcome is Completed),
        !(router.active->0).completed,
        !(router.active->0).tail_received,
        !gives_back((router.active->0).id, batch.outputs),
    ensures
        ({
            let report = router.polled(retired, batch, now).1;
            let other = holding(router, (router.active->0).tail, retained);
            &&& report == other.polled(retired, batch, now).1
            &&& shows_last(report.render, (router.active->0).tail)
        }),
{
    let active = router.active->0;
    let other = holding(router, active.tail, retained);
    lemma_ended_turn(router, retired, batch, event, now);
    lemma_ended_turn(other, retired, batch, event, now);
    let (start, first) = turn_start(router, retired, now);
    lemma_held_bytes_are_not_told(start, active.tail, retained, first, batch, 0, now);
    lemma_end_state(start, first, batch, event, now);
    lemma_no_tail(active.id, batch.outputs);
    assert(active.tail + given_back(active.id, batch.outputs) =~= active.tail);
}

proof fn lemma_no_tail(id: TransferId, outputs: Seq<RuntimeOutputView>)
    requires
        !gives_back(id, outputs),
    ensures
        given_back(id, outputs).len() == 0,
    decreases outputs.len(),
{
    if outputs.len() > 0 {
        lemma_gives_back(id, outputs);
        lemma_no_tail(id, outputs.drop_last());
    }
}

proof fn lemma_end_state(
    start: RouterView,
    first: ReportView,
    batch: BatchView,
    event: TransferEventView,
    now: Instant,
)
    requires
        start.active matches Some(active) && active.cancel_deadline is None && !active.finished,
        ends_with_outcome((start.active->0).id, batch.outputs, event),
    ensures
        ({
            let (heard, last, ended) = received_outputs(start, first, batch, 0, now);
            &&& ended
            &&& heard.active matches Some(after)
            &&& after.finished
            &&& after.cancel_deadline is None
            &&& after.completed == (event->Finished_outcome is Completed)
            &&& after.tail_received == ((start.active->0).tail_received || gives_back(
                (start.active->0).id,
                batch.outputs,
            ))
        }),
{
    let active = start.active->0;
    let to = batch.outputs.len() - 1;
    let before = batch.outputs.take(to);
    assert(batch.outputs.drop_last() =~= before);
    lemma_received(start, first, batch, to, now);
    let (next, told) = choose|next: RouterView, told: ReportView|
        {
            &&& #[trigger] received_outputs(start, first, batch, 0, now)
                == #[trigger] received_outputs(next, told, batch, to, now)
            &&& next == (RouterView { active: next.active, wire: next.wire, ..start })
            &&& next.active matches Some(after)
            &&& same_transfer(active, after)
            &&& after.tail == active.tail + given_back(active.id, before)
            &&& after.tail_received == (active.tail_received || gives_back(active.id, before))
            &&& next.wire == (if active.cancel_deadline is None {
                start.wire + wanted(active.id, before)
            } else {
                start.wire
            })
            &&& extends(told.render, first.render)
            &&& without_progress(told.events) == without_progress(first.events) + news(before)
        };
    lemma_gives_back(active.id, batch.outputs);
    let (heard, last, ended) = received_output(next, told, batch.outputs[to], now);
    assert(ended);
}

proof fn lemma_all_received(
    start: RouterView,
    first: ReportView,
    batch: BatchView,
    now: Instant,
)
    requires
        start.active matches Some(active) && !active.finished,
        works_on((start.active->0).id, batch.outputs),
    ensures
        ({
            let active = start.active->0;
            let (next, told, ended) = received_outputs(start, first, batch, 0, now);
            &&& ended == batch.gone
            &&& next == (RouterView { active: next.active, wire: next.wire, ..start })
            &&& next.active matches Some(after)
            &&& same_transfer(active, after)
            &&& after.tail == active.tail + given_back(active.id, batch.outputs)
            &&& after.tail_received == (active.tail_received || gives_back(
                active.id,
                batch.outputs,
            ))
            &&& next.wire == (if active.cancel_deadline is None {
                start.wire + wanted(active.id, batch.outputs)
            } else {
                start.wire
            })
            &&& extends(told.render, first.render)
            &&& without_progress(told.events) == without_progress(first.events) + news(
                batch.outputs,
            )
        }),
{
    let to = batch.outputs.len() as int;
    assert(batch.outputs.take(to) =~= batch.outputs);
    lemma_received(start, first, batch, to, now);
}

/// The events end with these, whatever was told of progress.
pub open spec fn tells_last(events: Seq<TransferEventView>, last: Seq<TransferEventView>) -> bool {
    exists|before: Seq<TransferEventView>| without_progress(events) == #[trigger] (before + last)
}

/// While its worker goes on, a transfer keeps the PTY: the worker's buffers
/// are queued in order, what it gives back and what was read stays in hand,
/// and everything that it tells is reported in order, but for progress that
/// comes too fast.
pub proof fn law_working_transfers_keep_the_screen(
    router: RouterView,
    retired: Seq<BatchView>,
    batch: BatchView,
    now: Instant,
)
    requires
        is_running(router, now),
        works_on((router.active->0).id, batch.outputs),
        !batch.gone,
    ensures
        ({
            let (next, report, cancel, release) = router.polled(retired, batch, now);
            let active = router.active->0;
            &&& !cancel
            &&& release is Keep
            &&& next.wire == router.wire + wanted(active.id, batch.outputs)
            &&& tells_last(report.events, news(batch.outputs))
            &&& next.active matches Some(after)
            &&& after.id == active.id
            &&& after.role == active.role
            &&& after.configured == active.configured
            &&& after.choice_deadline == active.choice_deadline
            &&& after.cancel_deadline is None
            &&& !after.finished
            &&& after.retained == active.retained
            &&& after.tail == active.tail + given_back(active.id, batch.outputs)
            &&& after.tail_received == (active.tail_received || gives_back(
                active.id,
                batch.outputs,
            ))
        }),
{
    let (start, first) = turn_start(router, retired, now);
    lemma_all_received(start, first, batch, now);
}

/// A worker that goes away without a word fails its transfer: that is the last
/// event of the turn, the remote is told to abort in place of everything that
/// was queued, and its residue is kept from the screen.
pub proof fn law_lost_workers_fail_their_transfer(
    router: RouterView,
    retired: Seq<BatchView>,
    batch: BatchView,
    now: Instant,
)
    requires
        is_running(router, now),
        works_on((router.active->0).id, batch.outputs),
        batch.gone,
    ensures
        ({
            let (next, report, cancel, release) = router.polled(retired, batch, now);
            let active = router.active->0;
            &&& next.active is None
            &&& release is Drop
            &&& next.wire == seq![WireView { id: active.id, sequence: None, rest: cancel_bytes() }]
            &&& next.recovery_deadline == Some((now + CANCEL_TIMEOUT) as u64)
            &&& report.events.len() > 0
            &&& report.events.last() matches TransferEventView::Finished {
                id,
                role,
                outcome: TransferOutcomeView::Failed(failure),
                committed_paths,
            }
            &&& id == active.id
            &&& role == active.role
            &&& failure.kind is WorkerStopped
            &&& failure.message == "Transfer worker stopped"@
            &&& committed_paths.len() == 0
        }),
{
    let (start, first) = turn_start(router, retired, now);
    lemma_all_received(start, first, batch, now);
}

/// A cancelled transfer whose worker goes away was cancelled: that is the last
/// event of the turn, and its residue is kept from the screen.
pub proof fn law_cancelled_workers_end_cancelled(
    router: RouterView,
    retired: Seq<BatchView>,
    batch: BatchView,
    now: Instant,
)
    requires
        router.active matches Some(active) && active.cancel_deadline is Some && !active.finished
            && active.configured,
        works_on((router.active->0).id, batch.outputs),
        batch.gone,
    ensures
        ({
            let (next, report, cancel, release) = router.polled(retired, batch, now);
            let active = router.active->0;
            &&& next.active is None
            &&& release is Drop
            &&& next.wire == seq![WireView { id: active.id, sequence: None, rest: cancel_bytes() }]
            &&& next.recovery_deadline == Some((now + CANCEL_TIMEOUT) as u64)
            &&& report.events.len() > 0
            &&& report.events.last() matches TransferEventView::Finished {
                id,
                role,
                outcome,
                committed_paths,
            }
            &&& id == active.id
            &&& role == active.role
            &&& outcome is Cancelled
            &&& committed_paths.len() == 0
        }),
{
    let (start, first) = turn_start(router, retired, now);
    lemma_all_received(start, first, batch, now);
}

/// A cancelled transfer holds the PTY until its deadline, and no longer: then
/// it retires with its end still to come, and its residue is kept from the
/// screen.
pub proof fn law_cancelled_transfers_retire_in_time(
    router: RouterView,
    retired: Seq<BatchView>,
    batch: BatchView,
    now: Instant,
)
    requires
        router.active matches Some(active) && active.cancel_deadline is Some && !active.finished
            && active.configured,
        works_on((router.active->0).id, batch.outputs),
        !batch.gone,
    ensures
        ({
            let (next, report, cancel, release) = router.polled(retired, batch, now);
            let active = router.active->0;
            &&& !cancel
            &&& next.wire == router.wire
            &&& if now >= active.cancel_deadline->0 {
                &&& next.active is None
                &&& release is Retire
                &&& next.retiring.len() > 0
                &&& next.retiring.last().id == active.id
                &&& next.retiring.last().role == active.role
                &&& !next.retiring.last().finished
                &&& next.recovery_deadline == Some((now + CANCEL_TIMEOUT) as u64)
            } else {
                &&& release is Keep
                &&& next.active matches Some(after) && after.id == active.id
                    && after.cancel_deadline == active.cancel_deadline
            }
        }),
{
    let (start, first) = turn_start(router, retired, now);
    lemma_all_received(start, first, batch, now);
}

/// A selection that does not come in time fails the transfer: the worker has
/// to be cancelled, and the end is reported before the worker is heard.
pub proof fn law_missed_selections_fail_the_transfer(
    router: RouterView,
    retired: Seq<BatchView>,
    now: Instant,
)
    requires
        router.active matches Some(active) && !active.configured && !active.finished
            && active.cancel_deadline is None && now >= active.choice_deadline,
        now <= LAST_INSTANT,
    ensures
        ({
            let quiet = BatchView { outputs: Seq::empty(), gone: false };
            let (next, report, cancel, release) = router.polled(retired, quiet, now);
            let active = router.active->0;
            &&& cancel
            &&& release is Keep
            &&& next.active matches Some(after) && after.id == active.id && after.finished
                && after.cancel_deadline == Some((now + CANCEL_TIMEOUT) as u64)
            &&& next.wire == seq![WireView { id: active.id, sequence: None, rest: cancel_bytes() }]
            &&& report.events.len() > 0
            &&& report.events.last() matches TransferEventView::Finished {
                id,
                role,
                outcome: TransferOutcomeView::Failed(failure),
                committed_paths,
            }
            &&& id == active.id
            &&& role == active.role
            &&& failure.kind is Timeout
            &&& failure.message == "File selection timed out"@
            &&& committed_paths.len() == 0
        }),
{
}

/// A worker that asks for an abort has its transfer cancelled: the abort takes
/// the place of everything that was queued, and the deadline of the
/// cancellation runs.
pub proof fn law_aborting_workers_cancel_their_transfer(
    router: RouterView,
    retired: Seq<BatchView>,
    outputs: Seq<RuntimeOutputView>,
    now: Instant,
)
    requires
        is_running(router, now),
        now <= LAST_INSTANT,
        works_on((router.active->0).id, outputs),
    ensures
        ({
            let active = router.active->0;
            let batch = BatchView {
                outputs: outputs.push(RuntimeOutputView::Abort { id: active.id }),
                gone: false,
            };
            let (next, report, cancel, release) = router.polled(retired, batch, now);
            &&& release is Keep
            &&& next.active matches Some(after) && after.id == active.id && !after.finished
                && after.cancel_deadline == Some((now + CANCEL_TIMEOUT) as u64)
            &&& next.wire == seq![WireView { id: active.id, sequence: None, rest: cancel_bytes() }]
            &&& next.recovery_deadline == Some((now + CANCEL_TIMEOUT) as u64)
        }),
{
    let active = router.active->0;
    let (start, first) = turn_start(router, retired, now);
    let batch = BatchView {
        outputs: outputs.push(RuntimeOutputView::Abort { id: active.id }),
        gone: false,
    };
    let to = outputs.len() as int;
    assert(batch.outputs.take(to) =~= outputs);
    lemma_received(start, first, batch, to, now);
    let (next, told) = choose|next: RouterView, told: ReportView|
        {
            &&& #[trigger] received_outputs(start, first, batch, 0, now)
                == #[trigger] received_outputs(next, told, batch, to, now)
            &&& next == (RouterView { active: next.active, wire: next.wire, ..start })
            &&& next.active matches Some(after)
            &&& same_transfer(active, after)
            &&& after.tail == active.tail + given_back(active.id, outputs)
            &&& after.tail_received == (active.tail_received || gives_back(active.id, outputs))
            &&& next.wire == (if active.cancel_deadline is None {
                start.wire + wanted(active.id, outputs)
            } else {
                start.wire
            })
            &&& extends(told.render, first.render)
            &&& without_progress(told.events) == without_progress(first.events) + news(outputs)
        };
    let (after, heard, _) = received_output(next, told, batch.outputs[to], now);
    assert(received_outputs(after, heard, batch, to + 1, now) == (after, heard, false));
    assert(received_outputs(next, told, batch, to, now) == (after, heard, false));
}

/// What the detector held back is shown once its time is over or a recovery
/// ends, and nothing else of an idle router changes but the recovery and the
/// abort that nobody waits for.
pub proof fn law_held_back_output_is_shown_in_time(
    router: RouterView,
    batch: BatchView,
    now: Instant,
)
    requires
        router.active is None,
        router.retiring.len() == 0,
    ensures
        ({
            let (next, report, cancel, release) = router.polled(Seq::empty(), batch, now);
            let over = router.recovery_deadline matches Some(deadline) && now >= deadline;
            let expired = router.detector.deadline matches Some(deadline) && now >= deadline;
            &&& report.render + next.detector.pending == router.detector.pending
            &&& report.events.len() == 0
            &&& !cancel
            &&& release is Keep
            &&& next.active is None
            &&& next.enabled == router.enabled
            &&& next.retiring.len() == 0
            &&& (over || expired) ==> next.detector == DetectorView::idle()
            &&& !(over || expired) ==> next.detector == router.detector
            &&& next.recovery_deadline == (if over {
                None
            } else {
                router.recovery_deadline
            })
            &&& !over ==> next.wire == router.wire
            &&& forall|i: int|
                0 <= i < next.wire.len() && over ==> (#[trigger] next.wire[i]).sequence is Some
            &&& forall|i: int|
                0 <= i < router.wire.len() && (#[trigger] router.wire[i]).sequence is Some
                    ==> next.wire.contains(router.wire[i])
        }),
{
    let (next, report, _, _) = router.polled(Seq::empty(), batch, now);
    assert(report.render + next.detector.pending =~= router.detector.pending);
    router.wire.filter_lemma(|wire: WireView| wire.sequence is Some);
}

/// While nothing else has the PTY, no byte that is read is lost: each is shown,
/// held back, or handed to the worker of the transfer that starts, in order. A
/// transfer starts only with a header of its direction: the remote's readiness
/// to receive starts an upload, its wish to send a download.
pub proof fn law_idle_reads_lose_nothing(router: RouterView, bytes: Seq<u8>, now: Instant)
    requires
        router.active is None,
        router.enabled,
        router.recovery_deadline is None,
        router.wire.len() == 0,
    ensures
        ({
            let (next, shown, start) = routed(router, bytes, now);
            &&& next == (RouterView { detector: next.detector, ..router })
            &&& router.detector.pending + bytes == shown + (match start {
                Some((_, protocol)) => protocol,
                None => next.detector.pending,
            })
            &&& start is Some ==> next.detector.pending.len() == 0
            &&& start matches Some((role, protocol)) ==> exists|header: HeaderView|
                {
                    &&& #[trigger] begins_with_header(protocol, header)
                    &&& role is Upload <==> header.frame is Zrinit
                    &&& role is Download <==> header.frame is Zrqinit || header.frame is Zfile
                }
        }),
{
    crate::zmodem_detector::law_no_byte_is_lost(router.detector, bytes, now);
    crate::zmodem_detector::law_only_start_headers_start(router.detector, bytes, now);
    let scan = scanned(router.detector, bytes, now);
    let (next, shown, start) = routed(router, bytes, now);
    assert(router.detector.pending + bytes == shown + (match start {
        Some((_, protocol)) => protocol,
        None => next.detector.pending,
    }));
    if let Some((header, role, protocol)) = scan.started {
        assert(begins_with_header(protocol, header));
        assert(start == Some((transfer_role(role), protocol)));
        assert(start_role(header.frame) == Some(role));
        assert(next.detector.pending.len() == 0);
    }
}

/// No transfer starts while bytes of an earlier one are still to be written.
pub proof fn law_no_transfer_starts_behind_queued_bytes(
    router: RouterView,
    bytes: Seq<u8>,
    now: Instant,
)
    requires
        router.active is None,
        router.wire.len() > 0,
    ensures
        routed(router, bytes, now).2 is None,
        routed(router, bytes, now).0.wire == router.wire,
        routed(router, bytes, now).0.active is None,
{
}

/// Switching the detection on changes nothing else. Switching it off shows
/// what was held back, and cancels the transfer that has the PTY.
pub proof fn law_switching_off_gives_the_screen_back(router: RouterView, now: Instant)
    ensures
        controlled(router, Control::Enable(true), now) == (
            RouterView { enabled: true, ..router },
            Seq::<u8>::empty(),
            RequestView::Nothing,
        ),
        ({
            let (next, shown, request) = controlled(router, Control::Enable(false), now);
            &&& !next.enabled
            &&& shown == router.detector.pending
            &&& next.detector == DetectorView::idle()
            &&& next.retiring == router.retiring
            &&& if router.active matches Some(active) && active.cancel_deadline is None {
                let active = router.active->0;
                &&& request is CancelWorker
                &&& next.active == Some(
                    ActiveView {
                        cancel_deadline: Some((now + CANCEL_TIMEOUT) as u64),
                        ..active
                    },
                )
                &&& next.recovery_deadline == Some((now + CANCEL_TIMEOUT) as u64)
                &&& next.wire == seq![
                    WireView { id: active.id, sequence: None, rest: cancel_bytes() },
                ]
            } else {
                &&& request is Nothing
                &&& next.active == router.active
                &&& next.wire == router.wire
                &&& next.recovery_deadline == router.recovery_deadline
            }
        }),
{
}

/// An upload is started from here exactly when the detection is on and nothing
/// else has the PTY; then it gets the chosen files, and what was held back is
/// shown first.
pub proof fn law_uploads_start_on_a_free_screen(
    router: RouterView,
    id: TransferId,
    paths: Vec<PathBytes>,
    now: Instant,
)
    ensures
        ({
            let (next, shown, request) = controlled(
                router,
                Control::StartUpload { id, paths },
                now,
            );
            if router.enabled && router.active is None && router.wire.len() == 0 {
                &&& request == (RequestView::StartUpload { id, paths: paths_view(paths@) })
                &&& shown == router.detector.pending
                &&& next == (RouterView { detector: DetectorView::idle(), ..router })
            } else {
                &&& request is Nothing
                &&& shown.len() == 0
                &&& next == router
            }
        }),
{
}

/// A selection configures the worker exactly if its transfer has the PTY, goes
/// in that direction, was not configured or cancelled before, and still waits.
pub proof fn law_awaited_selections_configure(
    router: RouterView,
    id: TransferId,
    paths: Vec<PathBytes>,
    directory: PathBytes,
    policy: OverwritePolicy,
    now: Instant,
)
    ensures
        ({
            let waits = router.active matches Some(active) && active.id == id && !active.configured
                && active.cancel_deadline is None && now < active.choice_deadline;
            let (up, up_shown, up_request) = controlled(router, Control::Upload { id, paths }, now);
            let (down, down_shown, down_request) = controlled(
                router,
                Control::Download { id, directory, policy },
                now,
            );
            &&& up == router && down == router
            &&& up_shown.len() == 0 && down_shown.len() == 0
            &&& up_request == (if waits && (router.active->0).role is Upload {
                RequestView::ConfigureUpload { paths: paths_view(paths@) }
            } else {
                RequestView::Nothing
            })
            &&& down_request == (if waits && (router.active->0).role is Download {
                RequestView::ConfigureDownload { directory: directory@, policy }
            } else {
                RequestView::Nothing
            })
        }),
{
}

/// A cancellation reaches the transfer that it names, once, and no other.
pub proof fn law_cancellations_reach_their_transfer(
    router: RouterView,
    id: TransferId,
    now: Instant,
)
    ensures
        ({
            let (next, shown, request) = controlled(router, Control::Cancel { id }, now);
            &&& shown.len() == 0
            &&& if router.active matches Some(active) && active.id == id
                && active.cancel_deadline is None {
                &&& request is CancelWorker
                &&& next.active matches Some(after) && after.cancel_deadline == Some(
                    (now + CANCEL_TIMEOUT) as u64,
                ) && after.id == id
                &&& next.wire == seq![WireView { id, sequence: None, rest: cancel_bytes() }]
                &&& next.recovery_deadline == Some((now + CANCEL_TIMEOUT) as u64)
            } else {
                &&& request is Nothing
                &&& next == router
            }
        }),
{
}

/// A transfer that begins has the PTY with nothing read for it, and waits for
/// its selection for the time that a choice may take; it is announced if the
/// remote asked for it. One whose worker could not be started is reported as
/// failed, and the remote is told to abort.
pub proof fn law_begun_transfers_wait_for_their_selection(
    router: RouterView,
    id: TransferId,
    role: Role,
    requested: bool,
    failure: ErrorView,
    report: ReportView,
    now: Instant,
)
    ensures
        ({
            let (next, told) = router.begun(id, role, requested, None, report, now);
            &&& next.active matches Some(active)
            &&& active.id == id
            &&& active.role == role
            &&& active.retained.len() == 0
            &&& active.tail.len() == 0
            &&& !active.configured
            &&& !active.finished
            &&& !active.completed
            &&& !active.tail_received
            &&& active.cancel_deadline is None
            &&& active.choice_deadline == (now + 120 * crate::clock::SECOND) as u64
            &&& next.wire == router.wire
            &&& told.events == (if requested {
                report.events.push(TransferEventView::Requested { id, role })
            } else {
                report.events
            })
        }),
        ({
            let (next, told) = router.begun(id, role, requested, Some(failure), report, now);
            &&& next.active == router.active
            &&& next.wire == seq![WireView { id, sequence: None, rest: cancel_bytes() }]
            &&& next.recovery_deadline == Some((now + CANCEL_TIMEOUT) as u64)
            &&& told.events == report.events.push(
                TransferEventView::Finished {
                    id,
                    role,
                    outcome: TransferOutcomeView::Failed(failure),
                    committed_paths: Seq::empty(),
                },
            )
        }),
{
}

/// The router is looked at again no later than anything that it waits for: the
/// detector's time, the end of a recovery, the deadline of a selection or of a
/// cancellation, and the next output of a worker. Without any of these it
/// waits for nothing, and it never wakes without one of them.
pub proof fn law_no_deadline_is_slept_through(router: RouterView, now: Instant)
    ensures
        ({
            let wait = router.next_timeout(now);
            let waits_for = |deadline: Option<Instant>|
                deadline matches Some(at) ==> (wait matches Some(time) && time <= if at > now {
                    at - now
                } else {
                    0
                });
            &&& waits_for(router.detector.deadline)
            &&& waits_for(router.recovery_deadline)
            &&& router.active matches Some(active) ==> {
                &&& wait matches Some(time) && time <= crate::clock::MILLISECOND
                &&& waits_for(active.cancel_deadline)
                &&& !active.configured && active.cancel_deadline is None ==> waits_for(
                    Some(active.choice_deadline),
                )
            }
            &&& router.retiring.len() > 0 ==> (wait matches Some(time) && time
                <= crate::clock::MILLISECOND)
            &&& wait is None <==> router.detector.deadline is None && router.recovery_deadline
                is None && router.active is None && router.retiring.len() == 0
            &&& router.active is None && router.retiring.len() == 0 && router.detector.deadline
                is None && router.recovery_deadline is Some && router.recovery_deadline->0 > now
                ==> wait == Some((router.recovery_deadline->0 - now) as u64)
            &&& router.active is None && router.retiring.len() == 0 && router.recovery_deadline
                is None && router.detector.deadline is Some && router.detector.deadline->0 > now
                ==> wait == Some((router.detector.deadline->0 - now) as u64)
        }),
{
}

/// The first rate of a file is what was transferred in the time since its
/// start, in whole bytes per second; a later one moves a quarter of the way
/// from the rate before to the new sample.
pub proof fn law_rates_follow_the_samples(
    meter: RateMeter,
    before: u64,
    at: Instant,
    id: TransferId,
    role: Role,
    name: Seq<char>,
    bytes: u64,
    total: Option<u64>,
    now: Instant,
)
    requires
        meter.baseline == Some((before, at)),
        now >= at + 250 * crate::clock::MILLISECOND,
        bytes >= before,
        (bytes - before) * 1000 <= u64::MAX,
        meter.rate matches Some(rate) ==> rate * 4 <= u64::MAX,
    ensures
        ({
            let event = TransferEventView::Progress { id, role, name, bytes, total };
            let next = meter.after(event, now);
            let millis = (now - at) / (crate::clock::MILLISECOND as int);
            &&& next.baseline == Some((bytes, now))
            &&& (bytes - before) * 1000 < millis ==> next.rate == meter.rate
            &&& (bytes - before) * 1000 >= millis ==> {
                &&& next.rate is Some
                &&& meter.rate is None ==> {
                    &&& next.rate->0 * millis <= (bytes - before) * 1000
                    &&& (bytes - before) * 1000 < (next.rate->0 + 1) * millis
                }
                &&& meter.rate is Some && (bytes - before) * 1000 + 3 * meter.rate->0 <= (u64::MAX
                    as int) ==> ({
                    let rate = meter.rate->0;
                    let sample = (RateMeter { rate: None, ..meter }).after(event, now).rate->0;
                    &&& 4 * next.rate->0 <= 3 * rate + sample
                    &&& 3 * rate + sample < 4 * (next.rate->0 + 1)
                })
            }
        }),
{
    let event = TransferEventView::Progress { id, role, name, bytes, total };
    let millis = (now - at) / 1_000_000;
    let amount = (bytes - before) * 1000;
    let sample = amount / millis;
    assert(millis >= 250);
    vstd::arithmetic::div_mod::lemma_fundamental_div_mod(amount, millis);
    assert(millis * sample + amount % millis == amount);
    assert(millis * sample == sample * millis) by (nonlinear_arith);
    assert((sample + 1) * millis == sample * millis + millis) by (nonlinear_arith);
    assert(0 <= amount % millis < millis) by (nonlinear_arith)
        requires
            millis >= 250,
    ;
    assert(amount < millis ==> sample == 0) by (nonlinear_arith)
        requires
            millis >= 250,
            0 <= amount,
            sample == amount / millis,
    ;
    assert(amount >= millis ==> sample >= 1) by (nonlinear_arith)
        requires
            millis >= 250,
            0 <= amount,
            sample == amount / millis,
    ;
    assert(0 <= sample <= amount) by (nonlinear_arith)
        requires
            millis >= 250,
            0 <= amount,
            sample == amount / millis,
    ;
}

/// A new file starts its rate anew, and progress that comes too soon or goes
/// backwards is not sampled.
pub proof fn law_rates_start_anew(
    meter: RateMeter,
    event: TransferEventView,
    now: Instant,
)
    ensures
        event is FileStarted ==> meter.after(event, now) == (RateMeter {
            baseline: Some((0u64, now)),
            rate: None,
        }),
        event matches TransferEventView::Progress { bytes, .. } ==> (
        meter.baseline matches Some((before, at)) ==> (now < at + 250 * crate::clock::MILLISECOND
            || bytes < before ==> meter.after(event, now) == meter)),
        event is FileResult || event is Finished || event is Requested ==> meter.after(event, now)
            == meter,
{
}

/// The worker's end is among its outputs.
pub open spec fn tells_its_end(outputs: Seq<RuntimeOutputView>) -> bool {
    exists|i: int|
        0 <= i < outputs.len() && (#[trigger] outputs[i] matches RuntimeOutputView::Event(event)
            && event is Finished)
}

/// The events of the first `count` outputs, in order.
pub open spec fn told_events(outputs: Seq<RuntimeOutputView>, count: int) -> Seq<TransferEventView>
    decreases count,
{
    if count <= 0 {
        Seq::empty()
    } else {
        match outputs[count - 1] {
            RuntimeOutputView::Event(event) => told_events(outputs, count - 1).push(event),
            _ => told_events(outputs, count - 1),
        }
    }
}

proof fn lemma_retired_outputs(
    active: ActiveView,
    report: ReportView,
    outputs: Seq<RuntimeOutputView>,
    from: int,
    visible: bool,
)
    requires
        0 <= from <= outputs.len(),
    ensures
        ({
            let (after, told) = retired_outputs(active, report, outputs, from, visible);
            &&& after.id == active.id
            &&& after.role == active.role
            &&& active.finished ==> after.finished && told == report
            &&& after.finished <==> active.finished || exists|i: int|
                from <= i < outputs.len() && (
                #[trigger] outputs[i] matches RuntimeOutputView::Event(event) && event is Finished)
            &&& !after.finished ==> told.events == report.events + told_events(
                outputs.skip(from),
                outputs.len() - from,
            )
        }),
    decreases outputs.len() - from,
{
    let rest = outputs.skip(from);
    if from < outputs.len() {
        let (next, heard) = retired_output(active, report, outputs[from], visible);
        lemma_retired_outputs(next, heard, outputs, from + 1, visible);
        lemma_told_events(rest, (outputs.len() - from) as nat);
        assert(rest.skip(1) =~= outputs.skip(from + 1));
        let after = told_events(outputs.skip(from + 1), outputs.len() - from - 1);
        match outputs[from] {
            RuntimeOutputView::Event(event) => {
                assert(report.events.push(event) + after =~= report.events + (seq![event]
                    + after));
            },
            _ => {},
        }
    } else {
        assert(report.events + told_events(rest, 0) =~= report.events);
    }
}

proof fn lemma_told_events(outputs: Seq<RuntimeOutputView>, count: nat)
    requires
        0 < count <= outputs.len(),
    ensures
        told_events(outputs, count as int) == (match outputs[0] {
            RuntimeOutputView::Event(event) => seq![event],
            _ => Seq::empty(),
        }) + told_events(outputs.skip(1), count - 1),
    decreases count,
{
    let first: Seq<TransferEventView> = match outputs[0] {
        RuntimeOutputView::Event(event) => seq![event],
        _ => Seq::empty(),
    };
    if count == 1 {
        assert(told_events(outputs, 0) =~= Seq::empty());
        assert(told_events(outputs, 1) =~= first + told_events(outputs.skip(1), 0));
    } else {
        lemma_told_events(outputs, (count - 1) as nat);
        assert(outputs.skip(1)[count - 2] == outputs[count - 1]);
        assert(told_events(outputs, count as int) =~= first + told_events(
            outputs.skip(1),
            count - 1,
        ));
    }
}

/// The transfers among `retiring` whose workers have not gone yet, in order.
pub open spec fn still_retiring(
    retiring: Seq<ActiveView>,
    retired: Seq<BatchView>,
    count: int,
) -> Seq<TransferId>
    decreases count,
{
    if count <= 0 {
        Seq::empty()
    } else if retired[count - 1].gone {
        still_retiring(retiring, retired, count - 1)
    } else {
        still_retiring(retiring, retired, count - 1).push(retiring[count - 1].id)
    }
}

/// The identities of transfers.
pub open spec fn identities(transfers: Seq<ActiveView>) -> Seq<TransferId> {
    transfers.map_values(|transfer: ActiveView| transfer.id)
}

/// The last word on a retiring transfer that ended without one.
pub open spec fn is_lost(event: TransferEventView, transfer: ActiveView) -> bool {
    &&& event matches TransferEventView::Finished {
        id,
        role,
        outcome: TransferOutcomeView::Failed(failure),
        committed_paths,
    }
    &&& id == transfer.id
    &&& role == transfer.role
    &&& failure.kind is WorkerStopped
    &&& failure.message == "Cancelled worker stopped before reporting its result"@
    &&& committed_paths.len() == 0
}

proof fn lemma_retired_batches(
    kept: Seq<ActiveView>,
    report: ReportView,
    retiring: Seq<ActiveView>,
    retired: Seq<BatchView>,
    from: int,
    visible: bool,
)
    requires
        0 <= from <= retiring.len(),
        retired.len() == retiring.len(),
        identities(kept) == still_retiring(retiring, retired, from),
    ensures
        ({
            let (left, told) = retired_batches(kept, report, retiring, retired, from, visible);
            &&& identities(left) == still_retiring(retiring, retired, retiring.len() as int)
            &&& extends(told.events, report.events)
            &&& forall|i: int|
                from <= i < retiring.len() && retired[i].gone && !(#[trigger] retiring[i]).finished
                    && !tells_its_end(retired[i].outputs) ==> exists|k: int|
                    0 <= k < told.events.len() && #[trigger] is_lost(told.events[k], retiring[i])
        }),
    decreases retiring.len() - from,
{
    if from < retiring.len() {
        let batch = retired[from];
        let (active, heard) = retired_outputs(retiring[from], report, batch.outputs, 0, visible);
        lemma_retired_outputs(retiring[from], report, batch.outputs, 0, visible);
        lemma_retired_extends(retiring[from], report, batch.outputs, 0, visible);
        let lost = failed_event(
            active.id,
            active.role,
            ErrorKind::WorkerStopped,
            "Cancelled worker stopped before reporting its result"@,
        );
        let told = if batch.gone && !active.finished {
            heard.telling(lost, active.meter.rate)
        } else {
            heard
        };
        let next = if batch.gone {
            kept
        } else {
            kept.push(active)
        };
        assert(identities(next) =~= still_retiring(retiring, retired, from + 1)) by {
            if !batch.gone {
                assert(identities(kept.push(active)) =~= identities(kept).push(active.id));
            }
        }
        lemma_retired_batches(next, told, retiring, retired, from + 1, visible);
        let (left, last) = retired_batches(kept, report, retiring, retired, from, visible);
        assert((left, last) == retired_batches(next, told, retiring, retired, from + 1, visible));
        assert(last.events.take(report.events.len() as int) =~= last.events.take(
            told.events.len() as int,
        ).take(report.events.len() as int));
        assert(told.events.take(report.events.len() as int) =~= heard.events.take(
            report.events.len() as int,
        ));
        assert(!retiring[from].finished && batch.gone && !tells_its_end(batch.outputs)
            ==> exists|k: int|
            0 <= k < last.events.len() && #[trigger] is_lost(last.events[k], retiring[from])) by {
            if !retiring[from].finished && batch.gone && !tells_its_end(batch.outputs) {
                let k = told.events.len() - 1;
                assert(last.events.take(told.events.len() as int)[k] == last.events[k]);
                assert(is_lost(last.events[k], retiring[from]));
            }
        }
    } else {
        assert(report.events.take(report.events.len() as int) =~= report.events);
    }
}

proof fn lemma_retired_extends(
    active: ActiveView,
    report: ReportView,
    outputs: Seq<RuntimeOutputView>,
    from: int,
    visible: bool,
)
    requires
        0 <= from <= outputs.len(),
    ensures
        extends(
            retired_outputs(active, report, outputs, from, visible).1.events,
            report.events,
        ),
    decreases outputs.len() - from,
{
    if from < outputs.len() {
        let (next, heard) = retired_output(active, report, outputs[from], visible);
        lemma_retired_extends(next, heard, outputs, from + 1, visible);
        let all = retired_outputs(active, report, outputs, from, visible).1.events;
        assert(all.take(report.events.len() as int) =~= all.take(heard.events.len() as int).take(
            report.events.len() as int,
        ));
        assert(heard.events.take(report.events.len() as int) =~= report.events);
    } else {
        assert(report.events.take(report.events.len() as int) =~= report.events);
    }
}

/// Retiring transfers leave exactly when their workers are gone, and the others
/// stay in order. One that leaves without a word on its end is reported as
/// failed.
pub proof fn law_retiring_transfers_leave_with_their_worker(
    router: RouterView,
    retired: Seq<BatchView>,
    batch: BatchView,
    index: int,
    now: Instant,
)
    requires
        router.active is None,
        retired.len() == router.retiring.len(),
        0 <= index < router.retiring.len(),
    ensures
        ({
            let (next, report, cancel, release) = router.polled(retired, batch, now);
            let transfer = router.retiring[index];
            &&& release is Keep
            &&& identities(next.retiring) == still_retiring(
                router.retiring,
                retired,
                router.retiring.len() as int,
            )
            &&& retired[index].gone && !transfer.finished && !tells_its_end(retired[index].outputs)
                ==> exists|k: int|
                0 <= k < report.events.len() && #[trigger] is_lost(report.events[k], transfer)
        }),
{
    let (first, report) = router.detector_expired(now);
    assert(identities(Seq::<ActiveView>::empty()) =~= still_retiring(router.retiring, retired, 0));
    lemma_retired_batches(Seq::empty(), report, router.retiring, retired, 0, true);
    let transfer = router.retiring[index];
    let told = retired_batches(Seq::empty(), report, router.retiring, retired, 0, true).1;
    let last = router.polled(retired, batch, now).1;
    assert(last.events == told.events);
    if retired[index].gone && !transfer.finished && !tells_its_end(retired[index].outputs) {
        let k = choose|k: int|
            0 <= k < told.events.len() && #[trigger] is_lost(told.events[k], transfer);
        assert(is_lost(last.events[k], transfer));
    }
}

/// Everything that a retiring worker tells before its end is reported, in
/// order, and once its end was reported nothing more.
pub proof fn law_retiring_transfers_are_heard(
    router: RouterView,
    batch: BatchView,
    now: Instant,
)
    requires
        router.active is None,
        router.retiring.len() == 1,
        !batch.gone,
    ensures
        ({
            let quiet = BatchView { outputs: Seq::empty(), gone: false };
            let (next, report, cancel, release) = router.polled(seq![batch], quiet, now);
            let transfer = router.retiring[0];
            &&& next.retiring.len() == 1
            &&& next.retiring[0].finished <==> transfer.finished || tells_its_end(batch.outputs)
            &&& transfer.finished ==> report.events.len() == 0
            &&& !transfer.finished && !tells_its_end(batch.outputs) ==> report.events
                == told_events(batch.outputs, batch.outputs.len() as int)
        }),
{
    let (first, report) = router.detector_expired(now);
    lemma_retired_outputs(router.retiring[0], report, batch.outputs, 0, true);
    assert(batch.outputs.skip(0) =~= batch.outputs);
    let (after, told) = retired_outputs(router.retiring[0], report, batch.outputs, 0, true);
    reveal_with_fuel(retired_batches, 2);
    assert(retired_batches(Seq::empty(), report, router.retiring, seq![batch], 0, true) == (
        Seq::<ActiveView>::empty().push(after),
        told,
    ));
    assert(Seq::<TransferEventView>::empty() + told_events(
        batch.outputs,
        batch.outputs.len() as int,
    ) =~= told_events(batch.outputs, batch.outputs.len() as int));
}

/// An event that a worker tells in an otherwise quiet turn is reported and
/// shown as its line with the rate so far; progress only if none was shown
/// within a tenth of a second.
pub proof fn law_told_events_are_shown(
    router: RouterView,
    event: TransferEventView,
    now: Instant,
)
    requires
        is_running(router, now),
        router.retiring.len() == 0,
        router.detector.deadline is None,
        router.recovery_deadline is None,
        !(event is Finished),
    ensures
        ({
            let batch = BatchView {
                outputs: seq![RuntimeOutputView::Event(event)],
                gone: false,
            };
            let (next, report, _, _) = router.polled(Seq::empty(), batch, now);
            let active = router.active->0;
            let shown = !(event is Progress) || (active.last_progress_render matches Some(at)
                ==> now - at >= 100 * crate::clock::MILLISECOND);
            &&& next.active is Some
            &&& (next.active->0).meter == active.meter.after(event, now)
            &&& shown ==> {
                &&& report.events == seq![event]
                &&& report.render == encode_utf8(
                    status_text(event, active.meter.after(event, now).rate),
                )
                &&& event is Progress ==> (next.active->0).last_progress_render == Some(now)
            }
            &&& !shown ==> {
                &&& report.events.len() == 0
                &&& report.render.len() == 0
            }
            &&& !shown || !(event is Progress) ==> (next.active->0).last_progress_render
                == active.last_progress_render
        }),
{
    let batch = BatchView { outputs: seq![RuntimeOutputView::Event(event)], gone: false };
    let active = router.active->0;
    let (after, refresh) = active_after(active, event, now);
    let first = ReportView::nothing();
    assert(router.retiring =~= Seq::<ActiveView>::empty());
    let next = RouterView { active: Some(after), ..router };
    let told = if refresh {
        first.telling(event, after.meter.rate)
    } else {
        first
    };
    assert(received_output(router, first, batch.outputs[0], now) == (next, told, false));
    assert(received_outputs(next, told, batch, 1, now) == (next, told, false));
    assert(received_outputs(router, first, batch, 0, now) == (next, told, false));
    if refresh {
        let line = encode_utf8(status_text(event, after.meter.rate));
        assert(Seq::<u8>::empty() + line =~= line);
        assert(told.events =~= seq![event]);
    }
}

/// The end of a transfer is shown as its line before anything that it gives
/// back, and so is the failure of one that could not begin.
pub proof fn law_ends_are_shown(
    router: RouterView,
    event: TransferEventView,
    now: Instant,
)
    requires
        is_running(router, now),
        router.retiring.len() == 0,
        router.detector.deadline is None,
        router.recovery_deadline is None,
        event is Finished,
    ensures
        ({
            let batch = BatchView {
                outputs: seq![RuntimeOutputView::Event(event)],
                gone: false,
            };
            let (next, report, _, _) = router.polled(Seq::empty(), batch, now);
            let active = router.active->0;
            let line = encode_utf8(status_text(event, active.meter.rate));
            &&& report.events == seq![event]
            &&& report.render.len() >= line.len()
            &&& report.render.take(line.len() as int) == line
        }),
{
    let batch = BatchView { outputs: seq![RuntimeOutputView::Event(event)], gone: false };
    let active = router.active->0;
    let (after, refresh) = active_after(active, event, now);
    let first = ReportView::nothing();
    assert(router.retiring =~= Seq::<ActiveView>::empty());
    let next = RouterView { active: Some(after), ..router };
    let told = first.telling(event, after.meter.rate);
    assert(received_output(router, first, batch.outputs[0], now) == (next, told, true));
    assert(received_outputs(router, first, batch, 0, now) == (next, told, true));
    let line = encode_utf8(status_text(event, active.meter.rate));
    assert(told.render =~= line);
    assert(told.events =~= seq![event]);
    let report = router.polled(Seq::empty(), batch, now).1;
    assert(report.render.take(line.len() as int) =~= line);
}

/// Ordinary output behind the bytes of an earlier transfer is shown at once and
/// as it is.
pub proof fn law_output_behind_queued_bytes_is_shown(
    router: RouterView,
    bytes: Seq<u8>,
    now: Instant,
)
    requires
        router.active is None,
        router.enabled,
        router.recovery_deadline is None,
        router.wire.len() > 0,
        router.detector == DetectorView::idle(),
        forall|i: int| 0 <= i < bytes.len() ==> bytes[i] != crate::wire::ZPAD,
    ensures
        routed(router, bytes, now) == (router, bytes, None::<(Role, Seq<u8>)>),
{
    lemma_sifted_plain(bytes, now);
}

proof fn lemma_sifted_plain(bytes: Seq<u8>, now: Instant)
    requires
        forall|i: int| 0 <= i < bytes.len() ==> bytes[i] != crate::wire::ZPAD,
    ensures
        sifted(DetectorView::idle(), bytes, now) == (DetectorView::idle(), bytes),
    decreases bytes.len(),
{
    if bytes.len() == 0 {
        assert(bytes =~= Seq::<u8>::empty());
    } else {
        lemma_sifted_plain(bytes.drop_last(), now);
        let last = seq![bytes.last()];
        crate::zmodem_detector::law_ordinary_output_passes(last, now);
        assert(bytes.drop_last() + last =~= bytes);
    }
}

/// Nothing more is read for a transfer that is cancelled, has given output
/// back, or has not taken what was read before; otherwise as much as may be
/// retained. Retained bytes are offered to the worker while it goes on.
pub proof fn law_reading_waits_for_the_worker(active: ActiveView)
    requires
        active.retained.len() <= 65_536,
    ensures
        active.cancel_deadline is Some || active.tail_received ==> active.capacity() == 0
            && !active.may_submit(),
        active.configured && active.retained.len() > 0 ==> active.capacity() == 0,
        active.cancel_deadline is None && !active.tail_received && (!active.configured
            || active.retained.len() == 0) ==> active.capacity() + active.retained.len() == 65_536,
        active.may_submit() <==> active.cancel_deadline is None && !active.tail_received
            && active.retained.len() > 0,
{
}

/// What a retiring worker tells is shown as its line while no other transfer
/// has the PTY, and only reported while one has.
pub proof fn law_retiring_transfers_are_shown(
    router: RouterView,
    event: TransferEventView,
    now: Instant,
)
    requires
        router.retiring.len() == 1,
        !router.retiring[0].finished,
        router.detector.deadline is None,
        router.recovery_deadline is None,
        router.active matches Some(active) ==> active.cancel_deadline is None && (active.configured
            || now < active.choice_deadline),
    ensures
        ({
            let told = BatchView { outputs: seq![RuntimeOutputView::Event(event)], gone: false };
            let quiet = BatchView { outputs: Seq::empty(), gone: false };
            let (next, report, _, _) = router.polled(seq![told], quiet, now);
            &&& report.events == seq![event]
            &&& report.render == (if router.active is None {
                encode_utf8(status_text(event, router.retiring[0].meter.rate))
            } else {
                Seq::empty()
            })
            &&& next.retiring.len() == 1
            &&& next.retiring[0] == (ActiveView {
                finished: event is Finished,
                ..router.retiring[0]
            })
        }),
{
    let told = BatchView { outputs: seq![RuntimeOutputView::Event(event)], gone: false };
    let quiet = BatchView { outputs: Seq::empty(), gone: false };
    let transfer = router.retiring[0];
    let visible = router.active is None;
    let first = ReportView::nothing();
    let (after, heard) = retired_output(transfer, first, told.outputs[0], visible);
    assert(retired_outputs(after, heard, told.outputs, 1, visible) == (after, heard));
    assert(retired_outputs(transfer, first, told.outputs, 0, visible) == (after, heard));
    reveal_with_fuel(retired_batches, 2);
    assert(retired_batches(Seq::empty(), first, router.retiring, seq![told], 0, visible) == (
        Seq::<ActiveView>::empty().push(after),
        heard,
    ));
    let line = encode_utf8(status_text(event, transfer.meter.rate));
    assert(Seq::<u8>::empty() + line =~= line);
    assert(heard.events =~= seq![event]);
}

/// What a retiring worker gives back is kept with it and never shown.
pub proof fn law_retiring_transfers_keep_their_tail(
    router: RouterView,
    id: TransferId,
    bytes: Seq<u8>,
    now: Instant,
)
    requires
        router.active is None,
        router.retiring.len() == 1,
        router.detector.deadline is None,
        router.recovery_deadline is None,
    ensures
        ({
            let given = BatchView { outputs: seq![RuntimeOutputView::Tail { id, bytes }], gone: false };
            let quiet = BatchView { outputs: Seq::empty(), gone: false };
            let (next, report, _, _) = router.polled(seq![given], quiet, now);
            &&& report.render.len() == 0
            &&& report.events.len() == 0
            &&& next.retiring.len() == 1
            &&& next.retiring[0] == (ActiveView {
                tail: router.retiring[0].tail + bytes,
                ..router.retiring[0]
            })
        }),
{
    let given = BatchView { outputs: seq![RuntimeOutputView::Tail { id, bytes }], gone: false };
    let transfer = router.retiring[0];
    let first = ReportView::nothing();
    let (after, heard) = retired_output(transfer, first, given.outputs[0], true);
    assert(retired_outputs(after, heard, given.outputs, 1, true) == (after, heard));
    assert(retired_outputs(transfer, first, given.outputs, 0, true) == (after, heard));
    reveal_with_fuel(retired_batches, 2);
    assert(retired_batches(Seq::empty(), first, router.retiring, seq![given], 0, true) == (
        Seq::<ActiveView>::empty().push(after),
        heard,
    ));
}

/// A new router is switched off: it has no transfer, holds nothing back and
/// passes every byte on.
pub proof fn law_new_routers_are_off(bytes: Seq<u8>, now: Instant)
    ensures
        ({
            let router = RouterView::new();
            &&& !router.enabled
            &&& router.active is None
            &&& router.retiring.len() == 0
            &&& router.wire.len() == 0
            &&& router.recovery_deadline is None
            &&& router.detector.pending.len() == 0
            &&& router.next_timeout(now) is None
            &&& !router.busy()
            &&& routed(router, bytes, now).1 == bytes
        }),
{
}

} // verus!
