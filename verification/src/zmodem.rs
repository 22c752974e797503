//! ZMODEM (`sz` / `rz`) file transfer support.
//!
//! The terminal owns the PTY byte stream, so a ZMODEM transfer only works if
//! the protocol bytes are intercepted before the ANSI parser renders them as
//! garbage. This module owns that interception: a detector that claims a
//! transfer only for a well-formed header, and sessions that drive the
//! protocol state machines without any I/O of their own.

use std::collections::VecDeque;

use vstd::prelude::*;

use crate::bytes::{append, copy_range};
use crate::link::{
    receiver_file_written, receiver_poll, receiver_submit_wire, sender_poll,
    sender_start_file, sender_submit_file, sender_submit_wire, ActionView, LinkAction,
    ReceiverCall, ReceiverHistory, ReceiverLink, SenderCall, SenderHistory, SenderLink,
};
use crate::text::{from_utf8_lossy, utf8_lossy};
use crate::wire::{decode_header, decoded_header, DecodeResult, DecodeView, HeaderView};

pub use crate::wire::{
    abort_bytes, abort_sequence, crc16_xmodem, crc32_iso_hdlc, encode_hex_header,
    zrqinit_sequence, Encoding, Frame, Header, ZmodemRole, BS, CAN, MAX_HEADER_BODY_LEN, XON,
    ZDLE, ZPAD,
};
pub use zmodem2::Error as ZmodemError;

verus! {

/// A header located in the PTY stream.
#[derive(Clone, Copy, Debug, PartialEq, Eq)]
pub struct FoundHeader {
    pub header: Header,
    /// How many bytes the header occupies from where it starts.
    pub len: usize,
}

/// What the caller should do with the bytes just fed to [`ZmodemDetector`].
#[derive(Debug, PartialEq, Eq)]
pub enum DetectorOutcome {
    /// No transfer: render these bytes through the normal terminal path.
    ///
    /// Empty when every byte is still held back as a possible header prefix.
    Render(Vec<u8>),
    /// A transfer starts. Render `render_before` through the normal path, then
    /// feed `protocol` to [`ZmodemSession`]. `protocol` starts at the detected
    /// header and includes any bytes that followed it in the same read.
    Started { header: Header, render_before: Vec<u8>, protocol: Vec<u8> },
}

/// Longest byte run that can still turn into a header.
pub const MAX_PENDING: usize = 22;

/// What stands at one index of the scanned bytes.
pub ghost enum Spot {
    /// No header starts here.
    Plain,
    /// A header may start here once more bytes arrive.
    Hold,
    /// A header starts here.
    Start(HeaderView),
}

/// What stands at index `at`: a header starts with one or two pads and `ZDLE`,
/// and is worth waiting for while it is no longer than `MAX_PENDING`.
pub open spec fn spot(bytes: Seq<u8>, at: int) -> Spot {
    let rest = bytes.skip(at);
    let pads = if rest.len() > 1 && rest[1] == ZPAD {
        2int
    } else {
        1int
    };
    if rest[0] != ZPAD {
        Spot::Plain
    } else if pads >= rest.len() {
        Spot::Hold
    } else if rest[pads] != ZDLE {
        Spot::Plain
    } else {
        match decoded_header(rest, pads + 1) {
            DecodeView::Header { header, .. } => Spot::Start(header),
            DecodeView::NotAHeader => Spot::Plain,
            DecodeView::NeedMore => if rest.len() > MAX_PENDING {
                Spot::Plain
            } else {
                Spot::Hold
            },
        }
    }
}

/// What a scan comes to.
pub ghost enum Scan {
    /// The bytes before this index are ordinary output; the rest is held.
    Render(int),
    /// A header starts at this index.
    Started(int, HeaderView),
}

/// Scans from index `from` for the first place that is not plain.
pub open spec fn scan_from(bytes: Seq<u8>, from: int) -> Scan
    decreases bytes.len() - from,
{
    if from < 0 || from >= bytes.len() {
        Scan::Render(from)
    } else {
        match spot(bytes, from) {
            Spot::Plain => scan_from(bytes, from + 1),
            Spot::Hold => Scan::Render(from),
            Spot::Start(header) => Scan::Started(from, header),
        }
    }
}

impl DetectorOutcome {
    /// The outcome reports what a scan of `working` comes to.
    pub open spec fn reports(self, working: Seq<u8>) -> bool {
        match (self, scan_from(working, 0)) {
            (DetectorOutcome::Render(rendered), Scan::Render(end)) => rendered@ == working.take(
                end,
            ),
            (
                DetectorOutcome::Started { header, render_before, protocol },
                Scan::Started(at, start),
            ) => {
                &&& header@ == start
                &&& render_before@ == working.take(at)
                &&& protocol@ == working.skip(at)
            },
            _ => false,
        }
    }
}

/// What a detector holds back after scanning `working`.
pub open spec fn held_after(working: Seq<u8>) -> Seq<u8> {
    match scan_from(working, 0) {
        Scan::Render(end) => working.skip(end),
        Scan::Started(_, _) => Seq::empty(),
    }
}

/// Scans PTY output for a well-formed ZMODEM header.
///
/// Well-formedness is the detection bar: a transfer is claimed only when the
/// protocol would itself accept the frame, so ordinary binary output cannot be
/// mistaken for ZMODEM. Bytes that might still become a header are held back
/// and released as [`DetectorOutcome::Render`] if they do not.
pub struct ZmodemDetector {
    pending: Vec<u8>,
}

impl View for ZmodemDetector {
    type V = Seq<u8>;

    /// The bytes held because they could still complete a header.
    closed spec fn view(&self) -> Seq<u8> {
        self.pending@
    }
}

impl Default for ZmodemDetector {
    fn default() -> (r: Self)
        ensures
            r@ == Seq::<u8>::empty(),
    {
        ZmodemDetector::new()
    }
}

impl ZmodemDetector {
    /// A detector that holds nothing.
    pub fn new() -> (r: Self)
        ensures
            r@ == Seq::<u8>::empty(),
    {
        ZmodemDetector { pending: Vec::new() }
    }

    /// Discards any held bytes, e.g. when a transfer ends.
    pub fn reset(&mut self)
        ensures
            final(self)@ == Seq::<u8>::empty(),
    {
        self.pending.clear();
    }

    /// Feeds `bytes` and reports how they should be handled.
    pub fn push(&mut self, bytes: &[u8]) -> (r: DetectorOutcome)
        ensures
            r.reports(old(self)@ + bytes@),
            final(self)@ == held_after(old(self)@ + bytes@),
    {
        let mut working: Vec<u8> = Vec::new();
        std::mem::swap(&mut working, &mut self.pending);
        append(&mut working, bytes);
        proof {
            lemma_scan_bounds(working@, 0);
        }
        let outcome = ZmodemDetector::scan(working.as_slice());
        match &outcome {
            DetectorOutcome::Render(rendered) => {
                let from: usize = rendered.len();
                self.pending = copy_range(working.as_slice(), from, working.len());
                assert(self.pending@ =~= working@.skip(from as int));
            },
            DetectorOutcome::Started { .. } => self.reset(),
        }
        outcome
    }

    /// Finds the first valid header in `working`, or reports what to render.
    fn scan(working: &[u8]) -> (r: DetectorOutcome)
        ensures
            r.reports(working@),
    {
        let mut index: usize = 0;
        while index < working.len()
            invariant
                index <= working.len(),
                scan_from(working@, 0) == scan_from(working@, index as int),
            decreases working.len() - index,
        {
            let rest = vstd::slice::slice_subrange(working, index, working.len());
            assert(rest@ =~= working@.skip(index as int));
            if rest[0] != ZPAD {
                index = index + 1;
                continue;
            }
            let pads: usize = if rest.len() > 1 && rest[1] == ZPAD {
                2
            } else {
                1
            };
            if pads >= rest.len() {
                // The pads may be the front of a header that the next read brings.
                return ZmodemDetector::render_until(working, index);
            }
            if rest[pads] != ZDLE {
                index = index + 1;
                continue;
            }
            match decode_header(rest, pads + 1) {
                DecodeResult::Header { header, .. } => {
                    let render_before: Vec<u8> = copy_range(working, 0, index);
                    let protocol: Vec<u8> = copy_range(working, index, working.len());
                    assert(render_before@ =~= working@.take(index as int));
                    assert(protocol@ =~= working@.skip(index as int));
                    return DetectorOutcome::Started { header, render_before, protocol };
                },
                DecodeResult::NotAHeader => {
                    index = index + 1;
                },
                DecodeResult::NeedMore => {
                    if rest.len() > MAX_PENDING {
                        index = index + 1;
                        continue;
                    }
                    return ZmodemDetector::render_until(working, index);
                },
            }
        }
        ZmodemDetector::render_until(working, index)
    }

    fn render_until(working: &[u8], end: usize) -> (r: DetectorOutcome)
        requires
            end <= working.len(),
            scan_from(working@, 0) == Scan::Render(end as int),
        ensures
            r.reports(working@),
    {
        let rendered: Vec<u8> = copy_range(working, 0, end);
        assert(rendered@ =~= working@.take(end as int));
        DetectorOutcome::Render(rendered)
    }
}

proof fn lemma_scan_bounds(bytes: Seq<u8>, from: int)
    requires
        0 <= from <= bytes.len(),
    ensures
        match scan_from(bytes, from) {
            Scan::Render(end) => {
                &&& from <= end <= bytes.len()
                &&& end < bytes.len() ==> spot(bytes, end) is Hold
            },
            Scan::Started(at, header) => {
                &&& from <= at < bytes.len()
                &&& spot(bytes, at) == Spot::Start(header)
            },
        },
    decreases bytes.len() - from,
{
    if from < bytes.len() && spot(bytes, from) is Plain {
        lemma_scan_bounds(bytes, from + 1);
    }
}

/// Held and fed bytes are rendered, held or handed to the session, each once
/// and in order.
pub proof fn law_no_byte_is_lost(held: Seq<u8>, bytes: Seq<u8>)
    ensures
        match scan_from(held + bytes, 0) {
            Scan::Render(end) => (held + bytes).take(end) + held_after(held + bytes) == held
                + bytes,
            Scan::Started(at, _) => (held + bytes).take(at) + (held + bytes).skip(at) == held
                + bytes,
        },
{
    let working = held + bytes;
    lemma_scan_bounds(working, 0);
    match scan_from(working, 0) {
        Scan::Render(end) => {
            assert(working.take(end) + working.skip(end) =~= working);
        },
        Scan::Started(at, _) => {
            assert(working.take(at) + working.skip(at) =~= working);
        },
    }
}

/// However much is fed, no more than `MAX_PENDING` bytes are held back.
pub proof fn law_held_bytes_are_bounded(working: Seq<u8>)
    ensures
        held_after(working).len() <= MAX_PENDING,
{
    lemma_scan_bounds(working, 0);
    match scan_from(working, 0) {
        Scan::Render(end) => {
            if end < working.len() {
                assert(working.skip(end) == held_after(working));
            }
        },
        Scan::Started(_, _) => {},
    }
}

/// A generated hex header is claimed wherever it follows output without pads.
pub proof fn law_generated_header_is_detected(
    before: Seq<u8>,
    frame: Frame,
    flags: Seq<u8>,
    rest: Seq<u8>,
)
    requires
        flags.len() == 4,
        forall|i: int| 0 <= i < before.len() ==> before[i] != ZPAD,
    ensures
        scan_from(before + crate::wire::hex_header(frame, flags) + rest, 0) == Scan::Started(
            before.len() as int,
            HeaderView {
                encoding: Encoding::Zhex,
                frame: Frame::spec_from_byte(frame.spec_frame_byte()),
                flags,
            },
        ),
{
    let header = crate::wire::hex_header(frame, flags);
    let bytes = before + header + rest;
    lemma_plain_prefix(bytes, before.len() as int, 0);
    crate::wire::law_hex_header_round_trip(frame, flags, rest);
    let at = before.len() as int;
    assert(bytes.skip(at) =~= header + rest);
    assert(spot(bytes, at) is Start);
}

proof fn lemma_plain_prefix(bytes: Seq<u8>, end: int, from: int)
    requires
        0 <= from <= end <= bytes.len(),
        forall|i: int| 0 <= i < end ==> bytes[i] != ZPAD,
    ensures
        scan_from(bytes, from) == scan_from(bytes, end),
    decreases end - from,
{
    if from < end {
        assert(bytes.skip(from)[0] == bytes[from]);
        lemma_plain_prefix(bytes, end, from + 1);
    }
}

/// A file queued for upload.
#[derive(Clone, Debug, PartialEq, Eq)]
pub struct UploadFile {
    /// Raw bytes of the file's path.
    pub path: Vec<u8>,
    /// Name advertised on the wire.
    pub name: Vec<u8>,
    pub size: u32,
}

/// An owned protocol event, so sessions can outlive the borrow of a poll.
#[derive(Clone, Debug, PartialEq, Eq)]
pub enum OwnedEvent {
    FileStarted { name: String, size: Option<u32> },
    FileCompleted,
    SessionCompleted,
    Aborted,
}

/// A protocol event over plain values.
pub ghost enum OwnedEventView {
    FileStarted { name: Seq<char>, size: Option<u32> },
    FileCompleted,
    SessionCompleted,
    Aborted,
}

impl View for OwnedEvent {
    type V = OwnedEventView;

    open spec fn view(&self) -> OwnedEventView {
        match *self {
            OwnedEvent::FileStarted { name, size } => OwnedEventView::FileStarted {
                name: name@,
                size,
            },
            OwnedEvent::FileCompleted => OwnedEventView::FileCompleted,
            OwnedEvent::SessionCompleted => OwnedEventView::SessionCompleted,
            OwnedEvent::Aborted => OwnedEventView::Aborted,
        }
    }
}

/// The event that an action reports, if it reports one; an unknown event ends
/// the session as an abort does.
pub open spec fn reported_event(action: ActionView) -> Option<OwnedEventView> {
    match action {
        ActionView::FileStarted { name, size } => Some(
            OwnedEventView::FileStarted { name: utf8_lossy(name), size },
        ),
        ActionView::FileCompleted => Some(OwnedEventView::FileCompleted),
        ActionView::SessionCompleted => Some(OwnedEventView::SessionCompleted),
        ActionView::Aborted => Some(OwnedEventView::Aborted),
        ActionView::OtherEvent => Some(OwnedEventView::Aborted),
        _ => None,
    }
}

/// The view of an optional event.
pub open spec fn event_view(event: Option<OwnedEvent>) -> Option<OwnedEventView> {
    match event {
        Some(event) => Some(event@),
        None => None,
    }
}

/// Takes the event out of an action.
pub fn own_event(action: &LinkAction) -> (r: Option<OwnedEvent>)
    ensures
        event_view(r) == reported_event(action@),
{
    match action {
        LinkAction::FileStarted { name, size } => Some(
            OwnedEvent::FileStarted { name: from_utf8_lossy(name.as_slice()), size: *size },
        ),
        LinkAction::FileCompleted => Some(OwnedEvent::FileCompleted),
        LinkAction::SessionCompleted => Some(OwnedEvent::SessionCompleted),
        LinkAction::Aborted => Some(OwnedEvent::Aborted),
        LinkAction::OtherEvent => Some(OwnedEvent::Aborted),
        _ => None,
    }
}

/// A chunk of a file being received.
#[derive(Debug, PartialEq, Eq)]
pub struct FileChunk {
    pub name: String,
    /// Byte offset this data belongs to.
    pub offset: u64,
    pub data: Vec<u8>,
}

/// A request for the sender side to produce file bytes.
#[derive(Clone, Copy, Debug, PartialEq, Eq, Structural)]
pub struct FileRequest {
    pub offset: u32,
    pub max_len: usize,
}

/// One round of protocol progress.
#[derive(Debug, PartialEq, Eq)]
pub struct ZmodemStep {
    /// Bytes that must be written to the PTY.
    pub to_pty: Vec<u8>,
    /// File data received, with the name advertised by the sender.
    pub file_data: Option<FileChunk>,
    /// Events the protocol reported.
    pub events: Vec<OwnedEvent>,
    /// File bytes the sender must supply next.
    pub file_request: Option<FileRequest>,
    /// Whether the session has finished, successfully or not.
    pub finished: bool,
}

/// A received chunk over plain values.
pub ghost struct ChunkView {
    pub name: Seq<char>,
    pub offset: u64,
    pub data: Seq<u8>,
}

/// One round of protocol progress over plain values.
pub ghost struct StepView {
    pub to_pty: Seq<u8>,
    pub file_data: Option<ChunkView>,
    pub events: Seq<OwnedEventView>,
    pub file_request: Option<FileRequest>,
    pub finished: bool,
}

impl View for ZmodemStep {
    type V = StepView;

    open spec fn view(&self) -> StepView {
        StepView {
            to_pty: self.to_pty@,
            file_data: match self.file_data {
                Some(chunk) => Some(
                    ChunkView { name: chunk.name@, offset: chunk.offset, data: chunk.data@ },
                ),
                None => None,
            },
            events: self.events@.map_values(|event: OwnedEvent| event@),
            file_request: self.file_request,
            finished: self.finished,
        }
    }
}

impl StepView {
    /// A round in which nothing happened.
    pub open spec fn nothing() -> StepView {
        StepView {
            to_pty: Seq::empty(),
            file_data: None,
            events: Seq::empty(),
            file_request: None,
            finished: false,
        }
    }

    /// The round after one more event; completion and abort finish it.
    pub open spec fn with_event(self, event: OwnedEventView) -> StepView {
        StepView {
            events: self.events.push(event),
            finished: self.finished || event is SessionCompleted || event is Aborted,
            ..self
        }
    }

    /// The round after more bytes for the PTY.
    pub open spec fn with_wire(self, bytes: Seq<u8>) -> StepView {
        StepView { to_pty: self.to_pty + bytes, ..self }
    }

    /// The round after more data of the file `name`, which belongs to `offset`;
    /// the offset of a chunk is that of its first data.
    pub open spec fn with_data(self, name: Seq<char>, offset: u64, data: Seq<u8>) -> StepView {
        let (offset, before) = match self.file_data {
            Some(chunk) if chunk.data.len() > 0 => (chunk.offset, chunk.data),
            _ => (offset, Seq::empty()),
        };
        StepView { file_data: Some(ChunkView { name, offset, data: before + data }), ..self }
    }

    /// Number of file bytes received in the round.
    pub open spec fn received(self) -> nat {
        match self.file_data {
            Some(chunk) => chunk.data.len(),
            None => 0,
        }
    }

    /// A file started in the round.
    pub open spec fn starts_file(self) -> bool {
        exists|i: int| 0 <= i < self.events.len() && #[trigger] self.events[i] is FileStarted
    }

    /// The name with which the last file of the round started.
    pub open spec fn started_name(self) -> Option<Seq<char>> {
        last_started(self.events)
    }
}

/// The name in the last of the events that start a file, if there is one.
pub open spec fn last_started(events: Seq<OwnedEventView>) -> Option<Seq<char>>
    decreases events.len(),
{
    if events.len() == 0 {
        None
    } else {
        match events.last() {
            OwnedEventView::FileStarted { name, .. } => Some(name),
            _ => last_started(events.drop_last()),
        }
    }
}

impl Default for ZmodemStep {
    fn default() -> (r: Self)
        ensures
            r@ == StepView::nothing(),
    {
        let step = ZmodemStep {
            to_pty: Vec::new(),
            file_data: None,
            events: Vec::new(),
            file_request: None,
            finished: false,
        };
        assert(step@.events =~= Seq::<OwnedEventView>::empty());
        step
    }
}

impl ZmodemStep {
    fn add_event(&mut self, event: OwnedEvent)
        ensures
            final(self)@ == old(self)@.with_event(event@),
    {
        if matches!(event, OwnedEvent::SessionCompleted | OwnedEvent::Aborted) {
            self.finished = true;
        }
        let ghost before = self.events@.map_values(|event: OwnedEvent| event@);
        let ghost view = event@;
        self.events.push(event);
        assert(self.events@.map_values(|event: OwnedEvent| event@) =~= before.push(view));
    }

    fn add_data(&mut self, name: &String, offset: u64, data: &[u8])
        ensures
            final(self)@ == old(self)@.with_data(name@, offset, data@),
    {
        let (offset, mut bytes): (u64, Vec<u8>) = match self.file_data.take() {
            Some(chunk) if chunk.data.len() > 0 => (chunk.offset, chunk.data),
            _ => (offset, Vec::new()),
        };
        append(&mut bytes, data);
        self.file_data = Some(FileChunk { name: name.clone(), offset, data: bytes });
    }
}

/// What the machine has to be told after an action was carried out.
#[derive(Clone, Copy, Debug, PartialEq, Eq, Structural)]
pub enum Acknowledge {
    /// This many bytes went to the wire.
    Wire(usize),
    /// This many file bytes were taken.
    File(usize),
    /// Nothing; poll again.
    Nothing,
    /// Nothing, and there is no more to do in this round.
    Stop,
}

/// The file in flight of a receiving session.
#[derive(Debug, PartialEq, Eq)]
pub struct IncomingFile {
    /// Name advertised by the sender.
    pub name: String,
    /// Number of its bytes that were received.
    pub received: u64,
}

/// The file in flight over plain values.
pub ghost struct IncomingView {
    pub name: Seq<char>,
    pub received: u64,
}

impl View for IncomingFile {
    type V = IncomingView;

    open spec fn view(&self) -> IncomingView {
        IncomingView { name: self.name@, received: self.received }
    }
}

impl IncomingView {
    /// No file was announced yet.
    pub open spec fn none() -> IncomingView {
        IncomingView { name: Seq::empty(), received: 0 }
    }

    /// The file after `count` more bytes; the count stops at its largest value.
    pub open spec fn with_more(self, count: nat) -> IncomingView {
        IncomingView {
            received: if self.received + count > u64::MAX {
                u64::MAX
            } else {
                (self.received + count) as u64
            },
            ..self
        }
    }
}

impl IncomingFile {
    /// No file was announced yet.
    pub fn none() -> (r: Self)
        ensures
            r@ == IncomingView::none(),
    {
        let file = IncomingFile { name: String::new(), received: 0 };
        assert(file@.name =~= Seq::<char>::empty());
        file
    }
}

/// The file in flight and the round so far, after `action`.
pub open spec fn download_after(
    file: IncomingView,
    step: StepView,
    action: ActionView,
) -> (IncomingView, StepView, Acknowledge) {
    match (action, reported_event(action)) {
        (ActionView::WriteWire(bytes), _) => (
            file,
            step.with_wire(bytes),
            Acknowledge::Wire(bytes.len() as usize),
        ),
        (ActionView::WriteFile(data), _) => (
            file.with_more(data.len()),
            step.with_data(file.name, file.received, data),
            Acknowledge::File(data.len() as usize),
        ),
        (_, Some(event)) => (
            match event {
                OwnedEventView::FileStarted { name, .. } => IncomingView { name, received: 0 },
                _ => file,
            },
            step.with_event(event),
            Acknowledge::Nothing,
        ),
        _ => (file, step, Acknowledge::Stop),
    }
}

/// Carries out one action of the receiving machine: collects bytes for the
/// PTY, file data under the name of the file in flight and the offset it
/// belongs to, and events.
pub fn apply_download_action(
    file: &mut IncomingFile,
    step: &mut ZmodemStep,
    action: &LinkAction,
) -> (r: Acknowledge)
    ensures
        (final(file)@, final(step)@, r) == download_after(old(file)@, old(step)@, action@),
{
    match action {
        LinkAction::WriteWire(bytes) => {
            append(&mut step.to_pty, bytes.as_slice());
            return Acknowledge::Wire(bytes.len());
        },
        LinkAction::WriteFile(data) => {
            step.add_data(&file.name, file.received, data.as_slice());
            file.received = file.received.saturating_add(data.len() as u64);
            return Acknowledge::File(data.len());
        },
        _ => {},
    }
    match own_event(action) {
        Some(event) => {
            if let OwnedEvent::FileStarted { name: started, .. } = &event {
                *file = IncomingFile { name: started.clone(), received: 0 };
            }
            step.add_event(event);
            Acknowledge::Nothing
        },
        None => Acknowledge::Stop,
    }
}

/// The round so far and whether the current file is still in flight, after
/// `action` of the sending machine.
pub open spec fn upload_after(
    current: Option<UploadFile>,
    step: StepView,
    action: ActionView,
) -> (Option<UploadFile>, StepView, Acknowledge) {
    match (action, reported_event(action)) {
        (ActionView::WriteWire(bytes), _) => (
            current,
            step.with_wire(bytes),
            Acknowledge::Wire(bytes.len() as usize),
        ),
        (ActionView::ReadFile { offset, max_len }, _) => (
            current,
            StepView { file_request: Some(FileRequest { offset, max_len }), ..step },
            Acknowledge::Stop,
        ),
        (_, Some(event)) => (
            if event is FileCompleted {
                None
            } else {
                current
            },
            step.with_event(event),
            Acknowledge::Nothing,
        ),
        _ => (current, step, Acknowledge::Stop),
    }
}

/// Carries out one action of the sending machine: collects bytes for the PTY,
/// the request for file bytes, and events; a completed file is let go.
pub fn apply_upload_action(
    current: &mut Option<UploadFile>,
    step: &mut ZmodemStep,
    action: &LinkAction,
) -> (r: Acknowledge)
    ensures
        (*final(current), final(step)@, r) == upload_after(*old(current), old(step)@, action@),
{
    match action {
        LinkAction::WriteWire(bytes) => {
            append(&mut step.to_pty, bytes.as_slice());
            return Acknowledge::Wire(bytes.len());
        },
        LinkAction::ReadFile { offset, max_len } => {
            step.file_request = Some(FileRequest { offset: *offset, max_len: *max_len });
            return Acknowledge::Stop;
        },
        _ => {},
    }
    match own_event(action) {
        Some(event) => {
            if matches!(event, OwnedEvent::FileCompleted) {
                *current = None;
            }
            step.add_event(event);
            Acknowledge::Nothing
        },
        None => Acknowledge::Stop,
    }
}

/// Most polls in one round.
pub const POLL_LIMIT: u64 = 0xffff_ffff_ffff_ffff;

/// A receiving session over plain values.
pub ghost struct DownloadView {
    pub history: ReceiverHistory,
    pub file: IncomingView,
    pub finished: bool,
}

/// The machine after all of `bytes` was offered to it, as often as it takes
/// some, and the error that stopped it.
pub open spec fn receiver_fed(history: ReceiverHistory, bytes: Seq<u8>) -> (
    ReceiverHistory,
    Option<ZmodemError>,
)
    decreases bytes.len(),
{
    let next = history.then_call(ReceiverCall::SubmitWire(bytes));
    if bytes.len() == 0 {
        (history, None)
    } else {
        match receiver_submit_wire(history, bytes) {
            Err(error) => (next, Some(error)),
            Ok(count) => if count == 0 || count > bytes.len() {
                (next, None)
            } else {
                receiver_fed(next, bytes.skip(count as int))
            },
        }
    }
}

/// A receiving machine polled at most `fuel` times, each action carried out,
/// until it has no more to do or refuses an acknowledgement.
pub open spec fn receiver_drained(
    history: ReceiverHistory,
    file: IncomingView,
    step: StepView,
    fuel: nat,
) -> (ReceiverHistory, IncomingView, Result<StepView, ZmodemError>)
    decreases fuel,
{
    if fuel == 0 {
        (history, file, Ok(step))
    } else {
        let polled = history.then_call(ReceiverCall::Poll);
        let (file, step, acknowledge) = download_after(file, step, receiver_poll(history));
        match acknowledge {
            Acknowledge::Wire(count) => receiver_drained(
                polled.then_call(ReceiverCall::WireWritten(count)),
                file,
                step,
                (fuel - 1) as nat,
            ),
            Acknowledge::File(count) => {
                let told = polled.then_call(ReceiverCall::FileWritten(count));
                match receiver_file_written(polled, count) {
                    Err(error) => (told, file, Err(error)),
                    Ok(_) => receiver_drained(told, file, step, (fuel - 1) as nat),
                }
            },
            Acknowledge::Nothing => receiver_drained(polled, file, step, (fuel - 1) as nat),
            Acknowledge::Stop => (polled, file, Ok(step)),
        }
    }
}

/// A receiving machine polled for bytes to write, at most `fuel` times; events
/// pass unreported, and anything else ends it.
pub open spec fn receiver_flushed(history: ReceiverHistory, out: Seq<u8>, fuel: nat) -> (
    ReceiverHistory,
    Seq<u8>,
)
    decreases fuel,
{
    let polled = history.then_call(ReceiverCall::Poll);
    if fuel == 0 {
        (history, out)
    } else {
        match receiver_poll(history) {
            ActionView::WriteWire(bytes) => receiver_flushed(
                polled.then_call(ReceiverCall::WireWritten(bytes.len() as usize)),
                out + bytes,
                (fuel - 1) as nat,
            ),
            action => if reported_event(action) is Some {
                receiver_flushed(polled, out, (fuel - 1) as nat)
            } else {
                (polled, out)
            },
        }
    }
}

/// The session and the round after wire bytes were submitted.
pub open spec fn download_submitted(view: DownloadView, bytes: Seq<u8>) -> (
    DownloadView,
    Result<StepView, ZmodemError>,
) {
    match receiver_fed(view.history, bytes) {
        (history, Some(error)) => (DownloadView { history, ..view }, Err(error)),
        (history, None) => {
            let (history, file, result) = receiver_drained(
                history,
                view.file,
                StepView::nothing(),
                POLL_LIMIT as nat,
            );
            let finished = view.finished || (result matches Ok(step) && step.finished);
            (DownloadView { history, file, finished }, result)
        },
    }
}

/// The view of a round or of the error in its place.
pub open spec fn step_result(result: Result<ZmodemStep, ZmodemError>) -> Result<
    StepView,
    ZmodemError,
> {
    match result {
        Ok(step) => Ok(step@),
        Err(error) => Err(error),
    }
}

/// A session that receives files.
pub struct DownloadSession {
    receiver: ReceiverLink,
    current: IncomingFile,
    finished: bool,
}

impl View for DownloadSession {
    type V = DownloadView;

    closed spec fn view(&self) -> DownloadView {
        DownloadView {
            history: self.receiver@,
            file: self.current@,
            finished: self.finished,
        }
    }
}

impl DownloadSession {
    fn step(&mut self) -> (r: Vec<u8>)
        ensures
            (final(self)@.history, r@) == receiver_flushed(
                old(self)@.history,
                Seq::empty(),
                POLL_LIMIT as nat,
            ),
            final(self)@ == (DownloadView { history: final(self)@.history, ..old(self)@ }),
    {
        let mut sink = PtySink::new();
        let mut fuel: u64 = POLL_LIMIT;
        while fuel > 0
            invariant
                receiver_flushed(old(self)@.history, Seq::empty(), POLL_LIMIT as nat)
                    == receiver_flushed(self@.history, sink@, fuel as nat),
                self@ == (DownloadView { history: self@.history, ..old(self)@ }),
            decreases fuel,
        {
            fuel = fuel - 1;
            let action = self.receiver.poll();
            match &action {
                LinkAction::WriteWire(bytes) => {
                    sink.write_bytes(bytes.as_slice());
                    self.receiver.wire_written(bytes.len());
                },
                LinkAction::Idle => return sink.take(),
                other => {
                    if own_event(other).is_none() {
                        return sink.take();
                    }
                },
            }
        }
        sink.take()
    }

    fn submit_wire(&mut self, bytes: &[u8]) -> (r: Result<ZmodemStep, ZmodemError>)
        ensures
            (final(self)@, step_result(r)) == download_submitted(old(self)@, bytes@),
    {
        let mut consumed: usize = 0;
        assert(bytes@.skip(0) =~= bytes@);
        while consumed < bytes.len()
            invariant_except_break
                receiver_fed(old(self)@.history, bytes@) == receiver_fed(
                    self@.history,
                    bytes@.skip(consumed as int),
                ),
            invariant
                consumed <= bytes.len(),
                self@ == (DownloadView { history: self@.history, ..old(self)@ }),
            ensures
                receiver_fed(old(self)@.history, bytes@) == (self@.history, None::<ZmodemError>),
            decreases bytes.len() - consumed,
        {
            let rest = vstd::slice::slice_subrange(bytes, consumed, bytes.len());
            assert(rest@ =~= bytes@.skip(consumed as int));
            match self.receiver.submit_wire(rest) {
                Err(error) => return Err(error),
                Ok(count) => {
                    if count == 0 {
                        break;
                    }
                    assert(rest@.skip(count as int) =~= bytes@.skip(consumed + count));
                    consumed = consumed + count;
                },
            }
        }

        let mut step = ZmodemStep::default();
        let mut fuel: u64 = POLL_LIMIT;
        let ghost fed = self@;
        while fuel > 0
            invariant_except_break
                receiver_drained(fed.history, fed.file, StepView::nothing(), POLL_LIMIT as nat)
                    == receiver_drained(self@.history, self@.file, step@, fuel as nat),
            invariant
                self@.finished == fed.finished,
                receiver_fed(old(self)@.history, bytes@) == (fed.history, None::<ZmodemError>),
                fed == (DownloadView { history: fed.history, ..old(self)@ }),
            ensures
                receiver_drained(fed.history, fed.file, StepView::nothing(), POLL_LIMIT as nat)
                    == (self@.history, self@.file, Ok::<StepView, ZmodemError>(step@)),
            decreases fuel,
        {
            fuel = fuel - 1;
            let action = self.receiver.poll();
            match apply_download_action(&mut self.current, &mut step, &action) {
                Acknowledge::Wire(count) => self.receiver.wire_written(count),
                Acknowledge::File(count) => {
                    if let Err(error) = self.receiver.file_written(count) {
                        return Err(error);
                    }
                },
                Acknowledge::Nothing => {},
                Acknowledge::Stop => break,
            }
        }
        if step.finished {
            self.finished = true;
        }
        Ok(step)
    }

    fn abort(&mut self) -> (r: Vec<u8>)
        ensures
            r@ == abort_bytes(),
            final(self)@ == (DownloadView {
                history: old(self)@.history.then_call(ReceiverCall::Abort),
                finished: true,
                ..old(self)@
            }),
    {
        let _ = self.receiver.abort();
        self.finished = true;
        abort_sequence()
    }
}

/// A sending session over plain values.
pub ghost struct UploadView {
    pub history: SenderHistory,
    pub files: Seq<UploadFile>,
    pub current: Option<UploadFile>,
    pub finished: bool,
}

/// The machine after all of `bytes` was offered to it, as often as it takes
/// some, and the error that stopped it.
pub open spec fn sender_fed(history: SenderHistory, bytes: Seq<u8>) -> (
    SenderHistory,
    Option<ZmodemError>,
)
    decreases bytes.len(),
{
    let next = history.then_call(SenderCall::SubmitWire(bytes));
    if bytes.len() == 0 {
        (history, None)
    } else {
        match sender_submit_wire(history, bytes) {
            Err(error) => (next, Some(error)),
            Ok(count) => if count == 0 || count > bytes.len() {
                (next, None)
            } else {
                sender_fed(next, bytes.skip(count as int))
            },
        }
    }
}

/// A sending machine polled at most `fuel` times, each action carried out,
/// until it asks for file bytes or has no more to do.
pub open spec fn sender_drained(
    history: SenderHistory,
    current: Option<UploadFile>,
    step: StepView,
    fuel: nat,
) -> (SenderHistory, Option<UploadFile>, StepView)
    decreases fuel,
{
    if fuel == 0 {
        (history, current, step)
    } else {
        let polled = history.then_call(SenderCall::Poll);
        let (current, step, acknowledge) = upload_after(current, step, sender_poll(history));
        match acknowledge {
            Acknowledge::Wire(count) => sender_drained(
                polled.then_call(SenderCall::WireWritten(count)),
                current,
                step,
                (fuel - 1) as nat,
            ),
            Acknowledge::Nothing => sender_drained(polled, current, step, (fuel - 1) as nat),
            _ => (polled, current, step),
        }
    }
}

/// A sending machine polled for bytes to write, at most `fuel` times; anything
/// else ends it.
pub open spec fn sender_flushed(history: SenderHistory, out: Seq<u8>, fuel: nat) -> (
    SenderHistory,
    Seq<u8>,
)
    decreases fuel,
{
    let polled = history.then_call(SenderCall::Poll);
    if fuel == 0 {
        (history, out)
    } else {
        match sender_poll(history) {
            ActionView::WriteWire(bytes) => sender_flushed(
                polled.then_call(SenderCall::WireWritten(bytes.len() as usize)),
                out + bytes,
                (fuel - 1) as nat,
            ),
            _ => (polled, out),
        }
    }
}

/// The session and the round after wire bytes were submitted.
pub open spec fn upload_submitted(view: UploadView, bytes: Seq<u8>) -> (
    UploadView,
    Result<StepView, ZmodemError>,
) {
    match sender_fed(view.history, bytes) {
        (history, Some(error)) => (UploadView { history, ..view }, Err(error)),
        (history, None) => {
            let (history, current, step) = sender_drained(
                history,
                view.current,
                StepView::nothing(),
                POLL_LIMIT as nat,
            );
            (
                UploadView { history, current, finished: view.finished || step.finished, ..view },
                Ok(step),
            )
        },
    }
}

/// The session after it offered its next file: nothing happens while one is in
/// flight or none is left, and a file that the machine refuses is dropped.
pub open spec fn upload_offered(view: UploadView) -> (UploadView, Option<ZmodemError>) {
    if view.current is Some || view.files.len() == 0 {
        (view, None)
    } else {
        let file = view.files[0];
        let offered = UploadView {
            history: view.history.then_call(SenderCall::StartFile(file.name@, file.size)),
            files: view.files.skip(1),
            ..view
        };
        match sender_start_file(view.history, file.name@, file.size) {
            Ok(_) => (UploadView { current: Some(file), ..offered }, None),
            Err(error) => (offered, Some(error)),
        }
    }
}

/// A session that sends files.
pub struct UploadSession {
    sender: SenderLink,
    files: VecDeque<UploadFile>,
    current: Option<UploadFile>,
    finished: bool,
}

impl View for UploadSession {
    type V = UploadView;

    closed spec fn view(&self) -> UploadView {
        UploadView {
            history: self.sender@,
            files: self.files@,
            current: self.current,
            finished: self.finished,
        }
    }
}

impl UploadSession {
    fn step(&mut self) -> (r: Vec<u8>)
        ensures
            (final(self)@.history, r@) == sender_flushed(
                old(self)@.history,
                Seq::empty(),
                POLL_LIMIT as nat,
            ),
            final(self)@ == (UploadView { history: final(self)@.history, ..old(self)@ }),
    {
        let mut sink = PtySink::new();
        let mut fuel: u64 = POLL_LIMIT;
        while fuel > 0
            invariant
                sender_flushed(old(self)@.history, Seq::empty(), POLL_LIMIT as nat)
                    == sender_flushed(self@.history, sink@, fuel as nat),
                self@ == (UploadView { history: self@.history, ..old(self)@ }),
            decreases fuel,
        {
            fuel = fuel - 1;
            let action = self.sender.poll();
            match &action {
                LinkAction::WriteWire(bytes) => {
                    sink.write_bytes(bytes.as_slice());
                    self.sender.wire_written(bytes.len());
                },
                _ => return sink.take(),
            }
        }
        sink.take()
    }

    fn submit_wire(&mut self, bytes: &[u8]) -> (r: Result<ZmodemStep, ZmodemError>)
        ensures
            (final(self)@, step_result(r)) == upload_submitted(old(self)@, bytes@),
    {
        let mut consumed: usize = 0;
        assert(bytes@.skip(0) =~= bytes@);
        while consumed < bytes.len()
            invariant_except_break
                sender_fed(old(self)@.history, bytes@) == sender_fed(
                    self@.history,
                    bytes@.skip(consumed as int),
                ),
            invariant
                consumed <= bytes.len(),
                self@ == (UploadView { history: self@.history, ..old(self)@ }),
            ensures
                sender_fed(old(self)@.history, bytes@) == (self@.history, None::<ZmodemError>),
            decreases bytes.len() - consumed,
        {
            let rest = vstd::slice::slice_subrange(bytes, consumed, bytes.len());
            assert(rest@ =~= bytes@.skip(consumed as int));
            match self.sender.submit_wire(rest) {
                Err(error) => return Err(error),
                Ok(count) => {
                    if count == 0 {
                        break;
                    }
                    assert(rest@.skip(count as int) =~= bytes@.skip(consumed + count));
                    consumed = consumed + count;
                },
            }
        }

        let mut step = ZmodemStep::default();
        let mut fuel: u64 = POLL_LIMIT;
        let ghost fed = self@;
        while fuel > 0
            invariant_except_break
                sender_drained(fed.history, fed.current, StepView::nothing(), POLL_LIMIT as nat)
                    == sender_drained(self@.history, self@.current, step@, fuel as nat),
            invariant
                self@.finished == fed.finished,
                self@.files == fed.files,
                sender_fed(old(self)@.history, bytes@) == (fed.history, None::<ZmodemError>),
                fed == (UploadView { history: fed.history, ..old(self)@ }),
            ensures
                sender_drained(fed.history, fed.current, StepView::nothing(), POLL_LIMIT as nat)
                    == (self@.history, self@.current, step@),
            decreases fuel,
        {
            fuel = fuel - 1;
            let action = self.sender.poll();
            match apply_upload_action(&mut self.current, &mut step, &action) {
                Acknowledge::Wire(count) => self.sender.wire_written(count),
                Acknowledge::Nothing => {},
                _ => break,
            }
        }
        if step.finished {
            self.finished = true;
        }
        Ok(step)
    }

    /// Offers the next queued file once the sender is ready for one.
    fn offer_next_file(&mut self) -> (r: Result<(), ZmodemError>)
        ensures
            (
                final(self)@,
                match r {
                    Ok(_) => None,
                    Err(error) => Some(error),
                },
            ) == upload_offered(old(self)@),
    {
        if self.current.is_some() {
            return Ok(());
        }
        let file = match self.files.pop_front() {
            Some(file) => file,
            None => return Ok(()),
        };
        assert(self@.files =~= old(self)@.files.skip(1));
        if let Err(error) = self.sender.start_file(file.name.as_slice(), file.size) {
            return Err(error);
        }
        self.current = Some(file);
        Ok(())
    }

    fn abort(&mut self) -> (r: Vec<u8>)
        ensures
            r@ == abort_bytes(),
            final(self)@ == (UploadView {
                history: old(self)@.history.then_call(SenderCall::Abort),
                finished: true,
                ..old(self)@
            }),
    {
        self.sender.abort();
        self.finished = true;
        abort_sequence()
    }
}

/// A live ZMODEM transfer.
///
/// Drives the state machine for the terminal's role and turns PTY output into
/// file bytes (or the reverse) plus protocol bytes to write back. The caller
/// owns all I/O: nothing here blocks or touches the filesystem.
pub enum ZmodemSession {
    /// The remote is running `sz`; we are writing files to disk.
    Download(Box<DownloadSession>),
    /// The remote is running `rz`; we are reading files from disk.
    Upload(Box<UploadSession>),
}

/// A live transfer over plain values.
pub ghost enum SessionView {
    Download(DownloadView),
    Upload(UploadView),
}

impl View for ZmodemSession {
    type V = SessionView;

    open spec fn view(&self) -> SessionView {
        match *self {
            ZmodemSession::Download(session) => SessionView::Download((*session)@),
            ZmodemSession::Upload(session) => SessionView::Upload((*session)@),
        }
    }
}

impl SessionView {
    /// A receiving session that has done nothing yet.
    pub open spec fn new_download() -> SessionView {
        SessionView::Download(
            DownloadView {
                history: ReceiverHistory {
                    buffer_len: 0,
                    overlapped_io: true,
                    calls: Seq::empty(),
                },
                file: IncomingView::none(),
                finished: false,
            },
        )
    }

    /// A sending session that has done nothing yet.
    pub open spec fn new_upload(files: Seq<UploadFile>) -> SessionView {
        SessionView::Upload(
            UploadView { history: SenderHistory::new(), files, current: None, finished: false },
        )
    }

    /// The session and its round after wire bytes were submitted.
    pub open spec fn submitted(self, bytes: Seq<u8>) -> (
        SessionView,
        Result<StepView, ZmodemError>,
    ) {
        match self {
            SessionView::Download(view) => {
                let (view, result) = download_submitted(view, bytes);
                (SessionView::Download(view), result)
            },
            SessionView::Upload(view) => {
                let (view, result) = upload_submitted(view, bytes);
                (SessionView::Upload(view), result)
            },
        }
    }

    /// The session after its pending bytes were collected, and those bytes.
    pub open spec fn flushed(self) -> (SessionView, Seq<u8>) {
        match self {
            SessionView::Download(view) => {
                let (history, out) = receiver_flushed(
                    view.history,
                    Seq::empty(),
                    POLL_LIMIT as nat,
                );
                (SessionView::Download(DownloadView { history, ..view }), out)
            },
            SessionView::Upload(view) => {
                let (history, out) = sender_flushed(view.history, Seq::empty(), POLL_LIMIT as nat);
                (SessionView::Upload(UploadView { history, ..view }), out)
            },
        }
    }

    /// The session after it offered its next file, and the bytes to write.
    pub open spec fn offered(self) -> (SessionView, Result<Seq<u8>, ZmodemError>) {
        match self {
            SessionView::Download(_) => (self, Ok(Seq::empty())),
            SessionView::Upload(view) => match upload_offered(view) {
                (view, Some(error)) => (SessionView::Upload(view), Err(error)),
                (view, None) => {
                    let (after, out) = SessionView::Upload(view).flushed();
                    (after, Ok(out))
                },
            },
        }
    }

    /// The session after it was given file data, and the bytes to write.
    pub open spec fn supplied(self, data: Seq<u8>) -> (SessionView, Result<Seq<u8>, ZmodemError>) {
        match self {
            SessionView::Download(_) => (self, Ok(Seq::empty())),
            SessionView::Upload(view) => {
                let told = SessionView::Upload(
                    UploadView {
                        history: view.history.then_call(SenderCall::SubmitFile(data)),
                        ..view
                    },
                );
                match sender_submit_file(view.history, data) {
                    Err(error) => (told, Err(error)),
                    Ok(_) => {
                        let (after, out) = told.flushed();
                        (after, Ok(out))
                    },
                }
            },
        }
    }

    /// The session after it was aborted.
    pub open spec fn aborted(self) -> SessionView {
        match self {
            SessionView::Download(view) => SessionView::Download(
                DownloadView {
                    history: view.history.then_call(ReceiverCall::Abort),
                    finished: true,
                    ..view
                },
            ),
            SessionView::Upload(view) => SessionView::Upload(
                UploadView {
                    history: view.history.then_call(SenderCall::Abort),
                    finished: true,
                    ..view
                },
            ),
        }
    }
}

/// The view of bytes or of the error in their place.
pub open spec fn bytes_result(result: Result<Vec<u8>, ZmodemError>) -> Result<
    Seq<u8>,
    ZmodemError,
> {
    match result {
        Ok(bytes) => Ok(bytes@),
        Err(error) => Err(error),
    }
}

impl ZmodemSession {
    /// Starts receiving files from a remote `sz`.
    pub fn new_download() -> (r: Result<Self, ZmodemError>)
        ensures
            r matches Ok(session) && session@ == SessionView::new_download(),
    {
        match ReceiverLink::open(0, true) {
            Ok(receiver) => {
                let session = DownloadSession {
                    receiver,
                    current: IncomingFile::none(),
                    finished: false,
                };
                Ok(ZmodemSession::Download(Box::new(session)))
            },
            Err(error) => Err(error),
        }
    }

    /// Starts sending `files` to a remote `rz`.
    pub fn new_upload(files: Vec<UploadFile>) -> (r: Result<Self, ZmodemError>)
        ensures
            r matches Ok(session) && session@ == SessionView::new_upload(files@),
    {
        let sender = match SenderLink::open() {
            Ok(sender) => sender,
            Err(error) => return Err(error),
        };
        let ghost all = files@;
        let mut queue: VecDeque<UploadFile> = VecDeque::new();
        let mut files = files;
        while files.len() > 0
            invariant
                queue@ + files@ == all,
            decreases files.len(),
        {
            let file = files.remove(0);
            queue.push_back(file);
            assert(queue@ + files@ =~= all);
        }
        assert(queue@ =~= all);
        Ok(
            ZmodemSession::Upload(
                Box::new(UploadSession { sender, files: queue, current: None, finished: false }),
            ),
        )
    }

    /// Which side of the transfer the terminal plays.
    pub fn role(&self) -> (r: ZmodemRole)
        ensures
            r == match self@ {
                SessionView::Download(_) => ZmodemRole::Download,
                SessionView::Upload(_) => ZmodemRole::Upload,
            },
    {
        match self {
            ZmodemSession::Download(_) => ZmodemRole::Download,
            ZmodemSession::Upload(_) => ZmodemRole::Upload,
        }
    }

    /// Whether the session was completed or aborted, by either side.
    pub fn is_finished(&self) -> (r: bool)
        ensures
            r == match self@ {
                SessionView::Download(view) => view.finished,
                SessionView::Upload(view) => view.finished,
            },
    {
        match self {
            ZmodemSession::Download(session) => session.finished,
            ZmodemSession::Upload(session) => session.finished,
        }
    }

    /// Feeds PTY output into the protocol and returns what the caller must do.
    pub fn submit_wire(&mut self, bytes: &[u8]) -> (r: Result<ZmodemStep, ZmodemError>)
        ensures
            (final(self)@, step_result(r)) == old(self)@.submitted(bytes@),
    {
        match self {
            ZmodemSession::Download(session) => session.submit_wire(bytes),
            ZmodemSession::Upload(session) => session.submit_wire(bytes),
        }
    }

    /// Bytes to write to the PTY right after the session is created.
    pub fn initial_output(&mut self) -> (r: Result<Vec<u8>, ZmodemError>)
        ensures
            r matches Ok(out) && (final(self)@, out@) == old(self)@.flushed(),
    {
        match self {
            ZmodemSession::Download(session) => Ok(session.step()),
            ZmodemSession::Upload(session) => Ok(session.step()),
        }
    }

    /// Advances an upload by offering the next queued file.
    ///
    /// Returns protocol bytes to write; a no-op once the queue is empty.
    pub fn offer_next_file(&mut self) -> (r: Result<Vec<u8>, ZmodemError>)
        ensures
            (final(self)@, bytes_result(r)) == old(self)@.offered(),
    {
        match self {
            ZmodemSession::Download(_) => Ok(Vec::new()),
            ZmodemSession::Upload(session) => {
                if let Err(error) = session.offer_next_file() {
                    return Err(error);
                }
                Ok(session.step())
            },
        }
    }

    /// Supplies file data the sender asked for via [`ZmodemStep::file_request`].
    pub fn submit_file(&mut self, data: &[u8]) -> (r: Result<Vec<u8>, ZmodemError>)
        ensures
            (final(self)@, bytes_result(r)) == old(self)@.supplied(data@),
    {
        match self {
            ZmodemSession::Download(_) => Ok(Vec::new()),
            ZmodemSession::Upload(session) => {
                if let Err(error) = session.sender.submit_file(data) {
                    return Err(error);
                }
                Ok(session.step())
            },
        }
    }

    /// Aborts the transfer, returning bytes to write to the PTY.
    pub fn abort(&mut self) -> (r: Vec<u8>)
        ensures
            r@ == abort_bytes(),
            final(self)@ == old(self)@.aborted(),
    {
        match self {
            ZmodemSession::Download(session) => session.abort(),
            ZmodemSession::Upload(session) => session.abort(),
        }
    }
}

proof fn lemma_drained_rounds_count(
    history: ReceiverHistory,
    file: IncomingView,
    step: StepView,
    fuel: nat,
)
    ensures
        receiver_drained(history, file, step, fuel).2 matches Ok(last) ==> {
            let after = receiver_drained(history, file, step, fuel).1;
            &&& step.starts_file() ==> last.starts_file()
            &&& step.received() <= last.received()
            &&& !last.starts_file() ==> {
                &&& after == file.with_more((last.received() - step.received()) as nat)
                &&& last.file_data matches Some(chunk) ==> {
                    &&& step.received() == 0 ==> chunk.offset == file.received || Some(chunk)
                        == step.file_data
                    &&& step.received() > 0 ==> chunk.offset == step.file_data->0.offset
                    &&& chunk.name == file.name || (step.file_data is Some && chunk.name
                        == step.file_data->0.name)
                }
            }
        },
    decreases fuel,
{
    if fuel > 0 {
        let polled = history.then_call(ReceiverCall::Poll);
        let action = receiver_poll(history);
        let (next_file, next_step, acknowledge) = download_after(file, step, action);
        if step.starts_file() {
            let i = choose|i: int|
                0 <= i < step.events.len() && #[trigger] step.events[i] is FileStarted;
            assert(next_step.events[i] is FileStarted);
        }
        if let Some(event) = reported_event(action) {
            if event is FileStarted {
                assert(next_step.events[step.events.len() as int] is FileStarted);
            }
        }
        match acknowledge {
            Acknowledge::Wire(count) => {
                lemma_drained_rounds_count(
                    polled.then_call(ReceiverCall::WireWritten(count)),
                    next_file,
                    next_step,
                    (fuel - 1) as nat,
                );
            },
            Acknowledge::File(count) => {
                lemma_drained_rounds_count(
                    polled.then_call(ReceiverCall::FileWritten(count)),
                    next_file,
                    next_step,
                    (fuel - 1) as nat,
                );
            },
            Acknowledge::Nothing => {
                lemma_drained_rounds_count(polled, next_file, next_step, (fuel - 1) as nat);
            },
            Acknowledge::Stop => {},
        }
    }
}

/// What is known of a round after its last file started: the data since then is
/// counted, and if it is all of the round's data it starts at the front.
spec fn counts_started(file: IncomingView, step: StepView) -> bool {
    step.started_name() is Some ==> {
        &&& step.started_name() == Some(file.name)
        &&& file.received <= step.received()
        &&& file.received > 0 ==> step.file_data is Some && step.file_data->0.name == file.name
        &&& file.received == step.received() && step.received() > 0 ==> step.file_data->0.offset
            == 0
    }
}

proof fn lemma_actions_count_started(file: IncomingView, step: StepView, action: ActionView)
    requires
        counts_started(file, step),
    ensures
        counts_started(
            download_after(file, step, action).0,
            download_after(file, step, action).1,
        ),
{
    match (action, reported_event(action)) {
        (ActionView::WriteWire(_), _) => {},
        (ActionView::WriteFile(_), _) => {},
        (_, Some(event)) => {
            assert(step.events.push(event).drop_last() =~= step.events);
        },
        _ => {},
    }
}

proof fn lemma_rounds_count_started(
    history: ReceiverHistory,
    file: IncomingView,
    step: StepView,
    fuel: nat,
)
    requires
        counts_started(file, step),
    ensures
        receiver_drained(history, file, step, fuel).2 matches Ok(last) ==> counts_started(
            receiver_drained(history, file, step, fuel).1,
            last,
        ),
    decreases fuel,
{
    if fuel > 0 {
        let polled = history.then_call(ReceiverCall::Poll);
        let action = receiver_poll(history);
        let (next_file, next_step, acknowledge) = download_after(file, step, action);
        lemma_actions_count_started(file, step, action);
        match acknowledge {
            Acknowledge::Wire(count) => {
                lemma_rounds_count_started(
                    polled.then_call(ReceiverCall::WireWritten(count)),
                    next_file,
                    next_step,
                    (fuel - 1) as nat,
                );
            },
            Acknowledge::File(count) => {
                lemma_rounds_count_started(
                    polled.then_call(ReceiverCall::FileWritten(count)),
                    next_file,
                    next_step,
                    (fuel - 1) as nat,
                );
            },
            Acknowledge::Nothing => {
                lemma_rounds_count_started(polled, next_file, next_step, (fuel - 1) as nat);
            },
            Acknowledge::Stop => {},
        }
    }
}

proof fn lemma_last_started(events: Seq<OwnedEventView>)
    ensures
        last_started(events) is Some <==> exists|i: int|
            0 <= i < events.len() && #[trigger] events[i] is FileStarted,
    decreases events.len(),
{
    if events.len() > 0 {
        let front = events.drop_last();
        lemma_last_started(front);
        if events.last() is FileStarted {
            assert(events[events.len() - 1] is FileStarted);
        } else if last_started(front) is Some {
            let i = choose|i: int| 0 <= i < front.len() && #[trigger] front[i] is FileStarted;
            assert(events[i] is FileStarted);
        } else {
            assert forall|i: int| 0 <= i < events.len() implies !(
            #[trigger] events[i] is FileStarted) by {
                if i < front.len() {
                    assert(front[i] == events[i]);
                }
            }
        }
    }
}

/// A round in which a file starts has that file in flight, under the advertised
/// name, and counts the data since then. Where all data of the round belongs to
/// that file, it comes under the advertised name and with the offset 0.
pub proof fn law_started_files_begin_at_their_front(view: DownloadView, bytes: Seq<u8>)
    requires
        download_submitted(view, bytes).1 matches Ok(step) && step.starts_file(),
    ensures
        ({
            let (after, result) = download_submitted(view, bytes);
            let step = result->Ok_0;
            &&& step.started_name() == Some(after.file.name)
            &&& after.file.received <= step.received()
            &&& step.received() > 0 && after.file.received == step.received() ==> {
                &&& step.file_data matches Some(chunk)
                &&& chunk.offset == 0
                &&& chunk.name == after.file.name
            }
        }),
{
    let (history, _) = receiver_fed(view.history, bytes);
    lemma_rounds_count_started(history, view.file, StepView::nothing(), POLL_LIMIT as nat);
    lemma_last_started((download_submitted(view, bytes).1->Ok_0).events);
}

/// A round in which no file starts continues the file in flight: its data comes
/// under the name of that file and with the number of bytes received before as
/// its offset, and is counted.
pub proof fn law_chunks_follow_each_other(view: DownloadView, bytes: Seq<u8>)
    requires
        download_submitted(view, bytes).1 matches Ok(step) && !step.starts_file(),
    ensures
        ({
            let step = download_submitted(view, bytes).1->Ok_0;
            &&& download_submitted(view, bytes).0.file == view.file.with_more(step.received())
            &&& step.file_data matches Some(chunk) ==> chunk.offset == view.file.received
                && chunk.name == view.file.name
        }),
{
    let (history, _) = receiver_fed(view.history, bytes);
    lemma_drained_rounds_count(history, view.file, StepView::nothing(), POLL_LIMIT as nat);
}

/// The session after the rounds that these submissions make, one after another.
pub open spec fn download_after_rounds(view: DownloadView, inputs: Seq<Seq<u8>>) -> DownloadView
    decreases inputs.len(),
{
    if inputs.len() == 0 {
        view
    } else {
        download_submitted(download_after_rounds(view, inputs.drop_last()), inputs.last()).0
    }
}

/// What the last of these submissions comes to.
pub open spec fn last_round(view: DownloadView, inputs: Seq<Seq<u8>>) -> Result<
    StepView,
    ZmodemError,
> {
    download_submitted(download_after_rounds(view, inputs.drop_last()), inputs.last()).1
}

/// Number of file bytes that these submissions returned.
pub open spec fn returned_data(view: DownloadView, inputs: Seq<Seq<u8>>) -> nat
    decreases inputs.len(),
{
    if inputs.len() == 0 {
        0
    } else {
        returned_data(view, inputs.drop_last()) + match last_round(view, inputs) {
            Ok(step) => step.received(),
            Err(_) => 0,
        }
    }
}

/// The submissions receive one file from its start on: every round succeeds, a
/// file starts in the first of them, to which all of that round's data belongs,
/// and no other file starts.
pub open spec fn receives_one_file(view: DownloadView, inputs: Seq<Seq<u8>>) -> bool
    decreases inputs.len(),
{
    &&& inputs.len() > 0
    &&& last_round(view, inputs) matches Ok(step)
    &&& if inputs.len() == 1 {
        &&& step.starts_file()
        &&& download_after_rounds(view, inputs).file.received == step.received()
    } else {
        &&& !step.starts_file()
        &&& receives_one_file(view, inputs.drop_last())
    }
}

/// The name with which the file of these submissions started.
pub open spec fn received_name(view: DownloadView, inputs: Seq<Seq<u8>>) -> Option<Seq<char>> {
    match last_round(view, inputs.take(1)) {
        Ok(step) => step.started_name(),
        Err(_) => None,
    }
}

proof fn lemma_received_file(view: DownloadView, inputs: Seq<Seq<u8>>)
    requires
        receives_one_file(view, inputs),
        returned_data(view, inputs) <= u64::MAX,
    ensures
        download_after_rounds(view, inputs).file.received == returned_data(view, inputs),
        received_name(view, inputs) == Some(download_after_rounds(view, inputs).file.name),
    decreases inputs.len(),
{
    let before = inputs.drop_last();
    if inputs.len() == 1 {
        assert(inputs.take(1) =~= inputs);
        assert(returned_data(view, before) == 0);
        law_started_files_begin_at_their_front(
            download_after_rounds(view, before),
            inputs.last(),
        );
    } else {
        assert(inputs.take(1) =~= before.take(1));
        lemma_received_file(view, before);
        law_chunks_follow_each_other(download_after_rounds(view, before), inputs.last());
    }
}

/// The offset of a chunk is the number of bytes of its file that the rounds
/// before it returned, and its name is the one with which the file started, in
/// every round from the start of a file on until another file starts.
pub proof fn law_offsets_count_returned_data(view: DownloadView, inputs: Seq<Seq<u8>>)
    requires
        receives_one_file(view, inputs),
        returned_data(view, inputs) <= u64::MAX,
    ensures
        (last_round(view, inputs)->Ok_0).file_data matches Some(chunk) ==> chunk.data.len() > 0
            ==> {
            &&& chunk.offset == returned_data(view, inputs.drop_last())
            &&& Some(chunk.name) == received_name(view, inputs)
        },
{
    let before = inputs.drop_last();
    lemma_received_file(view, inputs);
    if inputs.len() == 1 {
        assert(returned_data(view, before) == 0);
        law_started_files_begin_at_their_front(
            download_after_rounds(view, before),
            inputs.last(),
        );
    } else {
        assert(inputs.take(1) =~= before.take(1));
        lemma_received_file(view, before);
        law_chunks_follow_each_other(download_after_rounds(view, before), inputs.last());
    }
}

/// A receiving session is never asked for file bytes: offering a file and
/// supplying data leave it as it is and write nothing.
pub proof fn law_downloads_ignore_upload_operations(view: DownloadView, data: Seq<u8>)
    ensures
        SessionView::Download(view).offered() == (
            SessionView::Download(view),
            Ok::<Seq<u8>, ZmodemError>(Seq::empty()),
        ),
        SessionView::Download(view).supplied(data) == (
            SessionView::Download(view),
            Ok::<Seq<u8>, ZmodemError>(Seq::empty()),
        ),
{
}

/// Sink that collects outgoing protocol bytes.
pub struct PtySink {
    bytes: Vec<u8>,
}

impl View for PtySink {
    type V = Seq<u8>;

    closed spec fn view(&self) -> Seq<u8> {
        self.bytes@
    }
}

impl Default for PtySink {
    fn default() -> (r: Self)
        ensures
            r@ == Seq::<u8>::empty(),
    {
        PtySink::new()
    }
}

impl PtySink {
    /// An empty sink.
    pub fn new() -> (r: Self)
        ensures
            r@ == Seq::<u8>::empty(),
    {
        PtySink { bytes: Vec::new() }
    }

    /// Collects all of `buf`.
    pub fn write_bytes(&mut self, buf: &[u8])
        ensures
            final(self)@ == old(self)@ + buf@,
    {
        append(&mut self.bytes, buf);
    }

    /// Takes what was collected and leaves the sink empty.
    pub fn take(&mut self) -> (r: Vec<u8>)
        ensures
            r@ == old(self)@,
            final(self)@ == Seq::<u8>::empty(),
    {
        let mut bytes: Vec<u8> = Vec::new();
        std::mem::swap(&mut bytes, &mut self.bytes);
        bytes
    }
}

/// The error of a `std::io::Write`.
#[verifier::external_type_specification]
#[verifier::external_body]
pub struct ExIoError(std::io::Error);

impl std::io::Write for PtySink {
    fn write(&mut self, buf: &[u8]) -> (r: std::io::Result<usize>)
        ensures
            r matches Ok(count) && count == buf.len(),
            final(self)@ == old(self)@ + buf@,
    {
        self.write_bytes(buf);
        Ok(buf.len())
    }

    fn flush(&mut self) -> (r: std::io::Result<()>)
        ensures
            r is Ok,
            final(self)@ == old(self)@,
    {
        Ok(())
    }
}

/// The sender as it was before its call at `index`.
pub open spec fn sender_before(history: SenderHistory, index: int) -> SenderHistory {
    SenderHistory { calls: history.calls.take(index), ..history }
}

/// What the sender was asked to do by its call at `index`, if that polled it.
pub open spec fn sender_answer(history: SenderHistory, index: int) -> ActionView {
    if history.calls[index] is Poll {
        sender_poll(sender_before(history, index))
    } else {
        ActionView::Idle
    }
}

/// The wire bytes that the sender handed out from its call at `from` on.
pub open spec fn sender_wire(history: SenderHistory, from: int) -> Seq<u8>
    decreases history.calls.len() - from,
{
    if from < 0 || from >= history.calls.len() {
        Seq::empty()
    } else {
        let first = match sender_answer(history, from) {
            ActionView::WriteWire(bytes) => bytes,
            _ => Seq::empty(),
        };
        first + sender_wire(history, from + 1)
    }
}

/// The events that the sender reported from its call at `from` on; one that is
/// not known counts as an abort.
pub open spec fn sender_events(history: SenderHistory, from: int) -> Seq<OwnedEventView>
    decreases history.calls.len() - from,
{
    if from < 0 || from >= history.calls.len() {
        Seq::empty()
    } else {
        let first = match sender_answer(history, from) {
            ActionView::FileStarted { name, size } => seq![
                OwnedEventView::FileStarted { name: utf8_lossy(name), size },
            ],
            ActionView::FileCompleted => seq![OwnedEventView::FileCompleted],
            ActionView::SessionCompleted => seq![OwnedEventView::SessionCompleted],
            ActionView::Aborted => seq![OwnedEventView::Aborted],
            ActionView::OtherEvent => seq![OwnedEventView::Aborted],
            _ => Seq::empty(),
        };
        first + sender_events(history, from + 1)
    }
}

/// From its call at `from` on the sender was given wire bytes, polled, and told
/// of what it had just handed out, at once and in full; nothing else was done
/// to it.
pub open spec fn sender_is_driven(history: SenderHistory, from: int) -> bool {
    forall|i: int|
        from <= i < history.calls.len() ==> match #[trigger] history.calls[i] {
            SenderCall::SubmitWire(_) => true,
            SenderCall::Poll => sender_answer(history, i) matches ActionView::WriteWire(bytes) ==> {
                &&& i + 1 < history.calls.len()
                &&& history.calls[i + 1] == SenderCall::WireWritten(bytes.len() as usize)
            },
            SenderCall::WireWritten(count) => i > from && (
            sender_answer(history, i - 1) matches ActionView::WriteWire(bytes) && count
                == bytes.len() as usize),
            _ => false,
        }
}

proof fn lemma_sender_driven(history: SenderHistory, from: int, to: int)
    requires
        0 <= from <= to <= history.calls.len(),
        sender_is_driven(history, to),
        forall|i: int| from <= i < to ==> #[trigger] history.calls[i] is SubmitWire,
    ensures
        sender_is_driven(history, from),
{
    assert forall|i: int| from <= i < history.calls.len() implies match #[trigger] history.calls[i] {
        SenderCall::SubmitWire(_) => true,
        SenderCall::Poll => sender_answer(history, i) matches ActionView::WriteWire(bytes) ==> {
            &&& i + 1 < history.calls.len()
            &&& history.calls[i + 1] == SenderCall::WireWritten(bytes.len() as usize)
        },
        SenderCall::WireWritten(count) => i > from && (
        sender_answer(history, i - 1) matches ActionView::WriteWire(bytes) && count
            == bytes.len() as usize),
        _ => false,
    } by {
        if i < to {
            assert(history.calls[i] is SubmitWire);
        }
    }
}

proof fn lemma_sender_fed(history: SenderHistory, bytes: Seq<u8>)
    ensures
        ({
            let (after, _) = sender_fed(history, bytes);
            &&& after.calls.len() >= history.calls.len()
            &&& sender_before(after, history.calls.len() as int) == history
            &&& forall|i: int|
                history.calls.len() <= i < after.calls.len() ==> #[trigger] after.calls[i] is SubmitWire
        }),
    decreases bytes.len(),
{
    let next = history.then_call(SenderCall::SubmitWire(bytes));
    let (after, _) = sender_fed(history, bytes);
    let (from, to) = (history.calls.len() as int, next.calls.len() as int);
    assert(history.calls.take(from) =~= history.calls);
    assert(next.calls.take(from) =~= history.calls);
    if bytes.len() > 0 {
        if let Ok(count) = sender_submit_wire(history, bytes) {
            if count != 0 && count <= bytes.len() {
                lemma_sender_fed(next, bytes.skip(count as int));
                assert(after.calls.take(from) =~= after.calls.take(to).take(from));
                assert(after.calls.take(to)[from] is SubmitWire);
            }
        }
    }
}

proof fn lemma_sender_silent(history: SenderHistory, from: int, to: int)
    requires
        0 <= from <= to <= history.calls.len(),
        forall|i: int| from <= i < to ==> !(#[trigger] history.calls[i] is Poll),
    ensures
        sender_wire(history, from) == sender_wire(history, to),
        sender_events(history, from) == sender_events(history, to),
    decreases to - from,
{
    if from < to {
        lemma_sender_silent(history, from + 1, to);
        assert(sender_wire(history, from) =~= sender_wire(history, from + 1));
        assert(sender_events(history, from) =~= sender_events(history, from + 1));
    }
}

/// A poll, and the call that acknowledges what it handed out, in front of
/// calls that are known to be in order.
proof fn lemma_sender_polled(before: SenderHistory, told: SenderHistory, after: SenderHistory)
    requires
        ({
            let polled = before.then_call(SenderCall::Poll);
            match sender_poll(before) {
                ActionView::WriteWire(bytes) => told == polled.then_call(
                    SenderCall::WireWritten(bytes.len() as usize),
                ),
                _ => told == polled,
            }
        }),
        after.calls.len() >= told.calls.len(),
        sender_before(after, told.calls.len() as int) == told,
        sender_is_driven(after, told.calls.len() as int),
    ensures
        ({
            let from = before.calls.len() as int;
            let to = told.calls.len() as int;
            &&& sender_before(after, from) == before
            &&& sender_is_driven(after, from)
            &&& after.calls[from] is Poll
            &&& sender_answer(after, from) == sender_poll(before)
            &&& sender_wire(after, from) == (match sender_poll(before) {
                ActionView::WriteWire(bytes) => bytes,
                _ => Seq::empty(),
            }) + sender_wire(after, to)
            &&& sender_events(after, from) == (match reported_event(sender_poll(before)) {
                Some(event) => seq![event],
                None => Seq::empty(),
            }) + sender_events(after, to)
        }),
{
    let from = before.calls.len() as int;
    let to = told.calls.len() as int;
    assert(after.calls.take(to) == told.calls);
    assert(after.calls.take(from) =~= after.calls.take(to).take(from));
    assert(told.calls.take(from) =~= before.calls);
    assert(after.calls.take(to)[from] == after.calls[from]);
    assert(told.calls[from] is Poll);
    assert(sender_before(after, from).calls =~= before.calls);
    if to == from + 2 {
        assert(after.calls.take(to)[from + 1] == after.calls[from + 1]);
    }
    lemma_sender_silent(after, from + 1, to);
    assert(sender_events(after, from) =~= (match reported_event(sender_poll(before)) {
        Some(event) => seq![event],
        None => Seq::empty(),
    }) + sender_events(after, to));
    assert forall|i: int| from <= i < after.calls.len() implies match #[trigger] after.calls[i] {
        SenderCall::SubmitWire(_) => true,
        SenderCall::Poll => sender_answer(after, i) matches ActionView::WriteWire(bytes) ==> {
            &&& i + 1 < after.calls.len()
            &&& after.calls[i + 1] == SenderCall::WireWritten(bytes.len() as usize)
        },
        SenderCall::WireWritten(count) => i > from && (
        sender_answer(after, i - 1) matches ActionView::WriteWire(bytes) && count
            == bytes.len() as usize),
        _ => false,
    } by {
        if i >= to {
            assert(sender_is_driven(after, to));
        }
    }
}

/// The receiver as it was before its call at `index`.
pub open spec fn receiver_before(history: ReceiverHistory, index: int) -> ReceiverHistory {
    ReceiverHistory { calls: history.calls.take(index), ..history }
}

/// What the receiver was asked to do by its call at `index`, if that polled it.
pub open spec fn receiver_answer(history: ReceiverHistory, index: int) -> ActionView {
    if history.calls[index] is Poll {
        receiver_poll(receiver_before(history, index))
    } else {
        ActionView::Idle
    }
}

/// The wire bytes that the receiver handed out from its call at `from` on.
pub open spec fn receiver_wire(history: ReceiverHistory, from: int) -> Seq<u8>
    decreases history.calls.len() - from,
{
    if from < 0 || from >= history.calls.len() {
        Seq::empty()
    } else {
        let first = match receiver_answer(history, from) {
            ActionView::WriteWire(bytes) => bytes,
            _ => Seq::empty(),
        };
        first + receiver_wire(history, from + 1)
    }
}

/// The events that the receiver reported from its call at `from` on; one that is
/// not known counts as an abort.
pub open spec fn receiver_events(history: ReceiverHistory, from: int) -> Seq<OwnedEventView>
    decreases history.calls.len() - from,
{
    if from < 0 || from >= history.calls.len() {
        Seq::empty()
    } else {
        let first = match receiver_answer(history, from) {
            ActionView::FileStarted { name, size } => seq![
                OwnedEventView::FileStarted { name: utf8_lossy(name), size },
            ],
            ActionView::FileCompleted => seq![OwnedEventView::FileCompleted],
            ActionView::SessionCompleted => seq![OwnedEventView::SessionCompleted],
            ActionView::Aborted => seq![OwnedEventView::Aborted],
            ActionView::OtherEvent => seq![OwnedEventView::Aborted],
            _ => Seq::empty(),
        };
        first + receiver_events(history, from + 1)
    }
}

/// From its call at `from` on the receiver was given wire bytes, polled, and told
/// of what it had just handed out, at once and in full; nothing else was done
/// to it.
pub open spec fn receiver_is_driven(history: ReceiverHistory, from: int) -> bool {
    forall|i: int|
        from <= i < history.calls.len() ==> match #[trigger] history.calls[i] {
            ReceiverCall::SubmitWire(_) => true,
            ReceiverCall::Poll => receiver_answer(history, i) matches ActionView::WriteWire(bytes) ==> {
                &&& i + 1 < history.calls.len()
                &&& history.calls[i + 1] == ReceiverCall::WireWritten(bytes.len() as usize)
            },
            ReceiverCall::WireWritten(count) => i > from && (
            receiver_answer(history, i - 1) matches ActionView::WriteWire(bytes) && count
                == bytes.len() as usize),
            ReceiverCall::FileWritten(count) => i > from && (
            receiver_answer(history, i - 1) matches ActionView::WriteFile(data) && count
                == data.len() as usize),
            _ => false,
        }
}

proof fn lemma_receiver_driven(history: ReceiverHistory, from: int, to: int)
    requires
        0 <= from <= to <= history.calls.len(),
        receiver_is_driven(history, to),
        forall|i: int| from <= i < to ==> #[trigger] history.calls[i] is SubmitWire,
    ensures
        receiver_is_driven(history, from),
{
    assert forall|i: int| from <= i < history.calls.len() implies match #[trigger] history.calls[i] {
        ReceiverCall::SubmitWire(_) => true,
        ReceiverCall::Poll => receiver_answer(history, i) matches ActionView::WriteWire(bytes) ==> {
            &&& i + 1 < history.calls.len()
            &&& history.calls[i + 1] == ReceiverCall::WireWritten(bytes.len() as usize)
        },
        ReceiverCall::WireWritten(count) => i > from && (
        receiver_answer(history, i - 1) matches ActionView::WriteWire(bytes) && count
            == bytes.len() as usize),
            ReceiverCall::FileWritten(count) => i > from && (
            receiver_answer(history, i - 1) matches ActionView::WriteFile(data) && count
                == data.len() as usize),
        _ => false,
    } by {
        if i < to {
            assert(history.calls[i] is SubmitWire);
        }
    }
}

proof fn lemma_receiver_fed(history: ReceiverHistory, bytes: Seq<u8>)
    ensures
        ({
            let (after, _) = receiver_fed(history, bytes);
            &&& after.calls.len() >= history.calls.len()
            &&& receiver_before(after, history.calls.len() as int) == history
            &&& forall|i: int|
                history.calls.len() <= i < after.calls.len() ==> #[trigger] after.calls[i] is SubmitWire
        }),
    decreases bytes.len(),
{
    let next = history.then_call(ReceiverCall::SubmitWire(bytes));
    let (after, _) = receiver_fed(history, bytes);
    let (from, to) = (history.calls.len() as int, next.calls.len() as int);
    assert(history.calls.take(from) =~= history.calls);
    assert(next.calls.take(from) =~= history.calls);
    if bytes.len() > 0 {
        if let Ok(count) = receiver_submit_wire(history, bytes) {
            if count != 0 && count <= bytes.len() {
                lemma_receiver_fed(next, bytes.skip(count as int));
                assert(after.calls.take(from) =~= after.calls.take(to).take(from));
                assert(after.calls.take(to)[from] is SubmitWire);
            }
        }
    }
}

proof fn lemma_receiver_silent(history: ReceiverHistory, from: int, to: int)
    requires
        0 <= from <= to <= history.calls.len(),
        forall|i: int| from <= i < to ==> !(#[trigger] history.calls[i] is Poll),
    ensures
        receiver_wire(history, from) == receiver_wire(history, to),
        receiver_events(history, from) == receiver_events(history, to),
    decreases to - from,
{
    if from < to {
        lemma_receiver_silent(history, from + 1, to);
        assert(receiver_wire(history, from) =~= receiver_wire(history, from + 1));
        assert(receiver_events(history, from) =~= receiver_events(history, from + 1));
    }
}

/// A poll, and the call that acknowledges what it handed out, in front of
/// calls that are known to be in order.
proof fn lemma_receiver_polled(before: ReceiverHistory, told: ReceiverHistory, after: ReceiverHistory)
    requires
        ({
            let polled = before.then_call(ReceiverCall::Poll);
            match receiver_poll(before) {
                ActionView::WriteWire(bytes) => told == polled.then_call(
                    ReceiverCall::WireWritten(bytes.len() as usize),
                ),
                ActionView::WriteFile(data) => told == polled || told == polled.then_call(
                    ReceiverCall::FileWritten(data.len() as usize),
                ),
                _ => told == polled,
            }
        }),
        after.calls.len() >= told.calls.len(),
        receiver_before(after, told.calls.len() as int) == told,
        receiver_is_driven(after, told.calls.len() as int),
    ensures
        ({
            let from = before.calls.len() as int;
            let to = told.calls.len() as int;
            &&& receiver_before(after, from) == before
            &&& receiver_is_driven(after, from)
            &&& after.calls[from] is Poll
            &&& receiver_answer(after, from) == receiver_poll(before)
            &&& receiver_wire(after, from) == (match receiver_poll(before) {
                ActionView::WriteWire(bytes) => bytes,
                _ => Seq::empty(),
            }) + receiver_wire(after, to)
            &&& receiver_events(after, from) == (match reported_event(receiver_poll(before)) {
                Some(event) => seq![event],
                None => Seq::empty(),
            }) + receiver_events(after, to)
        }),
{
    let from = before.calls.len() as int;
    let to = told.calls.len() as int;
    assert(after.calls.take(to) == told.calls);
    assert(after.calls.take(from) =~= after.calls.take(to).take(from));
    assert(told.calls.take(from) =~= before.calls);
    assert(after.calls.take(to)[from] == after.calls[from]);
    assert(told.calls[from] is Poll);
    assert(receiver_before(after, from).calls =~= before.calls);
    if to == from + 2 {
        assert(after.calls.take(to)[from + 1] == after.calls[from + 1]);
    }
    lemma_receiver_silent(after, from + 1, to);
    assert(receiver_events(after, from) =~= (match reported_event(receiver_poll(before)) {
        Some(event) => seq![event],
        None => Seq::empty(),
    }) + receiver_events(after, to));
    assert forall|i: int| from <= i < after.calls.len() implies match #[trigger] after.calls[i] {
        ReceiverCall::SubmitWire(_) => true,
        ReceiverCall::Poll => receiver_answer(after, i) matches ActionView::WriteWire(bytes) ==> {
            &&& i + 1 < after.calls.len()
            &&& after.calls[i + 1] == ReceiverCall::WireWritten(bytes.len() as usize)
        },
        ReceiverCall::WireWritten(count) => i > from && (
        receiver_answer(after, i - 1) matches ActionView::WriteWire(bytes) && count
            == bytes.len() as usize),
            ReceiverCall::FileWritten(count) => i > from && (
            receiver_answer(after, i - 1) matches ActionView::WriteFile(data) && count
                == data.len() as usize),
        _ => false,
    } by {
        if i >= to {
            assert(receiver_is_driven(after, to));
        }
    }
}

/// One of the events ends the session.
pub open spec fn ends_session(events: Seq<OwnedEventView>) -> bool {
    exists|i: int|
        0 <= i < events.len() && (#[trigger] events[i] is SessionCompleted || events[i] is Aborted)
}

proof fn lemma_ends_session(events: Seq<OwnedEventView>, event: OwnedEventView)
    ensures
        ends_session(events.push(event)) == (ends_session(events) || event is SessionCompleted
            || event is Aborted),
{
    let all = events.push(event);
    if ends_session(events) {
        let i = choose|i: int|
            0 <= i < events.len() && (#[trigger] events[i] is SessionCompleted || events[i]
                is Aborted);
        assert(all[i] == events[i]);
    }
    assert(all[events.len() as int] == event);
    if ends_session(all) {
        let i = choose|i: int|
            0 <= i < all.len() && (#[trigger] all[i] is SessionCompleted || all[i] is Aborted);
        if i < events.len() {
            assert(events[i] == all[i]);
        }
    }
}

#[verifier::rlimit(40)]
#[verifier::spinoff_prover]
proof fn lemma_sender_drained(
    history: SenderHistory,
    current: Option<UploadFile>,
    step: StepView,
    fuel: nat,
)
    requires
        step.finished == ends_session(step.events),
        step.file_request is None,
    ensures
        ({
            let (after, last_current, last) = sender_drained(history, current, step, fuel);
            let from = history.calls.len() as int;
            let events = sender_events(after, from);
            &&& after.calls.len() >= from
            &&& fuel > 0 ==> after.calls.len() > from
            &&& sender_before(after, from) == history
            &&& sender_is_driven(after, from)
            &&& last.to_pty == step.to_pty + sender_wire(after, from)
            &&& last.events == step.events + events
            &&& last.finished == ends_session(last.events)
            &&& last.file_data == step.file_data
            &&& last.file_request == (if after.calls.len() > from {
                match sender_answer(after, after.calls.len() - 1) {
                    ActionView::ReadFile { offset, max_len } => Some(
                        FileRequest { offset, max_len },
                    ),
                    _ => None,
                }
            } else {
                None
            })
            &&& last_current == (if events.contains(OwnedEventView::FileCompleted) {
                None
            } else {
                current
            })
            &&& after.calls.len() - from >= fuel || (after.calls.last() is Poll && !(sender_answer(
                after,
                after.calls.len() - 1,
            ) is WriteWire) && reported_event(sender_answer(after, after.calls.len() - 1)) is None)
        }),
    decreases fuel,
{
    let from = history.calls.len() as int;
    let (after, _, last) = sender_drained(history, current, step, fuel);
    assert(history.calls.take(from) =~= history.calls);
    if fuel == 0 {
        assert(last.to_pty =~= step.to_pty + sender_wire(after, from));
        assert(last.events =~= step.events + sender_events(after, from));
    } else {
        let polled = history.then_call(SenderCall::Poll);
        let action = sender_poll(history);
        let (next_current, next_step, acknowledge) = upload_after(current, step, action);
        let told = match acknowledge {
            Acknowledge::Wire(count) => polled.then_call(SenderCall::WireWritten(count)),
            _ => polled,
        };
        let to = told.calls.len() as int;
        if let Some(event) = reported_event(action) {
            lemma_ends_session(step.events, event);
        }
        assert(told.calls.take(to) =~= told.calls);
        if acknowledge is Wire || acknowledge is Nothing {
            lemma_sender_drained(told, next_current, next_step, (fuel - 1) as nat);
        }
        lemma_sender_polled(history, told, after);
        assert(last.to_pty =~= step.to_pty + sender_wire(after, from));
        assert(last.events =~= step.events + sender_events(after, from));
        let rest = sender_events(after, to);
        let all = sender_events(after, from);
        if let Some(event) = reported_event(action) {
            assert(all =~= seq![event] + rest);
            assert(all[0] == event);
            if rest.contains(OwnedEventView::FileCompleted) {
                let i = rest.index_of(OwnedEventView::FileCompleted);
                assert(all[i + 1] == rest[i]);
            }
            if all.contains(OwnedEventView::FileCompleted) && !(event is FileCompleted) {
                let i = all.index_of(OwnedEventView::FileCompleted);
                assert(rest[i - 1] == all[i]);
            }
        } else {
            assert(all =~= rest);
        }
    }
}

/// Everything that the machine of an upload hands out in a round is in the
/// round, in order: its wire bytes, its events and the file bytes it asks for.
/// The round goes on until the machine has no more to do, is finished exactly
/// if one of its events ends the session, and lets go of the file in flight
/// exactly if that was completed. The machine is told at once of all that was
/// taken, and gets nothing but the bytes that came in.
#[verifier::rlimit(40)]
#[verifier::spinoff_prover]
pub proof fn law_upload_rounds_hold_everything(view: UploadView, bytes: Seq<u8>)
    requires
        SessionView::Upload(view).submitted(bytes).1 is Ok,
    ensures
        ({
            let (session, result) = SessionView::Upload(view).submitted(bytes);
            let after = session->Upload_0;
            let step = result->Ok_0;
            let from = view.history.calls.len() as int;
            let calls = after.history.calls;
            let end = sender_answer(after.history, calls.len() - 1);
            &&& session is Upload
            &&& calls.len() >= from
            &&& sender_before(after.history, from) == view.history
            &&& sender_is_driven(after.history, from)
            &&& step.to_pty == sender_wire(after.history, from)
            &&& step.events == sender_events(after.history, from)
            &&& step.finished == ends_session(step.events)
            &&& step.file_data is None
            &&& step.file_request == (match end {
                ActionView::ReadFile { offset, max_len } => Some(FileRequest { offset, max_len }),
                _ => None,
            })
            &&& calls.len() - from >= 0xffff_ffff_ffff_ffff || (calls.last() is Poll && !(end
                is WriteWire) && !(end is FileStarted) && !(end is FileCompleted) && !(end
                is SessionCompleted) && !(end is Aborted) && !(end is OtherEvent))
            &&& after.files == view.files
            &&& after.current == (if step.events.contains(OwnedEventView::FileCompleted) {
                None
            } else {
                view.current
            })
            &&& after.finished == (view.finished || step.finished)
        }),
{
    let (fed, _) = sender_fed(view.history, bytes);
    lemma_sender_fed(view.history, bytes);
    assert(!ends_session(StepView::nothing().events));
    lemma_sender_drained(fed, view.current, StepView::nothing(), POLL_LIMIT as nat);
    let (after, result) = upload_submitted(view, bytes);
    let step = result->Ok_0;
    let (from, middle) = (view.history.calls.len() as int, fed.calls.len() as int);
    let all = after.history.calls;
    assert(all.take(middle) =~= fed.calls);
    assert(all.take(from) =~= all.take(middle).take(from));
    assert forall|i: int| from <= i < middle implies #[trigger] all[i] is SubmitWire by {
        assert(all.take(middle)[i] == all[i]);
        assert(fed.calls[i] is SubmitWire);
    }
    lemma_sender_silent(after.history, from, middle);
    lemma_sender_driven(after.history, from, middle);
    let nothing = Seq::<u8>::empty();
    assert(nothing + sender_wire(after.history, middle) =~= sender_wire(after.history, middle));
    let none = Seq::<OwnedEventView>::empty();
    assert(none + sender_events(after.history, middle) =~= sender_events(after.history, middle));
    assert(step.to_pty =~= sender_wire(after.history, from));
    assert(step.events =~= sender_events(after.history, from));
}

#[verifier::rlimit(40)]
#[verifier::spinoff_prover]
proof fn lemma_sender_flushed(history: SenderHistory, out: Seq<u8>, fuel: nat)
    ensures
        ({
            let (after, all) = sender_flushed(history, out, fuel);
            let from = history.calls.len() as int;
            &&& after.calls.len() >= from
            &&& sender_before(after, from) == history
            &&& sender_is_driven(after, from)
            &&& all == out + sender_wire(after, from)
            &&& after.calls.len() - from >= fuel || (after.calls.last() is Poll && !(sender_answer(
                after,
                after.calls.len() - 1,
            ) is WriteWire))
        }),
    decreases fuel,
{
    let from = history.calls.len() as int;
    let (after, all) = sender_flushed(history, out, fuel);
    assert(history.calls.take(from) =~= history.calls);
    if fuel == 0 {
        assert(all =~= out + sender_wire(after, from));
    } else {
        let polled = history.then_call(SenderCall::Poll);
        let told = match sender_poll(history) {
            ActionView::WriteWire(bytes) => polled.then_call(
                SenderCall::WireWritten(bytes.len() as usize),
            ),
            _ => polled,
        };
        assert(told.calls.take(told.calls.len() as int) =~= told.calls);
        if let ActionView::WriteWire(bytes) = sender_poll(history) {
            lemma_sender_flushed(told, out + bytes, (fuel - 1) as nat);
        }
        lemma_sender_polled(history, told, after);
        assert(all =~= out + sender_wire(after, from));
    }
}

/// An offer with no file in flight and the files `f0, f1, ...` queued makes
/// the machine start exactly `f0`, under its name and size, and leaves `f1,
/// ...` queued. A file that the machine takes is then in flight, and the bytes
/// to write are all those that the machine has ready; one that it refuses is
/// dropped, and the error is the machine's.
#[verifier::rlimit(40)]
#[verifier::spinoff_prover]
pub proof fn law_an_offer_starts_the_first_queued_file(view: UploadView)
    requires
        view.current is None,
        view.files.len() > 0,
    ensures
        ({
            let (session, result) = SessionView::Upload(view).offered();
            let after = session->Upload_0;
            let calls = after.history.calls;
            let from = view.history.calls.len() as int;
            let first = view.files[0];
            &&& session is Upload
            &&& view.files == seq![first] + after.files
            &&& after.finished == view.finished
            &&& calls.len() > from
            &&& sender_before(after.history, from) == view.history
            &&& calls[from] == SenderCall::StartFile(first.name@, first.size)
            &&& sender_is_driven(after.history, from + 1)
            &&& match sender_start_file(view.history, first.name@, first.size) {
                Ok(_) => {
                    &&& after.current == Some(first)
                    &&& result == Ok::<Seq<u8>, ZmodemError>(sender_wire(after.history, from + 1))
                },
                Err(error) => {
                    &&& after.current is None
                    &&& result == Err::<Seq<u8>, ZmodemError>(error)
                    &&& calls.len() == from + 1
                },
            }
        }),
{
    let first = view.files[0];
    let from = view.history.calls.len() as int;
    let told = view.history.then_call(SenderCall::StartFile(first.name@, first.size));
    let after = SessionView::Upload(view).offered().0->Upload_0;
    lemma_sender_flushed(told, Seq::empty(), POLL_LIMIT as nat);
    assert(told.calls.take(from) =~= view.history.calls);
    assert(after.files == view.files.skip(1));
    assert(view.files =~= seq![first] + view.files.skip(1));
    if sender_start_file(view.history, first.name@, first.size) is Ok {
        let all = after.history.calls;
        assert(all.take(from + 1) == told.calls);
        assert(all.take(from) =~= all.take(from + 1).take(from));
        assert(all.take(from + 1)[from] == all[from]);
        assert(Seq::<u8>::empty() + sender_wire(after.history, from + 1) =~= sender_wire(
            after.history,
            from + 1,
        ));
    }
}

/// An offer starts nothing and leaves the queue alone while a file is in
/// flight, or when none is queued; what the machine has ready is still written.
pub proof fn law_an_offer_waits_for_the_file_in_flight(view: UploadView)
    requires
        view.current is Some || view.files.len() == 0,
    ensures
        ({
            let (session, result) = SessionView::Upload(view).offered();
            let after = session->Upload_0;
            let from = view.history.calls.len() as int;
            &&& session is Upload
            &&& after.files == view.files
            &&& after.current == view.current
            &&& after.finished == view.finished
            &&& sender_before(after.history, from) == view.history
            &&& sender_is_driven(after.history, from)
            &&& result == Ok::<Seq<u8>, ZmodemError>(sender_wire(after.history, from))
        }),
{
    let from = view.history.calls.len() as int;
    let after = SessionView::Upload(view).offered().0->Upload_0;
    lemma_sender_flushed(view.history, Seq::empty(), POLL_LIMIT as nat);
    assert(Seq::<u8>::empty() + sender_wire(after.history, from) =~= sender_wire(
        after.history,
        from,
    ));
}

/// Every queued file is offered once and in order: where each offer comes with
/// no file in flight and each finds the queue that the offer before it left,
/// the offers start the files of the first queue one after another.
#[verifier::rlimit(40)]
#[verifier::spinoff_prover]
pub proof fn law_every_queued_file_is_offered_once(views: Seq<UploadView>, index: int)
    requires
        0 <= index < views.len() <= views[0].files.len(),
        forall|k: int| 0 <= k < views.len() ==> (#[trigger] views[k]).current is None,
        forall|k: int|
            0 < k < views.len() ==> (#[trigger] views[k]).files == (SessionView::Upload(
                views[k - 1],
            ).offered().0->Upload_0).files,
    ensures
        ({
            let view = views[index];
            let after = SessionView::Upload(view).offered().0->Upload_0;
            let file = views[0].files[index];
            &&& after.history.calls[view.history.calls.len() as int] == SenderCall::StartFile(
                file.name@,
                file.size,
            )
            &&& after.files == views[0].files.skip(index + 1)
        }),
    decreases index,
{
    let view = views[index];
    let after = SessionView::Upload(view).offered().0->Upload_0;
    if index == 0 {
        law_an_offer_starts_the_first_queued_file(view);
        assert(after.files =~= (seq![view.files[0]] + after.files).skip(1));
    } else {
        law_every_queued_file_is_offered_once(views, index - 1);
        assert(views[index - 1].current is None);
        assert(view.files == views[0].files.skip(index));
        law_an_offer_starts_the_first_queued_file(view);
        assert(after.files =~= (seq![view.files[0]] + after.files).skip(1));
        assert(views[0].files.skip(index).skip(1) =~= views[0].files.skip(index + 1));
    }
}

/// File bytes that an upload is supplied with reach its machine whole, and the
/// bytes to write are all those that the machine then has ready. The queue and
/// the file in flight stay as they are.
pub proof fn law_supplied_bytes_reach_the_machine(view: UploadView, data: Seq<u8>)
    ensures
        ({
            let (session, result) = SessionView::Upload(view).supplied(data);
            let after = session->Upload_0;
            let calls = after.history.calls;
            let from = view.history.calls.len() as int;
            &&& session is Upload
            &&& after.files == view.files
            &&& after.current == view.current
            &&& after.finished == view.finished
            &&& calls.len() > from
            &&& sender_before(after.history, from) == view.history
            &&& calls[from] == SenderCall::SubmitFile(data)
            &&& sender_is_driven(after.history, from + 1)
            &&& match sender_submit_file(view.history, data) {
                Ok(_) => result == Ok::<Seq<u8>, ZmodemError>(
                    sender_wire(after.history, from + 1),
                ),
                Err(error) => result == Err::<Seq<u8>, ZmodemError>(error) && calls.len() == from
                    + 1,
            }
        }),
{
    let from = view.history.calls.len() as int;
    let told = view.history.then_call(SenderCall::SubmitFile(data));
    let after = SessionView::Upload(view).supplied(data).0->Upload_0;
    lemma_sender_flushed(told, Seq::empty(), POLL_LIMIT as nat);
    assert(told.calls.take(from) =~= view.history.calls);
    if sender_submit_file(view.history, data) is Ok {
        let all = after.history.calls;
        assert(all.take(from + 1) == told.calls);
        assert(all.take(from) =~= all.take(from + 1).take(from));
        assert(all.take(from + 1)[from] == all[from]);
        assert(Seq::<u8>::empty() + sender_wire(after.history, from + 1) =~= sender_wire(
            after.history,
            from + 1,
        ));
    }
}

/// The file bytes that the receiver handed out from its call at `from` on.
pub open spec fn receiver_data(history: ReceiverHistory, from: int) -> Seq<u8>
    decreases history.calls.len() - from,
{
    if from < 0 || from >= history.calls.len() {
        Seq::empty()
    } else {
        let first = match receiver_answer(history, from) {
            ActionView::WriteFile(data) => data,
            _ => Seq::empty(),
        };
        first + receiver_data(history, from + 1)
    }
}

/// From its call at `from` on the receiver was told at once of all the file
/// bytes that it had handed out.
pub open spec fn receiver_is_heard(history: ReceiverHistory, from: int) -> bool {
    forall|i: int|
        from <= i < history.calls.len() ==> ((#[trigger] receiver_answer(history, i)
            matches ActionView::WriteFile(data) ==> {
            &&& i + 1 < history.calls.len()
            &&& history.calls[i + 1] == ReceiverCall::FileWritten(data.len() as usize)
        }))
}

/// The file bytes of a round.
pub open spec fn round_data(step: StepView) -> Seq<u8> {
    match step.file_data {
        Some(chunk) => chunk.data,
        None => Seq::empty(),
    }
}

proof fn lemma_receiver_data_silent(history: ReceiverHistory, from: int, to: int)
    requires
        0 <= from <= to <= history.calls.len(),
        forall|i: int| from <= i < to ==> !(#[trigger] history.calls[i] is Poll),
    ensures
        receiver_data(history, from) == receiver_data(history, to),
        receiver_is_heard(history, to) ==> receiver_is_heard(history, from),
    decreases to - from,
{
    if from < to {
        lemma_receiver_data_silent(history, from + 1, to);
        assert(receiver_data(history, from) =~= receiver_data(history, from + 1));
        assert(!(history.calls[from] is Poll));
    }
}

#[verifier::rlimit(40)]
#[verifier::spinoff_prover]
proof fn lemma_receiver_drained(
    history: ReceiverHistory,
    file: IncomingView,
    step: StepView,
    fuel: nat,
)
    requires
        step.finished == ends_session(step.events),
        step.file_request is None,
    ensures
        ({
            let (after, _, result) = receiver_drained(history, file, step, fuel);
            let from = history.calls.len() as int;
            let end = receiver_answer(after, after.calls.len() - 1);
            &&& after.calls.len() >= from
            &&& fuel > 0 ==> after.calls.len() > from
            &&& receiver_before(after, from) == history
            &&& receiver_is_driven(after, from)
            &&& receiver_is_heard(after, from)
            &&& match result {
                Ok(last) => {
                    &&& last.to_pty == step.to_pty + receiver_wire(after, from)
                    &&& last.events == step.events + receiver_events(after, from)
                    &&& round_data(last) == round_data(step) + receiver_data(after, from)
                    &&& last.finished == ends_session(last.events)
                    &&& last.file_request is None
                    &&& after.calls.len() - from >= fuel || (after.calls.last() is Poll && !(end
                        is WriteWire) && !(end is WriteFile) && reported_event(end) is None)
                },
                Err(error) => {
                    &&& after.calls.last() is FileWritten
                    &&& receiver_file_written(
                        receiver_before(after, after.calls.len() - 1),
                        after.calls.last()->FileWritten_0,
                    ) == Err::<(), ZmodemError>(error)
                },
            }
        }),
    decreases fuel,
{
    let from = history.calls.len() as int;
    let (after, _, result) = receiver_drained(history, file, step, fuel);
    assert(history.calls.take(from) =~= history.calls);
    if fuel == 0 {
        let last = result->Ok_0;
        assert(last.to_pty =~= step.to_pty + receiver_wire(after, from));
        assert(last.events =~= step.events + receiver_events(after, from));
        assert(round_data(last) =~= round_data(step) + receiver_data(after, from));
    } else {
        let polled = history.then_call(ReceiverCall::Poll);
        let action = receiver_poll(history);
        let (next_file, next_step, acknowledge) = download_after(file, step, action);
        let told = match acknowledge {
            Acknowledge::Wire(count) => polled.then_call(ReceiverCall::WireWritten(count)),
            Acknowledge::File(count) => polled.then_call(ReceiverCall::FileWritten(count)),
            _ => polled,
        };
        let to = told.calls.len() as int;
        if let Some(event) = reported_event(action) {
            lemma_ends_session(step.events, event);
        }
        assert(told.calls.take(to) =~= told.calls);
        let goes_on = match acknowledge {
            Acknowledge::File(count) => receiver_file_written(polled, count) is Ok,
            Acknowledge::Stop => false,
            _ => true,
        };
        if goes_on {
            lemma_receiver_drained(told, next_file, next_step, (fuel - 1) as nat);
        } else {
            assert(told.calls.take(to - 1) =~= if to == from + 1 {
                history.calls
            } else {
                polled.calls
            });
        }
        lemma_receiver_polled(history, told, after);
        if to == from + 2 {
            assert(after.calls.take(to)[from + 1] == after.calls[from + 1]);
        }
        lemma_receiver_data_silent(after, from + 1, to);
        assert(receiver_data(after, from) == (match action {
            ActionView::WriteFile(data) => data,
            _ => Seq::empty(),
        }) + receiver_data(after, to));
        assert(receiver_is_heard(after, from)) by {
            assert(receiver_is_heard(after, from + 1));
        }
        if let Ok(last) = result {
            assert(last.to_pty =~= step.to_pty + receiver_wire(after, from));
            assert(last.events =~= step.events + receiver_events(after, from));
            assert(round_data(last) =~= round_data(step) + receiver_data(after, from));
        }
    }
}

/// Everything that the machine of a download hands out in a round is in the
/// round, in order: its wire bytes, its events and the file bytes. The round
/// goes on until the machine has no more to do, and is finished exactly if one
/// of its events ends the session. The machine is told at once of all that was
/// taken, and gets nothing but the bytes that came in; a round fails only
/// where the machine refuses one of these calls, and with its error.
#[verifier::rlimit(40)]
#[verifier::spinoff_prover]
pub proof fn law_download_rounds_hold_everything(view: DownloadView, bytes: Seq<u8>)
    requires
        receiver_fed(view.history, bytes).1 is None,
    ensures
        ({
            let (session, result) = SessionView::Download(view).submitted(bytes);
            let after = session->Download_0;
            let from = view.history.calls.len() as int;
            let calls = after.history.calls;
            let end = receiver_answer(after.history, calls.len() - 1);
            &&& session is Download
            &&& calls.len() >= from
            &&& receiver_before(after.history, from) == view.history
            &&& receiver_is_driven(after.history, from)
            &&& receiver_is_heard(after.history, from)
            &&& match result {
                Ok(step) => {
                    &&& step.to_pty == receiver_wire(after.history, from)
                    &&& step.events == receiver_events(after.history, from)
                    &&& round_data(step) == receiver_data(after.history, from)
                    &&& step.finished == ends_session(step.events)
                    &&& step.file_request is None
                    &&& after.finished == (view.finished || step.finished)
                    &&& calls.len() - from >= 0xffff_ffff_ffff_ffff || (calls.last() is Poll
                        && !(end is WriteWire) && !(end is WriteFile) && !(end is FileStarted)
                        && !(end is FileCompleted) && !(end is SessionCompleted) && !(end
                        is Aborted) && !(end is OtherEvent))
                },
                Err(error) => {
                    &&& calls.last() is FileWritten
                    &&& receiver_file_written(
                        receiver_before(after.history, calls.len() - 1),
                        calls.last()->FileWritten_0,
                    ) == Err::<(), ZmodemError>(error)
                    &&& after.finished == view.finished
                },
            }
        }),
{
    let (fed, _) = receiver_fed(view.history, bytes);
    lemma_receiver_fed(view.history, bytes);
    assert(!ends_session(StepView::nothing().events));
    lemma_receiver_drained(fed, view.file, StepView::nothing(), POLL_LIMIT as nat);
    let (after, result) = download_submitted(view, bytes);
    let (from, middle) = (view.history.calls.len() as int, fed.calls.len() as int);
    let all = after.history.calls;
    assert(all.take(middle) =~= fed.calls);
    assert(all.take(from) =~= all.take(middle).take(from));
    assert forall|i: int| from <= i < middle implies #[trigger] all[i] is SubmitWire by {
        assert(all.take(middle)[i] == all[i]);
        assert(fed.calls[i] is SubmitWire);
    }
    lemma_receiver_silent(after.history, from, middle);
    lemma_receiver_data_silent(after.history, from, middle);
    lemma_receiver_driven(after.history, from, middle);
    let nothing = Seq::<u8>::empty();
    let none = Seq::<OwnedEventView>::empty();
    assert(nothing + receiver_wire(after.history, middle) =~= receiver_wire(after.history, middle));
    assert(nothing + receiver_data(after.history, middle) =~= receiver_data(after.history, middle));
    assert(none + receiver_events(after.history, middle) =~= receiver_events(
        after.history,
        middle,
    ));
}

/// From its call at `from` on the sender was offered all of `bytes`: first the
/// whole, then each time what it had not taken, until it had taken everything,
/// took no more or refused.
pub open spec fn sender_is_offered(history: SenderHistory, from: int, bytes: Seq<u8>) -> bool {
    &&& bytes.len() > 0 ==> from < history.calls.len() && history.calls[from]
        == SenderCall::SubmitWire(bytes)
    &&& forall|i: int|
        from <= i < history.calls.len() ==> (#[trigger] history.calls[i] matches SenderCall::SubmitWire(
            rest,
        ) ==> match sender_submit_wire(sender_before(history, i), rest) {
            Ok(count) => if 0 < count && count < rest.len() {
                i + 1 < history.calls.len() && history.calls[i + 1] == SenderCall::SubmitWire(
                    rest.skip(count as int),
                )
            } else {
                i + 1 == history.calls.len() || history.calls[i + 1] is Poll
            },
            Err(_) => i + 1 == history.calls.len(),
        })
}

proof fn lemma_sender_offered(history: SenderHistory, bytes: Seq<u8>)
    ensures
        sender_is_offered(sender_fed(history, bytes).0, history.calls.len() as int, bytes),
    decreases bytes.len(),
{
    let from = history.calls.len() as int;
    let next = history.then_call(SenderCall::SubmitWire(bytes));
    let (after, _) = sender_fed(history, bytes);
    lemma_sender_fed(history, bytes);
    assert(next.calls.take(from) =~= history.calls);
    if bytes.len() > 0 {
        let goes_on = match sender_submit_wire(history, bytes) {
            Ok(count) => count != 0 && count <= bytes.len(),
            Err(_) => false,
        };
        if goes_on {
            let count = sender_submit_wire(history, bytes)->Ok_0;
            lemma_sender_offered(next, bytes.skip(count as int));
            lemma_sender_fed(next, bytes.skip(count as int));
            assert(after.calls.take(from + 1)[from] == after.calls[from]);
        }
        assert(sender_before(after, from).calls =~= history.calls);
    }
}

/// All the bytes that come in are offered to the machine of an upload, in
/// order, and a refusal is the round's error.
#[verifier::rlimit(40)]
#[verifier::spinoff_prover]
pub proof fn law_upload_rounds_offer_everything(view: UploadView, bytes: Seq<u8>)
    ensures
        ({
            let (session, result) = SessionView::Upload(view).submitted(bytes);
            let after = (session->Upload_0).history;
            let from = view.history.calls.len() as int;
            let last = after.calls.len() - 1;
            &&& sender_is_offered(after, from, bytes)
            &&& (last >= from && after.calls[last] is SubmitWire) ==> (match sender_submit_wire(
                sender_before(after, last),
                after.calls[last]->SubmitWire_0,
            ) {
                Err(error) => result == Err::<StepView, ZmodemError>(error),
                Ok(_) => true,
            })
        }),
{
    let from = view.history.calls.len() as int;
    let (fed, error) = sender_fed(view.history, bytes);
    let after = (SessionView::Upload(view).submitted(bytes).0->Upload_0).history;
    lemma_sender_fed(view.history, bytes);
    lemma_sender_offered(view.history, bytes);
    let middle = fed.calls.len() as int;
    assert(fed.calls.take(middle) =~= fed.calls);
    lemma_sender_refused(view.history, bytes);
    if error is None {
        assert(!ends_session(StepView::nothing().events));
        lemma_sender_drained(fed, view.current, StepView::nothing(), POLL_LIMIT as nat);
        lemma_sender_drain_polls(fed, view.current, StepView::nothing(), POLL_LIMIT as nat);
        assert forall|i: int| from <= i < middle implies #[trigger] after.calls[i] == fed.calls[i]
            && sender_before(after, i) == sender_before(fed, i) by {
            assert(after.calls.take(middle)[i] == after.calls[i]);
            assert(after.calls.take(middle).take(i) =~= after.calls.take(i));
        }
        assert forall|i: int| middle <= i < after.calls.len() implies !(#[trigger] after.calls[i]
            is SubmitWire) by {}
        assert(after.calls[middle] is Poll);
    }
}

proof fn lemma_sender_refused(history: SenderHistory, bytes: Seq<u8>)
    ensures
        ({
            let (after, error) = sender_fed(history, bytes);
            let last = after.calls.len() - 1;
            match error {
                Some(error) => last >= history.calls.len() && sender_submit_wire(
                    sender_before(after, last),
                    after.calls[last]->SubmitWire_0,
                ) == Err::<usize, ZmodemError>(error),
                None => last >= history.calls.len() ==> sender_submit_wire(
                    sender_before(after, last),
                    after.calls[last]->SubmitWire_0,
                ) is Ok,
            }
        }),
    decreases bytes.len(),
{
    let from = history.calls.len() as int;
    let next = history.then_call(SenderCall::SubmitWire(bytes));
    assert(next.calls.take(from) =~= history.calls);
    if bytes.len() > 0 {
        if let Ok(count) = sender_submit_wire(history, bytes) {
            if count != 0 && count <= bytes.len() {
                lemma_sender_refused(next, bytes.skip(count as int));
                lemma_sender_fed(next, bytes.skip(count as int));
                if bytes.skip(count as int).len() == 0 {
                    assert(sender_before(next, from).calls =~= history.calls);
                } else {
                    assert(sender_fed(next, bytes.skip(count as int)).0.calls.len()
                        > next.calls.len()) by {
                        lemma_sender_offered(next, bytes.skip(count as int));
                    }
                }
            }
        }
    }
}

proof fn lemma_sender_drain_polls(
    history: SenderHistory,
    current: Option<UploadFile>,
    step: StepView,
    fuel: nat,
)
    ensures
        ({
            let after = sender_drained(history, current, step, fuel).0;
            let from = history.calls.len() as int;
            &&& after.calls.len() >= from
            &&& after.calls.take(from) == history.calls
            &&& fuel > 0 ==> after.calls.len() > from && after.calls[from] is Poll
            &&& forall|i: int|
                from <= i < after.calls.len() ==> !(#[trigger] after.calls[i] is SubmitWire)
        }),
    decreases fuel,
{
    let from = history.calls.len() as int;
    let after = sender_drained(history, current, step, fuel).0;
    assert(history.calls.take(from) =~= history.calls);
    if fuel > 0 {
        let polled = history.then_call(SenderCall::Poll);
        let (next, next_step, acknowledge) = upload_after(current, step, sender_poll(history));
        let told = match acknowledge {
            Acknowledge::Wire(count) => polled.then_call(SenderCall::WireWritten(count)),
            _ => polled,
        };
        let to = told.calls.len() as int;
        assert(told.calls.take(to) =~= told.calls);
        lemma_sender_drain_polls(told, next, next_step, (fuel - 1) as nat);
        assert(after.calls.take(to) =~= told.calls);
        assert(after.calls.take(from) =~= after.calls.take(to).take(from));
        assert(told.calls.take(from) =~= history.calls);
        assert forall|i: int| from <= i < to implies #[trigger] after.calls[i] == told.calls[i] by {
            assert(after.calls.take(to)[i] == after.calls[i]);
        }
    }
}

/// From its call at `from` on the receiver was offered all of `bytes`: first the
/// whole, then each time what it had not taken, until it had taken everything,
/// took no more or refused.
pub open spec fn receiver_is_offered(history: ReceiverHistory, from: int, bytes: Seq<u8>) -> bool {
    &&& bytes.len() > 0 ==> from < history.calls.len() && history.calls[from]
        == ReceiverCall::SubmitWire(bytes)
    &&& forall|i: int|
        from <= i < history.calls.len() ==> (#[trigger] history.calls[i] matches ReceiverCall::SubmitWire(
            rest,
        ) ==> match receiver_submit_wire(receiver_before(history, i), rest) {
            Ok(count) => if 0 < count && count < rest.len() {
                i + 1 < history.calls.len() && history.calls[i + 1] == ReceiverCall::SubmitWire(
                    rest.skip(count as int),
                )
            } else {
                i + 1 == history.calls.len() || history.calls[i + 1] is Poll
            },
            Err(_) => i + 1 == history.calls.len(),
        })
}

proof fn lemma_receiver_offered(history: ReceiverHistory, bytes: Seq<u8>)
    ensures
        receiver_is_offered(receiver_fed(history, bytes).0, history.calls.len() as int, bytes),
    decreases bytes.len(),
{
    let from = history.calls.len() as int;
    let next = history.then_call(ReceiverCall::SubmitWire(bytes));
    let (after, _) = receiver_fed(history, bytes);
    lemma_receiver_fed(history, bytes);
    assert(next.calls.take(from) =~= history.calls);
    if bytes.len() > 0 {
        let goes_on = match receiver_submit_wire(history, bytes) {
            Ok(count) => count != 0 && count <= bytes.len(),
            Err(_) => false,
        };
        if goes_on {
            let count = receiver_submit_wire(history, bytes)->Ok_0;
            lemma_receiver_offered(next, bytes.skip(count as int));
            lemma_receiver_fed(next, bytes.skip(count as int));
            assert(after.calls.take(from + 1)[from] == after.calls[from]);
        }
        assert(receiver_before(after, from).calls =~= history.calls);
    }
}

/// All the bytes that come in are offered to the machine of a download, in
/// order, and a refusal is the round's error.
#[verifier::rlimit(40)]
#[verifier::spinoff_prover]
pub proof fn law_download_rounds_offer_everything(view: DownloadView, bytes: Seq<u8>)
    ensures
        ({
            let (session, result) = SessionView::Download(view).submitted(bytes);
            let after = (session->Download_0).history;
            let from = view.history.calls.len() as int;
            let last = after.calls.len() - 1;
            &&& receiver_is_offered(after, from, bytes)
            &&& (last >= from && after.calls[last] is SubmitWire) ==> (match receiver_submit_wire(
                receiver_before(after, last),
                after.calls[last]->SubmitWire_0,
            ) {
                Err(error) => result == Err::<StepView, ZmodemError>(error),
                Ok(_) => true,
            })
        }),
{
    let from = view.history.calls.len() as int;
    let (fed, error) = receiver_fed(view.history, bytes);
    let after = (SessionView::Download(view).submitted(bytes).0->Download_0).history;
    lemma_receiver_fed(view.history, bytes);
    lemma_receiver_offered(view.history, bytes);
    let middle = fed.calls.len() as int;
    assert(fed.calls.take(middle) =~= fed.calls);
    lemma_receiver_refused(view.history, bytes);
    if error is None {
        assert(!ends_session(StepView::nothing().events));
        lemma_receiver_drained(fed, view.file, StepView::nothing(), POLL_LIMIT as nat);
        lemma_receiver_drain_polls(fed, view.file, StepView::nothing(), POLL_LIMIT as nat);
        assert forall|i: int| from <= i < middle implies #[trigger] after.calls[i] == fed.calls[i]
            && receiver_before(after, i) == receiver_before(fed, i) by {
            assert(after.calls.take(middle)[i] == after.calls[i]);
            assert(after.calls.take(middle).take(i) =~= after.calls.take(i));
        }
        assert forall|i: int| middle <= i < after.calls.len() implies !(#[trigger] after.calls[i]
            is SubmitWire) by {}
        assert(after.calls[middle] is Poll);
    }
}

proof fn lemma_receiver_refused(history: ReceiverHistory, bytes: Seq<u8>)
    ensures
        ({
            let (after, error) = receiver_fed(history, bytes);
            let last = after.calls.len() - 1;
            match error {
                Some(error) => last >= history.calls.len() && receiver_submit_wire(
                    receiver_before(after, last),
                    after.calls[last]->SubmitWire_0,
                ) == Err::<usize, ZmodemError>(error),
                None => last >= history.calls.len() ==> receiver_submit_wire(
                    receiver_before(after, last),
                    after.calls[last]->SubmitWire_0,
                ) is Ok,
            }
        }),
    decreases bytes.len(),
{
    let from = history.calls.len() as int;
    let next = history.then_call(ReceiverCall::SubmitWire(bytes));
    assert(next.calls.take(from) =~= history.calls);
    if bytes.len() > 0 {
        if let Ok(count) = receiver_submit_wire(history, bytes) {
            if count != 0 && count <= bytes.len() {
                lemma_receiver_refused(next, bytes.skip(count as int));
                lemma_receiver_fed(next, bytes.skip(count as int));
                if bytes.skip(count as int).len() == 0 {
                    assert(receiver_before(next, from).calls =~= history.calls);
                } else {
                    assert(receiver_fed(next, bytes.skip(count as int)).0.calls.len()
                        > next.calls.len()) by {
                        lemma_receiver_offered(next, bytes.skip(count as int));
                    }
                }
            }
        }
    }
}

proof fn lemma_receiver_drain_polls(
    history: ReceiverHistory,
    file: IncomingView,
    step: StepView,
    fuel: nat,
)
    ensures
        ({
            let after = receiver_drained(history, file, step, fuel).0;
            let from = history.calls.len() as int;
            &&& after.calls.len() >= from
            &&& after.calls.take(from) == history.calls
            &&& fuel > 0 ==> after.calls.len() > from && after.calls[from] is Poll
            &&& forall|i: int|
                from <= i < after.calls.len() ==> !(#[trigger] after.calls[i] is SubmitWire)
        }),
    decreases fuel,
{
    let from = history.calls.len() as int;
    let after = receiver_drained(history, file, step, fuel).0;
    assert(history.calls.take(from) =~= history.calls);
    if fuel > 0 {
        let polled = history.then_call(ReceiverCall::Poll);
        let (next, next_step, acknowledge) = download_after(file, step, receiver_poll(history));
        let told = match acknowledge {
            Acknowledge::Wire(count) => polled.then_call(ReceiverCall::WireWritten(count)),
            Acknowledge::File(count) => polled.then_call(ReceiverCall::FileWritten(count)),
            _ => polled,
        };
        let to = told.calls.len() as int;
        assert(told.calls.take(to) =~= told.calls);
        lemma_receiver_drain_polls(told, next, next_step, (fuel - 1) as nat);
        assert(after.calls.take(to) =~= told.calls);
        assert(after.calls.take(from) =~= after.calls.take(to).take(from));
        assert(told.calls.take(from) =~= history.calls);
        assert forall|i: int| from <= i < to implies #[trigger] after.calls[i] == told.calls[i] by {
            assert(after.calls.take(to)[i] == after.calls[i]);
        }
    }
}

#[verifier::rlimit(40)]
#[verifier::spinoff_prover]
proof fn lemma_receiver_flushed(history: ReceiverHistory, out: Seq<u8>, fuel: nat)
    ensures
        ({
            let (after, all) = receiver_flushed(history, out, fuel);
            let from = history.calls.len() as int;
            let end = receiver_answer(after, after.calls.len() - 1);
            &&& after.calls.len() >= from
            &&& receiver_before(after, from) == history
            &&& receiver_is_driven(after, from)
            &&& all == out + receiver_wire(after, from)
            &&& after.calls.len() - from >= fuel || (after.calls.last() is Poll && !(end
                is WriteWire) && reported_event(end) is None)
        }),
    decreases fuel,
{
    let from = history.calls.len() as int;
    let (after, all) = receiver_flushed(history, out, fuel);
    assert(history.calls.take(from) =~= history.calls);
    if fuel == 0 {
        assert(all =~= out + receiver_wire(after, from));
    } else {
        let polled = history.then_call(ReceiverCall::Poll);
        let action = receiver_poll(history);
        let told = match action {
            ActionView::WriteWire(bytes) => polled.then_call(
                ReceiverCall::WireWritten(bytes.len() as usize),
            ),
            _ => polled,
        };
        assert(told.calls.take(told.calls.len() as int) =~= told.calls);
        if let ActionView::WriteWire(bytes) = action {
            lemma_receiver_flushed(told, out + bytes, (fuel - 1) as nat);
        } else if reported_event(action) is Some {
            lemma_receiver_flushed(told, out, (fuel - 1) as nat);
        }
        lemma_receiver_polled(history, told, after);
        assert(all =~= out + receiver_wire(after, from));
    }
}

/// Collecting the pending bytes of a session writes all those that its machine
/// hands out, in order and each acknowledged, until the machine has no more;
/// the files of the session stay as they are.
pub proof fn law_pending_bytes_are_all_collected(session: SessionView)
    ensures
        ({
            let (after, out) = session.flushed();
            match (session, after) {
                (SessionView::Upload(view), SessionView::Upload(next)) => {
                    let from = view.history.calls.len() as int;
                    let calls = next.history.calls;
                    &&& out == sender_wire(next.history, from)
                    &&& sender_before(next.history, from) == view.history
                    &&& sender_is_driven(next.history, from)
                    &&& calls.len() - from >= 0xffff_ffff_ffff_ffff || (calls.last() is Poll && !(
                    sender_answer(next.history, calls.len() - 1) is WriteWire))
                    &&& next.files == view.files
                    &&& next.current == view.current
                    &&& next.finished == view.finished
                },
                (SessionView::Download(view), SessionView::Download(next)) => {
                    let from = view.history.calls.len() as int;
                    let calls = next.history.calls;
                    &&& out == receiver_wire(next.history, from)
                    &&& receiver_before(next.history, from) == view.history
                    &&& receiver_is_driven(next.history, from)
                    &&& calls.len() - from >= 0xffff_ffff_ffff_ffff || (calls.last() is Poll && !(
                    receiver_answer(next.history, calls.len() - 1) is WriteWire))
                    &&& next.file == view.file
                    &&& next.finished == view.finished
                },
                _ => false,
            }
        }),
{
    let nothing = Seq::<u8>::empty();
    match session {
        SessionView::Upload(view) => {
            lemma_sender_flushed(view.history, nothing, POLL_LIMIT as nat);
            let wire = sender_wire(
                (session.flushed().0->Upload_0).history,
                view.history.calls.len() as int,
            );
            assert(nothing + wire =~= wire);
        },
        SessionView::Download(view) => {
            lemma_receiver_flushed(view.history, nothing, POLL_LIMIT as nat);
            let wire = receiver_wire(
                (session.flushed().0->Download_0).history,
                view.history.calls.len() as int,
            );
            assert(nothing + wire =~= wire);
        },
    }
}

proof fn lemma_scan_start(bytes: Seq<u8>, from: int)
    requires
        0 <= from <= bytes.len(),
    ensures
        scan_from(bytes, from) matches Scan::Started(at, header) ==> from <= at < bytes.len()
            && spot(bytes, at) == Spot::Start(header),
    decreases bytes.len() - from,
{
    if from < bytes.len() && spot(bytes, from) is Plain {
        lemma_scan_start(bytes, from + 1);
    }
}

/// A session is claimed only for a whole header behind one or two pads.
pub proof fn law_only_headers_claim_a_session(bytes: Seq<u8>)
    ensures
        scan_from(bytes, 0) matches Scan::Started(at, header) ==> exists|pads: int|
            {
                &&& 1 <= pads <= 2
                &&& 0 <= at
                &&& at + pads < bytes.len()
                &&& bytes[at] == ZPAD
                &&& bytes[at + pads] == ZDLE
                &&& #[trigger] decoded_header(bytes.skip(at), pads + 1) matches DecodeView::Header {
                    header: decoded,
                    ..
                } && decoded == header
            },
{
    lemma_scan_start(bytes, 0);
    if let Scan::Started(at, header) = scan_from(bytes, 0) {
        let rest = bytes.skip(at);
        let pads: int = if rest.len() > 1 && rest[1] == ZPAD {
            2
        } else {
            1
        };
        assert(decoded_header(rest, pads + 1) is Header);
    }
}

proof fn lemma_scan_plain(bytes: Seq<u8>, from: int)
    requires
        0 <= from <= bytes.len(),
        forall|i: int| 0 <= i < bytes.len() ==> bytes[i] != ZPAD,
    ensures
        scan_from(bytes, from) == Scan::Render(bytes.len() as int),
    decreases bytes.len() - from,
{
    if from < bytes.len() {
        assert(bytes.skip(from)[0] == bytes[from]);
        lemma_scan_plain(bytes, from + 1);
    }
}

/// Output without a pad is shown at once and as it is.
pub proof fn law_ordinary_output_is_shown(bytes: Seq<u8>)
    requires
        forall|i: int| 0 <= i < bytes.len() ==> bytes[i] != ZPAD,
    ensures
        scan_from(bytes, 0) == Scan::Render(bytes.len() as int),
        held_after(bytes).len() == 0,
{
    lemma_scan_plain(bytes, 0);
}

/// The front of a header is held back until the rest of it comes.
pub proof fn law_fronts_of_headers_are_held(frame: Frame, flags: Seq<u8>, len: int)
    requires
        flags.len() == 4,
        1 <= len < 18,
    ensures
        scan_from(crate::wire::hex_header(frame, flags).take(len), 0) == Scan::Render(0),
        held_after(crate::wire::hex_header(frame, flags).take(len))
            == crate::wire::hex_header(frame, flags).take(len),
{
    let bytes = crate::wire::hex_header(frame, flags).take(len);
    assert(bytes.skip(0) =~= bytes);
    assert(bytes[0] == ZPAD);
    if len > 1 {
        assert(bytes[1] == ZPAD);
    }
    if len > 2 {
        assert(bytes[2] == ZDLE);
        crate::wire::law_fronts_of_hex_headers_need_more(frame, flags, len);
    }
}

/// A new session has asked nothing of its machine: an upload has all its files
/// still queued and none in flight, a download has received nothing.
pub proof fn law_new_sessions_have_done_nothing(files: Seq<UploadFile>)
    ensures
        ({
            let session = SessionView::new_upload(files);
            &&& session is Upload
            &&& (session->Upload_0).files == files
            &&& (session->Upload_0).current is None
            &&& !(session->Upload_0).finished
            &&& (session->Upload_0).history.calls.len() == 0
        }),
        ({
            let session = SessionView::new_download();
            &&& session is Download
            &&& !(session->Download_0).finished
            &&& (session->Download_0).history.calls.len() == 0
            &&& (session->Download_0).file.received == 0
            &&& (session->Download_0).file.name.len() == 0
        }),
{
}

/// An aborted session is over, its machine is told to abort, and its files stay
/// as they are.
pub proof fn law_aborted_sessions_are_over(upload: UploadView, download: DownloadView)
    ensures
        SessionView::Upload(upload).aborted() == SessionView::Upload(
            UploadView {
                history: SenderHistory { calls: upload.history.calls.push(SenderCall::Abort) },
                finished: true,
                ..upload
            },
        ),
        SessionView::Download(download).aborted() == SessionView::Download(
            DownloadView {
                history: ReceiverHistory {
                    calls: download.history.calls.push(ReceiverCall::Abort),
                    ..download.history
                },
                finished: true,
                ..download
            },
        ),
{
}

} // verus!
