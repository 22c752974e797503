//! The ZMODEM state machines of `zmodem2`, each kept together with the record
//! of the calls made on it. A machine is driven by its calls alone: what a
//! call returns is a function of the calls before it.

use vstd::prelude::*;

use zmodem2::{Action, Event, FileInfo, Position, Receiver, Sender};

verus! {

/// The receiving state machine.
#[verifier::external_type_specification]
#[verifier::external_body]
pub struct ExReceiver(zmodem2::Receiver);

/// The sending state machine.
#[verifier::external_type_specification]
#[verifier::external_body]
pub struct ExSender(zmodem2::Sender);

/// Errors of both machines.
#[verifier::external_type_specification]
pub struct ExError(zmodem2::Error);

/// What a machine asks its driver to do next.
#[derive(Clone, Debug, PartialEq, Eq)]
pub enum LinkAction {
    /// Write these bytes to the peer.
    WriteWire(Vec<u8>),
    /// Supply at most `max_len` file bytes from `offset` on.
    ReadFile { offset: u32, max_len: usize },
    /// Store these file bytes.
    WriteFile(Vec<u8>),
    /// The peer announced a file.
    FileStarted { name: Vec<u8>, size: Option<u32> },
    /// The current file is complete.
    FileCompleted,
    /// The session is complete.
    SessionCompleted,
    /// The session was aborted.
    Aborted,
    /// An event this library does not know.
    OtherEvent,
    /// Nothing to do before more input.
    Idle,
    /// An action this library does not know.
    Other,
}

/// What a machine asks for, over plain values.
pub ghost enum ActionView {
    WriteWire(Seq<u8>),
    ReadFile { offset: u32, max_len: usize },
    WriteFile(Seq<u8>),
    FileStarted { name: Seq<u8>, size: Option<u32> },
    FileCompleted,
    SessionCompleted,
    Aborted,
    OtherEvent,
    Idle,
    Other,
}

impl View for LinkAction {
    type V = ActionView;

    open spec fn view(&self) -> ActionView {
        match *self {
            LinkAction::WriteWire(bytes) => ActionView::WriteWire(bytes@),
            LinkAction::ReadFile { offset, max_len } => ActionView::ReadFile { offset, max_len },
            LinkAction::WriteFile(bytes) => ActionView::WriteFile(bytes@),
            LinkAction::FileStarted { name, size } => ActionView::FileStarted { name: name@, size },
            LinkAction::FileCompleted => ActionView::FileCompleted,
            LinkAction::SessionCompleted => ActionView::SessionCompleted,
            LinkAction::Aborted => ActionView::Aborted,
            LinkAction::OtherEvent => ActionView::OtherEvent,
            LinkAction::Idle => ActionView::Idle,
            LinkAction::Other => ActionView::Other,
        }
    }
}

/// A call on the receiving machine.
pub ghost enum ReceiverCall {
    SetManualFileAccept(bool),
    AcceptFileAt(u32),
    SkipFile,
    SubmitWire(Seq<u8>),
    WireWritten(usize),
    FileWritten(usize),
    Timeout,
    Abort,
    Poll,
}

/// A receiving machine's life so far: what it was made with, and its calls.
pub ghost struct ReceiverHistory {
    pub buffer_len: u16,
    pub overlapped_io: bool,
    pub calls: Seq<ReceiverCall>,
}

impl ReceiverHistory {
    /// The same life with one more call.
    pub open spec fn then_call(self, call: ReceiverCall) -> ReceiverHistory {
        ReceiverHistory { calls: self.calls.push(call), ..self }
    }
}

/// What `Receiver::accept_file_at` returns after these calls.
pub uninterp spec fn receiver_accept_file_at(history: ReceiverHistory, offset: u32) -> Result<
    (),
    zmodem2::Error,
>;

/// What `Receiver::skip_file` returns after these calls.
pub uninterp spec fn receiver_skip_file(history: ReceiverHistory) -> Result<(), zmodem2::Error>;

/// What `Receiver::submit_wire` returns after these calls.
pub uninterp spec fn receiver_submit_wire(history: ReceiverHistory, input: Seq<u8>) -> Result<
    usize,
    zmodem2::Error,
>;

/// What `Receiver::file_written` returns after these calls.
pub uninterp spec fn receiver_file_written(history: ReceiverHistory, count: usize) -> Result<
    (),
    zmodem2::Error,
>;

/// What `Receiver::timeout` returns after these calls.
pub uninterp spec fn receiver_timeout(history: ReceiverHistory) -> Result<(), zmodem2::Error>;

/// What `Receiver::abort` returns after these calls.
pub uninterp spec fn receiver_abort(history: ReceiverHistory) -> Result<(), zmodem2::Error>;

/// What `Receiver::poll` returns after these calls.
pub uninterp spec fn receiver_poll(history: ReceiverHistory) -> ActionView;

/// What a receiving machine was made with: the length of its buffer, and
/// whether it receives while it stores.
pub uninterp spec fn receiver_flow_control(machine: Receiver) -> (u16, bool);

/// `Receiver::with_flow_control` makes a machine that keeps the two arguments,
/// and queues its `ZRINIT`. Its only failure is an outgoing buffer that cannot
/// hold that header; the buffer has a fixed size, is empty at that point and
/// holds far more than one header.
#[verifier::external_body]
fn new_receiver(buffer_len: u16, overlapped_io: bool) -> (r: Result<Receiver, zmodem2::Error>)
    ensures
        r is Ok,
        receiver_flow_control(r->Ok_0) == (buffer_len, overlapped_io),
{
    Receiver::with_flow_control(buffer_len, overlapped_io)
}

/// A receiving machine with the record of its calls.
pub struct ReceiverLink {
    machine: Receiver,
    calls: Ghost<Seq<ReceiverCall>>,
}

impl View for ReceiverLink {
    type V = ReceiverHistory;

    closed spec fn view(&self) -> ReceiverHistory {
        let (buffer_len, overlapped_io) = receiver_flow_control(self.machine);
        ReceiverHistory { buffer_len, overlapped_io, calls: self.calls@ }
    }
}

impl ReceiverLink {
    /// A machine that advertises the given flow control, with no calls yet.
    pub(crate) fn open(buffer_len: u16, overlapped_io: bool) -> (r: Result<Self, zmodem2::Error>)
        ensures
            r matches Ok(link) && link@ == (ReceiverHistory {
                buffer_len,
                overlapped_io,
                calls: Seq::empty(),
            }),
    {
        match new_receiver(buffer_len, overlapped_io) {
            Ok(machine) => Ok(ReceiverLink { machine, calls: Ghost(Seq::empty()) }),
            Err(error) => Err(error),
        }
    }

    /// `Receiver::set_manual_file_accept`: records the call.
    #[verifier::external_body]
    pub(crate) fn set_manual_file_accept(&mut self, manual: bool)
        ensures
            final(self)@ == old(self)@.then_call(ReceiverCall::SetManualFileAccept(manual)),
    {
        self.machine.set_manual_file_accept(manual);
    }

    /// `Receiver::accept_file_at`: the named result, and one more call.
    #[verifier::external_body]
    pub(crate) fn accept_file_at(&mut self, offset: u32) -> (r: Result<(), zmodem2::Error>)
        ensures
            r == receiver_accept_file_at(old(self)@, offset),
            final(self)@ == old(self)@.then_call(ReceiverCall::AcceptFileAt(offset)),
    {
        self.machine.accept_file_at(offset)
    }

    /// `Receiver::skip_file`: the named result, and one more call.
    #[verifier::external_body]
    pub(crate) fn skip_file(&mut self) -> (r: Result<(), zmodem2::Error>)
        ensures
            r == receiver_skip_file(old(self)@),
            final(self)@ == old(self)@.then_call(ReceiverCall::SkipFile),
    {
        self.machine.skip_file()
    }

    /// `Receiver::submit_wire`: the named result, which counts consumed bytes
    /// of the input and so never exceeds its length, and one more call.
    #[verifier::external_body]
    pub(crate) fn submit_wire(&mut self, input: &[u8]) -> (r: Result<usize, zmodem2::Error>)
        ensures
            r == receiver_submit_wire(old(self)@, input@),
            r matches Ok(count) ==> count <= input.len(),
            final(self)@ == old(self)@.then_call(ReceiverCall::SubmitWire(input@)),
    {
        self.machine.submit_wire(input)
    }

    /// `Receiver::wire_written`: records the call.
    #[verifier::external_body]
    pub(crate) fn wire_written(&mut self, count: usize)
        ensures
            final(self)@ == old(self)@.then_call(ReceiverCall::WireWritten(count)),
    {
        self.machine.wire_written(count);
    }

    /// `Receiver::file_written`: the named result, and one more call.
    #[verifier::external_body]
    pub(crate) fn file_written(&mut self, count: usize) -> (r: Result<(), zmodem2::Error>)
        ensures
            r == receiver_file_written(old(self)@, count),
            final(self)@ == old(self)@.then_call(ReceiverCall::FileWritten(count)),
    {
        self.machine.file_written(count)
    }

    /// `Receiver::timeout`: the named result, and one more call.
    #[verifier::external_body]
    pub(crate) fn timeout(&mut self) -> (r: Result<(), zmodem2::Error>)
        ensures
            r == receiver_timeout(old(self)@),
            final(self)@ == old(self)@.then_call(ReceiverCall::Timeout),
    {
        self.machine.timeout()
    }

    /// `Receiver::abort`: the named result, and one more call.
    #[verifier::external_body]
    pub(crate) fn abort(&mut self) -> (r: Result<(), zmodem2::Error>)
        ensures
            r == receiver_abort(old(self)@),
            final(self)@ == old(self)@.then_call(ReceiverCall::Abort),
    {
        self.machine.abort()
    }

    /// `Receiver::poll`: the named action with its bytes copied out, and one
    /// more call.
    #[verifier::external_body]
    pub(crate) fn poll(&mut self) -> (r: LinkAction)
        ensures
            r@ == receiver_poll(old(self)@),
            final(self)@ == old(self)@.then_call(ReceiverCall::Poll),
    {
        match self.machine.poll() {
            Action::WriteWire(bytes) => LinkAction::WriteWire(bytes.to_vec()),
            Action::WriteFile(bytes) => LinkAction::WriteFile(bytes.to_vec()),
            Action::ReadFile { offset, max_len } => LinkAction::ReadFile { offset: offset.get(), max_len },
            Action::Event(Event::FileStarted(FileInfo { name, size, .. })) =>
                LinkAction::FileStarted { name: name.to_vec(), size: size.map(Position::get) },
            Action::Event(Event::FileCompleted) => LinkAction::FileCompleted,
            Action::Event(Event::SessionCompleted) => LinkAction::SessionCompleted,
            Action::Event(Event::Aborted) => LinkAction::Aborted,
            Action::Event(_) => LinkAction::OtherEvent,
            Action::Idle => LinkAction::Idle,
            _ => LinkAction::Other,
        }
    }
}

/// A call on the sending machine.
pub ghost enum SenderCall {
    SetStreamingWindow(usize),
    StartFile(Seq<u8>, u32),
    Finish,
    SubmitFile(Seq<u8>),
    SubmitWire(Seq<u8>),
    WireWritten(usize),
    Timeout,
    Abort,
    Poll,
}

/// A sending machine's life so far: its calls.
pub ghost struct SenderHistory {
    pub calls: Seq<SenderCall>,
}

impl SenderHistory {
    /// The life of a new machine.
    pub open spec fn new() -> SenderHistory {
        SenderHistory { calls: Seq::empty() }
    }

    /// The same life with one more call.
    pub open spec fn then_call(self, call: SenderCall) -> SenderHistory {
        SenderHistory { calls: self.calls.push(call) }
    }
}

/// What `Sender::start_file` returns after these calls, for a file of known
/// size without a modification time or a mode.
pub uninterp spec fn sender_start_file(history: SenderHistory, name: Seq<u8>, size: u32) -> Result<
    (),
    zmodem2::Error,
>;

/// What `Sender::finish` returns after these calls.
pub uninterp spec fn sender_finish(history: SenderHistory) -> Result<(), zmodem2::Error>;

/// What `Sender::submit_file` returns after these calls.
pub uninterp spec fn sender_submit_file(history: SenderHistory, data: Seq<u8>) -> Result<
    (),
    zmodem2::Error,
>;

/// What `Sender::submit_wire` returns after these calls.
pub uninterp spec fn sender_submit_wire(history: SenderHistory, input: Seq<u8>) -> Result<
    usize,
    zmodem2::Error,
>;

/// What `Sender::timeout` returns after these calls.
pub uninterp spec fn sender_timeout(history: SenderHistory) -> Result<(), zmodem2::Error>;

/// What `Sender::poll` returns after these calls.
pub uninterp spec fn sender_poll(history: SenderHistory) -> ActionView;

/// `Sender::new` makes a machine and queues its `ZRQINIT`. Its only failure is
/// an outgoing buffer that cannot hold that header; the buffer has a fixed
/// size, is empty at that point and holds far more than one header.
#[verifier::external_body]
fn new_sender() -> (r: Result<Sender, zmodem2::Error>)
    ensures
        r is Ok,
{
    Sender::new()
}

/// A sending machine with the record of its calls.
pub struct SenderLink {
    machine: Sender,
    history: Ghost<SenderHistory>,
}

impl View for SenderLink {
    type V = SenderHistory;

    closed spec fn view(&self) -> SenderHistory {
        self.history@
    }
}

impl SenderLink {
    /// A machine with no calls yet.
    pub(crate) fn open() -> (r: Result<Self, zmodem2::Error>)
        ensures
            r matches Ok(link) && link@ == SenderHistory::new(),
    {
        match new_sender() {
            Ok(machine) => Ok(SenderLink { machine, history: Ghost(SenderHistory::new()) }),
            Err(error) => Err(error),
        }
    }

    /// `Sender::set_streaming_window`: records the call.
    #[verifier::external_body]
    pub(crate) fn set_streaming_window(&mut self, subpackets: usize)
        ensures
            final(self)@ == old(self)@.then_call(SenderCall::SetStreamingWindow(subpackets)),
    {
        self.machine.set_streaming_window(subpackets);
    }

    /// `Sender::start_file` with a name and a known size: the named result,
    /// and one more call.
    #[verifier::external_body]
    pub(crate) fn start_file(&mut self, name: &[u8], size: u32) -> (r: Result<(), zmodem2::Error>)
        ensures
            r == sender_start_file(old(self)@, name@, size),
            final(self)@ == old(self)@.then_call(SenderCall::StartFile(name@, size)),
    {
        self.machine.start_file(FileInfo::new(name, Some(Position::new(size))))
    }

    /// `Sender::finish`: the named result, and one more call.
    #[verifier::external_body]
    pub(crate) fn finish(&mut self) -> (r: Result<(), zmodem2::Error>)
        ensures
            r == sender_finish(old(self)@),
            final(self)@ == old(self)@.then_call(SenderCall::Finish),
    {
        self.machine.finish()
    }

    /// `Sender::submit_file`: the named result, and one more call.
    #[verifier::external_body]
    pub(crate) fn submit_file(&mut self, data: &[u8]) -> (r: Result<(), zmodem2::Error>)
        ensures
            r == sender_submit_file(old(self)@, data@),
            final(self)@ == old(self)@.then_call(SenderCall::SubmitFile(data@)),
    {
        self.machine.submit_file(data)
    }

    /// `Sender::submit_wire`: the named result, which counts consumed bytes of
    /// the input and so never exceeds its length, and one more call.
    #[verifier::external_body]
    pub(crate) fn submit_wire(&mut self, input: &[u8]) -> (r: Result<usize, zmodem2::Error>)
        ensures
            r == sender_submit_wire(old(self)@, input@),
            r matches Ok(count) ==> count <= input.len(),
            final(self)@ == old(self)@.then_call(SenderCall::SubmitWire(input@)),
    {
        self.machine.submit_wire(input)
    }

    /// `Sender::wire_written`: records the call.
    #[verifier::external_body]
    pub(crate) fn wire_written(&mut self, count: usize)
        ensures
            final(self)@ == old(self)@.then_call(SenderCall::WireWritten(count)),
    {
        self.machine.wire_written(count);
    }

    /// `Sender::timeout`: the named result, and one more call.
    #[verifier::external_body]
    pub(crate) fn timeout(&mut self) -> (r: Result<(), zmodem2::Error>)
        ensures
            r == sender_timeout(old(self)@),
            final(self)@ == old(self)@.then_call(SenderCall::Timeout),
    {
        self.machine.timeout()
    }

    /// `Sender::abort`: records the call.
    #[verifier::external_body]
    pub(crate) fn abort(&mut self)
        ensures
            final(self)@ == old(self)@.then_call(SenderCall::Abort),
    {
        self.machine.abort();
    }

    /// `Sender::poll`: the named action with its bytes copied out, and one
    /// more call.
    #[verifier::external_body]
    pub(crate) fn poll(&mut self) -> (r: LinkAction)
        ensures
            r@ == sender_poll(old(self)@),
            final(self)@ == old(self)@.then_call(SenderCall::Poll),
    {
        match self.machine.poll() {
            Action::WriteWire(bytes) => LinkAction::WriteWire(bytes.to_vec()),
            Action::WriteFile(bytes) => LinkAction::WriteFile(bytes.to_vec()),
            Action::ReadFile { offset, max_len } => LinkAction::ReadFile { offset: offset.get(), max_len },
            Action::Event(Event::FileStarted(FileInfo { name, size, .. })) =>
                LinkAction::FileStarted { name: name.to_vec(), size: size.map(Position::get) },
            Action::Event(Event::FileCompleted) => LinkAction::FileCompleted,
            Action::Event(Event::SessionCompleted) => LinkAction::SessionCompleted,
            Action::Event(Event::Aborted) => LinkAction::Aborted,
            Action::Event(_) => LinkAction::OtherEvent,
            Action::Idle => LinkAction::Idle,
            _ => LinkAction::Other,
        }
    }
}

} // verus!
