//! The protocol side of a transfer: one state machine, driven in the worker's
//! role, with failures that are safe to show.

use vstd::prelude::*;

use crate::link::{
    receiver_accept_file_at, receiver_file_written, receiver_poll,
    receiver_skip_file, receiver_submit_wire, receiver_timeout, sender_finish, sender_poll,
    sender_start_file, sender_submit_file, sender_submit_wire, sender_timeout, ActionView,
    LinkAction, ReceiverCall, ReceiverHistory, ReceiverLink, SenderCall, SenderHistory,
    SenderLink,
};
use crate::transfer_handle::failure_view;
use crate::zmodem_runtime::{
    protocol_error, protocol_failure, ErrorView, Role, TransferError,
};

verus! {

/// The state machine of a transfer.
pub enum Protocol {
    Upload(Box<SenderLink>),
    Download(Box<ReceiverLink>),
}

/// The state machine of a transfer, as the calls made on it.
pub ghost enum ProtocolView {
    Upload(SenderHistory),
    Download(ReceiverHistory),
}

impl View for Protocol {
    type V = ProtocolView;

    open spec fn view(&self) -> ProtocolView {
        match *self {
            Protocol::Upload(sender) => ProtocolView::Upload((*sender)@),
            Protocol::Download(receiver) => ProtocolView::Download((*receiver)@),
        }
    }
}

/// The failure that a protocol result stands for.
pub open spec fn refusal(result: Result<(), zmodem2::Error>) -> Option<ErrorView> {
    match result {
        Ok(_) => None,
        Err(failure) => Some(protocol_failure(failure)),
    }
}

/// The count in a protocol result, or the failure that it stands for.
pub open spec fn consumption(result: Result<usize, zmodem2::Error>) -> Result<usize, ErrorView> {
    match result {
        Ok(count) => Ok(count),
        Err(failure) => Err(protocol_failure(failure)),
    }
}

/// The view of a count or of the failure in its place.
pub open spec fn count_result(result: Result<usize, TransferError>) -> Result<usize, ErrorView> {
    match result {
        Ok(count) => Ok(count),
        Err(failure) => Err(failure@),
    }
}

impl ProtocolView {
    /// A new machine of the given role: uploads stream without waiting for
    /// acknowledgements, downloads wait for each file to be accepted.
    pub open spec fn new(role: Role) -> ProtocolView {
        match role {
            Role::Upload => ProtocolView::Upload(
                SenderHistory::new().then_call(SenderCall::SetStreamingWindow(usize::MAX)),
            ),
            Role::Download => ProtocolView::Download(
                (ReceiverHistory {
                    buffer_len: 0,
                    overlapped_io: true,
                    calls: Seq::empty(),
                }).then_call(ReceiverCall::SetManualFileAccept(true)),
            ),
        }
    }

    /// The next action, and the machine that was asked for it.
    pub open spec fn polled(self) -> (ProtocolView, ActionView) {
        match self {
            ProtocolView::Upload(history) => (
                ProtocolView::Upload(history.then_call(SenderCall::Poll)),
                sender_poll(history),
            ),
            ProtocolView::Download(history) => (
                ProtocolView::Download(history.then_call(ReceiverCall::Poll)),
                receiver_poll(history),
            ),
        }
    }

    /// The machine after wire bytes, and how many it took.
    pub open spec fn submitted(self, bytes: Seq<u8>) -> (ProtocolView, Result<usize, ErrorView>) {
        match self {
            ProtocolView::Upload(history) => (
                ProtocolView::Upload(history.then_call(SenderCall::SubmitWire(bytes))),
                consumption(sender_submit_wire(history, bytes)),
            ),
            ProtocolView::Download(history) => (
                ProtocolView::Download(history.then_call(ReceiverCall::SubmitWire(bytes))),
                consumption(receiver_submit_wire(history, bytes)),
            ),
        }
    }

    /// The machine after `count` bytes went to the wire.
    pub open spec fn written(self, count: usize) -> ProtocolView {
        match self {
            ProtocolView::Upload(history) => ProtocolView::Upload(
                history.then_call(SenderCall::WireWritten(count)),
            ),
            ProtocolView::Download(history) => ProtocolView::Download(
                history.then_call(ReceiverCall::WireWritten(count)),
            ),
        }
    }

    /// The machine after the peer was silent for too long.
    pub open spec fn timed_out(self) -> (ProtocolView, Option<ErrorView>) {
        match self {
            ProtocolView::Upload(history) => (
                ProtocolView::Upload(history.then_call(SenderCall::Timeout)),
                refusal(sender_timeout(history)),
            ),
            ProtocolView::Download(history) => (
                ProtocolView::Download(history.then_call(ReceiverCall::Timeout)),
                refusal(receiver_timeout(history)),
            ),
        }
    }

    /// The machine after it was given file data; only uploads take any.
    pub open spec fn supplied(self, data: Seq<u8>) -> (ProtocolView, Option<ErrorView>) {
        match self {
            ProtocolView::Upload(history) => (
                ProtocolView::Upload(history.then_call(SenderCall::SubmitFile(data))),
                refusal(sender_submit_file(history, data)),
            ),
            ProtocolView::Download(_) => (self, None),
        }
    }

    /// The machine after a file was offered; only uploads offer any.
    pub open spec fn offered(self, name: Seq<u8>, size: u32) -> (ProtocolView, Option<ErrorView>) {
        match self {
            ProtocolView::Upload(history) => (
                ProtocolView::Upload(history.then_call(SenderCall::StartFile(name, size))),
                refusal(sender_start_file(history, name, size)),
            ),
            ProtocolView::Download(_) => (self, None),
        }
    }

    /// The machine after the last file; only uploads end by themselves.
    pub open spec fn finished(self) -> (ProtocolView, Option<ErrorView>) {
        match self {
            ProtocolView::Upload(history) => (
                ProtocolView::Upload(history.then_call(SenderCall::Finish)),
                refusal(sender_finish(history)),
            ),
            ProtocolView::Download(_) => (self, None),
        }
    }

    /// The machine after file data was stored; only downloads store any.
    pub open spec fn stored(self, count: usize) -> (ProtocolView, Option<ErrorView>) {
        match self {
            ProtocolView::Download(history) => (
                ProtocolView::Download(history.then_call(ReceiverCall::FileWritten(count))),
                refusal(receiver_file_written(history, count)),
            ),
            ProtocolView::Upload(_) => (self, None),
        }
    }

    /// The machine after the announced file was accepted from its start.
    pub open spec fn accepted(self) -> (ProtocolView, Option<ErrorView>) {
        match self {
            ProtocolView::Download(history) => (
                ProtocolView::Download(history.then_call(ReceiverCall::AcceptFileAt(0))),
                refusal(receiver_accept_file_at(history, 0)),
            ),
            ProtocolView::Upload(_) => (self, None),
        }
    }

    /// The machine after the announced file was declined.
    pub open spec fn declined(self) -> (ProtocolView, Option<ErrorView>) {
        match self {
            ProtocolView::Download(history) => (
                ProtocolView::Download(history.then_call(ReceiverCall::SkipFile)),
                refusal(receiver_skip_file(history)),
            ),
            ProtocolView::Upload(_) => (self, None),
        }
    }
}

fn refused(result: Result<(), zmodem2::Error>) -> (r: Result<(), TransferError>)
    ensures
        failure_view(r) == refusal(result),
{
    match result {
        Ok(()) => Ok(()),
        Err(failure) => Err(protocol_error(failure)),
    }
}

impl Protocol {
    /// A machine of the given role.
    pub fn new(role: Role) -> (r: Result<Self, TransferError>)
        ensures
            r matches Ok(protocol) && protocol@ == ProtocolView::new(role),
    {
        match role {
            Role::Upload => match SenderLink::open() {
                Ok(mut sender) => {
                    sender.set_streaming_window(usize::MAX);
                    Ok(Protocol::Upload(Box::new(sender)))
                },
                Err(cause) => Err(protocol_error(cause)),
            },
            Role::Download => match ReceiverLink::open(0, true) {
                Ok(mut receiver) => {
                    receiver.set_manual_file_accept(true);
                    Ok(Protocol::Download(Box::new(receiver)))
                },
                Err(cause) => Err(protocol_error(cause)),
            },
        }
    }

    /// Asks for the next action.
    pub fn poll(&mut self) -> (r: LinkAction)
        ensures
            (final(self)@, r@) == old(self)@.polled(),
    {
        match self {
            Protocol::Upload(sender) => sender.poll(),
            Protocol::Download(receiver) => receiver.poll(),
        }
    }

    /// Submits wire bytes; returns how many were consumed.
    pub fn submit(&mut self, bytes: &[u8]) -> (r: Result<usize, TransferError>)
        ensures
            (final(self)@, count_result(r)) == old(self)@.submitted(bytes@),
            r matches Ok(count) ==> count <= bytes.len(),
    {
        let result = match self {
            Protocol::Upload(sender) => sender.submit_wire(bytes),
            Protocol::Download(receiver) => receiver.submit_wire(bytes),
        };
        match result {
            Ok(count) => Ok(count),
            Err(failure) => Err(protocol_error(failure)),
        }
    }

    /// Reports bytes that went to the wire.
    pub fn wire_written(&mut self, count: usize)
        ensures
            final(self)@ == old(self)@.written(count),
    {
        match self {
            Protocol::Upload(sender) => sender.wire_written(count),
            Protocol::Download(receiver) => receiver.wire_written(count),
        }
    }

    /// Reports that the peer was silent for too long.
    pub fn timeout(&mut self) -> (r: Result<(), TransferError>)
        ensures
            (final(self)@, failure_view(r)) == old(self)@.timed_out(),
    {
        let result = match self {
            Protocol::Upload(sender) => sender.timeout(),
            Protocol::Download(receiver) => receiver.timeout(),
        };
        refused(result)
    }

    /// Supplies file data to an upload.
    pub fn submit_file(&mut self, data: &[u8]) -> (r: Result<(), TransferError>)
        ensures
            (final(self)@, failure_view(r)) == old(self)@.supplied(data@),
    {
        match self {
            Protocol::Upload(sender) => refused(sender.submit_file(data)),
            Protocol::Download(_) => Ok(()),
        }
    }

    /// Offers a file in an upload.
    pub fn start_file(&mut self, name: &[u8], size: u32) -> (r: Result<(), TransferError>)
        ensures
            (final(self)@, failure_view(r)) == old(self)@.offered(name@, size),
    {
        match self {
            Protocol::Upload(sender) => refused(sender.start_file(name, size)),
            Protocol::Download(_) => Ok(()),
        }
    }

    /// Ends an upload.
    pub fn finish(&mut self) -> (r: Result<(), TransferError>)
        ensures
            (final(self)@, failure_view(r)) == old(self)@.finished(),
    {
        match self {
            Protocol::Upload(sender) => refused(sender.finish()),
            Protocol::Download(_) => Ok(()),
        }
    }

    /// Reports stored file data of a download.
    pub fn file_written(&mut self, count: usize) -> (r: Result<(), TransferError>)
        ensures
            (final(self)@, failure_view(r)) == old(self)@.stored(count),
    {
        match self {
            Protocol::Download(receiver) => refused(receiver.file_written(count)),
            Protocol::Upload(_) => Ok(()),
        }
    }

    /// Accepts the announced file of a download.
    pub fn accept_file(&mut self) -> (r: Result<(), TransferError>)
        ensures
            (final(self)@, failure_view(r)) == old(self)@.accepted(),
    {
        match self {
            Protocol::Download(receiver) => refused(receiver.accept_file_at(0)),
            Protocol::Upload(_) => Ok(()),
        }
    }

    /// Declines the announced file of a download.
    pub fn skip_file(&mut self) -> (r: Result<(), TransferError>)
        ensures
            (final(self)@, failure_view(r)) == old(self)@.declined(),
    {
        match self {
            Protocol::Download(receiver) => refused(receiver.skip_file()),
            Protocol::Upload(_) => Ok(()),
        }
    }
}

/// A new machine has seen nothing but its setting: an upload streams without
/// waiting for acknowledgements, a download asks before it takes a file.
pub proof fn law_new_machines_are_set_up(role: Role)
    ensures
        role is Upload ==> ProtocolView::new(role) == ProtocolView::Upload(
            SenderHistory { calls: seq![SenderCall::SetStreamingWindow(usize::MAX)] },
        ),
        role is Download ==> ({
            let machine = ProtocolView::new(role);
            &&& machine is Download
            &&& (machine->Download_0).calls == seq![ReceiverCall::SetManualFileAccept(true)]
            &&& (machine->Download_0).overlapped_io
            &&& (machine->Download_0).buffer_len == 0
        }),
{
    assert(Seq::<SenderCall>::empty().push(SenderCall::SetStreamingWindow(usize::MAX)) =~= seq![
        SenderCall::SetStreamingWindow(usize::MAX),
    ]);
    assert(Seq::<ReceiverCall>::empty().push(ReceiverCall::SetManualFileAccept(true)) =~= seq![
        ReceiverCall::SetManualFileAccept(true),
    ]);
}

/// The machine of an upload is given every call as it is, and refuses exactly
/// what it refuses; what only a download does leaves it alone.
pub proof fn law_senders_get_every_call(
    history: SenderHistory,
    bytes: Seq<u8>,
    count: usize,
    size: u32,
)
    ensures
        ({
            let machine = ProtocolView::Upload(history);
            let then = |call: SenderCall|
                ProtocolView::Upload(SenderHistory { calls: history.calls.push(call) });
            &&& machine.polled() == (then(SenderCall::Poll), sender_poll(history))
            &&& machine.written(count) == then(SenderCall::WireWritten(count))
            &&& machine.submitted(bytes).0 == then(SenderCall::SubmitWire(bytes))
            &&& machine.timed_out().0 == then(SenderCall::Timeout)
            &&& machine.supplied(bytes).0 == then(SenderCall::SubmitFile(bytes))
            &&& machine.offered(bytes, size).0 == then(SenderCall::StartFile(bytes, size))
            &&& machine.finished().0 == then(SenderCall::Finish)
            &&& machine.submitted(bytes).1 is Ok <==> sender_submit_wire(history, bytes) is Ok
            &&& sender_submit_wire(history, bytes) matches Ok(taken) ==> machine.submitted(bytes).1
                == Ok::<usize, ErrorView>(taken)
            &&& machine.timed_out().1 is None <==> sender_timeout(history) is Ok
            &&& machine.supplied(bytes).1 is None <==> sender_submit_file(history, bytes) is Ok
            &&& machine.offered(bytes, size).1 is None <==> sender_start_file(
                history,
                bytes,
                size,
            ) is Ok
            &&& machine.finished().1 is None <==> sender_finish(history) is Ok
            &&& machine.stored(count) == (machine, None::<ErrorView>)
            &&& machine.accepted() == (machine, None::<ErrorView>)
            &&& machine.declined() == (machine, None::<ErrorView>)
        }),
{
}

/// The machine of a download is given every call as it is, and refuses exactly
/// what it refuses; what only an upload does leaves it alone.
pub proof fn law_receivers_get_every_call(
    history: ReceiverHistory,
    bytes: Seq<u8>,
    count: usize,
    size: u32,
)
    ensures
        ({
            let machine = ProtocolView::Download(history);
            let then = |call: ReceiverCall|
                ProtocolView::Download(
                    ReceiverHistory { calls: history.calls.push(call), ..history },
                );
            &&& machine.polled() == (then(ReceiverCall::Poll), receiver_poll(history))
            &&& machine.written(count) == then(ReceiverCall::WireWritten(count))
            &&& machine.submitted(bytes).0 == then(ReceiverCall::SubmitWire(bytes))
            &&& machine.timed_out().0 == then(ReceiverCall::Timeout)
            &&& machine.stored(count).0 == then(ReceiverCall::FileWritten(count))
            &&& machine.accepted().0 == then(ReceiverCall::AcceptFileAt(0))
            &&& machine.declined().0 == then(ReceiverCall::SkipFile)
            &&& machine.submitted(bytes).1 is Ok <==> receiver_submit_wire(history, bytes) is Ok
            &&& receiver_submit_wire(history, bytes) matches Ok(taken) ==> machine.submitted(
                bytes,
            ).1 == Ok::<usize, ErrorView>(taken)
            &&& machine.timed_out().1 is None <==> receiver_timeout(history) is Ok
            &&& machine.stored(count).1 is None <==> receiver_file_written(history, count) is Ok
            &&& machine.accepted().1 is None <==> receiver_accept_file_at(history, 0) is Ok
            &&& machine.declined().1 is None <==> receiver_skip_file(history) is Ok
            &&& machine.supplied(bytes) == (machine, None::<ErrorView>)
            &&& machine.offered(bytes, size) == (machine, None::<ErrorView>)
            &&& machine.finished() == (machine, None::<ErrorView>)
        }),
{
}

/// A refusal of the machine is a failure of the protocol, and one of a file's
/// size is known as such.
pub proof fn law_refusals_are_protocol_failures(failure: zmodem2::Error)
    ensures
        refusal(Err(failure)) matches Some(told) && (told.kind is FileTooLarge <==> failure
            is MalformedFileSize) && (told.kind is Protocol <==> !(failure is MalformedFileSize)),
        refusal(Ok(())) is None,
        consumption(Err(failure)) matches Err(told) && Some(told) == refusal(Err(failure)),
{
}

} // verus!
