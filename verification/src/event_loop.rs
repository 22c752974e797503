//! Decisions of the event loop that serves the PTY: what a message does, when
//! the loop has to wake up, and when it ends.

use vstd::prelude::*;

use crate::clock::{Duration, Instant};
use crate::pty_writing::{State, StateView};
use crate::zmodem_detector::DetectorView;
use crate::zmodem_router::{
    due, minimum_timeout, smaller_timeout, time_left, RouterView, ZmodemRouter, CANCEL_TIMEOUT,
};
use crate::zmodem_runtime::{Control, PathBytes};
use crate::zmodem_worker::LAST_INSTANT;

verus! {

/// Messages taken from the channel in one turn.
pub const MESSAGE_BUDGET: usize = 256;

/// The byte of an interrupt typed by the user.
pub const INTERRUPT: u8 = 0x03;

/// Size of the terminal's window.
#[derive(Clone, Copy, Debug, PartialEq, Eq, Structural)]
pub struct WindowSize {
    pub rows: u16,
    pub columns: u16,
    pub width: u16,
    pub height: u16,
}

/// Messages that may be sent to the event loop.
#[derive(Debug)]
pub enum Message {
    /// Data that should be written to the PTY.
    Input(Vec<u8>),
    /// Indicates that the event loop should be shut down.
    Shutdown,
    /// Indicates that the child process has exited.
    ChildExited,
    /// Instruction to resize the PTY.
    Resize(WindowSize),
    /// A request to the transfers of this terminal.
    Zmodem(Control),
    /// Start a ZMODEM upload of the given local files to a remote `rz`; no
    /// longer supported.
    StartZmodemUpload { paths: Vec<PathBytes> },
}

/// What the event loop has to do for a message.
pub enum MessageEffect {
    /// Nothing.
    Nothing,
    /// Cancel the active worker.
    CancelWorker,
    /// Resize the PTY.
    Resize(WindowSize),
    /// Let the router decide on the request.
    Control(Control),
    /// Report that the request is no longer supported.
    RejectLegacyUpload,
    /// End the loop, or drain a child that has exited.
    Terminate { child_exited: bool },
}

fn holds_interrupt(input: &[u8]) -> (r: bool)
    ensures
        r == input@.contains(INTERRUPT),
{
    let mut index: usize = 0;
    while index < input.len()
        invariant
            index <= input.len(),
            forall|i: int| 0 <= i < index ==> input@[i] != INTERRUPT,
        decreases input.len() - index,
    {
        if input[index] == INTERRUPT {
            return true;
        }
        index = index + 1;
    }
    false
}

/// Takes a message: input goes to the PTY, unless a transfer holds it, which
/// an interrupt then cancels.
pub fn handle_message(
    router: &mut ZmodemRouter,
    state: &mut State,
    message: Message,
    now: Instant,
) -> (r: MessageEffect)
    requires
        now <= LAST_INSTANT,
    ensures
        match message {
            Message::Input(input) => {
                let interrupts = old(router)@.busy() && input@.contains(INTERRUPT);
                &&& (final(router)@, r is CancelWorker) == if interrupts {
                    old(router)@.cancelled(now)
                } else {
                    (old(router)@, false)
                }
                &&& r is CancelWorker || r is Nothing
                &&& final(state)@ == if old(router)@.busy() || input@.len() == 0 {
                    old(state)@
                } else {
                    StateView {
                        write_list: old(state)@.write_list.push(input@),
                        ..old(state)@
                    }
                }
            },
            _ => final(router)@ == old(router)@ && final(state)@ == old(state)@,
        },
        message is Shutdown ==> r == (MessageEffect::Terminate { child_exited: false }),
        message is ChildExited ==> r == (MessageEffect::Terminate { child_exited: true }),
        message matches Message::Resize(size) ==> r == MessageEffect::Resize(size),
        message matches Message::Zmodem(control) ==> r == MessageEffect::Control(control),
        message is StartZmodemUpload ==> r is RejectLegacyUpload,
{
    match message {
        Message::Input(input) => {
            if router.busy() {
                if holds_interrupt(input.as_slice()) {
                    if router.cancel(now) {
                        return MessageEffect::CancelWorker;
                    }
                }
            } else if input.len() > 0 {
                state.queue(input);
            }
            MessageEffect::Nothing
        },
        Message::Shutdown => MessageEffect::Terminate { child_exited: false },
        Message::ChildExited => MessageEffect::Terminate { child_exited: true },
        Message::Resize(size) => MessageEffect::Resize(size),
        Message::Zmodem(control) => MessageEffect::Control(control),
        Message::StartZmodemUpload { .. } => MessageEffect::RejectLegacyUpload,
    }
}

/// Drops ordinary responses once a transfer holds the PTY.
pub fn yield_to_transfer(router: &ZmodemRouter, state: &mut State)
    ensures
        final(state)@ == if router@.busy() {
            StateView { writing: None, write_list: Seq::empty() }
        } else {
            old(state)@
        },
{
    if router.busy() {
        state.clear_writes();
    }
}

/// Queues the terminal's own responses, unless a transfer holds the PTY.
pub fn queue_responses(router: &ZmodemRouter, state: &mut State, responses: Vec<u8>)
    ensures
        final(state)@ == if router@.busy() || responses@.len() == 0 {
            old(state)@
        } else {
            StateView { write_list: old(state)@.write_list.push(responses@), ..old(state)@ }
        },
{
    if responses.len() > 0 && !router.busy() {
        state.queue(responses);
    }
}

/// Whether output that the terminal holds back is shown before more output: a
/// transfer does not wait for the end of a synchronized update. `held` is the
/// number of bytes held back, if some update is open.
pub fn must_finish_sync(router: &ZmodemRouter, held: Option<usize>) -> (r: bool)
    ensures
        r == (router@.busy() && held is Some),
{
    router.busy() && held.is_some()
}

/// Whether the application hears of shown output: always during a transfer,
/// otherwise unless all of it is held back. `held` is what is held back
/// afterwards.
pub fn wakes(router: &ZmodemRouter, len: usize, held: Option<usize>) -> (r: bool)
    ensures
        r == (len > 0 && (router@.busy() || len > match held {
            Some(held) => held,
            None => 0,
        })),
{
    len > 0 && (router.busy() || match held {
        Some(held) => len > held,
        None => true,
    })
}

/// Whether anything is to be written: protocol bytes while a transfer holds
/// the PTY, ordinary responses otherwise.
pub open spec fn write_needed(router: RouterView, state: StateView) -> bool {
    if router.busy() {
        router.wire.len() > 0
    } else {
        state.writing is Some || state.write_list.len() > 0
    }
}

/// Whether anything is to be written to the PTY.
pub fn needs_write(router: &ZmodemRouter, state: &State) -> (r: bool)
    ensures
        r == write_needed(router@, state@),
{
    if router.busy() {
        router.has_wire()
    } else {
        state.needs_write()
    }
}

/// What the loop knows of the PTY between two turns.
#[derive(Clone, Copy, Debug, PartialEq, Eq, Structural)]
pub struct LoopState {
    pub can_read: bool,
    pub can_write: bool,
    /// The channel holds more messages.
    pub more_control: bool,
    pub child_exited: bool,
    /// When the loop ends although the PTY was not drained.
    pub closing_deadline: Option<Instant>,
}

impl LoopState {
    /// A loop that has not heard of the PTY yet.
    pub fn new() -> (r: Self)
        ensures
            r == (LoopState {
                can_read: false,
                can_write: false,
                more_control: false,
                child_exited: false,
                closing_deadline: None,
            }),
    {
        LoopState {
            can_read: false,
            can_write: false,
            more_control: false,
            child_exited: false,
            closing_deadline: None,
        }
    }

    /// The loop drains the PTY and ends; the first deadline for that counts.
    pub open spec fn closing(self, now: Instant) -> LoopState {
        LoopState {
            can_read: true,
            closing_deadline: match self.closing_deadline {
                Some(deadline) => Some(deadline),
                None => Some((now + CANCEL_TIMEOUT) as u64),
            },
            ..self
        }
    }

    /// Takes over that the PTY was closed.
    pub fn close(&mut self, now: Instant)
        requires
            now <= LAST_INSTANT,
        ensures
            *final(self) == old(self).closing(now),
    {
        if self.closing_deadline.is_none() {
            self.closing_deadline = Some(now + CANCEL_TIMEOUT);
        }
        self.can_read = true;
    }

    /// Takes over that the child process has exited.
    pub fn exit(&mut self, now: Instant)
        requires
            now <= LAST_INSTANT,
        ensures
            *final(self) == (LoopState { child_exited: true, ..old(self).closing(now) }),
    {
        self.child_exited = true;
        self.close(now);
    }

    /// Takes over what the PTY is ready for.
    pub fn note_ready(&mut self, readable: bool, writable: bool)
        ensures
            *final(self) == (LoopState {
                can_read: old(self).can_read || readable,
                can_write: old(self).can_write || writable,
                ..*old(self)
            }),
    {
        self.can_read = self.can_read || readable;
        self.can_write = self.can_write || writable;
    }

    /// Takes over that the PTY has no more to read and is going away.
    pub fn drained(&mut self, now: Instant)
        requires
            now <= LAST_INSTANT,
        ensures
            *final(self) == (LoopState { can_read: false, ..old(self).closing(now) }),
    {
        self.close(now);
        self.can_read = false;
    }

    /// How long the loop may sleep: not at all while there is work, otherwise
    /// until the first deadline.
    pub fn timeout(
        &self,
        router: &ZmodemRouter,
        state: &State,
        sync_timeout: Option<Duration>,
        now: Instant,
    ) -> (r: Option<Duration>)
        requires
            router@.active matches Some(active) ==> active.retained.len()
                <= crate::zmodem_router::MAX_RETAINED_INPUT,
        ensures
            r == if self.more_control || (self.can_read && router@.read_capacity() != 0) || (
            self.can_write && write_needed(router@, state@)) {
                Some(0)
            } else {
                smaller_timeout(
                    smaller_timeout(sync_timeout, router@.next_timeout(now)),
                    time_left(self.closing_deadline, now),
                )
            },
    {
        let ready: bool = self.more_control || (self.can_read && router.read_capacity() != 0) || (
        self.can_write && needs_write(router, state));
        if ready {
            return Some(0);
        }
        let closing: Option<Duration> = match self.closing_deadline {
            Some(deadline) => Some(deadline.saturating_sub(now)),
            None => None,
        };
        minimum_timeout(minimum_timeout(sync_timeout, router.next_timeout(now)), closing)
    }

    /// Whether the loop ends: a closed PTY was drained, or its time is over.
    pub fn is_over(&self, router: &ZmodemRouter, now: Instant) -> (r: bool)
        ensures
            r == (due(self.closing_deadline, now) || (self.closing_deadline is Some
                && !self.can_read && !router@.busy())),
    {
        match self.closing_deadline {
            Some(deadline) => now >= deadline || (!self.can_read && !router.busy()),
            None => false,
        }
    }
}

/// Why a terminal exits.
#[derive(Clone, Copy, Debug, PartialEq, Eq, Structural)]
pub enum ExitReason {
    ShellProcessExited,
    PtyDisconnected,
}

/// What is left to do when the loop has ended, in this order.
pub struct Farewell {
    /// Output to show that was retained as the front of a header.
    pub pending: Vec<u8>,
    /// The worker of the active transfer has to be cancelled.
    pub cancel_worker: bool,
    /// The child process has to be killed.
    pub kill: bool,
    /// What the terminal is told, in order.
    pub reasons: Vec<ExitReason>,
}

/// What the terminal is told when the loop has ended.
pub open spec fn exit_reasons(child_exited: bool) -> Seq<ExitReason> {
    if child_exited {
        seq![ExitReason::ShellProcessExited, ExitReason::PtyDisconnected]
    } else {
        seq![ExitReason::PtyDisconnected]
    }
}

/// Ends the loop: retained output is given out, the active transfer is
/// cancelled, every transfer is let go, and a child that has not exited is
/// killed.
pub fn shut_down(router: &mut ZmodemRouter, turn: &LoopState, now: Instant) -> (r: Farewell)
    requires
        now <= LAST_INSTANT,
    ensures
        r.pending@ == old(router)@.detector.pending,
        r.kill == !turn.child_exited,
        r.reasons@ == exit_reasons(turn.child_exited),
        r.cancel_worker == old(router)@.cancelled(now).1,
        final(router)@ == (RouterView {
            detector: DetectorView::idle(),
            active: None,
            retiring: Seq::empty(),
            ..old(router)@.cancelled(now).0
        }),
{
    let pending: Vec<u8> = router.flush();
    let cancel_worker: bool = router.cancel(now);
    router.release_all();
    let mut reasons: Vec<ExitReason> = Vec::new();
    if turn.child_exited {
        reasons.push(ExitReason::ShellProcessExited);
    }
    reasons.push(ExitReason::PtyDisconnected);
    assert(reasons@ =~= exit_reasons(turn.child_exited));
    Farewell { pending, cancel_worker, kill: !turn.child_exited, reasons }
}

/// Every loop ends with a disconnected PTY, and the exit of the shell is
/// reported before it, if and only if the shell was not killed.
pub proof fn law_exits_are_reported_in_order(child_exited: bool)
    ensures
        exit_reasons(child_exited).last() == ExitReason::PtyDisconnected,
        exit_reasons(child_exited).contains(ExitReason::ShellProcessExited) <==> child_exited,
        child_exited ==> exit_reasons(child_exited)[0] == ExitReason::ShellProcessExited,
{
    if child_exited {
        assert(exit_reasons(child_exited)[0] == ExitReason::ShellProcessExited);
    }
}

/// Typed input never reaches the PTY while a transfer holds it.
pub proof fn law_transfers_shut_out_ordinary_writes(router: RouterView, state: StateView)
    requires
        router.busy(),
    ensures
        write_needed(router, state) <==> router.wire.len() > 0,
{
}

/// With no transfer at the PTY, ordinary responses are written while there are
/// any.
pub proof fn law_ordinary_writes_go_on(router: RouterView, state: StateView)
    requires
        router.active is None,
        router.wire.len() == 0,
    ensures
        write_needed(router, state) <==> state.writing is Some || state.write_list.len() > 0,
{
}

/// A loop that ends reads what is left for a bounded time, which runs from the
/// first reason to end.
pub proof fn law_the_first_end_counts(state: LoopState, now: Instant, later: Instant)
    ensures
        state.closing(now).closing(later) == state.closing(now),
        state.closing(now).can_read,
        state.closing_deadline is None ==> state.closing(now).closing_deadline == Some(
            (now + CANCEL_TIMEOUT) as u64,
        ),
        state.closing_deadline is Some ==> state.closing(now).closing_deadline
            == state.closing_deadline,
        state.closing(now) == (LoopState {
            can_read: true,
            closing_deadline: state.closing(now).closing_deadline,
            ..state
        }),
{
}

} // verus!
