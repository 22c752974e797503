//! Cross-terminal staging and target selection. Runtime events contain metadata, never file bytes.
//!
//! Terminal input paths must consult `blocks_input`, and ordinary upload entry points must consult
//! `is_reserved`. Feed runtime events to `on_event` after updating per-view metadata, but before
//! showing ordinary pickers or completion toasts. Feed real close/disconnect and explicit
//! cancellation to `cancel_terminal`. `worker_released` requires a PTY acknowledgement that no
//! worker can access the staged paths, not merely `Finished`.

use vstd::prelude::*;
use vstd::string::*;

use crate::clock::{Duration, Instant};
use crate::text::{concat, debug_form, debug_text, decimal, push_decimal};
use crate::trigger_state::{BlockId, EntityId, SessionId};
use crate::zmodem_runtime::{
    copy_path, copy_paths, joined, lemma_paths_view_push, path_view, paths_view, total_len,
    ErrorKind, FileOutcome, FileOutcomeView, PathBytes, Role, TransferEvent, TransferEventView,
    TransferId, TransferOutcome, TransferOutcomeView, MAX_FILES, MAX_PATH_BYTES,
};
use crate::zmodem_transfer::{display_text, displayed, event_role};
use crate::zmodem_worker::LAST_INSTANT;

verus! {

/// Time for each side to begin its part.
pub const CHOICE_TIMEOUT: Duration = 120_000_000_000;

/// Most pairs at a time.
pub const MAX_BINDINGS: usize = 8;

/// Identifies a pair of terminals.
#[derive(Clone, Copy, Debug, Eq, Hash, PartialEq, Structural)]
pub struct CrossTransferId(pub TransferId);

/// The shell that a terminal shows: session and block.
pub type ShellIdentity = (SessionId, BlockId);

/// How far a pair has come.
#[derive(Clone, Copy, Debug, Eq, PartialEq, Structural)]
pub enum Phase {
    AwaitingSource,
    Receiving,
    PreparingTarget,
    AwaitingTarget,
    Forwarding,
    Finished,
}

/// The two halves of a cross-terminal transfer.
#[derive(Clone, Copy, Debug, PartialEq, Eq)]
pub struct Flow {
    pub source: EntityId,
    pub target: EntityId,
    pub source_transfer: Option<TransferId>,
    pub target_transfer: Option<TransferId>,
    pub phase: Phase,
    /// The source's worker, until it has let go of the staged files.
    pub source_worker: Option<TransferId>,
    /// The target's worker, until it has let go of the staged files.
    pub target_worker: Option<TransferId>,
    pub skipped: u64,
}

impl Flow {
    /// A pair that waits for its source.
    pub open spec fn spec_new(source: EntityId, target: EntityId) -> Flow {
        Flow {
            source,
            target,
            source_transfer: None,
            target_transfer: None,
            phase: Phase::AwaitingSource,
            source_worker: None,
            target_worker: None,
            skipped: 0,
        }
    }

    /// A pair that waits for its source.
    pub fn new(source: EntityId, target: EntityId) -> (r: Self)
        ensures
            r == Flow::spec_new(source, target),
    {
        Flow {
            source,
            target,
            source_transfer: None,
            target_transfer: None,
            phase: Phase::AwaitingSource,
            source_worker: None,
            target_worker: None,
            skipped: 0,
        }
    }

    /// The terminal takes no input: it is the target, and its turn has not
    /// come or has begun.
    pub open spec fn spec_blocks_input(self, terminal: EntityId) -> bool {
        terminal == self.target && !(self.phase is AwaitingTarget) && !(self.phase is Finished)
    }

    /// Whether the terminal takes no input.
    pub fn blocks_input(&self, terminal: EntityId) -> (r: bool)
        ensures
            r == self.spec_blocks_input(terminal),
    {
        terminal == self.target && !matches!(self.phase, Phase::AwaitingTarget | Phase::Finished)
    }

    /// The transfer is one half of this pair.
    pub open spec fn spec_matches(self, terminal: EntityId, id: TransferId, role: Role) -> bool {
        match role {
            Role::Download => terminal == self.source && self.source_transfer == Some(id),
            Role::Upload => terminal == self.target && self.target_transfer == Some(id),
        }
    }

    /// Whether the transfer is one half of this pair.
    pub fn is_half(&self, terminal: EntityId, id: TransferId, role: Role) -> (r: bool)
        ensures
            r == self.spec_matches(terminal, id, role),
    {
        let (endpoint, transfer): (EntityId, Option<TransferId>) = match role {
            Role::Download => (self.source, self.source_transfer),
            Role::Upload => (self.target, self.target_transfer),
        };
        terminal == endpoint && match transfer {
            Some(transfer) => transfer == id,
            None => false,
        }
    }

    /// The pair once its source receives.
    pub open spec fn source_bound(self, id: TransferId) -> Flow {
        Flow {
            source_transfer: Some(id),
            source_worker: Some(id),
            phase: Phase::Receiving,
            ..self
        }
    }

    /// Binds the source's transfer, if it is awaited.
    pub fn bind_source(&mut self, id: TransferId) -> (r: bool)
        ensures
            r == (old(self).phase is AwaitingSource),
            *final(self) == if r {
                old(self).source_bound(id)
            } else {
                *old(self)
            },
    {
        if self.phase != Phase::AwaitingSource {
            return false;
        }
        self.source_transfer = Some(id);
        self.source_worker = Some(id);
        self.phase = Phase::Receiving;
        true
    }

    /// The target's transfer may begin.
    pub open spec fn awaits_target(self) -> bool {
        self.phase is PreparingTarget || self.phase is AwaitingTarget
    }

    /// The pair once its target sends.
    pub open spec fn target_bound(self, id: TransferId) -> Flow {
        Flow {
            target_transfer: Some(id),
            target_worker: Some(id),
            phase: Phase::Forwarding,
            ..self
        }
    }

    /// Binds the target's transfer, if it is awaited.
    pub fn bind_target(&mut self, id: TransferId) -> (r: bool)
        ensures
            r == old(self).awaits_target(),
            *final(self) == if r {
                old(self).target_bound(id)
            } else {
                *old(self)
            },
    {
        if !matches!(self.phase, Phase::PreparingTarget | Phase::AwaitingTarget) {
            return false;
        }
        self.target_transfer = Some(id);
        self.target_worker = Some(id);
        self.phase = Phase::Forwarding;
        true
    }

    /// Nothing and nobody needs the staged files any more.
    pub open spec fn spec_can_cleanup(self) -> bool {
        self.phase is Finished && self.source_worker is None && self.target_worker is None
    }

    /// Whether nothing and nobody needs the staged files any more.
    pub fn can_cleanup(&self) -> (r: bool)
        ensures
            r == self.spec_can_cleanup(),
    {
        matches!(self.phase, Phase::Finished) && self.source_worker.is_none()
            && self.target_worker.is_none()
    }

    /// The pair after a worker let go of the staged files.
    pub open spec fn released(self, terminal: EntityId, id: TransferId) -> Flow {
        Flow {
            source_worker: if terminal == self.source && self.source_worker == Some(id) {
                None
            } else {
                self.source_worker
            },
            target_worker: if terminal == self.target && self.target_worker == Some(id) {
                None
            } else {
                self.target_worker
            },
            ..self
        }
    }

    fn release(&mut self, terminal: EntityId, id: TransferId)
        ensures
            *final(self) == old(self).released(terminal, id),
    {
        if let Some(worker) = self.source_worker {
            if terminal == self.source && worker == id {
                self.source_worker = None;
            }
        }
        if let Some(worker) = self.target_worker {
            if terminal == self.target && worker == id {
                self.target_worker = None;
            }
        }
    }
}

/// A pair of terminals between which files move.
pub struct Binding {
    id: CrossTransferId,
    source_title: String,
    target_title: String,
    target_identity: Option<ShellIdentity>,
    flow: Flow,
    staging: Option<PathBytes>,
    paths: Vec<PathBytes>,
    deadline: Instant,
    result: Option<String>,
}

/// A pair of terminals over plain values.
pub ghost struct BindingView {
    pub id: CrossTransferId,
    pub source_title: Seq<char>,
    pub target_title: Seq<char>,
    /// The target's shell when the pair was formed.
    pub target_identity: Option<ShellIdentity>,
    pub flow: Flow,
    /// The staging directory, once it exists.
    pub staging: Option<Seq<u8>>,
    /// The staged files.
    pub paths: Seq<Seq<u8>>,
    pub deadline: Instant,
    /// What is shown once the pair is finished.
    pub result: Option<Seq<char>>,
}

impl View for Binding {
    type V = BindingView;

    closed spec fn view(&self) -> BindingView {
        BindingView {
            id: self.id,
            source_title: self.source_title@,
            target_title: self.target_title@,
            target_identity: self.target_identity,
            flow: self.flow,
            staging: path_view(self.staging),
            paths: paths_view(self.paths@),
            deadline: self.deadline,
            result: match self.result {
                Some(result) => Some(result@),
                None => None,
            },
        }
    }
}

/// What has to be done for a pair.
#[derive(Debug)]
pub enum CrossTransferEvent {
    /// The terminals have to be drawn anew.
    Changed,
    /// Let the source receive into the staging directory.
    Receive(CrossTransferId),
    /// Look whether the target may upload.
    PrepareTarget(CrossTransferId),
    /// Let the target upload the staged files.
    UploadRequested(CrossTransferId, TransferId),
    /// Cancel a transfer of a terminal.
    Cancel(EntityId, TransferId),
    /// Show the result in a terminal.
    Result { terminal: EntityId, message: String, success: bool },
    /// Remove a staging directory.
    Cleanup(PathBytes),
}

/// What has to be done for a pair, over plain values.
pub ghost enum CrossEventView {
    Changed,
    Receive(CrossTransferId),
    PrepareTarget(CrossTransferId),
    UploadRequested(CrossTransferId, TransferId),
    Cancel(EntityId, TransferId),
    Result { terminal: EntityId, message: Seq<char>, success: bool },
    Cleanup(Seq<u8>),
}

impl View for CrossTransferEvent {
    type V = CrossEventView;

    open spec fn view(&self) -> CrossEventView {
        match *self {
            CrossTransferEvent::Changed => CrossEventView::Changed,
            CrossTransferEvent::Receive(id) => CrossEventView::Receive(id),
            CrossTransferEvent::PrepareTarget(id) => CrossEventView::PrepareTarget(id),
            CrossTransferEvent::UploadRequested(id, transfer) => CrossEventView::UploadRequested(
                id,
                transfer,
            ),
            CrossTransferEvent::Cancel(terminal, transfer) => CrossEventView::Cancel(
                terminal,
                transfer,
            ),
            CrossTransferEvent::Result { terminal, message, success } => CrossEventView::Result {
                terminal,
                message: message@,
                success,
            },
            CrossTransferEvent::Cleanup(path) => CrossEventView::Cleanup(path@),
        }
    }
}

/// The view of events.
pub open spec fn cross_events(events: Seq<CrossTransferEvent>) -> Seq<CrossEventView> {
    events.map_values(|event: CrossTransferEvent| event@)
}

/// The view of pairs.
pub open spec fn bindings_view(bindings: Seq<Binding>) -> Seq<BindingView> {
    bindings.map_values(|binding: Binding| binding@)
}

/// The cancellations that a finished pair asks for.
pub open spec fn cancellations(flow: Flow) -> Seq<CrossEventView> {
    let source = match flow.source_worker {
        Some(transfer) => seq![CrossEventView::Cancel(flow.source, transfer)],
        None => Seq::empty(),
    };
    match flow.target_worker {
        Some(transfer) => source.push(CrossEventView::Cancel(flow.target, transfer)),
        None => source,
    }
}

/// The pair owns the terminal.
pub open spec fn owns(binding: BindingView, terminal: EntityId) -> bool {
    binding.flow.source == terminal || binding.flow.target == terminal
}

/// All pairs, and what has to be done for them.
pub ghost struct CrossView {
    pub bindings: Seq<BindingView>,
    pub events: Seq<CrossEventView>,
}

/// The name of an error kind.
pub open spec fn kind_name(kind: ErrorKind) -> Seq<char> {
    match kind {
        ErrorKind::Configuration => "Configuration"@,
        ErrorKind::UnsafeName => "UnsafeName"@,
        ErrorKind::SourceChanged => "SourceChanged"@,
        ErrorKind::FileTooLarge => "FileTooLarge"@,
        ErrorKind::Storage => "Storage"@,
        ErrorKind::Protocol => "Protocol"@,
        ErrorKind::Timeout => "Timeout"@,
        ErrorKind::WorkerLimit => "WorkerLimit"@,
        ErrorKind::WorkerStopped => "WorkerStopped"@,
    }
}

/// How a transfer ended, in technical words; `message` is what they say of a
/// failure's message.
pub open spec fn outcome_words(outcome: TransferOutcomeView, message: Seq<char>) -> Seq<char> {
    match outcome {
        TransferOutcomeView::Completed => "Completed"@,
        TransferOutcomeView::Cancelled => "Cancelled"@,
        TransferOutcomeView::RemoteCancelled => "RemoteCancelled"@,
        TransferOutcomeView::Failed(failure) => "Failed(TransferError { kind: "@ + kind_name(
            failure.kind,
        ) + ", message: "@ + message + " })"@,
    }
}

/// How a transfer ended, in technical words, with a failure's message in its
/// debug form.
pub open spec fn outcome_name(outcome: TransferOutcomeView) -> Seq<char> {
    outcome_words(
        outcome,
        match outcome {
            TransferOutcomeView::Failed(failure) => debug_form(failure.message),
            _ => Seq::empty(),
        },
    )
}

fn outcome_text(outcome: &TransferOutcome) -> (r: String)
    ensures
        r@ == outcome_name(outcome@),
{
    match outcome {
        TransferOutcome::Failed(failure) => {
            let message = debug_text(failure.message.as_str());
            outcome_in_words(outcome, message.as_str())
        },
        _ => outcome_in_words(outcome, ""),
    }
}

/// How a transfer ended, in technical words; `message` is what they say of a
/// failure's message.
pub fn outcome_in_words(outcome: &TransferOutcome, message: &str) -> (r: String)
    ensures
        r@ == outcome_words(outcome@, message@),
{
    match outcome {
        TransferOutcome::Completed => "Completed".to_owned(),
        TransferOutcome::Cancelled => "Cancelled".to_owned(),
        TransferOutcome::RemoteCancelled => "RemoteCancelled".to_owned(),
        TransferOutcome::Failed(failure) => {
            let mut out = "Failed(TransferError { kind: ".to_owned();
            out.append(
                match failure.kind {
                    ErrorKind::Configuration => "Configuration",
                    ErrorKind::UnsafeName => "UnsafeName",
                    ErrorKind::SourceChanged => "SourceChanged",
                    ErrorKind::FileTooLarge => "FileTooLarge",
                    ErrorKind::Storage => "Storage",
                    ErrorKind::Protocol => "Protocol",
                    ErrorKind::Timeout => "Timeout",
                    ErrorKind::WorkerLimit => "WorkerLimit",
                    ErrorKind::WorkerStopped => "WorkerStopped",
                },
            );
            out.append(", message: ");
            out.append(message);
            out.append(" })");
            out
        },
    }
}

/// The pieces of a path between its separators.
pub open spec fn pieces(path: Seq<u8>) -> Seq<Seq<u8>>
    decreases path.len(),
{
    if path.len() == 0 {
        seq![Seq::<u8>::empty()]
    } else {
        let before = pieces(path.drop_last());
        if path.last() == 0x2f {
            before.push(Seq::empty())
        } else {
            before.drop_last().push(before.last().push(path.last()))
        }
    }
}

/// The pieces that name something: neither empty ones nor single dots.
pub open spec fn naming_pieces(pieces: Seq<Seq<u8>>) -> Seq<Seq<u8>>
    decreases pieces.len(),
{
    if pieces.len() == 0 {
        Seq::empty()
    } else {
        let before = naming_pieces(pieces.drop_last());
        if pieces.last().len() == 0 || pieces.last() == seq![0x2eu8] {
            before
        } else {
            before.push(pieces.last())
        }
    }
}

/// The components of a path: the root or a leading dot, then the pieces that
/// name something.
pub open spec fn components(path: Seq<u8>) -> Seq<Seq<u8>> {
    let parts = naming_pieces(pieces(path));
    if path.len() > 0 && path[0] == 0x2f {
        seq![seq![0x2fu8]] + parts
    } else if pieces(path)[0] == seq![0x2eu8] {
        seq![seq![0x2eu8]] + parts
    } else {
        parts
    }
}

/// The component is a file name: not the root, a dot or the parent directory.
pub open spec fn is_file_component(component: Seq<u8>) -> bool {
    component != seq![0x2fu8] && component != seq![0x2eu8] && component != seq![0x2eu8, 0x2eu8]
}

/// The path names something directly in the directory.
pub open spec fn lies_in(directory: Seq<u8>, path: Seq<u8>) -> bool {
    let outer = components(directory);
    let inner = components(path);
    &&& inner.len() == outer.len() + 1
    &&& inner.drop_last() == outer
    &&& is_file_component(inner.last())
}

/// The paths are staged files: some, not too many, not too long, and each
/// directly in the staging directory.
pub open spec fn staged(directory: Seq<u8>, paths: Seq<Seq<u8>>) -> bool {
    &&& 0 < paths.len() <= MAX_FILES
    &&& total_len(paths) <= MAX_PATH_BYTES
    &&& forall|i: int| 0 <= i < paths.len() ==> lies_in(directory, #[trigger] paths[i])
}

fn same_bytes(first: &[u8], second: &[u8]) -> (r: bool)
    ensures
        r == (first@ == second@),
{
    if first.len() != second.len() {
        return false;
    }
    let mut index: usize = 0;
    while index < first.len()
        invariant
            index <= first.len(),
            first.len() == second.len(),
            forall|i: int| 0 <= i < index ==> first@[i] == second@[i],
        decreases first.len() - index,
    {
        if first[index] != second[index] {
            return false;
        }
        index = index + 1;
    }
    assert(first@ =~= second@);
    true
}

fn is_byte(piece: &[u8], byte: u8) -> (r: bool)
    ensures
        r == (piece@ == seq![byte]),
{
    let same: bool = piece.len() == 1 && piece[0] == byte;
    proof {
        if same {
            assert(piece@ =~= seq![byte]);
        }
    }
    same
}

fn is_dot(piece: &[u8]) -> (r: bool)
    ensures
        r == (piece@ == seq![0x2eu8]),
{
    is_byte(piece, 0x2e)
}

fn is_parent(piece: &[u8]) -> (r: bool)
    ensures
        r == (piece@ == seq![0x2eu8, 0x2eu8]),
{
    let same: bool = piece.len() == 2 && piece[0] == 0x2e && piece[1] == 0x2e;
    proof {
        if same {
            assert(piece@ =~= seq![0x2eu8, 0x2eu8]);
        }
    }
    same
}

proof fn lemma_pieces_nonempty(path: Seq<u8>)
    ensures
        pieces(path).len() > 0,
    decreases path.len(),
{
    if path.len() > 0 {
        lemma_pieces_nonempty(path.drop_last());
    }
}

/// The pieces of a path between its separators.
fn split_path(path: &[u8]) -> (r: Vec<Vec<u8>>)
    ensures
        paths_view(r@) == pieces(path@),
{
    let mut done: Vec<Vec<u8>> = Vec::new();
    let mut current: Vec<u8> = Vec::new();
    let mut index: usize = 0;
    assert(path@.take(0) =~= Seq::<u8>::empty());
    assert(paths_view(done@).push(current@) =~= seq![Seq::<u8>::empty()]);
    while index < path.len()
        invariant
            index <= path.len(),
            paths_view(done@).push(current@) == pieces(path@.take(index as int)),
        decreases path.len() - index,
    {
        let byte: u8 = path[index];
        proof {
            assert(path@.take(index + 1).drop_last() =~= path@.take(index as int));
            assert(path@.take(index + 1).last() == byte);
        }
        let ghost before = paths_view(done@).push(current@);
        assert(before.drop_last() =~= paths_view(done@));
        assert(before.last() == current@);
        if byte == 0x2f {
            proof {
                lemma_paths_view_push(done@, current);
            }
            done.push(current);
            current = Vec::new();
            assert(current@ =~= Seq::<u8>::empty());
        } else {
            current.push(byte);
        }
        index = index + 1;
    }
    assert(path@.take(index as int) =~= path@);
    proof {
        lemma_paths_view_push(done@, current);
    }
    done.push(current);
    done
}

/// The components of a path.
pub fn path_components(path: &[u8]) -> (r: Vec<Vec<u8>>)
    ensures
        paths_view(r@) == components(path@),
{
    let split: Vec<Vec<u8>> = split_path(path);
    let ghost all = pieces(path@);
    proof {
        lemma_pieces_nonempty(path@);
        assert(paths_view(split@).len() == split@.len());
        assert(all[0] == split@[0]@);
    }
    let mut out: Vec<Vec<u8>> = Vec::new();
    let mut root: Vec<u8> = Vec::new();
    if path.len() > 0 && path[0] == 0x2f {
        root.push(0x2f);
        assert(root@ =~= seq![0x2fu8]);
        out.push(root);
    } else if is_dot(split[0].as_slice()) {
        root.push(0x2e);
        assert(root@ =~= seq![0x2eu8]);
        out.push(root);
    }
    let ghost front = paths_view(out@);
    proof {
        if path@.len() > 0 && path@[0] == 0x2f {
            assert(front =~= seq![seq![0x2fu8]]);
        } else if all[0] == seq![0x2eu8] {
            assert(front =~= seq![seq![0x2eu8]]);
        } else {
            assert(front =~= Seq::<Seq<u8>>::empty());
        }
    }
    let mut index: usize = 0;
    assert(all.take(0) =~= Seq::<Seq<u8>>::empty());
    assert(front + naming_pieces(all.take(0)) =~= front);
    while index < split.len()
        invariant
            index <= split.len(),
            all == paths_view(split@),
            paths_view(out@) == front + naming_pieces(all.take(index as int)),
        decreases split.len() - index,
    {
        proof {
            assert(all[index as int] == split@[index as int]@);
            assert(all.take(index + 1).drop_last() =~= all.take(index as int));
            assert(all.take(index + 1).last() == all[index as int]);
        }
        let piece = split[index].as_slice();
        if piece.len() > 0 && !is_dot(piece) {
            let copy: Vec<u8> = crate::bytes::copy_range(piece, 0, piece.len());
            assert(copy@ =~= piece@);
            proof {
                lemma_paths_view_push(out@, copy);
                assert((front + naming_pieces(all.take(index as int))).push(copy@) =~= front
                    + naming_pieces(all.take(index as int)).push(copy@));
            }
            out.push(copy);
        }
        index = index + 1;
    }
    assert(all.take(index as int) =~= all);
    assert(paths_view(out@) =~= components(path@));
    out
}

fn path_lies_in(directory: &[u8], path: &[u8]) -> (r: bool)
    ensures
        r == lies_in(directory@, path@),
{
    let outer: Vec<Vec<u8>> = path_components(directory);
    let inner: Vec<Vec<u8>> = path_components(path);
    let ghost o = components(directory@);
    let ghost n = components(path@);
    assert(paths_view(outer@).len() == outer@.len());
    assert(paths_view(inner@).len() == inner@.len());
    if inner.len() == 0 || inner.len() - 1 != outer.len() {
        return false;
    }
    let mut index: usize = 0;
    while index < outer.len()
        invariant
            index <= outer.len(),
            inner.len() == outer.len() + 1,
            o == components(directory@),
            n == components(path@),
            o == paths_view(outer@),
            n == paths_view(inner@),
            forall|i: int| 0 <= i < index ==> o[i] == n[i],
        decreases outer.len() - index,
    {
        assert(o[index as int] == outer@[index as int]@);
        assert(n[index as int] == inner@[index as int]@);
        if !same_bytes(outer[index].as_slice(), inner[index].as_slice()) {
            assert(n.drop_last()[index as int] == n[index as int]);
            return false;
        }
        index = index + 1;
    }
    assert(n.drop_last() =~= o);
    let last: usize = inner.len() - 1;
    assert(n.last() == inner@[last as int]@);
    let name = inner[last].as_slice();
    !is_byte(name, 0x2f) && !is_dot(name) && !is_parent(name)
}

/// Whether the paths are staged files of the directory.
pub fn valid_staged_paths(directory: &[u8], paths: &Vec<PathBytes>) -> (r: bool)
    ensures
        r == staged(directory@, paths_view(paths@)),
{
    if paths.len() == 0 || paths.len() > MAX_FILES {
        return false;
    }
    let ghost view = paths_view(paths@);
    let mut total: usize = 0;
    let mut index: usize = 0;
    assert(view.take(0) =~= Seq::<Seq<u8>>::empty());
    while index < paths.len()
        invariant
            index <= paths.len(),
            0 < paths.len() <= MAX_FILES,
            view == paths_view(paths@),
            total <= MAX_PATH_BYTES,
            total == total_len(view.take(index as int)),
            forall|i: int| 0 <= i < index ==> lies_in(directory@, #[trigger] view[i]),
        decreases paths.len() - index,
    {
        let len: usize = paths[index].len();
        proof {
            assert(view[index as int] == paths@[index as int]@);
            assert(view.take(index + 1).drop_last() =~= view.take(index as int));
            assert(view.take(index + 1).last() == view[index as int]);
            lemma_total_len_prefix(view, index + 1);
        }
        if len > MAX_PATH_BYTES - total {
            return false;
        }
        if !path_lies_in(directory, paths[index].as_slice()) {
            return false;
        }
        total = total + len;
        index = index + 1;
    }
    assert(view.take(index as int) =~= view);
    true
}

proof fn lemma_total_len_prefix(paths: Seq<Seq<u8>>, count: int)
    requires
        0 <= count <= paths.len(),
    ensures
        total_len(paths.take(count)) <= total_len(paths),
    decreases paths.len(),
{
    if count == paths.len() {
        assert(paths.take(count) =~= paths);
    } else {
        lemma_total_len_prefix(paths.drop_last(), count);
        assert(paths.drop_last().take(count) =~= paths.take(count));
    }
}

/// One end of a pair that is being formed.
pub struct Endpoint {
    pub terminal: EntityId,
    pub label: String,
    /// The terminal is visible.
    pub live: bool,
    /// Transfers are possible in the terminal.
    pub available: bool,
    /// The terminal has a transfer of its own.
    pub busy: bool,
}

impl CrossView {
    /// Nothing to be done.
    pub open spec fn quiet(self) -> CrossView {
        CrossView { events: Seq::empty(), ..self }
    }

    /// The pair that owns a terminal, if there is one, was cancelled.
    pub open spec fn terminal_cancelled(self, terminal: EntityId) -> CrossView {
        if self.is_reserved(terminal) {
            self.finished(self.owner(terminal), "Cross-terminal transfer cancelled"@, false)
        } else {
            self
        }
    }

    /// One more thing to be done.
    pub open spec fn emitting(self, event: CrossEventView) -> CrossView {
        CrossView { events: self.events.push(event), ..self }
    }

    /// Another pair in place of the pair at `index`.
    pub open spec fn with_binding(self, index: int, binding: BindingView) -> CrossView {
        CrossView { bindings: self.bindings.update(index, binding), ..self }
    }

    /// Index of the pair that owns the terminal, from `from` on.
    pub open spec fn owner_from(self, terminal: EntityId, from: int) -> int
        decreases self.bindings.len() - from,
    {
        if from < 0 || from >= self.bindings.len() || owns(self.bindings[from], terminal) {
            from
        } else {
            self.owner_from(terminal, from + 1)
        }
    }

    /// Index of the pair that owns the terminal, or the number of pairs.
    pub open spec fn owner(self, terminal: EntityId) -> int {
        self.owner_from(terminal, 0)
    }

    /// The terminal belongs to a pair.
    pub open spec fn is_reserved(self, terminal: EntityId) -> bool {
        self.owner(terminal) < self.bindings.len()
    }

    /// Index of the pair `id`, from `from` on.
    pub open spec fn index_from(self, id: CrossTransferId, from: int) -> int
        decreases self.bindings.len() - from,
    {
        if from < 0 || from >= self.bindings.len() || self.bindings[from].id == id {
            from
        } else {
            self.index_from(id, from + 1)
        }
    }

    /// Index of the pair `id`, or the number of pairs.
    pub open spec fn index_of(self, id: CrossTransferId) -> int {
        self.index_from(id, 0)
    }

    /// Each pair joins two different terminals, no terminal belongs to two
    /// pairs, and there are not too many.
    pub open spec fn wf(self) -> bool {
        &&& self.bindings.len() <= MAX_BINDINGS
        &&& forall|i: int|
            0 <= i < self.bindings.len() ==> (#[trigger] self.bindings[i]).flow.source
                != self.bindings[i].flow.target
        &&& forall|i: int, j: int, terminal: EntityId|
            0 <= i < self.bindings.len() && 0 <= j < self.bindings.len() && #[trigger] owns(
                self.bindings[i],
                terminal,
            ) && #[trigger] owns(self.bindings[j], terminal) ==> i == j
    }

    /// A finished pair that nobody needs leaves, with its staging directory.
    pub open spec fn reaped(self, index: int) -> CrossView {
        let binding = self.bindings[index];
        if !binding.flow.spec_can_cleanup() {
            self
        } else {
            let freed = CrossView { bindings: self.bindings.remove(index), ..self };
            match binding.staging {
                Some(directory) => freed.emitting(CrossEventView::Cleanup(directory)),
                None => freed,
            }.emitting(CrossEventView::Changed)
        }
    }

    /// The pair at `index` is finished: its workers are cancelled and its
    /// result is shown, once.
    pub open spec fn finished(self, index: int, message: Seq<char>, success: bool) -> CrossView {
        let binding = self.bindings[index];
        if binding.flow.phase is Finished {
            self
        } else {
            let done = BindingView {
                flow: Flow { phase: Phase::Finished, ..binding.flow },
                result: Some(displayed(message)),
                ..binding
            };
            (CrossView {
                events: self.events + cancellations(binding.flow) + seq![
                    CrossEventView::Result {
                        terminal: binding.flow.source,
                        message: displayed(message),
                        success,
                    },
                    CrossEventView::Changed,
                ],
                ..self.with_binding(index, done)
            }).reaped(index)
        }
    }

    /// A transfer was requested in a terminal of the pair at `index`.
    pub open spec fn requested(
        self,
        index: int,
        terminal: EntityId,
        id: TransferId,
        role: Role,
        now: Instant,
    ) -> CrossView {
        let binding = self.bindings[index];
        let flow = binding.flow;
        if flow.spec_matches(terminal, id, role) {
            self
        } else if terminal == flow.source && role is Download && flow.phase is AwaitingSource {
            let bound = self.with_binding(
                index,
                BindingView {
                    flow: flow.source_bound(id),
                    deadline: (now + CHOICE_TIMEOUT) as u64,
                    ..binding
                },
            );
            if binding.staging is Some {
                bound.emitting(CrossEventView::Receive(binding.id)).emitting(
                    CrossEventView::Changed,
                )
            } else {
                bound.emitting(CrossEventView::Changed)
            }
        } else if terminal == flow.target && role is Upload && flow.phase is AwaitingTarget {
            self.with_binding(
                index,
                BindingView { flow: flow.target_bound(id), ..binding },
            ).emitting(CrossEventView::UploadRequested(binding.id, id)).emitting(
                CrossEventView::Changed,
            )
        } else {
            self.emitting(CrossEventView::Cancel(terminal, id)).finished(
                index,
                "Unexpected transfer in a reserved terminal"@,
                false,
            ).emitting(CrossEventView::Changed)
        }
    }

    /// A half of the pair at `index` has ended.
    pub open spec fn half_ended(
        self,
        index: int,
        role: Role,
        outcome: TransferOutcomeView,
        committed_paths: Seq<Seq<u8>>,
        now: Instant,
    ) -> CrossView {
        let binding = self.bindings[index];
        if !(outcome is Completed) {
            self.finished(index, "Cross-terminal transfer: "@ + outcome_name(outcome), false)
        } else if role is Download && binding.flow.phase is Receiving {
            if binding.staging matches Some(directory) && staged(directory, committed_paths) {
                self.with_binding(
                    index,
                    BindingView {
                        paths: committed_paths,
                        flow: Flow { phase: Phase::PreparingTarget, ..binding.flow },
                        deadline: (now + CHOICE_TIMEOUT) as u64,
                        ..binding
                    },
                ).emitting(CrossEventView::PrepareTarget(binding.id)).emitting(
                    CrossEventView::Changed,
                )
            } else {
                self.finished(index, "Source returned no valid staged files"@, false)
            }
        } else if role is Upload && binding.flow.phase is Forwarding {
            self.finished(
                index,
                "Transfer to "@ + binding.target_title + " complete: "@ + decimal(
                    binding.flow.skipped as nat,
                ) + " skipped"@,
                true,
            )
        } else {
            self
        }
    }

    /// An event of a terminal; whether a pair owns it.
    pub open spec fn on_event(self, terminal: EntityId, event: TransferEventView, now: Instant) -> (
        CrossView,
        bool,
    ) {
        let index = self.owner(terminal);
        if index >= self.bindings.len() {
            (self, false)
        } else {
            let binding = self.bindings[index];
            let role = event_role(event);
            (
                match event {
                    TransferEventView::Requested { id, role } => self.requested(
                        index,
                        terminal,
                        id,
                        role,
                        now,
                    ),
                    _ => if !binding.flow.spec_matches(terminal, event.id(), role)
                        || binding.flow.phase is Finished {
                        self
                    } else {
                        match event {
                            TransferEventView::FileResult { outcome, .. } => if outcome is Skipped
                                && role is Upload && binding.flow.skipped < u64::MAX {
                                self.with_binding(
                                    index,
                                    BindingView {
                                        flow: Flow {
                                            skipped: (binding.flow.skipped + 1) as u64,
                                            ..binding.flow
                                        },
                                        ..binding
                                    },
                                )
                            } else {
                                self
                            },
                            TransferEventView::Finished { outcome, committed_paths, .. } => {
                                self.half_ended(index, role, outcome, committed_paths, now)
                            },
                            _ => self,
                        }
                    },
                },
                true,
            )
        }
    }

    /// The pair at `index` cannot go on: transfers between terminals are
    /// disabled, a terminal is gone, or nothing happened for too long.
    pub open spec fn overdue(self, index: int, enabled: bool, live: Seq<EntityId>, now: Instant) -> bool {
        let binding = self.bindings[index];
        let waiting = binding.flow.phase is AwaitingSource || binding.flow.phase is PreparingTarget
            || binding.flow.phase is AwaitingTarget;
        !(binding.flow.phase is Finished) && (!enabled || !live.contains(binding.flow.source)
            || !live.contains(binding.flow.target) || (waiting && now >= binding.deadline))
    }

    /// The pairs from `from` on, after those that cannot go on were finished.
    pub open spec fn ticked(self, from: int, enabled: bool, live: Seq<EntityId>, now: Instant) -> CrossView
        decreases self.bindings.len() - from,
    {
        if from < 0 || from >= self.bindings.len() {
            self
        } else if !self.overdue(from, enabled, live, now) {
            self.ticked(from + 1, enabled, live, now)
        } else {
            let done = self.finished(
                from,
                "Cross-terminal transfer ended: terminal unavailable or selection timed out"@,
                false,
            );
            if done.bindings.len() < self.bindings.len() {
                done.ticked(from, enabled, live, now)
            } else if done.bindings.len() == self.bindings.len() {
                done.ticked(from + 1, enabled, live, now)
            } else {
                done
            }
        }
    }

    /// Why a pair cannot be formed, if it cannot.
    pub open spec fn refusal(self, enabled: bool, source: Endpoint, target: Endpoint) -> Option<
        Seq<char>,
    > {
        if !enabled {
            Some("Cross-terminal transfers are disabled"@)
        } else if self.bindings.len() >= MAX_BINDINGS {
            Some("Too many cross-terminal transfers are still active"@)
        } else if source.terminal == target.terminal || self.is_reserved(source.terminal)
            || self.is_reserved(target.terminal) {
            Some("A selected terminal is already reserved"@)
        } else if !source.live || !target.live {
            Some("A selected terminal is no longer available"@)
        } else if !source.available || source.busy || !target.available || target.busy {
            Some("A selected terminal is busy or unavailable"@)
        } else {
            None
        }
    }

    /// What is shown of the pair that owns a terminal.
    pub open spec fn status(self, terminal: EntityId) -> Option<Seq<char>> {
        let index = self.owner(terminal);
        if index >= self.bindings.len() {
            None
        } else {
            let binding = self.bindings[index];
            Some(
                match binding.flow.phase {
                    Phase::AwaitingSource => "Waiting for source: "@ + binding.source_title,
                    Phase::Receiving => "Receiving for "@ + binding.target_title,
                    Phase::PreparingTarget => "Preparing upload to "@ + binding.target_title,
                    Phase::AwaitingTarget => "Waiting for rz in "@ + binding.target_title,
                    Phase::Forwarding => "Forwarding to "@ + binding.target_title,
                    Phase::Finished => match binding.result {
                        Some(result) => result,
                        None => Seq::empty(),
                    },
                },
            )
        }
    }
}

/// What a terminal says when its upload is prepared.
pub enum TargetReply {
    /// It is gone, busy, or transfers are not possible in it.
    Unavailable,
    /// It shows another shell: `rz` has to be started by hand.
    OtherShell,
    /// Its upload was started.
    Started(TransferId),
}

/// What a terminal shows at the moment.
#[derive(Clone, Copy, Debug, PartialEq, Eq)]
pub struct TerminalState {
    /// Transfers are possible in the terminal.
    pub available: bool,
    /// The terminal has a transfer of its own.
    pub busy: bool,
    /// The shell at its prompt.
    pub identity: Option<ShellIdentity>,
    /// The transfer in the terminal.
    pub active: Option<TransferId>,
}

impl TerminalState {
    /// The terminal still shows the transfer, and it can go on.
    pub open spec fn spec_serves(self, transfer: TransferId) -> bool {
        self.available && self.active == Some(transfer)
    }

    /// Whether the terminal still shows the transfer, and it can go on.
    pub fn serves(&self, transfer: TransferId) -> (r: bool)
        ensures
            r == self.spec_serves(transfer),
    {
        match self.active {
            Some(active) => self.available && active == transfer,
            None => false,
        }
    }

    /// Whether the terminal still shows the shell that the pair was formed with.
    pub fn shows(&self, identity: Option<ShellIdentity>) -> (r: bool)
        ensures
            r == (identity is Some && self.identity == identity),
    {
        match (identity, self.identity) {
            (Some(wanted), Some(shown)) => shown.0 == wanted.0 && shown.1 == wanted.1,
            _ => false,
        }
    }
}

/// What becomes of a target whose upload is prepared.
pub enum TargetStep {
    /// Start the upload of these files in the terminal, then say what came of it.
    StartUpload(EntityId, Vec<PathBytes>),
    /// There is nothing to start.
    Reply(TargetReply),
}

/// All pairs of terminals between which files move.
pub struct ZmodemCrossTransfer {
    bindings: Vec<Binding>,
    events: Vec<CrossTransferEvent>,
}

impl View for ZmodemCrossTransfer {
    type V = CrossView;

    closed spec fn view(&self) -> CrossView {
        CrossView {
            bindings: bindings_view(self.bindings@),
            events: cross_events(self.events@),
        }
    }
}

impl Default for ZmodemCrossTransfer {
    fn default() -> (r: Self)
        ensures
            r@ == (CrossView { bindings: Seq::empty(), events: Seq::empty() }),
            r@.wf(),
    {
        let all = ZmodemCrossTransfer { bindings: Vec::new(), events: Vec::new() };
        assert(all@.bindings =~= Seq::<BindingView>::empty());
        assert(all@.events =~= Seq::<CrossEventView>::empty());
        all
    }
}

/// What a terminal is told: which shell the target has to show, and which
/// files it has to upload.
pub struct TargetPlan {
    pub terminal: EntityId,
    pub identity: Option<ShellIdentity>,
    pub paths: Vec<PathBytes>,
}

impl ZmodemCrossTransfer {
    fn emit(&mut self, event: CrossTransferEvent)
        ensures
            final(self)@ == old(self)@.emitting(event@),
    {
        let ghost before = cross_events(self.events@);
        let ghost view = event@;
        self.events.push(event);
        assert(cross_events(self.events@) =~= before.push(view));
    }

    /// Takes what has to be done, in order.
    pub fn take_events(&mut self) -> (r: Vec<CrossTransferEvent>)
        ensures
            cross_events(r@) == old(self)@.events,
            final(self)@ == old(self)@.quiet(),
    {
        let mut events: Vec<CrossTransferEvent> = Vec::new();
        std::mem::swap(&mut events, &mut self.events);
        assert(self@.events =~= Seq::<CrossEventView>::empty());
        events
    }

    fn owner(&self, terminal: EntityId) -> (r: usize)
        ensures
            r == self@.owner(terminal),
            r <= self@.bindings.len(),
    {
        let mut index: usize = 0;
        assert(self@.bindings.len() == self.bindings@.len());
        while index < self.bindings.len()
            invariant
                index <= self.bindings.len(),
                self@.bindings.len() == self.bindings@.len(),
                self@.owner(terminal) == self@.owner_from(terminal, index as int),
            decreases self.bindings.len() - index,
        {
            let flow = &self.bindings[index].flow;
            assert(self@.bindings[index as int] == self.bindings@[index as int]@);
            if flow.source == terminal || flow.target == terminal {
                return index;
            }
            index = index + 1;
        }
        index
    }

    fn index_of(&self, id: CrossTransferId) -> (r: usize)
        ensures
            r == self@.index_of(id),
            r <= self@.bindings.len(),
    {
        let mut index: usize = 0;
        assert(self@.bindings.len() == self.bindings@.len());
        while index < self.bindings.len()
            invariant
                index <= self.bindings.len(),
                self@.bindings.len() == self.bindings@.len(),
                self@.index_of(id) == self@.index_from(id, index as int),
            decreases self.bindings.len() - index,
        {
            assert(self@.bindings[index as int] == self.bindings@[index as int]@);
            if self.bindings[index].id == id {
                return index;
            }
            index = index + 1;
        }
        index
    }

    /// Whether the terminal belongs to a pair.
    pub fn is_reserved(&self, terminal: EntityId) -> (r: bool)
        ensures
            r == self@.is_reserved(terminal),
    {
        assert(self@.bindings.len() == self.bindings@.len());
        self.owner(terminal) < self.bindings.len()
    }

    /// Whether the terminal takes no input.
    pub fn blocks_input(&self, terminal: EntityId) -> (r: bool)
        ensures
            r == (self@.is_reserved(terminal) && self@.bindings[self@.owner(
                terminal,
            )].flow.spec_blocks_input(terminal)),
    {
        let index: usize = self.owner(terminal);
        assert(self@.bindings.len() == self.bindings@.len());
        if index >= self.bindings.len() {
            return false;
        }
        assert(self@.bindings[index as int] == self.bindings@[index as int]@);
        self.bindings[index].flow.blocks_input(terminal)
    }

    /// What is shown of the pair that owns a terminal.
    pub fn status_text(&self, terminal: EntityId) -> (r: Option<String>)
        ensures
            match r {
                Some(text) => self@.status(terminal) == Some(text@),
                None => self@.status(terminal) is None,
            },
    {
        let index: usize = self.owner(terminal);
        assert(self@.bindings.len() == self.bindings@.len());
        if index >= self.bindings.len() {
            return None;
        }
        assert(self@.bindings[index as int] == self.bindings@[index as int]@);
        let binding = &self.bindings[index];
        Some(
            match binding.flow.phase {
                Phase::AwaitingSource => concat(
                    "Waiting for source: ",
                    binding.source_title.as_str(),
                ),
                Phase::Receiving => concat("Receiving for ", binding.target_title.as_str()),
                Phase::PreparingTarget => concat(
                    "Preparing upload to ",
                    binding.target_title.as_str(),
                ),
                Phase::AwaitingTarget => concat(
                    "Waiting for rz in ",
                    binding.target_title.as_str(),
                ),
                Phase::Forwarding => concat("Forwarding to ", binding.target_title.as_str()),
                Phase::Finished => match &binding.result {
                    Some(result) => result.clone(),
                    None => String::new(),
                },
            },
        )
    }

    fn take_binding(&mut self, index: usize) -> (r: Binding)
        requires
            index < old(self)@.bindings.len(),
        ensures
            r@ == old(self)@.bindings[index as int],
            final(self)@ == (CrossView {
                bindings: old(self)@.bindings.remove(index as int),
                ..old(self)@
            }),
    {
        assert(self@.bindings.len() == self.bindings@.len());
        let ghost before = self@.bindings;
        let binding = self.bindings.remove(index);
        assert(self@.bindings =~= before.remove(index as int));
        binding
    }

    fn put_binding(&mut self, index: usize, binding: Binding)
        requires
            index <= old(self)@.bindings.len(),
        ensures
            final(self)@ == (CrossView {
                bindings: old(self)@.bindings.insert(index as int, binding@),
                ..old(self)@
            }),
    {
        assert(self@.bindings.len() == self.bindings@.len());
        let ghost before = self@.bindings;
        let ghost view = binding@;
        self.bindings.insert(index, binding);
        assert(self@.bindings =~= before.insert(index as int, view));
    }

    fn reap(&mut self, index: usize)
        requires
            index < old(self)@.bindings.len(),
        ensures
            final(self)@ == old(self)@.reaped(index as int),
    {
        assert(self@.bindings.len() == self.bindings@.len());
        assert(self@.bindings[index as int] == self.bindings@[index as int]@);
        if !self.bindings[index].flow.can_cleanup() {
            return;
        }
        let binding = self.take_binding(index);
        if let Some(directory) = binding.staging {
            self.emit(CrossTransferEvent::Cleanup(directory));
        }
        self.emit(CrossTransferEvent::Changed);
    }

    fn finish(&mut self, index: usize, message: &str, success: bool)
        requires
            index < old(self)@.bindings.len(),
        ensures
            final(self)@ == old(self)@.finished(index as int, message@, success),
    {
        assert(self@.bindings.len() == self.bindings@.len());
        assert(self@.bindings[index as int] == self.bindings@[index as int]@);
        if matches!(self.bindings[index].flow.phase, Phase::Finished) {
            return;
        }
        let ghost before = self@;
        let mut binding = self.take_binding(index);
        let flow: Flow = binding.flow;
        binding.flow.phase = Phase::Finished;
        binding.result = Some(display_text(message));
        let ghost done = binding@;
        self.put_binding(index, binding);
        proof {
            assert(before.bindings.remove(index as int).insert(index as int, done)
                =~= before.bindings.update(index as int, done));
        }
        if let Some(transfer) = flow.source_worker {
            self.emit(CrossTransferEvent::Cancel(flow.source, transfer));
        }
        if let Some(transfer) = flow.target_worker {
            self.emit(CrossTransferEvent::Cancel(flow.target, transfer));
        }
        let shown = display_text(message);
        self.emit(
            CrossTransferEvent::Result { terminal: flow.source, message: shown, success },
        );
        self.emit(CrossTransferEvent::Changed);
        assert(self@.events =~= before.events + cancellations(flow) + seq![
            CrossEventView::Result { terminal: flow.source, message: displayed(message@), success },
            CrossEventView::Changed,
        ]);
        self.reap(index);
    }

    /// Forms a pair, if both terminals are free and able. The staging
    /// directory has to be created next.
    pub fn begin(
        &mut self,
        id: CrossTransferId,
        enabled: bool,
        source: Endpoint,
        target: Endpoint,
        target_identity: Option<ShellIdentity>,
        now: Instant,
    ) -> (r: Result<CrossTransferId, &'static str>)
        requires
            now <= LAST_INSTANT,
        ensures
            match old(self)@.refusal(enabled, source, target) {
                Some(reason) => (r matches Err(text) && text@ == reason) && final(self)@
                    == old(self)@,
                None => r == Ok::<CrossTransferId, &'static str>(id) && final(self)@ == (CrossView {
                    bindings: old(self)@.bindings.push(
                        BindingView {
                            id,
                            source_title: source.label@,
                            target_title: target.label@,
                            target_identity,
                            flow: Flow::spec_new(source.terminal, target.terminal),
                            staging: None,
                            paths: Seq::empty(),
                            deadline: (now + CHOICE_TIMEOUT) as u64,
                            result: None,
                        },
                    ),
                    ..old(self)@
                }).emitting(CrossEventView::Changed),
            },
            old(self)@.wf() ==> final(self)@.wf(),
    {
        proof {
            lemma_new_pair_keeps_wf(self@, source.terminal, target.terminal);
        }
        assert(self@.bindings.len() == self.bindings@.len());
        if !enabled {
            return Err("Cross-terminal transfers are disabled");
        }
        if self.bindings.len() >= MAX_BINDINGS {
            return Err("Too many cross-terminal transfers are still active");
        }
        if source.terminal == target.terminal || self.is_reserved(source.terminal)
            || self.is_reserved(target.terminal) {
            return Err("A selected terminal is already reserved");
        }
        if !source.live || !target.live {
            return Err("A selected terminal is no longer available");
        }
        if !source.available || source.busy || !target.available || target.busy {
            return Err("A selected terminal is busy or unavailable");
        }
        let ghost before = self@.bindings;
        let binding = Binding {
            id,
            source_title: source.label,
            target_title: target.label,
            target_identity,
            flow: Flow::new(source.terminal, target.terminal),
            staging: None,
            paths: Vec::new(),
            deadline: now + CHOICE_TIMEOUT,
            result: None,
        };
        assert(binding@.paths =~= Seq::<Seq<u8>>::empty());
        let ghost view = binding@;
        self.bindings.push(binding);
        assert(self@.bindings =~= before.push(view));
        self.emit(CrossTransferEvent::Changed);
        Ok(id)
    }

    /// Takes over the staging directory, or why there is none. A directory
    /// that comes too late is removed.
    pub fn staging_created(&mut self, id: CrossTransferId, result: Result<PathBytes, String>)
        ensures
            ({
                let index = old(self)@.index_of(id);
                let known = index < old(self)@.bindings.len();
                let binding = old(self)@.bindings[index];
                final(self)@ == match result {
                    Ok(directory) => if !known || binding.flow.phase is Finished {
                        old(self)@.emitting(CrossEventView::Cleanup(directory@))
                    } else {
                        let ready = old(self)@.with_binding(
                            index,
                            BindingView { staging: Some(directory@), ..binding },
                        );
                        if binding.flow.phase is Receiving {
                            ready.emitting(CrossEventView::Receive(id))
                        } else {
                            ready
                        }
                    },
                    Err(error) => if known {
                        old(self)@.finished(
                            index,
                            "Cannot create staging directory: "@ + error@,
                            false,
                        )
                    } else {
                        old(self)@
                    },
                }
            }),
    {
        let index: usize = self.index_of(id);
        assert(self@.bindings.len() == self.bindings@.len());
        let known: bool = index < self.bindings.len();
        match result {
            Ok(directory) => {
                if known {
                    assert(self@.bindings[index as int] == self.bindings@[index as int]@);
                }
                if !known || matches!(self.bindings[index].flow.phase, Phase::Finished) {
                    self.emit(CrossTransferEvent::Cleanup(directory));
                    return;
                }
                let ghost before = self@;
                let mut binding = self.take_binding(index);
                let receiving: bool = matches!(binding.flow.phase, Phase::Receiving);
                binding.staging = Some(directory);
                let ghost view = binding@;
                self.put_binding(index, binding);
                proof {
                    assert(before.bindings.remove(index as int).insert(index as int, view)
                        =~= before.bindings.update(index as int, view));
                }
                if receiving {
                    self.emit(CrossTransferEvent::Receive(id));
                }
            },
            Err(error) => {
                if known {
                    let message = concat("Cannot create staging directory: ", error.as_str());
                    self.finish(index, message.as_str(), false);
                }
            },
        }
    }

    fn request(
        &mut self,
        index: usize,
        terminal: EntityId,
        id: TransferId,
        role: Role,
        now: Instant,
    )
        requires
            now <= LAST_INSTANT,
            index < old(self)@.bindings.len(),
        ensures
            final(self)@ == old(self)@.requested(index as int, terminal, id, role, now),
    {
        assert(self@.bindings.len() == self.bindings@.len());
        assert(self@.bindings[index as int] == self.bindings@[index as int]@);
        let flow: Flow = self.bindings[index].flow;
        if flow.is_half(terminal, id, role) {
            return;
        }
        let ghost before = self@;
        if terminal == flow.source && matches!(role, Role::Download) && matches!(
            flow.phase,
            Phase::AwaitingSource
        ) {
            let mut binding = self.take_binding(index);
            let pair: CrossTransferId = binding.id;
            let staged: bool = binding.staging.is_some();
            let mut bound: Flow = flow;
            let _ = bound.bind_source(id);
            binding.flow = bound;
            binding.deadline = now + CHOICE_TIMEOUT;
            let ghost view = binding@;
            self.put_binding(index, binding);
            proof {
                assert(before.bindings.remove(index as int).insert(index as int, view)
                    =~= before.bindings.update(index as int, view));
            }
            if staged {
                self.emit(CrossTransferEvent::Receive(pair));
            }
        } else if terminal == flow.target && matches!(role, Role::Upload) && matches!(
            flow.phase,
            Phase::AwaitingTarget
        ) {
            let mut binding = self.take_binding(index);
            let pair: CrossTransferId = binding.id;
            let mut bound: Flow = flow;
            let _ = bound.bind_target(id);
            binding.flow = bound;
            let ghost view = binding@;
            self.put_binding(index, binding);
            proof {
                assert(before.bindings.remove(index as int).insert(index as int, view)
                    =~= before.bindings.update(index as int, view));
            }
            self.emit(CrossTransferEvent::UploadRequested(pair, id));
        } else {
            self.emit(CrossTransferEvent::Cancel(terminal, id));
            self.finish(index, "Unexpected transfer in a reserved terminal", false);
        }
        self.emit(CrossTransferEvent::Changed);
    }

    fn end_half(
        &mut self,
        index: usize,
        role: Role,
        outcome: &TransferOutcome,
        committed_paths: &Vec<PathBytes>,
        now: Instant,
    )
        requires
            now <= LAST_INSTANT,
            index < old(self)@.bindings.len(),
        ensures
            final(self)@ == old(self)@.half_ended(
                index as int,
                role,
                outcome@,
                paths_view(committed_paths@),
                now,
            ),
    {
        assert(self@.bindings.len() == self.bindings@.len());
        assert(self@.bindings[index as int] == self.bindings@[index as int]@);
        let flow: Flow = self.bindings[index].flow;
        if !matches!(outcome, TransferOutcome::Completed) {
            let message = concat("Cross-terminal transfer: ", outcome_text(outcome).as_str());
            self.finish(index, message.as_str(), false);
        } else if matches!(role, Role::Download) && matches!(flow.phase, Phase::Receiving) {
            let safe: bool = match &self.bindings[index].staging {
                Some(directory) => valid_staged_paths(directory.as_slice(), committed_paths),
                None => false,
            };
            if !safe {
                self.finish(index, "Source returned no valid staged files", false);
                return;
            }
            let ghost before = self@;
            let mut binding = self.take_binding(index);
            let pair: CrossTransferId = binding.id;
            binding.paths = copy_paths(committed_paths);
            binding.flow.phase = Phase::PreparingTarget;
            binding.deadline = now + CHOICE_TIMEOUT;
            let ghost view = binding@;
            self.put_binding(index, binding);
            proof {
                assert(before.bindings.remove(index as int).insert(index as int, view)
                    =~= before.bindings.update(index as int, view));
            }
            self.emit(CrossTransferEvent::PrepareTarget(pair));
            self.emit(CrossTransferEvent::Changed);
        } else if matches!(role, Role::Upload) && matches!(flow.phase, Phase::Forwarding) {
            let mut message = concat("Transfer to ", self.bindings[index].target_title.as_str());
            message.append(" complete: ");
            push_decimal(&mut message, flow.skipped);
            message.append(" skipped");
            self.finish(index, message.as_str(), true);
        }
    }

    /// True means a pair owns the event; suppress ordinary pickers and completion toasts.
    pub fn on_event(&mut self, terminal: EntityId, event: &TransferEvent, now: Instant) -> (r: bool)
        requires
            now <= LAST_INSTANT,
        ensures
            (final(self)@, r) == old(self)@.on_event(terminal, event@, now),
    {
        let index: usize = self.owner(terminal);
        assert(self@.bindings.len() == self.bindings@.len());
        if index >= self.bindings.len() {
            return false;
        }
        assert(self@.bindings[index as int] == self.bindings@[index as int]@);
        let (id, role): (TransferId, Role) = match event {
            TransferEvent::Requested { id, role } => {
                self.request(index, terminal, *id, *role, now);
                return true;
            },
            TransferEvent::FileStarted { id, role, .. } => (*id, *role),
            TransferEvent::Progress { id, role, .. } => (*id, *role),
            TransferEvent::FileResult { id, role, .. } => (*id, *role),
            TransferEvent::Finished { id, role, .. } => (*id, *role),
        };
        let flow: Flow = self.bindings[index].flow;
        if !flow.is_half(terminal, id, role) || matches!(flow.phase, Phase::Finished) {
            return true;
        }
        match event {
            TransferEvent::FileResult { outcome, .. } => {
                if matches!(outcome, FileOutcome::Skipped) && matches!(role, Role::Upload)
                    && flow.skipped < u64::MAX {
                    let ghost before = self@;
                    let mut binding = self.take_binding(index);
                    binding.flow.skipped = flow.skipped + 1;
                    let ghost view = binding@;
                    self.put_binding(index, binding);
                    proof {
                        assert(before.bindings.remove(index as int).insert(index as int, view)
                            =~= before.bindings.update(index as int, view));
                    }
                }
            },
            TransferEvent::Finished { outcome, committed_paths, .. } => {
                self.end_half(index, role, outcome, committed_paths, now);
            },
            _ => {},
        }
        true
    }

    /// Cancels the pair that owns a terminal.
    pub fn cancel_terminal(&mut self, terminal: EntityId) -> (r: bool)
        ensures
            r == old(self)@.is_reserved(terminal),
            final(self)@ == old(self)@.terminal_cancelled(terminal),
    {
        let index: usize = self.owner(terminal);
        assert(self@.bindings.len() == self.bindings@.len());
        if index >= self.bindings.len() {
            return false;
        }
        self.finish(index, "Cross-terminal transfer cancelled", false);
        true
    }

    /// Also required when a PTY is disposed and its normal event stream has already disconnected.
    pub fn worker_released(&mut self, terminal: EntityId, id: TransferId)
        ensures
            ({
                let index = old(self)@.owner(terminal);
                final(self)@ == if index < old(self)@.bindings.len() {
                    let binding = old(self)@.bindings[index];
                    old(self)@.with_binding(
                        index,
                        BindingView { flow: binding.flow.released(terminal, id), ..binding },
                    ).reaped(index)
                } else {
                    old(self)@
                }
            }),
    {
        let index: usize = self.owner(terminal);
        assert(self@.bindings.len() == self.bindings@.len());
        if index >= self.bindings.len() {
            return;
        }
        let ghost before = self@;
        let mut binding = self.take_binding(index);
        let mut flow: Flow = binding.flow;
        flow.release(terminal, id);
        binding.flow = flow;
        let ghost view = binding@;
        self.put_binding(index, binding);
        proof {
            assert(before.bindings.remove(index as int).insert(index as int, view)
                =~= before.bindings.update(index as int, view));
        }
        self.reap(index);
    }

    /// Finishes every pair that cannot go on.
    pub fn tick(&mut self, enabled: bool, live: &Vec<EntityId>, now: Instant)
        ensures
            final(self)@ == old(self)@.ticked(0, enabled, live@, now),
    {
        let mut index: usize = 0;
        assert(self@.bindings.len() == self.bindings@.len());
        while index < self.bindings.len()
            invariant
                index <= self.bindings.len(),
                self@.bindings.len() == self.bindings@.len(),
                old(self)@.ticked(0, enabled, live@, now) == self@.ticked(
                    index as int,
                    enabled,
                    live@,
                    now,
                ),
            decreases self.bindings.len() - index,
        {
            assert(self@.bindings[index as int] == self.bindings@[index as int]@);
            let flow: Flow = self.bindings[index].flow;
            let waiting: bool = matches!(
                flow.phase,
                Phase::AwaitingSource | Phase::PreparingTarget | Phase::AwaitingTarget
            );
            let over: bool = !matches!(flow.phase, Phase::Finished) && (!enabled || !holds(
                live,
                flow.source,
            ) || !holds(live, flow.target) || (waiting && now >= self.bindings[index].deadline));
            assert(over == self@.overdue(index as int, enabled, live@, now));
            if over {
                let count: usize = self.bindings.len();
                let ghost before = self@;
                self.finish(
                    index,
                    "Cross-terminal transfer ended: terminal unavailable or selection timed out",
                    false,
                );
                assert(self@.bindings.len() == self.bindings@.len());
                assert(self@.bindings.len() <= before.bindings.len());
                if self.bindings.len() == count {
                    index = index + 1;
                }
            } else {
                index = index + 1;
            }
        }
    }

    /// Where the source has to receive to, while it is to receive.
    pub fn receive_plan(&self, id: CrossTransferId) -> (r: Option<(EntityId, TransferId, PathBytes)>)
        ensures
            ({
                let index = self@.index_of(id);
                match r {
                    Some((terminal, transfer, directory)) => {
                        &&& index < self@.bindings.len()
                        &&& self@.bindings[index].flow.phase is Receiving
                        &&& terminal == self@.bindings[index].flow.source
                        &&& self@.bindings[index].flow.source_transfer == Some(transfer)
                        &&& self@.bindings[index].staging == Some(directory@)
                    },
                    None => index >= self@.bindings.len() || !(
                    self@.bindings[index].flow.phase is Receiving)
                        || self@.bindings[index].flow.source_transfer is None
                        || self@.bindings[index].staging is None,
                }
            }),
    {
        let index: usize = self.index_of(id);
        assert(self@.bindings.len() == self.bindings@.len());
        if index >= self.bindings.len() {
            return None;
        }
        assert(self@.bindings[index as int] == self.bindings@[index as int]@);
        let binding = &self.bindings[index];
        if !matches!(binding.flow.phase, Phase::Receiving) {
            return None;
        }
        match (binding.flow.source_transfer, copy_path(&binding.staging)) {
            (Some(transfer), Some(directory)) => Some((binding.flow.source, transfer, directory)),
            _ => None,
        }
    }

    /// What the target has to upload, while it is prepared.
    pub fn target_plan(&self, id: CrossTransferId) -> (r: Option<TargetPlan>)
        ensures
            ({
                let index = self@.index_of(id);
                match r {
                    Some(plan) => {
                        &&& index < self@.bindings.len()
                        &&& self@.bindings[index].flow.phase is PreparingTarget
                        &&& plan.terminal == self@.bindings[index].flow.target
                        &&& plan.identity == self@.bindings[index].target_identity
                        &&& paths_view(plan.paths@) == self@.bindings[index].paths
                    },
                    None => index >= self@.bindings.len() || !(
                    self@.bindings[index].flow.phase is PreparingTarget),
                }
            }),
    {
        let index: usize = self.index_of(id);
        assert(self@.bindings.len() == self.bindings@.len());
        if index >= self.bindings.len() {
            return None;
        }
        assert(self@.bindings[index as int] == self.bindings@[index as int]@);
        let binding = &self.bindings[index];
        if !matches!(binding.flow.phase, Phase::PreparingTarget) {
            return None;
        }
        Some(
            TargetPlan {
                terminal: binding.flow.target,
                identity: binding.target_identity,
                paths: copy_paths(&binding.paths),
            },
        )
    }

    /// What the target has to upload, while its own transfer waits for it.
    pub fn upload_plan(&self, id: CrossTransferId, transfer: TransferId) -> (r: Option<
        (EntityId, Vec<PathBytes>),
    >)
        ensures
            ({
                let index = self@.index_of(id);
                match r {
                    Some((terminal, paths)) => {
                        &&& index < self@.bindings.len()
                        &&& self@.bindings[index].flow.phase is Forwarding
                        &&& self@.bindings[index].flow.target_transfer == Some(transfer)
                        &&& terminal == self@.bindings[index].flow.target
                        &&& paths_view(paths@) == self@.bindings[index].paths
                    },
                    None => index >= self@.bindings.len() || !(
                    self@.bindings[index].flow.phase is Forwarding)
                        || self@.bindings[index].flow.target_transfer != Some(transfer),
                }
            }),
    {
        let index: usize = self.index_of(id);
        assert(self@.bindings.len() == self.bindings@.len());
        if index >= self.bindings.len() {
            return None;
        }
        assert(self@.bindings[index as int] == self.bindings@[index as int]@);
        let binding = &self.bindings[index];
        let bound: bool = match binding.flow.target_transfer {
            Some(known) => known == transfer,
            None => false,
        };
        if !matches!(binding.flow.phase, Phase::Forwarding) || !bound {
            return None;
        }
        Some((binding.flow.target, copy_paths(&binding.paths)))
    }

    /// The source is told to receive, while it is to receive; one that is gone
    /// or shows another transfer ends the pair.
    pub fn receive(&mut self, id: CrossTransferId, source: Option<TerminalState>) -> (r: Option<
        (EntityId, TransferId, PathBytes),
    >)
        ensures
            ({
                let index = old(self)@.index_of(id);
                let binding = old(self)@.bindings[index];
                let due = index < old(self)@.bindings.len() && binding.flow.phase is Receiving
                    && binding.flow.source_transfer is Some && binding.staging is Some;
                if due && (source matches Some(state) && state.spec_serves(
                    binding.flow.source_transfer->0,
                )) {
                    &&& final(self)@ == old(self)@
                    &&& r matches Some((terminal, transfer, directory)) && terminal
                        == binding.flow.source && Some(transfer) == binding.flow.source_transfer
                        && Some(directory@) == binding.staging
                } else {
                    &&& r is None
                    &&& final(self)@ == if due {
                        old(self)@.terminal_cancelled(binding.flow.source)
                    } else {
                        old(self)@
                    }
                }
            }),
    {
        match self.receive_plan(id) {
            None => None,
            Some((terminal, transfer, directory)) => {
                let served: bool = match source {
                    Some(state) => state.serves(transfer),
                    None => false,
                };
                if served {
                    Some((terminal, transfer, directory))
                } else {
                    self.cancel_terminal(terminal);
                    None
                }
            },
        }
    }

    /// The target is told to upload, while its own transfer waits for it; one
    /// that is gone or shows another transfer ends the pair.
    pub fn upload(
        &mut self,
        id: CrossTransferId,
        transfer: TransferId,
        target: Option<TerminalState>,
    ) -> (r: Option<(EntityId, Vec<PathBytes>)>)
        ensures
            ({
                let index = old(self)@.index_of(id);
                let binding = old(self)@.bindings[index];
                let due = index < old(self)@.bindings.len() && binding.flow.phase is Forwarding
                    && binding.flow.target_transfer == Some(transfer);
                if due && (target matches Some(state) && state.spec_serves(transfer)) {
                    &&& final(self)@ == old(self)@
                    &&& r matches Some((terminal, paths)) && terminal == binding.flow.target
                        && paths_view(paths@) == binding.paths
                } else {
                    &&& r is None
                    &&& final(self)@ == if due {
                        old(self)@.terminal_cancelled(binding.flow.target)
                    } else {
                        old(self)@
                    }
                }
            }),
    {
        match self.upload_plan(id, transfer) {
            None => None,
            Some((terminal, paths)) => {
                let served: bool = match target {
                    Some(state) => state.serves(transfer),
                    None => false,
                };
                if served {
                    Some((terminal, paths))
                } else {
                    self.cancel_terminal(terminal);
                    None
                }
            },
        }
    }

    /// What becomes of the target of a pair, while it is prepared: the upload
    /// is started in a free terminal that still shows the shell of the pair.
    pub fn prepare_target(&self, id: CrossTransferId, target: Option<TerminalState>) -> (r: Option<
        TargetStep,
    >)
        ensures
            ({
                let index = self@.index_of(id);
                let binding = self@.bindings[index];
                if index >= self@.bindings.len() || !(binding.flow.phase is PreparingTarget) {
                    r is None
                } else if target matches Some(state) && state.available && !state.busy {
                    if binding.target_identity is Some && target->0.identity
                        == binding.target_identity {
                        r matches Some(TargetStep::StartUpload(terminal, paths)) && terminal
                            == binding.flow.target && paths_view(paths@) == binding.paths
                    } else {
                        r matches Some(TargetStep::Reply(TargetReply::OtherShell))
                    }
                } else {
                    r matches Some(TargetStep::Reply(TargetReply::Unavailable))
                }
            }),
    {
        match self.target_plan(id) {
            None => None,
            Some(plan) => match target {
                Some(state) => if !state.available || state.busy {
                    Some(TargetStep::Reply(TargetReply::Unavailable))
                } else if !state.shows(plan.identity) {
                    Some(TargetStep::Reply(TargetReply::OtherShell))
                } else {
                    Some(TargetStep::StartUpload(plan.terminal, plan.paths))
                },
                None => Some(TargetStep::Reply(TargetReply::Unavailable)),
            },
        }
    }

    /// Takes over what the target said when its upload was prepared.
    pub fn target_prepared(&mut self, id: CrossTransferId, reply: TargetReply, now: Instant)
        requires
            now <= LAST_INSTANT,
        ensures
            ({
                let index = old(self)@.index_of(id);
                let binding = old(self)@.bindings[index];
                final(self)@ == if index >= old(self)@.bindings.len() {
                    old(self)@
                } else {
                    (match reply {
                        TargetReply::Started(transfer) => if binding.flow.awaits_target() {
                            old(self)@.with_binding(
                                index,
                                BindingView { flow: binding.flow.target_bound(transfer), ..binding },
                            )
                        } else {
                            old(self)@
                        },
                        TargetReply::OtherShell => old(self)@.with_binding(
                            index,
                            BindingView {
                                flow: Flow { phase: Phase::AwaitingTarget, ..binding.flow },
                                deadline: (now + CHOICE_TIMEOUT) as u64,
                                ..binding
                            },
                        ),
                        TargetReply::Unavailable => old(self)@.finished(
                            index,
                            "Target terminal is no longer available"@,
                            false,
                        ),
                    }).emitting(CrossEventView::Changed)
                }
            }),
    {
        let index: usize = self.index_of(id);
        assert(self@.bindings.len() == self.bindings@.len());
        if index >= self.bindings.len() {
            return;
        }
        let ghost before = self@;
        match reply {
            TargetReply::Unavailable => {
                self.finish(index, "Target terminal is no longer available", false);
            },
            TargetReply::Started(transfer) => {
                let mut binding = self.take_binding(index);
                let mut flow: Flow = binding.flow;
                let _ = flow.bind_target(transfer);
                binding.flow = flow;
                let ghost view = binding@;
                self.put_binding(index, binding);
                proof {
                    assert(before.bindings.remove(index as int).insert(index as int, view)
                        =~= before.bindings.update(index as int, view));
                    if !before.bindings[index as int].flow.awaits_target() {
                        assert(before.bindings.update(index as int, view) =~= before.bindings);
                    }
                }
            },
            TargetReply::OtherShell => {
                let mut binding = self.take_binding(index);
                binding.flow.phase = Phase::AwaitingTarget;
                binding.deadline = now + CHOICE_TIMEOUT;
                let ghost view = binding@;
                self.put_binding(index, binding);
                proof {
                    assert(before.bindings.remove(index as int).insert(index as int, view)
                        =~= before.bindings.update(index as int, view));
                }
            },
        }
        self.emit(CrossTransferEvent::Changed);
    }
}

fn holds(live: &Vec<EntityId>, terminal: EntityId) -> (r: bool)
    ensures
        r == live@.contains(terminal),
{
    let mut index: usize = 0;
    while index < live.len()
        invariant
            index <= live.len(),
            forall|i: int| 0 <= i < index ==> live@[i] != terminal,
        decreases live.len() - index,
    {
        if live[index] == terminal {
            return true;
        }
        index = index + 1;
    }
    false
}

proof fn lemma_owner(all: CrossView, terminal: EntityId, from: int, at: int)
    requires
        0 <= from <= at < all.bindings.len(),
        owns(all.bindings[at], terminal),
    ensures
        all.owner_from(terminal, from) <= at,
    decreases at - from,
{
    if from < at && !owns(all.bindings[from], terminal) {
        lemma_owner(all, terminal, from + 1, at);
    }
}

proof fn lemma_new_pair_keeps_wf(all: CrossView, source: EntityId, target: EntityId)
    ensures
        all.wf() && all.bindings.len() < MAX_BINDINGS && source != target && !all.is_reserved(
            source,
        ) && !all.is_reserved(target) ==> forall|binding: BindingView|
            #![trigger all.bindings.push(binding)]
            binding.flow.source == source && binding.flow.target == target ==> (CrossView {
                bindings: all.bindings.push(binding),
                ..all
            }).wf() && forall|event: CrossEventView|
                (#[trigger] (CrossView {
                    bindings: all.bindings.push(binding),
                    ..all
                }).emitting(event)).wf(),
{
    if all.wf() && all.bindings.len() < MAX_BINDINGS && source != target && !all.is_reserved(source)
        && !all.is_reserved(target) {
        assert forall|binding: BindingView|
            #![trigger all.bindings.push(binding)]
            binding.flow.source == source && binding.flow.target == target implies (CrossView {
            bindings: all.bindings.push(binding),
            ..all
        }).wf() && forall|event: CrossEventView|
            (#[trigger] (CrossView {
                bindings: all.bindings.push(binding),
                ..all
            }).emitting(event)).wf() by {
            let more = CrossView { bindings: all.bindings.push(binding), ..all };
            assert forall|i: int, j: int, terminal: EntityId|
                0 <= i < more.bindings.len() && 0 <= j < more.bindings.len() && #[trigger] owns(
                    more.bindings[i],
                    terminal,
                ) && #[trigger] owns(more.bindings[j], terminal) implies i == j by {
                if i < all.bindings.len() && j == all.bindings.len() {
                    lemma_owner(all, terminal, 0, i);
                }
                if j < all.bindings.len() && i == all.bindings.len() {
                    lemma_owner(all, terminal, 0, j);
                }
            }
            assert(more.wf());
            assert forall|event: CrossEventView| (#[trigger] more.emitting(event)).wf() by {
                assert(more.emitting(event).bindings == more.bindings);
            }
        }
    }
}

proof fn lemma_update_keeps_wf(all: CrossView, index: int, binding: BindingView)
    requires
        all.wf(),
        0 <= index < all.bindings.len(),
        binding.flow.source == all.bindings[index].flow.source,
        binding.flow.target == all.bindings[index].flow.target,
    ensures
        all.with_binding(index, binding).wf(),
{
    let after = all.with_binding(index, binding);
    assert forall|i: int, j: int, terminal: EntityId|
        0 <= i < after.bindings.len() && 0 <= j < after.bindings.len() && #[trigger] owns(
            after.bindings[i],
            terminal,
        ) && #[trigger] owns(after.bindings[j], terminal) implies i == j by {
        assert(owns(all.bindings[i], terminal));
        assert(owns(all.bindings[j], terminal));
    }
}

proof fn lemma_reaping_keeps_wf(all: CrossView, index: int)
    requires
        all.wf(),
        0 <= index < all.bindings.len(),
    ensures
        all.reaped(index).wf(),
{
    let after = all.reaped(index);
    if after.bindings.len() < all.bindings.len() {
        assert(after.bindings == all.bindings.remove(index));
        assert forall|i: int, j: int, terminal: EntityId|
            0 <= i < after.bindings.len() && 0 <= j < after.bindings.len() && #[trigger] owns(
                after.bindings[i],
                terminal,
            ) && #[trigger] owns(after.bindings[j], terminal) implies i == j by {
            let a = if i < index {
                i
            } else {
                i + 1
            };
            let b = if j < index {
                j
            } else {
                j + 1
            };
            assert(owns(all.bindings[a], terminal));
            assert(owns(all.bindings[b], terminal));
        }
        assert forall|i: int| 0 <= i < after.bindings.len() implies (
        #[trigger] after.bindings[i]).flow.source != after.bindings[i].flow.target by {
            let a = if i < index {
                i
            } else {
                i + 1
            };
            assert(after.bindings[i] == all.bindings[a]);
        }
    } else {
        assert(after == all);
    }
}

proof fn lemma_finishing_keeps_wf(all: CrossView, index: int, message: Seq<char>, success: bool)
    requires
        all.wf(),
        0 <= index < all.bindings.len(),
    ensures
        all.finished(index, message, success).wf(),
{
    let binding = all.bindings[index];
    if !(binding.flow.phase is Finished) {
        let done = BindingView {
            flow: Flow { phase: Phase::Finished, ..binding.flow },
            result: Some(displayed(message)),
            ..binding
        };
        lemma_update_keeps_wf(all, index, done);
        let told = CrossView {
            events: all.events + cancellations(binding.flow) + seq![
                CrossEventView::Result {
                    terminal: binding.flow.source,
                    message: displayed(message),
                    success,
                },
                CrossEventView::Changed,
            ],
            ..all.with_binding(index, done)
        };
        assert(told.bindings == all.with_binding(index, done).bindings);
        assert(told.wf());
        lemma_reaping_keeps_wf(told, index);
    }
}

/// No event takes a terminal into two pairs or a pair to other terminals.
pub proof fn law_pairs_stay_disjoint(
    all: CrossView,
    terminal: EntityId,
    event: TransferEventView,
    now: Instant,
)
    requires
        all.wf(),
    ensures
        all.on_event(terminal, event, now).0.wf(),
{
    let index = all.owner(terminal);
    if 0 <= index < all.bindings.len() {
        let binding = all.bindings[index];
        let flow = binding.flow;
        match event {
            TransferEventView::Requested { id, role } => {
                if flow.spec_matches(terminal, id, role) {
                } else if terminal == flow.source && role is Download
                    && flow.phase is AwaitingSource {
                    lemma_update_keeps_wf(
                        all,
                        index,
                        BindingView {
                            flow: flow.source_bound(id),
                            deadline: (now + CHOICE_TIMEOUT) as u64,
                            ..binding
                        },
                    );
                } else if terminal == flow.target && role is Upload && flow.phase is AwaitingTarget {
                    lemma_update_keeps_wf(
                        all,
                        index,
                        BindingView { flow: flow.target_bound(id), ..binding },
                    );
                } else {
                    lemma_finishing_keeps_wf(
                        all.emitting(CrossEventView::Cancel(terminal, id)),
                        index,
                        "Unexpected transfer in a reserved terminal"@,
                        false,
                    );
                }
            },
            TransferEventView::FileResult { .. } => {
                lemma_update_keeps_wf(
                    all,
                    index,
                    BindingView {
                        flow: Flow { skipped: (flow.skipped + 1) as u64, ..flow },
                        ..binding
                    },
                );
            },
            TransferEventView::Finished { outcome, committed_paths, .. } => {
                lemma_finishing_keeps_wf(
                    all,
                    index,
                    "Cross-terminal transfer: "@ + outcome_name(outcome),
                    false,
                );
                lemma_finishing_keeps_wf(
                    all,
                    index,
                    "Source returned no valid staged files"@,
                    false,
                );
                lemma_finishing_keeps_wf(
                    all,
                    index,
                    "Transfer to "@ + binding.target_title + " complete: "@ + decimal(
                        flow.skipped as nat,
                    ) + " skipped"@,
                    true,
                );
                lemma_update_keeps_wf(
                    all,
                    index,
                    BindingView {
                        paths: committed_paths,
                        flow: Flow { phase: Phase::PreparingTarget, ..flow },
                        deadline: (now + CHOICE_TIMEOUT) as u64,
                        ..binding
                    },
                );
            },
            _ => {},
        }
    } else {
        lemma_owner_bounds(all, terminal, 0);
    }
}

proof fn lemma_owner_bounds(all: CrossView, terminal: EntityId, from: int)
    requires
        0 <= from <= all.bindings.len(),
    ensures
        from <= all.owner_from(terminal, from) <= all.bindings.len(),
    decreases all.bindings.len() - from,
{
    if from < all.bindings.len() && !owns(all.bindings[from], terminal) {
        lemma_owner_bounds(all, terminal, from + 1);
    }
}

/// A pair is finished once: a further reason to finish it shows nothing and
/// changes nothing, and finishing it leaves it finished or gone.
pub proof fn law_pairs_finish_once(all: CrossView, index: int, message: Seq<char>, success: bool)
    requires
        0 <= index < all.bindings.len(),
    ensures
        all.bindings[index].flow.phase is Finished ==> all.finished(index, message, success)
            == all,
        ({
            let after = all.finished(index, message, success);
            after.bindings.len() < all.bindings.len() || after.bindings[index].flow.phase is Finished
        }),
{
}

/// A staging directory is removed only when its pair is finished and both
/// workers have let go of it.
pub proof fn law_staged_files_outlive_their_workers(all: CrossView, index: int)
    requires
        0 <= index < all.bindings.len(),
        all.bindings[index].flow.source_worker is Some
            || all.bindings[index].flow.target_worker is Some
            || !(all.bindings[index].flow.phase is Finished),
    ensures
        all.reaped(index) == all,
{
}

/// Files are forwarded only from the staging directory: the paths a target
/// uploads were all committed there by its source.
pub proof fn law_forwarded_files_were_staged(
    all: CrossView,
    index: int,
    outcome: TransferOutcomeView,
    paths: Seq<Seq<u8>>,
    now: Instant,
)
    requires
        0 <= index < all.bindings.len(),
        all.bindings[index].flow.phase is Receiving,
    ensures
        ({
            let after = all.half_ended(index, Role::Download, outcome, paths, now);
            after.bindings.len() == all.bindings.len()
                && after.bindings[index].flow.phase is PreparingTarget ==> {
                &&& outcome is Completed
                &&& after.bindings[index].paths == paths
                &&& all.bindings[index].staging matches Some(directory)
                &&& staged(directory, paths)
            }
        }),
{
}

/// The pair at `index` ends: its workers are told to stop, the source shows
/// the result, and a pair that nobody works for any more leaves together with
/// its staging directory.
pub open spec fn pair_ends(
    all: CrossView,
    after: CrossView,
    index: int,
    message: Seq<char>,
    success: bool,
) -> bool {
    let binding = all.bindings[index];
    let flow = binding.flow;
    let source: Seq<CrossEventView> = if flow.source_worker is Some {
        seq![CrossEventView::Cancel(flow.source, flow.source_worker->0)]
    } else {
        Seq::empty()
    };
    let target: Seq<CrossEventView> = if flow.target_worker is Some {
        seq![CrossEventView::Cancel(flow.target, flow.target_worker->0)]
    } else {
        Seq::empty()
    };
    let result = seq![
        CrossEventView::Result { terminal: flow.source, message: displayed(message), success },
        CrossEventView::Changed,
    ];
    let idle = flow.source_worker is None && flow.target_worker is None;
    let leaving: Seq<CrossEventView> = if idle && binding.staging is Some {
        seq![CrossEventView::Cleanup(binding.staging->0), CrossEventView::Changed]
    } else if idle {
        seq![CrossEventView::Changed]
    } else {
        Seq::empty()
    };
    &&& after.events == all.events + source + target + result + leaving
    &&& idle ==> after.bindings == all.bindings.remove(index)
    &&& !idle ==> {
        &&& after.bindings.len() == all.bindings.len()
        &&& forall|i: int|
            0 <= i < all.bindings.len() && i != index ==> after.bindings[i] == all.bindings[i]
        &&& after.bindings[index] == (BindingView {
            flow: Flow { phase: Phase::Finished, ..flow },
            result: Some(displayed(message)),
            ..binding
        })
    }
}

/// The transfer `id` is the half of the pair with this role, in its terminal.
pub open spec fn is_half_of(
    flow: Flow,
    terminal: EntityId,
    id: TransferId,
    role: Role,
) -> bool {
    if role is Download {
        terminal == flow.source && flow.source_transfer == Some(id)
    } else {
        terminal == flow.target && flow.target_transfer == Some(id)
    }
}

proof fn lemma_finished(all: CrossView, index: int, message: Seq<char>, success: bool)
    requires
        0 <= index < all.bindings.len(),
        !(all.bindings[index].flow.phase is Finished),
    ensures
        pair_ends(all, all.finished(index, message, success), index, message, success),
{
    let binding = all.bindings[index];
    let flow = binding.flow;
    let after = all.finished(index, message, success);
    let source: Seq<CrossEventView> = if flow.source_worker is Some {
        seq![CrossEventView::Cancel(flow.source, flow.source_worker->0)]
    } else {
        Seq::empty()
    };
    let target: Seq<CrossEventView> = if flow.target_worker is Some {
        seq![CrossEventView::Cancel(flow.target, flow.target_worker->0)]
    } else {
        Seq::empty()
    };
    let result = seq![
        CrossEventView::Result { terminal: flow.source, message: displayed(message), success },
        CrossEventView::Changed,
    ];
    assert(cancellations(flow) =~= source + target);
    assert(all.events + cancellations(flow) + result =~= all.events + source + target + result);
    let told = all.events + source + target + result;
    if flow.source_worker is None && flow.target_worker is None {
        let done = BindingView {
            flow: Flow { phase: Phase::Finished, ..flow },
            result: Some(displayed(message)),
            ..binding
        };
        assert(all.bindings.update(index, done).remove(index) =~= all.bindings.remove(index));
        if binding.staging is Some {
            let cleanup = CrossEventView::Cleanup(binding.staging->0);
            assert(told.push(cleanup).push(CrossEventView::Changed) =~= told + seq![
                cleanup,
                CrossEventView::Changed,
            ]);
        } else {
            assert(told.push(CrossEventView::Changed) =~= told + seq![CrossEventView::Changed]);
        }
    } else {
        assert(after.events =~= told + Seq::<CrossEventView>::empty());
    }
}

proof fn lemma_owner_is(all: CrossView, index: int, terminal: EntityId)
    requires
        all.wf(),
        0 <= index < all.bindings.len(),
        all.bindings[index].flow.source == terminal || all.bindings[index].flow.target == terminal,
    ensures
        all.owner(terminal) == index,
{
    lemma_owner(all, terminal, 0, index);
    lemma_owner_bounds(all, terminal, 0);
    lemma_owner_owns(all, terminal, 0);
    assert(owns(all.bindings[index], terminal));
    assert(owns(all.bindings[all.owner(terminal)], terminal));
}

proof fn lemma_owner_owns(all: CrossView, terminal: EntityId, from: int)
    requires
        0 <= from <= all.bindings.len(),
    ensures
        all.owner_from(terminal, from) < all.bindings.len() ==> owns(
            all.bindings[all.owner_from(terminal, from)],
            terminal,
        ),
        forall|i: int|
            from <= i < all.owner_from(terminal, from) && i < all.bindings.len() ==> !owns(
                #[trigger] all.bindings[i],
                terminal,
            ),
    decreases all.bindings.len() - from,
{
    if from < all.bindings.len() && !owns(all.bindings[from], terminal) {
        lemma_owner_owns(all, terminal, from + 1);
    }
}

/// A half that does not complete fails its pair: the source shows a result
/// without success, and the workers are told to stop.
pub proof fn law_failed_halves_fail_their_pair(
    all: CrossView,
    index: int,
    terminal: EntityId,
    id: TransferId,
    role: Role,
    outcome: TransferOutcomeView,
    committed_paths: Seq<Seq<u8>>,
    now: Instant,
)
    requires
        all.wf(),
        0 <= index < all.bindings.len(),
        is_half_of(all.bindings[index].flow, terminal, id, role),
        !(all.bindings[index].flow.phase is Finished),
        !(outcome is Completed),
    ensures
        ({
            let event = TransferEventView::Finished { id, role, outcome, committed_paths };
            let (after, owned) = all.on_event(terminal, event, now);
            let result = CrossEventView::Result {
                terminal: all.bindings[index].flow.source,
                message: displayed("Cross-terminal transfer: "@ + outcome_name(outcome)),
                success: false,
            };
            &&& owned
            &&& pair_ends(
                all,
                after,
                index,
                "Cross-terminal transfer: "@ + outcome_name(outcome),
                false,
            )
            &&& exists|k: int|
                all.events.len() <= k < after.events.len() && #[trigger] after.events[k] == result
            &&& forall|k: int|
                all.events.len() <= k < after.events.len() ==> (
                #[trigger] after.events[k] matches CrossEventView::Result { success, .. }
                    ==> !success)
        }),
{
    lemma_owner_is(all, index, terminal);
    let message = "Cross-terminal transfer: "@ + outcome_name(outcome);
    lemma_finished(all, index, message, false);
    let event = TransferEventView::Finished { id, role, outcome, committed_paths };
    let after = all.on_event(terminal, event, now).0;
    assert(after == all.finished(index, message, false));
    let k = all.events.len() + cancellations(all.bindings[index].flow).len();
    lemma_result_at(all, index, message, false);
    assert(after.events[k as int] == CrossEventView::Result {
        terminal: all.bindings[index].flow.source,
        message: displayed(message),
        success: false,
    });
}

proof fn lemma_result_at(all: CrossView, index: int, message: Seq<char>, success: bool)
    requires
        0 <= index < all.bindings.len(),
        !(all.bindings[index].flow.phase is Finished),
    ensures
        ({
            let after = all.finished(index, message, success);
            let k = all.events.len() + cancellations(all.bindings[index].flow).len();
            &&& k < after.events.len()
            &&& after.events[k as int] == CrossEventView::Result {
                terminal: all.bindings[index].flow.source,
                message: displayed(message),
                success,
            }
            &&& after.events.len() >= all.events.len()
            &&& after.events.take(all.events.len() as int) == all.events
            &&& forall|i: int|
                all.events.len() <= i < after.events.len() && i != k ==> !(
                #[trigger] after.events[i] is Result)
        }),
{
    let flow = all.bindings[index].flow;
    let after = all.finished(index, message, success);
    let cancels = cancellations(flow);
    let result = seq![
        CrossEventView::Result { terminal: flow.source, message: displayed(message), success },
        CrossEventView::Changed,
    ];
    let told = all.events + cancels + result;
    let k = (all.events.len() + cancels.len()) as int;
    assert(told[k] == result[0]);
    assert(told[k + 1] == result[1]);
    assert forall|i: int| all.events.len() <= i < k implies !(#[trigger] told[i] is Result) by {
        assert(told[i] == cancels[i - all.events.len()]);
    }
    assert(after.events.len() >= told.len());
    assert forall|i: int| 0 <= i < told.len() implies #[trigger] after.events[i] == told[i] by {}
    assert(after.events.take(all.events.len() as int) =~= all.events);
}

/// Only a completed upload of the forwarded files makes a pair a success: a
/// result with success is added by no other event, and only while the pair
/// forwards.
#[verifier::rlimit(40)]
#[verifier::spinoff_prover]
pub proof fn law_only_completed_forwarding_succeeds(
    all: CrossView,
    terminal: EntityId,
    event: TransferEventView,
    now: Instant,
    at: int,
)
    requires
        all.wf(),
        all.events.len() <= at < all.on_event(terminal, event, now).0.events.len(),
        all.on_event(terminal, event, now).0.events[at] matches CrossEventView::Result {
            success,
            ..
        } && success,
    ensures
        event matches TransferEventView::Finished { id, role, outcome, .. } && role is Upload
            && outcome is Completed && exists|index: int|
            {
                &&& 0 <= index < all.bindings.len()
                &&& (#[trigger] all.bindings[index]).flow.target == terminal
                &&& all.bindings[index].flow.target_transfer == Some(id)
                &&& all.bindings[index].flow.phase is Forwarding
            },
{
    lemma_owner_bounds(all, terminal, 0);
    let index = all.owner(terminal);
    let after = all.on_event(terminal, event, now).0;
    if index < all.bindings.len() {
        let binding = all.bindings[index];
        let flow = binding.flow;
        let unexpected = "Unexpected transfer in a reserved terminal"@;
        match event {
            TransferEventView::Requested { id, role } => {
                if !flow.spec_matches(terminal, id, role) && !(flow.phase is Finished) {
                    let warned = all.emitting(CrossEventView::Cancel(terminal, id));
                    lemma_result_at(warned, index, unexpected, false);
                }
            },
            TransferEventView::Finished { id, role, outcome, .. } => {
                if flow.spec_matches(terminal, id, role) && !(flow.phase is Finished) {
                    lemma_result_at(
                        all,
                        index,
                        "Cross-terminal transfer: "@ + outcome_name(outcome),
                        false,
                    );
                    lemma_result_at(all, index, "Source returned no valid staged files"@, false);
                    assert(all.bindings[index] == binding);
                }
            },
            _ => {},
        }
    }
}

/// When the target has sent everything, the pair is a success, and the result
/// names the target and how many files it did not want.
pub proof fn law_completed_forwarding_succeeds(
    all: CrossView,
    index: int,
    terminal: EntityId,
    id: TransferId,
    committed_paths: Seq<Seq<u8>>,
    now: Instant,
)
    requires
        all.wf(),
        0 <= index < all.bindings.len(),
        is_half_of(all.bindings[index].flow, terminal, id, Role::Upload),
        all.bindings[index].flow.phase is Forwarding,
    ensures
        ({
            let event = TransferEventView::Finished {
                id,
                role: Role::Upload,
                outcome: TransferOutcomeView::Completed,
                committed_paths,
            };
            let binding = all.bindings[index];
            pair_ends(
                all,
                all.on_event(terminal, event, now).0,
                index,
                "Transfer to "@ + binding.target_title + " complete: "@ + decimal(
                    binding.flow.skipped as nat,
                ) + " skipped"@,
                true,
            )
        }),
{
    lemma_owner_is(all, index, terminal);
    let binding = all.bindings[index];
    lemma_finished(
        all,
        index,
        "Transfer to "@ + binding.target_title + " complete: "@ + decimal(
            binding.flow.skipped as nat,
        ) + " skipped"@,
        true,
    );
}

/// When the source has received everything, the staged files are the ones that
/// its transfer committed, and the target is prepared; where they are not all
/// in the staging directory, the pair fails.
pub proof fn law_received_files_are_forwarded(
    all: CrossView,
    index: int,
    terminal: EntityId,
    id: TransferId,
    committed_paths: Seq<Seq<u8>>,
    now: Instant,
)
    requires
        all.wf(),
        0 <= index < all.bindings.len(),
        is_half_of(all.bindings[index].flow, terminal, id, Role::Download),
        all.bindings[index].flow.phase is Receiving,
    ensures
        ({
            let event = TransferEventView::Finished {
                id,
                role: Role::Download,
                outcome: TransferOutcomeView::Completed,
                committed_paths,
            };
            let after = all.on_event(terminal, event, now).0;
            let binding = all.bindings[index];
            if binding.staging matches Some(directory) && staged(directory, committed_paths) {
                &&& after.events == all.events + seq![
                    CrossEventView::PrepareTarget(binding.id),
                    CrossEventView::Changed,
                ]
                &&& after.bindings.len() == all.bindings.len()
                &&& forall|i: int|
                    0 <= i < all.bindings.len() && i != index ==> after.bindings[i]
                        == all.bindings[i]
                &&& after.bindings[index] == (BindingView {
                    paths: committed_paths,
                    flow: Flow { phase: Phase::PreparingTarget, ..binding.flow },
                    deadline: (now + CHOICE_TIMEOUT) as u64,
                    ..binding
                })
            } else {
                pair_ends(all, after, index, "Source returned no valid staged files"@, false)
            }
        }),
{
    lemma_owner_is(all, index, terminal);
    let binding = all.bindings[index];
    lemma_finished(all, index, "Source returned no valid staged files"@, false);
    assert(all.events.push(CrossEventView::PrepareTarget(binding.id)).push(CrossEventView::Changed)
        =~= all.events + seq![
        CrossEventView::PrepareTarget(binding.id),
        CrossEventView::Changed,
    ]);
}

/// The download that the source was waited for becomes the first half of the
/// pair, and it receives at once where the staging directory exists.
pub proof fn law_awaited_downloads_become_the_first_half(
    all: CrossView,
    index: int,
    id: TransferId,
    now: Instant,
)
    requires
        all.wf(),
        0 <= index < all.bindings.len(),
        all.bindings[index].flow.phase is AwaitingSource,
        all.bindings[index].flow.source_transfer is None,
    ensures
        ({
            let binding = all.bindings[index];
            let event = TransferEventView::Requested { id, role: Role::Download };
            let (after, owned) = all.on_event(binding.flow.source, event, now);
            &&& owned
            &&& after.bindings.len() == all.bindings.len()
            &&& forall|i: int|
                0 <= i < all.bindings.len() && i != index ==> after.bindings[i] == all.bindings[i]
            &&& after.bindings[index] == (BindingView {
                flow: Flow {
                    source_transfer: Some(id),
                    source_worker: Some(id),
                    phase: Phase::Receiving,
                    ..binding.flow
                },
                deadline: (now + CHOICE_TIMEOUT) as u64,
                ..binding
            })
            &&& after.events == all.events + (if binding.staging is Some {
                seq![CrossEventView::Receive(binding.id), CrossEventView::Changed]
            } else {
                seq![CrossEventView::Changed]
            })
        }),
{
    let binding = all.bindings[index];
    lemma_owner_is(all, index, binding.flow.source);
    assert(all.events.push(CrossEventView::Receive(binding.id)).push(CrossEventView::Changed)
        =~= all.events + seq![CrossEventView::Receive(binding.id), CrossEventView::Changed]);
    assert(all.events.push(CrossEventView::Changed) =~= all.events + seq![
        CrossEventView::Changed,
    ]);
}

/// The upload that the target was waited for becomes the second half of the
/// pair, and gets the staged files.
pub proof fn law_awaited_uploads_become_the_second_half(
    all: CrossView,
    index: int,
    id: TransferId,
    now: Instant,
)
    requires
        all.wf(),
        0 <= index < all.bindings.len(),
        all.bindings[index].flow.phase is AwaitingTarget,
        all.bindings[index].flow.target_transfer is None,
    ensures
        ({
            let binding = all.bindings[index];
            let event = TransferEventView::Requested { id, role: Role::Upload };
            let (after, owned) = all.on_event(binding.flow.target, event, now);
            &&& owned
            &&& after.bindings.len() == all.bindings.len()
            &&& forall|i: int|
                0 <= i < all.bindings.len() && i != index ==> after.bindings[i] == all.bindings[i]
            &&& after.bindings[index] == (BindingView {
                flow: Flow {
                    target_transfer: Some(id),
                    target_worker: Some(id),
                    phase: Phase::Forwarding,
                    ..binding.flow
                },
                ..binding
            })
            &&& after.events == all.events + seq![
                CrossEventView::UploadRequested(binding.id, id),
                CrossEventView::Changed,
            ]
        }),
{
    let binding = all.bindings[index];
    lemma_owner_is(all, index, binding.flow.target);
    assert(all.events.push(CrossEventView::UploadRequested(binding.id, id)).push(
        CrossEventView::Changed,
    ) =~= all.events + seq![
        CrossEventView::UploadRequested(binding.id, id),
        CrossEventView::Changed,
    ]);
}

/// Any other transfer in a terminal of a pair is cancelled, and fails the pair.
pub proof fn law_unexpected_transfers_fail_the_pair(
    all: CrossView,
    index: int,
    terminal: EntityId,
    id: TransferId,
    role: Role,
    now: Instant,
)
    requires
        all.wf(),
        0 <= index < all.bindings.len(),
        all.bindings[index].flow.source == terminal || all.bindings[index].flow.target == terminal,
        !is_half_of(all.bindings[index].flow, terminal, id, role),
        !(role is Download && terminal == all.bindings[index].flow.source
            && all.bindings[index].flow.phase is AwaitingSource),
        !(role is Upload && terminal == all.bindings[index].flow.target
            && all.bindings[index].flow.phase is AwaitingTarget),
    ensures
        ({
            let event = TransferEventView::Requested { id, role };
            let (after, owned) = all.on_event(terminal, event, now);
            let warned = CrossView {
                events: all.events.push(CrossEventView::Cancel(terminal, id)),
                ..all
            };
            &&& owned
            &&& after.events.len() > all.events.len()
            &&& after.events[all.events.len() as int] == CrossEventView::Cancel(terminal, id)
            &&& !(all.bindings[index].flow.phase is Finished) ==> pair_ends(
                warned,
                CrossView { events: after.events.drop_last(), ..after },
                index,
                "Unexpected transfer in a reserved terminal"@,
                false,
            )
            &&& all.bindings[index].flow.phase is Finished ==> after.bindings == all.bindings
        }),
{
    lemma_owner_is(all, index, terminal);
    let event = TransferEventView::Requested { id, role };
    let after = all.on_event(terminal, event, now).0;
    let warned = CrossView {
        events: all.events.push(CrossEventView::Cancel(terminal, id)),
        ..all
    };
    let message = "Unexpected transfer in a reserved terminal"@;
    let ended = warned.finished(index, message, false);
    assert(after == ended.emitting(CrossEventView::Changed));
    assert(after.events.drop_last() =~= ended.events);
    if !(all.bindings[index].flow.phase is Finished) {
        lemma_finished(warned, index, message, false);
        lemma_result_at(warned, index, message, false);
        assert(ended.events.take(warned.events.len() as int)[all.events.len() as int]
            == CrossEventView::Cancel(terminal, id));
    }
}

/// Each file that the target does not want is counted, once; nothing else of
/// the pairs changes with the end of a file.
pub proof fn law_skipped_files_are_counted(
    all: CrossView,
    index: int,
    terminal: EntityId,
    id: TransferId,
    role: Role,
    name: Seq<char>,
    bytes: u64,
    outcome: FileOutcomeView,
    path: Option<Seq<u8>>,
    now: Instant,
)
    requires
        all.wf(),
        0 <= index < all.bindings.len(),
        is_half_of(all.bindings[index].flow, terminal, id, role),
        !(all.bindings[index].flow.phase is Finished),
        all.bindings[index].flow.skipped < u64::MAX,
    ensures
        ({
            let event = TransferEventView::FileResult { id, role, name, bytes, outcome, path };
            let after = all.on_event(terminal, event, now).0;
            let binding = all.bindings[index];
            &&& after.events == all.events
            &&& after.bindings.len() == all.bindings.len()
            &&& forall|i: int|
                0 <= i < all.bindings.len() && i != index ==> after.bindings[i] == all.bindings[i]
            &&& after.bindings[index].flow.skipped == binding.flow.skipped + (if outcome is Skipped
                && role is Upload {
                1int
            } else {
                0
            })
            &&& after.bindings[index] == (BindingView {
                flow: Flow { skipped: after.bindings[index].flow.skipped, ..binding.flow },
                ..binding
            })
        }),
{
    lemma_owner_is(all, index, terminal);
}

/// Events of terminals without a pair, of transfers that are no half, and of
/// finished pairs change nothing.
pub proof fn law_foreign_events_change_nothing(
    all: CrossView,
    terminal: EntityId,
    event: TransferEventView,
    now: Instant,
)
    requires
        all.wf(),
        forall|i: int|
            0 <= i < all.bindings.len() && is_half_of(
                (#[trigger] all.bindings[i]).flow,
                terminal,
                event.id(),
                event_role(event),
            ) ==> all.bindings[i].flow.phase is Finished,
        !(event is Requested),
    ensures
        all.on_event(terminal, event, now).0 == all,
        all.on_event(terminal, event, now).1 <==> exists|i: int|
            0 <= i < all.bindings.len() && ((#[trigger] all.bindings[i]).flow.source == terminal
                || all.bindings[i].flow.target == terminal),
{
    lemma_owner_bounds(all, terminal, 0);
    lemma_owner_owns(all, terminal, 0);
    let index = all.owner(terminal);
    if index < all.bindings.len() {
        assert(owns(all.bindings[index], terminal));
        assert(all.bindings[index].flow.source == terminal || all.bindings[index].flow.target
            == terminal);
    } else {
        assert forall|i: int| 0 <= i < all.bindings.len() implies !((
        #[trigger] all.bindings[i]).flow.source == terminal || all.bindings[i].flow.target
            == terminal) by {
            assert(!owns(all.bindings[i], terminal));
        }
    }
}

/// A terminal that waits for its turn or takes part takes no input: that is
/// the target, except while `rz` is waited for in it and when the pair is over.
pub proof fn law_targets_are_shut_until_their_turn(flow: Flow, terminal: EntityId)
    ensures
        flow.spec_blocks_input(terminal) <==> terminal == flow.target && (
        flow.phase is AwaitingSource || flow.phase is Receiving || flow.phase is PreparingTarget
            || flow.phase is Forwarding),
{
}

/// A worker that lets go frees its own half and nothing else.
pub proof fn law_released_halves_are_free(flow: Flow, terminal: EntityId, id: TransferId)
    requires
        flow.source != flow.target,
    ensures
        ({
            let after = flow.released(terminal, id);
            &&& after == (Flow {
                source_worker: after.source_worker,
                target_worker: after.target_worker,
                ..flow
            })
            &&& terminal == flow.source ==> {
                &&& after.target_worker == flow.target_worker
                &&& after.source_worker is None <==> flow.source_worker is None
                    || flow.source_worker == Some(id)
                &&& after.source_worker is Some ==> after.source_worker == flow.source_worker
            }
            &&& terminal == flow.target ==> {
                &&& after.source_worker == flow.source_worker
                &&& after.target_worker is None <==> flow.target_worker is None
                    || flow.target_worker == Some(id)
                &&& after.target_worker is Some ==> after.target_worker == flow.target_worker
            }
            &&& terminal != flow.source && terminal != flow.target ==> after == flow
        }),
{
}

/// A pair can be formed exactly if transfers between terminals are enabled,
/// there is room for one more, and both terminals are different, free of any
/// pair, visible, able to transfer and idle.
pub proof fn law_pairs_join_free_terminals(
    all: CrossView,
    enabled: bool,
    source: Endpoint,
    target: Endpoint,
)
    requires
        all.wf(),
    ensures
        all.refusal(enabled, source, target) is None <==> {
            &&& enabled
            &&& all.bindings.len() < 8
            &&& source.terminal != target.terminal
            &&& forall|i: int|
                0 <= i < all.bindings.len() ==> (#[trigger] all.bindings[i]).flow.source
                    != source.terminal && all.bindings[i].flow.target != source.terminal
                    && all.bindings[i].flow.source != target.terminal
                    && all.bindings[i].flow.target != target.terminal
            &&& source.live && target.live
            &&& source.available && target.available
            &&& !source.busy && !target.busy
        },
{
    lemma_reserved(all, source.terminal);
    lemma_reserved(all, target.terminal);
    if !all.is_reserved(source.terminal) && !all.is_reserved(target.terminal) {
        assert forall|i: int| 0 <= i < all.bindings.len() implies (
        #[trigger] all.bindings[i]).flow.source != source.terminal && all.bindings[i].flow.target
            != source.terminal && all.bindings[i].flow.source != target.terminal
            && all.bindings[i].flow.target != target.terminal by {
            assert(!owns(all.bindings[i], source.terminal));
            assert(!owns(all.bindings[i], target.terminal));
        }
    }
}

proof fn lemma_reserved(all: CrossView, terminal: EntityId)
    ensures
        all.is_reserved(terminal) <==> exists|i: int|
            0 <= i < all.bindings.len() && owns(#[trigger] all.bindings[i], terminal),
{
    lemma_owner_bounds(all, terminal, 0);
    lemma_owner_owns(all, terminal, 0);
    if all.is_reserved(terminal) {
        assert(owns(all.bindings[all.owner(terminal)], terminal));
    }
}

/// The pair can go on: transfers between terminals are enabled, both terminals
/// are there, and its next part is not waited for too long.
pub open spec fn can_go_on(
    binding: BindingView,
    enabled: bool,
    live: Seq<EntityId>,
    now: Instant,
) -> bool {
    &&& enabled
    &&& live.contains(binding.flow.source)
    &&& live.contains(binding.flow.target)
    &&& binding.flow.phase is AwaitingSource || binding.flow.phase is PreparingTarget
        || binding.flow.phase is AwaitingTarget ==> now < binding.deadline
}

proof fn lemma_ticked(
    all: CrossView,
    from: int,
    enabled: bool,
    live: Seq<EntityId>,
    now: Instant,
)
    requires
        0 <= from <= all.bindings.len(),
        forall|i: int|
            0 <= i < from ==> (#[trigger] all.bindings[i]).flow.phase is Finished || can_go_on(
                all.bindings[i],
                enabled,
                live,
                now,
            ),
    ensures
        ({
            let after = all.ticked(from, enabled, live, now);
            &&& forall|i: int|
                0 <= i < after.bindings.len() ==> (#[trigger] after.bindings[i]).flow.phase
                    is Finished || can_go_on(after.bindings[i], enabled, live, now)
            &&& forall|i: int|
                0 <= i < all.bindings.len() && (i < from || (
                #[trigger] all.bindings[i]).flow.phase is Finished || can_go_on(
                    all.bindings[i],
                    enabled,
                    live,
                    now,
                )) ==> after.bindings.contains(all.bindings[i])
        }),
    decreases all.bindings.len() - from,
{
    let after = all.ticked(from, enabled, live, now);
    if from < all.bindings.len() {
        if !all.overdue(from, enabled, live, now) {
            lemma_ticked(all, from + 1, enabled, live, now);
        } else {
            let message =
                "Cross-terminal transfer ended: terminal unavailable or selection timed out"@;
            let done = all.finished(from, message, false);
            lemma_finished(all, from, message, false);
            if done.bindings.len() < all.bindings.len() {
                assert(done.bindings == all.bindings.remove(from));
                lemma_ticked(done, from, enabled, live, now);
                assert forall|i: int|
                    0 <= i < all.bindings.len() && (i < from || (
                    #[trigger] all.bindings[i]).flow.phase is Finished || can_go_on(
                        all.bindings[i],
                        enabled,
                        live,
                        now,
                    )) implies after.bindings.contains(all.bindings[i]) by {
                    if i < from {
                        assert(done.bindings[i] == all.bindings[i]);
                    } else {
                        assert(i != from);
                        assert(done.bindings[i - 1] == all.bindings[i]);
                    }
                }
            } else {
                assert forall|i: int| 0 <= i < from + 1 implies (
                #[trigger] done.bindings[i]).flow.phase is Finished || can_go_on(
                    done.bindings[i],
                    enabled,
                    live,
                    now,
                ) by {
                    if i < from {
                        assert(done.bindings[i] == all.bindings[i]);
                    }
                }
                lemma_ticked(done, from + 1, enabled, live, now);
                assert forall|i: int|
                    0 <= i < all.bindings.len() && (i < from || (
                    #[trigger] all.bindings[i]).flow.phase is Finished || can_go_on(
                        all.bindings[i],
                        enabled,
                        live,
                        now,
                    )) implies after.bindings.contains(all.bindings[i]) by {
                    assert(i != from);
                    assert(done.bindings[i] == all.bindings[i]);
                }
            }
        }
    } else {
        assert forall|i: int| 0 <= i < all.bindings.len() implies after.bindings.contains(
            #[trigger] all.bindings[i],
        ) by {
            assert(after.bindings[i] == all.bindings[i]);
        }
    }
}

/// A look at the clock finishes every pair that cannot go on, and leaves all
/// the others as they are.
pub proof fn law_only_overdue_pairs_are_ended(
    all: CrossView,
    enabled: bool,
    live: Seq<EntityId>,
    now: Instant,
    index: int,
)
    requires
        0 <= index < all.bindings.len(),
    ensures
        ({
            let after = all.ticked(0, enabled, live, now);
            &&& forall|i: int|
                0 <= i < after.bindings.len() ==> (#[trigger] after.bindings[i]).flow.phase
                    is Finished || can_go_on(after.bindings[i], enabled, live, now)
            &&& all.bindings[index].flow.phase is Finished || can_go_on(
                all.bindings[index],
                enabled,
                live,
                now,
            ) ==> after.bindings.contains(all.bindings[index])
        }),
{
    lemma_ticked(all, 0, enabled, live, now);
}

/// Cancelling a terminal fails the pair that it belongs to, and no other.
pub proof fn law_cancelled_terminals_fail_their_pair(
    all: CrossView,
    index: int,
    terminal: EntityId,
)
    requires
        all.wf(),
        0 <= index < all.bindings.len(),
        all.bindings[index].flow.source == terminal || all.bindings[index].flow.target == terminal,
        !(all.bindings[index].flow.phase is Finished),
    ensures
        pair_ends(
            all,
            all.terminal_cancelled(terminal),
            index,
            "Cross-terminal transfer cancelled"@,
            false,
        ),
{
    lemma_owner_is(all, index, terminal);
    lemma_finished(all, index, "Cross-terminal transfer cancelled"@, false);
}

proof fn lemma_pieces_extended(front: Seq<u8>, name: Seq<u8>)
    requires
        pieces(front).last().len() == 0,
        forall|i: int| 0 <= i < name.len() ==> name[i] != 0x2f,
    ensures
        pieces(front + name) == pieces(front).drop_last().push(name),
    decreases name.len(),
{
    lemma_pieces_nonempty(front);
    if name.len() == 0 {
        assert(front + name =~= front);
        assert(pieces(front).last() =~= name);
        assert(pieces(front) =~= pieces(front).drop_last().push(name));
    } else {
        let shorter = name.drop_last();
        lemma_pieces_extended(front, shorter);
        assert((front + name).drop_last() =~= front + shorter);
        let before = pieces(front + shorter);
        assert(before.drop_last() =~= pieces(front).drop_last());
        assert(before.last() == shorter);
        assert(shorter.push(name.last()) =~= name);
    }
}

proof fn lemma_components_joined(directory: Seq<u8>, name: Seq<u8>)
    requires
        directory.len() > 0,
        name.len() > 0,
        name != seq![0x2eu8],
        forall|i: int| 0 <= i < name.len() ==> name[i] != 0x2f,
    ensures
        components(joined(directory, name)) == components(directory).push(name),
{
    let path = joined(directory, name);
    let front = if directory.last() == 0x2f {
        directory
    } else {
        directory.push(0x2f)
    };
    let outer = pieces(directory);
    lemma_pieces_nonempty(directory);
    lemma_pieces_nonempty(front);
    assert(path == front + name);
    if directory.last() == 0x2f {
        lemma_pieces_nonempty(directory.drop_last());
        assert(outer.last().len() == 0);
        assert(outer.len() >= 2);
    } else {
        assert(front.drop_last() =~= directory);
        assert(pieces(front) == outer.push(Seq::<u8>::empty()));
        assert(pieces(front).drop_last() =~= outer);
    }
    lemma_pieces_extended(front, name);
    let all = pieces(path);
    assert(all == pieces(front).drop_last().push(name));
    assert(all.drop_last() =~= pieces(front).drop_last());
    assert(all.last() == name);
    assert(naming_pieces(all) == naming_pieces(pieces(front).drop_last()).push(name));
    assert(naming_pieces(pieces(front).drop_last()) == naming_pieces(outer)) by {
        if directory.last() == 0x2f {
            assert(naming_pieces(outer) == naming_pieces(outer.drop_last()));
        }
    }
    assert(path[0] == directory[0]);
    assert(all[0] == outer[0]);
    let parts = naming_pieces(outer);
    assert(seq![seq![0x2fu8]] + parts.push(name) =~= (seq![seq![0x2fu8]] + parts).push(name));
    assert(seq![seq![0x2eu8]] + parts.push(name) =~= (seq![seq![0x2eu8]] + parts).push(name));
}

/// A file lies in a directory exactly if it is the directory's path with one
/// name more: what was joined to it does, its parent and what lies deeper does
/// not.
pub proof fn law_staged_files_lie_in_their_directory(
    directory: Seq<u8>,
    name: Seq<u8>,
    inner: Seq<u8>,
)
    requires
        directory.len() > 0,
        name.len() > 0,
        inner.len() > 0,
        name != seq![0x2eu8],
        inner != seq![0x2eu8],
        forall|i: int| 0 <= i < name.len() ==> name[i] != 0x2f,
        forall|i: int| 0 <= i < inner.len() ==> inner[i] != 0x2f,
    ensures
        lies_in(directory, joined(directory, name)) <==> name != seq![0x2eu8, 0x2eu8],
        !lies_in(directory, directory),
        !lies_in(directory, joined(joined(directory, name), inner)),
{
    lemma_components_joined(directory, name);
    let path = joined(directory, name);
    lemma_components_joined(path, inner);
    let outer = components(directory);
    assert(outer.push(name).drop_last() =~= outer);
    assert(outer.push(name).last() == name);
    if name == seq![0x2fu8] {
        assert(name[0] == 0x2f);
    }
}

/// Files count as staged exactly if there are some, not too many, and each lies
/// in the staging directory; a path elsewhere spoils all.
pub proof fn law_one_foreign_path_spoils_all(
    directory: Seq<u8>,
    paths: Seq<Seq<u8>>,
    index: int,
)
    ensures
        paths.len() == 0 ==> !staged(directory, paths),
        paths.len() > 128 ==> !staged(directory, paths),
        total_len(paths) > 65_536 ==> !staged(directory, paths),
        0 <= index < paths.len() && !lies_in(directory, paths[index]) ==> !staged(directory, paths),
        0 < paths.len() <= 128 && total_len(paths) <= 65_536 && (forall|i: int|
            0 <= i < paths.len() ==> lies_in(directory, #[trigger] paths[i])) ==> staged(
            directory,
            paths,
        ),
{
}

/// What is shown of a pair names the terminal that is waited for or served, and
/// of one that is over its result; a terminal without a pair shows nothing.
pub proof fn law_status_names_the_other_side(all: CrossView, index: int, terminal: EntityId)
    requires
        all.wf(),
        0 <= index < all.bindings.len(),
        all.bindings[index].flow.source == terminal || all.bindings[index].flow.target == terminal,
    ensures
        ({
            let binding = all.bindings[index];
            let shown = all.status(terminal);
            &&& shown is Some
            &&& binding.flow.phase is AwaitingSource ==> shown->0 == "Waiting for source: "@
                + binding.source_title
            &&& binding.flow.phase is Receiving ==> shown->0 == "Receiving for "@
                + binding.target_title
            &&& binding.flow.phase is PreparingTarget ==> shown->0 == "Preparing upload to "@
                + binding.target_title
            &&& binding.flow.phase is AwaitingTarget ==> shown->0 == "Waiting for rz in "@
                + binding.target_title
            &&& binding.flow.phase is Forwarding ==> shown->0 == "Forwarding to "@
                + binding.target_title
            &&& binding.flow.phase is Finished && binding.result is Some ==> shown
                == binding.result
        }),
{
    lemma_owner_is(all, index, terminal);
}

proof fn lemma_index(all: CrossView, id: CrossTransferId, from: int)
    requires
        0 <= from <= all.bindings.len(),
    ensures
        from <= all.index_from(id, from) <= all.bindings.len(),
        all.index_from(id, from) < all.bindings.len() ==> all.bindings[all.index_from(
            id,
            from,
        )].id == id,
        forall|i: int|
            from <= i < all.index_from(id, from) ==> (#[trigger] all.bindings[i]).id != id,
    decreases all.bindings.len() - from,
{
    if from < all.bindings.len() && all.bindings[from].id != id {
        lemma_index(all, id, from + 1);
    }
}

/// A pair is found by its identity, the first that has it, and only if there is
/// one.
pub proof fn law_pairs_are_found_by_identity(all: CrossView, id: CrossTransferId)
    ensures
        ({
            let index = all.index_of(id);
            &&& 0 <= index <= all.bindings.len()
            &&& index < all.bindings.len() ==> all.bindings[index].id == id
            &&& forall|i: int| 0 <= i < index ==> (#[trigger] all.bindings[i]).id != id
        }),
{
    lemma_index(all, id, 0);
}

/// A new pair waits for its source and has no half yet.
pub proof fn law_new_pairs_wait_for_their_source(source: EntityId, target: EntityId)
    ensures
        ({
            let flow = Flow::spec_new(source, target);
            &&& flow.source == source
            &&& flow.target == target
            &&& flow.phase is AwaitingSource
            &&& flow.source_transfer is None && flow.target_transfer is None
            &&& flow.source_worker is None && flow.target_worker is None
            &&& flow.skipped == 0
            &&& flow.spec_blocks_input(target)
            &&& source != target ==> !flow.spec_blocks_input(source)
            &&& !flow.awaits_target()
        }),
{
}

/// The target may begin exactly while it is prepared or waited for, and a pair
/// leaves exactly when it is over and no worker needs its files.
pub proof fn law_pairs_leave_when_nobody_needs_them(flow: Flow)
    ensures
        flow.awaits_target() <==> flow.phase is PreparingTarget || flow.phase is AwaitingTarget,
        flow.spec_can_cleanup() <==> flow.phase is Finished && flow.source_worker is None
            && flow.target_worker is None,
{
}

/// A terminal still serves a transfer exactly if transfers are possible in it
/// and that one is its own.
pub proof fn law_terminals_serve_their_own_transfer(state: TerminalState, transfer: TransferId)
    ensures
        state.spec_serves(transfer) <==> state.available && state.active == Some(transfer),
{
}

} // verus!
