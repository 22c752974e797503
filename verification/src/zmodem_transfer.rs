//! Per-terminal metadata. Business file I/O belongs exclusively to the protocol worker.

use vstd::prelude::*;
use vstd::string::*;

use crate::status::{ends_with, starts_with};
use crate::text::{concat, decimal, is_control, is_control_char, push_decimal, to_chars};
use crate::zmodem_runtime::{
    FileOutcome, FileOutcomeView, Role, TransferEvent, TransferEventView, TransferId,
    TransferOutcome, TransferOutcomeView, MAX_FILES,
};

verus! {

/// Longest text that is displayed, in characters.
pub const MAX_DISPLAY_TEXT: usize = 160;

/// What is displayed for text: control characters as spaces, cut to a bounded
/// length.
pub open spec fn displayed(text: Seq<char>) -> Seq<char> {
    Seq::new(
        if text.len() <= MAX_DISPLAY_TEXT {
            text.len()
        } else {
            MAX_DISPLAY_TEXT as nat
        },
        |i: int|
            if is_control(text[i]) {
                ' '
            } else {
                text[i]
            },
    )
}

/// Text that is safe to display.
pub fn display_text(text: &str) -> (r: String)
    ensures
        r@ == displayed(text@),
{
    let chars: Vec<char> = to_chars(text);
    let mut out = String::new();
    let mut index: usize = 0;
    while index < chars.len() && index < MAX_DISPLAY_TEXT
        invariant
            index <= chars.len(),
            index <= MAX_DISPLAY_TEXT,
            chars@ == text@,
            out@ == displayed(text@).take(index as int),
        decreases chars.len() - index,
    {
        out.push(if is_control_char(chars[index]) {
            ' '
        } else {
            chars[index]
        });
        index = index + 1;
        assert(out@ =~= displayed(text@).take(index as int));
    }
    assert(out@ =~= displayed(text@));
    out
}

/// Displayed text is bounded and holds no control character.
pub proof fn law_displayed_text_is_safe(text: Seq<char>, index: int)
    requires
        0 <= index < displayed(text).len(),
    ensures
        displayed(text).len() <= MAX_DISPLAY_TEXT,
        !is_control(displayed(text)[index]),
{
}

/// How far a transfer has come.
#[derive(Clone, Copy, Debug, Eq, PartialEq, Structural)]
pub enum TransferPhase {
    SelectingExplicitUpload,
    SelectingRequested,
    Running,
    Cancelling,
}

/// What is known of a file.
#[derive(Debug)]
pub struct FileStatus {
    pub name: String,
    pub bytes: u64,
    pub total: Option<u64>,
    pub outcome: Option<FileOutcome>,
}

/// What is known of a file, over plain values.
pub ghost struct FileStatusView {
    pub name: Seq<char>,
    pub bytes: u64,
    pub total: Option<u64>,
    pub outcome: Option<FileOutcomeView>,
}

impl View for FileStatus {
    type V = FileStatusView;

    open spec fn view(&self) -> FileStatusView {
        FileStatusView {
            name: self.name@,
            bytes: self.bytes,
            total: self.total,
            outcome: match self.outcome {
                Some(outcome) => Some(outcome@),
                None => None,
            },
        }
    }
}

impl Clone for FileStatus {
    fn clone(&self) -> (r: Self)
        ensures
            r@ == self@,
    {
        FileStatus {
            name: self.name.clone(),
            bytes: self.bytes,
            total: self.total,
            outcome: match &self.outcome {
                Some(outcome) => Some(outcome.clone()),
                None => None,
            },
        }
    }
}

/// The view of file statuses.
pub open spec fn files_view(files: Seq<FileStatus>) -> Seq<FileStatusView> {
    files.map_values(|file: FileStatus| file@)
}

/// The transfer of a terminal.
#[derive(Debug)]
pub struct ActiveTransfer {
    pub id: TransferId,
    pub role: Role,
    pub phase: TransferPhase,
    pub current_file: Option<FileStatus>,
    pub files: Vec<FileStatus>,
}

/// The transfer of a terminal, over plain values.
pub ghost struct ActiveTransferView {
    pub id: TransferId,
    pub role: Role,
    pub phase: TransferPhase,
    pub current_file: Option<FileStatusView>,
    pub files: Seq<FileStatusView>,
}

impl View for ActiveTransfer {
    type V = ActiveTransferView;

    open spec fn view(&self) -> ActiveTransferView {
        ActiveTransferView {
            id: self.id,
            role: self.role,
            phase: self.phase,
            current_file: match self.current_file {
                Some(file) => Some(file@),
                None => None,
            },
            files: files_view(self.files@),
        }
    }
}

/// The last transfer of a terminal.
#[derive(Debug)]
pub struct TransferSummary {
    pub id: TransferId,
    pub role: Role,
    pub outcome: TransferOutcome,
    pub files: Vec<FileStatus>,
}

/// The last transfer of a terminal, over plain values.
pub ghost struct SummaryView {
    pub id: TransferId,
    pub role: Role,
    pub outcome: TransferOutcomeView,
    pub files: Seq<FileStatusView>,
}

impl View for TransferSummary {
    type V = SummaryView;

    open spec fn view(&self) -> SummaryView {
        SummaryView {
            id: self.id,
            role: self.role,
            outcome: self.outcome@,
            files: files_view(self.files@),
        }
    }
}

/// The transfers of a terminal: at most one at a time.
pub struct ZmodemTransfer {
    pub active: Option<ActiveTransfer>,
    pub last: Option<TransferSummary>,
    newest_id: TransferId,
}

/// The transfers of a terminal, over plain values.
pub ghost struct TransferView {
    pub active: Option<ActiveTransferView>,
    pub last: Option<SummaryView>,
    /// The newest transfer that was begun; older ones are stale.
    pub newest_id: TransferId,
}

impl View for ZmodemTransfer {
    type V = TransferView;

    closed spec fn view(&self) -> TransferView {
        TransferView {
            active: match self.active {
                Some(active) => Some(active@),
                None => None,
            },
            last: match self.last {
                Some(last) => Some(last@),
                None => None,
            },
            newest_id: self.newest_id,
        }
    }
}

impl ActiveTransferView {
    /// The transfer after the result of a file; the oldest results make room.
    pub open spec fn with_result(self, file: FileStatusView) -> ActiveTransferView {
        ActiveTransferView {
            current_file: Some(file),
            files: if self.files.len() == MAX_FILES {
                self.files.skip(1).push(file)
            } else {
                self.files.push(file)
            },
            ..self
        }
    }
}

/// The role of the transfer that an event belongs to.
pub open spec fn event_role(event: TransferEventView) -> Role {
    match event {
        TransferEventView::Requested { role, .. } => role,
        TransferEventView::FileStarted { role, .. } => role,
        TransferEventView::Progress { role, .. } => role,
        TransferEventView::FileResult { role, .. } => role,
        TransferEventView::Finished { role, .. } => role,
    }
}

impl TransferView {
    /// A terminal without a transfer.
    pub open spec fn new() -> TransferView {
        TransferView { active: None, last: None, newest_id: 0 }
    }

    /// The terminal with a transfer that has begun.
    pub open spec fn begun(self, id: TransferId, role: Role, phase: TransferPhase) -> TransferView {
        TransferView {
            active: Some(
                ActiveTransferView { id, role, phase, current_file: None, files: Seq::empty() },
            ),
            last: None,
            newest_id: id,
        }
    }

    /// The transfer `id` is the active one.
    pub open spec fn is_active(self, id: TransferId) -> bool {
        self.active matches Some(active) && active.id == id
    }

    /// The terminal once its transfer `id` is over.
    pub open spec fn finished(self, id: TransferId, outcome: TransferOutcomeView) -> TransferView {
        if self.is_active(id) {
            TransferView {
                active: None,
                last: Some(
                    SummaryView {
                        id,
                        role: (self.active->0).role,
                        outcome,
                        files: (self.active->0).files,
                    },
                ),
                ..self
            }
        } else {
            self
        }
    }

    /// The terminal with a cancelled transfer `id`: one that never had a worker
    /// is over at once.
    pub open spec fn cancelled(self, id: TransferId) -> TransferView {
        if !self.is_active(id) {
            self
        } else if (self.active->0).phase is SelectingExplicitUpload {
            self.finished(id, TransferOutcomeView::Cancelled)
        } else {
            TransferView {
                active: Some(
                    ActiveTransferView { phase: TransferPhase::Cancelling, ..self.active->0 },
                ),
                ..self
            }
        }
    }

    /// The event belongs to the active transfer.
    pub open spec fn concerns(self, event: TransferEventView) -> bool {
        !(event is Requested) && (self.active matches Some(active) && active.id == event.id()
            && active.role == event_role(event))
    }

    /// The terminal after an event of its transfer.
    pub open spec fn applied(self, event: TransferEventView) -> TransferView {
        if !self.concerns(event) {
            self
        } else {
            let active = self.active->0;
            match event {
                TransferEventView::Requested { .. } => self,
                TransferEventView::FileStarted { name, size, .. } => TransferView {
                    active: Some(
                        ActiveTransferView {
                            current_file: Some(
                                FileStatusView {
                                    name: displayed(name),
                                    bytes: 0,
                                    total: size,
                                    outcome: None,
                                },
                            ),
                            ..active
                        },
                    ),
                    ..self
                },
                TransferEventView::Progress { name, bytes, total, .. } => TransferView {
                    active: Some(
                        ActiveTransferView {
                            current_file: Some(
                                FileStatusView {
                                    name: displayed(name),
                                    bytes,
                                    total,
                                    outcome: None,
                                },
                            ),
                            ..active
                        },
                    ),
                    ..self
                },
                TransferEventView::FileResult { name, bytes, outcome, .. } => TransferView {
                    active: Some(
                        active.with_result(
                            FileStatusView {
                                name: displayed(name),
                                bytes,
                                total: match active.current_file {
                                    Some(file) => file.total,
                                    None => None,
                                },
                                outcome: Some(outcome),
                            },
                        ),
                    ),
                    ..self
                },
                TransferEventView::Finished { id, outcome, .. } => self.finished(id, outcome),
            }
        }
    }
}

impl Default for ZmodemTransfer {
    fn default() -> (r: Self)
        ensures
            r@ == TransferView::new(),
    {
        ZmodemTransfer { active: None, last: None, newest_id: 0 }
    }
}

impl ZmodemTransfer {
    /// Begins an upload that the user asked for, unless a transfer is active.
    pub fn begin_explicit_upload(&mut self, id: TransferId) -> (r: bool)
        ensures
            r == (old(self)@.active is None && id > old(self)@.newest_id),
            final(self)@ == if r {
                old(self)@.begun(id, Role::Upload, TransferPhase::SelectingExplicitUpload)
            } else {
                old(self)@
            },
    {
        if self.active.is_some() || id <= self.newest_id {
            return false;
        }
        self.begin(id, Role::Upload, TransferPhase::SelectingExplicitUpload);
        true
    }

    fn begin(&mut self, id: TransferId, role: Role, phase: TransferPhase)
        ensures
            final(self)@ == old(self)@.begun(id, role, phase),
    {
        self.newest_id = id;
        self.last = None;
        let active = ActiveTransfer { id, role, phase, current_file: None, files: Vec::new() };
        assert(active@.files =~= Seq::<FileStatusView>::empty());
        self.active = Some(active);
    }

    /// Returns true only for a new request that needs a picker.
    pub fn request(&mut self, id: TransferId, role: Role) -> (r: bool)
        ensures
            r == (id > old(self)@.newest_id && (old(self)@.active matches Some(active)
                ==> active.phase is SelectingExplicitUpload)),
            final(self)@ == if r {
                old(self)@.begun(id, role, TransferPhase::SelectingRequested)
            } else {
                old(self)@
            },
    {
        if id <= self.newest_id {
            return false;
        }
        if let Some(active) = &self.active {
            if active.phase != TransferPhase::SelectingExplicitUpload {
                return false;
            }
        }
        self.begin(id, role, TransferPhase::SelectingRequested);
        true
    }

    /// Whether the picker of this transfer is still open.
    pub fn is_selecting(&self, id: TransferId, role: Role, explicit: bool) -> (r: bool)
        ensures
            r == (self@.active matches Some(active) && active.id == id && active.role == role
                && active.phase == if explicit {
                TransferPhase::SelectingExplicitUpload
            } else {
                TransferPhase::SelectingRequested
            }),
    {
        let phase = if explicit {
            TransferPhase::SelectingExplicitUpload
        } else {
            TransferPhase::SelectingRequested
        };
        match &self.active {
            Some(active) => active.id == id && active.role == role && active.phase == phase,
            None => false,
        }
    }

    /// Starts the active transfer.
    pub fn start(&mut self, id: TransferId)
        ensures
            final(self)@ == if old(self)@.is_active(id) {
                TransferView {
                    active: Some(
                        ActiveTransferView {
                            phase: TransferPhase::Running,
                            ..old(self)@.active->0
                        },
                    ),
                    ..old(self)@
                }
            } else {
                old(self)@
            },
    {
        if let Some(active) = &mut self.active {
            if active.id == id {
                active.phase = TransferPhase::Running;
            }
        }
    }

    /// Cancels the active transfer.
    pub fn cancel(&mut self, id: TransferId) -> (r: bool)
        ensures
            r == old(self)@.is_active(id),
            final(self)@ == old(self)@.cancelled(id),
    {
        let unstarted: bool = match &self.active {
            Some(active) => {
                if active.id != id {
                    return false;
                }
                active.phase == TransferPhase::SelectingExplicitUpload
            },
            None => return false,
        };
        if unstarted {
            self.finish(id, TransferOutcome::Cancelled);
        } else if let Some(active) = &mut self.active {
            active.phase = TransferPhase::Cancelling;
        }
        true
    }

    /// Applies ordered runtime metadata, rejecting stale or foreign events.
    pub fn apply(&mut self, event: &TransferEvent) -> (r: bool)
        ensures
            r == old(self)@.concerns(event@),
            final(self)@ == old(self)@.applied(event@),
    {
        let (id, role): (TransferId, Role) = match event {
            TransferEvent::Requested { .. } => return false,
            TransferEvent::FileStarted { id, role, .. } => (*id, *role),
            TransferEvent::Progress { id, role, .. } => (*id, *role),
            TransferEvent::FileResult { id, role, .. } => (*id, *role),
            TransferEvent::Finished { id, role, .. } => (*id, *role),
        };
        if let TransferEvent::Finished { outcome, .. } = event {
            let concerned: bool = match &self.active {
                Some(active) => active.id == id && active.role == role,
                None => false,
            };
            if concerned {
                self.finish(id, outcome.clone());
            }
            return concerned;
        }
        let active = match &mut self.active {
            Some(active) => active,
            None => return false,
        };
        if active.id != id || active.role != role {
            return false;
        }
        match event {
            TransferEvent::FileStarted { name, size, .. } => {
                active.current_file = Some(
                    FileStatus {
                        name: display_text(name.as_str()),
                        bytes: 0,
                        total: *size,
                        outcome: None,
                    },
                );
            },
            TransferEvent::Progress { name, bytes, total, .. } => {
                active.current_file = Some(
                    FileStatus {
                        name: display_text(name.as_str()),
                        bytes: *bytes,
                        total: *total,
                        outcome: None,
                    },
                );
            },
            TransferEvent::FileResult { name, bytes, outcome, .. } => {
                let total: Option<u64> = match &active.current_file {
                    Some(file) => file.total,
                    None => None,
                };
                let file = FileStatus {
                    name: display_text(name.as_str()),
                    bytes: *bytes,
                    total,
                    outcome: Some(outcome.clone()),
                };
                active.current_file = Some(file.clone());
                let ghost before = files_view(active.files@);
                let ghost view = file@;
                if active.files.len() == MAX_FILES {
                    let _ = active.files.remove(0);
                    assert(files_view(active.files@) =~= before.skip(1));
                }
                let ghost kept = files_view(active.files@);
                active.files.push(file);
                assert(files_view(active.files@) =~= kept.push(view));
            },
            _ => {},
        }
        true
    }

    /// Ends the active transfer.
    pub fn finish(&mut self, id: TransferId, outcome: TransferOutcome)
        ensures
            final(self)@ == old(self)@.finished(id, outcome@),
    {
        match &self.active {
            Some(active) => {
                if active.id != id {
                    return;
                }
            },
            None => return,
        }
        if let Some(active) = self.active.take() {
            self.last = Some(
                TransferSummary { id, role: active.role, outcome, files: active.files },
            );
        }
    }

    /// What is shown of the terminal's transfer.
    pub fn status_text(&self) -> (r: Option<String>)
        ensures
            match r {
                Some(text) => status_of(self@) == Some(text@),
                None => status_of(self@) is None,
            },
    {
        if let Some(active) = &self.active {
            let mut out = concat(direction(active.role), ": ");
            if active.phase == TransferPhase::Cancelling {
                out.append("cancelling");
                assert(Some(out@) =~= status_of(self@));
                return Some(out);
            }
            match &active.current_file {
                Some(file) => {
                    out.append(file_status(file).as_str());
                },
                None => {
                    if active.phase == TransferPhase::Running {
                        out.append("Connecting");
                    } else {
                        out.append("Choose files or directory");
                    }
                },
            }
            return Some(out);
        }
        match &self.last {
            None => None,
            Some(last) => {
                let mut completed: u64 = 0;
                let mut skipped: u64 = 0;
                let mut index: usize = 0;
                let ghost files = files_view(last.files@);
                assert(files.take(0) =~= Seq::<FileStatusView>::empty());
                while index < last.files.len()
                    invariant
                        index <= last.files.len(),
                        files == files_view(last.files@),
                        completed <= index,
                        skipped <= index,
                        completed == completed_count(files.take(index as int)),
                        skipped == skipped_count(files.take(index as int)),
                    decreases last.files.len() - index,
                {
                    proof {
                        assert(files.take(index + 1).drop_last() =~= files.take(index as int));
                        assert(files.take(index + 1).last() == last.files@[index as int]@);
                    }
                    match &last.files[index].outcome {
                        Some(FileOutcome::Completed) => {
                            completed = completed + 1;
                        },
                        Some(FileOutcome::Skipped) => {
                            skipped = skipped + 1;
                        },
                        _ => {},
                    }
                    index = index + 1;
                }
                assert(files.take(index as int) =~= files);
                let mut out = concat(direction(last.role), " ");
                match &last.outcome {
                    TransferOutcome::Completed => {
                        out.append("complete");
                    },
                    TransferOutcome::Cancelled => {
                        out.append("cancelled");
                    },
                    TransferOutcome::RemoteCancelled => {
                        out.append("cancelled by remote");
                    },
                    TransferOutcome::Failed(error) => {
                        out.append("failed: ");
                        out.append(display_text(error.message.as_str()).as_str());
                    },
                }
                out.append(": ");
                push_decimal(&mut out, completed);
                out.append(" completed, ");
                push_decimal(&mut out, skipped);
                out.append(" skipped");
                assert(out@ =~= summary_text(last@));
                Some(out)
            },
        }
    }
}

/// The direction of a transfer.
pub open spec fn direction_name(role: Role) -> Seq<char> {
    match role {
        Role::Upload => "Upload"@,
        Role::Download => "Download"@,
    }
}

fn direction(role: Role) -> (r: &'static str)
    ensures
        r@ == direction_name(role),
{
    match role {
        Role::Upload => "Upload",
        Role::Download => "Download",
    }
}

/// Files that were completed.
pub open spec fn completed_count(files: Seq<FileStatusView>) -> nat
    decreases files.len(),
{
    if files.len() == 0 {
        0
    } else {
        completed_count(files.drop_last()) + if files.last().outcome matches Some(
            FileOutcomeView::Completed,
        ) {
            1nat
        } else {
            0nat
        }
    }
}

/// Files that were skipped.
pub open spec fn skipped_count(files: Seq<FileStatusView>) -> nat
    decreases files.len(),
{
    if files.len() == 0 {
        0
    } else {
        skipped_count(files.drop_last()) + if files.last().outcome matches Some(
            FileOutcomeView::Skipped,
        ) {
            1nat
        } else {
            0nat
        }
    }
}

/// What is shown of a file.
pub open spec fn file_text(file: FileStatusView) -> Seq<char> {
    match (file.outcome, file.total) {
        (None, Some(total)) => file.name + ": "@ + decimal(file.bytes as nat) + " / "@ + decimal(
            total as nat,
        ) + " bytes"@,
        (outcome, _) => file.name + ": "@ + decimal(file.bytes as nat) + " bytes, "@
            + match outcome {
            Some(FileOutcomeView::Completed) => "completed"@,
            Some(FileOutcomeView::Skipped) => "skipped"@,
            Some(FileOutcomeView::Failed(failure)) => "failed: "@ + displayed(failure.message),
            None => "transferring"@,
        },
    }
}

/// What is shown of a transfer that is over.
pub open spec fn summary_text(last: SummaryView) -> Seq<char> {
    direction_name(last.role) + " "@ + match last.outcome {
        TransferOutcomeView::Completed => "complete"@,
        TransferOutcomeView::Cancelled => "cancelled"@,
        TransferOutcomeView::RemoteCancelled => "cancelled by remote"@,
        TransferOutcomeView::Failed(failure) => "failed: "@ + displayed(failure.message),
    } + ": "@ + decimal(completed_count(last.files)) + " completed, "@ + decimal(
        skipped_count(last.files),
    ) + " skipped"@
}

/// What is shown of an active transfer.
pub open spec fn active_text(active: ActiveTransferView) -> Seq<char> {
    direction_name(active.role) + ": "@ + match (active.phase, active.current_file) {
        (TransferPhase::Cancelling, _) => "cancelling"@,
        (_, Some(file)) => file_text(file),
        (TransferPhase::Running, None) => "Connecting"@,
        (_, None) => "Choose files or directory"@,
    }
}

/// What is shown of a terminal's transfers.
pub open spec fn status_of(transfer: TransferView) -> Option<Seq<char>> {
    match (transfer.active, transfer.last) {
        (Some(active), _) => Some(active_text(active)),
        (None, Some(last)) => Some(summary_text(last)),
        (None, None) => None,
    }
}

/// What is shown of a file.
pub fn file_status(file: &FileStatus) -> (r: String)
    ensures
        r@ == file_text(file@),
{
    let mut out = concat(file.name.as_str(), ": ");
    push_decimal(&mut out, file.bytes);
    match (&file.outcome, file.total) {
        (None, Some(total)) => {
            out.append(" / ");
            push_decimal(&mut out, total);
            out.append(" bytes");
        },
        (Some(FileOutcome::Completed), _) => {
            out.append(" bytes, ");
            out.append("completed");
        },
        (Some(FileOutcome::Skipped), _) => {
            out.append(" bytes, ");
            out.append("skipped");
        },
        (Some(FileOutcome::Failed(error)), _) => {
            out.append(" bytes, ");
            out.append("failed: ");
            out.append(display_text(error.message.as_str()).as_str());
        },
        (None, None) => {
            out.append(" bytes, ");
            out.append("transferring");
        },
    }
    assert(out@ =~= file_text(file@));
    out
}

/// Events of another transfer, and events that come after the end, change
/// nothing.
pub proof fn law_stale_events_are_rejected(transfer: TransferView, event: TransferEventView)
    requires
        !transfer.is_active(event.id()),
    ensures
        !transfer.concerns(event),
        transfer.applied(event) == transfer,
{
}

/// A transfer that was begun is newer than every one before it, and none that
/// is not newer can be begun: ids never come back.
pub proof fn law_begun_transfers_are_newer(
    transfer: TransferView,
    id: TransferId,
    role: Role,
    phase: TransferPhase,
    event: TransferEventView,
)
    ensures
        transfer.begun(id, role, phase).newest_id == id,
        transfer.applied(event).newest_id == transfer.newest_id,
        transfer.cancelled(id).newest_id == transfer.newest_id,
        transfer.begun(id, role, phase).is_active(id),
{
}

/// No more than the limit of file results is kept.
pub proof fn law_file_results_are_bounded(transfer: TransferView, event: TransferEventView)
    requires
        transfer.active matches Some(active) ==> active.files.len() <= MAX_FILES,
    ensures
        transfer.applied(event).active matches Some(active) ==> active.files.len() <= MAX_FILES,
{
}

/// Displayed text is the text itself, up to the bound, with a space in place of
/// each control character: ordinary short text is displayed as it is.
pub proof fn law_ordinary_text_is_displayed_whole(text: Seq<char>, index: int)
    ensures
        text.len() <= 160 ==> displayed(text).len() == text.len(),
        text.len() > 160 ==> displayed(text).len() == 160,
        0 <= index < text.len() && index < 160 ==> displayed(text)[index] == (if is_control(
            text[index],
        ) {
            ' '
        } else {
            text[index]
        }),
        text.len() <= 160 && (forall|i: int| 0 <= i < text.len() ==> !is_control(text[i]))
            ==> displayed(text) == text,
{
    if text.len() <= 160 && (forall|i: int| 0 <= i < text.len() ==> !is_control(text[i])) {
        assert(displayed(text) =~= text);
    }
}

/// The event tells of the active transfer: it has its identity and its role.
pub open spec fn tells_of(transfer: TransferView, id: TransferId, role: Role) -> bool {
    transfer.active matches Some(active) && active.id == id && active.role == role
}

/// A file that starts is shown with its name and size, and nothing of it has
/// come yet; its progress is shown as it is told, and nothing else changes.
pub proof fn law_files_are_shown_as_told(
    transfer: TransferView,
    id: TransferId,
    role: Role,
    name: Seq<char>,
    size: Option<u64>,
    bytes: u64,
)
    requires
        tells_of(transfer, id, role),
    ensures
        ({
            let started = transfer.applied(TransferEventView::FileStarted { id, role, name, size });
            let told = transfer.applied(
                TransferEventView::Progress { id, role, name, bytes, total: size },
            );
            let active = transfer.active->0;
            &&& started == (TransferView { active: started.active, ..transfer })
            &&& started.active == Some(
                ActiveTransferView {
                    current_file: Some(
                        FileStatusView {
                            name: displayed(name),
                            bytes: 0,
                            total: size,
                            outcome: None,
                        },
                    ),
                    ..active
                },
            )
            &&& told == (TransferView { active: told.active, ..transfer })
            &&& told.active == Some(
                ActiveTransferView {
                    current_file: Some(
                        FileStatusView { name: displayed(name), bytes, total: size, outcome: None },
                    ),
                    ..active
                },
            )
        }),
{
}

/// The end of a file is kept behind those before it, with what became of it and
/// with the size that was announced; only at the limit the oldest makes room.
pub proof fn law_file_results_are_kept_in_order(
    transfer: TransferView,
    id: TransferId,
    role: Role,
    name: Seq<char>,
    size: Option<u64>,
    bytes: u64,
    outcome: FileOutcomeView,
    path: Option<Seq<u8>>,
)
    requires
        tells_of(transfer, id, role),
        (transfer.active->0).files.len() <= MAX_FILES,
    ensures
        ({
            let started = transfer.applied(TransferEventView::FileStarted { id, role, name, size });
            let ended = started.applied(
                TransferEventView::FileResult { id, role, name, bytes, outcome, path },
            );
            let before = (transfer.active->0).files;
            let file = FileStatusView {
                name: displayed(name),
                bytes,
                total: size,
                outcome: Some(outcome),
            };
            &&& ended.active matches Some(active)
            &&& active.current_file == Some(file)
            &&& before.len() < 128 ==> active.files == before.push(file)
            &&& before.len() == 128 ==> active.files.len() == 128 && before.push(file) == seq![
                before[0],
            ] + active.files
            &&& active.phase == (transfer.active->0).phase
        }),
{
    let before = (transfer.active->0).files;
    if before.len() == 128 {
        let file = FileStatusView {
            name: displayed(name),
            bytes,
            total: size,
            outcome: Some(outcome),
        };
        assert(before.push(file) =~= seq![before[0]] + before.skip(1).push(file));
    }
}

/// A transfer that is over is remembered with its outcome and the results of
/// all its files, and the terminal is free for the next.
pub proof fn law_finished_transfers_are_remembered(
    transfer: TransferView,
    id: TransferId,
    role: Role,
    outcome: TransferOutcomeView,
    committed_paths: Seq<Seq<u8>>,
)
    requires
        tells_of(transfer, id, role),
    ensures
        ({
            let after = transfer.applied(
                TransferEventView::Finished { id, role, outcome, committed_paths },
            );
            &&& after.active is None
            &&& after.newest_id == transfer.newest_id
            &&& after.last == Some(
                SummaryView { id, role, outcome, files: (transfer.active->0).files },
            )
            &&& after == transfer.finished(id, outcome)
        }),
{
}

/// A cancelled transfer is over at once if its upload was still to be chosen
/// here; any other waits for its worker, with everything that is known of it.
pub proof fn law_cancelled_transfers_wait_for_their_worker(
    transfer: TransferView,
    id: TransferId,
    other: TransferId,
)
    requires
        transfer.active matches Some(active) && active.id == id && other != id,
    ensures
        ({
            let active = transfer.active->0;
            let after = transfer.cancelled(id);
            &&& active.phase is SelectingExplicitUpload ==> {
                &&& after.active is None
                &&& after.last == Some(
                    SummaryView {
                        id,
                        role: active.role,
                        outcome: TransferOutcomeView::Cancelled,
                        files: active.files,
                    },
                )
            }
            &&& !(active.phase is SelectingExplicitUpload) ==> after == (TransferView {
                active: Some(ActiveTransferView { phase: TransferPhase::Cancelling, ..active }),
                ..transfer
            })
            &&& transfer.cancelled(other) == transfer
            &&& transfer.finished(other, TransferOutcomeView::Cancelled) == transfer
        }),
{
}

/// Each completed or skipped file counts once: together they are no more than
/// the files, and all of them exactly if no file has another result.
pub proof fn law_results_are_counted_once(files: Seq<FileStatusView>)
    ensures
        completed_count(files) + skipped_count(files) <= files.len(),
        completed_count(files) == files.len() <==> forall|i: int|
            0 <= i < files.len() ==> (#[trigger] files[i]).outcome == Some(
                FileOutcomeView::Completed,
            ),
        skipped_count(files) == files.len() <==> forall|i: int|
            0 <= i < files.len() ==> (#[trigger] files[i]).outcome == Some(
                FileOutcomeView::Skipped,
            ),
        completed_count(files) == 0 <==> forall|i: int|
            0 <= i < files.len() ==> (#[trigger] files[i]).outcome != Some(
                FileOutcomeView::Completed,
            ),
        skipped_count(files) == 0 <==> forall|i: int|
            0 <= i < files.len() ==> (#[trigger] files[i]).outcome != Some(
                FileOutcomeView::Skipped,
            ),
    decreases files.len(),
{
    if files.len() > 0 {
        let before = files.drop_last();
        law_results_are_counted_once(before);
        let last = files.len() - 1;
        assert(files[last] == files.last());
        assert forall|i: int| 0 <= i < last implies #[trigger] files[i] == before[i] by {}
        assert forall|i: int| 0 <= i < last implies #[trigger] before[i] == files[i] by {}
    }
}

/// The counts of two groups of files add up.
pub proof fn law_counts_add_up(first: Seq<FileStatusView>, second: Seq<FileStatusView>)
    ensures
        completed_count(first + second) == completed_count(first) + completed_count(second),
        skipped_count(first + second) == skipped_count(first) + skipped_count(second),
    decreases second.len(),
{
    if second.len() == 0 {
        assert(first + second =~= first);
    } else {
        law_counts_add_up(first, second.drop_last());
        assert((first + second).drop_last() =~= first + second.drop_last());
    }
}

/// What is shown of an active transfer starts with its direction, and what is
/// shown of a file with its name; a transfer that is over ends with how many
/// files were completed and skipped. An active transfer comes before one that
/// is over, and without either nothing is shown.
pub proof fn law_status_names_its_transfer(
    transfer: TransferView,
    active: ActiveTransferView,
    last: SummaryView,
    file: FileStatusView,
)
    ensures
        starts_with(file_text(file), file.name + ": "@ + decimal(file.bytes as nat)),
        starts_with(active_text(active), direction_name(active.role) + ": "@),
        starts_with(summary_text(last), direction_name(last.role) + " "@),
        ends_with(
            summary_text(last),
            ": "@ + decimal(completed_count(last.files)) + " completed, "@ + decimal(
                skipped_count(last.files),
            ) + " skipped"@,
        ),
        direction_name(Role::Upload) == "Upload"@,
        direction_name(Role::Download) == "Download"@,
        transfer.active == Some(active) ==> status_of(transfer) == Some(active_text(active)),
        transfer.active is None && transfer.last == Some(last) ==> status_of(transfer) == Some(
            summary_text(last),
        ),
        transfer.active is None && transfer.last is None ==> status_of(transfer) is None,
        active.phase is Cancelling ==> ends_with(active_text(active), "cancelling"@),
        !(active.phase is Cancelling) && active.current_file == Some(file) ==> active_text(active)
            == direction_name(active.role) + ": "@ + file_text(file),
        file.outcome is None && file.total is Some ==> ends_with(
            file_text(file),
            " / "@ + decimal(file.total->0 as nat) + " bytes"@,
        ),
        file.outcome == Some(FileOutcomeView::Completed) ==> ends_with(
            file_text(file),
            "completed"@,
        ),
        file.outcome == Some(FileOutcomeView::Skipped) ==> ends_with(file_text(file), "skipped"@),
        file.outcome matches Some(FileOutcomeView::Failed(failure)) ==> ends_with(
            file_text(file),
            "failed: "@ + displayed(failure.message),
        ),
{
    let front = file.name + ": "@ + decimal(file.bytes as nat);
    let text = file_text(file);
    if file.outcome is None && file.total is Some {
        let end = " / "@ + decimal(file.total->0 as nat) + " bytes"@;
        assert(text =~= front + end);
        assert(text.skip(front.len() as int) =~= end);
    } else {
        let state = match file.outcome {
            Some(FileOutcomeView::Completed) => "completed"@,
            Some(FileOutcomeView::Skipped) => "skipped"@,
            Some(FileOutcomeView::Failed(failure)) => "failed: "@ + displayed(failure.message),
            None => "transferring"@,
        };
        assert(text =~= front + (" bytes, "@ + state));
        assert(text.skip((front + " bytes, "@).len() as int) =~= state);
    }
    assert(text.take(front.len() as int) =~= front);
    let direction = direction_name(active.role) + ": "@;
    let shown = active_text(active);
    assert(shown.take(direction.len() as int) =~= direction);
    if active.phase is Cancelling {
        assert(shown.skip(direction.len() as int) =~= "cancelling"@);
    }
    let heading = direction_name(last.role) + " "@;
    let summary = summary_text(last);
    assert(summary.take(heading.len() as int) =~= heading);
    let counts = ": "@ + decimal(completed_count(last.files)) + " completed, "@ + decimal(
        skipped_count(last.files),
    ) + " skipped"@;
    assert(summary.skip(summary.len() - counts.len()) =~= counts);
}

/// An event is applied only to the active transfer of its identity and its
/// direction, and a request to none.
pub proof fn law_only_matching_events_are_applied(
    transfer: TransferView,
    event: TransferEventView,
    id: TransferId,
    role: Role,
)
    ensures
        transfer.concerns(event) <==> !(event is Requested) && (transfer.active matches Some(active)
            && active.id == event.id() && active.role == event_role(event)),
        !transfer.concerns(event) ==> transfer.applied(event) == transfer,
        event matches TransferEventView::Finished { id: of, role: as_role, .. } ==> event.id() == of
            && event_role(event) == as_role,
        event matches TransferEventView::Progress { id: of, role: as_role, .. } ==> event.id() == of
            && event_role(event) == as_role,
        event matches TransferEventView::FileStarted { id: of, role: as_role, .. } ==> event.id()
            == of && event_role(event) == as_role,
        event matches TransferEventView::FileResult { id: of, role: as_role, .. } ==> event.id()
            == of && event_role(event) == as_role,
        event matches TransferEventView::Requested { id: of, role: as_role } ==> event.id() == of
            && event_role(event) == as_role,
{
}

/// A transfer begins with nothing known of it, and what was shown of the one
/// before it is gone; a new terminal has had none.
pub proof fn law_transfers_begin_clean(
    transfer: TransferView,
    id: TransferId,
    role: Role,
    phase: TransferPhase,
)
    ensures
        ({
            let after = transfer.begun(id, role, phase);
            &&& after.active == Some(
                ActiveTransferView { id, role, phase, current_file: None, files: Seq::empty() },
            )
            &&& after.last is None
            &&& after.newest_id == id
        }),
        TransferView::new().active is None,
        TransferView::new().last is None,
        TransferView::new().newest_id == 0,
{
}

} // verus!
