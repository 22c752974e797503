//! Bounded native ZMODEM transfers: what a transfer reports, the limits it
//! keeps, the names it accepts, and the state that a transfer's handle and its
//! worker share.

use vstd::prelude::*;
use vstd::string::*;
use vstd::utf8::{decode_utf8, encode_utf8, valid_utf8};

use crate::bytes::{append, copy_range};
use crate::text::{
    byte_len, char_len, concat, decimal, encoded_len, fitting_prefix, from_chars, from_utf8,
    is_control, is_control_char, lemma_byte_len_concat, lemma_byte_len_push, push_decimal, to_chars,
};

verus! {

/// Identifies a transfer; ids count up.
pub type TransferId = u64;

/// Raw bytes of a file system path.
pub type PathBytes = Vec<u8>;

/// Which way a transfer runs.
#[derive(Clone, Copy, Debug, Eq, PartialEq, Structural)]
pub enum Role {
    Upload,
    Download,
}

/// What happens to a download whose name is taken.
#[derive(Clone, Copy, Debug, Eq, PartialEq, Structural)]
pub enum OverwritePolicy {
    Skip,
    Rename,
    Overwrite,
}

impl Default for OverwritePolicy {
    fn default() -> (r: Self)
        ensures
            r == OverwritePolicy::Skip,
    {
        OverwritePolicy::Skip
    }
}

/// A request to the transfers of a terminal.
#[derive(Clone, Debug)]
pub enum Control {
    Enable(bool),
    StartUpload { id: TransferId, paths: Vec<PathBytes> },
    Upload { id: TransferId, paths: Vec<PathBytes> },
    Download { id: TransferId, directory: PathBytes, policy: OverwritePolicy },
    Cancel { id: TransferId },
}

/// Why a transfer or a file failed.
#[derive(Clone, Copy, Debug, Eq, PartialEq, Structural)]
pub enum ErrorKind {
    Configuration,
    UnsafeName,
    SourceChanged,
    FileTooLarge,
    Storage,
    Protocol,
    Timeout,
    WorkerLimit,
    WorkerStopped,
}

/// A failure with a message that is safe to show.
#[derive(Debug, Eq, PartialEq)]
pub struct TransferError {
    pub kind: ErrorKind,
    pub message: String,
}

/// A failure over plain values.
pub ghost struct ErrorView {
    pub kind: ErrorKind,
    pub message: Seq<char>,
}

impl View for TransferError {
    type V = ErrorView;

    open spec fn view(&self) -> ErrorView {
        ErrorView { kind: self.kind, message: self.message@ }
    }
}

impl Clone for TransferError {
    fn clone(&self) -> (r: Self)
        ensures
            r@ == self@,
    {
        TransferError { kind: self.kind, message: self.message.clone() }
    }
}

impl TransferError {
    /// The text shown to the user: the message.
    pub fn display(&self) -> (r: String)
        ensures
            r@ == self@.message,
    {
        self.message.clone()
    }
}

/// A failure of the given kind with the given message.
pub fn error(kind: ErrorKind, message: &str) -> (r: TransferError)
    ensures
        r@ == (ErrorView { kind, message: message@ }),
{
    TransferError { kind, message: message.to_owned() }
}

/// The failure of a local file operation; `kind` names the operating system's
/// error kind.
pub fn storage_error(kind: &str) -> (r: TransferError)
    ensures
        r@ == (ErrorView {
            kind: ErrorKind::Storage,
            message: "Local file operation failed ("@ + kind@ + ")"@,
        }),
{
    let mut message = concat("Local file operation failed (", kind);
    message.append(")");
    TransferError { kind: ErrorKind::Storage, message }
}

/// The failure that a protocol error stands for.
pub open spec fn protocol_failure(failure: zmodem2::Error) -> ErrorView {
    ErrorView {
        kind: if failure is MalformedFileSize {
            ErrorKind::FileTooLarge
        } else {
            ErrorKind::Protocol
        },
        message: "Native ZMODEM protocol rejected the transfer"@,
    }
}

/// The failure that a protocol error stands for.
pub fn protocol_error(failure: zmodem2::Error) -> (r: TransferError)
    ensures
        r@ == protocol_failure(failure),
{
    let kind = match failure {
        zmodem2::Error::MalformedFileSize => ErrorKind::FileTooLarge,
        _ => ErrorKind::Protocol,
    };
    // Native errors may contain an untrusted byte value, never echo wire fragments.
    error(kind, "Native ZMODEM protocol rejected the transfer")
}

/// How one file of a transfer ended.
#[derive(Debug, Eq, PartialEq)]
pub enum FileOutcome {
    Completed,
    Skipped,
    Failed(TransferError),
}

/// How one file of a transfer ended, over plain values.
pub ghost enum FileOutcomeView {
    Completed,
    Skipped,
    Failed(ErrorView),
}

impl View for FileOutcome {
    type V = FileOutcomeView;

    open spec fn view(&self) -> FileOutcomeView {
        match *self {
            FileOutcome::Completed => FileOutcomeView::Completed,
            FileOutcome::Skipped => FileOutcomeView::Skipped,
            FileOutcome::Failed(failure) => FileOutcomeView::Failed(failure@),
        }
    }
}

impl Clone for FileOutcome {
    fn clone(&self) -> (r: Self)
        ensures
            r@ == self@,
    {
        match self {
            FileOutcome::Completed => FileOutcome::Completed,
            FileOutcome::Skipped => FileOutcome::Skipped,
            FileOutcome::Failed(failure) => FileOutcome::Failed(failure.clone()),
        }
    }
}

/// How a transfer ended.
#[derive(Debug, Eq, PartialEq)]
pub enum TransferOutcome {
    Completed,
    Cancelled,
    RemoteCancelled,
    Failed(TransferError),
}

/// How a transfer ended, over plain values.
pub ghost enum TransferOutcomeView {
    Completed,
    Cancelled,
    RemoteCancelled,
    Failed(ErrorView),
}

impl View for TransferOutcome {
    type V = TransferOutcomeView;

    open spec fn view(&self) -> TransferOutcomeView {
        match *self {
            TransferOutcome::Completed => TransferOutcomeView::Completed,
            TransferOutcome::Cancelled => TransferOutcomeView::Cancelled,
            TransferOutcome::RemoteCancelled => TransferOutcomeView::RemoteCancelled,
            TransferOutcome::Failed(failure) => TransferOutcomeView::Failed(failure@),
        }
    }
}

impl Clone for TransferOutcome {
    fn clone(&self) -> (r: Self)
        ensures
            r@ == self@,
    {
        match self {
            TransferOutcome::Completed => TransferOutcome::Completed,
            TransferOutcome::Cancelled => TransferOutcome::Cancelled,
            TransferOutcome::RemoteCancelled => TransferOutcome::RemoteCancelled,
            TransferOutcome::Failed(failure) => TransferOutcome::Failed(failure.clone()),
        }
    }
}

/// The view of paths.
pub open spec fn paths_view(paths: Seq<PathBytes>) -> Seq<Seq<u8>> {
    paths.map_values(|path: PathBytes| path@)
}

/// One more path is one more view.
pub proof fn lemma_paths_view_push(paths: Seq<PathBytes>, path: PathBytes)
    ensures
        paths_view(paths.push(path)) == paths_view(paths).push(path@),
{
    assert(paths_view(paths.push(path)) =~= paths_view(paths).push(path@));
}

/// The view of an optional path.
pub open spec fn path_view(path: Option<PathBytes>) -> Option<Seq<u8>> {
    match path {
        Some(path) => Some(path@),
        None => None,
    }
}

/// A copy of paths.
pub fn copy_paths(paths: &Vec<PathBytes>) -> (r: Vec<PathBytes>)
    ensures
        paths_view(r@) == paths_view(paths@),
{
    let mut out: Vec<PathBytes> = Vec::new();
    let mut index: usize = 0;
    while index < paths.len()
        invariant
            index <= paths.len(),
            paths_view(out@) == paths_view(paths@).take(index as int),
        decreases paths.len() - index,
    {
        let path: PathBytes = copy_range(paths[index].as_slice(), 0, paths[index].len());
        assert(path@ =~= paths@[index as int]@);
        proof {
            lemma_paths_view_push(out@, path);
        }
        out.push(path);
        assert(paths_view(paths@).take(index + 1) =~= paths_view(paths@).take(index as int).push(
            paths@[index as int]@,
        ));
        index = index + 1;
    }
    assert(paths_view(out@) =~= paths_view(paths@));
    out
}

/// A copy of an optional path.
pub fn copy_path(path: &Option<PathBytes>) -> (r: Option<PathBytes>)
    ensures
        path_view(r) == path_view(*path),
{
    match path {
        Some(path) => {
            let copy: PathBytes = copy_range(path.as_slice(), 0, path.len());
            assert(copy@ =~= path@);
            Some(copy)
        },
        None => None,
    }
}

/// What a transfer reports.
#[derive(Debug, Eq, PartialEq)]
pub enum TransferEvent {
    Requested { id: TransferId, role: Role },
    FileStarted { id: TransferId, role: Role, name: String, size: Option<u64> },
    Progress { id: TransferId, role: Role, name: String, bytes: u64, total: Option<u64> },
    FileResult {
        id: TransferId,
        role: Role,
        name: String,
        bytes: u64,
        outcome: FileOutcome,
        path: Option<PathBytes>,
    },
    Finished {
        id: TransferId,
        role: Role,
        outcome: TransferOutcome,
        committed_paths: Vec<PathBytes>,
    },
}

/// Events are what the runtime reports.
pub type RuntimeEvent = TransferEvent;

/// What a transfer reports, over plain values.
pub ghost enum TransferEventView {
    Requested { id: TransferId, role: Role },
    FileStarted { id: TransferId, role: Role, name: Seq<char>, size: Option<u64> },
    Progress { id: TransferId, role: Role, name: Seq<char>, bytes: u64, total: Option<u64> },
    FileResult {
        id: TransferId,
        role: Role,
        name: Seq<char>,
        bytes: u64,
        outcome: FileOutcomeView,
        path: Option<Seq<u8>>,
    },
    Finished {
        id: TransferId,
        role: Role,
        outcome: TransferOutcomeView,
        committed_paths: Seq<Seq<u8>>,
    },
}

impl View for TransferEvent {
    type V = TransferEventView;

    open spec fn view(&self) -> TransferEventView {
        match *self {
            TransferEvent::Requested { id, role } => TransferEventView::Requested { id, role },
            TransferEvent::FileStarted { id, role, name, size } => TransferEventView::FileStarted {
                id,
                role,
                name: name@,
                size,
            },
            TransferEvent::Progress { id, role, name, bytes, total } => {
                TransferEventView::Progress { id, role, name: name@, bytes, total }
            },
            TransferEvent::FileResult { id, role, name, bytes, outcome, path } => {
                TransferEventView::FileResult {
                    id,
                    role,
                    name: name@,
                    bytes,
                    outcome: outcome@,
                    path: path_view(path),
                }
            },
            TransferEvent::Finished { id, role, outcome, committed_paths } => {
                TransferEventView::Finished {
                    id,
                    role,
                    outcome: outcome@,
                    committed_paths: paths_view(committed_paths@),
                }
            },
        }
    }
}

impl TransferEventView {
    /// The transfer that an event belongs to.
    pub open spec fn id(self) -> TransferId {
        match self {
            TransferEventView::Requested { id, .. } => id,
            TransferEventView::FileStarted { id, .. } => id,
            TransferEventView::Progress { id, .. } => id,
            TransferEventView::FileResult { id, .. } => id,
            TransferEventView::Finished { id, .. } => id,
        }
    }
}

impl Clone for TransferEvent {
    fn clone(&self) -> (r: Self)
        ensures
            r@ == self@,
    {
        match self {
            TransferEvent::Requested { id, role } => TransferEvent::Requested {
                id: *id,
                role: *role,
            },
            TransferEvent::FileStarted { id, role, name, size } => TransferEvent::FileStarted {
                id: *id,
                role: *role,
                name: name.clone(),
                size: *size,
            },
            TransferEvent::Progress { id, role, name, bytes, total } => TransferEvent::Progress {
                id: *id,
                role: *role,
                name: name.clone(),
                bytes: *bytes,
                total: *total,
            },
            TransferEvent::FileResult { id, role, name, bytes, outcome, path } => {
                TransferEvent::FileResult {
                    id: *id,
                    role: *role,
                    name: name.clone(),
                    bytes: *bytes,
                    outcome: outcome.clone(),
                    path: copy_path(path),
                }
            },
            TransferEvent::Finished { id, role, outcome, committed_paths } => {
                TransferEvent::Finished {
                    id: *id,
                    role: *role,
                    outcome: outcome.clone(),
                    committed_paths: copy_paths(committed_paths),
                }
            },
        }
    }
}

/// Wire buffers retain credit until explicitly acknowledged after the final PTY write.
#[derive(Debug)]
pub enum RuntimeOutput {
    Event(TransferEvent),
    Wire { id: TransferId, sequence: u64, bytes: Vec<u8> },
    /// Bytes after a successful ZFIN/OO exchange, in original stream order.
    Tail { id: TransferId, bytes: Vec<u8> },
    /// Discard pending transfer writes and send [`abort_sequence`].
    Abort { id: TransferId },
}

/// What a worker puts out, over plain values.
pub ghost enum RuntimeOutputView {
    Event(TransferEventView),
    Wire { id: TransferId, sequence: u64, bytes: Seq<u8> },
    Tail { id: TransferId, bytes: Seq<u8> },
    Abort { id: TransferId },
}

impl View for RuntimeOutput {
    type V = RuntimeOutputView;

    open spec fn view(&self) -> RuntimeOutputView {
        match *self {
            RuntimeOutput::Event(event) => RuntimeOutputView::Event(event@),
            RuntimeOutput::Wire { id, sequence, bytes } => RuntimeOutputView::Wire {
                id,
                sequence,
                bytes: bytes@,
            },
            RuntimeOutput::Tail { id, bytes } => RuntimeOutputView::Tail { id, bytes: bytes@ },
            RuntimeOutput::Abort { id } => RuntimeOutputView::Abort { id },
        }
    }
}

/// Why input was not accepted.
#[derive(Clone, Copy, Debug, Eq, PartialEq, Structural)]
pub enum SubmitError {
    Full,
    Closed,
}

/// Most bytes accepted in one piece.
pub const MAX_INPUT_CHUNK: usize = 16_384;

/// Most files in one batch.
pub const MAX_FILES: usize = 128;

/// Most path bytes in one batch.
pub const MAX_PATH_BYTES: usize = 65_536;

/// Longest single path.
pub const MAX_PATH_LEN: usize = 4_096;

/// Most workers at a time.
pub const MAX_WORKERS: usize = 8;

/// Most queued input pieces.
pub const INPUT_SLOTS: usize = 8;

/// Most queued outputs.
pub const OUTPUT_SLOTS: usize = 32;

/// How many unacknowledged wire buffers may be queued before the worker waits for the PTY.
///
/// Kept below [`OUTPUT_SLOTS`] so the in-flight window cannot exceed the output queue depth.
pub const WIRE_WINDOW: u64 = 8;

/// Payload accounting includes queued input, a worker input block, the output queue, retained
/// write credit, configuration paths, committed paths and the terminal paths event. Native codec
/// buffers and bounded names leave this below 1 MiB even while the PTY retains a wire block.
pub const MAX_QUEUE_BYTES: usize = 1_048_576;

/// Bytes of native codec buffers.
pub const CODEC_BYTES: usize = 16_384;

/// Longest file name in bytes.
pub const MAX_NAME_BYTES: usize = 255;

/// Everything a transfer can hold at once stays below [`MAX_QUEUE_BYTES`]:
/// full queues on both sides, one block in the worker, one block of retained
/// write credit, three sets of paths, a name per file and the codec's buffers.
pub proof fn law_queue_payload_stays_below_limit()
    ensures
        (INPUT_SLOTS + 1 + OUTPUT_SLOTS + 1) * MAX_INPUT_CHUNK + 3 * MAX_PATH_BYTES + MAX_FILES
            * MAX_NAME_BYTES + CODEC_BYTES < MAX_QUEUE_BYTES,
        WIRE_WINDOW < OUTPUT_SLOTS,
{
}

/// Ten cancel bytes and ten backspaces.
pub open spec fn cancel_bytes() -> Seq<u8> {
    Seq::new(20, |i: int| if i < 10 { 0x18u8 } else { 0x08u8 })
}

/// Ten CAN bytes followed by ten backspaces, as used by lrzsz.
pub fn abort_sequence() -> (r: Vec<u8>)
    ensures
        r@ == cancel_bytes(),
{
    let mut out: Vec<u8> = Vec::with_capacity(20);
    append(&mut out, &[0x18, 0x18, 0x18, 0x18, 0x18, 0x18, 0x18, 0x18, 0x18, 0x18]);
    append(&mut out, &[0x08, 0x08, 0x08, 0x08, 0x08, 0x08, 0x08, 0x08, 0x08, 0x08]);
    assert(out@ =~= cancel_bytes());
    out
}

/// The counter of transfer ids after one more id; it wraps around.
pub open spec fn counted_on(next: TransferId) -> TransferId {
    if next == u64::MAX {
        0
    } else {
        (next + 1) as u64
    }
}

/// The counter of transfer ids after `calls` ids were handed out, which is the
/// id that the next call hands out.
pub open spec fn counter_after(next: TransferId, calls: nat) -> TransferId
    decreases calls,
{
    if calls == 0 {
        next
    } else {
        counted_on(counter_after(next, (calls - 1) as nat))
    }
}

/// Hands out the next transfer id and counts on; the count wraps around.
pub fn next_transfer_id(next: &mut TransferId) -> (r: TransferId)
    ensures
        r == *old(next),
        *final(next) == counted_on(*old(next)),
{
    let id: TransferId = *next;
    *next = id.wrapping_add(1);
    id
}

proof fn lemma_counter_after(next: TransferId, calls: nat)
    ensures
        counter_after(next, calls) == (next + calls) % 0x1_0000_0000_0000_0000,
    decreases calls,
{
    if calls > 0 {
        lemma_counter_after(next, (calls - 1) as nat);
    }
}

/// Ids are handed out in rising order, from 1 on, until the counter wraps: of
/// any two calls on one counter that started at 1 or above the later one gets
/// the larger id, which is never 0.
pub proof fn law_transfer_ids_rise(next: TransferId, earlier: nat, later: nat)
    requires
        next >= 1,
        earlier < later,
        next + later <= u64::MAX,
    ensures
        1 <= counter_after(next, earlier) < counter_after(next, later),
{
    lemma_counter_after(next, earlier);
    lemma_counter_after(next, later);
}

/// No id is handed out twice before the counter has run through all its values.
pub proof fn law_transfer_ids_do_not_repeat(next: TransferId, earlier: nat, later: nat)
    requires
        earlier < later < earlier + 0x1_0000_0000_0000_0000,
    ensures
        counter_after(next, earlier) != counter_after(next, later),
{
    lemma_counter_after(next, earlier);
    lemma_counter_after(next, later);
}

/// Takes one of the worker slots: the new count of occupied slots.
pub fn acquire_worker_slot(occupied: usize) -> (r: Result<usize, TransferError>)
    ensures
        match r {
            Ok(count) => occupied < MAX_WORKERS && count == occupied + 1,
            Err(failure) => occupied >= MAX_WORKERS && failure@ == (ErrorView {
                kind: ErrorKind::WorkerLimit,
                message: "All eight transfer workers are occupied"@,
            }),
        },
{
    if occupied < MAX_WORKERS {
        Ok(occupied + 1)
    } else {
        Err(error(ErrorKind::WorkerLimit, "All eight transfer workers are occupied"))
    }
}

/// Bytes in all of the paths.
pub open spec fn total_len(paths: Seq<Seq<u8>>) -> nat
    decreases paths.len(),
{
    if paths.len() == 0 {
        0
    } else {
        total_len(paths.drop_last()) + paths.last().len()
    }
}

/// The paths keep the metadata budget: each one, and all of them together.
pub open spec fn paths_fit(paths: Seq<Seq<u8>>) -> bool {
    &&& total_len(paths) <= MAX_PATH_BYTES
    &&& forall|i: int| 0 <= i < paths.len() ==> (#[trigger] paths[i]).len() <= MAX_PATH_LEN
}

proof fn lemma_total_len_grows(paths: Seq<Seq<u8>>, count: int)
    requires
        0 <= count <= paths.len(),
    ensures
        total_len(paths.take(count)) <= total_len(paths),
    decreases paths.len(),
{
    if count == paths.len() {
        assert(paths.take(count) =~= paths);
    } else {
        lemma_total_len_grows(paths.drop_last(), count);
        assert(paths.drop_last().take(count) =~= paths.take(count));
    }
}

/// The failure of paths that do not keep the metadata budget.
pub open spec fn path_budget_failure() -> ErrorView {
    ErrorView {
        kind: ErrorKind::Configuration,
        message: "Selected paths exceed metadata budget"@,
    }
}

/// Checks the metadata budget of `paths`.
pub fn validate_path_budget(paths: &[PathBytes]) -> (r: Result<(), TransferError>)
    ensures
        match r {
            Ok(_) => paths_fit(paths_view(paths@)),
            Err(failure) => !paths_fit(paths_view(paths@)) && failure@ == path_budget_failure(),
        },
{
    let ghost view = paths_view(paths@);
    let mut bytes: usize = 0;
    let mut index: usize = 0;
    while index < paths.len()
        invariant
            index <= paths.len(),
            view == paths_view(paths@),
            bytes <= MAX_PATH_BYTES,
            bytes == total_len(view.take(index as int)),
            forall|i: int| 0 <= i < index ==> (#[trigger] view[i]).len() <= MAX_PATH_LEN,
        decreases paths.len() - index,
    {
        let len: usize = paths[index].len();
        proof {
            assert(view[index as int] == paths@[index as int]@);
            assert(view.take(index + 1).drop_last() =~= view.take(index as int));
            assert(view.take(index + 1).last() == view[index as int]);
            lemma_total_len_grows(view, index + 1);
        }
        if len > MAX_PATH_LEN || bytes + len > MAX_PATH_BYTES {
            return Err(error(ErrorKind::Configuration, "Selected paths exceed metadata budget"));
        }
        bytes = bytes + len;
        index = index + 1;
    }
    assert(view.take(index as int) =~= view);
    Ok(())
}

/// `directory` joined with the file name `name`.
pub open spec fn joined(directory: Seq<u8>, name: Seq<u8>) -> Seq<u8> {
    if directory.len() == 0 || directory.last() == 0x2f {
        directory + name
    } else {
        directory.push(0x2f) + name
    }
}

/// Joins a directory and a relative file name with one separator.
pub fn join_path(directory: &[u8], name: &[u8]) -> (r: PathBytes)
    ensures
        r@ == joined(directory@, name@),
{
    let mut path: PathBytes = copy_range(directory, 0, directory.len());
    assert(path@ =~= directory@);
    if directory.len() > 0 && directory[directory.len() - 1] != 0x2f {
        path.push(0x2f);
    }
    append(&mut path, name);
    path
}

/// Characters that no transferred file name may hold.
pub open spec fn is_unsafe_char(c: char) -> bool {
    c == '/' || c == '\\' || c == ':' || is_control(c)
}

/// A name that stays inside its directory and shows nothing but itself.
pub open spec fn is_safe_name(name: Seq<char>) -> bool {
    &&& 0 < name.len()
    &&& byte_len(name) <= MAX_NAME_BYTES
    &&& forall|i: int| 0 <= i < name.len() ==> !is_unsafe_char(#[trigger] name[i])
    &&& name.last() != ' '
    &&& name.last() != '.'
}

/// What becomes of a file name from the wire.
pub open spec fn checked_name(bytes: Seq<u8>) -> Result<Seq<char>, ErrorView> {
    if !valid_utf8(bytes) {
        Err(
            ErrorView {
                kind: ErrorKind::UnsafeName,
                message: "File name is not valid UTF-8"@,
            },
        )
    } else if !is_safe_name(decode_utf8(bytes)) {
        Err(ErrorView { kind: ErrorKind::UnsafeName, message: "Unsafe transfer file name"@ })
    } else {
        Ok(decode_utf8(bytes))
    }
}

/// The view of text or of the failure in its place.
pub open spec fn text_result(result: Result<String, TransferError>) -> Result<
    Seq<char>,
    ErrorView,
> {
    match result {
        Ok(text) => Ok(text@),
        Err(failure) => Err(failure@),
    }
}

/// Checks a file name from the wire or from a selected path.
pub fn safe_name(bytes: &[u8]) -> (r: Result<String, TransferError>)
    ensures
        text_result(r) == checked_name(bytes@),
{
    let name = match from_utf8(bytes) {
        Some(name) => name,
        None => return Err(error(ErrorKind::UnsafeName, "File name is not valid UTF-8")),
    };
    proof {
        vstd::utf8::decode_utf8_encode_utf8(bytes@);
    }
    let chars: Vec<char> = to_chars(name.as_str());
    let count: usize = chars.len();
    if count == 0 || bytes.len() > MAX_NAME_BYTES {
        return Err(error(ErrorKind::UnsafeName, "Unsafe transfer file name"));
    }
    let mut index: usize = 0;
    while index < count
        invariant
            index <= count,
            count == chars.len(),
            valid_utf8(bytes@),
            chars@ == decode_utf8(bytes@),
            forall|i: int| 0 <= i < index ==> !is_unsafe_char(#[trigger] chars@[i]),
        decreases count - index,
    {
        let c: char = chars[index];
        if c == '/' || c == '\\' || c == ':' || is_control_char(c) {
            return Err(error(ErrorKind::UnsafeName, "Unsafe transfer file name"));
        }
        index = index + 1;
    }
    if chars[count - 1] == ' ' || chars[count - 1] == '.' {
        return Err(error(ErrorKind::UnsafeName, "Unsafe transfer file name"));
    }
    Ok(name)
}

/// An accepted name is a single path component: it has no separator, is
/// neither of the two directory names, and joins to a path that ends in it.
pub proof fn law_accepted_names_stay_in_their_directory(bytes: Seq<u8>, directory: Seq<u8>)
    ensures
        checked_name(bytes) matches Ok(name) ==> {
            &&& !name.contains('/')
            &&& !name.contains('\\')
            &&& name != seq!['.']
            &&& name != seq!['.', '.']
            &&& joined(directory, bytes).subrange(
                joined(directory, bytes).len() - bytes.len(),
                joined(directory, bytes).len() as int,
            ) == bytes
        },
{
    if let Ok(name) = checked_name(bytes) {
        assert(seq!['.'].last() == '.');
        assert(seq!['.', '.'].last() == '.');
        if name.contains('/') {
            let i = choose|i: int| 0 <= i < name.len() && name[i] == '/';
            assert(is_unsafe_char(name[i]));
        }
        if name.contains('\\') {
            let i = choose|i: int| 0 <= i < name.len() && name[i] == '\\';
            assert(is_unsafe_char(name[i]));
        }
        let path = joined(directory, bytes);
        assert(path.subrange(path.len() - bytes.len(), path.len() as int) =~= bytes);
    }
}

/// Longest extension that a renamed file keeps.
pub const MAX_EXTENSION_BYTES: usize = 64;

/// Names tried for one renamed download.
pub const RENAME_ATTEMPTS: u64 = 10_000;

/// Index of the last dot before `end`, or a negative number.
pub open spec fn last_dot(name: Seq<char>, end: int) -> int
    decreases end,
{
    if end <= 0 {
        -1
    } else if name[end - 1] == '.' {
        end - 1
    } else {
        last_dot(name, end - 1)
    }
}

/// Length of a name's stem: up to its last dot, unless that leaves nothing.
pub open spec fn stem_len(name: Seq<char>) -> int {
    if last_dot(name, name.len() as int) > 0 {
        last_dot(name, name.len() as int)
    } else {
        name.len() as int
    }
}

/// The extension that a renamed file keeps, with its dot; an overlong one is
/// dropped.
pub open spec fn kept_extension(name: Seq<char>) -> Seq<char> {
    if byte_len(name.skip(stem_len(name))) > MAX_EXTENSION_BYTES {
        Seq::empty()
    } else {
        name.skip(stem_len(name))
    }
}

/// What the numbered name of a file adds to its stem.
pub open spec fn rename_suffix(index: u64) -> Seq<char> {
    seq![' ', '('] + decimal(index as nat) + seq![')']
}

/// The numbered name of a file: as much of the stem as fits, the number, and
/// the extension.
pub open spec fn numbered_name(name: Seq<char>, index: u64) -> Seq<char> {
    let tail = rename_suffix(index) + kept_extension(name);
    fitting_prefix(name.take(stem_len(name)), MAX_NAME_BYTES - byte_len(tail)) + tail
}

pub open spec fn pow10(exponent: nat) -> nat
    decreases exponent,
{
    if exponent == 0 {
        1
    } else {
        10 * pow10((exponent - 1) as nat)
    }
}

proof fn lemma_decimal_len(value: nat, digits: nat)
    requires
        value < pow10(digits),
        digits > 0,
    ensures
        byte_len(decimal(value)) == decimal(value).len(),
        1 <= decimal(value).len() <= digits,
    decreases value,
{
    let last = decimal_digit_of(value);
    if value < 10 {
        assert(decimal(value) =~= Seq::<char>::empty().push(last));
        lemma_byte_len_push(Seq::empty(), last);
        assert(byte_len(Seq::<char>::empty()) == 0);
    } else {
        assert(digits > 1) by {
            reveal_with_fuel(pow10, 2);
        }
        lemma_decimal_len(value / 10, (digits - 1) as nat);
        lemma_byte_len_push(decimal(value / 10), last);
    }
}

spec fn decimal_digit_of(value: nat) -> char {
    crate::text::decimal_digit((value % 10) as int)
}

proof fn lemma_suffix_len(index: u64)
    ensures
        byte_len(rename_suffix(index)) == rename_suffix(index).len(),
        rename_suffix(index).len() <= 23,
{
    assert(index < pow10(20)) by {
        reveal_with_fuel(pow10, 21);
    }
    lemma_decimal_len(index as nat, 20);
    let front = seq![' ', '('];
    let back = seq![')'];
    let none = Seq::<char>::empty();
    assert(byte_len(none) == 0);
    lemma_byte_len_push(none, ' ');
    lemma_byte_len_push(none.push(' '), '(');
    assert(front =~= none.push(' ').push('('));
    lemma_byte_len_push(none, ')');
    assert(back =~= none.push(')'));
    lemma_byte_len_concat(front, decimal(index as nat));
    lemma_byte_len_concat(front + decimal(index as nat), back);
}

proof fn lemma_byte_len_take(chars: Seq<char>, short: int, long: int)
    requires
        0 <= short <= long <= chars.len(),
    ensures
        byte_len(chars.take(short)) <= byte_len(chars.take(long)),
{
    lemma_byte_len_concat(chars.take(short), chars.subrange(short, long));
    assert(chars.take(short) + chars.subrange(short, long) =~= chars.take(long));
}

proof fn lemma_fitting_prefix(chars: Seq<char>, limit: int, count: int)
    requires
        0 <= count <= chars.len(),
        byte_len(chars.take(count)) <= limit,
        count < chars.len() ==> byte_len(chars.take(count + 1)) > limit,
    ensures
        fitting_prefix(chars, limit) == chars.take(count),
    decreases chars.len(),
{
    if count == chars.len() {
        assert(chars.take(count) =~= chars);
    } else {
        assert(chars.take(chars.len() as int) =~= chars);
        lemma_byte_len_take(chars, count + 1, chars.len() as int);
        let shorter = chars.drop_last();
        assert(shorter.take(count) =~= chars.take(count));
        if count < shorter.len() {
            assert(shorter.take(count + 1) =~= chars.take(count + 1));
        }
        lemma_fitting_prefix(shorter, limit, count);
    }
}

/// How many characters at the front of `chars[from..to]` take at most `limit`
/// bytes.
fn fitting_count(chars: &[char], from: usize, to: usize, limit: usize) -> (r: usize)
    requires
        from <= to <= chars.len(),
        limit <= MAX_NAME_BYTES,
    ensures
        r <= to - from,
        byte_len(chars@.subrange(from as int, to as int).take(r as int)) <= limit,
        r < to - from ==> byte_len(chars@.subrange(from as int, to as int).take(r + 1)) > limit,
{
    let ghost part = chars@.subrange(from as int, to as int);
    let mut count: usize = 0;
    let mut bytes: usize = 0;
    assert(byte_len(part.take(0)) == 0);
    while count < to - from
        invariant
            from <= to <= chars.len(),
            limit <= MAX_NAME_BYTES,
            part == chars@.subrange(from as int, to as int),
            count <= to - from,
            bytes <= limit,
            bytes == byte_len(part.take(count as int)),
        decreases to - from - count,
    {
        let width: usize = char_len(chars[from + count]);
        proof {
            lemma_byte_len_push(part.take(count as int), part[count as int]);
            assert(part.take(count as int).push(part[count as int]) =~= part.take(count + 1));
        }
        if bytes + width > limit {
            return count;
        }
        bytes = bytes + width;
        count = count + 1;
    }
    count
}

/// The numbered name of a file.
pub fn renamed_name(name: &str, index: u64) -> (r: String)
    ensures
        r@ == numbered_name(name@, index),
{
    let chars: Vec<char> = to_chars(name);
    let count: usize = chars.len();
    let mut dot: usize = count;
    while dot > 0 && chars[dot - 1] != '.'
        invariant
            dot <= count,
            count == chars.len(),
            last_dot(chars@, count as int) == last_dot(chars@, dot as int),
        decreases dot,
    {
        dot = dot - 1;
    }
    let stem: usize = if dot > 1 {
        dot - 1
    } else {
        count
    };
    assert(stem == stem_len(name@));
    let kept: usize = fitting_count(chars.as_slice(), stem, count, MAX_EXTENSION_BYTES);
    let ghost extension = name@.skip(stem as int);
    proof {
        assert(chars@.subrange(stem as int, count as int) =~= extension);
        if kept < count - stem {
            lemma_byte_len_take(extension, kept + 1, extension.len() as int);
        }
        assert(extension.take(extension.len() as int) =~= extension);
        lemma_suffix_len(index);
    }
    let mut tail = String::new();
    tail.push(' ');
    tail.push('(');
    push_decimal(&mut tail, index);
    tail.push(')');
    assert(tail@ =~= rename_suffix(index));
    let mut tail_chars: Vec<char> = to_chars(tail.as_str());
    let mut budget: usize = MAX_NAME_BYTES - tail_chars.len();
    if kept == count - stem {
        let mut next: usize = stem;
        while next < count
            invariant
                stem <= next <= count,
                count == chars.len(),
                chars@ == name@,
                tail_chars@ == rename_suffix(index) + name@.subrange(stem as int, next as int),
            decreases count - next,
        {
            tail_chars.push(chars[next]);
            next = next + 1;
            assert(tail_chars@ =~= rename_suffix(index) + name@.subrange(
                stem as int,
                next as int,
            ));
        }
        let ext = vstd::slice::slice_subrange(chars.as_slice(), stem, count);
        assert(ext@ =~= extension);
        proof {
            lemma_extension_count(extension);
        }
        budget = budget - encoded_len(ext);
    }
    assert(tail_chars@ =~= rename_suffix(index) + kept_extension(name@));
    proof {
        lemma_byte_len_concat(rename_suffix(index), kept_extension(name@));
        assert(byte_len(Seq::<char>::empty()) == 0);
    }
    let front: usize = fitting_count(chars.as_slice(), 0, stem, budget);
    proof {
        let part = chars@.subrange(0, stem as int);
        assert(part =~= name@.take(stem as int));
        lemma_fitting_prefix(part, budget as int, front as int);
    }
    let mut out: Vec<char> = Vec::new();
    let mut next: usize = 0;
    while next < front
        invariant
            next <= front <= stem <= chars.len(),
            out@ == chars@.take(next as int),
        decreases front - next,
    {
        out.push(chars[next]);
        next = next + 1;
        assert(out@ =~= chars@.take(next as int));
    }
    out.append(&mut tail_chars);
    assert(out@ =~= numbered_name(name@, index)) by {
        assert(chars@.take(front as int) =~= name@.take(stem as int).take(front as int));
    }
    from_chars(out.as_slice())
}

proof fn lemma_extension_count(extension: Seq<char>)
    ensures
        extension.len() <= byte_len(extension),
    decreases extension.len(),
{
    if extension.len() > 0 {
        lemma_extension_count(extension.drop_last());
        lemma_byte_len_push(extension.drop_last(), extension.last());
        assert(extension.drop_last().push(extension.last()) =~= extension);
    }
}

/// A numbered name takes no more bytes than a file name may, whatever the name
/// and the number, and keeps the extension.
pub proof fn law_numbered_names_fit(name: Seq<char>, index: u64)
    ensures
        byte_len(numbered_name(name, index)) <= MAX_NAME_BYTES,
{
    let extension = kept_extension(name);
    let tail = rename_suffix(index) + extension;
    lemma_suffix_len(index);
    lemma_byte_len_concat(rename_suffix(index), extension);
    assert(byte_len(Seq::<char>::empty()) == 0);
    let stem = name.take(stem_len(name));
    let limit = MAX_NAME_BYTES - byte_len(tail);
    lemma_fitting_prefix_fits(stem, limit);
    lemma_byte_len_concat(fitting_prefix(stem, limit), tail);
}

proof fn lemma_fitting_prefix_fits(chars: Seq<char>, limit: int)
    requires
        limit >= 0,
    ensures
        byte_len(fitting_prefix(chars, limit)) <= limit,
    decreases chars.len(),
{
    if chars.len() == 0 {
        assert(byte_len(chars) == 0);
    } else if byte_len(chars) > limit {
        lemma_fitting_prefix_fits(chars.drop_last(), limit);
    }
}

proof fn lemma_decimal_digits(value: nat, index: int)
    requires
        0 <= index < decimal(value).len(),
    ensures
        decimal(value)[index] != '(',
    decreases value,
{
    if value >= 10 && index < decimal(value / 10).len() {
        lemma_decimal_digits(value / 10, index);
    }
}

proof fn lemma_decimal_injective(first: nat, second: nat)
    requires
        decimal(first) == decimal(second),
    ensures
        first == second,
    decreases first,
{
    let a = decimal(first);
    let b = decimal(second);
    assert(a.last() == decimal_digit_of(first));
    assert(b.last() == decimal_digit_of(second));
    assert(first % 10 == second % 10);
    lemma_decimal_nonempty(first / 10);
    lemma_decimal_nonempty(second / 10);
    if first >= 10 && second >= 10 {
        assert(a.drop_last() =~= decimal(first / 10));
        assert(b.drop_last() =~= decimal(second / 10));
        lemma_decimal_injective(first / 10, second / 10);
    }
}

proof fn lemma_decimal_nonempty(value: nat)
    ensures
        decimal(value).len() >= 1,
{
}

/// Different numbers give different names, so no attempt repeats another.
pub proof fn law_numbered_names_differ(name: Seq<char>, first: u64, second: u64)
    requires
        first != second,
    ensures
        numbered_name(name, first) != numbered_name(name, second),
{
    let a = numbered_name(name, first);
    let b = numbered_name(name, second);
    let da = decimal(first as nat);
    let db = decimal(second as nat);
    let behind = 1 + kept_extension(name).len();
    if a == b {
        lemma_numbered_digits(name, first);
        lemma_numbered_digits(name, second);
        let end = a.len() - behind;
        if da.len() == db.len() {
            assert(da =~= db);
            lemma_decimal_injective(first as nat, second as nat);
        } else if da.len() < db.len() {
            lemma_decimal_digits(second as nat, db.len() - da.len() - 1);
            assert(b[end - da.len() - 1] == db[db.len() - da.len() - 1]);
        } else {
            lemma_decimal_digits(first as nat, da.len() - db.len() - 1);
            assert(a[end - db.len() - 1] == da[da.len() - db.len() - 1]);
        }
    }
}

proof fn lemma_numbered_digits(name: Seq<char>, index: u64)
    ensures
        ({
            let all = numbered_name(name, index);
            let digits = decimal(index as nat);
            let end = all.len() - 1 - kept_extension(name).len();
            &&& end - digits.len() - 1 >= 0
            &&& all[end - digits.len() - 1] == '('
            &&& all.subrange(end - digits.len(), end) == digits
        }),
{
    let all = numbered_name(name, index);
    let digits = decimal(index as nat);
    let extension = kept_extension(name);
    let tail = rename_suffix(index) + extension;
    let front = fitting_prefix(
        name.take(stem_len(name)),
        MAX_NAME_BYTES - byte_len(tail),
    );
    assert(all == front + tail);
    let end = all.len() - 1 - extension.len();
    assert(all.subrange(end - digits.len(), end) =~= digits);
}

/// A name is accepted exactly if it is text that is not empty, fits into a
/// directory entry, holds no separator, drive mark or control character, and
/// does not end in a space or a dot; then it is that very name.
pub proof fn law_safe_names_are_accepted(name: Seq<char>)
    ensures
        ({
            let safe = {
                &&& name.len() > 0
                &&& encode_utf8(name).len() <= 255
                &&& forall|i: int|
                    0 <= i < name.len() ==> name[i] != '/' && name[i] != '\\' && name[i] != ':'
                        && !is_control(#[trigger] name[i])
                &&& name.last() != ' '
                &&& name.last() != '.'
            };
            &&& safe ==> checked_name(encode_utf8(name)) == Ok::<Seq<char>, ErrorView>(name)
            &&& !safe ==> (checked_name(encode_utf8(name)) matches Err(failure)
                && failure.kind is UnsafeName)
        }),
{
    vstd::utf8::encode_utf8_valid_utf8(name);
    vstd::utf8::encode_utf8_decode_utf8(name);
    if is_safe_name(name) {
        assert forall|i: int| 0 <= i < name.len() implies name[i] != '/' && name[i] != '\\'
            && name[i] != ':' && !is_control(#[trigger] name[i]) by {
            assert(!is_unsafe_char(name[i]));
        }
    }
}

/// A path is its directory, a separator unless there is one already or no
/// directory at all, and the name.
pub proof fn law_paths_are_joined_by_one_separator(directory: Seq<u8>, name: Seq<u8>)
    ensures
        ({
            let path = joined(directory, name);
            let between = path.len() - directory.len() - name.len();
            &&& between == 0 || between == 1
            &&& path.take(directory.len() as int) == directory
            &&& path.skip(path.len() - name.len()) == name
            &&& between == 1 <==> directory.len() > 0 && directory.last() != 0x2f
            &&& between == 1 ==> path[directory.len() as int] == 0x2f
        }),
{
    let path = joined(directory, name);
    assert(path.take(directory.len() as int) =~= directory);
    assert(path.skip(path.len() - name.len()) =~= name);
}

proof fn lemma_last_dot(name: Seq<char>, end: int)
    requires
        0 <= end <= name.len(),
    ensures
        -1 <= last_dot(name, end) < end,
        last_dot(name, end) >= 0 ==> name[last_dot(name, end)] == '.',
        forall|i: int| last_dot(name, end) < i < end ==> name[i] != '.',
    decreases end,
{
    if end > 0 && name[end - 1] != '.' {
        lemma_last_dot(name, end - 1);
    }
}

/// A numbered name keeps the extension behind the last dot and has its number
/// in front of it; of the stem it keeps as much as fits, and all of it where
/// there is room.
pub proof fn law_numbered_names_keep_stem_and_extension(
    name: Seq<char>,
    stem: Seq<char>,
    extension: Seq<char>,
    index: u64,
)
    requires
        name == stem + extension,
        stem.len() > 0,
        extension.len() > 0 ==> extension[0] == '.',
        forall|i: int| 0 < i < extension.len() ==> extension[i] != '.',
        extension.len() == 0 ==> forall|i: int| 0 < i < stem.len() ==> stem[i] != '.',
        byte_len(extension) <= 64,
    ensures
        ({
            let numbered = numbered_name(name, index);
            let tail = seq![' ', '('] + decimal(index as nat) + seq![')'] + extension;
            &&& numbered.len() >= tail.len()
            &&& numbered.skip(numbered.len() - tail.len()) == tail
            &&& numbered.len() - tail.len() <= stem.len()
            &&& numbered.take(numbered.len() - tail.len()) == stem.take(
                numbered.len() - tail.len(),
            )
            &&& byte_len(stem) + byte_len(tail) <= 255 ==> numbered == stem + tail
        }),
{
    lemma_last_dot(name, name.len() as int);
    let dot = last_dot(name, name.len() as int);
    if extension.len() > 0 {
        assert(name[stem.len() as int] == '.');
        assert forall|i: int| stem.len() < i < name.len() implies name[i] != '.' by {
            assert(name[i] == extension[i - stem.len()]);
        }
        assert(dot == stem.len());
    } else {
        assert(name =~= stem);
        assert(dot <= 0) by {
            if dot > 0 {
                assert(stem[dot] == '.');
            }
        }
    }
    assert(stem_len(name) == stem.len());
    assert(name.take(stem.len() as int) =~= stem);
    assert(name.skip(stem.len() as int) =~= extension);
    assert(kept_extension(name) == extension);
    let tail = rename_suffix(index) + extension;
    assert(tail == seq![' ', '('] + decimal(index as nat) + seq![')'] + extension);
    let limit = MAX_NAME_BYTES - byte_len(tail);
    lemma_suffix_len(index);
    lemma_byte_len_concat(rename_suffix(index), extension);
    let front = fitting_prefix(stem, limit);
    crate::text::law_fitting_fronts_are_the_longest(stem, limit, stem.len() as int);
    let numbered = numbered_name(name, index);
    assert(numbered == front + tail);
    assert(numbered.skip(front.len() as int) =~= tail);
    assert(numbered.take(front.len() as int) =~= front);
    assert(stem.take(stem.len() as int) =~= stem);
}

/// The bytes of two lists of paths add up, and a part of what fits fits.
pub proof fn law_parts_of_fitting_paths_fit(first: Seq<Seq<u8>>, second: Seq<Seq<u8>>)
    ensures
        total_len(first + second) == total_len(first) + total_len(second),
        paths_fit(first + second) ==> paths_fit(first) && paths_fit(second),
        forall|path: Seq<u8>|
            paths_fit(#[trigger] seq![path]) <==> path.len() <= 4_096,
    decreases second.len(),
{
    if second.len() == 0 {
        assert(first + second =~= first);
    } else {
        law_parts_of_fitting_paths_fit(first, second.drop_last());
        assert((first + second).drop_last() =~= first + second.drop_last());
    }
    if paths_fit(first + second) {
        assert forall|i: int| 0 <= i < first.len() implies (#[trigger] first[i]).len()
            <= MAX_PATH_LEN by {
            assert((first + second)[i] == first[i]);
        }
        assert forall|i: int| 0 <= i < second.len() implies (#[trigger] second[i]).len()
            <= MAX_PATH_LEN by {
            assert((first + second)[first.len() + i] == second[i]);
        }
    }
    assert forall|path: Seq<u8>| paths_fit(#[trigger] seq![path]) <==> path.len() <= 4_096 by {
        let one = seq![path];
        assert(one.drop_last() =~= Seq::<Seq<u8>>::empty());
        assert(total_len(one.drop_last()) == 0);
        assert(total_len(one) == path.len());
        assert(one[0] == path);
    }
}

} // verus!
