use std::collections::{BTreeMap, VecDeque};
use std::sync::atomic::{AtomicU8, Ordering};

use agenterm::clock::{Instant, MILLISECOND, SECOND};
use agenterm::link::LinkAction;
use agenterm::peer_headers::PeerHeaders;
use agenterm::storage::{
    first_attempt, inspect_source, next_attempt, read_length, upload_name, validate_source,
    Attempt, PublishStep, Sighting, Snapshot,
};
use agenterm::transfer_handle::{
    cancelled_phase, publication_phase, published_phase, TransferHandle, CANCELLED, COMMITTING,
};
use agenterm::zmodem::{encode_hex_header, Frame};
use agenterm::zmodem_runtime::{
    abort_sequence, acquire_worker_slot, error, join_path, next_transfer_id,
    protocol_error, renamed_name, safe_name, storage_error, validate_path_budget, ErrorKind, FileOutcome, OverwritePolicy, Role,
    RuntimeOutput, SubmitError, TransferError, TransferEvent, TransferOutcome, CODEC_BYTES,
    INPUT_SLOTS, MAX_FILES, MAX_INPUT_CHUNK, MAX_PATH_BYTES, MAX_QUEUE_BYTES, MAX_WORKERS,
    OUTPUT_SLOTS, RENAME_ATTEMPTS, WIRE_WINDOW,
};
use agenterm::zmodem_worker::{
    Choice, Publication, Stop, Worker, WorkerAction, WorkerEvent, CHOICE_TIMEOUT,
    CLOSING_TIMEOUT, DRAIN_TIMEOUT, RETRY_TIMEOUT, TRANSFER_TIMEOUT,
};

const NOW: Instant = 1_000 * SECOND;

/// A worker with its handle, its queues and its files in memory.
struct Side {
    worker: Worker,
    handle: TransferHandle,
    /// Files that can be uploaded, by path.
    sources: BTreeMap<Vec<u8>, Vec<u8>>,
    /// Published files, by name.
    published: BTreeMap<String, Vec<u8>>,
    queue: VecDeque<Vec<u8>>,
    source: Vec<u8>,
    target: Option<(String, Vec<u8>)>,
    stored: usize,
    outputs: VecDeque<RuntimeOutput>,
    event: Option<WorkerEvent>,
    /// A wire buffer that waits for its credit.
    waiting: Option<u64>,
    result: Option<Result<(), Stop>>,
    publication_failure: Option<TransferError>,
    cancel_before_publication: bool,
}

impl Side {
    fn new(id: u64, role: Role) -> Self {
        Self {
            worker: Worker::new(id, role, NOW),
            handle: TransferHandle::new(id, role),
            sources: BTreeMap::new(),
            published: BTreeMap::new(),
            queue: VecDeque::new(),
            source: Vec::new(),
            target: None,
            stored: 0,
            outputs: VecDeque::new(),
            event: Some(WorkerEvent::Resume),
            waiting: None,
            result: None,
            publication_failure: None,
            cancel_before_publication: false,
        }
    }

    fn done(&self) -> bool {
        self.result.is_some()
    }

    /// Lets the worker go on until it has to wait.
    fn run(&mut self, now: Instant) {
        for _ in 0..100_000 {
            if self.done() {
                return;
            }
            if let Some(sequence) = self.waiting {
                let credit = self.handle.within_window(sequence);
                let stopped = self.worker.check(now, self.handle.is_cancelled()).err();
                if let Some(stop) = stopped {
                    self.waiting = None;
                    self.event = Some(WorkerEvent::Sent(Err(stop)));
                } else if credit {
                    self.waiting = None;
                    self.event = Some(WorkerEvent::Sent(Ok(())));
                } else {
                    return;
                }
            }
            let event = self.event.take().expect("an owed event");
            assert!(self.worker.expects(&event));
            assert!(self.worker.can_number_wire());
            let cancelled = self.handle.is_cancelled();
            let mut action = self.worker.advance(event, now, cancelled);
            if matches!(action, WorkerAction::Begin) {
                action = self.worker.begin(now);
            }
            if !self.perform(action, now) {
                return;
            }
        }
        panic!("the worker never waits");
    }

    fn perform(&mut self, action: WorkerAction, _now: Instant) -> bool {
        let event = match action {
            WorkerAction::Continue => WorkerEvent::Resume,
            WorkerAction::Begin => unreachable!(),
            WorkerAction::Wait => {
                self.event = Some(WorkerEvent::Resume);
                return false;
            }
            WorkerAction::AwaitChoice => WorkerEvent::Choice {
                remote_cancelled: self.handle.is_remote_cancelled(),
                choice: match self.handle.take_configuration() {
                    Some(configuration) => Choice::Made(configuration),
                    None => Choice::Pending,
                },
            },
            WorkerAction::Inspect(path) => {
                let start = path.iter().rposition(|&byte| byte == b'/').map_or(0, |at| at + 1);
                let source = self.sources.get(&path);
                let result = upload_name(Some(&path[start..])).and_then(|name| match source {
                    Some(data) => inspect_source(path.clone(), name, true, data.len() as u64),
                    None => Err(storage_error("NotFound")),
                });
                self.queue.push_back(path);
                WorkerEvent::Inspected(result)
            }
            WorkerAction::OpenDirectory(path) => WorkerEvent::DirectoryOpened(Ok(path)),
            WorkerAction::Send { output, .. } => {
                if let RuntimeOutput::Wire { sequence, .. } = &output {
                    self.waiting = Some(*sequence);
                    self.outputs.push_back(output);
                    return true;
                }
                self.outputs.push_back(output);
                WorkerEvent::Sent(Ok(()))
            }
            WorkerAction::OpenSource => {
                let path = self.queue.pop_front().unwrap();
                self.source = self.sources[&path].clone();
                WorkerEvent::Done(Ok(()))
            }
            WorkerAction::ReadSource { offset, max_len } => {
                let result = read_length(self.source.len() as u64, offset, max_len);
                WorkerEvent::SourceRead(result.map(|count| {
                    let offset = offset as usize;
                    self.source[offset..offset + count].to_vec()
                }))
            }
            WorkerAction::ValidateSource | WorkerAction::Sync => WorkerEvent::Done(Ok(())),
            WorkerAction::Store(data) => {
                self.stored += data.len();
                self.target.as_mut().unwrap().1.extend(data);
                WorkerEvent::Done(Ok(()))
            }
            WorkerAction::Probe(name) => {
                WorkerEvent::Probed(Ok(self.published.contains_key(&name)))
            }
            WorkerAction::Create(name) => {
                self.target = Some((name, Vec::new()));
                WorkerEvent::Done(Ok(()))
            }
            WorkerAction::Publish => {
                if self.cancel_before_publication {
                    self.handle.cancel();
                }
                WorkerEvent::Published(self.publish())
            }
            WorkerAction::TakeInput => WorkerEvent::Input(self.handle.take_chunk()),
            WorkerAction::CloseInput => WorkerEvent::Closed(self.handle.close()),
            WorkerAction::Stop(result) => {
                self.handle.stop();
                let shared = match &result {
                    Ok(()) => Ok(()),
                    Err(Stop::Cancelled) => Err(Stop::Cancelled),
                    Err(Stop::RemoteCancelled) => Err(Stop::RemoteCancelled),
                    Err(Stop::Failed(failure)) => Err(Stop::Failed(failure.clone())),
                };
                self.outputs.extend(self.worker.conclude(shared));
                self.result = Some(result);
                return false;
            }
        };
        self.event = Some(event);
        true
    }

    fn publish(&mut self) -> Publication {
        let (name, data) = self.target.take().unwrap();
        let (directory, policy) = self.worker.download_plan().unwrap();
        if !self.handle.begin_publication() {
            return Publication::Lost;
        }
        let mut index = 0;
        let mut step = first_attempt(policy, &name);
        let result = loop {
            let (wanted, attempt) = match step {
                PublishStep::Replace(wanted) => {
                    let attempt = match self.publication_failure.take() {
                        Some(failure) => Attempt::Failed(failure),
                        None => Attempt::Persisted,
                    };
                    (wanted, attempt)
                }
                PublishStep::Create(wanted) => {
                    let attempt = if self.published.contains_key(&wanted) {
                        Attempt::Taken
                    } else {
                        Attempt::Persisted
                    };
                    (wanted, attempt)
                }
                PublishStep::Published => unreachable!(),
                PublishStep::Skipped => break Publication::Skipped,
                PublishStep::Failed(failure) => break Publication::Failed(failure),
            };
            if matches!(attempt, Attempt::Persisted) {
                self.published.insert(wanted.clone(), data.clone());
                break Publication::Published(join_path(&directory, wanted.as_bytes()));
            }
            step = next_attempt(policy, &name, index, attempt);
            index += 1;
        };
        self.handle.end_publication();
        result
    }

    /// The next output that the PTY is given.
    fn receive(&mut self) -> Option<RuntimeOutput> {
        while let Some(output) = self.outputs.pop_front() {
            if let Some(output) = self.handle.try_recv(output) {
                return Some(output);
            }
        }
        None
    }
}

/// Moves the first bytes of `pending` into the worker's queue.
fn submit(side: &mut Side, pending: &mut Vec<u8>) {
    while !pending.is_empty() {
        match side.handle.try_submit(pending) {
            Ok(count) => {
                pending.drain(..count);
            }
            Err(SubmitError::Full | SubmitError::Closed) => return,
        }
    }
}

#[derive(Default)]
struct Outcome {
    results: Vec<(String, FileOutcome, Option<Vec<u8>>)>,
    started: Vec<String>,
    finished: Option<(TransferOutcome, Vec<Vec<u8>>)>,
    aborted: bool,
    tail: Vec<u8>,
}

/// Runs an upload against a download until both have ended. Wire bytes travel
/// in pieces of at most `piece` bytes; `closing` follows the upload's closing
/// bytes.
fn transfer(upload: &mut Side, download: &mut Side, piece: usize, closing: &[u8]) -> [Outcome; 2] {
    let mut outcomes = [Outcome::default(), Outcome::default()];
    let mut now = NOW;
    let mut wires = [Vec::new(), Vec::new()];
    for _ in 0..200_000 {
        for side in 0..2 {
            let (me, peer) = if side == 0 {
                (&mut *upload, &mut *download)
            } else {
                (&mut *download, &mut *upload)
            };
            me.run(now);
            let outcome = &mut outcomes[side];
            match me.receive() {
                Some(RuntimeOutput::Wire { sequence, bytes, .. }) => {
                    let last = bytes == b"OO";
                    wires[side].extend(bytes);
                    if last {
                        wires[side].extend_from_slice(closing);
                    }
                    assert!(me.handle.acknowledge_write(sequence));
                    assert!(!me.handle.acknowledge_write(sequence));
                }
                Some(RuntimeOutput::Event(TransferEvent::FileStarted { name, .. })) => {
                    outcome.started.push(name);
                }
                Some(RuntimeOutput::Event(TransferEvent::FileResult {
                    name,
                    outcome: result,
                    path,
                    ..
                })) => outcome.results.push((name, result, path)),
                Some(RuntimeOutput::Event(TransferEvent::Finished {
                    outcome: result,
                    committed_paths,
                    ..
                })) => outcome.finished = Some((result, committed_paths)),
                Some(RuntimeOutput::Event(_)) => {}
                Some(RuntimeOutput::Tail { bytes, .. }) => outcome.tail.extend(bytes),
                Some(RuntimeOutput::Abort { .. }) => outcome.aborted = true,
                None => {}
            }
            let count = wires[side].len().min(piece);
            let mut part: Vec<u8> = wires[side].drain(..count).collect();
            submit(peer, &mut part);
            part.extend(wires[side].drain(..));
            wires[side] = part;
        }
        now += MILLISECOND;
        if outcomes.iter().all(|outcome| outcome.finished.is_some()) {
            // What a finished worker did not take goes back to the screen.
            outcomes[1].tail.append(&mut wires[0]);
            outcomes[0].tail.append(&mut wires[1]);
            return outcomes;
        }
    }
    panic!("the transfer never ends");
}

fn configured_pair(files: &[(&str, Vec<u8>)], policy: OverwritePolicy) -> (Side, Side) {
    let mut upload = Side::new(1, Role::Upload);
    let mut download = Side::new(2, Role::Download);
    let mut paths = Vec::new();
    for (name, data) in files {
        let path = format!("/source/{name}").into_bytes();
        upload.sources.insert(path.clone(), data.clone());
        paths.push(path);
    }
    upload.handle.configure_upload(paths).unwrap();
    download
        .handle
        .configure_download(b"/destination".to_vec(), policy)
        .unwrap();
    (upload, download)
}

#[test]
fn unsafe_names_are_rejected_without_interpreting_remote_paths() {
    for name in [
        "",
        ".",
        "..",
        "/tmp/file",
        "../file",
        "a/b",
        "a\\b",
        "C:file",
        "a\x1bb",
        "a\nb",
    ] {
        assert_eq!(
            safe_name(name.as_bytes()).unwrap_err().kind,
            ErrorKind::UnsafeName
        );
    }
    assert!(safe_name("文件 with spaces.bin".as_bytes()).is_ok());
    assert!(safe_name(&[0xff]).is_err());
}

#[test]
fn names_are_bounded_and_do_not_end_in_a_dot_or_a_space() {
    assert!(safe_name(&[b'x'; 255]).is_ok());
    assert!(safe_name(&[b'x'; 256]).is_err());
    assert!(safe_name(b"name.").is_err());
    assert!(safe_name(b"name ").is_err());
    assert!(safe_name("\u{85}".as_bytes()).is_err());
    assert_eq!(safe_name(b".hidden").unwrap(), ".hidden");
    assert_eq!(
        safe_name(&[0xff]).unwrap_err().message,
        "File name is not valid UTF-8"
    );
    assert_eq!(safe_name(b"").unwrap_err().message, "Unsafe transfer file name");
    assert_eq!(
        upload_name(None).unwrap_err().message,
        "Invalid upload file name"
    );
    assert_eq!(
        upload_name(Some(&[0xff])).unwrap_err().message,
        "Invalid upload file name"
    );
    assert_eq!(upload_name(Some(b"ok")).unwrap(), "ok");
}

#[test]
fn choice_holds_handshake_and_input_is_bounded() {
    let mut side = Side::new(1, Role::Download);
    let bytes = vec![0; MAX_INPUT_CHUNK * 2];
    for _ in 0..INPUT_SLOTS {
        assert_eq!(side.handle.try_submit(&bytes), Ok(MAX_INPUT_CHUNK));
    }
    assert_eq!(side.handle.try_submit(b"extra"), Err(SubmitError::Full));
    side.run(NOW + 40 * MILLISECOND);
    assert!(side.receive().is_none());
    side.handle.cancel();
    side.run(NOW + 41 * MILLISECOND);
    assert!(matches!(side.receive(), Some(RuntimeOutput::Abort { .. })));
    assert!(matches!(
        side.receive(),
        Some(RuntimeOutput::Event(TransferEvent::Finished {
            outcome: TransferOutcome::Cancelled,
            ..
        }))
    ));
}

#[test]
fn dequeue_does_not_release_write_credit_and_cancel_bypasses_it() {
    let mut side = Side::new(1, Role::Download);
    side.handle
        .configure_download(b"/tmp".to_vec(), OverwritePolicy::Skip)
        .unwrap();
    side.run(NOW);
    let Some(RuntimeOutput::Wire { sequence, .. }) = side.receive() else {
        panic!("Expected initial handshake");
    };
    // Credit is per sequence: acknowledging a sequence that was never handed out must fail.
    assert!(!side.handle.acknowledge_write(sequence + 1));
    let mut header = agenterm::zmodem::zrqinit_sequence();
    submit(&mut side, &mut header);
    assert!(side.receive().is_none());
    // Cancellation bypasses the wait for credit entirely.
    side.handle.cancel();
    side.run(NOW);
    assert!(matches!(side.receive(), Some(RuntimeOutput::Abort { .. })));
}

#[test]
fn wire_window_is_bounded_by_acknowledgements() {
    let mut handle = TransferHandle::new(1, Role::Upload);
    assert!(handle.within_window(WIRE_WINDOW - 1));
    assert!(!handle.within_window(WIRE_WINDOW));
    handle.try_recv(RuntimeOutput::Wire {
        id: 1,
        sequence: 1,
        bytes: vec![0],
    });
    assert!(handle.acknowledge_write(1));
    assert!(handle.within_window(WIRE_WINDOW));
    assert!(!handle.within_window(WIRE_WINDOW + 1));
    handle.cancel();
    assert!(handle
        .try_recv(RuntimeOutput::Wire {
            id: 1,
            sequence: 2,
            bytes: vec![0],
        })
        .is_none());
}

#[test]
fn upload_reads_bounded_offsets_and_detects_source_replacement() {
    assert_eq!(read_length(40_000, 1234, usize::MAX).unwrap(), MAX_INPUT_CHUNK);
    assert_eq!(read_length(40_000, 0, 17).unwrap(), 17);
    assert_eq!(read_length(40_000, 39_999, 17).unwrap(), 1);
    assert_eq!(
        read_length(40_000, 40_001, 17).unwrap_err().kind,
        ErrorKind::Protocol
    );
    assert_eq!(
        read_length(40_000, 40_000, 17).unwrap_err().kind,
        ErrorKind::SourceChanged
    );
    let snapshot = Snapshot {
        len: 40_000,
        modified: Some(1),
        identity: (1, 2, 3, 4),
    };
    let seen = Sighting {
        is_file: true,
        snapshot,
    };
    assert!(validate_source(&snapshot, &seen, &seen).is_ok());
    for changed in [
        Sighting {
            is_file: false,
            ..seen
        },
        Sighting {
            snapshot: Snapshot { len: 7, ..snapshot },
            ..seen
        },
        Sighting {
            snapshot: Snapshot {
                modified: None,
                ..snapshot
            },
            ..seen
        },
        Sighting {
            snapshot: Snapshot {
                identity: (1, 2, 3, 5),
                ..snapshot
            },
            ..seen
        },
    ] {
        assert_eq!(
            validate_source(&snapshot, &seen, &changed).unwrap_err().kind,
            ErrorKind::SourceChanged
        );
        assert_eq!(
            validate_source(&snapshot, &changed, &seen).unwrap_err().kind,
            ErrorKind::SourceChanged
        );
    }
}

#[test]
fn rejects_oversized_sparse_uploads() {
    assert!(matches!(
        inspect_source(
            b"/tmp/sparse".to_vec(),
            "sparse".to_owned(),
            true,
            u64::from(u32::MAX) + 1
        ),
        Err(TransferError {
            kind: ErrorKind::FileTooLarge,
            ..
        })
    ));
    assert!(inspect_source(b"/f".to_vec(), "f".to_owned(), true, u64::from(u32::MAX)).is_ok());
    assert!(matches!(
        inspect_source(b"/f".to_vec(), "f".to_owned(), false, 0),
        Err(TransferError {
            kind: ErrorKind::Configuration,
            ..
        })
    ));
}

#[test]
fn skip_handles_publication_race_and_rename_is_no_clobber() {
    let mut side = Side::new(2, Role::Download);
    side.published.insert("file.txt".to_owned(), b"existing".to_vec());
    let mut publish = |side: &mut Side, policy, data: &[u8]| {
        side.handle = TransferHandle::new(2, Role::Download);
        side.worker = Worker::new(2, Role::Download, NOW);
        side.event = Some(WorkerEvent::Resume);
        side.handle
            .configure_download(b"/destination".to_vec(), policy)
            .unwrap();
        side.run(NOW);
        side.target = Some(("file.txt".to_owned(), data.to_vec()));
        let publication = side.publish();
        side.waiting = None;
        publication
    };
    assert!(matches!(
        publish(&mut side, OverwritePolicy::Skip, b"new"),
        Publication::Skipped
    ));
    let Publication::Published(one) = publish(&mut side, OverwritePolicy::Rename, b"one") else {
        panic!("Expected a renamed file");
    };
    let Publication::Published(two) = publish(&mut side, OverwritePolicy::Rename, b"two") else {
        panic!("Expected another renamed file");
    };
    assert_ne!(one, two);
    assert_eq!(one, b"/destination/file (1).txt");
    assert_eq!(two, b"/destination/file (2).txt");
    assert_eq!(side.published["file (1).txt"], b"one");
    assert_eq!(side.published["file (2).txt"], b"two");
    assert_eq!(side.published["file.txt"], b"existing");
}

#[test]
fn publication_cancellation_gate_has_a_nonblocking_winner() {
    let phase = AtomicU8::new(0);
    phase.fetch_or(CANCELLED, Ordering::AcqRel);
    assert!(phase
        .compare_exchange(0, COMMITTING, Ordering::AcqRel, Ordering::Acquire)
        .is_err());
    assert_eq!(publication_phase(cancelled_phase(0)), None);
    phase.store(0, Ordering::Release);
    assert!(phase
        .compare_exchange(0, COMMITTING, Ordering::AcqRel, Ordering::Acquire)
        .is_ok());
    assert_eq!(publication_phase(0), Some(COMMITTING));
    phase.fetch_or(CANCELLED, Ordering::AcqRel);
    phase.fetch_and(!COMMITTING, Ordering::AcqRel);
    assert_eq!(phase.load(Ordering::Acquire), CANCELLED);
    assert_eq!(published_phase(cancelled_phase(COMMITTING)), CANCELLED);

    let mut handle = TransferHandle::new(1, Role::Download);
    assert!(handle.begin_publication());
    assert!(!handle.begin_publication());
    handle.cancel();
    handle.end_publication();
    assert!(handle.is_cancelled());
    assert!(!handle.begin_publication());
}

#[test]
fn native_worker_roundtrip_empty_binary_batch_and_exact_tail() {
    let payload: Vec<u8> = (0..20_000).map(|index| (index % 256) as u8).collect();
    for piece in [usize::MAX, 1000] {
        let (mut upload, mut download) = configured_pair(
            &[
                ("empty", Vec::new()),
                ("binary with spaces", payload.clone()),
                ("中文.txt", b"last".to_vec()),
            ],
            OverwritePolicy::Skip,
        );
        let outcomes = transfer(&mut upload, &mut download, piece, b"\r\nprompt> ");
        for (side, outcome) in outcomes.iter().enumerate() {
            assert!(!outcome.aborted, "Unexpected abort");
            assert_eq!(outcome.results.len(), 3);
            for (_, result, path) in &outcome.results {
                assert_eq!(*result, FileOutcome::Completed);
                assert_eq!(path.is_some(), side == 1);
            }
            let (finished, paths) = outcome.finished.as_ref().unwrap();
            assert_eq!(*finished, TransferOutcome::Completed);
            assert_eq!(paths.len(), if side == 1 { 3 } else { 0 });
            assert_eq!(outcome.started, ["empty", "binary with spaces", "中文.txt"]);
        }
        assert_eq!(outcomes[1].tail, b"\r\nprompt> ");
        assert!(outcomes[0].tail.is_empty());
        assert_eq!(download.published["binary with spaces"], payload);
        assert_eq!(download.published["empty"], b"");
        assert_eq!(download.published["中文.txt"], b"last");
    }
}

#[test]
fn declined_file_is_skipped_on_both_sides_and_the_batch_goes_on() {
    let (mut upload, mut download) = configured_pair(
        &[
            ("conflict.bin", vec![7; 8193]),
            ("fresh.bin", vec![8; 1025]),
        ],
        OverwritePolicy::Skip,
    );
    download
        .published
        .insert("conflict.bin".to_owned(), b"protected".to_vec());
    let outcomes = transfer(&mut upload, &mut download, usize::MAX, b"");
    for outcome in &outcomes {
        assert_eq!(outcome.results[0].0, "conflict.bin");
        assert_eq!(outcome.results[0].1, FileOutcome::Skipped);
        assert_eq!(outcome.results[1].0, "fresh.bin");
        assert_eq!(outcome.results[1].1, FileOutcome::Completed);
        assert_eq!(
            outcome.finished.as_ref().unwrap().0,
            TransferOutcome::Completed
        );
    }
    assert_eq!(download.published["conflict.bin"], b"protected");
    assert_eq!(download.published["fresh.bin"], vec![8; 1025]);
}

#[test]
fn overwriting_replaces_and_renaming_keeps_the_existing_file() {
    for (policy, published) in [
        (OverwritePolicy::Overwrite, "name.bin"),
        (OverwritePolicy::Rename, "name (1).bin"),
    ] {
        let (mut upload, mut download) = configured_pair(&[("name.bin", vec![1; 10])], policy);
        download
            .published
            .insert("name.bin".to_owned(), b"old".to_vec());
        let outcomes = transfer(&mut upload, &mut download, usize::MAX, b"");
        assert_eq!(outcomes[1].results[0].1, FileOutcome::Completed);
        assert_eq!(
            outcomes[1].results[0].2,
            Some(format!("/destination/{published}").into_bytes())
        );
        assert_eq!(download.published[published], vec![1; 10]);
    }
}

#[test]
fn cancelled_but_unexited_workers_keep_their_slots() {
    let mut occupied = 0;
    for _ in 0..MAX_WORKERS {
        occupied = acquire_worker_slot(occupied).unwrap();
    }
    assert!(matches!(
        acquire_worker_slot(occupied),
        Err(TransferError {
            kind: ErrorKind::WorkerLimit,
            ..
        })
    ));
    // A slot belongs to the worker, not to its cancel flag.
    let mut handle = TransferHandle::new(1, Role::Upload);
    handle.cancel();
    assert!(acquire_worker_slot(occupied).is_err());
    occupied -= 1;
    let replacement = acquire_worker_slot(occupied).unwrap();
    assert!(acquire_worker_slot(replacement).is_err());
}

#[test]
fn canonical_remote_cancel_is_detected_across_choice_chunks() {
    let mut side = Side::new(1, Role::Download);
    submit(&mut side, &mut vec![0x18; 2]);
    side.run(NOW);
    submit(&mut side, &mut vec![0x18; 3]);
    side.run(NOW);
    assert!(matches!(side.receive(), Some(RuntimeOutput::Abort { .. })));
    assert!(matches!(
        side.receive(),
        Some(RuntimeOutput::Event(TransferEvent::Finished {
            outcome: TransferOutcome::RemoteCancelled,
            ..
        }))
    ));
}

#[test]
fn interrupted_cancel_run_does_not_cancel_the_choice() {
    let mut side = Side::new(1, Role::Download);
    submit(&mut side, &mut vec![0x18, 0x18, 0x18, 0x18, b'x', 0x18]);
    side.run(NOW);
    assert!(!side.handle.is_remote_cancelled());
    assert!(!side.done());
}

#[test]
fn timer_deadline_fires_without_input_and_noise_cannot_reset_it() {
    let mut side = Side::new(1, Role::Download);
    let late = NOW + CHOICE_TIMEOUT;
    assert!(side.worker.check(late - 1, false).is_ok());
    assert!(matches!(
        side.worker.check(late, false),
        Err(Stop::Failed(TransferError {
            kind: ErrorKind::Timeout,
            ..
        }))
    ));
    submit(&mut side, &mut b"noise".to_vec());
    assert!(matches!(
        side.worker.check(late, false),
        Err(Stop::Failed(TransferError {
            kind: ErrorKind::Timeout,
            ..
        }))
    ));
    assert!(matches!(side.worker.check(late, true), Err(Stop::Cancelled)));
    assert!(matches!(
        side.worker.may_emit(true, NOW + DRAIN_TIMEOUT, NOW + DRAIN_TIMEOUT, false),
        Err(Stop::Failed(TransferError {
            kind: ErrorKind::WorkerStopped,
            ..
        }))
    ));
    assert!(side.worker.may_emit(true, NOW + DRAIN_TIMEOUT, NOW, true).is_ok());
    assert!(side.worker.may_emit(false, NOW, NOW, true).is_err());
}

#[test]
fn queue_payload_envelope_including_retained_credit_stays_below_one_mib() {
    let payloads = (INPUT_SLOTS + 1 + OUTPUT_SLOTS + 1) * MAX_INPUT_CHUNK;
    let metadata = 3 * MAX_PATH_BYTES + MAX_FILES * 255;
    let codec = 16 * 1024;
    assert!(payloads + metadata + codec < MAX_QUEUE_BYTES);
    assert_eq!(codec, CODEC_BYTES);
    assert_eq!(MAX_INPUT_CHUNK, 16 * 1024);
    assert_eq!(MAX_PATH_BYTES, 64 * 1024);
    assert_eq!(MAX_QUEUE_BYTES, 1024 * 1024);
}

#[test]
fn cancellation_before_commit_keeps_existing_destination_and_cleans_partial() {
    let (mut upload, mut download) =
        configured_pair(&[("file", b"replacement".to_vec())], OverwritePolicy::Overwrite);
    download
        .published
        .insert("file".to_owned(), b"existing".to_vec());
    download.cancel_before_publication = true;
    let outcomes = transfer(&mut upload, &mut download, usize::MAX, b"");
    assert!(matches!(download.result, Some(Err(Stop::Cancelled))));
    assert!(download.target.is_none());
    assert_eq!(download.published["file"], b"existing");
    assert!(matches!(
        &outcomes[1].results[..],
        [(_, FileOutcome::Failed(failure), None)]
            if failure.message == "File transfer cancelled before publication"
    ));
    assert!(outcomes[1].aborted);
}

#[test]
fn failed_atomic_publication_emits_failure_never_completion() {
    let (mut upload, mut download) =
        configured_pair(&[("file", b"data".to_vec())], OverwritePolicy::Overwrite);
    download.publication_failure = Some(storage_error("IsADirectory"));
    let outcomes = transfer(&mut upload, &mut download, usize::MAX, b"");
    assert!(matches!(download.result, Some(Err(Stop::Failed(_)))));
    let (finished, committed) = outcomes[1].finished.as_ref().unwrap();
    assert!(committed.is_empty());
    assert!(matches!(finished, TransferOutcome::Failed(_)));
    assert!(download.published.is_empty());
    assert!(outcomes[1]
        .results
        .iter()
        .any(|(_, outcome, _)| matches!(outcome, FileOutcome::Failed(_))));
    assert!(!outcomes[1]
        .results
        .iter()
        .any(|(_, outcome, _)| matches!(outcome, FileOutcome::Completed)));
}

#[test]
fn canonical_abort_during_active_receive_is_not_a_frame_error() {
    let mut side = Side::new(1, Role::Download);
    side.handle
        .configure_download(b"/tmp".to_vec(), OverwritePolicy::Skip)
        .unwrap();
    side.run(NOW);
    let Some(RuntimeOutput::Wire { sequence, .. }) = side.receive() else {
        panic!("Expected initial handshake");
    };
    side.handle.acknowledge_write(sequence);
    submit(&mut side, &mut b"**".to_vec());
    for _ in 0..5 {
        submit(&mut side, &mut vec![0x18]);
        side.run(NOW);
    }
    assert!(matches!(side.receive(), Some(RuntimeOutput::Abort { .. })));
    assert!(matches!(
        side.receive(),
        Some(RuntimeOutput::Event(TransferEvent::Finished {
            outcome: TransferOutcome::RemoteCancelled,
            ..
        }))
    ));
}

#[test]
fn held_cancel_bytes_reach_the_protocol_in_order() {
    // A header split between its pads and the escape still starts a receiver.
    let mut side = Side::new(1, Role::Download);
    side.handle
        .configure_download(b"/tmp".to_vec(), OverwritePolicy::Skip)
        .unwrap();
    side.run(NOW);
    let Some(RuntimeOutput::Wire { sequence, .. }) = side.receive() else {
        panic!("Expected initial handshake");
    };
    side.handle.acknowledge_write(sequence);
    for byte in agenterm::zmodem::zrqinit_sequence() {
        submit(&mut side, &mut vec![byte]);
        side.run(NOW);
    }
    assert!(matches!(side.receive(), Some(RuntimeOutput::Wire { .. })));
}

#[test]
fn silent_peer_is_asked_again_and_then_given_up() {
    let mut side = Side::new(1, Role::Download);
    side.handle
        .configure_download(b"/tmp".to_vec(), OverwritePolicy::Skip)
        .unwrap();
    side.run(NOW);
    let Some(RuntimeOutput::Wire { sequence, bytes, .. }) = side.receive() else {
        panic!("Expected initial handshake");
    };
    side.handle.acknowledge_write(sequence);
    side.run(NOW + RETRY_TIMEOUT - 1);
    assert!(side.receive().is_none());
    side.run(NOW + RETRY_TIMEOUT);
    side.run(NOW + RETRY_TIMEOUT);
    let Some(RuntimeOutput::Wire { bytes: again, .. }) = side.receive() else {
        panic!("Expected a repeated handshake");
    };
    assert_eq!(bytes, again);
    side.run(NOW + TRANSFER_TIMEOUT);
    assert!(matches!(
        side.result,
        Some(Err(Stop::Failed(TransferError {
            kind: ErrorKind::Timeout,
            ..
        })))
    ));
}

#[test]
fn missing_source_fails_the_upload_before_it_begins() {
    let mut side = Side::new(1, Role::Upload);
    side.handle
        .configure_upload(vec![b"/source/missing".to_vec()])
        .unwrap();
    side.run(NOW);
    assert!(matches!(
        &side.result,
        Some(Err(Stop::Failed(failure)))
            if failure.message == "Local file operation failed (NotFound)"
    ));
    assert!(matches!(side.receive(), Some(RuntimeOutput::Abort { .. })));
}

#[test]
fn configuration_is_accepted_once_and_for_its_role() {
    let mut handle = TransferHandle::new(1, Role::Upload);
    assert_eq!(handle.id(), 1);
    assert_eq!(handle.role(), Role::Upload);
    let kind = |result: Result<(), TransferError>| result.unwrap_err().kind;
    assert_eq!(kind(handle.configure_upload(Vec::new())), ErrorKind::Configuration);
    assert_eq!(
        kind(handle.configure_upload(vec![vec![b'x']; MAX_FILES + 1])),
        ErrorKind::Configuration
    );
    assert_eq!(
        handle
            .configure_upload(vec![vec![b'x'; 4097]])
            .unwrap_err()
            .message,
        "Selected paths exceed metadata budget"
    );
    assert_eq!(
        kind(handle.configure_download(b"/".to_vec(), OverwritePolicy::Skip)),
        ErrorKind::Configuration
    );
    handle.configure_upload(vec![b"/a".to_vec()]).unwrap();
    assert_eq!(
        handle
            .configure_upload(vec![b"/a".to_vec()])
            .unwrap_err()
            .message,
        "Transfer no longer accepts configuration"
    );
    assert!(handle.take_configuration().is_some());
    assert!(handle.take_configuration().is_none());
    let mut stopped = TransferHandle::new(2, Role::Download);
    stopped.stop();
    assert!(stopped.is_stopped());
    assert_eq!(
        kind(stopped.configure_download(b"/".to_vec(), OverwritePolicy::Skip)),
        ErrorKind::WorkerStopped
    );
    assert_eq!(stopped.try_submit(b"x"), Err(SubmitError::Closed));
}

#[test]
fn path_budgets_count_each_path_and_all_of_them() {
    assert!(validate_path_budget(&[vec![b'x'; 4096]]).is_ok());
    assert!(validate_path_budget(&[vec![b'x'; 4097]]).is_err());
    assert!(validate_path_budget(&vec![vec![b'x'; 4096]; 16]).is_ok());
    assert!(validate_path_budget(&vec![vec![b'x'; 4096]; 17]).is_err());
    assert_eq!(join_path(b"/a", b"b"), b"/a/b");
    assert_eq!(join_path(b"/", b"b"), b"/b");
    assert_eq!(join_path(b"", b"b"), b"b");
}

#[test]
fn renamed_names_keep_extension_and_length() {
    assert_eq!(renamed_name("file.txt", 1), "file (1).txt");
    assert_eq!(renamed_name("file", 12), "file (12)");
    assert_eq!(renamed_name(".hidden", 1), ".hidden (1)");
    assert_eq!(renamed_name("a.tar.gz", 3), "a.tar (3).gz");
    let long = format!("{}.txt", "x".repeat(251));
    let renamed = renamed_name(&long, 7);
    assert_eq!(renamed.len(), 255);
    assert!(renamed.ends_with("x (7).txt"));
    let wide = "文".repeat(85);
    let renamed = renamed_name(&wide, 7);
    assert_eq!(renamed, format!("{} (7)", "文".repeat(83)));
    let dropped = format!("a.{}", "e".repeat(64));
    assert_eq!(renamed_name(&dropped, 1), "a (1)");
    let kept = format!("a.{}", "e".repeat(63));
    assert_eq!(renamed_name(&kept, 1), format!("a (1).{}", "e".repeat(63)));
    let mut seen = std::collections::BTreeSet::new();
    for index in 1..200 {
        assert!(seen.insert(renamed_name(&long, index)));
    }
}

#[test]
fn publication_gives_up_after_its_attempts() {
    let name = "f".to_owned();
    assert!(matches!(
        next_attempt(OverwritePolicy::Rename, &name, RENAME_ATTEMPTS - 2, Attempt::Taken),
        PublishStep::Create(_)
    ));
    assert!(matches!(
        next_attempt(OverwritePolicy::Rename, &name, RENAME_ATTEMPTS - 1, Attempt::Taken),
        PublishStep::Failed(TransferError {
            kind: ErrorKind::Storage,
            ..
        })
    ));
    assert!(matches!(
        next_attempt(OverwritePolicy::Skip, &name, 0, Attempt::Taken),
        PublishStep::Skipped
    ));
    assert!(matches!(
        next_attempt(OverwritePolicy::Overwrite, &name, 0, Attempt::Persisted),
        PublishStep::Published
    ));
    assert!(matches!(
        first_attempt(OverwritePolicy::Overwrite, &name),
        PublishStep::Replace(_)
    ));
    assert!(matches!(
        first_attempt(OverwritePolicy::Skip, &name),
        PublishStep::Create(_)
    ));
}

#[test]
fn ids_count_up_and_abort_is_the_canonical_sequence() {
    let mut next = 1;
    assert_eq!(next_transfer_id(&mut next), 1);
    assert_eq!(next_transfer_id(&mut next), 2);
    let mut last = u64::MAX;
    assert_eq!(next_transfer_id(&mut last), u64::MAX);
    assert_eq!(last, 0);
    assert_eq!(abort_sequence(), [vec![0x18; 10], vec![0x08; 10]].concat());
    assert_eq!(error(ErrorKind::Timeout, "late").display(), "late");
}

#[test]
fn actions_of_the_protocol_are_decided_one_by_one() {
    let failed = |action: WorkerAction| match action {
        WorkerAction::Stop(Err(Stop::Failed(failure))) => failure.message,
        _ => panic!("expected a failure"),
    };
    let worker = || Worker::new(1, Role::Download, NOW);
    assert!(matches!(
        worker().act(LinkAction::Aborted, NOW),
        WorkerAction::Stop(Err(Stop::RemoteCancelled))
    ));
    assert_eq!(
        failed(worker().act(
            LinkAction::ReadFile {
                offset: 0,
                max_len: 1
            },
            NOW
        )),
        "File read without an active upload"
    );
    assert_eq!(
        failed(worker().act(LinkAction::WriteFile(vec![1]), NOW)),
        "File data without acceptance"
    );
    assert_eq!(
        failed(worker().act(LinkAction::FileCompleted, NOW)),
        "Completion without an active file"
    );
    assert_eq!(
        failed(worker().act(LinkAction::WriteWire(vec![0; MAX_INPUT_CHUNK + 1]), NOW)),
        "Native wire buffer exceeded budget"
    );
    assert_eq!(
        failed(worker().act(LinkAction::Other, NOW)),
        "Unsupported native protocol action"
    );
    assert_eq!(
        failed(worker().act(
            LinkAction::FileStarted {
                name: b"../up".to_vec(),
                size: None
            },
            NOW
        )),
        "Unsafe transfer file name"
    );
    assert!(matches!(
        worker().act(LinkAction::WriteWire(vec![5]), NOW),
        WorkerAction::Send {
            output: RuntimeOutput::Wire { id: 1, sequence: 1, bytes },
            terminal: false
        } if bytes == [5]
    ));

    let mut uploading = Worker::new(1, Role::Upload, NOW);
    assert!(matches!(
        uploading.note_offered("f".to_owned(), 10, Ok(()), NOW),
        WorkerAction::Send {
            output: RuntimeOutput::Event(TransferEvent::FileStarted { size: Some(10), .. }),
            ..
        }
    ));
    assert!(matches!(
        uploading.act(
            LinkAction::ReadFile {
                offset: 3,
                max_len: 4
            },
            NOW
        ),
        WorkerAction::ReadSource {
            offset: 3,
            max_len: 4
        }
    ));
    assert!(matches!(
        uploading.note_supplied(7, Ok(()), NOW + SECOND),
        WorkerAction::Send {
            output: RuntimeOutput::Event(TransferEvent::Progress {
                bytes: 7,
                total: Some(10),
                ..
            }),
            terminal: false
        }
    ));
    // No header declined the file, so the peer has it.
    assert!(matches!(
        uploading.act(LinkAction::FileCompleted, NOW),
        WorkerAction::ValidateSource
    ));
    uploading.note_offered("g".to_owned(), 2, Ok(()), NOW);
    assert_eq!(
        failed(uploading.act(LinkAction::SessionCompleted, NOW)),
        "Session finished with an incomplete file"
    );
    assert_eq!(
        failed(uploading.act(LinkAction::WriteFile(vec![1]), NOW)),
        "Write requested during upload"
    );

    let refused = || Err(error(ErrorKind::Protocol, "refused"));
    assert_eq!(failed(worker().go_on_unless(refused())), "refused");
    assert_eq!(failed(worker().end_batch(refused())), "refused");
    assert_eq!(failed(worker().note_repeated(refused(), NOW)), "refused");
    assert_eq!(failed(worker().note_stored(1, refused(), NOW)), "refused");
    assert_eq!(
        failed(worker().note_consumed(true, Ok(0), NOW)),
        "Native escape made no progress"
    );
    assert_eq!(
        failed(worker().note_consumed(false, Ok(0), NOW)),
        "Native protocol made no input progress"
    );
    assert!(matches!(
        worker().note_stored(0, Ok(()), NOW),
        WorkerAction::Continue
    ));
    assert!(matches!(
        worker().note_repeated(Ok(()), NOW),
        WorkerAction::Wait
    ));
}

#[test]
fn native_errors_keep_their_kind_but_not_their_bytes() {
    let large = protocol_error(zmodem2::Error::MalformedFileSize);
    assert_eq!(large.kind, ErrorKind::FileTooLarge);
    let frame = protocol_error(zmodem2::Error::MalformedFrame(0x1b));
    assert_eq!(frame.kind, ErrorKind::Protocol);
    assert_eq!(frame.message, "Native ZMODEM protocol rejected the transfer");
}

#[test]
fn peer_headers_are_heard_across_splits() {
    let skip = encode_hex_header(Frame::Other(5), &[0; 4]);
    let ready = encode_hex_header(Frame::Zrinit, &[0, 0, 0, 0x23]);
    for piece in 1..30 {
        let mut peer = PeerHeaders::new();
        let mut hear = |bytes: &[u8]| {
            for part in bytes.chunks(piece) {
                peer.hear(part);
            }
            peer.skipped()
        };
        assert!(!hear(&ready));
        assert!(hear(&skip));
        assert!(hear(b"noise * and ** pads"));
        assert!(!hear(&[&skip[..], &ready[..]].concat()));
        assert!(hear(&[&ready[..], &skip[..18]].concat()));
    }
}

#[test]
fn empty_file_that_is_declined_is_skipped_on_both_sides() {
    let (mut upload, mut download) = configured_pair(
        &[("empty", Vec::new()), ("fresh", b"x".to_vec())],
        OverwritePolicy::Skip,
    );
    download.published.insert("empty".to_owned(), b"old".to_vec());
    for outcome in &transfer(&mut upload, &mut download, usize::MAX, b"") {
        assert_eq!(outcome.results[0].1, FileOutcome::Skipped);
        assert_eq!(outcome.results[1].1, FileOutcome::Completed);
    }
    assert_eq!(download.published["empty"], b"old");
}

/// Uploads four bytes to a peer that sends these headers one after the other,
/// and returns the result of the file.
fn uploaded_to(headers: &[(Frame, [u8; 4])]) -> (FileOutcome, u64) {
    let (mut upload, _) = configured_pair(&[("f", b"data".to_vec())], OverwritePolicy::Skip);
    for (frame, flags) in headers {
        let mut header = encode_hex_header(*frame, flags);
        submit(&mut upload, &mut header);
        for _ in 0..100 {
            upload.run(NOW);
            match upload.receive() {
                Some(RuntimeOutput::Wire { sequence, .. }) => {
                    upload.handle.acknowledge_write(sequence);
                }
                Some(RuntimeOutput::Event(TransferEvent::FileResult {
                    outcome, bytes, ..
                })) => return (outcome, bytes),
                _ => {}
            }
        }
    }
    panic!("the file has no result");
}

#[test]
fn last_header_tells_a_skipped_upload_from_a_received_one() {
    let ready = (Frame::Zrinit, [0, 0, 0, 0x23]);
    let skip = (Frame::Other(5), [0; 4]);
    let position = |count: u8| (Frame::Other(9), [count, 0, 0, 0]);
    let acknowledged = (Frame::Other(3), [4, 0, 0, 0]);
    // Declined at once, and after all of it was read.
    assert_eq!(uploaded_to(&[ready, skip]), (FileOutcome::Skipped, 0));
    assert_eq!(
        uploaded_to(&[ready, position(0), acknowledged, skip]),
        (FileOutcome::Skipped, 4)
    );
    // Received, and held by the peer already.
    assert_eq!(
        uploaded_to(&[ready, position(0), acknowledged, ready]),
        (FileOutcome::Completed, 4)
    );
    assert_eq!(
        uploaded_to(&[ready, position(4), ready]),
        (FileOutcome::Completed, 4)
    );
}

/// Runs a transfer whose sender ends its session with `closing`, and returns
/// the download with what followed the transfer.
fn closed_with(closing: &[u8]) -> (Side, Vec<u8>) {
    let (mut upload, mut download) =
        configured_pair(&[("f", b"data".to_vec())], OverwritePolicy::Skip);
    let mut now = NOW;
    let mut wires = [Vec::new(), Vec::new()];
    let mut given_back = Vec::new();
    for _ in 0..10_000 {
        upload.run(now);
        while let Some(output) = upload.receive() {
            if let RuntimeOutput::Wire { sequence, bytes, .. } = output {
                if bytes == b"OO" {
                    wires[0].extend_from_slice(closing);
                } else {
                    wires[0].extend(bytes);
                }
                upload.handle.acknowledge_write(sequence);
                upload.run(now);
            }
        }
        submit(&mut download, &mut wires[0]);
        download.run(now);
        while let Some(output) = download.receive() {
            match output {
                RuntimeOutput::Wire { sequence, bytes, .. } => {
                    wires[1].extend(bytes);
                    download.handle.acknowledge_write(sequence);
                    download.run(now);
                }
                RuntimeOutput::Tail { bytes, .. } => given_back.extend(bytes),
                _ => {}
            }
        }
        submit(&mut upload, &mut wires[1]);
        now += CLOSING_TIMEOUT / 10;
        if upload.done() && download.done() {
            given_back.append(&mut wires[0]);
            return (download, given_back);
        }
    }
    panic!("the transfer never ends");
}

#[test]
fn download_is_over_only_after_both_closing_letters() {
    for (closing, tail) in [
        (&b"OO"[..], &b""[..]),
        (b"OOk", b"k"),
        (b"OOO", b"O"),
        (b"OO\r\nprompt> ", b"\r\nprompt> "),
    ] {
        let (download, given_back) = closed_with(closing);
        assert!(matches!(download.result, Some(Ok(()))));
        assert_eq!(given_back, tail);
    }
    for closing in [&b""[..], b"O", b"Only", b"$ ", b"O\x18O"] {
        let (download, given_back) = closed_with(closing);
        assert!(matches!(
            download.result,
            Some(Err(Stop::Failed(TransferError {
                kind: ErrorKind::Timeout,
                ..
            })))
        ));
        assert!(given_back.is_empty());
        // The file itself was published before.
        assert_eq!(download.published["f"], b"data");
    }
    let (download, _) = closed_with(b"O\x18\x18\x18\x18\x18");
    assert!(matches!(download.result, Some(Err(Stop::RemoteCancelled))));
}

#[test]
fn positions_that_the_peer_confirms_count_as_progress() {
    let ready = encode_hex_header(Frame::Zrinit, &[0, 0, 0, 0x23]);
    let position = encode_hex_header(Frame::Other(9), &[3, 0, 0, 0]);
    let (mut upload, _) = configured_pair(&[("f", b"data".to_vec())], OverwritePolicy::Skip);
    let later = NOW + SECOND;
    let mut progress = Vec::new();
    for header in [ready, position] {
        submit(&mut upload, &mut header.clone());
        for _ in 0..100 {
            upload.run(later);
            match upload.receive() {
                Some(RuntimeOutput::Wire { sequence, .. }) => {
                    upload.handle.acknowledge_write(sequence);
                }
                Some(RuntimeOutput::Event(TransferEvent::Progress { bytes, total, .. })) => {
                    progress.push((bytes, total));
                }
                _ => {}
            }
        }
    }
    // The peer resumes at the third byte; only the fourth is read.
    assert_eq!(progress[0], (3, Some(4)));
    let deadline = later + TRANSFER_TIMEOUT;
    assert!(upload.worker.check(deadline - 1, false).is_ok());
    assert!(upload.worker.check(deadline, false).is_err());

    let mut peer = PeerHeaders::new();
    assert_eq!(peer.position(), None);
    peer.hear(&encode_hex_header(Frame::Other(3), &[1, 2, 0, 0]));
    assert_eq!(peer.position(), Some(0x201));
    peer.hear(&encode_hex_header(Frame::Zrinit, &[7, 7, 7, 7]));
    assert_eq!(peer.position(), Some(0x201));
    peer.forget_position();
    assert_eq!(peer.position(), None);
}

#[test]
fn transfer_ids_rise_and_do_not_repeat() {
    let mut next = 1;
    let ids: Vec<u64> = (0..1000).map(|_| next_transfer_id(&mut next)).collect();
    assert_eq!(ids[0], 1);
    assert!(ids.windows(2).all(|pair| pair[0] < pair[1]));
    let mut next = u64::MAX;
    assert_eq!(next_transfer_id(&mut next), u64::MAX);
    assert_eq!(next_transfer_id(&mut next), 0);
}
