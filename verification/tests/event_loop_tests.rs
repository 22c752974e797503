use std::io::{self, ErrorKind, Write};

use agenterm::clock::{Instant, SECOND};
use agenterm::event_loop::{
    handle_message, must_finish_sync, needs_write, queue_responses, shut_down, wakes,
    yield_to_transfer, ExitReason, LoopState, Message, MessageEffect,
};
use agenterm::pty_writing::{next_write, note_write, State, WriteResult, Writing, IO_BUDGET};
use agenterm::status::{
    format_bytes, format_duration, progress_detail, sanitized_name, status_line, GIB, KIB, MIB,
};
use agenterm::zmodem_router::{
    minimum_timeout, update_rate, Batch, RateMeter, Release, Report, Request, TransferWriting,
    ZmodemRouter, CANCEL_TIMEOUT, CHOICE_TIMEOUT, MAX_RETAINED_INPUT, PROGRESS_RENDER_INTERVAL,
    READ_BUFFER_SIZE, WORKER_POLL_INTERVAL,
};
use agenterm::zmodem_runtime::{
    abort_sequence, error, Control, ErrorKind as TransferErrorKind, FileOutcome, OverwritePolicy,
    Role, RuntimeOutput, SubmitError, TransferError, TransferEvent, TransferOutcome,
};

const RZ_HEADER: &[u8] = b"**\x18B0100000023be50\r\x8a\x11";

const NOW: Instant = 1_000 * SECOND;

fn nothing() -> Batch {
    Batch {
        outputs: Vec::new(),
        gone: false,
    }
}

fn batch(outputs: Vec<RuntimeOutput>, gone: bool) -> Batch {
    Batch { outputs, gone }
}

fn enabled() -> ZmodemRouter {
    let mut router = ZmodemRouter::default();
    router.control(Control::Enable(true), NOW);
    router
}

/// Routes `bytes` and starts the transfer that they ask for.
fn route(router: &mut ZmodemRouter, id: u64, bytes: &[u8], now: Instant) -> Report {
    let routed = router.route(bytes, now);
    let mut report = Report::new();
    report.render = routed.render;
    if let Some(start) = routed.start {
        router.begin(id, start.role, true, Ok(()), &mut report, now);
        router.retain(&start.protocol);
    }
    report
}

fn write_buffer(
    writer: &mut impl Write,
    buffer: &mut Writing,
    can_write: &mut bool,
) -> io::Result<bool> {
    let mut budget = IO_BUDGET;
    loop {
        let count = next_write(buffer, budget);
        if count == 0 {
            break;
        }
        let result = match writer.write(&buffer.remaining_bytes()[..count]) {
            Ok(written) => WriteResult::Wrote(written),
            Err(error) if error.kind() == ErrorKind::WouldBlock => WriteResult::WouldBlock,
            Err(error) if error.kind() == ErrorKind::Interrupted => WriteResult::Interrupted,
            Err(error) => return Err(error),
        };
        if !note_write(buffer, &mut budget, can_write, result) {
            break;
        }
    }
    Ok(buffer.finished())
}

/// Writes the router's first buffer; the number to acknowledge, if any.
fn write(
    router: &mut ZmodemRouter,
    writer: &mut impl Write,
    can_write: &mut bool,
    now: Instant,
) -> io::Result<Option<u64>> {
    let Some(mut wire) = router.front_wire() else {
        return Ok(None);
    };
    write_buffer(writer, &mut wire.buffer, can_write)?;
    Ok(router.wrote(wire, now))
}

/// Looks at the router's first buffer.
fn front(router: &mut ZmodemRouter, now: Instant) -> (Option<u64>, Vec<u8>) {
    let wire = router.front_wire().expect("queued wire buffer");
    let seen = (wire.sequence, wire.buffer.remaining_bytes().to_vec());
    router.wrote(wire, now);
    seen
}

#[test]
fn disabled_router_preserves_protocol_and_ordinary_bytes() {
    let mut router = ZmodemRouter::default();
    let bytes = [b"prefix\x00".as_slice(), RZ_HEADER, b"prompt **"].concat();
    let report = route(&mut router, 1, &bytes, NOW);
    assert_eq!(report.render, bytes);
    assert!(!router.busy());
    assert!(report.events.is_empty());
    assert_eq!(router.next_timeout(NOW), None);
}

#[test]
fn candidate_expires_without_another_read_and_disable_flushes_once() {
    let mut router = ZmodemRouter::default();
    router.control(Control::Enable(true), NOW);
    assert_eq!(route(&mut router, 1, b"ordinary **", NOW).render, b"ordinary ");
    let deadline = router.detector_deadline().unwrap();
    assert_eq!(
        router.poll(Vec::new(), nothing(), deadline).report.render,
        b"**"
    );
    assert!(router
        .poll(Vec::new(), nothing(), deadline)
        .report
        .render
        .is_empty());
    assert_eq!(router.next_timeout(deadline), None);
    assert!(route(&mut router, 1, b"*", NOW).render.is_empty());
    assert_eq!(router.control(Control::Enable(false), NOW).0, b"*");
    assert!(router.control(Control::Enable(false), NOW).0.is_empty());
}

#[test]
fn waiting_request_is_single_bounded_and_rejects_expired_selection() {
    let mut router = enabled();
    let report = route(&mut router, 7, RZ_HEADER, NOW);
    let id = router.active().unwrap().id();
    assert_eq!(id, 7);
    assert_eq!(
        report.events,
        [TransferEvent::Requested {
            id,
            role: Role::Upload
        }]
    );
    let again = route(&mut router, 8, RZ_HEADER, NOW);
    assert!(again.events.is_empty());
    assert!(!router.active().unwrap().is_configured());
    let remaining = MAX_RETAINED_INPUT - router.active().unwrap().retained_len();
    router.retain(&vec![b'x'; remaining]);
    assert_eq!(router.read_capacity(), 0);
    assert_eq!(
        router.active().unwrap().retained_len(),
        MAX_RETAINED_INPUT
    );
    assert_eq!(router.next_timeout(NOW), Some(WORKER_POLL_INTERVAL));

    let late = NOW + CHOICE_TIMEOUT;
    let (_, request) = router.control(
        Control::Upload {
            id,
            paths: vec![b"never-read".to_vec()],
        },
        late,
    );
    assert!(matches!(request, Request::Nothing));
    assert!(!router.active().unwrap().is_configured());
    let polled = router.poll(Vec::new(), nothing(), late);
    assert!(polled.cancel_worker);
    assert_eq!(front(&mut router, late).1, abort_sequence());
    assert!(matches!(
        &polled.report.events[0],
        TransferEvent::Finished {
            id: finished,
            outcome: TransferOutcome::Failed(TransferError {
                kind: TransferErrorKind::Timeout,
                ..
            }),
            ..
        } if *finished == id
    ));
}

#[test]
fn late_upload_callback_cannot_arm_an_idle_router() {
    let mut router = enabled();
    let (render, request) = router.control(
        Control::Upload {
            id: 3,
            paths: vec![b"never-read".to_vec()],
        },
        NOW,
    );
    assert!(render.is_empty());
    assert!(!router.busy());
    assert!(matches!(request, Request::Nothing));
}

#[test]
fn abort_recovery_suppresses_all_protocol_residue() {
    let mut router = enabled();
    router.queue_abort(5, NOW);
    let initial_deadline = router.recovery_deadline().unwrap();
    let input = [RZ_HEADER, b"shell> \x00\xff"].concat();
    let mut rendered = Vec::new();
    let mut events = 0;
    for byte in input {
        let report = route(&mut router, 6, &[byte], NOW);
        rendered.extend(report.render);
        events += report.events.len();
    }
    assert!(rendered.is_empty());
    assert_eq!(events, 0);
    assert!(router.active().is_none());
    let deadline = router.recovery_deadline().unwrap();
    assert!(deadline >= initial_deadline);
    router.poll(Vec::new(), nothing(), deadline);
    assert!(router.recovery_deadline().is_none());
    assert_eq!(route(&mut router, 6, b"shell> ", deadline).render, b"shell> ");
}

struct PartialWriter {
    bytes: Vec<u8>,
    allowance: usize,
}

impl Write for PartialWriter {
    fn write(&mut self, bytes: &[u8]) -> io::Result<usize> {
        if self.allowance == 0 {
            return Err(io::Error::from(ErrorKind::WouldBlock));
        }
        let count = bytes.len().min(self.allowance);
        self.bytes.extend_from_slice(&bytes[..count]);
        self.allowance -= count;
        Ok(count)
    }

    fn flush(&mut self) -> io::Result<()> {
        Ok(())
    }
}

#[test]
fn partial_wire_keeps_sequence_and_abort_replaces_unwritten_suffix() {
    let id = 9;
    let mut router = ZmodemRouter::default();
    router.wrote(
        TransferWriting {
            id,
            sequence: Some(7),
            buffer: Writing::new(vec![0, 1, 2, 3, 255]),
        },
        NOW,
    );
    let mut writer = PartialWriter {
        bytes: Vec::new(),
        allowance: 2,
    };
    let mut can_write = true;
    write(&mut router, &mut writer, &mut can_write, NOW).unwrap();
    assert!(!can_write);
    assert_eq!(writer.bytes, [0, 1]);
    assert_eq!(front(&mut router, NOW), (Some(7), vec![2, 3, 255]));
    router.queue_abort(id, NOW);
    writer.allowance = 100;
    can_write = true;
    write(&mut router, &mut writer, &mut can_write, NOW).unwrap();
    assert_eq!(writer.bytes, [vec![0, 1], abort_sequence()].concat());
    assert!(!router.has_wire());
}

#[test]
fn write_budget_and_deadlines_allow_control_channel_service() {
    let mut writer = Vec::new();
    let mut buffer = Writing::new(vec![0xff; IO_BUDGET + 1]);
    let mut can_write = true;
    assert!(!write_buffer(&mut writer, &mut buffer, &mut can_write).unwrap());
    assert_eq!(writer.len(), IO_BUDGET);
    assert!(can_write);
    assert!(write_buffer(&mut writer, &mut buffer, &mut can_write).unwrap());
    assert_eq!(writer.len(), IO_BUDGET + 1);
    assert_eq!(
        minimum_timeout(Some(SECOND), Some(WORKER_POLL_INTERVAL)),
        Some(WORKER_POLL_INTERVAL)
    );
}

#[test]
fn status_names_cannot_inject_terminal_commands() {
    assert_eq!(
        sanitized_name("name\x1b]52;secret\x07\r\n\u{202e}txt"),
        "name?]52;secret????txt"
    );
    assert_eq!(sanitized_name(&"x".repeat(1000)).len(), 256);
    let line = status_line(
        &TransferEvent::FileStarted {
            id: 1,
            role: Role::Download,
            name: "file\n\x1b[2J".to_owned(),
            size: None,
        },
        None,
    );
    assert_eq!(line.iter().filter(|&&byte| byte == 0x1b).count(), 3);
    assert!(!String::from_utf8(line).unwrap().contains("\x1b[2J"));
}

#[test]
fn status_uses_remote_command_direction_and_weterm_style() {
    let download = status_line(
        &TransferEvent::Progress {
            id: 1,
            role: Role::Download,
            name: "archive.tar".to_owned(),
            bytes: 32 * 1024 * 1024,
            total: Some(64 * 1024 * 1024),
        },
        Some(4 * 1024 * 1024),
    );
    let download = String::from_utf8(download).unwrap();
    assert!(download.starts_with("\x1b[1A\r\x1b[2K"));
    assert!(download.ends_with("\r\n\x1b[0m"));
    assert!(
        download.contains("\x1b[32msz << archive.tar::50%, 32.0 MiB/64.0 MiB, 4.0 MiB/s, ETA 8s")
    );

    let upload = status_line(
        &TransferEvent::Requested {
            id: 2,
            role: Role::Upload,
        },
        None,
    );
    assert!(String::from_utf8(upload)
        .unwrap()
        .contains("** rz waiting to receive, please choose files **",));
}

#[test]
fn progress_omits_eta_until_rate_is_available() {
    assert_eq!(progress_detail(512, Some(1024), None), "50%, 512 B/1 KiB");
    assert_eq!(format_duration(65), "1m05s");
    assert_eq!(format_duration(3 * 60 * 60 + 20 * 60), "3h20m");
}

#[test]
fn byte_counts_read_as_double_precision_formatting_shows_them() {
    let reference = |bytes: u64| {
        if bytes >= GIB {
            format!("{:.1} GiB", bytes as f64 / GIB as f64)
        } else if bytes >= MIB {
            format!("{:.1} MiB", bytes as f64 / MIB as f64)
        } else if bytes >= KIB {
            format!("{:.0} KiB", bytes as f64 / KIB as f64)
        } else {
            format!("{bytes} B")
        }
    };
    let mut samples = vec![
        0, 1, 1023, 1024, 1535, 1536, 1537, 2559, 2560, 2561, 3584, MIB - 1, MIB, GIB - 1, GIB,
        u64::MAX, u64::MAX - 1, u64::MAX - 1024, (1 << 53) - 1, 1 << 53, (1 << 53) + 1,
        (1 << 54) + 2, (1 << 54) + 6, 1 << 63,
    ];
    let mut state = 0x9e37_79b9_7f4a_7c15u64;
    for _ in 0..20_000 {
        state = state.wrapping_mul(6364136223846793005).wrapping_add(1442695040888963407);
        samples.push(state >> (state % 64));
    }
    // Exact halves of the last shown digit.
    for count in 0..200u64 {
        samples.push(MIB + count * MIB / 20);
        samples.push(GIB + count * GIB / 20);
        samples.push(KIB + count * KIB / 2);
    }
    for bytes in samples {
        assert_eq!(format_bytes(bytes), reference(bytes), "{bytes}");
    }
}

#[test]
fn durations_and_details_cover_every_form() {
    assert_eq!(format_duration(0), "0s");
    assert_eq!(format_duration(59), "59s");
    assert_eq!(format_duration(60), "1m00s");
    assert_eq!(format_duration(3599), "59m59s");
    assert_eq!(format_duration(3600), "1h00m");
    assert_eq!(progress_detail(10, None, None), "10 B");
    assert_eq!(progress_detail(10, None, Some(2048)), "10 B, 2 KiB/s");
    assert_eq!(progress_detail(10, Some(0), Some(0)), "10 B");
    assert_eq!(progress_detail(0, Some(3), Some(2)), "0%, 0 B/3 B, 2 B/s, ETA 2s");
    assert_eq!(progress_detail(9, Some(3), None), "100%, 9 B/3 B");
    assert_eq!(
        progress_detail(u64::MAX, Some(u64::MAX), None),
        format!("1%, {}/{}", format_bytes(u64::MAX), format_bytes(u64::MAX))
    );
}

#[test]
fn results_and_ends_have_lines_of_their_own() {
    let line = |event: &TransferEvent| String::from_utf8(status_line(event, None)).unwrap();
    let result = |outcome| TransferEvent::FileResult {
        id: 1,
        role: Role::Upload,
        name: "f".to_owned(),
        bytes: 5,
        outcome,
        path: None,
    };
    assert_eq!(
        line(&result(FileOutcome::Completed)),
        "\x1b[1A\r\x1b[2K\x1b[90mrz >> f::5 B, completed\r\n\x1b[0m"
    );
    assert_eq!(
        line(&result(FileOutcome::Skipped)),
        "\x1b[1A\r\x1b[2K\x1b[33mrz >> f::5 B, skipped\r\n\x1b[0m"
    );
    assert_eq!(
        line(&result(FileOutcome::Failed(error(
            TransferErrorKind::Protocol,
            "x"
        )))),
        "\x1b[1A\r\x1b[2K\x1b[31mrz >> f::5 B, failed\r\n\x1b[0m"
    );
    let finished = |outcome| TransferEvent::Finished {
        id: 1,
        role: Role::Download,
        outcome,
        committed_paths: Vec::new(),
    };
    assert_eq!(
        line(&finished(TransferOutcome::Completed)),
        "\r\x1b[2K\x1b[90msz << completed\r\n\x1b[0m"
    );
    assert_eq!(
        line(&finished(TransferOutcome::Cancelled)),
        "\r\x1b[2K\x1b[33msz << cancelled\r\n\x1b[0m"
    );
    assert_eq!(
        line(&finished(TransferOutcome::RemoteCancelled)),
        "\r\x1b[2K\x1b[33msz << cancelled by remote\r\n\x1b[0m"
    );
    assert_eq!(
        line(&TransferEvent::Requested {
            id: 1,
            role: Role::Download
        }),
        "\r\x1b[2K\x1b[32m** sz waiting to send, please choose receive folder **\r\n\x1b[0m"
    );
}

fn progress(id: u64, bytes: u64) -> TransferEvent {
    TransferEvent::Progress {
        id,
        role: Role::Upload,
        name: "f".to_owned(),
        bytes,
        total: Some(1 << 30),
    }
}

#[test]
fn rate_is_sampled_and_smoothed() {
    let mut meter = RateMeter {
        baseline: None,
        rate: None,
    };
    update_rate(
        &mut meter,
        &TransferEvent::FileStarted {
            id: 1,
            role: Role::Upload,
            name: "f".to_owned(),
            size: None,
        },
        NOW,
    );
    update_rate(&mut meter, &progress(1, 1000), NOW + SECOND / 5);
    assert_eq!(meter.rate, None);
    update_rate(&mut meter, &progress(1, 1000), NOW + SECOND);
    assert_eq!(meter.rate, Some(1000));
    update_rate(&mut meter, &progress(1, 6000), NOW + 2 * SECOND);
    assert_eq!(meter.rate, Some((3000 + 5000) / 4));
    update_rate(&mut meter, &progress(1, 6000), NOW + 3 * SECOND);
    assert_eq!(meter.rate, Some(2000));
}

/// A router with a configured upload `id`.
fn running(id: u64) -> ZmodemRouter {
    let mut router = enabled();
    route(&mut router, id, RZ_HEADER, NOW);
    let (_, request) = router.control(
        Control::Upload {
            id,
            paths: vec![b"/tmp/f".to_vec()],
        },
        NOW,
    );
    assert!(matches!(request, Request::ConfigureUpload { .. }));
    let mut report = Report::new();
    assert!(!router.configured(Ok(()), &mut report, NOW));
    assert!(router.active().unwrap().is_configured());
    router
}

#[test]
fn wire_of_the_active_transfer_is_queued_and_acknowledged_once() {
    let mut router = running(4);
    let polled = router.poll(
        Vec::new(),
        batch(
            vec![
                RuntimeOutput::Wire {
                    id: 4,
                    sequence: 1,
                    bytes: vec![1, 2],
                },
                RuntimeOutput::Wire {
                    id: 5,
                    sequence: 9,
                    bytes: vec![9],
                },
                RuntimeOutput::Wire {
                    id: 4,
                    sequence: 2,
                    bytes: vec![3],
                },
            ],
            false,
        ),
        NOW,
    );
    assert_eq!(polled.release, Release::Keep);
    let mut writer = Vec::new();
    let mut can_write = true;
    assert_eq!(
        write(&mut router, &mut writer, &mut can_write, NOW).unwrap(),
        Some(1)
    );
    assert_eq!(
        write(&mut router, &mut writer, &mut can_write, NOW).unwrap(),
        Some(2)
    );
    assert_eq!(
        write(&mut router, &mut writer, &mut can_write, NOW).unwrap(),
        None
    );
    assert_eq!(writer, [1, 2, 3]);
}

#[test]
fn completed_transfer_returns_its_tail_and_the_unaccepted_suffix() {
    let mut router = running(4);
    while let Some(bytes) = router.active().unwrap().next_submission() {
        let count = bytes.len();
        router.note_submission(Ok(count));
    }
    assert_eq!(router.active().unwrap().retained_len(), 0);
    route(&mut router, 4, b"$ ", NOW);
    assert!(!router.note_submission(Err(SubmitError::Closed)));
    let polled = router.poll(
        Vec::new(),
        batch(
            vec![
                RuntimeOutput::Tail {
                    id: 4,
                    bytes: b"\r\nprompt".to_vec(),
                },
                RuntimeOutput::Event(TransferEvent::Finished {
                    id: 4,
                    role: Role::Upload,
                    outcome: TransferOutcome::Completed,
                    committed_paths: Vec::new(),
                }),
            ],
            false,
        ),
        NOW,
    );
    assert_eq!(polled.release, Release::Drop);
    assert_eq!(polled.report.events.len(), 1);
    assert!(polled.report.render.ends_with(b"\r\nprompt$ "));
    assert!(!router.busy());
    assert_eq!(router.recovery_deadline(), None);
}

#[test]
fn cancelled_transfer_writes_only_its_abort_and_then_retires() {
    let mut router = running(4);
    let mut state = State::default();
    let effect = handle_message(
        &mut router,
        &mut state,
        Message::Input(vec![b'a', 0x03]),
        NOW,
    );
    assert!(matches!(effect, MessageEffect::CancelWorker));
    assert!(!state.needs_write());
    let polled = router.poll(
        Vec::new(),
        batch(
            vec![RuntimeOutput::Wire {
                id: 4,
                sequence: 1,
                bytes: vec![1],
            }],
            false,
        ),
        NOW,
    );
    assert_eq!(polled.release, Release::Keep);
    assert_eq!(front(&mut router, NOW), (None, abort_sequence()));
    let later = NOW + CANCEL_TIMEOUT;
    let polled = router.poll(Vec::new(), nothing(), later);
    assert_eq!(polled.release, Release::Retire);
    assert_eq!(router.retiring_len(), 1);
    assert!(polled.report.events.is_empty());
    let polled = router.poll(
        vec![batch(
            vec![RuntimeOutput::Event(TransferEvent::Finished {
                id: 4,
                role: Role::Upload,
                outcome: TransferOutcome::Cancelled,
                committed_paths: Vec::new(),
            })],
            true,
        )],
        nothing(),
        later,
    );
    assert_eq!(polled.report.events.len(), 1);
    assert_eq!(router.retiring_len(), 0);
}

#[test]
fn silent_retirement_is_reported_as_a_stopped_worker() {
    let mut router = running(4);
    assert!(router.cancel(NOW));
    assert!(!router.cancel(NOW));
    let later = NOW + CANCEL_TIMEOUT;
    router.poll(Vec::new(), nothing(), later);
    let polled = router.poll(vec![batch(Vec::new(), true)], nothing(), later);
    assert!(matches!(
        &polled.report.events[..],
        [TransferEvent::Finished {
            id: 4,
            outcome: TransferOutcome::Failed(TransferError {
                kind: TransferErrorKind::WorkerStopped,
                ..
            }),
            ..
        }]
    ));
}

#[test]
fn nothing_follows_the_reported_end() {
    let mut router = running(4);
    let mut report = Report::new();
    assert!(router.fail(
        error(TransferErrorKind::Configuration, "no"),
        &mut report,
        NOW
    ));
    assert_eq!(report.events.len(), 1);
    let polled = router.poll(
        Vec::new(),
        batch(vec![RuntimeOutput::Event(progress(4, 1))], false),
        NOW,
    );
    assert!(polled.report.events.is_empty());
    assert!(polled.report.render.is_empty());
}

#[test]
fn progress_lines_are_not_shown_too_often() {
    let mut router = running(4);
    let poll = |router: &mut ZmodemRouter, now| {
        router
            .poll(
                Vec::new(),
                batch(vec![RuntimeOutput::Event(progress(4, 1))], false),
                now,
            )
            .report
            .events
            .len()
    };
    assert_eq!(poll(&mut router, NOW), 1);
    assert_eq!(poll(&mut router, NOW + 1), 0);
    assert_eq!(poll(&mut router, NOW + PROGRESS_RENDER_INTERVAL), 1);
}

#[test]
fn stopped_worker_is_reported_and_aborted() {
    let mut router = running(4);
    let polled = router.poll(Vec::new(), batch(Vec::new(), true), NOW);
    assert_eq!(polled.release, Release::Drop);
    assert!(matches!(
        &polled.report.events[..],
        [TransferEvent::Finished {
            outcome: TransferOutcome::Failed(TransferError {
                kind: TransferErrorKind::WorkerStopped,
                ..
            }),
            ..
        }]
    ));
    assert_eq!(front(&mut router, NOW), (None, abort_sequence()));
}

#[test]
fn worker_that_cannot_be_spawned_fails_its_transfer() {
    let mut router = enabled();
    let mut report = Report::new();
    router.begin(
        3,
        Role::Download,
        true,
        Err(error(TransferErrorKind::WorkerLimit, "full")),
        &mut report,
        NOW,
    );
    assert!(router.active().is_none());
    assert!(matches!(
        &report.events[..],
        [TransferEvent::Finished {
            id: 3,
            outcome: TransferOutcome::Failed(_),
            ..
        }]
    ));
    assert_eq!(front(&mut router, NOW), (None, abort_sequence()));
}

#[test]
fn start_upload_needs_an_idle_enabled_router() {
    let start = || Control::StartUpload {
        id: 8,
        paths: vec![b"/tmp/a".to_vec()],
    };
    let mut router = ZmodemRouter::default();
    assert!(matches!(router.control(start(), NOW).1, Request::Nothing));
    let mut router = enabled();
    assert!(router.route(b"*", NOW).render.is_empty());
    let (render, request) = router.control(start(), NOW);
    assert_eq!(render, b"*");
    assert!(matches!(request, Request::StartUpload { id: 8, .. }));
    let mut router = running(4);
    assert!(matches!(router.control(start(), NOW).1, Request::Nothing));
    let (_, wrong_role) = router.control(
        Control::Download {
            id: 4,
            directory: b"/tmp".to_vec(),
            policy: OverwritePolicy::Skip,
        },
        NOW,
    );
    assert!(matches!(wrong_role, Request::Nothing));
    assert!(matches!(
        router.control(Control::Cancel { id: 5 }, NOW).1,
        Request::Nothing
    ));
    assert!(matches!(
        router.control(Control::Cancel { id: 4 }, NOW).1,
        Request::CancelWorker
    ));
}

#[test]
fn unwritten_abort_keeps_headers_but_not_text_from_the_screen() {
    let mut router = enabled();
    router.queue_abort(5, NOW);
    let wire = router.front_wire().unwrap();
    let deadline = router.recovery_deadline().unwrap();
    router.poll(Vec::new(), nothing(), deadline);
    router.wrote(wire, deadline);
    assert!(router.busy());
    let input = [RZ_HEADER, b"text".as_slice()].concat();
    let report = route(&mut router, 6, &input, deadline);
    // The header ends with its line feed; what follows it is shown.
    assert_eq!(report.render, b"\x11text");
    assert!(router.active().is_none());
}

#[test]
fn ordinary_responses_wait_for_the_transfer() {
    let mut router = ZmodemRouter::default();
    let mut state = State::default();
    assert!(matches!(
        handle_message(&mut router, &mut state, Message::Input(b"ls\r".to_vec()), NOW),
        MessageEffect::Nothing
    ));
    assert!(needs_write(&router, &state));
    let writing = state.take_writing().unwrap();
    assert_eq!(writing.remaining_bytes(), b"ls\r");
    state.put_writing(writing);
    queue_responses(&router, &mut state, b"\x1b[c".to_vec());
    assert!(state.needs_write());
    let mut busy = running(4);
    yield_to_transfer(&busy, &mut state);
    assert!(!state.needs_write());
    queue_responses(&busy, &mut state, b"\x1b[c".to_vec());
    assert!(!state.needs_write());
    assert!(!needs_write(&busy, &state));
    busy.cancel(NOW);
    assert!(needs_write(&busy, &state));
    assert!(matches!(
        handle_message(&mut busy, &mut state, Message::Shutdown, NOW),
        MessageEffect::Terminate {
            child_exited: false
        }
    ));
    assert!(matches!(
        handle_message(&mut busy, &mut state, Message::ChildExited, NOW),
        MessageEffect::Terminate { child_exited: true }
    ));
    assert!(matches!(
        handle_message(
            &mut busy,
            &mut state,
            Message::StartZmodemUpload { paths: Vec::new() },
            NOW
        ),
        MessageEffect::RejectLegacyUpload
    ));
}

#[test]
fn loop_wakes_for_work_and_ends_when_the_pty_is_drained() {
    let router = ZmodemRouter::default();
    let state = State::default();
    let mut turn = LoopState::new();
    assert_eq!(turn.timeout(&router, &state, None, NOW), None);
    assert_eq!(turn.timeout(&router, &state, Some(5), NOW), Some(5));
    assert_eq!(router.read_capacity(), READ_BUFFER_SIZE);
    turn.note_ready(true, false);
    assert_eq!(turn.timeout(&router, &state, None, NOW), Some(0));
    assert!(!turn.is_over(&router, NOW));
    turn.exit(NOW);
    assert!(turn.child_exited);
    assert!(!turn.is_over(&router, NOW));
    assert!(turn.is_over(&router, NOW + CANCEL_TIMEOUT));
    turn.drained(NOW + 1);
    assert_eq!(turn.closing_deadline, Some(NOW + CANCEL_TIMEOUT));
    assert!(turn.is_over(&router, NOW + 1));
}

#[test]
fn loop_ends_with_its_output_its_transfers_and_its_child() {
    let mut router = enabled();
    assert!(router.route(b"text*", NOW).start.is_none());
    let farewell = shut_down(&mut router, &LoopState::new(), NOW);
    assert_eq!(farewell.pending, b"*");
    assert!(!farewell.cancel_worker);
    assert!(farewell.kill);
    assert_eq!(farewell.reasons, [ExitReason::PtyDisconnected]);

    let mut router = running(4);
    let mut turn = LoopState::new();
    turn.exit(NOW);
    let farewell = shut_down(&mut router, &turn, NOW);
    assert!(farewell.pending.is_empty());
    assert!(farewell.cancel_worker);
    assert!(!farewell.kill);
    assert_eq!(
        farewell.reasons,
        [ExitReason::ShellProcessExited, ExitReason::PtyDisconnected]
    );
    assert!(router.active().is_none());
    assert_eq!(router.retiring_len(), 0);
}

#[test]
fn transfers_do_not_wait_for_synchronized_output() {
    let idle = enabled();
    let busy = running(4);
    assert!(must_finish_sync(&busy, Some(0)));
    assert!(!must_finish_sync(&busy, None));
    assert!(!must_finish_sync(&idle, Some(8)));
    assert!(wakes(&idle, 3, None));
    assert!(wakes(&idle, 3, Some(2)));
    assert!(!wakes(&idle, 3, Some(3)));
    assert!(wakes(&busy, 3, Some(3)));
    assert!(!wakes(&busy, 0, None));
}
