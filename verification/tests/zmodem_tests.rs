use agenterm::link::LinkAction;
use agenterm::wire::{decode_header, decode_header_body, unzdle, DecodeResult};
use agenterm::zmodem::{
    abort_sequence, apply_download_action, apply_upload_action, crc16_xmodem, crc32_iso_hdlc,
    encode_hex_header, own_event, zrqinit_sequence, Acknowledge, DetectorOutcome, Encoding,
    FileRequest, Frame, Header, IncomingFile, OwnedEvent, PtySink, UploadFile, ZmodemDetector, ZmodemRole,
    ZmodemSession, ZmodemStep, CAN, ZDLE, ZPAD,
};

/// The first bytes real `lrzsz` `sz` writes: `rz\r` then a `ZRQINIT` header
/// with all-zero flags. Captured from `sz --zmodem <file>`.
///
/// The trailer is `\r`, `0x8a` (LF with the high bit set), then XON.
const REAL_SZ_PREAMBLE: &[u8] = b"rz\r**\x18B00000000000000\r\x8a\x11";

/// Extracts the header from a [`DetectorOutcome::Started`].
fn started(outcome: DetectorOutcome) -> (Header, Vec<u8>, Vec<u8>) {
    match outcome {
        DetectorOutcome::Started {
            header,
            render_before,
            protocol,
        } => (header, render_before, protocol),
        DetectorOutcome::Render(_) => panic!("expected a transfer to start"),
    }
}

#[test]
fn detects_zrqinit_from_real_sz() {
    let mut detector = ZmodemDetector::new();
    let (header, render_before, protocol) = started(detector.push(REAL_SZ_PREAMBLE));

    assert_eq!(header.frame, Frame::Zrqinit);
    assert_eq!(header.encoding, Encoding::Zhex);
    assert_eq!(header.count(), 0);
    // `rz\r` precedes the header and still renders normally.
    assert_eq!(render_before, b"rz\r");
    assert_eq!(protocol, REAL_SZ_PREAMBLE.strip_prefix(b"rz\r").unwrap());
}

#[test]
fn renders_plain_text_unchanged() {
    let mut detector = ZmodemDetector::new();
    match detector.push(b"hello, world\n") {
        DetectorOutcome::Render(bytes) => assert_eq!(bytes, b"hello, world\n"),
        other => panic!("expected render, got {other:?}"),
    }
}

#[test]
fn does_not_detect_lone_zpad_run() {
    let mut detector = ZmodemDetector::new();
    match detector.push(b"***") {
        DetectorOutcome::Render(_) => {}
        other => panic!("expected render, got {other:?}"),
    }
}

#[test]
fn does_not_detect_zpad_zdle_with_bad_crc() {
    // Well-formed framing, but the CRC does not match the payload.
    let mut detector = ZmodemDetector::new();
    match detector.push(b"**\x18B0100000000ffff\r\x8a\x11") {
        DetectorOutcome::Render(_) => {}
        other => panic!("expected render, got {other:?}"),
    }
}

#[test]
fn does_not_detect_unknown_encoding_byte() {
    let mut detector = ZmodemDetector::new();
    match detector.push(b"**\x18Z0000000000\r\x8a\x11") {
        DetectorOutcome::Render(_) => {}
        other => panic!("expected render, got {other:?}"),
    }
}

#[test]
fn detects_header_split_across_reads() {
    let mut detector = ZmodemDetector::new();
    // The split header must be held back rather than rendered as garbage.
    assert_eq!(
        detector.push(b"rz\r**\x18B0000"),
        DetectorOutcome::Render(b"rz\r".to_vec())
    );

    let (header, render_before, _) = started(detector.push(b"0000000000\r\x8a\x11"));
    assert_eq!(header.frame, Frame::Zrqinit);
    assert!(render_before.is_empty());
}

#[test]
fn detects_header_after_garbage_prefix() {
    let mut detector = ZmodemDetector::new();
    let mut bytes = Vec::new();
    bytes.extend_from_slice(b"noise that is not zmodem at all\n");
    bytes.extend_from_slice(REAL_SZ_PREAMBLE);

    let (header, render_before, _) = started(detector.push(&bytes));
    assert_eq!(header.frame, Frame::Zrqinit);
    assert_eq!(
        render_before,
        b"noise that is not zmodem at all\nrz\r".to_vec()
    );
}

#[test]
fn releases_held_bytes_once_header_cannot_complete() {
    let mut detector = ZmodemDetector::new();
    // A pad run that never becomes a header must not swallow the following text.
    match detector.push(b"**\x18B0000xxxx\n") {
        DetectorOutcome::Render(bytes) => assert_eq!(bytes, b"**\x18B0000xxxx\n"),
        other => panic!("expected render, got {other:?}"),
    }
}

#[test]
fn does_not_detect_binary_that_only_looks_similar() {
    // Every byte value, which includes `*` and control characters.
    let bytes: Vec<u8> = (0..=255u8).collect();
    let mut detector = ZmodemDetector::new();
    assert!(matches!(detector.push(&bytes), DetectorOutcome::Render(_)));
}

#[test]
fn round_trips_generated_hex_header() {
    let mut detector = ZmodemDetector::new();
    let generated = zrqinit_sequence();
    let (header, render_before, protocol) = started(detector.push(&generated));
    assert_eq!(header.frame, Frame::Zrqinit);
    assert!(render_before.is_empty());
    assert_eq!(protocol, generated);
}

#[test]
fn zrqinit_sequence_matches_expected_wire_bytes() {
    // `ZRQINIT` is frame 0 with all-zero flags; `lrzsz` emits exactly this.
    assert_eq!(
        zrqinit_sequence(),
        REAL_SZ_PREAMBLE.strip_prefix(b"rz\r").unwrap()
    );
}

#[test]
fn abort_sequence_starts_with_three_pads_and_can() {
    let seq = abort_sequence();
    assert_eq!(&seq[..3], &[ZPAD, ZPAD, ZPAD]);
    assert_eq!(seq[3], CAN);
    assert_eq!(seq.len(), 13);
}

#[test]
fn crc_helpers_match_known_vectors() {
    // CRC-16/XMODEM check value.
    assert_eq!(crc16_xmodem(b"123456789"), 0x31C3);
    // CRC-32/ISO-HDLC check value.
    assert_eq!(crc32_iso_hdlc(b"123456789"), 0xCBF4_3926);
}

#[test]
fn encodes_header_with_zdle_in_body() {
    // Flags that make a `ZDLE` appear in the hex body, forcing an escape.
    let header = encode_hex_header(Frame::Zfile, &[ZDLE, ZDLE, ZDLE, ZDLE]);
    let mut detector = ZmodemDetector::new();
    let (found, _, _) = started(detector.push(&header));
    assert_eq!(found.frame, Frame::Zfile);
    assert_eq!(found.flags, [ZDLE, ZDLE, ZDLE, ZDLE]);
}

#[test]
fn sink_collects_and_takes_bytes() {
    let mut sink = PtySink::new();
    std::io::Write::write_all(&mut sink, b"abc").unwrap();
    std::io::Write::write_all(&mut sink, b"def").unwrap();
    assert_eq!(sink.take(), b"abcdef");
    assert!(sink.take().is_empty());
}

#[test]
fn upload_session_queues_files() {
    let files = vec![
        UploadFile {
            path: b"/tmp/a.txt".to_vec(),
            name: b"a.txt".to_vec(),
            size: 4,
        },
        UploadFile {
            path: b"/tmp/b.txt".to_vec(),
            name: b"b.txt".to_vec(),
            size: 8,
        },
    ];
    let mut session = ZmodemSession::new_upload(files).expect("upload session");
    assert_eq!(session.role(), ZmodemRole::Upload);
    assert!(!session.is_finished());

    // The sender opens with a ZRQINIT so a waiting `rz` starts handshaking.
    let initial = session.initial_output().expect("initial output");
    let mut detector = ZmodemDetector::new();
    let (header, _, _) = started(detector.push(&initial));
    assert_eq!(header.frame, Frame::Zrqinit);
}

#[test]
fn download_session_opens_with_zrinit() {
    let mut session = ZmodemSession::new_download().expect("download session");
    assert_eq!(session.role(), ZmodemRole::Download);

    // The receiver advertises its capabilities before any data arrives.
    let initial = session.initial_output().expect("initial output");
    let mut detector = ZmodemDetector::new();
    let (header, _, _) = started(detector.push(&initial));
    assert_eq!(header.frame, Frame::Zrinit);
}

#[test]
fn download_consumes_real_sz_handshake_without_rendering() {
    let mut session = ZmodemSession::new_download().expect("download session");
    let _ = session.initial_output().expect("initial output");

    // Feed the exact ZRQINIT that `sz` emits; it must be accepted, and the
    // receiver must answer rather than leave the transfer silent.
    let protocol = REAL_SZ_PREAMBLE.strip_prefix(b"rz\r").unwrap();
    let step = session.submit_wire(protocol).expect("submit_wire");
    assert!(!step.finished, "handshake must not end the session");
    assert!(
        !step.to_pty.is_empty(),
        "receiver must reply to the sender's ZRQINIT"
    );
}

#[test]
fn upload_only_sessions_ignore_download_operations() {
    // Guards the role split: a download must never be asked for file bytes.
    let mut download = ZmodemSession::new_download().expect("download session");
    assert!(download.offer_next_file().expect("no-op").is_empty());
    assert!(download.submit_file(b"data").expect("no-op").is_empty());
}

#[test]
fn abort_returns_cancel_sequence_for_both_roles() {
    let mut download = ZmodemSession::new_download().expect("download session");
    assert_eq!(download.abort(), abort_sequence());

    let mut upload = ZmodemSession::new_upload(Vec::new()).expect("upload session");
    assert_eq!(upload.abort(), abort_sequence());
}

#[test]
fn download_consumes_the_detected_header_bytes() {
    // The event loop hands the detected header straight to a fresh session.
    // If the session cannot consume those bytes, the handshake never advances
    // and `sz` waits forever.
    let mut session = ZmodemSession::new_download().expect("download session");
    let protocol = REAL_SZ_PREAMBLE.strip_prefix(b"rz\r").unwrap();

    let step = session.submit_wire(protocol).expect("submit_wire");
    assert!(
        !step.to_pty.is_empty(),
        "receiver must answer the sender's ZRQINIT"
    );

    // Feeding the same header again must not be required: the first call has
    // to make progress, or the transfer deadlocks.
    let second = session.submit_wire(protocol).expect("submit_wire");
    assert!(
        !second.to_pty.is_empty() || second.finished,
        "session made no progress across two identical reads"
    );
}

#[test]
fn detects_sz_when_shell_echoes_the_command_first() {
    // In a real terminal the shell echoes `sz file` and a newline before the
    // protocol starts, and the PTY usually delivers that in the same read.
    let mut detector = ZmodemDetector::new();
    let mut bytes = Vec::new();
    bytes.extend_from_slice(b"sz payload.txt\r\n");
    bytes.extend_from_slice(REAL_SZ_PREAMBLE);

    let (header, _, _) = started(detector.push(&bytes));
    assert_eq!(header.frame, Frame::Zrqinit);
}

#[test]
fn detects_sz_arriving_one_byte_at_a_time() {
    // A PTY can deliver the preamble in arbitrarily small reads; detection
    // must not depend on the header landing in a single chunk.
    let mut detector = ZmodemDetector::new();
    let mut found = None;
    for byte in REAL_SZ_PREAMBLE {
        if let DetectorOutcome::Started { header, .. } = detector.push(&[*byte]) {
            found = Some(header);
            break;
        }
    }
    assert_eq!(
        found.map(|header| header.frame),
        Some(Frame::Zrqinit),
        "byte-at-a-time delivery must still detect the header"
    );
}

#[test]
fn holds_back_bytes_exactly_once_across_reads() {
    // Held-back bytes must be returned for rendering exactly once. Returning
    // them again on a later read duplicates output on screen.
    let mut detector = ZmodemDetector::new();
    let mut rendered = Vec::new();
    for byte in b"hello*" {
        if let DetectorOutcome::Render(bytes) = detector.push(&[*byte]) {
            rendered.extend_from_slice(&bytes);
        }
    }
    // The trailing `*` is a header candidate, so only `hello` may render.
    assert_eq!(rendered, b"hello");

    // A non-pad byte settles it: the `*` is ordinary text after all.
    if let DetectorOutcome::Render(bytes) = detector.push(b"x") {
        rendered.extend_from_slice(&bytes);
    }
    assert_eq!(
        rendered, b"hello*x",
        "held bytes must render once, in order"
    );
}

#[test]
fn aborted_sessions_are_finished_and_cancel_the_peer() {
    for mut session in [
        ZmodemSession::new_download().expect("download session"),
        ZmodemSession::new_upload(Vec::new()).expect("upload session"),
    ] {
        assert!(!session.is_finished());
        session.abort();
        assert!(session.is_finished());
        // The machine drops its handshake and sends ten CAN and ten backspaces.
        assert_eq!(
            session.initial_output().expect("output"),
            agenterm::zmodem_runtime::abort_sequence()
        );
    }
}

#[test]
fn sessions_carry_a_file_from_end_to_end() {
    let data: Vec<u8> = (0..5000u32).map(|index| (index % 251) as u8).collect();
    let mut upload = ZmodemSession::new_upload(vec![UploadFile {
        path: b"/tmp/a.txt".to_vec(),
        name: b"a.txt".to_vec(),
        size: data.len() as u32,
    }])
    .expect("upload session");
    let mut download = ZmodemSession::new_download().expect("download session");
    let mut to_download = upload.initial_output().expect("initial output");
    let mut to_upload = download.initial_output().expect("initial output");
    to_download.extend(upload.offer_next_file().expect("offer"));
    let mut received = Vec::new();
    let mut rounds = 0;
    let mut events = Vec::new();
    // A machine takes no more input before its answer is written.
    for _ in 0..100 {
        let bytes = std::mem::take(&mut to_upload);
        for chunk in bytes.chunks(1).chain([&[][..]]) {
            let mut step = upload.submit_wire(chunk).expect("submit_wire");
            to_download.append(&mut step.to_pty);
            if let Some(request) = step.file_request {
                let start = request.offset as usize;
                let end = (start + request.max_len).min(data.len());
                to_download.extend(upload.submit_file(&data[start..end]).expect("submit_file"));
            }
        }
        let bytes = std::mem::take(&mut to_download);
        for chunk in bytes.chunks(1) {
            let step = download.submit_wire(chunk).expect("submit_wire");
            to_upload.extend(step.to_pty);
            if let Some(chunk) = step.file_data {
                assert_eq!(chunk.name, "a.txt");
                assert_eq!(chunk.offset, received.len() as u64);
                rounds += 1;
                received.extend(chunk.data);
            }
            events.extend(step.events);
        }
        if events.contains(&OwnedEvent::FileCompleted) {
            break;
        }
    }
    assert_eq!(
        events[0],
        OwnedEvent::FileStarted {
            name: "a.txt".to_owned(),
            size: Some(data.len() as u32)
        }
    );
    assert_eq!(received, data);
    assert!(rounds > 1);
}

#[test]
fn actions_become_steps() {
    let mut file = IncomingFile::none();
    let mut step = ZmodemStep::default();
    let started = LinkAction::FileStarted {
        name: vec![b'a', 0xff],
        size: Some(3),
    };
    assert_eq!(
        apply_download_action(&mut file, &mut step, &started),
        Acknowledge::Nothing
    );
    assert_eq!((&file.name[..], file.received), ("a\u{fffd}", 0));
    for data in [vec![1, 2], vec![3]] {
        let count = data.len();
        assert_eq!(
            apply_download_action(&mut file, &mut step, &LinkAction::WriteFile(data)),
            Acknowledge::File(count)
        );
    }
    assert_eq!(
        apply_download_action(&mut file, &mut step, &LinkAction::WriteWire(vec![9])),
        Acknowledge::Wire(1)
    );
    assert_eq!(
        apply_download_action(&mut file, &mut step, &LinkAction::Idle),
        Acknowledge::Stop
    );
    let chunk = step.file_data.as_ref().unwrap();
    assert_eq!((chunk.offset, &chunk.data[..]), (0, &[1, 2, 3][..]));
    assert_eq!(step.to_pty, [9]);
    assert!(!step.finished);
    assert_eq!(
        apply_download_action(&mut file, &mut step, &LinkAction::OtherEvent),
        Acknowledge::Nothing
    );
    assert!(step.finished);
    assert_eq!(own_event(&LinkAction::OtherEvent), Some(OwnedEvent::Aborted));
    assert_eq!(own_event(&LinkAction::Other), None);

    let file = UploadFile {
        path: b"/f".to_vec(),
        name: b"f".to_vec(),
        size: 4,
    };
    let mut current = Some(file);
    let mut step = ZmodemStep::default();
    let read = LinkAction::ReadFile {
        offset: 2,
        max_len: 7,
    };
    assert_eq!(
        apply_upload_action(&mut current, &mut step, &read),
        Acknowledge::Stop
    );
    assert_eq!(
        step.file_request,
        Some(FileRequest {
            offset: 2,
            max_len: 7
        })
    );
    assert!(current.is_some());
    assert_eq!(
        apply_upload_action(&mut current, &mut step, &LinkAction::FileCompleted),
        Acknowledge::Nothing
    );
    assert!(current.is_none());
    assert!(!step.finished);
    apply_upload_action(&mut current, &mut step, &LinkAction::SessionCompleted);
    assert!(step.finished);
    assert_eq!(
        step.events,
        [OwnedEvent::FileCompleted, OwnedEvent::SessionCompleted]
    );
}

#[test]
fn binary_headers_and_escapes_decode() {
    // ZFILE with a 32-bit checksum, as lrzsz sends it.
    let wire = b"*\x18C\x04\x00\x00\x00\x01\x4b\x61\xa5\x44rest";
    match decode_header(wire, 2) {
        DecodeResult::Header { header, len } => {
            assert_eq!(header.encoding, Encoding::Zbin32);
            assert_eq!(header.frame, Frame::Zfile);
            assert_eq!(header.count(), 0x0100_0000);
            assert_eq!(len, 12);
        }
        other => panic!("expected a header, got {other:?}"),
    }
    for end in 0..12 {
        assert_eq!(decode_header(&wire[..end], 2), DecodeResult::NeedMore);
    }
    assert_eq!(decode_header(b"*\x18Q", 2), DecodeResult::NotAHeader);
    assert_eq!(unzdle(b'l'), 0x7f);
    assert_eq!(unzdle(b'm'), 0xff);
    assert_eq!(unzdle(0x58), 0x18);
    assert_eq!(unzdle(0xd1), 0x91);
    assert_eq!(unzdle(b'0'), b'0');
    assert_eq!(decode_header_body(Encoding::Zhex, b"0"), None);
    assert_eq!(decode_header_body(Encoding::Zbin, &[0; 7]).unwrap().frame, Frame::Zrqinit);
    for byte in 0..=255u8 {
        assert_eq!(Frame::from_byte(byte).frame_byte(), byte);
    }
}

#[test]
fn detection_waits_no_longer_than_a_header_can_be() {
    // Escapes stretch this header beyond what is held back.
    let mut detector = ZmodemDetector::new();
    let mut wire = b"*\x18A".to_vec();
    for _ in 0..12 {
        wire.extend_from_slice(b"\x18@");
    }
    assert!(matches!(detector.push(&wire[..22]), DetectorOutcome::Started { .. }));
    let mut detector = ZmodemDetector::new();
    let mut rendered = Vec::new();
    for byte in b"**\x18B0000".iter().chain(&[b'0'; 3]).chain(b"g tail") {
        if let DetectorOutcome::Render(bytes) = detector.push(&[*byte]) {
            rendered.extend(bytes);
        }
    }
    assert_eq!(rendered, b"**\x18B0000000g tail");
}

#[test]
fn chunks_carry_the_offset_of_their_file() {
    let mut file = IncomingFile::none();
    let start = |name: &[u8]| LinkAction::FileStarted {
        name: name.to_vec(),
        size: None,
    };
    let mut round = |actions: Vec<LinkAction>| {
        let mut step = ZmodemStep::default();
        for action in &actions {
            apply_download_action(&mut file, &mut step, action);
        }
        step.file_data
            .map(|chunk| (chunk.name, chunk.offset, chunk.data))
    };
    assert_eq!(
        round(vec![start(b"a"), LinkAction::WriteFile(vec![1, 2])]),
        Some(("a".to_owned(), 0, vec![1, 2]))
    );
    assert_eq!(round(vec![LinkAction::WriteWire(vec![9])]), None);
    assert_eq!(
        round(vec![
            LinkAction::WriteFile(vec![3]),
            LinkAction::WriteFile(vec![4, 5])
        ]),
        Some(("a".to_owned(), 2, vec![3, 4, 5]))
    );
    assert_eq!(
        round(vec![LinkAction::WriteFile(vec![6]), LinkAction::FileCompleted]),
        Some(("a".to_owned(), 5, vec![6]))
    );
    // Data without bytes has no offset of its own.
    assert_eq!(
        round(vec![LinkAction::WriteFile(Vec::new()), start(b"b"), LinkAction::WriteFile(vec![7])]),
        Some(("b".to_owned(), 0, vec![7]))
    );
}
