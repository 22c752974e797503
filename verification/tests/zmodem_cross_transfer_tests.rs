use agenterm::clock::{Instant, SECOND};
use agenterm::target_picker::{
    target_choices, terminal_label, text_before, CrossTransferPicker, CrossTransferPickerAction,
    PickerStep,
};
use agenterm::trigger_state::{BlockId, EntityId, SessionId};
use agenterm::zmodem_cross_transfer::{
    outcome_in_words, path_components, valid_staged_paths, CrossTransferEvent, CrossTransferId, Endpoint, Flow,
    Phase, TargetReply, TargetStep, TerminalState, ZmodemCrossTransfer, CHOICE_TIMEOUT,
    MAX_BINDINGS,
};
use agenterm::zmodem_runtime::{
    error, ErrorKind, FileOutcome, Role, TransferEvent, TransferOutcome,
};

const NOW: Instant = 1_000 * SECOND;
const SOURCE: EntityId = EntityId(1);
const TARGET: EntityId = EntityId(2);
const PAIR: CrossTransferId = CrossTransferId(10);

fn endpoint(terminal: EntityId, label: &str) -> Endpoint {
    Endpoint {
        terminal,
        label: label.to_owned(),
        live: true,
        available: true,
        busy: false,
    }
}

fn identity() -> Option<(SessionId, BlockId)> {
    Some((SessionId(5), BlockId(6)))
}

fn paired() -> ZmodemCrossTransfer {
    let mut all = ZmodemCrossTransfer::default();
    assert_eq!(
        all.begin(
            PAIR,
            true,
            endpoint(SOURCE, "source"),
            endpoint(TARGET, "target"),
            identity(),
            NOW
        ),
        Ok(PAIR)
    );
    all.take_events();
    all
}

fn requested(id: u64, role: Role) -> TransferEvent {
    TransferEvent::Requested { id, role }
}

fn finished(id: u64, role: Role, outcome: TransferOutcome, paths: &[&[u8]]) -> TransferEvent {
    TransferEvent::Finished {
        id,
        role,
        outcome,
        committed_paths: paths.iter().map(|path| path.to_vec()).collect(),
    }
}

#[test]
fn files_move_from_the_source_through_staging_to_the_target() {
    let mut all = paired();
    assert!(all.is_reserved(SOURCE) && all.is_reserved(TARGET));
    assert!(all.blocks_input(TARGET) && !all.blocks_input(SOURCE));
    assert_eq!(all.status_text(SOURCE).unwrap(), "Waiting for source: source");

    assert!(all.on_event(SOURCE, &requested(20, Role::Download), NOW));
    assert!(all.receive_plan(PAIR).is_none());
    all.staging_created(PAIR, Ok(b"/stage".to_vec()));
    let events = all.take_events();
    assert!(matches!(
        events[..],
        [CrossTransferEvent::Changed, CrossTransferEvent::Receive(PAIR)]
    ));
    assert_eq!(
        all.receive_plan(PAIR),
        Some((SOURCE, 20, b"/stage".to_vec()))
    );
    assert_eq!(all.status_text(TARGET).unwrap(), "Receiving for target");

    assert!(all.on_event(
        SOURCE,
        &finished(20, Role::Download, TransferOutcome::Completed, &[b"/stage/a"]),
        NOW
    ));
    assert!(matches!(
        all.take_events()[..],
        [
            CrossTransferEvent::PrepareTarget(PAIR),
            CrossTransferEvent::Changed
        ]
    ));
    let plan = all.target_plan(PAIR).unwrap();
    assert_eq!(plan.terminal, TARGET);
    assert_eq!(plan.identity, identity());
    assert_eq!(plan.paths, [b"/stage/a".to_vec()]);
    all.target_prepared(PAIR, TargetReply::Started(21), NOW);
    assert_eq!(all.status_text(TARGET).unwrap(), "Forwarding to target");
    assert_eq!(
        all.upload_plan(PAIR, 21),
        Some((TARGET, vec![b"/stage/a".to_vec()]))
    );
    assert_eq!(all.upload_plan(PAIR, 22), None);

    assert!(all.on_event(
        TARGET,
        &TransferEvent::FileResult {
            id: 21,
            role: Role::Upload,
            name: "a".to_owned(),
            bytes: 0,
            outcome: FileOutcome::Skipped,
            path: None,
        },
        NOW
    ));
    all.take_events();
    assert!(all.on_event(
        TARGET,
        &finished(21, Role::Upload, TransferOutcome::Completed, &[]),
        NOW
    ));
    let events = all.take_events();
    assert!(matches!(
        &events[..],
        [
            CrossTransferEvent::Cancel(SOURCE, 20),
            CrossTransferEvent::Cancel(TARGET, 21),
            CrossTransferEvent::Result { terminal: SOURCE, message, success: true },
            CrossTransferEvent::Changed,
        ] if message == "Transfer to target complete: 1 skipped"
    ));
    // The staged files outlive the workers that may still read them.
    all.worker_released(SOURCE, 20);
    assert!(all.is_reserved(SOURCE));
    assert!(all.take_events().is_empty());
    all.worker_released(TARGET, 21);
    assert!(!all.is_reserved(SOURCE) && !all.is_reserved(TARGET));
    assert!(matches!(
        &all.take_events()[..],
        [CrossTransferEvent::Cleanup(directory), CrossTransferEvent::Changed]
            if directory == b"/stage"
    ));
}

#[test]
fn target_with_another_shell_waits_for_rz() {
    let mut all = paired();
    all.staging_created(PAIR, Ok(b"/stage".to_vec()));
    all.on_event(SOURCE, &requested(20, Role::Download), NOW);
    all.on_event(
        SOURCE,
        &finished(20, Role::Download, TransferOutcome::Completed, &[b"/stage/a"]),
        NOW,
    );
    all.target_prepared(PAIR, TargetReply::OtherShell, NOW);
    assert!(!all.blocks_input(TARGET));
    assert_eq!(all.status_text(TARGET).unwrap(), "Waiting for rz in target");
    all.take_events();
    assert!(all.on_event(TARGET, &requested(30, Role::Upload), NOW));
    assert!(matches!(
        all.take_events()[..],
        [
            CrossTransferEvent::UploadRequested(PAIR, 30),
            CrossTransferEvent::Changed
        ]
    ));
    assert!(all.on_event(TARGET, &requested(30, Role::Upload), NOW));
    assert!(all.take_events().is_empty());
}

#[test]
fn unexpected_transfers_and_failures_finish_the_pair_once() {
    let mut all = paired();
    assert!(all.on_event(TARGET, &requested(40, Role::Upload), NOW));
    let events = all.take_events();
    assert!(matches!(events[0], CrossTransferEvent::Cancel(TARGET, 40)));
    assert!(events.iter().any(|event| matches!(
        event,
        CrossTransferEvent::Result { message, success: false, .. }
            if message == "Unexpected transfer in a reserved terminal"
    )));
    assert!(!all.is_reserved(SOURCE));

    let mut all = paired();
    all.on_event(SOURCE, &requested(20, Role::Download), NOW);
    all.take_events();
    all.on_event(
        SOURCE,
        &finished(
            20,
            Role::Download,
            TransferOutcome::Failed(error(ErrorKind::Timeout, "late")),
            &[],
        ),
        NOW,
    );
    let failure = TransferOutcome::Failed(error(ErrorKind::Timeout, "late"));
    let expected = format!("Cross-terminal transfer: {failure:?}");
    assert!(all.take_events().iter().any(|event| matches!(
        event,
        CrossTransferEvent::Result { message, .. } if *message == expected
    )));
    assert_eq!(all.status_text(SOURCE).unwrap(), expected);
    assert!(all.cancel_terminal(SOURCE));
    assert!(all.take_events().is_empty());
    assert!(!all.cancel_terminal(EntityId(77)));
    assert!(!all.on_event(EntityId(77), &requested(1, Role::Upload), NOW));
}

#[test]
fn files_outside_the_staging_directory_are_refused() {
    let mut all = paired();
    all.staging_created(PAIR, Ok(b"/stage".to_vec()));
    all.on_event(SOURCE, &requested(20, Role::Download), NOW);
    all.take_events();
    all.on_event(
        SOURCE,
        &finished(20, Role::Download, TransferOutcome::Completed, &[b"/other/a"]),
        NOW,
    );
    assert!(all.take_events().iter().any(|event| matches!(
        event,
        CrossTransferEvent::Result { message, success: false, .. }
            if message == "Source returned no valid staged files"
    )));
}

#[test]
fn staged_paths_are_single_components_of_the_directory() {
    let valid = |paths: &[&str]| {
        let paths: Vec<Vec<u8>> = paths.iter().map(|path| path.as_bytes().to_vec()).collect();
        valid_staged_paths(b"/stage", &paths)
    };
    assert!(valid(&["/stage/a", "/stage/.hidden"]));
    assert!(valid(&["/stage//a", "/stage/./a", "/stage/a/"]));
    for refused in [
        "/stage", "/stage/", "/stage/.", "/stage/..", "/stage/a/b", "/staged/a", "stage/a", "a",
        "/stage/../a",
    ] {
        assert!(!valid(&[refused]), "{refused}");
    }
    assert!(!valid(&[]));
    assert!(!valid_staged_paths(b"/stage", &vec![b"/stage/a".to_vec(); 129]));
    for path in ["/a//b/./c/..", "./a", "a/.", "", "/", "..", "a/../b", ".", "//x"] {
        let expected: Vec<Vec<u8>> = std::path::Path::new(path)
            .components()
            .map(|part| part.as_os_str().to_str().unwrap().as_bytes().to_vec())
            .collect();
        assert_eq!(path_components(path.as_bytes()), expected, "{path:?}");
    }
}

#[test]
fn pairs_need_two_free_and_able_terminals() {
    let begin = |all: &mut ZmodemCrossTransfer, enabled, source: Endpoint, target: Endpoint| {
        all.begin(CrossTransferId(99), enabled, source, target, None, NOW)
    };
    let mut all = paired();
    let (a, b) = (EntityId(3), EntityId(4));
    assert_eq!(
        begin(&mut all, false, endpoint(a, ""), endpoint(b, "")),
        Err("Cross-terminal transfers are disabled")
    );
    assert_eq!(
        begin(&mut all, true, endpoint(a, ""), endpoint(a, "")),
        Err("A selected terminal is already reserved")
    );
    assert_eq!(
        begin(&mut all, true, endpoint(SOURCE, ""), endpoint(b, "")),
        Err("A selected terminal is already reserved")
    );
    let mut gone = endpoint(a, "");
    gone.live = false;
    assert_eq!(
        begin(&mut all, true, gone, endpoint(b, "")),
        Err("A selected terminal is no longer available")
    );
    let mut busy = endpoint(b, "");
    busy.busy = true;
    assert_eq!(
        begin(&mut all, true, endpoint(a, ""), busy),
        Err("A selected terminal is busy or unavailable")
    );
    for index in 1..MAX_BINDINGS as u64 {
        let result = all.begin(
            CrossTransferId(100 + index),
            true,
            endpoint(EntityId(10 + 2 * index), ""),
            endpoint(EntityId(11 + 2 * index), ""),
            None,
            NOW,
        );
        assert!(result.is_ok());
    }
    assert_eq!(
        begin(&mut all, true, endpoint(a, ""), endpoint(b, "")),
        Err("Too many cross-terminal transfers are still active")
    );
}

#[test]
fn pairs_end_when_a_terminal_goes_or_time_runs_out() {
    let live = vec![SOURCE, TARGET];
    let mut all = paired();
    all.tick(true, &live, NOW + CHOICE_TIMEOUT - 1);
    assert!(all.is_reserved(SOURCE));
    all.tick(true, &live, NOW + CHOICE_TIMEOUT);
    assert!(!all.is_reserved(SOURCE));
    let mut all = paired();
    all.tick(true, &vec![SOURCE], NOW);
    assert!(!all.is_reserved(TARGET));
    let mut all = paired();
    all.tick(false, &live, NOW);
    assert!(!all.is_reserved(TARGET));
    // A staging directory that comes too late is removed.
    all.take_events();
    all.staging_created(PAIR, Ok(b"/late".to_vec()));
    assert!(matches!(
        &all.take_events()[..],
        [CrossTransferEvent::Cleanup(directory)] if directory == b"/late"
    ));
    let mut all = paired();
    all.staging_created(PAIR, Err("disk full".to_owned()));
    assert!(all.take_events().iter().any(|event| matches!(
        event,
        CrossTransferEvent::Result { message, .. }
            if message == "Cannot create staging directory: disk full"
    )));
}

#[test]
fn flow_binds_each_half_once() {
    let mut flow = Flow::new(SOURCE, TARGET);
    assert!(!flow.bind_target(1));
    assert!(flow.bind_source(1));
    assert!(!flow.bind_source(2));
    assert!(flow.is_half(SOURCE, 1, Role::Download));
    assert!(!flow.is_half(TARGET, 1, Role::Download));
    flow.phase = Phase::PreparingTarget;
    assert!(flow.bind_target(3));
    assert_eq!(flow.phase, Phase::Forwarding);
    assert!(flow.is_half(TARGET, 3, Role::Upload));
    assert!(!flow.can_cleanup());
    flow.phase = Phase::Finished;
    assert!(!flow.can_cleanup());
}

#[test]
fn choices_are_free_terminals_by_label() {
    let all = paired();
    let mut busy = endpoint(EntityId(8), "aa");
    busy.busy = true;
    let visible = vec![
        endpoint(SOURCE, "s"),
        endpoint(EntityId(7), "b"),
        endpoint(EntityId(6), "b"),
        busy,
        endpoint(EntityId(5), "a"),
        endpoint(EntityId(9), "z"),
    ];
    let choices = target_choices(&all, EntityId(9), &visible);
    let seen: Vec<_> = choices
        .iter()
        .map(|choice| (choice.label.as_str(), choice.terminal.0))
        .collect();
    assert_eq!(seen, [("a", 5), ("b", 6), ("b", 7)]);
    for (first, second) in [("", "a"), ("a", "b"), ("a", "aa"), ("Z", "a"), ("é", "文")] {
        assert!(text_before(first, second));
        assert!(!text_before(second, first));
        assert_eq!(text_before(first, second), first < second);
    }
    assert!(!text_before("a", "a"));

    let mut picker = CrossTransferPicker::new("so\nurce", choices);
    assert_eq!(picker.source_title, "so urce");
    assert_eq!(
        picker.handle_action(&CrossTransferPickerAction::Select(2)),
        PickerStep::Redraw
    );
    assert_eq!(
        picker.handle_action(&CrossTransferPickerAction::Confirm),
        PickerStep::Begin(2)
    );
    assert_eq!(picker.notice(), None);
    picker.refused("no");
    assert_eq!(picker.notice().as_deref(), Some("no"));
    assert_eq!(
        picker.handle_action(&CrossTransferPickerAction::Cancel),
        PickerStep::Close
    );
    let mut empty = CrossTransferPicker::new("", Vec::new());
    assert_eq!(
        empty.notice().as_deref(),
        Some("No available target terminals")
    );
    assert_eq!(
        empty.handle_action(&CrossTransferPickerAction::Confirm),
        PickerStep::Nothing
    );
}

#[test]
fn labels_name_title_and_login() {
    assert_eq!(terminal_label("zsh", Some(("me", "host"))), "zsh (me@host)");
    assert_eq!(terminal_label("", Some(("me", "host"))), "me@host");
    assert_eq!(terminal_label("zsh", None), "zsh");
    assert_eq!(terminal_label("", None), "Terminal");
    assert_eq!(terminal_label("a\tb", None), "a b");
}

fn terminal(active: Option<u64>) -> TerminalState {
    TerminalState {
        available: true,
        busy: false,
        identity: identity(),
        active,
    }
}

/// A pair whose source has delivered one staged file.
fn delivered() -> ZmodemCrossTransfer {
    let mut all = receiving();
    all.on_event(
        SOURCE,
        &finished(20, Role::Download, TransferOutcome::Completed, &[b"/stage/a"]),
        NOW,
    );
    all.take_events();
    all
}

/// A pair whose source is asked to receive.
fn receiving() -> ZmodemCrossTransfer {
    let mut all = paired();
    all.on_event(SOURCE, &requested(20, Role::Download), NOW);
    all.staging_created(PAIR, Ok(b"/stage".to_vec()));
    all.take_events();
    all
}

#[test]
fn a_source_that_moved_on_ends_the_pair() {
    let mut all = receiving();
    assert_eq!(
        all.receive(PAIR, Some(terminal(Some(20)))),
        Some((SOURCE, 20, b"/stage".to_vec()))
    );
    assert!(all.take_events().is_empty());
    assert_eq!(all.receive(CrossTransferId(11), None), None);
    assert!(all.take_events().is_empty());

    let closed = TerminalState {
        available: false,
        ..terminal(Some(20))
    };
    for source in [None, Some(terminal(None)), Some(terminal(Some(21))), Some(closed)] {
        let mut all = receiving();
        assert_eq!(all.receive(PAIR, source), None);
        assert!(all.take_events().iter().any(|event| matches!(
            event,
            CrossTransferEvent::Result { success: false, .. }
        )));
    }
}

#[test]
fn a_target_is_prepared_by_what_it_shows() {
    let all = delivered();
    assert!(matches!(
        all.prepare_target(PAIR, Some(terminal(None))),
        Some(TargetStep::StartUpload(TARGET, paths)) if paths == [b"/stage/a".to_vec()]
    ));
    let busy = TerminalState {
        busy: true,
        ..terminal(None)
    };
    for target in [None, Some(busy)] {
        assert!(matches!(
            all.prepare_target(PAIR, target),
            Some(TargetStep::Reply(TargetReply::Unavailable))
        ));
    }
    for identity in [None, Some((SessionId(5), BlockId(7)))] {
        let other = TerminalState {
            identity,
            ..terminal(None)
        };
        assert!(matches!(
            all.prepare_target(PAIR, Some(other)),
            Some(TargetStep::Reply(TargetReply::OtherShell))
        ));
    }
    assert!(paired().prepare_target(PAIR, Some(terminal(None))).is_none());
}

#[test]
fn a_target_uploads_only_its_own_transfer() {
    let mut all = delivered();
    all.target_prepared(PAIR, TargetReply::Started(21), NOW);
    all.take_events();
    assert_eq!(
        all.upload(PAIR, 21, Some(terminal(Some(21)))),
        Some((TARGET, vec![b"/stage/a".to_vec()]))
    );
    assert_eq!(all.upload(PAIR, 22, Some(terminal(Some(22)))), None);
    assert!(all.take_events().is_empty());
    assert_eq!(all.upload(PAIR, 21, Some(terminal(Some(22)))), None);
    assert!(!all.take_events().is_empty());
}

#[test]
fn failures_are_shown_in_their_debug_form() {
    for message in ["plain", "a \"quoted\" \\ path", "line\nend\u{1b}"] {
        let outcome = TransferOutcome::Failed(error(ErrorKind::Storage, message));
        let mut all = receiving();
        all.on_event(
            SOURCE,
            &finished(20, Role::Download, outcome.clone(), &[]),
            NOW,
        );
        let events = all.take_events();
        let shown = events
            .iter()
            .find_map(|event| match event {
                CrossTransferEvent::Result { message, .. } => Some(message.clone()),
                _ => None,
            })
            .expect("a result");
        assert_eq!(shown, format!("Cross-terminal transfer: {outcome:?}"));
    }
    assert_eq!(
        outcome_in_words(
            &TransferOutcome::Failed(error(ErrorKind::Timeout, "ignored")),
            "words"
        ),
        "Failed(TransferError { kind: Timeout, message: words })"
    );
    assert_eq!(
        outcome_in_words(&TransferOutcome::RemoteCancelled, "ignored"),
        "RemoteCancelled"
    );
}
