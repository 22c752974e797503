use agenterm::trigger_state::{
    BlockId, EntityId, SessionId, ShellType, SshBlockState, SshWarpifyEligibility,
    SshWarpifyOffer, TaskHandle, WarpifyState,
};
use std::sync::atomic::{AtomicU64, Ordering};

fn new_block() -> BlockId {
    static NEXT: AtomicU64 = AtomicU64::new(1);
    BlockId(NEXT.fetch_add(1, Ordering::Relaxed))
}

fn eligibility() -> SshWarpifyEligibility {
    SshWarpifyEligibility {
        running: true,
        prompt_detected: true,
        enabled: true,
        denylisted: false,
        agent: false,
        viewer: false,
    }
}

fn offer() -> SshWarpifyOffer {
    SshWarpifyOffer {
        block_id: new_block(),
        session_id: SessionId(42),
        host: "target".into(),
    }
}

#[test]
fn ssh_offer_cannot_move_to_another_block_or_session() {
    let mut state = WarpifyState::default();
    let offer = offer();
    state.offer_ssh(offer.clone());
    assert_eq!(
        state.reject_ssh_offer(
            &offer,
            &offer.block_id,
            Some(offer.session_id),
            &eligibility()
        ),
        None
    );
    assert_eq!(
        state.reject_ssh_offer(
            &offer,
            &new_block(),
            Some(offer.session_id),
            &eligibility()
        ),
        Some("stale-source")
    );
    assert_eq!(
        state.reject_ssh_offer(
            &offer,
            &offer.block_id,
            Some(SessionId(43)),
            &eligibility()
        ),
        Some("stale-source")
    );
    state.offer_ssh(self::offer());
    assert_eq!(
        state.reject_ssh_offer(
            &offer,
            &offer.block_id,
            Some(offer.session_id),
            &eligibility()
        ),
        Some("stale-source")
    );
}

#[test]
fn consumed_ssh_offer_is_not_rearmed_by_duplicate_ready() {
    let mut state = WarpifyState::default();
    let offer = offer();
    state.offer_ssh(offer.clone());
    state.consume_ssh_offer();
    state.offer_ssh(offer.clone());
    assert_eq!(
        state.reject_ssh_offer(
            &offer,
            &offer.block_id,
            Some(offer.session_id),
            &eligibility()
        ),
        Some("consumed")
    );
}

#[test]
fn manual_bootstrap_blocks_late_offer() {
    let mut state = WarpifyState::default();
    let offer = offer();
    state.mark_ssh_bootstrap_started(offer.block_id.clone());
    state.offer_ssh(offer.clone());
    assert_eq!(
        state.reject_ssh_offer(
            &offer,
            &offer.block_id,
            Some(offer.session_id),
            &eligibility()
        ),
        Some("consumed")
    );
}

#[test]
fn ssh_offer_rechecks_all_policy_guards() {
    let mut state = WarpifyState::default();
    let offer = offer();
    state.offer_ssh(offer.clone());
    for (snapshot, reason) in [
        (
            SshWarpifyEligibility {
                running: false,
                ..eligibility()
            },
            "not-running",
        ),
        (
            SshWarpifyEligibility {
                prompt_detected: false,
                ..eligibility()
            },
            "no-shell-prompt",
        ),
        (
            SshWarpifyEligibility {
                enabled: false,
                ..eligibility()
            },
            "disabled",
        ),
        (
            SshWarpifyEligibility {
                denylisted: true,
                ..eligibility()
            },
            "denylisted",
        ),
        (
            SshWarpifyEligibility {
                agent: true,
                ..eligibility()
            },
            "agent",
        ),
        (
            SshWarpifyEligibility {
                viewer: true,
                ..eligibility()
            },
            "viewer",
        ),
    ] {
        assert_eq!(
            state.reject_ssh_offer(&offer, &offer.block_id, Some(offer.session_id), &snapshot),
            Some(reason)
        );
    }
    state.delete_state();
    assert_eq!(
        state.reject_ssh_offer(
            &offer,
            &offer.block_id,
            Some(offer.session_id),
            &eligibility()
        ),
        Some("stale-source")
    );
}

#[test]
fn pending_state_is_made_when_needed_and_dropped_as_a_whole() {
    let mut state = WarpifyState::default();
    state.set_shell_detection_in_progress();
    assert!(!state.is_shell_detection_in_progress());
    state.set_block_id(BlockId(7));
    state.set_shell_detection_in_progress();
    assert!(state.is_shell_detection_in_progress());
    state.set_shell_type(&ShellType::Zsh);
    assert!(!state.is_shell_detection_in_progress());
    assert_eq!(state.get_shell_type(), Some(ShellType::Zsh));
    assert_eq!(state.block_id(), Some(BlockId(7)));
    state.set_pending_ssh_host("ssh target".to_owned(), Some("target".to_owned()));
    assert_eq!(state.get_pending_ssh_host().as_deref(), Some("target"));
    assert_eq!(state.get_pending_ssh_command().as_deref(), Some("ssh target"));
    assert_eq!(state.take_pending_ssh_host().as_deref(), Some("target"));
    assert_eq!(state.get_pending_ssh_host(), None);
    state.clear_pending_ssh_host();
    state.add_auto_warpify_abort_handle(TaskHandle(1));
    assert_eq!(state.abort_auto_warpify(), Some(TaskHandle(1)));
    assert_eq!(state.abort_auto_warpify(), None);
    state.add_subshell_banner_abort_handle(TaskHandle(2));
    assert_eq!(state.take_subshell_banner_abort_handle(), Some(TaskHandle(2)));
    state.add_ssh_warpify_timeout_handle(TaskHandle(3));
    let id = state.timeout_id();
    assert_eq!(state.abort_ssh_warpify_timeout(), Some(TaskHandle(3)));
    assert_eq!(state.timeout_id(), id.wrapping_add(1));
    assert!(!state.should_prevent_input());
    state.set_ssh_block_state(SshBlockState::WarpifySuccess { view: EntityId(9) });
    assert!(state.should_prevent_input());
    state.on_warpify_start(Some(SessionId(1)));
    let same = state.get_completed_warpify_session_id(Some(SessionId(1)));
    assert!(!same.notify);
    let over = state.get_completed_warpify_session_id(Some(SessionId(2)));
    assert!(over.notify);
    assert_eq!(over.success_block, Some(EntityId(9)));
    assert_eq!(state.block_id(), None);
    state.clear_ssh_block_state();
    state.delete_state();
    assert!(state.ssh_offer().is_none());
}
