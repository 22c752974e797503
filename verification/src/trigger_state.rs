//! What triggers the integration of a remote shell, and what is pending of it.

use vstd::prelude::*;

use crate::text::same_text;

verus! {

/// Identifies a block of the terminal.
#[derive(Clone, Copy, Debug, PartialEq, Eq, Hash, Structural)]
pub struct BlockId(pub u64);

/// Identifies a shell session.
#[derive(Clone, Copy, Debug, PartialEq, Eq, Hash, Structural)]
pub struct SessionId(pub u64);

/// Identifies a view.
#[derive(Clone, Copy, Debug, PartialEq, Eq, Hash, Structural)]
pub struct EntityId(pub u64);

/// Identifies a task that was started and may be aborted.
#[derive(Clone, Copy, Debug, PartialEq, Eq, Hash, Structural)]
pub struct TaskHandle(pub u64);

/// Shells that can be integrated.
#[derive(Clone, Copy, Debug, PartialEq, Eq, Structural)]
pub enum ShellType {
    Zsh,
    Bash,
    Fish,
    PowerShell,
}

/// A remote shell that could be integrated.
#[derive(Debug, PartialEq, Eq)]
pub struct SshWarpifyOffer {
    pub block_id: BlockId,
    pub session_id: SessionId,
    pub host: String,
}

/// An offer over plain values.
pub ghost struct OfferView {
    pub block_id: BlockId,
    pub session_id: SessionId,
    pub host: Seq<char>,
}

impl View for SshWarpifyOffer {
    type V = OfferView;

    open spec fn view(&self) -> OfferView {
        OfferView { block_id: self.block_id, session_id: self.session_id, host: self.host@ }
    }
}

impl Clone for SshWarpifyOffer {
    fn clone(&self) -> (r: Self)
        ensures
            r@ == self@,
    {
        SshWarpifyOffer {
            block_id: self.block_id,
            session_id: self.session_id,
            host: self.host.clone(),
        }
    }
}

impl SshWarpifyOffer {
    /// Whether two offers are the same.
    pub fn same(&self, other: &SshWarpifyOffer) -> (r: bool)
        ensures
            r == (self@ == other@),
    {
        self.block_id == other.block_id && self.session_id == other.session_id && same_text(
            self.host.as_str(),
            other.host.as_str(),
        )
    }
}

/// What speaks for and against an offer.
#[derive(Clone, Copy, Debug, PartialEq, Eq)]
pub struct SshWarpifyEligibility {
    pub running: bool,
    pub prompt_detected: bool,
    pub enabled: bool,
    pub denylisted: bool,
    pub agent: bool,
    pub viewer: bool,
}

/// The view of an optional reason.
pub open spec fn reason_view(reason: Option<&'static str>) -> Option<Seq<char>> {
    match reason {
        Some(reason) => Some(reason@),
        None => None,
    }
}

impl SshWarpifyEligibility {
    /// The first reason against an offer.
    pub open spec fn spec_rejection(self) -> Option<Seq<char>> {
        if !self.running {
            Some("not-running"@)
        } else if !self.prompt_detected {
            Some("no-shell-prompt"@)
        } else if !self.enabled {
            Some("disabled"@)
        } else if self.denylisted {
            Some("denylisted"@)
        } else if self.agent {
            Some("agent"@)
        } else if self.viewer {
            Some("viewer"@)
        } else {
            None
        }
    }

    /// The first reason against an offer, if there is one.
    pub fn rejection(&self) -> (r: Option<&'static str>)
        ensures
            reason_view(r) == self.spec_rejection(),
    {
        if !self.running {
            Some("not-running")
        } else if !self.prompt_detected {
            Some("no-shell-prompt")
        } else if !self.enabled {
            Some("disabled")
        } else if self.denylisted {
            Some("denylisted")
        } else if self.agent {
            Some("agent")
        } else if self.viewer {
            Some("viewer")
        } else {
            None
        }
    }
}

/// The block that stands in the block list for an integrated shell.
#[derive(Clone, Copy, Debug, PartialEq, Eq, Structural)]
pub enum SshBlockState {
    WarpifySuccess { view: EntityId },
}

impl SshBlockState {
    /// Whether the terminal should prevent typing.
    pub fn should_prevent_input(&self) -> (r: bool)
        ensures
            r,
    {
        true
    }

    /// The view of the block.
    pub fn get_block_view_id(&self) -> (r: EntityId)
        ensures
            *self == (SshBlockState::WarpifySuccess { view: r }),
    {
        match self {
            SshBlockState::WarpifySuccess { view } => *view,
        }
    }

    /// The view that is told that its session is complete.
    pub fn on_warpified_session_complete(&self) -> (r: EntityId)
        ensures
            *self == (SshBlockState::WarpifySuccess { view: r }),
    {
        self.get_block_view_id()
    }
}

/// What is pending of an integration.
struct WarpifyTriggerState {
    block_id: Option<BlockId>,
    auto_warpify_abort_handle: Option<TaskHandle>,
    subshell_banner_abort_handle: Option<TaskHandle>,
    pending_command: Option<String>,
    pending_warpify_ssh_host: Option<String>,
    ssh_block_state: Option<SshBlockState>,
    ssh_warpify_timeout_handle: Option<TaskHandle>,
    shell_type: Option<ShellType>,
    is_shell_detection_in_progress: bool,
}

/// What is pending of an integration, over plain values.
pub ghost struct TriggerView {
    pub block_id: Option<BlockId>,
    /// Aborts an attempt to integrate whose command has not completed.
    pub auto_warpify_abort_handle: Option<TaskHandle>,
    /// Aborts the delayed banner of a subshell.
    pub subshell_banner_abort_handle: Option<TaskHandle>,
    /// The command which may trigger the integration.
    pub pending_command: Option<Seq<char>>,
    /// The host which may trigger the integration.
    pub pending_warpify_ssh_host: Option<Seq<char>>,
    /// Which, if any, block is currently added to the block list.
    pub ssh_block_state: Option<SshBlockState>,
    pub ssh_warpify_timeout_handle: Option<TaskHandle>,
    pub shell_type: Option<ShellType>,
    pub is_shell_detection_in_progress: bool,
}

/// The view of optional text.
pub open spec fn string_view(text: Option<String>) -> Option<Seq<char>> {
    match text {
        Some(text) => Some(text@),
        None => None,
    }
}

fn copy_text(text: &Option<String>) -> (r: Option<String>)
    ensures
        string_view(r) == string_view(*text),
{
    match text {
        Some(text) => Some(text.clone()),
        None => None,
    }
}

impl View for WarpifyTriggerState {
    type V = TriggerView;

    closed spec fn view(&self) -> TriggerView {
        TriggerView {
            block_id: self.block_id,
            auto_warpify_abort_handle: self.auto_warpify_abort_handle,
            subshell_banner_abort_handle: self.subshell_banner_abort_handle,
            pending_command: string_view(self.pending_command),
            pending_warpify_ssh_host: string_view(self.pending_warpify_ssh_host),
            ssh_block_state: self.ssh_block_state,
            ssh_warpify_timeout_handle: self.ssh_warpify_timeout_handle,
            shell_type: self.shell_type,
            is_shell_detection_in_progress: self.is_shell_detection_in_progress,
        }
    }
}

impl TriggerView {
    /// Nothing is pending.
    pub open spec fn nothing() -> TriggerView {
        TriggerView {
            block_id: None,
            auto_warpify_abort_handle: None,
            subshell_banner_abort_handle: None,
            pending_command: None,
            pending_warpify_ssh_host: None,
            ssh_block_state: None,
            ssh_warpify_timeout_handle: None,
            shell_type: None,
            is_shell_detection_in_progress: false,
        }
    }
}

impl WarpifyTriggerState {
    fn new() -> (r: Self)
        ensures
            r@ == TriggerView::nothing(),
    {
        WarpifyTriggerState {
            block_id: None,
            auto_warpify_abort_handle: None,
            subshell_banner_abort_handle: None,
            pending_command: None,
            pending_warpify_ssh_host: None,
            ssh_block_state: None,
            ssh_warpify_timeout_handle: None,
            shell_type: None,
            is_shell_detection_in_progress: false,
        }
    }
}

/// What the terminal knows of integrations.
pub struct WarpifyState {
    ssh_offer: Option<SshWarpifyOffer>,
    ssh_offer_consumed: bool,
    ssh_started_block: Option<BlockId>,
    session_id: Option<SessionId>,
    pending_state: Option<WarpifyTriggerState>,
    timeout_id: u8,
}

/// What the terminal knows of integrations, over plain values.
pub ghost struct WarpifyView {
    pub ssh_offer: Option<OfferView>,
    /// The offer was taken up.
    pub ssh_offer_consumed: bool,
    /// The block in which an integration was started by hand.
    pub ssh_started_block: Option<BlockId>,
    pub session_id: Option<SessionId>,
    pub pending_state: Option<TriggerView>,
    /// A unique-enough id that is used to validate that a timeout is still valid.
    pub timeout_id: u8,
}

impl View for WarpifyState {
    type V = WarpifyView;

    closed spec fn view(&self) -> WarpifyView {
        WarpifyView {
            ssh_offer: match self.ssh_offer {
                Some(offer) => Some(offer@),
                None => None,
            },
            ssh_offer_consumed: self.ssh_offer_consumed,
            ssh_started_block: self.ssh_started_block,
            session_id: self.session_id,
            pending_state: match self.pending_state {
                Some(state) => Some(state@),
                None => None,
            },
            timeout_id: self.timeout_id,
        }
    }
}

impl WarpifyView {
    /// Nothing is known yet.
    pub open spec fn new() -> WarpifyView {
        WarpifyView {
            ssh_offer: None,
            ssh_offer_consumed: false,
            ssh_started_block: None,
            session_id: None,
            pending_state: None,
            timeout_id: 0,
        }
    }

    /// The state after an offer: the same offer again changes nothing, so one
    /// that was taken up stays so.
    pub open spec fn offered(self, offer: OfferView) -> WarpifyView {
        if self.ssh_offer == Some(offer) {
            self
        } else {
            WarpifyView { ssh_offer: Some(offer), ssh_offer_consumed: false, ..self }
        }
    }

    /// Why an offer is refused, if it is: it has to be the current one, for the
    /// current block and session, and not taken up before.
    pub open spec fn rejection(
        self,
        offer: OfferView,
        current_block: BlockId,
        current_session: Option<SessionId>,
        eligibility: SshWarpifyEligibility,
    ) -> Option<Seq<char>> {
        if self.ssh_offer != Some(offer) || offer.block_id != current_block || current_session
            != Some(offer.session_id) {
            Some("stale-source"@)
        } else if self.ssh_offer_consumed || self.ssh_started_block == Some(current_block) {
            Some("consumed"@)
        } else {
            eligibility.spec_rejection()
        }
    }

    /// What is pending, or nothing.
    pub open spec fn trigger(self) -> TriggerView {
        match self.pending_state {
            Some(state) => state,
            None => TriggerView::nothing(),
        }
    }

    /// The state with another trigger pending.
    pub open spec fn with_trigger(self, trigger: TriggerView) -> WarpifyView {
        WarpifyView { pending_state: Some(trigger), ..self }
    }

    /// The state with another trigger where one is pending.
    pub open spec fn with_pending(self, trigger: TriggerView) -> WarpifyView {
        if self.pending_state is Some {
            self.with_trigger(trigger)
        } else {
            self
        }
    }

    /// The state once the offer was taken up.
    pub open spec fn consumed(self) -> WarpifyView {
        WarpifyView { ssh_offer_consumed: true, ..self }
    }
}

impl Default for WarpifyState {
    fn default() -> (r: Self)
        ensures
            r@ == WarpifyView::new(),
    {
        WarpifyState {
            ssh_offer: None,
            ssh_offer_consumed: false,
            ssh_started_block: None,
            session_id: None,
            pending_state: None,
            timeout_id: 0,
        }
    }
}

/// What the terminal has to do when an integrated session is complete.
#[derive(Clone, Copy, Debug, PartialEq, Eq, Structural)]
pub struct CompletedSession {
    /// The terminal has to be drawn anew.
    pub notify: bool,
    /// The block that has to be told.
    pub success_block: Option<EntityId>,
}

impl WarpifyState {
    /// Takes an offer.
    pub fn offer_ssh(&mut self, offer: SshWarpifyOffer)
        ensures
            final(self)@ == old(self)@.offered(offer@),
    {
        if let Some(current) = &self.ssh_offer {
            if current.same(&offer) {
                return;
            }
        }
        self.ssh_offer = Some(offer);
        self.ssh_offer_consumed = false;
    }

    /// The current offer.
    pub fn ssh_offer(&self) -> (r: Option<&SshWarpifyOffer>)
        ensures
            match r {
                Some(offer) => self@.ssh_offer == Some(offer@),
                None => self@.ssh_offer is None,
            },
    {
        self.ssh_offer.as_ref()
    }

    /// Why an offer is refused, if it is.
    pub fn reject_ssh_offer(
        &self,
        offer: &SshWarpifyOffer,
        current_block: &BlockId,
        current_session: Option<SessionId>,
        eligibility: &SshWarpifyEligibility,
    ) -> (r: Option<&'static str>)
        ensures
            reason_view(r) == self@.rejection(
                offer@,
                *current_block,
                current_session,
                *eligibility,
            ),
    {
        let current: bool = match &self.ssh_offer {
            Some(known) => known.same(offer),
            None => false,
        };
        let here: bool = match current_session {
            Some(session) => session == offer.session_id,
            None => false,
        };
        if !current || offer.block_id != *current_block || !here {
            return Some("stale-source");
        }
        let started: bool = match self.ssh_started_block {
            Some(block) => block == *current_block,
            None => false,
        };
        if self.ssh_offer_consumed || started {
            return Some("consumed");
        }
        eligibility.rejection()
    }

    /// Marks the offer as taken up.
    pub fn consume_ssh_offer(&mut self)
        ensures
            final(self)@ == old(self)@.consumed(),
    {
        self.ssh_offer_consumed = true;
    }

    /// Marks an integration as started in a block.
    pub fn mark_ssh_bootstrap_started(&mut self, block_id: BlockId)
        ensures
            final(self)@ == (WarpifyView {
                ssh_started_block: Some(block_id),
                ..old(self)@.consumed()
            }),
    {
        self.ssh_started_block = Some(block_id);
        self.consume_ssh_offer();
    }

    /// Drops the offer and everything pending.
    pub fn delete_state(&mut self)
        ensures
            final(self)@ == (WarpifyView { ssh_offer: None, pending_state: None, ..old(self)@ }),
    {
        self.ssh_offer = None;
        self.pending_state = None;
    }

    /// Takes what is pending out, or nothing.
    fn take_trigger(&mut self) -> (r: WarpifyTriggerState)
        ensures
            r@ == old(self)@.trigger(),
            final(self)@ == (WarpifyView { pending_state: None, ..old(self)@ }),
    {
        match self.pending_state.take() {
            Some(state) => state,
            None => WarpifyTriggerState::new(),
        }
    }

    pub fn is_shell_detection_in_progress(&self) -> (r: bool)
        ensures
            r == self@.trigger().is_shell_detection_in_progress,
    {
        match &self.pending_state {
            Some(state) => state.is_shell_detection_in_progress,
            None => false,
        }
    }

    pub fn set_shell_detection_in_progress(&mut self)
        ensures
            final(self)@ == old(self)@.with_pending(
                (TriggerView { is_shell_detection_in_progress: true, ..old(self)@.trigger() }),
            ),
    {
        if let Some(state) = &mut self.pending_state {
            state.is_shell_detection_in_progress = true;
        }
    }

    pub fn set_shell_type(&mut self, shell_type: &ShellType)
        ensures
            final(self)@ == old(self)@.with_trigger(
                (TriggerView {
                    shell_type: Some(*shell_type),
                    is_shell_detection_in_progress: false,
                    ..old(self)@.trigger()
                }),
            ),
    {
        let mut state = self.take_trigger();
        state.shell_type = Some(*shell_type);
        state.is_shell_detection_in_progress = false;
        self.pending_state = Some(state);
    }

    pub fn get_shell_type(&self) -> (r: Option<ShellType>)
        ensures
            r == self@.trigger().shell_type,
    {
        match &self.pending_state {
            Some(state) => state.shell_type,
            None => None,
        }
    }

    pub fn add_subshell_banner_abort_handle(&mut self, handle: TaskHandle)
        ensures
            final(self)@ == old(self)@.with_trigger(
                (TriggerView {
                    subshell_banner_abort_handle: Some(handle),
                    ..old(self)@.trigger()
                }),
            ),
    {
        let mut state = self.take_trigger();
        state.subshell_banner_abort_handle = Some(handle);
        self.pending_state = Some(state);
    }

    pub fn take_subshell_banner_abort_handle(&mut self) -> (r: Option<TaskHandle>)
        ensures
            r == old(self)@.trigger().subshell_banner_abort_handle,
            final(self)@ == old(self)@.with_pending(
                (TriggerView { subshell_banner_abort_handle: None, ..old(self)@.trigger() }),
            ),
    {
        match &mut self.pending_state {
            Some(state) => state.subshell_banner_abort_handle.take(),
            None => None,
        }
    }

    pub fn add_auto_warpify_abort_handle(&mut self, handle: TaskHandle)
        ensures
            final(self)@ == old(self)@.with_trigger(
                (TriggerView { auto_warpify_abort_handle: Some(handle), ..old(self)@.trigger() }),
            ),
    {
        let mut state = self.take_trigger();
        state.auto_warpify_abort_handle = Some(handle);
        self.pending_state = Some(state);
    }

    /// The task that has to be aborted, if there is one.
    pub fn abort_auto_warpify(&mut self) -> (r: Option<TaskHandle>)
        ensures
            r == old(self)@.trigger().auto_warpify_abort_handle,
            final(self)@ == old(self)@.with_pending(
                (TriggerView { auto_warpify_abort_handle: None, ..old(self)@.trigger() }),
            ),
    {
        match &mut self.pending_state {
            Some(state) => state.auto_warpify_abort_handle.take(),
            None => None,
        }
    }

    pub fn add_ssh_warpify_timeout_handle(&mut self, handle: TaskHandle)
        ensures
            final(self)@ == old(self)@.with_trigger(
                (TriggerView { ssh_warpify_timeout_handle: Some(handle), ..old(self)@.trigger() }),
            ),
    {
        let mut state = self.take_trigger();
        state.ssh_warpify_timeout_handle = Some(handle);
        self.pending_state = Some(state);
    }

    /// Invalidates the running timeout; the task that has to be aborted, if
    /// there is one.
    pub fn abort_ssh_warpify_timeout(&mut self) -> (r: Option<TaskHandle>)
        ensures
            r == old(self)@.trigger().ssh_warpify_timeout_handle,
            final(self)@ == (WarpifyView {
                timeout_id: next_timeout_id(old(self)@.timeout_id),
                ..old(self)@.with_pending(
                    (TriggerView { ssh_warpify_timeout_handle: None, ..old(self)@.trigger() }),
                )
            }),
    {
        let _ = self.replace_timeout_id();
        match &mut self.pending_state {
            Some(state) => state.ssh_warpify_timeout_handle.take(),
            None => None,
        }
    }

    pub fn clear_ssh_block_state(&mut self)
        ensures
            final(self)@ == old(self)@.with_pending(
                (TriggerView { ssh_block_state: None, ..old(self)@.trigger() }),
            ),
    {
        if let Some(state) = &mut self.pending_state {
            state.ssh_block_state = None;
        }
    }

    pub fn set_ssh_block_state(&mut self, ssh_block_state: SshBlockState)
        ensures
            final(self)@ == old(self)@.with_trigger(
                (TriggerView { ssh_block_state: Some(ssh_block_state), ..old(self)@.trigger() }),
            ),
    {
        let mut state = self.take_trigger();
        state.ssh_block_state = Some(ssh_block_state);
        self.pending_state = Some(state);
    }

    pub fn ssh_block_state(&self) -> (r: Option<SshBlockState>)
        ensures
            r == self@.trigger().ssh_block_state,
    {
        match &self.pending_state {
            Some(state) => state.ssh_block_state,
            None => None,
        }
    }

    pub fn get_pending_ssh_host(&self) -> (r: Option<String>)
        ensures
            string_view(r) == self@.trigger().pending_warpify_ssh_host,
    {
        match &self.pending_state {
            Some(state) => copy_text(&state.pending_warpify_ssh_host),
            None => None,
        }
    }

    pub fn get_pending_ssh_command(&self) -> (r: Option<String>)
        ensures
            string_view(r) == self@.trigger().pending_command,
    {
        match &self.pending_state {
            Some(state) => copy_text(&state.pending_command),
            None => None,
        }
    }

    pub fn take_pending_ssh_host(&mut self) -> (r: Option<String>)
        ensures
            string_view(r) == old(self)@.trigger().pending_warpify_ssh_host,
            final(self)@ == old(self)@.with_pending(
                (TriggerView { pending_warpify_ssh_host: None, ..old(self)@.trigger() }),
            ),
    {
        match &mut self.pending_state {
            Some(state) => state.pending_warpify_ssh_host.take(),
            None => None,
        }
    }

    pub fn clear_pending_ssh_host(&mut self)
        ensures
            final(self)@ == old(self)@.with_pending(
                (TriggerView { pending_warpify_ssh_host: None, ..old(self)@.trigger() }),
            ),
    {
        if let Some(state) = &mut self.pending_state {
            state.pending_warpify_ssh_host = None;
        }
    }

    pub fn set_pending_ssh_host(&mut self, command: String, ssh_host: Option<String>)
        ensures
            final(self)@ == old(self)@.with_trigger(
                (TriggerView {
                    pending_command: Some(command@),
                    pending_warpify_ssh_host: string_view(ssh_host),
                    ..old(self)@.trigger()
                }),
            ),
    {
        let mut state = self.take_trigger();
        state.pending_command = Some(command);
        state.pending_warpify_ssh_host = ssh_host;
        self.pending_state = Some(state);
    }

    pub fn set_block_id(&mut self, block_id: BlockId)
        ensures
            final(self)@ == old(self)@.with_trigger(
                (TriggerView { block_id: Some(block_id), ..old(self)@.trigger() }),
            ),
    {
        let mut state = self.take_trigger();
        state.block_id = Some(block_id);
        self.pending_state = Some(state);
    }

    pub fn block_id(&self) -> (r: Option<BlockId>)
        ensures
            r == self@.trigger().block_id,
    {
        match &self.pending_state {
            Some(state) => state.block_id,
            None => None,
        }
    }

    pub fn timeout_id(&self) -> (r: u8)
        ensures
            r == self@.timeout_id,
    {
        self.timeout_id
    }

    /// Generates a new timeout ID. This is used to validate that a timeout is still valid.
    /// Call this to get a new timeout ID before starting a new timeout, or to invalidate
    /// an existing timeout.
    pub fn replace_timeout_id(&mut self) -> (r: u8)
        ensures
            r == next_timeout_id(old(self)@.timeout_id),
            final(self)@ == (WarpifyView { timeout_id: r, ..old(self)@ }),
    {
        self.timeout_id = self.timeout_id.wrapping_add(1);
        self.timeout_id
    }

    /// The terminal view should prevent typing
    pub fn should_prevent_input(&self) -> (r: bool)
        ensures
            r == (self@.trigger().ssh_block_state is Some),
    {
        match self.ssh_block_state() {
            Some(state) => state.should_prevent_input(),
            None => false,
        }
    }

    /// Takes over that an integration starts.
    pub fn on_warpify_start(&mut self, active_session_id: Option<SessionId>)
        ensures
            final(self)@ == (WarpifyView {
                session_id: active_session_id,
                ..old(self)@.consumed()
            }),
    {
        self.consume_ssh_offer();
        self.session_id = active_session_id;
    }

    /// Called whenever a block is completed, to determine whether a Warpified session
    /// has been completed.
    pub fn get_completed_warpify_session_id(&mut self, active_session_id: Option<SessionId>) -> (r:
        CompletedSession)
        ensures
            ({
                let over = old(self)@.session_id is Some && active_session_id
                    != old(self)@.session_id && old(self)@.pending_state is Some;
                &&& r.notify == over
                &&& r.success_block == match old(self)@.trigger().ssh_block_state {
                    Some(SshBlockState::WarpifySuccess { view }) if over => Some(view),
                    _ => None,
                }
                &&& final(self)@ == if over {
                    WarpifyView { pending_state: None, ..old(self)@ }
                } else {
                    old(self)@
                }
            }),
    {
        let left: bool = match (self.session_id, active_session_id) {
            (None, _) => false,
            (Some(session), Some(active)) => session != active,
            (Some(_), None) => true,
        };
        if !left {
            return CompletedSession { notify: false, success_block: None };
        }
        match self.pending_state.take() {
            Some(state) => {
                let success_block: Option<EntityId> = match &state.ssh_block_state {
                    Some(block) => Some(block.on_warpified_session_complete()),
                    None => None,
                };
                CompletedSession { notify: true, success_block }
            },
            None => CompletedSession { notify: false, success_block: None },
        }
    }
}

/// The id of the next timeout; ids wrap around.
pub open spec fn next_timeout_id(id: u8) -> u8 {
    if id == 255 {
        0
    } else {
        (id + 1) as u8
    }
}

/// An offer that was taken up is not armed again by a repetition of itself.
pub proof fn law_consumed_offer_stays_consumed(
    state: WarpifyView,
    offer: OfferView,
    eligibility: SshWarpifyEligibility,
)
    ensures
        ({
            let again = state.offered(offer).consumed().offered(offer);
            again.rejection(offer, offer.block_id, Some(offer.session_id), eligibility) == Some(
                "consumed"@,
            )
        }),
{
}

/// An offer is good for its own block and session only.
pub proof fn law_offers_do_not_move(
    state: WarpifyView,
    offer: OfferView,
    block: BlockId,
    session: Option<SessionId>,
    eligibility: SshWarpifyEligibility,
)
    requires
        block != offer.block_id || session != Some(offer.session_id) || state.ssh_offer != Some(
            offer,
        ),
    ensures
        state.rejection(offer, block, session, eligibility) == Some("stale-source"@),
{
}

/// A block in which an integration was started by hand takes no late offer.
pub proof fn law_started_block_takes_no_offer(
    state: WarpifyView,
    offer: OfferView,
    eligibility: SshWarpifyEligibility,
)
    ensures
        ({
            let started = WarpifyView {
                ssh_started_block: Some(offer.block_id),
                ..state.consumed()
            };
            started.offered(offer).rejection(
                offer,
                offer.block_id,
                Some(offer.session_id),
                eligibility,
            ) == Some("consumed"@)
        }),
{
}

/// A new timeout is never taken for the one before it.
pub proof fn law_timeout_ids_change(id: u8)
    ensures
        next_timeout_id(id) != id,
{
}

/// Nothing speaks against an offer exactly if a shell runs at its prompt,
/// offers are enabled and the host is not excluded, and it is neither an
/// agent's nor only watched.
pub proof fn law_eligible_hosts_are_not_rejected(eligibility: SshWarpifyEligibility)
    ensures
        eligibility.spec_rejection() is None <==> eligibility.running
            && eligibility.prompt_detected && eligibility.enabled && !eligibility.denylisted
            && !eligibility.agent && !eligibility.viewer,
{
}

/// The first thing that speaks against an offer is named, in a fixed order.
pub proof fn law_the_first_reason_is_named(eligibility: SshWarpifyEligibility)
    ensures
        !eligibility.running ==> eligibility.spec_rejection() == Some("not-running"@),
        eligibility.running && !eligibility.prompt_detected ==> eligibility.spec_rejection()
            == Some("no-shell-prompt"@),
        eligibility.running && eligibility.prompt_detected && !eligibility.enabled
            ==> eligibility.spec_rejection() == Some("disabled"@),
        eligibility.running && eligibility.prompt_detected && eligibility.enabled
            && eligibility.denylisted ==> eligibility.spec_rejection() == Some("denylisted"@),
        eligibility.running && eligibility.prompt_detected && eligibility.enabled
            && !eligibility.denylisted && eligibility.agent ==> eligibility.spec_rejection()
            == Some("agent"@),
        eligibility.running && eligibility.prompt_detected && eligibility.enabled
            && !eligibility.denylisted && !eligibility.agent && eligibility.viewer
            ==> eligibility.spec_rejection() == Some("viewer"@),
{
}

/// A new offer in a block where nothing was started yet can be taken up in its
/// own block and session, whatever became of the offer before it.
pub proof fn law_new_offers_can_be_taken_up(
    state: WarpifyView,
    offer: OfferView,
    eligibility: SshWarpifyEligibility,
)
    requires
        state.ssh_offer != Some(offer),
        state.ssh_started_block != Some(offer.block_id),
    ensures
        ({
            let after = state.offered(offer);
            &&& after.ssh_offer == Some(offer)
            &&& !after.ssh_offer_consumed
            &&& after == (WarpifyView {
                ssh_offer: after.ssh_offer,
                ssh_offer_consumed: after.ssh_offer_consumed,
                ..state
            })
            &&& after.rejection(offer, offer.block_id, Some(offer.session_id), eligibility)
                == eligibility.spec_rejection()
            &&& after.offered(offer) == after
            &&& after.consumed() == (WarpifyView { ssh_offer_consumed: true, ..after })
        }),
{
}

/// Timeouts are numbered in turn, and a number comes back only after all the
/// others.
pub proof fn law_timeout_ids_run_through(id: u8)
    ensures
        next_timeout_id(id) as int == (id + 1) % 256,
{
}

/// What was set pending is pending, and what changes a pending trigger does
/// nothing where none is.
pub proof fn law_pending_triggers_are_kept(state: WarpifyView, trigger: TriggerView)
    ensures
        state.with_trigger(trigger).trigger() == trigger,
        state.with_trigger(trigger) == (WarpifyView {
            pending_state: Some(trigger),
            ..state
        }),
        state.pending_state is None ==> state.with_pending(trigger) == state && state.trigger()
            == TriggerView::nothing(),
        state.pending_state is Some ==> state.with_pending(trigger).trigger() == trigger,
{
}

/// At first nothing is offered, started or pending, and no offer can be taken
/// up that was not made.
pub proof fn law_nothing_is_offered_at_first(
    offer: OfferView,
    block: BlockId,
    session: Option<SessionId>,
    eligibility: SshWarpifyEligibility,
)
    ensures
        ({
            let state = WarpifyView::new();
            &&& state.ssh_offer is None
            &&& !state.ssh_offer_consumed
            &&& state.ssh_started_block is None
            &&& state.session_id is None
            &&& state.pending_state is None
            &&& state.timeout_id == 0
            &&& state.rejection(offer, block, session, eligibility) == Some("stale-source"@)
            &&& state.trigger().block_id is None
            &&& state.trigger().pending_command is None
            &&& state.trigger().ssh_block_state is None
            &&& !state.trigger().is_shell_detection_in_progress
        }),
{
}

} // verus!
