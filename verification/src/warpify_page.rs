//! The settings page of shell integration and transfers: what it shows, and
//! what the user's actions change.

use vstd::prelude::*;
use vstd::string::*;

use crate::text::{from_chars, is_whitespace, is_whitespace_char, to_chars};
use crate::zmodem_settings::{ZmodemOverwritePolicy, ZmodemSetting, ZmodemSettings};

verus! {

/// How the extension for remote shells is installed where it is missing.
#[derive(Clone, Copy, Debug, PartialEq, Eq, Structural)]
pub enum SshExtensionInstallMode {
    AlwaysAsk,
    AlwaysInstall,
    AlwaysSkip,
}

/// What the user does on the page.
#[derive(Clone, Debug, PartialEq)]
pub enum WarpifyPageAction {
    RemoveAddedCommand(usize),
    RemoveDenylistedCommand(usize),
    ToggleSshWarpification,
    /// Toggles whether the legacy SSH wrapper attaches to an existing
    /// ControlMaster for the destination host instead of creating its own.
    ToggleReuseSshControlMaster,
    /// Set the SSH extension installation mode (always ask / always install / always skip).
    SetSshExtensionInstallMode(SshExtensionInstallMode),
    ToggleZmodem,
    ToggleZmodemAskDownloadDirectory,
    ToggleZmodemDrag,
    ToggleZmodemCrossTransfer,
    SetZmodemOverwritePolicy(ZmodemOverwritePolicy),
    OpenUrl(String),
}

/// What happens in a text field.
#[derive(Clone, Copy, Debug, PartialEq, Eq, Structural)]
pub enum EditorEvent {
    Enter,
    Blurred,
    Escape,
    Edited,
}

/// What the application has to do for an action.
#[derive(Debug)]
pub enum PageEffect {
    /// Nothing more.
    Nothing,
    /// Save the settings.
    Save,
    /// Remove an added command from the settings of subshells.
    RemoveAddedCommand(usize),
    /// Remove a denied command from the settings of subshells.
    RemoveDenylistedCommand(usize),
    /// Give the focus back to the page.
    FocusPage,
    OpenUrl(String),
}

/// What the application has to do, over plain values.
pub ghost enum PageEffectView {
    Nothing,
    Save,
    RemoveAddedCommand(usize),
    RemoveDenylistedCommand(usize),
    FocusPage,
    OpenUrl(Seq<char>),
}

impl View for PageEffect {
    type V = PageEffectView;

    open spec fn view(&self) -> PageEffectView {
        match *self {
            PageEffect::Nothing => PageEffectView::Nothing,
            PageEffect::Save => PageEffectView::Save,
            PageEffect::RemoveAddedCommand(index) => PageEffectView::RemoveAddedCommand(index),
            PageEffect::RemoveDenylistedCommand(index) => PageEffectView::RemoveDenylistedCommand(
                index,
            ),
            PageEffect::FocusPage => PageEffectView::FocusPage,
            PageEffect::OpenUrl(url) => PageEffectView::OpenUrl(url@),
        }
    }
}

/// What the page edits.
pub struct WarpifyPageView {
    pub enable_ssh_warpification: bool,
    pub reuse_existing_control_master: bool,
    pub ssh_extension_install_mode: SshExtensionInstallMode,
    /// The installation mode can be chosen.
    pub install_mode_enabled: bool,
    pub zmodem: ZmodemSettings,
    /// Text in the field of the download directory.
    pub download_directory_text: String,
    /// Text in the field of the upload command.
    pub upload_command_text: String,
}

/// What the page edits, over plain values.
pub ghost struct PageView {
    pub enable_ssh_warpification: bool,
    pub reuse_existing_control_master: bool,
    pub ssh_extension_install_mode: SshExtensionInstallMode,
    pub install_mode_enabled: bool,
    pub zmodem_enabled: bool,
    pub ask_download_directory: bool,
    pub download_directory: Seq<char>,
    pub overwrite_policy: ZmodemOverwritePolicy,
    pub drag_enabled: bool,
    pub upload_command: Seq<char>,
    pub cross_transfer_enabled: bool,
    pub last_directory: Seq<char>,
    pub download_directory_text: Seq<char>,
    pub upload_command_text: Seq<char>,
}

impl View for WarpifyPageView {
    type V = PageView;

    open spec fn view(&self) -> PageView {
        PageView {
            enable_ssh_warpification: self.enable_ssh_warpification,
            reuse_existing_control_master: self.reuse_existing_control_master,
            ssh_extension_install_mode: self.ssh_extension_install_mode,
            install_mode_enabled: self.install_mode_enabled,
            zmodem_enabled: self.zmodem.enabled,
            ask_download_directory: self.zmodem.ask_download_directory,
            download_directory: self.zmodem.download_directory@,
            overwrite_policy: self.zmodem.overwrite_policy,
            drag_enabled: self.zmodem.drag_enabled,
            upload_command: self.zmodem.upload_command@,
            cross_transfer_enabled: self.zmodem.cross_transfer_enabled,
            last_directory: self.zmodem.last_directory@,
            download_directory_text: self.download_directory_text@,
            upload_command_text: self.upload_command_text@,
        }
    }
}

/// Index of the first character from `from` on that is not white space.
pub open spec fn first_dark(text: Seq<char>, from: int) -> int
    decreases text.len() - from,
{
    if 0 <= from < text.len() && is_whitespace(text[from]) {
        first_dark(text, from + 1)
    } else {
        from
    }
}

/// Index behind the last character before `to` that is not white space.
pub open spec fn last_dark(text: Seq<char>, from: int, to: int) -> int
    decreases to - from,
{
    if from < to <= text.len() && is_whitespace(text[to - 1]) {
        last_dark(text, from, to - 1)
    } else {
        to
    }
}

/// Text without white space at its ends.
pub open spec fn trimmed(text: Seq<char>) -> Seq<char> {
    let from = first_dark(text, 0);
    text.subrange(from, last_dark(text, from, text.len() as int))
}

/// The text without white space at its ends.
pub fn trim_text(text: &str) -> (r: String)
    ensures
        r@ == trimmed(text@),
{
    let chars: Vec<char> = to_chars(text);
    let mut from: usize = 0;
    while from < chars.len() && is_whitespace_char(chars[from])
        invariant
            from <= chars.len(),
            first_dark(chars@, 0) == first_dark(chars@, from as int),
        decreases chars.len() - from,
    {
        from = from + 1;
    }
    let mut to: usize = chars.len();
    while to > from && is_whitespace_char(chars[to - 1])
        invariant
            from <= to <= chars.len(),
            last_dark(chars@, from as int, chars@.len() as int) == last_dark(
                chars@,
                from as int,
                to as int,
            ),
        decreases to,
    {
        to = to - 1;
    }
    let part = vstd::slice::slice_subrange(chars.as_slice(), from, to);
    from_chars(part)
}

/// The command that uploads are started with: what the user typed, or `rz`
/// where that is blank.
pub open spec fn upload_command_of(text: Seq<char>) -> Seq<char> {
    if trimmed(text).len() == 0 {
        "rz"@
    } else {
        trimmed(text)
    }
}

/// The command that uploads are started with.
pub fn normalized_upload_command(text: &str) -> (r: String)
    ensures
        r@ == upload_command_of(text@),
{
    let command = trim_text(text);
    if command.as_str().is_empty() {
        "rz".to_owned()
    } else {
        command
    }
}

/// The upload command is never blank and never begins with white space.
pub proof fn law_upload_command_is_never_blank(text: Seq<char>)
    ensures
        upload_command_of(text).len() > 0,
        !is_whitespace(upload_command_of(text)[0]),
{
    reveal_strlit("rz");
    let from = first_dark(text, 0);
    lemma_first_dark(text, 0);
    if trimmed(text).len() > 0 {
        lemma_last_dark(text, from, text.len() as int);
    }
}

proof fn lemma_first_dark(text: Seq<char>, from: int)
    requires
        0 <= from <= text.len(),
    ensures
        from <= first_dark(text, from) <= text.len(),
        forall|i: int| from <= i < first_dark(text, from) ==> is_whitespace(#[trigger] text[i]),
        first_dark(text, from) < text.len() ==> !is_whitespace(text[first_dark(text, from)]),
    decreases text.len() - from,
{
    if from < text.len() && is_whitespace(text[from]) {
        lemma_first_dark(text, from + 1);
    }
}

proof fn lemma_last_dark(text: Seq<char>, from: int, to: int)
    requires
        0 <= from <= to <= text.len(),
    ensures
        from <= last_dark(text, from, to) <= to,
        forall|i: int| last_dark(text, from, to) <= i < to ==> is_whitespace(#[trigger] text[i]),
        last_dark(text, from, to) > from ==> !is_whitespace(text[last_dark(text, from, to) - 1]),
    decreases to - from,
{
    if from < to && is_whitespace(text[to - 1]) {
        lemma_last_dark(text, from, to - 1);
    }
}

/// Whether `regex::Regex::new` accepts a pattern.
pub uninterp spec fn regex_compiles(pattern: Seq<char>) -> bool;

/// `regex::Regex::new`: whether the pattern is accepted. Which patterns those
/// are is the syntax of that crate, and nothing more is said of it here.
#[verifier::external_body]
fn compiles(pattern: &str) -> (r: bool)
    ensures
        r == regex_compiles(pattern@),
{
    regex::Regex::new(pattern).is_ok()
}

/// Whether a command may be added: added commands are patterns.
pub fn is_valid_added_command(command: &str) -> (r: bool)
    ensures
        r == regex_compiles(command@),
{
    compiles(command)
}

impl PageView {
    /// The page after an action.
    pub open spec fn acted(self, action: WarpifyPageAction) -> (PageView, PageEffectView) {
        match action {
            WarpifyPageAction::RemoveAddedCommand(index) => (
                self,
                PageEffectView::RemoveAddedCommand(index),
            ),
            WarpifyPageAction::RemoveDenylistedCommand(index) => (
                self,
                PageEffectView::RemoveDenylistedCommand(index),
            ),
            WarpifyPageAction::ToggleSshWarpification => (
                PageView {
                    enable_ssh_warpification: !self.enable_ssh_warpification,
                    install_mode_enabled: !self.enable_ssh_warpification,
                    ..self
                },
                PageEffectView::Save,
            ),
            WarpifyPageAction::ToggleReuseSshControlMaster => (
                PageView {
                    reuse_existing_control_master: !self.reuse_existing_control_master,
                    ..self
                },
                PageEffectView::Save,
            ),
            WarpifyPageAction::SetSshExtensionInstallMode(mode) => (
                PageView { ssh_extension_install_mode: mode, ..self },
                PageEffectView::Save,
            ),
            WarpifyPageAction::ToggleZmodem => (
                PageView { zmodem_enabled: !self.zmodem_enabled, ..self },
                PageEffectView::Save,
            ),
            WarpifyPageAction::ToggleZmodemAskDownloadDirectory => (
                PageView { ask_download_directory: !self.ask_download_directory, ..self },
                PageEffectView::Save,
            ),
            WarpifyPageAction::ToggleZmodemDrag => (
                PageView { drag_enabled: !self.drag_enabled, ..self },
                PageEffectView::Save,
            ),
            WarpifyPageAction::ToggleZmodemCrossTransfer => (
                PageView { cross_transfer_enabled: !self.cross_transfer_enabled, ..self },
                PageEffectView::Save,
            ),
            WarpifyPageAction::SetZmodemOverwritePolicy(policy) => (
                PageView { overwrite_policy: policy, ..self },
                PageEffectView::Save,
            ),
            WarpifyPageAction::OpenUrl(url) => (self, PageEffectView::OpenUrl(url@)),
        }
    }

    /// The page after something happened in the field of the download
    /// directory: leaving it saves the text as it stands, escaping restores it.
    pub open spec fn directory_edited(self, event: EditorEvent) -> (PageView, PageEffectView) {
        match event {
            EditorEvent::Edited => (self, PageEffectView::Nothing),
            EditorEvent::Escape => (
                PageView { download_directory_text: self.download_directory, ..self },
                PageEffectView::FocusPage,
            ),
            _ => (
                PageView { download_directory: self.download_directory_text, ..self },
                PageEffectView::Save,
            ),
        }
    }

    /// The page after something happened in the field of the upload command:
    /// leaving it saves the normalized text, which is then shown.
    pub open spec fn command_edited(self, event: EditorEvent) -> (PageView, PageEffectView) {
        match event {
            EditorEvent::Edited => (self, PageEffectView::Nothing),
            EditorEvent::Escape => (
                PageView { upload_command_text: self.upload_command, ..self },
                PageEffectView::FocusPage,
            ),
            _ => {
                let command = upload_command_of(self.upload_command_text);
                (
                    PageView {
                        upload_command: command,
                        upload_command_text: command,
                        ..self
                    },
                    PageEffectView::Save,
                )
            },
        }
    }
}

impl WarpifyPageView {
    /// A page that shows the given settings.
    pub fn new(
        enable_ssh_warpification: bool,
        reuse_existing_control_master: bool,
        ssh_extension_install_mode: SshExtensionInstallMode,
        zmodem: ZmodemSettings,
    ) -> (r: Self)
        ensures
            r.zmodem == zmodem,
            r@.enable_ssh_warpification == enable_ssh_warpification,
            r@.reuse_existing_control_master == reuse_existing_control_master,
            r@.ssh_extension_install_mode == ssh_extension_install_mode,
            r@.install_mode_enabled == enable_ssh_warpification,
            r@.download_directory_text == zmodem.download_directory@,
            r@.upload_command_text == zmodem.upload_command@,
    {
        let download_directory_text = zmodem.download_directory.clone();
        let upload_command_text = zmodem.upload_command.clone();
        WarpifyPageView {
            enable_ssh_warpification,
            reuse_existing_control_master,
            ssh_extension_install_mode,
            install_mode_enabled: enable_ssh_warpification,
            zmodem,
            download_directory_text,
            upload_command_text,
        }
    }

    /// Takes an action of the user.
    pub fn handle_action(&mut self, action: &WarpifyPageAction) -> (r: PageEffect)
        ensures
            (final(self)@, r@) == old(self)@.acted(*action),
    {
        match action {
            WarpifyPageAction::RemoveAddedCommand(index) => {
                PageEffect::RemoveAddedCommand(*index)
            },
            WarpifyPageAction::RemoveDenylistedCommand(index) => {
                PageEffect::RemoveDenylistedCommand(*index)
            },
            WarpifyPageAction::ToggleSshWarpification => {
                self.enable_ssh_warpification = !self.enable_ssh_warpification;
                self.install_mode_enabled = self.enable_ssh_warpification;
                PageEffect::Save
            },
            WarpifyPageAction::ToggleReuseSshControlMaster => {
                self.reuse_existing_control_master = !self.reuse_existing_control_master;
                PageEffect::Save
            },
            WarpifyPageAction::SetSshExtensionInstallMode(mode) => {
                self.ssh_extension_install_mode = *mode;
                PageEffect::Save
            },
            WarpifyPageAction::ToggleZmodem => {
                self.zmodem.enabled = !self.zmodem.enabled;
                PageEffect::Save
            },
            WarpifyPageAction::ToggleZmodemAskDownloadDirectory => {
                self.zmodem.ask_download_directory = !self.zmodem.ask_download_directory;
                PageEffect::Save
            },
            WarpifyPageAction::ToggleZmodemDrag => {
                self.zmodem.drag_enabled = !self.zmodem.drag_enabled;
                PageEffect::Save
            },
            WarpifyPageAction::ToggleZmodemCrossTransfer => {
                self.zmodem.cross_transfer_enabled = !self.zmodem.cross_transfer_enabled;
                PageEffect::Save
            },
            WarpifyPageAction::SetZmodemOverwritePolicy(policy) => {
                self.zmodem.overwrite_policy = *policy;
                PageEffect::Save
            },
            WarpifyPageAction::OpenUrl(url) => PageEffect::OpenUrl(url.clone()),
        }
    }

    /// Takes what happens in the field of the download directory.
    pub fn download_directory_event(&mut self, event: EditorEvent) -> (r: PageEffect)
        ensures
            (final(self)@, r@) == old(self)@.directory_edited(event),
    {
        match event {
            EditorEvent::Edited => PageEffect::Nothing,
            EditorEvent::Escape => {
                self.download_directory_text = self.zmodem.download_directory.clone();
                PageEffect::FocusPage
            },
            _ => {
                self.zmodem.download_directory = self.download_directory_text.clone();
                PageEffect::Save
            },
        }
    }

    /// Takes what happens in the field of the upload command.
    pub fn upload_command_event(&mut self, event: EditorEvent) -> (r: PageEffect)
        ensures
            (final(self)@, r@) == old(self)@.command_edited(event),
    {
        match event {
            EditorEvent::Edited => PageEffect::Nothing,
            EditorEvent::Escape => {
                self.upload_command_text = self.zmodem.upload_command.clone();
                PageEffect::FocusPage
            },
            _ => {
                let command = normalized_upload_command(self.upload_command_text.as_str());
                self.upload_command_text = command.clone();
                self.zmodem.upload_command = command;
                PageEffect::Save
            },
        }
    }
}

impl WarpifyPageView {
    /// Takes over settings that changed elsewhere: the text fields show their
    /// own setting again when it is the one that changed.
    pub fn settings_changed(&mut self, zmodem: ZmodemSettings, changed: ZmodemSetting)
        ensures
            final(self).zmodem == zmodem,
            final(self)@ == (PageView {
                enable_ssh_warpification: old(self)@.enable_ssh_warpification,
                reuse_existing_control_master: old(self)@.reuse_existing_control_master,
                ssh_extension_install_mode: old(self)@.ssh_extension_install_mode,
                install_mode_enabled: old(self)@.install_mode_enabled,
                download_directory_text: if changed is DownloadDirectory {
                    zmodem.download_directory@
                } else {
                    old(self)@.download_directory_text
                },
                upload_command_text: if changed is UploadCommand {
                    zmodem.upload_command@
                } else {
                    old(self)@.upload_command_text
                },
                ..final(self)@
            }),
    {
        match changed {
            ZmodemSetting::DownloadDirectory => {
                self.download_directory_text = zmodem.download_directory.clone();
            },
            ZmodemSetting::UploadCommand => {
                self.upload_command_text = zmodem.upload_command.clone();
            },
            _ => {},
        }
        self.zmodem = zmodem;
    }
}

/// A choice of the overwrite policy.
pub struct PolicyChoice {
    pub name: &'static str,
    pub action: WarpifyPageAction,
}

/// The choices of the overwrite policy, in order.
pub fn policy_choices() -> (r: Vec<PolicyChoice>)
    ensures
        r@.len() == 3,
        r@[0].name@ == "Skip"@,
        r@[0].action == WarpifyPageAction::SetZmodemOverwritePolicy(ZmodemOverwritePolicy::Skip),
        r@[1].name@ == "Rename"@,
        r@[1].action == WarpifyPageAction::SetZmodemOverwritePolicy(ZmodemOverwritePolicy::Rename),
        r@[2].name@ == "Overwrite"@,
        r@[2].action == WarpifyPageAction::SetZmodemOverwritePolicy(
            ZmodemOverwritePolicy::Overwrite,
        ),
{
    let mut choices: Vec<PolicyChoice> = Vec::new();
    choices.push(policy_choice(ZmodemOverwritePolicy::Skip));
    choices.push(policy_choice(ZmodemOverwritePolicy::Rename));
    choices.push(policy_choice(ZmodemOverwritePolicy::Overwrite));
    choices
}

fn policy_choice(policy: ZmodemOverwritePolicy) -> (r: PolicyChoice)
    ensures
        r.name@ == policy.spec_display_name(),
        r.action == WarpifyPageAction::SetZmodemOverwritePolicy(policy),
{
    PolicyChoice {
        name: policy.display_name(),
        action: WarpifyPageAction::SetZmodemOverwritePolicy(policy),
    }
}

/// The switches that the command palette offers as well: the one on remote
/// shells, where the platform supports it.
pub fn init_actions_from_parent_view(ssh_supported: bool) -> (r: Vec<(&'static str, WarpifyPageAction)>)
    ensures
        r@.len() == if ssh_supported {
            1int
        } else {
            0int
        },
        ssh_supported ==> r@[0].0@ == "SSH Warpification"@ && r@[0].1
            == WarpifyPageAction::ToggleSshWarpification,
{
    let mut toggles: Vec<(&'static str, WarpifyPageAction)> = Vec::new();
    if ssh_supported {
        toggles.push(("SSH Warpification", WarpifyPageAction::ToggleSshWarpification));
    }
    toggles
}

/// What a row of the page controls.
#[derive(Clone, Debug, PartialEq)]
pub enum RowControl {
    /// A switch and what it does.
    Switch { checked: bool, enabled: bool, action: WarpifyPageAction },
    /// A text field.
    Text { text: String },
    /// A choice of the extension's installation mode.
    InstallMode { selected: SshExtensionInstallMode, enabled: bool },
    /// A choice of the overwrite policy.
    Policy { selected: ZmodemOverwritePolicy },
}

/// A row of the page.
pub struct Row {
    pub label: &'static str,
    pub description: Option<&'static str>,
    pub control: RowControl,
}

/// A row over plain values.
pub ghost struct RowView {
    pub label: Seq<char>,
    pub description: Option<Seq<char>>,
    pub control: RowControlView,
}

/// What a row of the page controls, over plain values.
pub ghost enum RowControlView {
    Switch { checked: bool, enabled: bool, action: WarpifyPageAction },
    Text { text: Seq<char> },
    InstallMode { selected: SshExtensionInstallMode, enabled: bool },
    Policy { selected: ZmodemOverwritePolicy },
}

impl View for Row {
    type V = RowView;

    open spec fn view(&self) -> RowView {
        RowView {
            label: self.label@,
            description: crate::zmodem_settings::text_view(self.description),
            control: match self.control {
                RowControl::Switch { checked, enabled, action } => RowControlView::Switch {
                    checked,
                    enabled,
                    action,
                },
                RowControl::Text { text } => RowControlView::Text { text: text@ },
                RowControl::InstallMode { selected, enabled } => RowControlView::InstallMode {
                    selected,
                    enabled,
                },
                RowControl::Policy { selected } => RowControlView::Policy { selected },
            },
        }
    }
}

/// The view of rows.
pub open spec fn rows_view(rows: Seq<Row>) -> Seq<RowView> {
    rows.map_values(|row: Row| row@)
}

/// A row with a switch.
pub open spec fn switch_row(
    label: Seq<char>,
    description: Option<Seq<char>>,
    checked: bool,
    enabled: bool,
    action: WarpifyPageAction,
) -> RowView {
    RowView { label, description, control: RowControlView::Switch { checked, enabled, action } }
}

/// The rows on remote shells; the extension has one only where it is offered.
pub open spec fn ssh_rows_of(page: PageView, extension_offered: bool) -> Seq<RowView> {
    let first = switch_row(
        "Warpify SSH Sessions"@,
        None,
        page.enable_ssh_warpification,
        true,
        WarpifyPageAction::ToggleSshWarpification,
    );
    let extension = RowView {
        label: "Install SSH extension"@,
        description: Some(
            "Controls the installation behavior for Warp's SSH extension when a remote host doesn't have it installed."@,
        ),
        control: RowControlView::InstallMode {
            selected: page.ssh_extension_install_mode,
            enabled: page.install_mode_enabled,
        },
    };
    let last = switch_row(
        "Reuse existing SSH ControlMaster"@,
        Some(
            "Attach to a live SSH ControlMaster you already have configured for the destination host instead of creating a Warp-owned one. Takes effect in new tabs."@,
        ),
        page.reuse_existing_control_master,
        page.enable_ssh_warpification,
        WarpifyPageAction::ToggleReuseSshControlMaster,
    );
    if extension_offered {
        seq![first, extension, last]
    } else {
        seq![first, last]
    }
}

/// The rows on transfers.
pub open spec fn zmodem_rows_of(page: PageView) -> Seq<RowView> {
    seq![
        switch_row(
            "Enable ZMODEM"@,
            None,
            page.zmodem_enabled,
            true,
            WarpifyPageAction::ToggleZmodem,
        ),
        switch_row(
            "Ask for download directory"@,
            None,
            page.ask_download_directory,
            true,
            WarpifyPageAction::ToggleZmodemAskDownloadDirectory,
        ),
        RowView {
            label: "Download directory"@,
            description: None,
            control: RowControlView::Text { text: page.download_directory_text },
        },
        RowView {
            label: "Existing files"@,
            description: None,
            control: RowControlView::Policy { selected: page.overwrite_policy },
        },
        switch_row(
            "Upload dropped files with ZMODEM"@,
            None,
            page.drag_enabled,
            true,
            WarpifyPageAction::ToggleZmodemDrag,
        ),
        RowView {
            label: "Upload command"@,
            description: None,
            control: RowControlView::Text { text: page.upload_command_text },
        },
        switch_row(
            "Cross-terminal transfers"@,
            None,
            page.cross_transfer_enabled,
            true,
            WarpifyPageAction::ToggleZmodemCrossTransfer,
        ),
    ]
}

fn switch(
    label: &'static str,
    description: Option<&'static str>,
    checked: bool,
    enabled: bool,
    action: WarpifyPageAction,
) -> (r: Row)
    ensures
        r@ == switch_row(
            label@,
            crate::zmodem_settings::text_view(description),
            checked,
            enabled,
            action,
        ),
{
    Row { label, description, control: RowControl::Switch { checked, enabled, action } }
}

impl WarpifyPageView {
    /// The rows on remote shells.
    pub fn ssh_rows(&self, extension_offered: bool) -> (r: Vec<Row>)
        ensures
            rows_view(r@) == ssh_rows_of(self@, extension_offered),
    {
        let mut rows: Vec<Row> = Vec::new();
        rows.push(
            switch(
                "Warpify SSH Sessions",
                None,
                self.enable_ssh_warpification,
                true,
                WarpifyPageAction::ToggleSshWarpification,
            ),
        );
        if extension_offered {
            rows.push(
                Row {
                    label: "Install SSH extension",
                    description: Some(
                        "Controls the installation behavior for Warp's SSH extension when a remote host doesn't have it installed.",
                    ),
                    control: RowControl::InstallMode {
                        selected: self.ssh_extension_install_mode,
                        enabled: self.install_mode_enabled,
                    },
                },
            );
        }
        rows.push(
            switch(
                "Reuse existing SSH ControlMaster",
                Some(
                    "Attach to a live SSH ControlMaster you already have configured for the destination host instead of creating a Warp-owned one. Takes effect in new tabs.",
                ),
                self.reuse_existing_control_master,
                self.enable_ssh_warpification,
                WarpifyPageAction::ToggleReuseSshControlMaster,
            ),
        );
        assert(rows_view(rows@) =~= ssh_rows_of(self@, extension_offered));
        rows
    }

    /// The rows on transfers.
    pub fn zmodem_rows(&self) -> (r: Vec<Row>)
        ensures
            rows_view(r@) == zmodem_rows_of(self@),
    {
        let mut rows: Vec<Row> = Vec::new();
        rows.push(
            switch(
                "Enable ZMODEM",
                None,
                self.zmodem.enabled,
                true,
                WarpifyPageAction::ToggleZmodem,
            ),
        );
        rows.push(
            switch(
                "Ask for download directory",
                None,
                self.zmodem.ask_download_directory,
                true,
                WarpifyPageAction::ToggleZmodemAskDownloadDirectory,
            ),
        );
        rows.push(
            Row {
                label: "Download directory",
                description: None,
                control: RowControl::Text { text: self.download_directory_text.clone() },
            },
        );
        rows.push(
            Row {
                label: "Existing files",
                description: None,
                control: RowControl::Policy { selected: self.zmodem.overwrite_policy },
            },
        );
        rows.push(
            switch(
                "Upload dropped files with ZMODEM",
                None,
                self.zmodem.drag_enabled,
                true,
                WarpifyPageAction::ToggleZmodemDrag,
            ),
        );
        rows.push(
            Row {
                label: "Upload command",
                description: None,
                control: RowControl::Text { text: self.upload_command_text.clone() },
            },
        );
        rows.push(
            switch(
                "Cross-terminal transfers",
                None,
                self.zmodem.cross_transfer_enabled,
                true,
                WarpifyPageAction::ToggleZmodemCrossTransfer,
            ),
        );
        assert(rows_view(rows@) =~= zmodem_rows_of(self@));
        rows
    }
}

/// Parts of the page.
#[derive(Clone, Copy, Debug, PartialEq, Eq, Structural)]
pub enum PageSection {
    Title,
    Subshells,
    Ssh,
    Zmodem,
}

impl PageSection {
    /// The words under which the part is found.
    pub fn search_terms(&self) -> (r: &'static str)
        ensures
            r@ == match *self {
                PageSection::Title => "ssh subshell warpify session"@,
                PageSection::Subshells => "warpify subshell"@,
                PageSection::Ssh => "warpify ssh"@,
                PageSection::Zmodem => {
                    "zmodem rz sz upload download directory overwrite skip rename drag cross terminal transfer"@
                },
            },
    {
        match self {
            PageSection::Title => "ssh subshell warpify session",
            PageSection::Subshells => "warpify subshell",
            PageSection::Ssh => "warpify ssh",
            PageSection::Zmodem => {
                "zmodem rz sz upload download directory overwrite skip rename drag cross terminal transfer"
            },
        }
    }
}

/// The parts of the page on a platform.
pub open spec fn sections_of(ssh_supported: bool, zmodem_supported: bool) -> Seq<PageSection> {
    let always = seq![PageSection::Title, PageSection::Subshells];
    let ssh = if ssh_supported {
        always.push(PageSection::Ssh)
    } else {
        always
    };
    if zmodem_supported {
        ssh.push(PageSection::Zmodem)
    } else {
        ssh
    }
}

/// The parts of the page on a platform: what is not supported is not shown.
pub fn page_sections(ssh_supported: bool, zmodem_supported: bool) -> (r: Vec<PageSection>)
    ensures
        r@ == sections_of(ssh_supported, zmodem_supported),
{
    let mut sections: Vec<PageSection> = Vec::new();
    sections.push(PageSection::Title);
    sections.push(PageSection::Subshells);
    assert(sections@ =~= seq![PageSection::Title, PageSection::Subshells]);
    if ssh_supported {
        sections.push(PageSection::Ssh);
    }
    if zmodem_supported {
        sections.push(PageSection::Zmodem);
    }
    sections
}

/// A switch that is pressed twice is where it was.
pub proof fn law_toggles_undo_themselves(page: PageView)
    ensures
        page.acted(WarpifyPageAction::ToggleZmodem).0.acted(WarpifyPageAction::ToggleZmodem).0
            == page,
        page.acted(WarpifyPageAction::ToggleZmodemAskDownloadDirectory).0.acted(
            WarpifyPageAction::ToggleZmodemAskDownloadDirectory,
        ).0 == page,
        page.acted(WarpifyPageAction::ToggleZmodemDrag).0.acted(
            WarpifyPageAction::ToggleZmodemDrag,
        ).0 == page,
        page.acted(WarpifyPageAction::ToggleZmodemCrossTransfer).0.acted(
            WarpifyPageAction::ToggleZmodemCrossTransfer,
        ).0 == page,
        page.acted(WarpifyPageAction::ToggleReuseSshControlMaster).0.acted(
            WarpifyPageAction::ToggleReuseSshControlMaster,
        ).0 == page,
        page.install_mode_enabled == page.enable_ssh_warpification ==> page.acted(
            WarpifyPageAction::ToggleSshWarpification,
        ).0.acted(WarpifyPageAction::ToggleSshWarpification).0 == page,
{
}

/// Trimmed text is the text without the white space at its ends, and nothing
/// else is left out.
pub proof fn law_trimming_takes_only_outer_blanks(text: Seq<char>)
    ensures
        exists|from: int, to: int|
            {
                &&& 0 <= from <= to <= text.len()
                &&& trimmed(text) == #[trigger] text.subrange(from, to)
                &&& forall|i: int| 0 <= i < from ==> is_whitespace(#[trigger] text[i])
                &&& forall|i: int| to <= i < text.len() ==> is_whitespace(#[trigger] text[i])
            },
        trimmed(text).len() > 0 ==> !is_whitespace(trimmed(text)[0]) && !is_whitespace(
            trimmed(text).last(),
        ),
{
    lemma_first_dark(text, 0);
    let from = first_dark(text, 0);
    lemma_last_dark(text, from, text.len() as int);
    let to = last_dark(text, from, text.len() as int);
    assert(trimmed(text) == text.subrange(from, to));
    if to > from {
        assert(trimmed(text)[0] == text[from]);
        assert(trimmed(text).last() == text[to - 1]);
    }
}

/// Text with no white space at its ends is the upload command as it is, so a
/// saved command is saved again unchanged; blank text stands for `rz`.
pub proof fn law_upload_commands_are_kept(text: Seq<char>)
    ensures
        text.len() > 0 && !is_whitespace(text[0]) && !is_whitespace(text.last())
            ==> upload_command_of(text) == text,
        (forall|i: int| 0 <= i < text.len() ==> is_whitespace(#[trigger] text[i]))
            ==> upload_command_of(text) == "rz"@,
{
    lemma_first_dark(text, 0);
    let from = first_dark(text, 0);
    lemma_last_dark(text, from, text.len() as int);
    if text.len() > 0 && !is_whitespace(text[0]) && !is_whitespace(text.last()) {
        assert(trimmed(text) =~= text);
    }
    if forall|i: int| 0 <= i < text.len() ==> is_whitespace(#[trigger] text[i]) {
        assert(from == text.len());
    }
}

/// Each action changes the setting that it is for, to the opposite or to what
/// was chosen, and saves it; nothing else on the page changes.
pub proof fn law_actions_change_their_setting(
    page: PageView,
    mode: SshExtensionInstallMode,
    policy: ZmodemOverwritePolicy,
)
    ensures
        page.acted(WarpifyPageAction::ToggleZmodem) == (
            PageView { zmodem_enabled: !page.zmodem_enabled, ..page },
            PageEffectView::Save,
        ),
        page.acted(WarpifyPageAction::ToggleZmodemAskDownloadDirectory) == (
            PageView { ask_download_directory: !page.ask_download_directory, ..page },
            PageEffectView::Save,
        ),
        page.acted(WarpifyPageAction::ToggleZmodemDrag) == (
            PageView { drag_enabled: !page.drag_enabled, ..page },
            PageEffectView::Save,
        ),
        page.acted(WarpifyPageAction::ToggleZmodemCrossTransfer) == (
            PageView { cross_transfer_enabled: !page.cross_transfer_enabled, ..page },
            PageEffectView::Save,
        ),
        page.acted(WarpifyPageAction::ToggleReuseSshControlMaster) == (
            PageView { reuse_existing_control_master: !page.reuse_existing_control_master, ..page },
            PageEffectView::Save,
        ),
        page.acted(WarpifyPageAction::SetSshExtensionInstallMode(mode)) == (
            PageView { ssh_extension_install_mode: mode, ..page },
            PageEffectView::Save,
        ),
        page.acted(WarpifyPageAction::SetZmodemOverwritePolicy(policy)) == (
            PageView { overwrite_policy: policy, ..page },
            PageEffectView::Save,
        ),
        ({
            let (next, effect) = page.acted(WarpifyPageAction::ToggleSshWarpification);
            &&& effect is Save
            &&& next.enable_ssh_warpification == !page.enable_ssh_warpification
            &&& next.install_mode_enabled == next.enable_ssh_warpification
            &&& next == (PageView {
                enable_ssh_warpification: next.enable_ssh_warpification,
                install_mode_enabled: next.install_mode_enabled,
                ..page
            })
        }),
{
}

/// A switch does what it shows: its own action turns its row to the opposite
/// and leaves every other row on transfers as it is.
pub proof fn law_switches_turn_their_own_row(page: PageView, index: int, other: int)
    requires
        0 <= index < zmodem_rows_of(page).len(),
        0 <= other < zmodem_rows_of(page).len(),
        other != index,
    ensures
        zmodem_rows_of(page)[index].control matches RowControlView::Switch {
            checked,
            enabled,
            action,
        } ==> ({
            let rows = zmodem_rows_of(page.acted(action).0);
            &&& rows[index].control == (RowControlView::Switch {
                checked: !checked,
                enabled,
                action,
            })
            &&& rows[index].label == zmodem_rows_of(page)[index].label
            &&& rows[other] == zmodem_rows_of(page)[other]
        }),
{
}

/// The rows on transfers show what is set.
pub proof fn law_rows_show_the_settings(page: PageView)
    ensures
        ({
            let rows = zmodem_rows_of(page);
            &&& rows.len() == 7
            &&& rows[0].control matches RowControlView::Switch { checked, .. } && checked
                == page.zmodem_enabled
            &&& rows[1].control matches RowControlView::Switch { checked, .. } && checked
                == page.ask_download_directory
            &&& rows[2].control == (RowControlView::Text { text: page.download_directory_text })
            &&& rows[3].control == (RowControlView::Policy { selected: page.overwrite_policy })
            &&& rows[4].control matches RowControlView::Switch { checked, .. } && checked
                == page.drag_enabled
            &&& rows[5].control == (RowControlView::Text { text: page.upload_command_text })
            &&& rows[6].control matches RowControlView::Switch { checked, .. } && checked
                == page.cross_transfer_enabled
        }),
        ({
            let rows = ssh_rows_of(page, true);
            &&& rows.len() == 3
            &&& rows[0].control == (RowControlView::Switch {
                checked: page.enable_ssh_warpification,
                enabled: true,
                action: WarpifyPageAction::ToggleSshWarpification,
            })
            &&& rows[1].control == (RowControlView::InstallMode {
                selected: page.ssh_extension_install_mode,
                enabled: page.install_mode_enabled,
            })
            &&& rows[2].control == (RowControlView::Switch {
                checked: page.reuse_existing_control_master,
                enabled: page.enable_ssh_warpification,
                action: WarpifyPageAction::ToggleReuseSshControlMaster,
            })
            &&& ssh_rows_of(page, false) == seq![rows[0], rows[2]]
        }),
{
    let rows = ssh_rows_of(page, true);
    assert(ssh_rows_of(page, false) =~= seq![rows[0], rows[2]]);
}

/// Leaving an editor saves what was typed, escaping brings back what is saved,
/// and typing alone does neither.
pub proof fn law_editors_save_or_restore(page: PageView, event: EditorEvent)
    ensures
        ({
            let (next, effect) = page.directory_edited(event);
            match event {
                EditorEvent::Edited => next == page && effect is Nothing,
                EditorEvent::Escape => {
                    &&& effect is FocusPage
                    &&& next == (PageView {
                        download_directory_text: page.download_directory,
                        ..page
                    })
                },
                _ => {
                    &&& effect is Save
                    &&& next == (PageView {
                        download_directory: page.download_directory_text,
                        ..page
                    })
                },
            }
        }),
        ({
            let (next, effect) = page.command_edited(event);
            match event {
                EditorEvent::Edited => next == page && effect is Nothing,
                EditorEvent::Escape => {
                    &&& effect is FocusPage
                    &&& next == (PageView { upload_command_text: page.upload_command, ..page })
                },
                _ => {
                    &&& effect is Save
                    &&& next.upload_command == next.upload_command_text
                    &&& next == (PageView {
                        upload_command: next.upload_command,
                        upload_command_text: next.upload_command_text,
                        ..page
                    })
                    &&& page.upload_command_text.len() > 0 && !is_whitespace(
                        page.upload_command_text[0],
                    ) && !is_whitespace(page.upload_command_text.last()) ==> next.upload_command
                        == page.upload_command_text
                },
            }
        }),
{
    law_upload_commands_are_kept(page.upload_command_text);
}

/// The parts of the page are those that the platform supports, in order.
pub proof fn law_sections_fit_the_platform(ssh_supported: bool, zmodem_supported: bool)
    ensures
        ({
            let sections = sections_of(ssh_supported, zmodem_supported);
            &&& sections[0] is Title
            &&& sections[1] is Subshells
            &&& sections.contains(PageSection::Ssh) <==> ssh_supported
            &&& sections.contains(PageSection::Zmodem) <==> zmodem_supported
            &&& sections.len() == 2 + (if ssh_supported {
                1int
            } else {
                0
            }) + (if zmodem_supported {
                1int
            } else {
                0
            })
        }),
{
    let sections = sections_of(ssh_supported, zmodem_supported);
    if ssh_supported {
        assert(sections[2] is Ssh);
    }
    if zmodem_supported {
        assert(sections.last() is Zmodem);
    }
}

} // verus!
