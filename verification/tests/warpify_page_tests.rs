use agenterm::warpify_page::{
    is_valid_added_command, normalized_upload_command, page_sections, init_actions_from_parent_view,
    policy_choices, trim_text, EditorEvent, PageEffect, PageSection, RowControl,
    SshExtensionInstallMode, WarpifyPageView, WarpifyPageAction,
};
use agenterm::zmodem_settings::{ZmodemOverwritePolicy, ZmodemSetting, ZmodemSettings};

fn page() -> WarpifyPageView {
    WarpifyPageView::new(
        true,
        false,
        SshExtensionInstallMode::AlwaysAsk,
        ZmodemSettings::defaults(Some("/downloads".to_owned())),
    )
}

#[test]
fn upload_command_is_trimmed_and_never_blank() {
    assert_eq!(normalized_upload_command("  lrz -b \t"), "lrz -b");
    assert_eq!(normalized_upload_command(" \u{3000}\n"), "rz");
    assert_eq!(normalized_upload_command(""), "rz");
    for text in ["", " ", "a", " a", "a ", "  a b  ", "\u{85}x\u{2028}", "\u{200b}x"] {
        assert_eq!(trim_text(text), text.trim());
    }
}

#[test]
fn added_commands_are_patterns() {
    assert!(is_valid_added_command("docker( .*)? exec"));
    assert!(!is_valid_added_command("("));
    assert!(!is_valid_added_command("a{2,1}"));
}

#[test]
fn actions_change_their_setting_and_nothing_else() {
    let mut page = page();
    assert!(matches!(
        page.handle_action(&WarpifyPageAction::ToggleZmodem),
        PageEffect::Save
    ));
    assert!(!page.zmodem.enabled);
    page.handle_action(&WarpifyPageAction::ToggleZmodemAskDownloadDirectory);
    assert!(!page.zmodem.ask_download_directory);
    page.handle_action(&WarpifyPageAction::ToggleZmodemDrag);
    assert!(page.zmodem.drag_enabled);
    page.handle_action(&WarpifyPageAction::ToggleZmodemCrossTransfer);
    assert!(page.zmodem.cross_transfer_enabled);
    page.handle_action(&WarpifyPageAction::SetZmodemOverwritePolicy(
        ZmodemOverwritePolicy::Rename,
    ));
    assert_eq!(page.zmodem.overwrite_policy, ZmodemOverwritePolicy::Rename);
    page.handle_action(&WarpifyPageAction::ToggleSshWarpification);
    assert!(!page.enable_ssh_warpification);
    assert!(!page.install_mode_enabled);
    page.handle_action(&WarpifyPageAction::ToggleReuseSshControlMaster);
    assert!(page.reuse_existing_control_master);
    page.handle_action(&WarpifyPageAction::SetSshExtensionInstallMode(
        SshExtensionInstallMode::AlwaysSkip,
    ));
    assert_eq!(
        page.ssh_extension_install_mode,
        SshExtensionInstallMode::AlwaysSkip
    );
    assert!(matches!(
        page.handle_action(&WarpifyPageAction::RemoveAddedCommand(3)),
        PageEffect::RemoveAddedCommand(3)
    ));
    assert!(matches!(
        page.handle_action(&WarpifyPageAction::RemoveDenylistedCommand(4)),
        PageEffect::RemoveDenylistedCommand(4)
    ));
    assert!(matches!(
        page.handle_action(&WarpifyPageAction::OpenUrl("u".to_owned())),
        PageEffect::OpenUrl(url) if url == "u"
    ));
}

#[test]
fn fields_are_saved_when_left_and_restored_on_escape() {
    let mut page = page();
    page.download_directory_text = " /other ".to_owned();
    assert!(matches!(
        page.download_directory_event(EditorEvent::Edited),
        PageEffect::Nothing
    ));
    assert_eq!(page.zmodem.download_directory, "/downloads");
    page.download_directory_event(EditorEvent::Blurred);
    assert_eq!(page.zmodem.download_directory, " /other ");
    page.download_directory_text = "x".to_owned();
    assert!(matches!(
        page.download_directory_event(EditorEvent::Escape),
        PageEffect::FocusPage
    ));
    assert_eq!(page.download_directory_text, " /other ");
    page.upload_command_text = "  ".to_owned();
    page.upload_command_event(EditorEvent::Enter);
    assert_eq!(page.zmodem.upload_command, "rz");
    assert_eq!(page.upload_command_text, "rz");
    page.upload_command_text = "y".to_owned();
    page.upload_command_event(EditorEvent::Escape);
    assert_eq!(page.upload_command_text, "rz");
}

#[test]
fn page_shows_what_the_platform_supports() {
    assert_eq!(
        page_sections(true, true),
        [
            PageSection::Title,
            PageSection::Subshells,
            PageSection::Ssh,
            PageSection::Zmodem
        ]
    );
    assert_eq!(
        page_sections(false, false),
        [PageSection::Title, PageSection::Subshells]
    );
    let page = page();
    let labels: Vec<_> = page.zmodem_rows().iter().map(|row| row.label).collect();
    assert_eq!(
        labels,
        [
            "Enable ZMODEM",
            "Ask for download directory",
            "Download directory",
            "Existing files",
            "Upload dropped files with ZMODEM",
            "Upload command",
            "Cross-terminal transfers",
        ]
    );
    assert_eq!(page.ssh_rows(true).len(), 3);
    let rows = page.ssh_rows(false);
    assert_eq!(rows.len(), 2);
    assert_eq!(
        rows[1].control,
        RowControl::Switch {
            checked: false,
            enabled: true,
            action: WarpifyPageAction::ToggleReuseSshControlMaster,
        }
    );
    assert!(rows[1].description.unwrap().starts_with("Attach to a live SSH"));
    assert!(PageSection::Zmodem.search_terms().contains("overwrite"));
}

#[test]
fn fields_follow_settings_that_change_elsewhere() {
    let mut page = page();
    page.download_directory_text = "typing".to_owned();
    page.upload_command_text = "typing too".to_owned();
    let mut settings = page.zmodem.clone();
    settings.download_directory = "/new".to_owned();
    settings.upload_command = "lrz".to_owned();
    page.settings_changed(settings.clone(), ZmodemSetting::Enabled);
    assert_eq!(page.download_directory_text, "typing");
    page.settings_changed(settings.clone(), ZmodemSetting::DownloadDirectory);
    assert_eq!(page.download_directory_text, "/new");
    assert_eq!(page.upload_command_text, "typing too");
    page.settings_changed(settings, ZmodemSetting::UploadCommand);
    assert_eq!(page.upload_command_text, "lrz");
    assert_eq!(page.zmodem.upload_command, "lrz");

    let names: Vec<_> = policy_choices().iter().map(|choice| choice.name).collect();
    assert_eq!(names, ["Skip", "Rename", "Overwrite"]);
    assert_eq!(
        init_actions_from_parent_view(true),
        [("SSH Warpification", WarpifyPageAction::ToggleSshWarpification)]
    );
    assert!(init_actions_from_parent_view(false).is_empty());
}
