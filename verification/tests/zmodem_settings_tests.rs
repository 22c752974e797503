use agenterm::zmodem_runtime::OverwritePolicy;
use agenterm::zmodem_settings::{
    default_download_directory, SupportedPlatforms, SyncToCloud, UserDirectories,
    ZmodemOverwritePolicy, ZmodemSetting, ZmodemSettings,
};

fn downloads() -> Option<Vec<u8>> {
    Some(b"/home/user/Downloads".to_vec())
}

fn default_settings() -> ZmodemSettings {
    ZmodemSettings::defaults(Some("/home/user/Downloads".to_owned()))
}

#[test]
fn defaults_require_directory_choice_and_preserve_existing_files() {
    let settings = default_settings();
    assert!(settings.enabled);
    assert!(settings.ask_download_directory);
    assert_eq!(settings.overwrite_policy, ZmodemOverwritePolicy::Skip);
    assert!(!settings.drag_enabled);
    assert!(!settings.cross_transfer_enabled);
    assert_eq!(settings.upload_command, "rz");
    assert!(settings.last_directory.is_empty());
    assert_eq!(settings.resolved_download_directory(downloads()), downloads());
    assert_eq!(
        ZmodemSettings::defaults(None).resolved_download_directory(None),
        None
    );
}

fn assert_metadata(setting: ZmodemSetting, toml_path: Option<&str>) {
    assert!(matches!(setting.sync_to_cloud(), SyncToCloud::Never));
    assert!(matches!(
        setting.supported_platforms(),
        SupportedPlatforms::MAC
    ));
    assert_eq!(setting.toml_path(), toml_path);
    assert_eq!(setting.is_private(), toml_path.is_none());
}

#[test]
fn all_settings_are_local_and_last_directory_is_private() {
    assert_metadata(ZmodemSetting::Enabled, Some("terminal.zmodem.enabled"));
    assert_metadata(
        ZmodemSetting::AskDownloadDirectory,
        Some("terminal.zmodem.ask_download_directory"),
    );
    assert_metadata(
        ZmodemSetting::DownloadDirectory,
        Some("terminal.zmodem.download_directory"),
    );
    assert_metadata(ZmodemSetting::LastDirectory, None);
    assert_metadata(
        ZmodemSetting::OverwritePolicy,
        Some("terminal.zmodem.overwrite_policy"),
    );
    assert_metadata(
        ZmodemSetting::DragEnabled,
        Some("terminal.zmodem.drag_enabled"),
    );
    assert_metadata(
        ZmodemSetting::UploadCommand,
        Some("terminal.zmodem.upload_command"),
    );
    assert_metadata(
        ZmodemSetting::CrossTransferEnabled,
        Some("terminal.zmodem.cross_transfer_enabled"),
    );
    assert_eq!(ZmodemSetting::LastDirectory.description(), None);
    assert_eq!(
        ZmodemSetting::OverwritePolicy.description(),
        Some("How ZMODEM downloads handle existing files.")
    );
}

#[test]
fn overwrite_policy_roundtrips_as_snake_case() {
    for (policy, serialized) in [
        (ZmodemOverwritePolicy::Skip, "\"skip\""),
        (ZmodemOverwritePolicy::Rename, "\"rename\""),
        (ZmodemOverwritePolicy::Overwrite, "\"overwrite\""),
    ] {
        assert_eq!(
            serde_json::to_string(policy.snake_case()).unwrap(),
            serialized
        );
        let name = serde_json::from_str::<String>(serialized).unwrap();
        assert_eq!(ZmodemOverwritePolicy::from_snake_case(&name), Some(policy));
    }
    let unknown = serde_json::from_str::<String>("\"unknown\"").unwrap();
    assert!(ZmodemOverwritePolicy::from_snake_case(&unknown).is_none());
}

#[test]
fn blank_directory_resolves_downloads_without_rewriting_explicit_paths() {
    let mut settings = default_settings();
    for blank in ["", "   "] {
        settings.download_directory = blank.to_owned();
        assert_eq!(settings.resolved_download_directory(downloads()), downloads());
    }
    let explicit_path = "/tmp/download folder ";
    settings.download_directory = explicit_path.to_owned();
    assert_eq!(
        settings.resolved_download_directory(downloads()),
        Some(explicit_path.as_bytes().to_vec()),
    );
}

#[test]
fn policies_have_names_and_runtime_counterparts() {
    assert_eq!(ZmodemOverwritePolicy::default(), ZmodemOverwritePolicy::Skip);
    for (policy, name, runtime) in [
        (ZmodemOverwritePolicy::Skip, "Skip", OverwritePolicy::Skip),
        (ZmodemOverwritePolicy::Rename, "Rename", OverwritePolicy::Rename),
        (
            ZmodemOverwritePolicy::Overwrite,
            "Overwrite",
            OverwritePolicy::Overwrite,
        ),
    ] {
        assert_eq!(policy.display_name(), name);
        assert_eq!(policy.runtime_policy(), runtime);
    }
}

#[test]
fn white_space_is_what_the_standard_library_calls_so() {
    for code in 0..=0x11_0000u32 {
        if let Some(c) = char::from_u32(code) {
            assert_eq!(agenterm::text::is_whitespace_char(c), c.is_whitespace(), "{code:x}");
            assert_eq!(agenterm::text::is_control_char(c), c.is_control(), "{code:x}");
            assert_eq!(agenterm::text::char_len(c), c.len_utf8(), "{code:x}");
        }
    }
}

#[test]
fn downloads_default_to_a_directory_of_the_user() {
    let user = |downloads: Option<&str>| {
        Some(UserDirectories {
            home: b"/home/me".to_vec(),
            downloads: downloads.map(|path| path.as_bytes().to_vec()),
        })
    };
    assert_eq!(
        default_download_directory(user(Some("/data"))),
        Some(b"/data".to_vec())
    );
    assert_eq!(
        default_download_directory(user(None)),
        Some(b"/home/me/Downloads".to_vec())
    );
    assert_eq!(default_download_directory(None), None);
}
