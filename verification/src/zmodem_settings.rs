//! Settings of ZMODEM transfers.

use vstd::prelude::*;
use vstd::string::*;
use vstd::utf8::encode_utf8;

use crate::bytes::copy_range;
use crate::text::{is_whitespace, is_whitespace_char, same_text, to_chars};
use crate::zmodem_runtime::{join_path, joined, OverwritePolicy, PathBytes};

verus! {

/// What happens to a download whose name is taken, as a setting.
#[derive(Clone, Copy, Debug, PartialEq, Eq, Structural)]
pub enum ZmodemOverwritePolicy {
    Skip,
    Rename,
    Overwrite,
}

impl Default for ZmodemOverwritePolicy {
    fn default() -> (r: Self)
        ensures
            r == ZmodemOverwritePolicy::Skip,
    {
        ZmodemOverwritePolicy::Skip
    }
}

impl ZmodemOverwritePolicy {
    /// The name in the user interface.
    pub open spec fn spec_display_name(self) -> Seq<char> {
        match self {
            ZmodemOverwritePolicy::Skip => "Skip"@,
            ZmodemOverwritePolicy::Rename => "Rename"@,
            ZmodemOverwritePolicy::Overwrite => "Overwrite"@,
        }
    }

    /// The name in the settings file.
    pub open spec fn spec_snake_case(self) -> Seq<char> {
        match self {
            ZmodemOverwritePolicy::Skip => "skip"@,
            ZmodemOverwritePolicy::Rename => "rename"@,
            ZmodemOverwritePolicy::Overwrite => "overwrite"@,
        }
    }

    /// The policy with the given name in the settings file.
    pub open spec fn spec_from_snake_case(name: Seq<char>) -> Option<ZmodemOverwritePolicy> {
        if name == "skip"@ {
            Some(ZmodemOverwritePolicy::Skip)
        } else if name == "rename"@ {
            Some(ZmodemOverwritePolicy::Rename)
        } else if name == "overwrite"@ {
            Some(ZmodemOverwritePolicy::Overwrite)
        } else {
            None
        }
    }

    /// The name in the user interface.
    pub fn display_name(&self) -> (r: &'static str)
        ensures
            r@ == self.spec_display_name(),
    {
        match self {
            ZmodemOverwritePolicy::Skip => "Skip",
            ZmodemOverwritePolicy::Rename => "Rename",
            ZmodemOverwritePolicy::Overwrite => "Overwrite",
        }
    }

    /// The name in the settings file.
    pub fn snake_case(&self) -> (r: &'static str)
        ensures
            r@ == self.spec_snake_case(),
    {
        match self {
            ZmodemOverwritePolicy::Skip => "skip",
            ZmodemOverwritePolicy::Rename => "rename",
            ZmodemOverwritePolicy::Overwrite => "overwrite",
        }
    }

    /// The policy with the given name in the settings file, if there is one.
    pub fn from_snake_case(name: &str) -> (r: Option<Self>)
        ensures
            r == ZmodemOverwritePolicy::spec_from_snake_case(name@),
    {
        if same_text(name, "skip") {
            Some(ZmodemOverwritePolicy::Skip)
        } else if same_text(name, "rename") {
            Some(ZmodemOverwritePolicy::Rename)
        } else if same_text(name, "overwrite") {
            Some(ZmodemOverwritePolicy::Overwrite)
        } else {
            None
        }
    }

    /// The policy that a transfer follows.
    pub fn runtime_policy(&self) -> (r: OverwritePolicy)
        ensures
            r == match *self {
                ZmodemOverwritePolicy::Skip => OverwritePolicy::Skip,
                ZmodemOverwritePolicy::Rename => OverwritePolicy::Rename,
                ZmodemOverwritePolicy::Overwrite => OverwritePolicy::Overwrite,
            },
    {
        match self {
            ZmodemOverwritePolicy::Skip => OverwritePolicy::Skip,
            ZmodemOverwritePolicy::Rename => OverwritePolicy::Rename,
            ZmodemOverwritePolicy::Overwrite => OverwritePolicy::Overwrite,
        }
    }
}

/// Every policy is recovered from its name in the settings file.
pub proof fn law_policy_names_round_trip(policy: ZmodemOverwritePolicy)
    ensures
        ZmodemOverwritePolicy::spec_from_snake_case(policy.spec_snake_case()) == Some(policy),
{
    reveal_strlit("skip");
    reveal_strlit("rename");
    reveal_strlit("overwrite");
    assert("skip"@.len() == 4);
    assert("rename"@.len() == 6);
    assert("overwrite"@.len() == 9);
}

/// Where a setting is kept in sync.
#[derive(Clone, Copy, Debug, PartialEq, Eq, Structural)]
pub enum SyncToCloud {
    Never,
    Always,
}

/// Where a setting has an effect.
#[derive(Clone, Copy, Debug, PartialEq, Eq, Structural)]
pub enum SupportedPlatforms {
    MAC,
    ALL,
}

/// The settings of ZMODEM transfers, one by one.
#[derive(Clone, Copy, Debug, PartialEq, Eq, Structural)]
pub enum ZmodemSetting {
    Enabled,
    AskDownloadDirectory,
    DownloadDirectory,
    LastDirectory,
    OverwritePolicy,
    DragEnabled,
    UploadCommand,
    CrossTransferEnabled,
}

/// The view of optional text.
pub open spec fn text_view(text: Option<&'static str>) -> Option<Seq<char>> {
    match text {
        Some(text) => Some(text@),
        None => None,
    }
}

impl ZmodemSetting {
    /// Where the settings file keeps the setting; private ones are not in it.
    pub open spec fn spec_toml_path(self) -> Option<Seq<char>> {
        match self {
            ZmodemSetting::Enabled => Some("terminal.zmodem.enabled"@),
            ZmodemSetting::AskDownloadDirectory => Some(
                "terminal.zmodem.ask_download_directory"@,
            ),
            ZmodemSetting::DownloadDirectory => Some("terminal.zmodem.download_directory"@),
            ZmodemSetting::LastDirectory => None,
            ZmodemSetting::OverwritePolicy => Some("terminal.zmodem.overwrite_policy"@),
            ZmodemSetting::DragEnabled => Some("terminal.zmodem.drag_enabled"@),
            ZmodemSetting::UploadCommand => Some("terminal.zmodem.upload_command"@),
            ZmodemSetting::CrossTransferEnabled => Some(
                "terminal.zmodem.cross_transfer_enabled"@,
            ),
        }
    }

    /// Where the settings file keeps the setting.
    pub fn toml_path(&self) -> (r: Option<&'static str>)
        ensures
            text_view(r) == self.spec_toml_path(),
    {
        match self {
            ZmodemSetting::Enabled => Some("terminal.zmodem.enabled"),
            ZmodemSetting::AskDownloadDirectory => Some("terminal.zmodem.ask_download_directory"),
            ZmodemSetting::DownloadDirectory => Some("terminal.zmodem.download_directory"),
            ZmodemSetting::LastDirectory => None,
            ZmodemSetting::OverwritePolicy => Some("terminal.zmodem.overwrite_policy"),
            ZmodemSetting::DragEnabled => Some("terminal.zmodem.drag_enabled"),
            ZmodemSetting::UploadCommand => Some("terminal.zmodem.upload_command"),
            ZmodemSetting::CrossTransferEnabled => Some("terminal.zmodem.cross_transfer_enabled"),
        }
    }

    /// Whether the setting is kept out of the settings file.
    pub fn is_private(&self) -> (r: bool)
        ensures
            r == (self.spec_toml_path() is None),
            r == (*self is LastDirectory),
    {
        matches!(self, ZmodemSetting::LastDirectory)
    }

    /// No setting of transfers leaves this machine.
    pub fn sync_to_cloud(&self) -> (r: SyncToCloud)
        ensures
            r == SyncToCloud::Never,
    {
        SyncToCloud::Never
    }

    /// The settings have an effect on macOS only.
    pub fn supported_platforms(&self) -> (r: SupportedPlatforms)
        ensures
            r == SupportedPlatforms::MAC,
    {
        SupportedPlatforms::MAC
    }

    /// What the setting is for; private settings are not described.
    pub open spec fn spec_description(self) -> Option<Seq<char>> {
        match self {
            ZmodemSetting::Enabled => Some(
                "Whether to enable ZMODEM file transfers in local PTY sessions."@,
            ),
            ZmodemSetting::AskDownloadDirectory => Some(
                "Whether to choose a download directory before each ZMODEM batch."@,
            ),
            ZmodemSetting::DownloadDirectory => Some(
                "ZMODEM download directory. Blank uses the system Downloads directory."@,
            ),
            ZmodemSetting::LastDirectory => None,
            ZmodemSetting::OverwritePolicy => Some(
                "How ZMODEM downloads handle existing files."@,
            ),
            ZmodemSetting::DragEnabled => Some(
                "Whether dropping files explicitly starts a ZMODEM upload."@,
            ),
            ZmodemSetting::UploadCommand => Some(
                "Remote command used for an explicitly requested ZMODEM upload."@,
            ),
            ZmodemSetting::CrossTransferEnabled => Some(
                "Whether to allow explicit ZMODEM transfers between terminals."@,
            ),
        }
    }

    /// What the setting is for.
    pub fn description(&self) -> (r: Option<&'static str>)
        ensures
            text_view(r) == self.spec_description(),
    {
        match self {
            ZmodemSetting::Enabled => Some(
                "Whether to enable ZMODEM file transfers in local PTY sessions.",
            ),
            ZmodemSetting::AskDownloadDirectory => Some(
                "Whether to choose a download directory before each ZMODEM batch.",
            ),
            ZmodemSetting::DownloadDirectory => Some(
                "ZMODEM download directory. Blank uses the system Downloads directory.",
            ),
            ZmodemSetting::LastDirectory => None,
            ZmodemSetting::OverwritePolicy => Some("How ZMODEM downloads handle existing files."),
            ZmodemSetting::DragEnabled => Some(
                "Whether dropping files explicitly starts a ZMODEM upload.",
            ),
            ZmodemSetting::UploadCommand => Some(
                "Remote command used for an explicitly requested ZMODEM upload.",
            ),
            ZmodemSetting::CrossTransferEnabled => Some(
                "Whether to allow explicit ZMODEM transfers between terminals.",
            ),
        }
    }
}

/// The settings of ZMODEM transfers.
#[derive(Clone, Debug, PartialEq, Eq)]
pub struct ZmodemSettings {
    pub enabled: bool,
    pub ask_download_directory: bool,
    pub download_directory: String,
    pub last_directory: String,
    pub overwrite_policy: ZmodemOverwritePolicy,
    pub drag_enabled: bool,
    pub upload_command: String,
    pub cross_transfer_enabled: bool,
}

/// Whether text holds nothing but white space.
pub open spec fn is_blank(text: Seq<char>) -> bool {
    forall|i: int| 0 <= i < text.len() ==> is_whitespace(#[trigger] text[i])
}

fn blank(text: &str) -> (r: bool)
    ensures
        r == is_blank(text@),
{
    let chars: Vec<char> = to_chars(text);
    let mut index: usize = 0;
    while index < chars.len()
        invariant
            index <= chars.len(),
            chars@ == text@,
            forall|i: int| 0 <= i < index ==> is_whitespace(#[trigger] chars@[i]),
        decreases chars.len() - index,
    {
        if !is_whitespace_char(chars[index]) {
            return false;
        }
        index = index + 1;
    }
    true
}

/// The local user's directories, as far as the system knows them.
pub struct UserDirectories {
    pub home: PathBytes,
    pub downloads: Option<PathBytes>,
}

/// The system's download directory, or `Downloads` in the home directory. None
/// when the local user's home directory cannot be determined.
pub fn default_download_directory(user: Option<UserDirectories>) -> (r: Option<PathBytes>)
    ensures
        match user {
            None => r is None,
            Some(UserDirectories { home, downloads: None }) => r matches Some(path) && path@
                == joined(home@, encode_utf8("Downloads"@)),
            Some(UserDirectories { home: _, downloads: Some(directory) }) => r == Some(directory),
        },
{
    match user {
        None => None,
        Some(directories) => match directories.downloads {
            Some(directory) => Some(directory),
            None => Some(join_path(directories.home.as_slice(), "Downloads".as_bytes())),
        },
    }
}

impl ZmodemSettings {
    /// The settings before the user changed any; `downloads` is the system's
    /// download directory, if it is known.
    pub fn defaults(downloads: Option<String>) -> (r: Self)
        ensures
            r.enabled,
            r.ask_download_directory,
            r.download_directory@ == match downloads {
                Some(directory) => directory@,
                None => Seq::<char>::empty(),
            },
            r.last_directory@ == Seq::<char>::empty(),
            r.overwrite_policy == ZmodemOverwritePolicy::Skip,
            !r.drag_enabled,
            r.upload_command@ == "rz"@,
            !r.cross_transfer_enabled,
    {
        ZmodemSettings {
            enabled: true,
            ask_download_directory: true,
            download_directory: match downloads {
                Some(directory) => directory,
                None => String::new(),
            },
            last_directory: String::new(),
            overwrite_policy: ZmodemOverwritePolicy::Skip,
            drag_enabled: false,
            upload_command: "rz".to_owned(),
            cross_transfer_enabled: false,
        }
    }

    /// Where downloads go: the directory of the settings as it stands, or the
    /// system's where that is blank.
    pub fn resolved_download_directory(&self, downloads: Option<PathBytes>) -> (r: Option<
        PathBytes,
    >)
        ensures
            if is_blank(self.download_directory@) {
                r == downloads
            } else {
                r matches Some(path) && path@ == encode_utf8(self.download_directory@)
            },
    {
        if blank(self.download_directory.as_str()) {
            downloads
        } else {
            let bytes = self.download_directory.as_str().as_bytes();
            let path: PathBytes = copy_range(bytes, 0, bytes.len());
            assert(path@ =~= bytes@);
            Some(path)
        }
    }
}

/// Every setting is in the settings file and described there, but for the
/// directory that is only remembered.
pub proof fn law_only_the_last_directory_is_private(setting: ZmodemSetting)
    ensures
        setting.spec_toml_path() is None <==> setting is LastDirectory,
        setting.spec_description() is None <==> setting is LastDirectory,
{
}

/// Text is blank exactly if it has no character but white space; blank text
/// stays blank in front of or behind blank text, and not otherwise.
pub proof fn law_blank_texts_add_up(first: Seq<char>, second: Seq<char>)
    ensures
        is_blank(Seq::<char>::empty()),
        is_blank(first + second) <==> is_blank(first) && is_blank(second),
        first.len() > 0 && !is_whitespace(first[0]) ==> !is_blank(first),
{
    let both = first + second;
    if is_blank(both) {
        assert forall|i: int| 0 <= i < first.len() implies is_whitespace(#[trigger] first[i]) by {
            assert(both[i] == first[i]);
        }
        assert forall|i: int| 0 <= i < second.len() implies is_whitespace(#[trigger] second[i]) by {
            assert(both[first.len() + i] == second[i]);
        }
    }
}

} // verus!
