//! The daemon's configuration: the greeter's theme, the encrypted devices
//! that the daemon answers prompts for, and the greeter to start.

use crate::ini_file::{
    all_values, document_sections, find_section, first_value, load_document, loaded_sections,
    value_of, values_of, KeyValues,
};
use crate::decimal::{decimal_text, format_i32};
use crate::login_controller::LoginRequest;
use crate::text::{file_name, join_path, joined_path, path_file_name};
use ini::Ini;
use vstd::prelude::*;

verus! {

/// What the daemon reads from its configuration file.
#[derive(Debug)]
pub struct SddmConfig {
    /// The directory of the greeter's theme, if one is configured.
    pub theme: Option<String>,
    /// The encrypted devices whose prompts the daemon answers, in the order
    /// of the file.
    pub luks_devices: Vec<String>,
    /// The greeter executable.
    pub greeter: String,
}

/// A configuration, by its characters.
pub struct ConfigView {
    pub theme: Option<Seq<char>>,
    pub luks_devices: Seq<Seq<char>>,
    pub greeter: Seq<char>,
}

impl DeepView for SddmConfig {
    type V = ConfigView;

    open spec fn deep_view(&self) -> ConfigView {
        ConfigView {
            theme: self.theme.deep_view(),
            luks_devices: self.luks_devices.deep_view(),
            greeter: self.greeter@,
        }
    }
}

impl View for SddmConfig {
    type V = ConfigView;

    open spec fn view(&self) -> ConfigView {
        self.deep_view()
    }
}

/// Why a text is no configuration.
#[derive(Debug, Clone, Copy, PartialEq, Eq, Structural)]
pub enum ConfigError {
    /// The text is no INI document.
    Malformed,
    /// The document has no `[LUKSUnlock]` section, so there is nothing for
    /// the daemon to manage.
    NoLuksUnlockSection,
}

/// The theme directory that a document names: `Current` below `ThemeDir`,
/// both of `[Theme]`. A theme without a directory is dropped, and so is an
/// empty theme name.
pub open spec fn theme_of_sections(sections: Map<Seq<char>, KeyValues>) -> Option<Seq<char>> {
    if !sections.contains_key("Theme"@) {
        None
    } else {
        let theme = sections["Theme"@];
        match value_of(theme, "Current"@) {
            None => None,
            Some(current) => if current.len() == 0 {
                None
            } else {
                match value_of(theme, "ThemeDir"@) {
                    None => None,
                    Some(dir) => Some(joined_path(dir, current)),
                }
            },
        }
    }
}

/// The greeter that a document names with `Path` of `[Greeter]`, and the
/// default where it names none.
pub open spec fn greeter_of_sections(
    sections: Map<Seq<char>, KeyValues>,
    default_greeter: Seq<char>,
) -> Seq<char> {
    if !sections.contains_key("Greeter"@) {
        default_greeter
    } else {
        match value_of(sections["Greeter"@], "Path"@) {
            Some(path) => path,
            None => default_greeter,
        }
    }
}

/// The configuration that the sections of a document state.
pub open spec fn config_of_sections(
    sections: Map<Seq<char>, KeyValues>,
    default_greeter: Seq<char>,
) -> Result<ConfigView, ConfigError> {
    if !sections.contains_key("LUKSUnlock"@) {
        Err(ConfigError::NoLuksUnlockSection)
    } else {
        Ok(
            ConfigView {
                theme: theme_of_sections(sections),
                luks_devices: values_of(sections["LUKSUnlock"@], "Devices"@),
                greeter: greeter_of_sections(sections, default_greeter),
            },
        )
    }
}

/// The configuration that a file's text states.
pub open spec fn config_of_text(text: Seq<char>, default_greeter: Seq<char>) -> Result<
    ConfigView,
    ConfigError,
> {
    match loaded_sections(text) {
        None => Err(ConfigError::Malformed),
        Some(sections) => config_of_sections(sections, default_greeter),
    }
}

/// What a result of reading a configuration says, by its characters.
pub open spec fn config_outcome(r: Result<SddmConfig, ConfigError>) -> Result<
    ConfigView,
    ConfigError,
> {
    match r {
        Ok(config) => Ok(config@),
        Err(e) => Err(e),
    }
}

impl SddmConfig {
    /// The configuration that a parsed document states. `default_greeter`
    /// is started where the document names no greeter.
    pub fn from_ini(document: &Ini, default_greeter: &str) -> (r: Result<SddmConfig, ConfigError>)
        ensures
            config_outcome(r) == config_of_sections(
                document_sections(*document),
                default_greeter@,
            ),
    {
        let theme = match find_section(document, "Theme") {
            None => None,
            Some(section) => match first_value(section, "Current") {
                None => None,
                Some(current) => if current.unicode_len() == 0 {
                    None
                } else {
                    match first_value(section, "ThemeDir") {
                        None => None,
                        Some(dir) => Some(join_path(dir, current)),
                    }
                },
            },
        };
        let luks_devices = match find_section(document, "LUKSUnlock") {
            None => {
                return Err(ConfigError::NoLuksUnlockSection);
            },
            Some(section) => all_values(section, "Devices"),
        };
        let greeter = match find_section(document, "Greeter") {
            None => String::from_str(default_greeter),
            Some(section) => match first_value(section, "Path") {
                Some(path) => String::from_str(path),
                None => String::from_str(default_greeter),
            },
        };
        proof {
            let sections = document_sections(*document);
            assert(luks_devices.deep_view() =~= values_of(sections["LUKSUnlock"@], "Devices"@));
        }
        Ok(SddmConfig { theme, luks_devices, greeter })
    }

    /// The configuration that the text of the configuration file states.
    /// A byte-order mark at the beginning of the text is passed over.
    pub fn load_from_file(text: &str, default_greeter: &str) -> (r: Result<
        SddmConfig,
        ConfigError,
    >)
        ensures
            config_outcome(r) == config_of_text(text@, default_greeter@),
    {
        match load_document(text) {
            None => Err(ConfigError::Malformed),
            Some(document) => Self::from_ini(&document, default_greeter),
        }
    }
}

/// The name of the key that carries the password across the change of the
/// root file system.
pub const HANDOFF_KEY_NAME: &'static str = "luks-initrd-sddm-unlock-pw";

/// Seconds after which the key expires by itself, should nobody take it.
pub const HANDOFF_KEY_TIMEOUT_SECS: usize = 60;

/// Why a login cannot be handed over.
#[derive(Debug, Clone, Copy, PartialEq, Eq, Structural)]
pub enum HandoffError {
    /// The session path has no final component to name the session by.
    MalformedSession,
}

/// The text of the transient configuration that hands a login over: the
/// user, the number of the key that holds the password, and the session by
/// its file name.
pub open spec fn transient_config_text(user: Seq<char>, key_id: int, session: Seq<char>) -> Seq<
    char,
> {
    "[Autologin]\n"@ + "User="@ + user + "\n"@ + "PasswordKey="@ + decimal_text(key_id) + "\n"@
        + "Session="@ + session + "\n"@
}

/// The text of the transient configuration for the given user, key and
/// session name.
pub fn transient_config(user: &str, key_id: i32, session_name: &str) -> (text: String)
    ensures
        text@ == transient_config_text(user@, key_id as int, session_name@),
{
    let number = format_i32(key_id);
    let mut text = String::from_str("[Autologin]\n");
    text.append("User=");
    text.append(user);
    text.append("\n");
    text.append("PasswordKey=");
    text.append(number.as_str());
    text.append("\n");
    text.append("Session=");
    text.append(session_name);
    text.append("\n");
    text
}

/// The text to write to the transient configuration file for a successful
/// login whose password was stored under the key `key_id`. The session is
/// named by the final component of its path; a path without one is refused.
pub fn write_transient_sddm_config(request: &LoginRequest, key_id: i32) -> (r: Result<
    String,
    HandoffError,
>)
    ensures
        match path_file_name(request@.session) {
            Some(name) => r matches Ok(text) && text@ == transient_config_text(
                request@.user,
                key_id as int,
                name,
            ),
            None => r == Err::<String, HandoffError>(HandoffError::MalformedSession),
        },
{
    match file_name(request.session.as_str()) {
        Some(name) => Ok(transient_config(request.user.as_str(), key_id, name)),
        None => Err(HandoffError::MalformedSession),
    }
}

} // verus!
