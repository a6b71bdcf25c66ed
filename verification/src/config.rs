//! The settings of a bundled app, as plain values.

use crate::text::{
    all_space, is_space, law_trimming_keeps_the_rest, law_trimming_takes_the_ends_alone, trim,
    trimmed,
};
use vstd::prelude::*;
use vstd::string::*;

verus! {

/// The settings of an app: what `.brix.json` in the bundle says.
#[derive(Debug)]
pub struct BrixConfig {
    pub name: String,
    pub version: String,
    pub entry: String,
    pub window: WindowSettings,
    pub backend: Option<BackendSettings>,
    pub tray: Option<TrayConfig>,
    pub minimize_to_tray: bool,
    pub devtools: bool,
    pub splash: Option<SplashSettings>,
    pub webview2: Option<WebView2Settings>,
    pub update: Option<UpdateSettings>,
    /// Extra windows opened at startup. Each opens the same app or a custom
    /// address; more can be opened at runtime.
    pub windows: Vec<ExtraWindowSettings>,
    /// A sidecar process that handles the methods that the built-in bridge
    /// does not implement.
    pub extension: Option<ExtensionSettings>,
}

/// A secondary window opened at startup.
#[derive(Debug)]
pub struct ExtraWindowSettings {
    pub title: Option<String>,
    pub width: Option<u32>,
    pub height: Option<u32>,
    pub url: Option<String>,
}

/// The server process of an app.
#[derive(Debug)]
pub struct BackendSettings {
    pub command: String,
    pub args: Vec<String>,
    pub port: Option<u16>,
}

/// A native extension sidecar.
#[derive(Debug)]
pub struct ExtensionSettings {
    pub command: String,
    pub args: Vec<String>,
}

/// The size of the main window.
#[derive(Debug)]
pub struct WindowSettings {
    pub width: u32,
    pub height: u32,
}

/// The window shown while the app starts.
#[derive(Debug)]
pub struct SplashSettings {
    pub enabled: bool,
    pub width: u32,
    pub height: u32,
    pub background: Option<String>,
    pub image: Option<String>,
    pub text: Option<String>,
    pub auto_hide: bool,
}

/// Tray settings: `true` for the default menu, or an icon, a tooltip and a menu.
#[derive(Debug)]
pub enum TrayConfig {
    Enabled(bool),
    Settings(TraySettings),
}

/// A custom tray.
#[derive(Debug)]
pub struct TraySettings {
    pub icon: Option<String>,
    pub tooltip: Option<String>,
    pub menu: Vec<TrayMenuItem>,
}

/// One entry of the tray menu.
#[derive(Debug)]
pub struct TrayMenuItem {
    pub label: String,
    pub id: Option<String>,
    pub enabled: bool,
    pub checked: bool,
    pub separator: bool,
}

/// Where the browser runtime comes from.
#[derive(Debug)]
pub struct WebView2Settings {
    pub fixed_runtime_path: Option<String>,
}

/// Where updates come from and what is done with them.
#[derive(Debug)]
pub struct UpdateSettings {
    pub url: String,
    pub check_on_start: bool,
    pub auto_install: bool,
}

/// The version of an app that names none.
pub fn default_version() -> (r: String)
    ensures
        r@ == "1.0.0"@,
{
    "1.0.0".to_owned()
}

/// The width of a main window that names none.
pub fn default_window_width() -> (r: u32)
    ensures
        r == 1000,
{
    1000
}

/// The height of a main window that names none.
pub fn default_window_height() -> (r: u32)
    ensures
        r == 700,
{
    700
}

/// What a switch is that is on unless the settings turn it off.
pub fn default_true() -> (r: bool)
    ensures
        r,
{
    true
}

/// The width of a splash window that names none.
pub fn default_splash_width() -> (r: u32)
    ensures
        r == 360,
{
    360
}

/// The height of a splash window that names none.
pub fn default_splash_height() -> (r: u32)
    ensures
        r == 200,
{
    200
}

impl Default for TrayConfig {
    fn default() -> (r: Self)
        ensures
            r == TrayConfig::Enabled(false),
    {
        TrayConfig::Enabled(false)
    }
}

impl TrayConfig {
    /// True where a tray icon is wanted: by `true`, or by any settings.
    pub fn is_enabled(&self) -> (r: bool)
        ensures
            r == (*self != TrayConfig::Enabled(false)),
    {
        match self {
            TrayConfig::Enabled(on) => *on,
            TrayConfig::Settings(_) => true,
        }
    }
}

/// Why the settings of an extension are refused.
#[derive(Debug, PartialEq, Eq, Structural, Clone, Copy)]
pub enum ExtensionError {
    EmptyCommand,
    EmptyArgument,
}

impl ExtensionError {
    /// The message of the error.
    pub open spec fn text(self) -> Seq<char> {
        match self {
            ExtensionError::EmptyCommand => "extension.command must not be empty"@,
            ExtensionError::EmptyArgument => "extension.args must not contain empty strings"@,
        }
    }

    /// The message of the error.
    pub fn message(&self) -> (r: &'static str)
        ensures
            r@ == self.text(),
    {
        match self {
            ExtensionError::EmptyCommand => "extension.command must not be empty",
            ExtensionError::EmptyArgument => "extension.args must not contain empty strings",
        }
    }
}

/// True for a text that is white space alone.
pub open spec fn blank(text: Seq<char>) -> bool {
    trimmed(text).len() == 0
}

/// Why the settings of an extension are refused, if they are: a blank command,
/// or a blank argument.
pub open spec fn extension_fault(extension: Option<ExtensionSettings>) -> Option<ExtensionError> {
    match extension {
        Some(settings) => if blank(settings.command@) {
            Some(ExtensionError::EmptyCommand)
        } else if exists|i: int|
            0 <= i < settings.args@.len() && blank(#[trigger] settings.args@[i]@) {
            Some(ExtensionError::EmptyArgument)
        } else {
            None
        },
        None => None,
    }
}

fn is_blank(text: &str) -> (r: bool)
    ensures
        r == blank(text@),
{
    trim(text).as_str().is_empty()
}

/// Checks the settings of an extension.
pub fn check_extension(extension: &Option<ExtensionSettings>) -> (r: Result<(), ExtensionError>)
    ensures
        match r {
            Ok(_) => extension_fault(*extension) is None,
            Err(e) => extension_fault(*extension) == Some(e),
        },
{
    match extension {
        Some(settings) => {
            if is_blank(settings.command.as_str()) {
                return Err(ExtensionError::EmptyCommand);
            }
            let mut i: usize = 0;
            while i < settings.args.len()
                invariant
                    i <= settings.args.len(),
                    !blank(settings.command@),
                    *extension == Some(*settings),
                    forall|k: int| 0 <= k < i ==> !blank(#[trigger] settings.args@[k]@),
                decreases settings.args.len() - i,
            {
                if is_blank(settings.args[i].as_str()) {
                    return Err(ExtensionError::EmptyArgument);
                }
                i += 1;
            }
            Ok(())
        },
        None => Ok(()),
    }
}

/// A text is blank exactly where every character of it is white space.
pub proof fn law_blank_text_is_white_space(text: Seq<char>)
    ensures
        blank(text) <==> all_space(text),
{
    if all_space(text) {
        law_trimming_takes_the_ends_alone(text, Seq::empty(), Seq::empty());
        assert(text + Seq::<char>::empty() + Seq::<char>::empty() == text);
    } else {
        let i = choose|i: int| 0 <= i < text.len() && !is_space(#[trigger] text[i]);
        law_trimming_keeps_the_rest(text, i);
        assert(trimmed(text).contains(text[i]));
    }
}

/// An extension is refused for a command that is white space alone, or else for any
/// such argument, wherever it stands; and for nothing more.
pub proof fn law_extensions_are_refused_for_blank_words(settings: ExtensionSettings, i: int)
    ensures
        all_space(settings.command@) ==> extension_fault(Some(settings)) == Some(
            ExtensionError::EmptyCommand,
        ),
        !all_space(settings.command@) && 0 <= i < settings.args@.len() && all_space(
            settings.args@[i]@,
        ) ==> extension_fault(Some(settings)) == Some(ExtensionError::EmptyArgument),
        !all_space(settings.command@) && (forall|k: int|
            0 <= k < settings.args@.len() ==> !all_space(#[trigger] settings.args@[k]@))
            ==> extension_fault(Some(settings)) is None,
        extension_fault(None) is None,
{
    law_blank_text_is_white_space(settings.command@);
    if 0 <= i < settings.args@.len() {
        law_blank_text_is_white_space(settings.args@[i]@);
    }
    assert forall|k: int| 0 <= k < settings.args@.len() implies blank(#[trigger] settings.args@[k]@)
        == all_space(settings.args@[k]@) by {
        law_blank_text_is_white_space(settings.args@[k]@);
    }
}

/// The messages for an extension that is refused.
pub proof fn law_extension_messages()
    ensures
        ExtensionError::EmptyCommand.text() == "extension.command must not be empty"@,
        ExtensionError::EmptyArgument.text() == "extension.args must not contain empty strings"@,
{
}

} // verus!
