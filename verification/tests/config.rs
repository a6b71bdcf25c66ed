use brix::config::{
    check_extension, default_splash_height, default_splash_width, default_true, default_version,
    default_window_height, default_window_width, ExtensionError, ExtensionSettings,
    ExtraWindowSettings, TrayConfig, TrayMenuItem, TraySettings,
};
use brix::update::UpdateManifest;
use brix::version::is_newer_version;
use serde_json::Value;

fn text_of(value: &Value, key: &str) -> Option<String> {
    value.get(key).and_then(|v| v.as_str()).map(|s| s.to_string())
}

fn tray_of(text: &str) -> TrayConfig {
    let value: Value = serde_json::from_str(text).unwrap();
    match value.as_bool() {
        Some(on) => TrayConfig::Enabled(on),
        None => TrayConfig::Settings(TraySettings {
            icon: text_of(&value, "icon"),
            tooltip: text_of(&value, "tooltip"),
            menu: value["menu"]
                .as_array()
                .unwrap()
                .iter()
                .map(|item| TrayMenuItem {
                    label: text_of(item, "label").unwrap(),
                    id: text_of(item, "id"),
                    enabled: item.get("enabled").and_then(|v| v.as_bool()).unwrap_or(default_true()),
                    checked: item.get("checked").and_then(|v| v.as_bool()).unwrap_or(false),
                    separator: item.get("separator").and_then(|v| v.as_bool()).unwrap_or(false),
                })
                .collect(),
        }),
    }
}

fn windows_of(text: &str) -> Vec<ExtraWindowSettings> {
    let value: Value = serde_json::from_str(text).unwrap();
    match value.get("windows").and_then(|v| v.as_array()) {
        Some(list) => list
            .iter()
            .map(|w| ExtraWindowSettings {
                title: text_of(w, "title"),
                width: w.get("width").and_then(|v| v.as_u64()).map(|n| n as u32),
                height: w.get("height").and_then(|v| v.as_u64()).map(|n| n as u32),
                url: text_of(w, "url"),
            })
            .collect(),
        None => Vec::new(),
    }
}

#[test]
fn update_manifest_parses() {
    let value: Value = serde_json::from_str(
        r#"{"version":"1.1.0","url":"https://example.com/app.exe","notes":"fixes"}"#,
    )
    .unwrap();
    let manifest = UpdateManifest {
        version: text_of(&value, "version").unwrap(),
        url: text_of(&value, "url").unwrap(),
        notes: text_of(&value, "notes"),
    };
    assert_eq!(manifest.version, "1.1.0");
    assert_eq!(manifest.notes.as_deref(), Some("fixes"));
    assert!(is_newer_version("1.0.0", &manifest.version));
}

#[test]
fn tray_config_accepts_bool_or_object() {
    let from_bool = tray_of("true");
    assert!(from_bool.is_enabled());
    let from_false = tray_of("false");
    assert!(!from_false.is_enabled());
    let from_obj = tray_of(
        r#"{"tooltip":"hi","menu":[{"label":"Open","id":"open"},{"label":"-","separator":true}]}"#,
    );
    assert!(from_obj.is_enabled());
    let TrayConfig::Settings(s) = &from_obj else {
        panic!("expected settings");
    };
    assert_eq!(s.menu.len(), 2);
    assert!(s.menu[0].separator == false && s.menu[0].id.as_deref() == Some("open"));
}

#[test]
fn extra_windows_config_parses() {
    let windows = windows_of(
        r#"{
            "name": "App",
            "entry": "dist/index.html",
            "window": { "width": 1000, "height": 700 },
            "windows": [
                { "title": "Settings", "width": 500, "height": 400, "url": "settings.html" },
                { "title": "About" }
            ]
        }"#,
    );
    assert_eq!(windows.len(), 2);
    assert_eq!(windows[0].title.as_deref(), Some("Settings"));
    assert_eq!(windows[0].url.as_deref(), Some("settings.html"));
    assert_eq!(windows[0].width, Some(500));
    assert!(windows[1].title.as_deref() == Some("About"));
    assert!(windows[1].width.is_none());
    let no_extra = windows_of(r#"{"name":"A","entry":"e.html","window":{"width":1,"height":1}}"#);
    assert!(no_extra.is_empty());
}

#[test]
fn settings_have_defaults() {
    assert_eq!(default_version(), "1.0.0");
    assert!(default_true());
    assert_eq!((default_splash_width(), default_splash_height()), (360, 200));
    assert_eq!((default_window_width(), default_window_height()), (1000, 700));
    assert!(!TrayConfig::default().is_enabled());
}

fn extension(command: &str, args: &[&str]) -> Option<ExtensionSettings> {
    Some(ExtensionSettings {
        command: command.to_string(),
        args: args.iter().map(|a| a.to_string()).collect(),
    })
}

#[test]
fn extensions_need_a_command_and_no_blank_argument() {
    assert_eq!(check_extension(&None), Ok(()));
    assert_eq!(check_extension(&extension("node", &["ext.js", "-v"])), Ok(()));
    assert_eq!(check_extension(&extension(" \t", &["x"])), Err(ExtensionError::EmptyCommand));
    assert_eq!(check_extension(&extension("node", &["a", "  "])), Err(ExtensionError::EmptyArgument));
    assert_eq!(
        ExtensionError::EmptyCommand.message(),
        "extension.command must not be empty"
    );
    assert_eq!(
        ExtensionError::EmptyArgument.message(),
        "extension.args must not contain empty strings"
    );
}
