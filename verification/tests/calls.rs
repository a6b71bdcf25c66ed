use brix::dialog::{
    dialog_kind, dialog_reply, file_dialog, usable_filter, DialogKind, FileDialog, Picked,
};
use brix::extension::{write_response, PendingCalls};
use brix::files::{
    make_dir_reply, read_reply, removal, remove_reply, scope_file, write_reply, Removal,
};
use brix::ipc::{
    check_forward, dispatch, handle_ipc, write_decoded, FileOp, IpcAction, IpcArgs, IpcRequest,
};
use brix::reply::{
    entries_reply, exists_reply, flag_reply, respond_err, staged_reply, system_info_reply,
    text_reply, DirEntry, SystemInfo,
};
use brix::sandbox::Canonical;
use brix::update::{UpdateManifest, UpdateState};
use brix::winpath::WinPath;
use serde_json::Value;

fn json(text: &str) -> Value {
    serde_json::from_str(text).unwrap()
}

fn no_update() -> UpdateState {
    UpdateState::new(&None)
}

fn ask(body: &str) -> IpcAction {
    handle_ipc(body, "App", &no_update(), "C:\\t\\u.exe", 7, false, &mut PendingCalls::new())
}

fn reply_of(action: IpcAction) -> String {
    match action {
        IpcAction::Reply(text) => text,
        other => panic!("{:?}", other),
    }
}

fn call(method: &str, args: &str) -> IpcAction {
    ask(&format!("{{\"id\":5,\"method\":\"{}\",\"args\":{}}}", method, args))
}

#[test]
fn replies_are_objects_in_the_order_of_their_keys() {
    assert_eq!(respond_err(3, "a \"b\"\n"), r#"{"error":"a \"b\"\n","id":3,"ok":false}"#);
    assert_eq!(flag_reply(0, "opened", false), r#"{"id":0,"ok":true,"result":{"opened":false}}"#);
    assert_eq!(
        text_reply(u64::MAX, "text", "\u{e9}\u{1}\\\t"),
        "{\"id\":18446744073709551615,\"ok\":true,\"result\":{\"text\":\"\u{e9}\\u0001\\\\\\t\"}}"
    );
    assert_eq!(
        staged_reply(1, "C:\\t"),
        r#"{"id":1,"ok":true,"result":{"path":"C:\\t","status":"ready"}}"#
    );
    assert_eq!(
        exists_reply(1, true, false),
        r#"{"id":1,"ok":true,"result":{"exists":true,"isDir":false}}"#
    );
}

#[test]
fn strings_are_written_as_the_json_crate_reads_them() {
    for n in 0..=0x10FFFFu32 {
        if n > 0x3000 && n < 0x10F000 {
            continue;
        }
        if let Some(c) = char::from_u32(n) {
            let text = text_reply(1, "text", &c.to_string());
            assert_eq!(json(&text)["result"]["text"].as_str(), Some(c.to_string().as_str()));
        }
    }
}

#[test]
fn system_information_names_the_app_and_the_machine() {
    let info = SystemInfo {
        app_name: "A".to_string(),
        app_version: "1.2.3".to_string(),
        os: "windows".to_string(),
        arch: "x86_64".to_string(),
        cpus: 8,
        data_dir: "C:\\d".to_string(),
        exe_path: None,
    };
    assert_eq!(
        system_info_reply(2, &info),
        "{\"id\":2,\"ok\":true,\"result\":{\"appName\":\"A\",\"appVersion\":\"1.2.3\",\"arch\":\"x86_64\",\"cpus\":8,\"dataDir\":\"C:\\\\d\",\"exePath\":null,\"os\":\"windows\"}}"
    );
    let named = SystemInfo { exe_path: Some("x.exe".to_string()), ..info };
    assert_eq!(json(&system_info_reply(2, &named))["result"]["exePath"], "x.exe");
    assert!(matches!(call("system_info", "null"), IpcAction::SystemInfo { id: 5 }));
}

#[test]
fn a_body_that_is_no_json_is_refused_under_zero() {
    let reply = json(&reply_of(ask("{nope")));
    assert_eq!(reply["id"], 0);
    assert_eq!(reply["ok"], false);
    let message = serde_json::from_str::<Value>("{nope").unwrap_err().to_string();
    assert_eq!(reply["error"].as_str(), Some(message.as_str()));
}

#[test]
fn missing_parts_of_a_request_have_defaults() {
    assert_eq!(
        reply_of(ask("{}")),
        r#"{"error":"unknown method","id":0,"ok":false}"#
    );
    assert_eq!(
        reply_of(ask(r#"{"id":-1,"method":7}"#)),
        r#"{"error":"unknown method","id":0,"ok":false}"#
    );
    assert_eq!(
        reply_of(ask("[1]")),
        r#"{"error":"unknown method","id":0,"ok":false}"#
    );
}

#[test]
fn addresses_are_opened_outside() {
    match call("open_external", r#"{"url":"https://x"}"#) {
        IpcAction::OpenExternal { id, url } => assert_eq!((id, url.as_str()), (5, "https://x")),
        other => panic!("{:?}", other),
    }
    for args in ["{}", "null", r#"{"url":""}"#, r#"{"url":3}"#] {
        assert_eq!(
            reply_of(call("open_external", args)),
            r#"{"error":"open_external requires a url","id":5,"ok":false}"#
        );
    }
}

#[test]
fn clipboard_notification_and_splash_are_asked_for() {
    match call("clipboard_write", r#"{"text":"hi"}"#) {
        IpcAction::ClipboardWrite { id: 5, text } => assert_eq!(text, "hi"),
        other => panic!("{:?}", other),
    }
    assert!(matches!(call("clipboard_write", "[]"), IpcAction::ClipboardWrite { id: 5, text } if text.is_empty()));
    assert!(matches!(call("clipboard_read", "null"), IpcAction::ClipboardRead { id: 5 }));
    match call("notification", r#"{"message":"m"}"#) {
        IpcAction::Notify { id: 5, title, message } => {
            assert_eq!((title.as_str(), message.as_str()), ("App", "m"))
        }
        other => panic!("{:?}", other),
    }
    match call("notification", r#"{"title":""}"#) {
        IpcAction::Notify { id: 5, title, message } => {
            assert_eq!((title.as_str(), message.as_str()), ("", ""))
        }
        other => panic!("{:?}", other),
    }
    match call("splash_hide", "null") {
        IpcAction::HideSplash { reply } => {
            assert_eq!(reply, r#"{"id":5,"ok":true,"result":{"ok":true}}"#)
        }
        other => panic!("{:?}", other),
    }
}

#[test]
fn files_are_asked_for_by_path() {
    for (method, wanted) in [
        ("fs_read_file", "Read"),
        ("fs_read_dir", "List"),
        ("fs_mkdir", "MakeDir"),
        ("fs_remove", "Remove { recursive: false }"),
        ("fs_exists", "Exists"),
    ] {
        match call(method, r#"{"path":"a/b"}"#) {
            IpcAction::File { id: 5, op, path } => {
                assert_eq!((format!("{:?}", op).as_str(), path.as_str()), (wanted, "a/b"))
            }
            other => panic!("{:?}", other),
        }
    }
    assert!(matches!(
        call("fs_remove", r#"{"path":"x","recursive":true}"#),
        IpcAction::File { id: 5, op: FileOp::Remove { recursive: true }, .. }
    ));
    assert!(matches!(call("fs_exists", "{}"), IpcAction::File { path, .. } if path.is_empty()));
}

#[test]
fn written_content_is_base64() {
    match call("fs_write_file", r#"{"path":"s.json","content":"e30="}"#) {
        IpcAction::File { id: 5, op: FileOp::Write(bytes), path } => {
            assert_eq!((bytes.as_slice(), path.as_str()), (&b"{}"[..], "s.json"))
        }
        other => panic!("{:?}", other),
    }
    assert!(matches!(
        call("fs_write_file", "{}"),
        IpcAction::File { op: FileOp::Write(bytes), .. } if bytes.is_empty()
    ));
    for content in ["e30", "e3 0=", "e31=", "====", "\u{e9}"] {
        assert_eq!(
            reply_of(call("fs_write_file", &format!("{{\"path\":\"x\",\"content\":\"{}\"}}", content))),
            r#"{"error":"fs_write_file: content must be base64","id":5,"ok":false}"#
        );
    }
}

#[test]
fn a_page_reads_back_what_it_wrote() {
    let content = "AAECA//+";
    let args = format!("{{\"path\":\"x\",\"content\":\"{}\"}}", content);
    let IpcAction::File { op: FileOp::Write(bytes), .. } = call("fs_write_file", &args) else {
        panic!("expected a write");
    };
    let reply = json(&read_reply(9, &Some(bytes)));
    assert_eq!(reply["id"], 9);
    assert_eq!(reply["result"]["content"].as_str(), Some(content));
    assert_eq!(reply["result"]["size"], 6);
}

#[test]
fn replies_read_back_as_they_were_written() {
    let text = respond_err(18446744073709551615, "a \"b\" \\ \u{1} \u{1F600}\n");
    let value = json(&text);
    assert_eq!(value.to_string(), text);
    assert_eq!(value["id"].as_u64(), Some(18446744073709551615));
    assert_eq!(value["ok"].as_bool(), Some(false));
    assert_eq!(value["error"].as_str(), Some("a \"b\" \\ \u{1} \u{1F600}\n"));
    assert!(value.get("result").is_none());
    let text = dialog_reply(0, &Picked::Many(Some(vec!["C:\\a".to_string(), "b".to_string()])));
    let value = json(&text);
    assert_eq!(value.to_string(), text);
    assert_eq!(value["ok"].as_bool(), Some(true));
    assert_eq!(value["result"][0].as_str(), Some("C:\\a"));
    assert!(value.get("error").is_none());
}

#[test]
fn replies_on_files_tell_success_and_failure() {
    assert_eq!(
        read_reply(1, &None),
        r#"{"error":"fs_read_file: path missing or outside the sandbox","id":1,"ok":false}"#
    );
    assert_eq!(write_reply(1, true, 4), r#"{"id":1,"ok":true,"result":{"ok":true,"size":4}}"#);
    assert_eq!(
        write_reply(1, false, 4),
        r#"{"error":"fs_write_file: write failed","id":1,"ok":false}"#
    );
    assert_eq!(make_dir_reply(1, true), r#"{"id":1,"ok":true,"result":{"ok":true}}"#);
    assert_eq!(
        make_dir_reply(1, false),
        r#"{"error":"fs_mkdir: path missing or outside the sandbox","id":1,"ok":false}"#
    );
    assert_eq!(remove_reply(1, true), r#"{"id":1,"ok":true,"result":{"ok":true}}"#);
    assert_eq!(
        remove_reply(1, false),
        r#"{"error":"fs_remove: remove failed","id":1,"ok":false}"#
    );
    assert_eq!(removal(true, false), Removal::Tree);
    assert_eq!(removal(false, true), Removal::Dir);
    assert_eq!(removal(false, false), Removal::File);
}

#[test]
fn directories_are_listed() {
    let entries = vec![
        DirEntry { name: "a".to_string(), is_dir: true, is_file: false, len: 99 },
        DirEntry { name: "b.txt".to_string(), is_dir: false, is_file: true, len: 3 },
    ];
    assert_eq!(
        entries_reply(4, &entries),
        r#"{"id":4,"ok":true,"result":{"entries":[{"isDir":true,"name":"a","size":0},{"isDir":false,"name":"b.txt","size":3}]}}"#
    );
    assert_eq!(entries_reply(4, &[]), r#"{"id":4,"ok":true,"result":{"entries":[]}}"#);
}

#[test]
fn calls_outside_the_sandbox_are_refused_by_name() {
    let data = WinPath::parse("C:\\d");
    let temp = WinPath::parse("C:\\t");
    let known = Canonical::unknown();
    let place = scope_file(1, &FileOp::Read, "x/y.txt", &data, &temp, &known).unwrap();
    assert_eq!(place.path, "C:\\d\\x\\y.txt");
    assert_eq!(place.folder.as_deref(), Some("C:\\d\\x"));
    let root = scope_file(1, &FileOp::List, "C:\\", &WinPath::parse("C:\\"), &temp, &known).unwrap();
    assert_eq!((root.path.as_str(), root.folder), ("C:\\", None));
    for (op, name) in [
        (FileOp::Read, "fs_read_file"),
        (FileOp::Write(vec![1]), "fs_write_file"),
        (FileOp::List, "fs_read_dir"),
        (FileOp::MakeDir, "fs_mkdir"),
        (FileOp::Remove { recursive: true }, "fs_remove"),
        (FileOp::Exists, "fs_exists"),
    ] {
        let reply = scope_file(8, &op, "../x", &data, &temp, &known).unwrap_err();
        assert_eq!(
            reply,
            format!(
                "{{\"error\":\"{}: path missing or outside the sandbox\",\"id\":8,\"ok\":false}}",
                name
            )
        );
    }
}

fn manifest(url: &str) -> UpdateManifest {
    UpdateManifest { version: "2.0".to_string(), url: url.to_string(), notes: None }
}

fn with_update(state: &UpdateState, method: &str) -> IpcAction {
    let body = format!("{{\"id\":5,\"method\":\"{}\"}}", method);
    handle_ipc(&body, "App", state, "C:\\t\\u.exe", 7, false, &mut PendingCalls::new())
}

#[test]
fn updates_are_checked_where_an_address_is_set() {
    let mut state = no_update();
    assert_eq!(
        reply_of(with_update(&state, "update_check")),
        r#"{"error":"update: no update.url configured","id":5,"ok":false}"#
    );
    state.manifest_url = Some("https://u/m.json".to_string());
    match with_update(&state, "update_check") {
        IpcAction::CheckUpdate { url, reply } => {
            assert_eq!(url, "https://u/m.json");
            assert_eq!(reply, r#"{"id":5,"ok":true,"result":{"status":"checking"}}"#);
        }
        other => panic!("{:?}", other),
    }
}

#[test]
fn updates_are_installed_once_they_are_staged() {
    let none = r#"{"error":"update: no available update to install","id":5,"ok":false}"#;
    let mut state = no_update();
    assert_eq!(reply_of(with_update(&state, "update_install")), none);
    state.manifest = Some(manifest("ftp://x"));
    assert_eq!(reply_of(with_update(&state, "update_install")), none);
    state.manifest = Some(manifest("https://x/a.exe"));
    match with_update(&state, "update_install") {
        IpcAction::DownloadUpdate { url, reply } => {
            assert_eq!(url, "https://x/a.exe");
            assert_eq!(reply, r#"{"id":5,"ok":true,"result":{"status":"downloading"}}"#);
        }
        other => panic!("{:?}", other),
    }
    state.downloaded = true;
    assert_eq!(
        reply_of(with_update(&state, "update_install")),
        r#"{"id":5,"ok":true,"result":{"path":"C:\\t\\u.exe","status":"ready"}}"#
    );
    state.manifest = None;
    assert_eq!(reply_of(with_update(&state, "update_install")), none);
}

#[test]
fn windows_are_opened_and_closed() {
    match call("window_open", r#"{"title":"T","width":640,"height":4294967297,"url":""}"#) {
        IpcAction::OpenWindow { window, reply } => {
            assert_eq!(window.title.as_deref(), Some("T"));
            assert_eq!((window.width, window.height), (Some(640), Some(4294967297)));
            assert_eq!(window.url, None);
            assert_eq!(reply, r#"{"id":5,"ok":true,"result":{"queued":true}}"#);
        }
        other => panic!("{:?}", other),
    }
    match call("window_open", r#"{"title":"","width":-1,"height":1.5,"url":"a.html"}"#) {
        IpcAction::OpenWindow { window, .. } => {
            assert_eq!(window.title, None);
            assert_eq!((window.width, window.height), (None, None));
            assert_eq!(window.url.as_deref(), Some("a.html"));
        }
        other => panic!("{:?}", other),
    }
    match call("window_close", "null") {
        IpcAction::CloseWindow { reply } => {
            assert_eq!(reply, r#"{"id":5,"ok":true,"result":{"closed":true}}"#)
        }
        other => panic!("{:?}", other),
    }
}

fn plain_args() -> IpcArgs {
    IpcArgs {
        url: None,
        text: None,
        title: None,
        message: None,
        path: Some("p".to_string()),
        content: Some("!".to_string()),
        recursive: Some(true),
        width: None,
        height: None,
        dialog: FileDialog {
            kind: DialogKind::Save,
            title: None,
            directory: None,
            filters: Vec::new(),
        },
    }
}

#[test]
fn requests_are_decided_on_plain_values() {
    let request = |method: &str| IpcRequest { id: 2, method: method.to_string(), args: plain_args() };
    let state = no_update();
    assert!(matches!(
        dispatch(request("fs_remove"), "A", &state, "s"),
        IpcAction::File { id: 2, op: FileOp::Remove { recursive: true }, .. }
    ));
    assert!(matches!(
        dispatch(request("file_dialog"), "A", &state, "s"),
        IpcAction::FileDialog { id: 2, dialog } if dialog.kind == DialogKind::Save
    ));
    assert_eq!(
        reply_of(dispatch(request("fs_write_file"), "A", &state, "s")),
        r#"{"error":"fs_write_file: content must be base64","id":2,"ok":false}"#
    );
    assert!(matches!(dispatch(request("nope"), "A", &state, "s"), IpcAction::Unknown { id: 2 }));
    assert!(matches!(dispatch(request("System_Info"), "A", &state, "s"), IpcAction::Unknown { .. }));
}

#[test]
fn unknown_methods_go_to_the_sidecar() {
    let mut pending = PendingCalls::new();
    let body = r#"{"method":"ping","id":12,"args":{"b":[1,2.50,-3],"a":"\u00e9"}}"#;
    let action = handle_ipc(body, "A", &no_update(), "s", 42, true, &mut pending);
    match action {
        IpcAction::Forward { line } => assert_eq!(
            line,
            "{\"args\":{\"a\":\"\u{e9}\",\"b\":[1,2.5,-3]},\"id\":12,\"method\":\"ping\"}\n"
        ),
        other => panic!("{:?}", other),
    }
    let (window, response) = pending.take_line(r#"{"id":12,"ok":true,"result":[1]}"#).unwrap();
    assert_eq!(window, 42);
    assert_eq!(response, r#"{"error":"","id":12,"ok":true,"result":[1]}"#);
    assert!(pending.take_line(r#"{"id":12,"ok":true}"#).is_none());
}

#[test]
fn large_arguments_do_not_go_to_the_sidecar() {
    let mut pending = PendingCalls::new();
    let at_limit = format!("{{\"id\":1,\"method\":\"m\",\"args\":\"{}\"}}", "x".repeat(65_534));
    assert!(matches!(
        handle_ipc(&at_limit, "A", &no_update(), "s", 3, true, &mut pending),
        IpcAction::Forward { .. }
    ));
    assert_eq!(pending.replied(1), Some(3));
    let beyond = format!("{{\"id\":1,\"method\":\"m\",\"args\":\"{}\"}}", "\u{e9}".repeat(32_768));
    let action = handle_ipc(&beyond, "A", &no_update(), "s", 3, true, &mut pending);
    assert_eq!(reply_of(action), r#"{"error":"method args too large","id":1,"ok":false}"#);
    assert_eq!(pending.replied(1), None);
    assert_eq!(check_forward(true, 65_536), None);
    assert_eq!(check_forward(true, 65_537), Some("method args too large"));
    assert_eq!(check_forward(false, 0), Some("unknown method"));
}

#[test]
fn replies_of_the_sidecar_are_completed() {
    let mut pending = PendingCalls::new();
    pending.called(0, 9);
    let (window, response) = pending.take_line(r#"{"error":"bad"}"#).unwrap();
    assert_eq!((window, response.as_str()), (9, r#"{"error":"bad","id":0,"ok":false,"result":null}"#));
    pending.called(3, 9);
    assert!(pending.take_line("not json").is_none());
    assert!(pending.take_line(r#"{"id":4}"#).is_none());
    pending.called(3, 10);
    assert_eq!(pending.replied(3), Some(10));
}

#[test]
fn dialogs_are_read_from_the_arguments() {
    let dialog = file_dialog(&json(
        r#"{"kind":"save","title":"T","defaultPath":"C:\\x","multi":true,
            "filters":[{"name":"Images","extensions":["png",1,"jpg"]},
                       {"name":"None","extensions":[]},
                       {"extensions":["x"]},
                       {"name":"Bad","extensions":"x"}]}"#,
    ));
    assert_eq!(dialog.kind, DialogKind::Save);
    assert_eq!(dialog.title.as_deref(), Some("T"));
    assert_eq!(dialog.directory.as_deref(), Some("C:\\x"));
    assert_eq!(dialog.filters.len(), 1);
    assert_eq!(dialog.filters[0].name, "Images");
    assert_eq!(dialog.filters[0].extensions, vec!["png", "jpg"]);
    let documented = file_dialog(&json(r#"{"dialog":"open","title":"Pick a file"}"#));
    assert_eq!(documented.kind, DialogKind::OpenOne);
    assert_eq!(file_dialog(&json(r#"{"dialog":"dir"}"#)).kind, DialogKind::Folder);
    assert_eq!(file_dialog(&json(r#"{"kind":"open","dialog":"dir"}"#)).kind, DialogKind::OpenOne);
    let plain = file_dialog(&json("null"));
    assert_eq!((plain.kind, plain.title, plain.filters.len()), (DialogKind::OpenOne, None, 0));
}

#[test]
fn kinds_of_dialogs_follow_two_words() {
    let word = |w: &str| Some(w.to_string());
    assert_eq!(dialog_kind(&word("dir"), Some(true)), DialogKind::Folder);
    assert_eq!(dialog_kind(&word("save"), None), DialogKind::Save);
    assert_eq!(dialog_kind(&word("other"), Some(true)), DialogKind::OpenMany);
    assert_eq!(dialog_kind(&None, Some(false)), DialogKind::OpenOne);
}

#[test]
fn picked_files_are_told() {
    let one = Picked::One(Some("C:\\a".to_string()));
    assert_eq!(dialog_reply(1, &one), r#"{"id":1,"ok":true,"result":"C:\\a"}"#);
    assert_eq!(dialog_reply(1, &Picked::One(None)), r#"{"id":1,"ok":true,"result":null}"#);
    let many = Picked::Many(Some(vec!["a".to_string(), "b".to_string()]));
    assert_eq!(dialog_reply(1, &many), r#"{"id":1,"ok":true,"result":["a","b"]}"#);
    assert_eq!(dialog_reply(1, &Picked::Many(None)), r#"{"id":1,"ok":true,"result":[]}"#);
}

#[test]
fn requests_are_completed() {
    let bare = IpcRequest::from_parts(None, None, plain_args());
    assert_eq!((bare.id, bare.method.as_str()), (0, ""));
    let full = IpcRequest::from_parts(Some(4), Some("m".to_string()), plain_args());
    assert_eq!((full.id, full.method.as_str()), (4, "m"));
}

#[test]
fn decoded_content_is_written() {
    assert!(matches!(
        write_decoded(1, &plain_args(), Some(vec![5])),
        IpcAction::File { id: 1, op: FileOp::Write(bytes), path } if bytes == vec![5] && path == "p"
    ));
    assert_eq!(
        reply_of(write_decoded(1, &plain_args(), None)),
        r#"{"error":"fs_write_file: content must be base64","id":1,"ok":false}"#
    );
}

#[test]
fn filters_need_a_name_and_an_extension() {
    let name = || Some("N".to_string());
    let list = || Some(vec!["x".to_string()]);
    assert_eq!(usable_filter(name(), list()).unwrap().extensions, vec!["x"]);
    assert!(usable_filter(None, list()).is_none());
    assert!(usable_filter(name(), None).is_none());
    assert!(usable_filter(name(), Some(Vec::new())).is_none());
}

#[test]
fn responses_of_the_sidecar_hold_four_members() {
    assert_eq!(
        write_response(6, false, json("{\"z\":1,\"a\":null}"), "no"),
        r#"{"error":"no","id":6,"ok":false,"result":{"a":null,"z":1}}"#
    );
}
