use brix::backend::{
    backend_env, backend_port, entry_path, first_page, port_address, port_file_path, port_page,
    read_port, sidecar_env, PortWait, WaitAction,
};
use brix::cli::{apply_dev, arg_value, dev_options, has_arg};
use brix::config::{
    BackendSettings, BrixConfig, ExtraWindowSettings, UpdateSettings, WindowSettings,
};
use brix::host::{startup_plan, Host, HostAction, HostEvent, HostSettings};
use brix::http::{
    append_body, http_get, judge_reply, make_request, FetchStep, HttpReply, Stage, Verdict,
};
use brix::installer::{
    installer_args, must_wait, next_install_step, run_update_installer_mode, InstallStep,
};
use brix::ipc::WindowRequest;
use brix::update::{
    check_download, download_progress, download_update, run_update_check, staged_path,
    UpdateManifest, UpdateState,
};
use brix::urls::UrlParts;

// ---------------------------------------------------------------------------
// Downloads
// ---------------------------------------------------------------------------

fn redirect(status: u32, location: &str) -> HttpReply {
    HttpReply::Answer { status, location: Some(location.encode_utf16().collect()) }
}

fn answer(status: u32) -> HttpReply {
    HttpReply::Answer { status, location: None }
}

fn sent(step: FetchStep) -> (String, u16, bool, String) {
    match step {
        FetchStep::Send(r) => (r.host, r.port, r.secure, r.target),
        other => panic!("{:?}", other),
    }
}

fn failed(step: FetchStep) -> String {
    match step {
        FetchStep::Fail(message) => message,
        other => panic!("{:?}", other),
    }
}

#[test]
fn the_first_request_follows_the_address() {
    assert_eq!(
        sent(http_get("https://example.com/a/b.json?x=1#f", &[])),
        ("example.com".to_string(), 443, true, "/a/b.json?x=1".to_string())
    );
    assert_eq!(
        sent(http_get("http://Example.com:8080", &[])),
        ("example.com".to_string(), 8080, false, "/".to_string())
    );
    assert_eq!(sent(http_get("foo://h/p", &[])).1, 80);
}

#[test]
fn addresses_that_cannot_be_asked_fail() {
    assert_eq!(failed(http_get("nope", &[])), "relative URL without a base");
    assert_eq!(failed(http_get("data:text/plain,x", &[])), "url has no host");
}

#[test]
fn requests_are_made_of_parts() {
    let url = UrlParts {
        scheme: "https".to_string(),
        host: Some("h".to_string()),
        port: None,
        known_port: None,
        path: String::new(),
        query: None,
    };
    let request = make_request(&url).unwrap();
    assert_eq!((request.host.as_str(), request.port, request.secure), ("h", 80, true));
    assert_eq!(request.target, "/");
    let bare = UrlParts { host: None, ..url };
    assert_eq!(make_request(&bare).unwrap_err(), "url has no host");
}

#[test]
fn failures_name_their_stage() {
    for (stage, message) in [
        (Stage::Open, "WinHttpOpen failed"),
        (Stage::Connect, "WinHttpConnect failed"),
        (Stage::OpenRequest, "WinHttpOpenRequest failed"),
        (Stage::Send, "WinHttpSendRequest failed"),
        (Stage::Receive, "WinHttpReceiveResponse failed"),
    ] {
        assert_eq!(failed(http_get("http://h/", &[HttpReply::Failed(stage)])), message);
    }
}

#[test]
fn statuses_decide() {
    assert!(matches!(http_get("http://h/", &[answer(200)]), FetchStep::ReadBody));
    assert_eq!(failed(http_get("http://h/", &[answer(404)])), "HTTP status 404");
    assert_eq!(failed(http_get("http://h/", &[answer(204)])), "HTTP status 204");
    assert_eq!(failed(http_get("http://h/", &[answer(0)])), "HTTP status 0");
    assert_eq!(
        failed(http_get("http://h/", &[answer(302)])),
        "redirect without Location (302)"
    );
    assert_eq!(
        failed(http_get("http://h/", &[redirect(301, "  ")])),
        "redirect without Location"
    );
}

#[test]
fn redirects_are_read_from_the_address_before() {
    assert_eq!(
        sent(http_get("http://h/a/b", &[redirect(302, " ../c \r\n")])),
        ("h".to_string(), 80, false, "/c".to_string())
    );
    assert_eq!(
        sent(http_get("http://h/a", &[redirect(307, "https://other:1/x")])),
        ("other".to_string(), 1, true, "/x".to_string())
    );
    let chain = [redirect(301, "/1"), redirect(399, "2"), answer(200)];
    assert!(matches!(http_get("http://h/", &chain), FetchStep::ReadBody));
}

#[test]
fn five_redirects_are_followed_and_no_more() {
    let mut replies: Vec<HttpReply> = (0..5).map(|n| redirect(302, &format!("/{}", n))).collect();
    assert_eq!(sent(http_get("http://h/", &replies)).3, "/4");
    replies.push(redirect(302, "/5"));
    assert_eq!(failed(http_get("http://h/", &replies)), "too many redirects");
    replies.pop();
    replies.push(answer(200));
    assert!(matches!(http_get("http://h/", &replies), FetchStep::ReadBody));
}

#[test]
fn bodies_grow_up_to_a_limit() {
    let mut body = vec![1u8];
    assert_eq!(append_body(&mut body, &[2, 3]), Ok(()));
    assert_eq!(body, vec![1, 2, 3]);
    let mut full = vec![0u8; 256 * 1024 * 1024 - 1];
    assert_eq!(append_body(&mut full, &[1]), Ok(()));
    assert_eq!(append_body(&mut full, &[1]), Err("download exceeds 256 MB".to_string()));
}

// ---------------------------------------------------------------------------
// Updates
// ---------------------------------------------------------------------------

fn settings(auto_install: bool) -> Option<UpdateSettings> {
    Some(UpdateSettings {
        url: "https://u".to_string(),
        check_on_start: true,
        auto_install,
    })
}

fn offer(version: &str, notes: Option<&str>) -> UpdateManifest {
    UpdateManifest {
        version: version.to_string(),
        url: "https://u/a.exe".to_string(),
        notes: notes.map(|n| n.to_string()),
    }
}

#[test]
fn update_state_starts_from_the_settings() {
    let none = UpdateState::new(&None);
    assert!(none.manifest_url.is_none() && !none.auto_install && !none.wants_update());
    let some = UpdateState::new(&settings(true));
    assert_eq!(some.manifest_url.as_deref(), Some("https://u"));
    assert!(some.auto_install && !some.is_staged());
}

#[test]
fn a_newer_version_is_offered() {
    let mut state = UpdateState::new(&settings(true));
    let event = run_update_check(&mut state, "1.2.9", offer("1.2.10", Some("fixes")), None);
    assert_eq!(
        event,
        r#"{"alreadyDownloaded":false,"event":"update_available","notes":"fixes","version":"1.2.10"}"#
    );
    assert_eq!(state.manifest.as_ref().unwrap().version, "1.2.10");
    assert!(!state.wants_update());
    let event = run_update_check(&mut state, "1.2.9", offer("2", None), Some(100_001));
    assert_eq!(
        event,
        r#"{"alreadyDownloaded":true,"event":"update_available","notes":"","version":"2"}"#
    );
    assert!(state.wants_update());
    run_update_check(&mut state, "1.2.9", offer("2", None), Some(100_000));
    assert!(!state.downloaded);
}

#[test]
fn an_old_version_clears_the_offer() {
    let mut state = UpdateState::new(&settings(true));
    run_update_check(&mut state, "1.0", offer("2.0", None), Some(200_000));
    assert!(state.wants_update());
    let event = run_update_check(&mut state, "2.0", offer("2.0", None), Some(200_000));
    assert_eq!(event, r#"{"event":"update_none","version":"2.0"}"#);
    assert!(state.manifest.is_none() && !state.downloaded && !state.wants_update());
}

#[test]
fn downloads_are_staged_and_told() {
    assert_eq!(check_download(99_999), Err("downloaded file is too small".to_string()));
    assert_eq!(check_download(100_000), Ok(()));
    let mut state = UpdateState::new(&settings(true));
    run_update_check(&mut state, "1", offer("2", None), None);
    let event = download_update(&mut state, 123_456);
    assert_eq!(event, r#"{"event":"update_ready","size":123456}"#);
    assert!(state.wants_update());
    assert_eq!(download_progress(0, 1023), None);
    assert_eq!(
        download_progress(1000, 1024).as_deref(),
        Some(r#"{"event":"update_progress","size":1024}"#)
    );
    assert_eq!(download_progress(1024, 2047), None);
    assert_eq!(staged_path("C:\\t"), "C:\\t\\.brix_update.exe");
}

#[test]
fn the_installer_reads_what_the_host_writes() {
    let mut args = vec!["C:\\t\\.brix_update.exe".to_string()];
    args.extend(installer_args(4321, "C:\\app.exe", "C:\\t\\.brix_update.exe"));
    assert_eq!(args[1], "--brix-update-install");
    let job = run_update_installer_mode(&args).unwrap();
    assert_eq!(job.parent_pid, 4321);
    assert_eq!(job.current_exe, "C:\\app.exe");
    assert_eq!(job.staged, "C:\\t\\.brix_update.exe");
}

#[test]
fn incomplete_installer_arguments_say_nothing() {
    let words = |list: &[&str]| list.iter().map(|s| s.to_string()).collect::<Vec<String>>();
    assert!(run_update_installer_mode(&words(&["x", "--brix-update-install", "1", "a"])).is_none());
    assert!(run_update_installer_mode(&words(&["x", "1", "a", "b"])).is_none());
    assert!(run_update_installer_mode(&[]).is_none());
    let odd = run_update_installer_mode(&words(&["--brix-update-install", "pid", "a", "b"])).unwrap();
    assert_eq!((odd.parent_pid, odd.current_exe.as_str(), odd.staged.as_str()), (0, "a", "b"));
}

#[test]
fn the_installer_waits_for_the_old_app() {
    assert!(must_wait(0, Some(259)));
    assert!(must_wait(89_999, Some(259)));
    assert!(!must_wait(90_000, Some(259)));
    assert!(!must_wait(0, Some(0)));
    assert!(!must_wait(0, None));
}

#[test]
fn the_replacement_falls_back_to_a_copy() {
    assert_eq!(next_install_step(InstallStep::Remove, true), InstallStep::Rename);
    assert_eq!(next_install_step(InstallStep::Remove, false), InstallStep::Copy);
    assert_eq!(next_install_step(InstallStep::Rename, true), InstallStep::Relaunch);
    assert_eq!(next_install_step(InstallStep::Rename, false), InstallStep::Copy);
    assert_eq!(next_install_step(InstallStep::Copy, true), InstallStep::Relaunch);
    assert_eq!(next_install_step(InstallStep::Copy, false), InstallStep::Stop);
    assert_eq!(next_install_step(InstallStep::Relaunch, true), InstallStep::Stop);
    assert_eq!(next_install_step(InstallStep::Stop, false), InstallStep::Stop);
}

// ---------------------------------------------------------------------------
// Backend
// ---------------------------------------------------------------------------

#[test]
fn ports_have_addresses_and_pages() {
    assert_eq!(port_address(4567), "127.0.0.1:4567");
    assert_eq!(port_page(80), "http://127.0.0.1:80/");
    assert_eq!(read_port(" 8080\n"), Some(8080));
    assert_eq!(read_port("65536"), None);
    assert_eq!(read_port("x"), None);
    let backend = |port| Some(BackendSettings { command: "n".to_string(), args: Vec::new(), port });
    assert_eq!(backend_port(&None), None);
    assert_eq!(backend_port(&backend(None)), None);
    assert_eq!(backend_port(&backend(Some(0))), Some(0));
    assert_eq!(entry_path("//dist/index.html"), "dist/index.html");
    assert_eq!(first_page(None, "dist/index.html"), "brix://app/dist/index.html");
    assert_eq!(first_page(Some(1), "dist/index.html"), "");
}

#[test]
fn the_wait_for_a_fixed_port_ends_in_time() {
    let wait = PortWait::start(4567, 1_000);
    assert_eq!(wait.action(1_000), WaitAction::Connect(4567));
    assert_eq!(wait.action(15_999), WaitAction::Connect(4567));
    assert_eq!(wait.action(16_000), WaitAction::GiveUp);
    assert_eq!(PortWait::start(1, u64::MAX).action(u64::MAX - 1), WaitAction::Connect(1));
}

#[test]
fn the_wait_for_a_named_port_begins_with_its_file() {
    let mut wait = PortWait::start(0, 0);
    assert_eq!(wait.action(0), WaitAction::ReadPortFile);
    assert!(!wait.port_file_read("", 100));
    assert_eq!(wait.action(14_999), WaitAction::ReadPortFile);
    assert!(wait.port_file_read("3000\n", 14_000));
    assert_eq!(wait.action(14_000), WaitAction::Connect(3000));
    assert_eq!(wait.action(23_999), WaitAction::Connect(3000));
    assert_eq!(wait.action(24_000), WaitAction::GiveUp);
}

#[test]
fn sidecars_are_told_where_they_are() {
    let plain = sidecar_env("D", "T", "1.0", "e.html");
    let names: Vec<&str> = plain.iter().map(|(n, _)| n.as_str()).collect();
    assert_eq!(names, vec!["BRIX_DATA_DIR", "BRIX_TEMP_DIR", "BRIX_APP_VERSION", "BRIX_ENTRY"]);
    let values: Vec<&str> = plain.iter().map(|(_, v)| v.as_str()).collect();
    assert_eq!(values, vec!["D", "T", "1.0", "e.html"]);
    let last = |port| backend_env("D", "T", "1.0", "e", port).split_off(4);
    let pair = |n: &str, v: &str| (n.to_string(), v.to_string());
    assert_eq!(last(None), vec![pair("BRIX_PORT", "0")]);
    assert_eq!(last(Some(81)), vec![pair("BRIX_PORT", "81")]);
    assert_eq!(
        last(Some(0)),
        vec![pair("BRIX_PORT", "0"), pair("BRIX_PORT_FILE", "T\\.brix_port")]
    );
    assert_eq!(port_file_path("T\\"), "T\\.brix_port");
}

// ---------------------------------------------------------------------------
// Arguments
// ---------------------------------------------------------------------------

fn args(list: &[&str]) -> Vec<String> {
    list.iter().map(|s| s.to_string()).collect()
}

fn config() -> BrixConfig {
    BrixConfig {
        name: "App".to_string(),
        version: "1.0.0".to_string(),
        entry: "index.html".to_string(),
        window: WindowSettings { width: 1000, height: 700 },
        backend: None,
        tray: None,
        minimize_to_tray: false,
        devtools: false,
        splash: None,
        webview2: None,
        update: None,
        windows: Vec::new(),
        extension: None,
    }
}

#[test]
fn arguments_are_found_by_name() {
    let list = args(&["x", "--dev", "--title", "T", "--title", "U", "--width"]);
    assert!(has_arg(&list, "--width") && !has_arg(&list, "--height"));
    assert_eq!(arg_value(&list, "--dev").as_deref(), Some("--title"));
    assert_eq!(arg_value(&list, "--title").as_deref(), Some("T"));
    assert_eq!(arg_value(&list, "--width"), None);
    assert_eq!(arg_value(&list, "--height"), None);
}

#[test]
fn development_runs_replace_the_page() {
    let mut app = config();
    let dev = dev_options(&args(&[
        "x", "--dev", "http://localhost:5173/", "--title", "Dev", "--width", "800", "--height", "x",
    ]));
    let page = apply_dev(&mut app, dev).unwrap();
    assert_eq!((page.url.as_str(), page.port), ("http://localhost:5173/", Some(5173)));
    assert_eq!(app.name, "Dev");
    assert_eq!((app.window.width, app.window.height), (800, 700));
    let plain = apply_dev(&mut app, dev_options(&args(&["x", "--dev", "http://h/"]))).unwrap();
    assert_eq!((plain.port, app.name.as_str()), (None, "Dev"));
}

#[test]
fn without_a_page_nothing_is_replaced() {
    let mut app = config();
    assert!(apply_dev(&mut app, dev_options(&args(&["x", "--title", "T", "--width", "5"]))).is_none());
    assert_eq!((app.name.as_str(), app.window.width), ("App", 1000));
}

// ---------------------------------------------------------------------------
// Windows
// ---------------------------------------------------------------------------

fn host_with(minimize_to_tray: bool, has_tray: bool, port: Option<u16>) -> Host {
    Host::new(
        HostSettings {
            main: 1,
            app_name: "App".to_string(),
            width: 1000,
            height: 700,
            auto_hide: true,
            minimize_to_tray,
            has_tray,
            port,
        },
        true,
        "brix://app/dist/index.html".to_string(),
        None,
    )
}

fn described(actions: &[HostAction]) -> Vec<String> {
    actions
        .iter()
        .map(|action| match action {
            HostAction::Run { window, script } => format!("{}:{}", window, script),
            HostAction::Create { plan, response } => format!(
                "create {} {}x{} {} {}",
                plan.title, plan.width, plan.height, plan.url, response
            ),
            other => format!("{:?}", other),
        })
        .collect()
}

fn reply(window: u64) -> HostEvent {
    HostEvent::Reply { window, response: "{\"a\":\"b\"}".to_string() }
}

#[test]
fn closing_the_main_window_ends_or_hides_the_app() {
    assert_eq!(described(&host_with(false, true, None).handle(HostEvent::Close(1))), vec!["Exit"]);
    assert_eq!(described(&host_with(true, true, None).handle(HostEvent::Close(1))), vec!["HideMain"]);
}

#[test]
fn replies_go_to_their_window() {
    let mut host = host_with(false, false, None);
    assert_eq!(
        described(&host.handle(reply(1))),
        vec!["1:window.brix && window.brix._handle(\"{\\\"a\\\":\\\"b\\\"}\")"]
    );
    assert!(host.handle(reply(2)).is_empty());
    host.add_window(2);
    host.add_window(2);
    assert_eq!(host.handle(reply(2)).len(), 1);
    assert_eq!(
        described(&host.handle(HostEvent::ExtensionReply { window: 2, response: "r".to_string() })),
        vec!["2:window.brix && window.brix._handleExtension(\"r\")"]
    );
    assert_eq!(described(&host.handle(HostEvent::Close(2))), vec!["Drop(2)"]);
    assert!(host.handle(HostEvent::Close(2)).is_empty());
    assert!(host.handle(reply(2)).is_empty());
}

#[test]
fn windows_are_made_from_requests() {
    let mut host = host_with(false, false, None);
    let empty = WindowRequest { title: None, width: None, height: None, url: None };
    assert_eq!(
        described(&host.handle(HostEvent::OpenWindow { request: empty, response: "R".to_string() })),
        vec!["create App 1000x700 brix://app/dist/index.html R"]
    );
    let full = WindowRequest {
        title: Some("T".to_string()),
        width: Some(4_294_967_297),
        height: Some(50),
        url: Some("/about.html".to_string()),
    };
    assert_eq!(
        described(&host.handle(HostEvent::OpenWindow { request: full, response: "R".to_string() })),
        vec!["create T 1x50 brix://app/dist/about.html R"]
    );
}

#[test]
fn the_response_to_a_new_window_comes_once() {
    let mut host = host_with(false, false, None);
    assert!(host.handle(HostEvent::PageLoaded(5)).is_empty());
    let opened = HostEvent::WindowOpened { window: 5, response: "R".to_string() };
    assert!(host.handle(opened).is_empty());
    assert_eq!(
        described(&host.handle(HostEvent::PageLoaded(5))),
        vec!["5:window.brix && window.brix._handle(\"R\")"]
    );
    assert!(host.handle(HostEvent::PageLoaded(5)).is_empty());
}

#[test]
fn the_splash_window_is_released_once() {
    let mut host = host_with(false, false, None);
    assert_eq!(described(&host.handle(HostEvent::CloseSplash)), vec!["DropSplash"]);
    assert!(host.handle(HostEvent::HideSplash).is_empty());
    let kept = HostSettings {
        main: 1,
        app_name: String::new(),
        width: 1,
        height: 1,
        auto_hide: false,
        minimize_to_tray: false,
        has_tray: false,
        port: None,
    };
    let mut host = Host::new(kept, true, String::new(), None);
    assert!(host.handle(HostEvent::CloseSplash).is_empty());
    assert_eq!(described(&host.handle(HostEvent::HideSplash)), vec!["DropSplash"]);
}

#[test]
fn the_tray_shows_exits_and_tells() {
    let mut host = host_with(false, true, None);
    host.add_window(2);
    assert_eq!(described(&host.handle(HostEvent::TrayClick)), vec!["ShowMain"]);
    assert_eq!(described(&host.handle(HostEvent::TrayMenu("show".to_string()))), vec!["ShowMain"]);
    assert_eq!(described(&host.handle(HostEvent::TrayMenu("exit".to_string()))), vec!["Exit"]);
    assert_eq!(
        described(&host.handle(HostEvent::TrayMenu("a'b".to_string()))),
        vec![
            "1:window.brix && window.brix._handleEvent('tray_menu', {\"id\":\"a'b\"})",
            "2:window.brix && window.brix._handleEvent('tray_menu', {\"id\":\"a'b\"})",
        ]
    );
    let mut bare = host_with(false, false, None);
    assert!(bare.handle(HostEvent::TrayClick).is_empty());
    assert!(bare.handle(HostEvent::TrayMenu("exit".to_string())).is_empty());
}

#[test]
fn updates_are_told_to_every_window() {
    let mut host = host_with(false, false, None);
    host.add_window(9);
    assert_eq!(
        described(&host.handle(HostEvent::Update("{\"event\":\"update_none\"}".to_string()))),
        vec![
            "1:window.brix && window.brix._handleEvent('update', {\"event\":\"update_none\"})",
            "9:window.brix && window.brix._handleEvent('update', {\"event\":\"update_none\"})",
        ]
    );
}

#[test]
fn a_ready_backend_becomes_the_entry() {
    let mut fixed = host_with(false, false, Some(4567));
    assert_eq!(
        described(&fixed.handle(HostEvent::BackendReady { port_file: None })),
        vec!["Load(\"http://127.0.0.1:4567/\")"]
    );
    assert_eq!((fixed.entry_url(), fixed.backend_port()), ("http://127.0.0.1:4567/", Some(4567)));
    let mut named = host_with(false, false, Some(0));
    assert!(named.handle(HostEvent::BackendReady { port_file: None }).is_empty());
    assert_eq!(named.backend_port(), None);
    let file = Some(" 3000 ".to_string());
    assert_eq!(
        described(&named.handle(HostEvent::BackendReady { port_file: file })),
        vec!["Load(\"http://127.0.0.1:3000/\")"]
    );
    let mut bundled = host_with(false, false, None);
    assert!(bundled.handle(HostEvent::BackendReady { port_file: Some("1".to_string()) }).is_empty());
}

#[test]
fn startup_windows_follow_the_settings() {
    let extra = ExtraWindowSettings {
        title: Some("S".to_string()),
        width: Some(5),
        height: None,
        url: Some("settings.html".to_string()),
    };
    let plan = startup_plan(&extra, "App", 1000, 700, "http://brix.app/index.html");
    assert_eq!((plan.title.as_str(), plan.width, plan.height), ("S", 5, 700));
    assert_eq!(plan.url, "http://brix.app/settings.html");
    let bare = ExtraWindowSettings { title: None, width: None, height: None, url: None };
    let plan = startup_plan(&bare, "App", 1000, 700, "http://brix.app/index.html");
    assert_eq!((plan.title.as_str(), plan.width), ("App", 1000));
    assert_eq!(plan.url, "http://brix.app/index.html");
}

#[test]
fn replies_are_judged_by_themselves() {
    assert!(matches!(judge_reply(&answer(200), 0), Verdict::ReadBody));
    assert!(matches!(judge_reply(&redirect(300, " /x "), 1), Verdict::Follow(l) if l == "/x"));
    assert!(matches!(judge_reply(&redirect(300, "/x"), 0), Verdict::Fail(m) if m == "too many redirects"));
    assert!(matches!(judge_reply(&answer(400), 5), Verdict::Fail(m) if m == "HTTP status 400"));
    assert!(matches!(judge_reply(&answer(299), 5), Verdict::Fail(m) if m == "HTTP status 299"));
}

#[test]
fn ports_that_backends_write_are_read() {
    for port in [0u16, 9, 3000, 65535] {
        assert_eq!(read_port(&port.to_string()), Some(port));
    }
}
