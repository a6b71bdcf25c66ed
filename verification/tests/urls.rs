use brix::urls::{is_external_url, leaves_app, request_target, resolve_extra_url, UrlParts};

fn parts(scheme: &str, host: Option<&str>) -> UrlParts {
    UrlParts {
        scheme: scheme.to_string(),
        host: host.map(|h| h.to_string()),
        port: None,
        known_port: None,
        path: "/".to_string(),
        query: None,
    }
}

#[test]
fn local_server_url_is_internal() {
    assert!(!is_external_url("http://127.0.0.1:4567/", Some(4567)));
}

#[test]
fn server_redirect_to_other_local_port_is_internal() {
    // A backend may redirect to a different local port; the navigation
    // handler must follow it inside the webview.
    assert!(!is_external_url("http://127.0.0.1:4527/", Some(4567)));
    assert!(!is_external_url("http://localhost:9999/x", Some(4567)));
}

#[test]
fn bundled_mode_local_http_is_external() {
    assert!(is_external_url("http://127.0.0.1:8080/", None));
}

#[test]
fn external_http_is_external() {
    assert!(is_external_url("https://example.com/", Some(4567)));
    assert!(!is_external_url("brix://app/index.html", Some(4567)));
    assert!(!is_external_url("about:blank", Some(4567)));
    assert!(!is_external_url("javascript:void(0)", Some(4567)));
}

#[test]
fn the_app_host_and_inner_schemes_are_internal() {
    assert!(!is_external_url("http://brix.app/settings.html", None));
    assert!(!is_external_url("https://BRIX.app/", None));
    assert!(!is_external_url("data:text/plain,hi", None));
    assert!(!is_external_url("blob:http://brix.app/1234", None));
}

#[test]
fn other_schemes_are_external_and_broken_addresses_are_not() {
    assert!(is_external_url("mailto:someone@example.com", Some(1)));
    assert!(is_external_url("file:///C:/x.txt", Some(1)));
    assert!(!is_external_url("not an address", None));
    assert!(!is_external_url("", None));
}

#[test]
fn parts_decide_who_leaves_the_app() {
    assert!(!leaves_app(&parts("http", Some("localhost")), Some(1)));
    assert!(leaves_app(&parts("http", Some("localhost")), None));
    assert!(leaves_app(&parts("https", Some("127.0.0.2")), Some(1)));
    assert!(leaves_app(&parts("https", None), Some(1)));
    assert!(leaves_app(&parts("ftp", Some("brix.app")), None));
    assert!(!leaves_app(&parts("brix", None), None));
}

#[test]
fn complete_addresses_of_windows_pass_through() {
    for url in ["http://a/b", "https://x", "brix://app/about.html"] {
        assert_eq!(resolve_extra_url(url, "http://brix.app/index.html"), url);
    }
}

#[test]
fn other_addresses_of_windows_open_beside_the_entry() {
    assert_eq!(
        resolve_extra_url("settings.html", "http://brix.app/index.html"),
        "http://brix.app/settings.html"
    );
    assert_eq!(
        resolve_extra_url("//about", "brix://app/dist/index.html"),
        "brix://app/dist/about"
    );
    assert_eq!(resolve_extra_url("x.html", "entry"), "http://brix.app/x.html");
    assert_eq!(resolve_extra_url("", "http://brix.app/"), "http://brix.app/");
}

#[test]
fn request_targets_hold_path_and_query() {
    let mut url = parts("http", Some("h"));
    assert_eq!(request_target(&url), "/");
    url.path = "/a/b".to_string();
    url.query = Some("q=1".to_string());
    assert_eq!(request_target(&url), "/a/b?q=1");
    url.path = String::new();
    url.query = None;
    assert_eq!(request_target(&url), "/");
}
