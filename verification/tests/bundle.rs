use brix::archive::{
    extraction_is_current, extraction_plan, extraction_target, index_bundle, is_enclosed,
    marker_path, plan_extraction, read_bundled, read_settings, settings_text, try_read, BundleFiles,
    NameIndex, SettingsError,
};
use brix::assets::{asset_names, asset_order, asset_response, file_of_path, request_file, serve_asset};
use brix::bridge::BRIDGE_JS;
use brix::bundle::{is_stated_digest, locate_bundle, read_footer, BundleError};
use brix::hash::hash64;
use sha2::Digest;
use std::io::{Cursor, Write};

fn zip_of(files: &[(&str, &[u8])]) -> Vec<u8> {
    let mut writer = zip::ZipWriter::new(Cursor::new(Vec::new()));
    for (name, bytes) in files {
        writer.start_file(*name, zip::write::SimpleFileOptions::default()).unwrap();
        writer.write_all(bytes).unwrap();
    }
    writer.finish().unwrap().into_inner()
}

fn stitched(host: &[u8], bundle: &[u8]) -> Vec<u8> {
    let mut file = host.to_vec();
    file.extend_from_slice(bundle);
    file.extend_from_slice(&(bundle.len() as u64).to_le_bytes());
    file.extend_from_slice(&sha2::Sha256::digest(bundle));
    file
}

fn open(bytes: &[u8]) -> zip::ZipArchive<Cursor<&[u8]>> {
    zip::ZipArchive::new(Cursor::new(bytes)).unwrap()
}

#[test]
fn a_stitched_bundle_is_found() {
    let bundle = zip_of(&[("a.txt", b"hello")]);
    let file = stitched(b"MZ host code", &bundle);
    let (start, end) = locate_bundle(&file).unwrap();
    assert_eq!(&file[start..end], &bundle[..]);
    let bare = stitched(b"", &bundle);
    assert_eq!(locate_bundle(&bare), Ok((0, bundle.len())));
}

#[test]
fn a_file_without_room_for_a_footer_is_refused() {
    assert_eq!(locate_bundle(&[0u8; 39]), Err(BundleError::TooSmall));
    assert_eq!(BundleError::TooSmall.message(), "Binary too small");
}

#[test]
fn a_size_that_cannot_be_is_refused() {
    assert_eq!(locate_bundle(&[0u8; 40]), Err(BundleError::InvalidSize));
    let mut file = stitched(b"", b"abc");
    let at = file.len() - 40;
    file[at] = 4;
    assert_eq!(locate_bundle(&file), Err(BundleError::InvalidSize));
    file[at] = 3;
    file[at + 7] = 0x80;
    assert_eq!(locate_bundle(&file), Err(BundleError::InvalidSize));
    assert_eq!(BundleError::InvalidSize.message(), "Invalid bundle size");
}

#[test]
fn a_changed_bundle_is_refused() {
    let mut file = stitched(b"host", b"the bundle");
    file[6] ^= 1;
    assert_eq!(locate_bundle(&file), Err(BundleError::Tampered));
    let mut file = stitched(b"host", b"the bundle");
    let last = file.len() - 1;
    file[last] ^= 1;
    assert_eq!(locate_bundle(&file), Err(BundleError::Tampered));
    assert_eq!(
        BundleError::Tampered.message(),
        "Bundle integrity check failed \u{2014} the executable may be corrupted or tampered."
    );
}

#[test]
fn settings_are_read_from_the_bundle() {
    let bundle = zip_of(&[(".brix.json", b"{\"name\":\"A\"}")]);
    assert_eq!(read_settings(&bundle).unwrap(), "{\"name\":\"A\"}");
    assert_eq!(read_settings(b"no zip"), Err(SettingsError::NotAnArchive));
    assert_eq!(read_settings(&zip_of(&[("x", b"")])), Err(SettingsError::Missing));
    assert_eq!(
        read_settings(&zip_of(&[(".brix.json", &[0xFF, 0xFE])])),
        Err(SettingsError::NotText)
    );
}

#[test]
fn files_are_read_with_their_type() {
    let bundle = zip_of(&[("a/x.css", b"body{}"), ("b", &[0u8; 5000])]);
    let mut archive = open(&bundle);
    let (mime, bytes) = try_read(&mut archive, "a/x.css").unwrap();
    assert_eq!((mime.as_str(), bytes.as_slice()), ("text/css", &b"body{}"[..]));
    let (mime, bytes) = try_read(&mut archive, "b").unwrap();
    assert_eq!((mime.as_str(), bytes.len()), ("application/octet-stream", 5000));
    assert!(try_read(&mut archive, "A/x.css").is_none());
}

#[test]
fn the_index_keeps_the_first_spelling() {
    let bundle = zip_of(&[("Img/Logo.PNG", b"1"), ("img/logo.png", b"2"), ("\u{c4}.txt", b"3")]);
    assert_eq!(
        NameIndex::build(&mut open(&bundle)).get("img/logo.png").as_deref(),
        Some("Img/Logo.PNG")
    );
    let index = index_bundle(&bundle);
    assert_eq!(index.get("img/logo.png").as_deref(), Some("Img/Logo.PNG"));
    assert_eq!(index.get("\u{e4}.txt").as_deref(), Some("\u{c4}.txt"));
    assert_eq!(index.get("Img/Logo.PNG"), None);
    assert_eq!(NameIndex::empty().get("x"), None);
    assert_eq!(index_bundle(b"junk").get("x"), None);
}

#[test]
fn files_are_found_in_any_letter_case() {
    let bundle = zip_of(&[("Img/Logo.PNG", b"1"), ("index.html", b"")]);
    let index = index_bundle(&bundle);
    for name in ["Img/Logo.PNG", "img/logo.png", "IMG/LOGO.png"] {
        let uri = format!("brix://app/{}", name);
        let found = serve_asset(&bundle, &index, "index.html", &uri);
        assert_eq!((found.status, found.body.as_slice()), (200, &b"1"[..]), "{}", name);
    }
}

#[test]
fn the_files_of_a_bundle_are_read_one_after_the_other() {
    let bundle = zip_of(&[("a", b"1"), ("b/c", b"22")]);
    let mut files = BundleFiles::open(&bundle).unwrap();
    assert_eq!(files.read("b/c"), Some(b"22".to_vec()));
    assert_eq!(files.read("B/c"), None);
    assert_eq!(files.read("a"), Some(b"1".to_vec()));
    assert!(BundleFiles::open(b"junk").is_none());
    assert_eq!(read_bundled(&bundle, "a"), Some(b"1".to_vec()));
    assert_eq!(read_bundled(&bundle, "x"), None);
    assert_eq!(read_bundled(b"junk", "a"), None);
}

#[test]
fn enclosed_names_stay_below() {
    for name in ["a", "a/b/../c", "./a", "a\\b", "a/../b", ""] {
        assert!(is_enclosed(name), "{}", name);
    }
    for name in ["..", "a/../../b", "/a", "\\a", "C:\\a", "C:a", "a\0b", "\\\\s\\h\\x"] {
        assert!(!is_enclosed(name), "{}", name);
    }
}

#[test]
fn files_go_to_their_places() {
    assert_eq!(extraction_target("dist/index.html").as_deref(), Some("dist\\index.html"));
    assert_eq!(extraction_target("_backend/server.js").as_deref(), Some("server.js"));
    assert_eq!(extraction_target("_backend\\lib\\x.js").as_deref(), Some("lib\\x.js"));
    assert_eq!(extraction_target("_backend/a/_backend/b").as_deref(), Some("a\\b"));
    assert_eq!(extraction_target("x/_backend/b").as_deref(), Some("x\\_backend\\b"));
    // Nothing goes above the directory, whatever is taken out of its name.
    for name in ["_backend/../x", "_backend/._backend/./evil", "_backend//x", "_backend/C:x"] {
        assert_eq!(extraction_target(name), None, "{}", name);
    }
    assert_eq!(extraction_target("_backend/a/../x").as_deref(), Some("a\\..\\x"));
    for name in ["dir/", "dir\\", ".brix.json", "_app_icon.ico", "_backend/", "../x", "/x", ""] {
        assert_eq!(extraction_target(name), None, "{}", name);
    }
}

#[test]
fn the_plan_holds_every_file_in_order() {
    let bundle = zip_of(&[
        (".brix.json", b"{}"),
        ("index.html", b"x"),
        ("_backend/server.js", b"y"),
        ("../evil", b"z"),
        ("sub/", b""),
    ]);
    let plan = plan_extraction(&bundle);
    assert_eq!(extraction_plan(&mut open(&bundle)), plan);
    assert!(plan_extraction(b"junk").is_empty());
    assert_eq!(
        plan,
        vec![
            ("index.html".to_string(), "index.html".to_string()),
            ("_backend/server.js".to_string(), "server.js".to_string()),
        ]
    );
}

#[test]
fn markers_belong_to_one_bundle() {
    let print = hash64(b"bundle");
    assert!(extraction_is_current(&format!(" {}\r\n", print), print));
    assert!(!extraction_is_current(&format!("0{}", print), print));
    assert!(!extraction_is_current("", print));
    assert_eq!(marker_path("C:\\t\\brix_a"), "C:\\t\\brix_a\\.brix_extract_cache");
}

#[test]
fn requests_name_files() {
    assert_eq!(request_file("brix://app/css/a%20b.css", "index.html"), "css/a b.css");
    assert_eq!(request_file("http://brix.app/", "dist/index.html"), "dist/index.html");
    assert_eq!(request_file("http://brix.app/x?y=1#z", "e"), "x");
    assert_eq!(request_file("https://brix.app//a/b", "e"), "a/b");
    assert_eq!(request_file("css/x.css", "e"), "css/x.css");
    assert_eq!(request_file("a%FFb", "e"), "a\u{FFFD}b");
    assert_eq!(file_of_path("///", "e.html"), "e.html");
    assert_eq!(file_of_path("/a", "e.html"), "a");
}

#[test]
fn names_are_tried_in_order() {
    let bundle = zip_of(&[("Dist/App.JS", b""), ("dist/Index.html", b"")]);
    let index = NameIndex::build(&mut open(&bundle));
    assert_eq!(
        asset_names("app.js", "dist/index.html", &index),
        vec!["app.js", "dist/app.js", "Dist/App.JS"]
    );
    assert_eq!(
        asset_names("dist/app.js", "dist/index.html", &index),
        vec!["dist/app.js", "Dist/App.JS"]
    );
    assert_eq!(
        asset_names("users/7", "dist/index.html", &index),
        vec!["users/7", "dist/users/7", "dist/index.html"]
    );
    assert_eq!(asset_names("x.css", "index.html", &index), vec!["x.css"]);
}

fn header<'a>(headers: &'a [(String, String)], name: &str) -> Option<&'a str> {
    headers.iter().find(|(n, _)| n == name).map(|(_, v)| v.as_str())
}

#[test]
fn assets_are_served_from_the_bundle() {
    let bundle = zip_of(&[
        ("dist/index.html", b"<html><head></head></html>"),
        ("dist/style.css", b"a{}"),
        ("Logo.png", &[1, 2, 3]),
    ]);
    let index = index_bundle(&bundle);
    let entry = "dist/index.html";

    let page = serve_asset(&bundle, &index, entry, "brix://app/");
    assert_eq!(page.status, 200);
    assert_eq!(header(&page.headers, "Content-Type"), Some("text/html"));
    let text = String::from_utf8(page.body).unwrap();
    assert_eq!(text, format!("<html><head><script>{}</script></head></html>", BRIDGE_JS));

    let css = serve_asset(&bundle, &index, entry, "http://brix.app/style.css");
    assert_eq!((css.status, css.body.as_slice()), (200, &b"a{}"[..]));
    assert_eq!(header(&css.headers, "Content-Type"), Some("text/css"));
    assert_eq!(header(&css.headers, "Access-Control-Allow-Origin"), Some("*"));

    let logo = serve_asset(&bundle, &index, entry, "brix://app/LOGO.PNG");
    assert_eq!((logo.status, logo.body.as_slice()), (200, &[1u8, 2, 3][..]));

    let route = serve_asset(&bundle, &index, entry, "brix://app/users/7");
    assert_eq!(route.status, 200);
    assert_eq!(header(&route.headers, "Content-Type"), Some("text/html"));

    let missing = serve_asset(&bundle, &index, entry, "brix://app/missing.png");
    assert_eq!((missing.status, missing.headers.len(), missing.body.len()), (404, 0, 0));

    let broken = serve_asset(b"no zip", &index, entry, "brix://app/");
    assert_eq!(broken.status, 404);
}

#[test]
fn pages_that_are_no_text_are_sent_as_they_are() {
    let bytes = vec![0x3C, 0xFF, 0x3E];
    let page = asset_response(Some(("text/html".to_string(), bytes.clone())));
    assert_eq!((page.status, page.body), (200, bytes));
    let data = asset_response(Some(("text/plain".to_string(), b"<head>".to_vec())));
    assert_eq!(data.body, b"<head>");
    let none = asset_response(None);
    assert_eq!((none.status, none.headers.len(), none.body.len()), (404, 0, 0));
}

#[test]
fn footers_state_a_range_and_a_digest() {
    let mut file = vec![7u8; 10];
    file.extend_from_slice(&[4, 0, 0, 0, 0, 0, 0, 0]);
    file.extend_from_slice(&[9u8; 32]);
    assert_eq!(read_footer(&file), Ok((6, 10)));
    assert!(is_stated_digest(&file, &[9u8; 32]));
    assert!(!is_stated_digest(&file, &[9u8; 31]));
    let mut other = [9u8; 32];
    other[31] = 8;
    assert!(!is_stated_digest(&file, &other));
    file[11] = 1;
    assert_eq!(read_footer(&file), Err(BundleError::InvalidSize));
    assert_eq!(read_footer(&file[20..]), Err(BundleError::TooSmall));
}

#[test]
fn settings_are_text() {
    assert_eq!(settings_text(Some("\u{e9}".as_bytes().to_vec())).unwrap(), "\u{e9}");
    assert_eq!(settings_text(Some(vec![0xC3])), Err(SettingsError::NotText));
    assert_eq!(settings_text(None), Err(SettingsError::Missing));
}

#[test]
fn keys_of_the_index_are_taken_once() {
    let mut index = NameIndex::empty();
    index.add_name("k".to_string(), "first".to_string());
    index.add_name("k".to_string(), "second".to_string());
    index.add_name("l".to_string(), "third".to_string());
    assert_eq!(index.get("k").as_deref(), Some("first"));
    assert_eq!(index.get("l").as_deref(), Some("third"));
}

#[test]
fn the_order_of_names_follows_what_is_known() {
    let some = |s: &str| Some(s.to_string());
    assert_eq!(asset_order("a.css", "d/i.html", some("A.css"), some("X")), vec!["a.css", "A.css"]);
    assert_eq!(asset_order("a.css", "d/i.html", None, some("D/a.css")), vec!["a.css", "d/a.css", "D/a.css"]);
    assert_eq!(asset_order("a.css", "i.html", None, some("X")), vec!["a.css"]);
    assert_eq!(asset_order("a", "i.html", None, None), vec!["a", "i.html"]);
}
