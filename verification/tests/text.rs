use brix::folder::{app_dir, app_folder, sanitize_folder_name};
use brix::hash::hash64;
use brix::html::{escape_html, inject_after_head};
use brix::mime::{get_mime_type, is_known_asset_ext};
use brix::text::{
    find_from, is_whitespace, parse_number, parse_u16, parse_u32, replace, rfind, split,
    starts_with, strip_prefix, to_decimal, trim, trim_start_char,
};
use brix::utf16::{clipboard_read, clipboard_write, copy_utf16, decode, to_wide};

#[test]
fn white_space_is_that_of_the_standard_library() {
    for n in 0..=0x10FFFFu32 {
        if let Some(c) = char::from_u32(n) {
            assert_eq!(is_whitespace(c), c.is_whitespace(), "{:x}", n);
        }
    }
}

#[test]
fn texts_are_cut_and_searched() {
    assert_eq!(trim(" \u{2003} a b\n"), "a b");
    assert_eq!(trim("\t "), "");
    assert_eq!(trim_start_char("//a/", '/'), "a/");
    assert_eq!(strip_prefix("~/x", "~/").as_deref(), Some("x"));
    assert_eq!(strip_prefix("~x", "~/"), None);
    assert!(starts_with("abc", "ab") && !starts_with("ab", "abc"));
    let chars: Vec<char> = "a.b.c".chars().collect();
    assert_eq!(rfind(&chars, '.'), Some(3));
    assert_eq!(rfind(&chars, '/'), None);
    assert_eq!(find_from(&chars, '.', 2), 3);
    assert_eq!(find_from(&chars, '.', 4), 5);
    assert_eq!(split("a..b", '.'), vec!["a", "", "b"]);
    assert_eq!(replace("aaa", "aa", "b"), "ba");
    assert_eq!(replace("a\\b\\", "\\", "/"), "a/b/");
}

#[test]
fn numbers_are_read_as_by_the_standard_library() {
    for text in ["0", "007", "+5", "65535", "65536", "", "+", "-1", " 1", "1 ", "1_0", "4294967295", "4294967296"] {
        assert_eq!(parse_u16(text), text.parse::<u16>().ok(), "{}", text);
        assert_eq!(parse_u32(text), text.parse::<u32>().ok(), "{}", text);
        assert_eq!(parse_number(text, u64::MAX), text.parse::<u64>().ok(), "{}", text);
    }
    assert_eq!(parse_number("18446744073709551615", u64::MAX), Some(u64::MAX));
    assert_eq!(parse_number("18446744073709551616", u64::MAX), None);
}

#[test]
fn numbers_are_written_in_decimal() {
    for n in [0u64, 7, 10, 65_535, u64::MAX] {
        assert_eq!(to_decimal(n), n.to_string());
        assert_eq!(parse_number(&to_decimal(n), u64::MAX), Some(n));
    }
}

#[test]
fn folder_names_hold_nothing_unfit() {
    assert_eq!(sanitize_folder_name("My App: <1>?\u{1}"), "My_App___1___");
    assert_eq!(sanitize_folder_name("a\u{a0}b/c\\d|e*f\"g"), "a_b_c_d_e_f_g");
    let once = sanitize_folder_name("x y:z");
    assert_eq!(sanitize_folder_name(&once), once);
    assert_eq!(app_folder("My App"), "brix_My_App");
    assert_eq!(app_dir("C:\\Users\\x\\AppData\\Local", "a b"), "C:\\Users\\x\\AppData\\Local\\brix_a_b");
    assert_eq!(app_dir("C:/Temp/", "a"), "C:/Temp/brix_a");
    assert_eq!(app_dir("C:", "a"), "C:brix_a");
    assert_eq!(app_dir("", "a"), "brix_a");
}

#[test]
fn fingerprints_are_fnv() {
    assert_eq!(hash64(b""), 0xcbf2_9ce4_8422_2325);
    assert_eq!(hash64(b"a"), 0xaf63_dc4c_8601_ec8c);
    assert_eq!(hash64(b"foobar"), 0x8594_4171_f739_67e8);
}

#[test]
fn media_types_follow_the_extension() {
    assert_eq!(get_mime_type("index.html"), "text/html");
    assert_eq!(get_mime_type("a/b.htm"), "text/html");
    assert_eq!(get_mime_type("x.mjs"), "text/javascript");
    assert_eq!(get_mime_type("x.js"), "application/javascript");
    assert_eq!(get_mime_type("app.js.map"), "application/json");
    assert_eq!(get_mime_type("m.webmanifest"), "application/manifest+json");
    assert_eq!(get_mime_type("f.woff2"), "font/woff2");
    assert_eq!(get_mime_type("f.woff"), "font/woff");
    assert_eq!(get_mime_type(".svg"), "image/svg+xml");
    assert_eq!(get_mime_type("INDEX.HTML"), "application/octet-stream");
    assert_eq!(get_mime_type("html"), "application/octet-stream");
    assert_eq!(get_mime_type("x.unknown"), "application/octet-stream");
}

#[test]
fn static_files_are_known_in_any_case() {
    assert!(is_known_asset_ext("a/LOGO.PNG"));
    assert!(is_known_asset_ext("x.xml"));
    assert!(!is_known_asset_ext("users/42"));
    assert!(!is_known_asset_ext("v1.2/page"));
    assert!(!is_known_asset_ext(""));
    assert!(!is_known_asset_ext("map"));
    assert!(is_known_asset_ext(".map"));
}

#[test]
fn snippets_go_behind_the_head_tag() {
    assert_eq!(
        inject_after_head("<html><head><title>x</title>", "S"),
        "<html><head>S<title>x</title>"
    );
    assert_eq!(
        inject_after_head("<HTML><HEAD lang=\"en\" >x", "S"),
        "<HTML><HEAD lang=\"en\" >Sx"
    );
    assert_eq!(inject_after_head("<header>x</header>", "S"), "S<header>x</header>");
    assert_eq!(
        inject_after_head("<header></header><head></head>", "S"),
        "<header></header><head>S</head>"
    );
    assert_eq!(inject_after_head("no tags", "S"), "Sno tags");
    assert_eq!(inject_after_head("<head", "S"), "S<head");
    assert_eq!(inject_after_head("\u{130}<head>x", "S"), "\u{130}<head>Sx");
}

#[test]
fn escaped_text_opens_no_tag() {
    assert_eq!(escape_html("<a href=\"x\">'&amp;'"), "&lt;a href=&quot;x&quot;&gt;&#39;&amp;amp;&#39;");
    assert_eq!(escape_html("plain \u{e9}"), "plain \u{e9}");
}

#[test]
fn wide_texts_end_with_a_zero() {
    let text = "a\u{e9}\u{1F600}";
    let expected: Vec<u16> = text.encode_utf16().chain(std::iter::once(0)).collect();
    assert_eq!(to_wide(text), expected);
    assert_eq!(to_wide(""), vec![0]);
}

#[test]
fn clipboard_text_comes_back() {
    let text = "line\r\n\u{1F680}\u{FFFF}z";
    let (units, bytes) = clipboard_write(text);
    assert_eq!(bytes, units.len() * 2);
    assert_eq!(clipboard_read(Some(&units)).as_deref(), Some(text));
    assert_eq!(clipboard_read(Some(&[65, 66, 0, 67])).as_deref(), Some("AB"));
    assert_eq!(clipboard_read(Some(&[])).as_deref(), Some(""));
    assert_eq!(clipboard_read(None), None);
}

#[test]
fn broken_pairs_are_replaced() {
    for units in [
        vec![0xD800u16],
        vec![0xDC00, 0x41],
        vec![0xD83D, 0xDE00, 0xD83D],
        vec![0xD800, 0xD83D, 0xDE00],
        vec![0xD800, 0x41, 0xDFFF],
    ] {
        assert_eq!(decode(&units), String::from_utf16_lossy(&units));
    }
}

#[test]
fn fixed_buffers_hold_whole_characters() {
    let mut buffer = vec![9u16; 5];
    copy_utf16(&mut buffer, "ab");
    assert_eq!(buffer, vec![97, 98, 0, 9, 9]);
    let mut buffer = vec![9u16; 4];
    copy_utf16(&mut buffer, "abcdef");
    assert_eq!(buffer, vec![97, 98, 99, 0]);
    let mut buffer = vec![9u16; 4];
    copy_utf16(&mut buffer, "ab\u{1F600}");
    assert_eq!(buffer, vec![97, 98, 0, 9]);
    let mut buffer = vec![9u16; 1];
    copy_utf16(&mut buffer, "x");
    assert_eq!(buffer, vec![0]);
}
