use brix::config::{SplashSettings, TrayConfig, TrayMenuItem, TraySettings};
use brix::icon::{
    bundle_app_icon, bundle_tray_icon, checked_tray_icon, choose_tray_image, decode_app_icon,
    decode_tray_icon, widest, Pixels,
};
use brix::splash::{
    bundle_splash_image, image_tag_of, splash_html, splash_or_default, splash_position,
};
use brix::tray::{
    build_menu, finish_menu, make_id, menu_entry, tray_enabled, tray_tooltip, MenuEntry,
};
use std::io::{Cursor, Write};

fn zip_of(files: &[(&str, &[u8])]) -> Vec<u8> {
    let mut writer = zip::ZipWriter::new(Cursor::new(Vec::new()));
    for (name, bytes) in files {
        writer.start_file(*name, zip::write::SimpleFileOptions::default()).unwrap();
        writer.write_all(bytes).unwrap();
    }
    writer.finish().unwrap().into_inner()
}

fn ico_of(sizes: &[(u32, u32, u8)]) -> Vec<u8> {
    let mut dir = ico::IconDir::new(ico::ResourceType::Icon);
    for (w, h, fill) in sizes {
        let rgba = vec![*fill; (w * h * 4) as usize];
        let image = ico::IconImage::from_rgba_data(*w, *h, rgba);
        dir.add_entry(ico::IconDirEntry::encode_as_png(&image).unwrap());
    }
    let mut out = Vec::new();
    dir.write(&mut out).unwrap();
    out
}

fn png_of(w: u32, h: u32, fill: u8) -> Vec<u8> {
    let image = image::RgbaImage::from_raw(w, h, vec![fill; (w * h * 4) as usize]).unwrap();
    let mut out = Cursor::new(Vec::new());
    image::DynamicImage::ImageRgba8(image)
        .write_to(&mut out, image::ImageFormat::Png)
        .unwrap();
    out.into_inner()
}

#[test]
fn the_widest_image_of_an_icon_is_shown() {
    let bytes = ico_of(&[(16, 16, 1), (32, 32, 2), (32, 16, 3), (8, 8, 4)]);
    let image = decode_tray_icon(&bytes, true).unwrap();
    assert_eq!((image.width, image.height), (32, 16));
    assert_eq!(image.rgba, vec![3u8; 32 * 16 * 4]);
    assert_eq!(widest(&[(1, 9), (3, 1), (3, 2), (2, 2)]), Some(2));
    assert_eq!(widest(&[]), None);
}

#[test]
fn the_last_image_is_the_icon_of_the_app() {
    let bytes = ico_of(&[(32, 32, 1), (16, 16, 2)]);
    let image = decode_app_icon(&bytes).unwrap().unwrap();
    assert_eq!((image.width, image.height, image.rgba[0]), (16, 16, 2));
    assert!(decode_app_icon(&ico_of(&[])).unwrap().is_none());
    assert!(decode_app_icon(b"junk").unwrap().is_none());
}

#[test]
fn other_files_are_images() {
    let image = decode_tray_icon(&png_of(5, 3, 200), false).unwrap();
    assert_eq!((image.width, image.height), (5, 3));
    assert_eq!(image.rgba, vec![200u8; 60]);
    assert!(decode_tray_icon(b"junk", false).is_none());
    assert!(decode_tray_icon(b"junk", true).is_none());
    assert!(decode_tray_icon(&ico_of(&[]), true).is_none());
}

/// An icon of one bitmap that states a size, but holds no pixels.
fn bitmap_icon(width: i32, height: i32, bits: u8, head: usize) -> Vec<u8> {
    let mut code: Vec<u8> = Vec::new();
    code.extend_from_slice(&40u32.to_le_bytes());
    code.extend_from_slice(&width.to_le_bytes());
    code.extend_from_slice(&(2 * height).to_le_bytes());
    code.extend_from_slice(&[1, 0, bits, 0]);
    code.resize(head, 0);
    let mut bytes: Vec<u8> = vec![0, 0, 1, 0, 1, 0];
    bytes.extend_from_slice(&[0, 0, 0, 0, 1, 0, 32, 0]);
    bytes.extend_from_slice(&(head as u32).to_le_bytes());
    bytes.extend_from_slice(&22u32.to_le_bytes());
    bytes.extend_from_slice(&code);
    bytes
}

#[test]
fn icons_too_large_to_count_are_not_decoded() {
    // The bits of a row, or the places of the pixels, take more than 32 bits.
    for (width, height) in [(1 << 30, 2), (1 << 27, 1), (1 << 16, (1 << 14) + 2)] {
        let bytes = bitmap_icon(width, height, 32, 40);
        assert!(checked_tray_icon(&bytes, true).is_err());
        assert!(decode_app_icon(&bytes).is_err());
    }
    let fine = ico_of(&[(16, 16, 7)]);
    assert_eq!(checked_tray_icon(&fine, true).unwrap().unwrap().width, 16);
    assert!(checked_tray_icon(b"junk", false).unwrap().is_none());
}

#[test]
fn icons_that_are_refused_are_of_any_size() {
    for bytes in [
        bitmap_icon(1 << 30, 8, 32, 40),
        bitmap_icon(1 << 30, 2, 32, 39),
        bitmap_icon(1 << 30, 2, 5, 40),
        bitmap_icon(1 << 30, 2, 8, 1063),
        bitmap_icon(4, 4, 32, 40),
    ] {
        assert!(checked_tray_icon(&bytes, true).unwrap().is_none());
        assert!(decode_app_icon(&bytes).unwrap().is_none());
    }
}

#[test]
fn only_the_image_that_is_shown_has_to_be_counted() {
    // A narrow bitmap of an absurd height, and behind it an image of 16 by 16.
    let fine = ico_of(&[(16, 16, 7)]);
    let png = &fine[22..];
    let mut bitmap: Vec<u8> = Vec::new();
    bitmap.extend_from_slice(&40u32.to_le_bytes());
    bitmap.extend_from_slice(&8i32.to_le_bytes());
    bitmap.extend_from_slice(&(1i32 << 29).to_le_bytes());
    bitmap.extend_from_slice(&[1, 0, 32, 0]);
    bitmap.resize(40, 0);
    let mut bytes: Vec<u8> = vec![0, 0, 1, 0, 2, 0];
    bytes.extend_from_slice(&[8, 0, 0, 0, 1, 0, 32, 0]);
    bytes.extend_from_slice(&(bitmap.len() as u32).to_le_bytes());
    bytes.extend_from_slice(&38u32.to_le_bytes());
    bytes.extend_from_slice(&[16, 16, 0, 0, 1, 0, 32, 0]);
    bytes.extend_from_slice(&(png.len() as u32).to_le_bytes());
    bytes.extend_from_slice(&(38 + bitmap.len() as u32).to_le_bytes());
    bytes.extend_from_slice(&bitmap);
    bytes.extend_from_slice(png);
    let image = checked_tray_icon(&bytes, true).unwrap().unwrap();
    assert_eq!((image.width, image.height, image.rgba[0]), (16, 16, 7));
    let image = decode_tray_icon(&bytes, true).unwrap();
    assert_eq!((image.width, image.height), (16, 16));
    let image = decode_app_icon(&bytes).unwrap().unwrap();
    assert_eq!((image.width, image.height), (16, 16));
}

fn pixels(fill: u8) -> Pixels {
    Pixels { rgba: vec![fill; 4], width: 1, height: 1 }
}

#[test]
fn the_tray_always_has_an_image() {
    assert_eq!(choose_tray_image(Some(pixels(1)), Some(pixels(2))).rgba, vec![1; 4]);
    assert_eq!(choose_tray_image(None, Some(pixels(2))).rgba, vec![2; 4]);
    let square = choose_tray_image(None, None);
    assert_eq!((square.width, square.height, square.rgba.len()), (16, 16, 1024));
    for pixel in square.rgba.chunks(4) {
        assert_eq!(pixel, &[0x21, 0x47, 0x71, 0xFF]);
    }
}

#[test]
fn the_custom_tray_icon_is_the_first_that_is_not_empty() {
    let both = zip_of(&[("_tray_icon.png", b"p"), ("_tray_icon.ico", b"i")]);
    assert_eq!(bundle_tray_icon(&both), Some((b"i".to_vec(), true)));
    let empty = zip_of(&[("_tray_icon.ico", b""), ("_tray_icon.png", b"p")]);
    assert_eq!(bundle_tray_icon(&empty), Some((b"p".to_vec(), false)));
    let none = zip_of(&[("x", b"p")]);
    assert_eq!(bundle_tray_icon(&none), None);
    assert_eq!(bundle_tray_icon(b"junk"), None);
}

#[test]
fn the_icon_of_the_app_is_read_from_its_bundle() {
    let bundle = zip_of(&[("_app_icon.ico", b"icon"), ("_APP_ICON.ico", b"other")]);
    assert_eq!(bundle_app_icon(&bundle), Some(b"icon".to_vec()));
    assert_eq!(bundle_app_icon(&zip_of(&[("x", b"y")])), None);
    assert_eq!(bundle_app_icon(b"junk"), None);
}

fn splash(background: Option<&str>, text: Option<&str>) -> SplashSettings {
    SplashSettings {
        enabled: true,
        width: 1,
        height: 2,
        background: background.map(|s| s.to_string()),
        image: None,
        text: text.map(|s| s.to_string()),
        auto_hide: false,
    }
}

#[test]
fn splash_settings_have_defaults() {
    let plain = splash_or_default(None);
    assert!(plain.enabled && plain.auto_hide);
    assert_eq!((plain.width, plain.height), (360, 200));
    let own = splash_or_default(Some(splash(None, None)));
    assert_eq!((own.width, own.height, own.auto_hide), (1, 2, false));
}

#[test]
fn the_splash_window_is_centred() {
    assert_eq!(splash_position((1920, 1080), (360, 200)), (780, 440));
    assert_eq!(splash_position((100, 1081), (360, 200)), (0, 440));
    assert_eq!(splash_position((u32::MAX, 5), (0, 5)), (i32::MAX, 0));
}

#[test]
fn the_splash_page_names_the_app() {
    let page = splash_html("A <b>", &splash(Some("#123"), Some("Wait & see")), &None);
    assert!(page.starts_with("<!DOCTYPE html><html><head><meta charset=\"utf-8\"><style>html,body{margin:0;height:100%;background:#123;color:#fff;"));
    assert!(page.ends_with("</style></head><body><div class=\"logo\">A &lt;b&gt;</div><div class=\"sub\">Wait &amp; see</div></body></html>"));
    let plain = splash_html("x", &splash(None, None), &None);
    assert!(plain.contains("background:linear-gradient(135deg,#214771,#2f5d94);"));
    assert!(plain.contains("<div class=\"sub\">Loading&amp;hellip;</div>"));
}

#[test]
fn the_splash_image_is_inside_the_page() {
    let bundle = zip_of(&[("_splash.png", &[0xFF, 0xEE])]);
    let image = bundle_splash_image(&bundle);
    assert_eq!(image, Some(vec![0xFF, 0xEE]));
    let page = splash_html("x", &splash(None, None), &image);
    assert!(page.contains("<body><img src=\"data:image/png;base64,/+4=\" style=\"max-width:70%;max-height:55%;object-fit:contain;margin-bottom:12px\"><div"));
    let empty = splash_html("x", &splash(None, None), &Some(Vec::new()));
    assert!(!empty.contains("<img"));
    assert_eq!(bundle_splash_image(b"junk"), None);
    assert_eq!(bundle_splash_image(&zip_of(&[("_splash.jpg", b"x")])), None);
}

fn item(label: &str, id: Option<&str>, checked: bool, separator: bool) -> TrayMenuItem {
    TrayMenuItem {
        label: label.to_string(),
        id: id.map(|s| s.to_string()),
        enabled: label != "Off",
        checked,
        separator,
    }
}

fn tray(menu: Vec<TrayMenuItem>, tooltip: Option<&str>) -> TrayConfig {
    TrayConfig::Settings(TraySettings {
        icon: None,
        tooltip: tooltip.map(|s| s.to_string()),
        menu,
    })
}

fn described(menu: &[MenuEntry]) -> Vec<String> {
    menu.iter()
        .map(|entry| match entry {
            MenuEntry::Separator => "-".to_string(),
            MenuEntry::Item { id, label, enabled } => format!("{}|{}|{}", id, label, enabled),
            MenuEntry::Checked { id, label, enabled } => format!("*{}|{}|{}", id, label, enabled),
        })
        .collect()
}

#[test]
fn the_default_menu_shows_and_exits() {
    assert_eq!(
        described(&build_menu(&TrayConfig::Enabled(true))),
        vec!["show|Show|true", "exit|Exit|true"]
    );
}

#[test]
fn custom_menus_get_ids_and_an_exit() {
    let menu = build_menu(&tray(
        vec![
            item("Open", Some("open"), false, false),
            item("-", None, false, true),
            item("Dark Mode ON", None, true, false),
            item("Off", Some("off"), false, false),
        ],
        None,
    ));
    assert_eq!(
        described(&menu),
        vec![
            "open|Open|true",
            "-",
            "*item_2_dark_mode_on|Dark Mode ON|true",
            "off|Off|false",
            "exit|Exit|true"
        ]
    );
}

#[test]
fn menus_with_an_exit_get_no_other() {
    let menu = build_menu(&tray(vec![item("Quit", Some("EXIT"), false, false)], None));
    assert_eq!(described(&menu), vec!["EXIT|Quit|true"]);
    let hidden = build_menu(&tray(vec![item("x", Some("exit"), false, true)], None));
    assert_eq!(described(&hidden), vec!["-", "exit|Exit|true"]);
}

#[test]
fn trays_are_wanted_by_settings_or_by_minimizing() {
    assert!(!tray_enabled(&None, false));
    assert!(tray_enabled(&None, true));
    assert!(!tray_enabled(&Some(TrayConfig::Enabled(false)), false));
    assert!(tray_enabled(&Some(TrayConfig::Enabled(true)), false));
    assert!(tray_enabled(&Some(tray(Vec::new(), None)), false));
    assert_eq!(tray_tooltip(&Some(tray(Vec::new(), Some("hi"))), "app"), "hi");
    assert_eq!(tray_tooltip(&Some(tray(Vec::new(), None)), "app"), "app");
    assert_eq!(tray_tooltip(&None, "app"), "app");
}

#[test]
fn entries_are_made_one_by_one() {
    assert_eq!(make_id(12, "a b c"), "item_12_a_b_c");
    let entry = menu_entry(&item("L", None, true, false), "id".to_string());
    assert_eq!(described(&[entry]), vec!["*id|L|true"]);
    let entry = menu_entry(&item("L", None, true, true), "id".to_string());
    assert_eq!(described(&[entry]), vec!["-"]);
    assert_eq!(described(&finish_menu(Vec::new(), false)), vec!["exit|Exit|true"]);
    assert!(finish_menu(Vec::new(), true).is_empty());
    assert_eq!(
        image_tag_of("QQ=="),
        "<img src=\"data:image/png;base64,QQ==\" style=\"max-width:70%;max-height:55%;object-fit:contain;margin-bottom:12px\">"
    );
}
