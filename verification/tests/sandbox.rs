use brix::sandbox::{nearest, places_above, resolve_scoped_path, Canonical, Known, Probe};
use brix::winpath::{lexical_normalize, WinPath};

#[test]
fn fs_paths_are_scoped_to_data_and_temp_dirs() {
    let data = WinPath::parse("C:/AppData/brix_app");
    let temp = WinPath::parse("C:/Temp/brix_app");
    let known = Canonical::unknown();
    assert_eq!(
        resolve_scoped_path(&data, &temp, "config.json", &known),
        Some(data.join(&WinPath::parse("config.json")))
    );
    assert_eq!(
        resolve_scoped_path(&data, &temp, "~/notes.txt", &known),
        Some(data.join(&WinPath::parse("notes.txt")))
    );
    assert_eq!(
        resolve_scoped_path(&data, &temp, "C:/Temp/brix_app/x.txt", &known),
        Some(temp.join(&WinPath::parse("x.txt")))
    );
    assert!(resolve_scoped_path(&data, &temp, "../evil.txt", &known).is_none());
    assert!(resolve_scoped_path(&data, &temp, "C:/Windows/system32", &known).is_none());
    assert!(resolve_scoped_path(&data, &temp, "", &known).is_none());
}

fn up_to(found: &str, missing: usize) -> Known {
    Known::UpTo { found: WinPath::parse(found), missing }
}

/// The two directories exist as they are spelled.
fn known(candidate: Known) -> Canonical {
    Canonical {
        data_dir: up_to("\\\\?\\C:\\Data\\brix_app", 0),
        temp_dir: up_to("\\\\?\\C:\\Temp\\brix_app", 0),
        candidate,
    }
}

#[test]
fn a_first_write_into_an_existing_directory_is_let_through() {
    let data = WinPath::parse("C:\\Data\\brix_app");
    let temp = WinPath::parse("C:\\Temp\\brix_app");
    let real = known(up_to("\\\\?\\C:\\Data\\brix_app", 2));
    let path = resolve_scoped_path(&data, &temp, "new/file.txt", &real).unwrap();
    assert_eq!(path.to_text(), "C:\\Data\\brix_app\\new\\file.txt");
}

#[test]
fn a_directory_that_really_lies_elsewhere_takes_new_files() {
    let data = WinPath::parse("C:\\data");
    let temp = WinPath::parse("C:\\temp");
    let moved = Canonical {
        data_dir: up_to("\\\\?\\D:\\real", 0),
        temp_dir: Known::Nothing,
        candidate: up_to("\\\\?\\D:\\real", 1),
    };
    let path = resolve_scoped_path(&data, &temp, "new.txt", &moved).unwrap();
    assert_eq!(path.to_text(), "C:\\data\\new.txt");
    // Neither directory exists yet, and both are missing below one link.
    let early = Canonical {
        data_dir: up_to("\\\\?\\D:\\users", 1),
        temp_dir: up_to("\\\\?\\D:\\users", 1),
        candidate: up_to("\\\\?\\D:\\users", 3),
    };
    let path = resolve_scoped_path(&data, &temp, "~/a/./b/../c.txt", &early).unwrap();
    assert_eq!(path.to_text(), "C:\\data\\a\\b\\..\\c.txt");
}

#[test]
fn a_new_file_below_a_link_that_leads_outside_is_refused() {
    let data = WinPath::parse("C:\\Data\\brix_app");
    let temp = WinPath::parse("C:\\Temp\\brix_app");
    for missing in 0..4 {
        let link = known(up_to("\\\\?\\C:\\Windows", missing));
        assert!(resolve_scoped_path(&data, &temp, "link/a/b.txt", &link).is_none());
    }
    // A link to another place inside is no way out.
    let link = known(up_to("\\\\?\\C:\\Data\\brix_app\\other", 1));
    assert!(resolve_scoped_path(&data, &temp, "link/new.txt", &link).is_some());
    // Where a link leads nowhere, nothing can be told.
    assert!(resolve_scoped_path(&data, &temp, "link/new.txt", &known(Known::Blocked)).is_none());
}

#[test]
fn places_are_asked_for_from_the_nearest_up() {
    let path = WinPath::parse("C:\\a\\.\\b\\..\\c\\d");
    assert_eq!(places_above(&path), vec!["C:\\a\\c\\d", "C:\\a\\c", "C:\\a", "C:\\"]);
    assert_eq!(places_above(&WinPath::parse("\\\\s\\h")), vec!["\\\\s\\h"]);
}

#[test]
fn the_nearest_place_that_exists_decides() {
    let real = |text: &str| Probe::Real(WinPath::parse(text));
    match nearest(vec![Probe::Nothing, Probe::Nothing, real("D:\\a"), Probe::Broken, real("D:\\")]) {
        Known::UpTo { found, missing } => assert_eq!((found.to_text().as_str(), missing), ("D:\\a", 2)),
        other => panic!("{:?}", other),
    }
    assert!(matches!(nearest(vec![real("C:\\")]), Known::UpTo { missing: 0, .. }));
    assert!(matches!(nearest(vec![Probe::Nothing, Probe::Broken, real("C:\\")]), Known::Blocked));
    assert!(matches!(nearest(vec![Probe::Nothing]), Known::Nothing));
    assert!(matches!(nearest(Vec::new()), Known::Nothing));
}

#[test]
fn normalized_paths_are_clean() {
    for (text, clean) in [
        ("C:\\a\\..\\..\\b\\.\\c", "C:\\b\\c"),
        ("..\\a\\..\\b", "b"),
        ("\\a\\b", "\\a\\b"),
        ("C:a\\..", "C:"),
        ("a\\D:b\\..", "D:"),
        ("\\\\?\\C:\\x\\a/b\\..", "\\\\?\\C:\\x\\a"),
        ("\\\\?\\C:\\a\\..\\b", "\\\\?\\C:\\b"),
    ] {
        let once = lexical_normalize(&WinPath::parse(text));
        assert_eq!(once.to_text(), clean);
        assert!(lexical_normalize(&once) == once);
    }
    // A part with a drive stands for itself.
    assert_eq!(lexical_normalize(&WinPath::parse("C:\\a\\D:b")).to_text(), "D:b");
}

#[test]
fn steps_that_stay_below_the_start_are_let_through() {
    let temp = WinPath::parse("C:\\Temp\\brix_app");
    let unknown = Canonical::unknown();
    let data = WinPath::parse("C:\\Data\\brix_app");
    let path = resolve_scoped_path(&data, &temp, "./a/../b.txt", &unknown).unwrap();
    assert_eq!(path.to_text(), "C:\\Data\\brix_app\\a\\..\\b.txt");
    let share = WinPath::parse("\\\\server\\share\\brix_app");
    let path = resolve_scoped_path(&share, &temp, "~/a/b.txt", &unknown).unwrap();
    assert_eq!(path.to_text(), "\\\\server\\share\\brix_app\\a\\b.txt");
    let real = WinPath::parse("\\\\?\\C:\\Data\\brix_app");
    let path = resolve_scoped_path(&real, &temp, "a/../b.txt", &unknown).unwrap();
    assert_eq!(path.to_text(), "\\\\?\\C:\\Data\\brix_app\\b.txt");
    assert!(resolve_scoped_path(&data, &temp, "a/../../b.txt", &unknown).is_none());
}

#[test]
fn what_exists_outside_is_refused_however_it_is_spelled() {
    let data = WinPath::parse("C:\\Data\\brix_app");
    let temp = WinPath::parse("C:\\Temp\\brix_app");
    // A link inside the data directory that leads elsewhere.
    let link = known(up_to("\\\\?\\C:\\Windows\\system32", 0));
    assert!(resolve_scoped_path(&data, &temp, "link", &link).is_none());
    let inside = known(up_to("\\\\?\\C:\\Data\\brix_app\\x", 0));
    assert!(resolve_scoped_path(&data, &temp, "x", &inside).is_some());
}

#[test]
fn paths_that_escape_are_refused() {
    let data = WinPath::parse("C:/AppData/brix_app");
    let temp = WinPath::parse("C:/Temp/brix_app");
    let none = Canonical::unknown();
    for input in [
        "   ",
        "a/../../evil",
        "..\\..\\x",
        "D:/AppData/brix_app/x",
        "C:/AppData/brix_app2/x",
        "\\\\server\\share\\x",
        "/Windows/x",
        "~/../x",
    ] {
        assert!(resolve_scoped_path(&data, &temp, input, &none).is_none(), "{}", input);
    }
    assert!(resolve_scoped_path(&data, &temp, " a/./b/../c ", &none).is_some());
    assert!(resolve_scoped_path(&data, &temp, "c:/appdata/brix_app/x", &none).is_none());
    assert!(resolve_scoped_path(&data, &temp, "c:/AppData/brix_app/x", &none).is_some());
}

#[test]
fn paths_are_written_as_they_are_read() {
    for text in [
        "C:\\a\\b",
        "C:\\",
        "C:a\\..\\b",
        "\\\\server\\share\\x\\y",
        "\\\\?\\C:\\x",
        "a\\b",
        "..\\x",
        "\\x",
    ] {
        let path = WinPath::parse(text);
        assert_eq!(path.to_text(), text);
        assert!(WinPath::parse(&path.to_text()) == path);
    }
    assert_eq!(WinPath::parse("c:/a//b/./c/").to_text(), "C:\\a\\b\\c");
}
