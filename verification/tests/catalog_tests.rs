use compact_launcher::catalog::{collect_apps, load_desktop_apps};
use compact_launcher::desktop::AppEntry;
use compact_launcher::dirs::{app_dirs_stamp, app_search_dirs};

fn entry(name: &str, exec: &str) -> AppEntry {
    AppEntry { name: name.to_string(), exec_clean: exec.to_string(), icon: None }
}

fn names(v: &[AppEntry]) -> Vec<String> {
    v.iter().map(|e| e.name.clone()).collect()
}

#[test]
fn collect_sorts_case_insensitively() {
    let apps = collect_apps(&vec![entry("zed", "z"), entry("Alpha", "a"), entry("beta", "b")]);
    assert_eq!(names(&apps), vec!["Alpha", "beta", "zed"]);
}

#[test]
fn collect_keeps_first_of_a_name() {
    let apps = collect_apps(&vec![entry("Foo", "first"), entry("Bar", "b"), entry("Foo", "second")]);
    assert_eq!(names(&apps), vec!["Bar", "Foo"]);
    assert_eq!(apps[1].exec_clean, "first");
}

#[test]
fn collect_is_stable_for_same_lowercase() {
    let apps = collect_apps(&vec![entry("foo", "1"), entry("FOO", "2"), entry("Foo", "3")]);
    assert_eq!(names(&apps), vec!["foo", "FOO", "Foo"]);
}

#[test]
fn collect_prefix_first() {
    let apps = collect_apps(&vec![entry("abc", "1"), entry("ab", "2"), entry("b", "3"), entry("", "4")]);
    assert_eq!(names(&apps), vec!["", "ab", "abc", "b"]);
}

#[test]
fn collect_empty() {
    assert!(collect_apps(&vec![]).is_empty());
}

#[test]
fn load_parses_filters_dedups_and_sorts() {
    let files = vec![
        "[Desktop Entry]\nName=Zoom\nExec=zoom %U\nType=Application\n".to_string(),
        "[Desktop Entry]\nName=atom\nExec=atom\nType=Application\n".to_string(),
        "[Desktop Entry]\nName=Zoom\nExec=zoom-other\nType=Application\n".to_string(),
        "[Desktop Entry]\nName=Hidden\nExec=h\nType=Application\nNoDisplay=true\n".to_string(),
        "not a desktop file".to_string(),
        "[Desktop Entry]\nName=Secret\nExec=s\nType=Application\n".to_string(),
    ];
    let apps = load_desktop_apps(&files, &["sec*".to_string()]);
    assert_eq!(names(&apps), vec!["atom", "Zoom"]);
    assert_eq!(apps[1].exec_clean, "zoom");
}

#[test]
fn search_dirs_with_xdg_data_home() {
    let d = app_search_dirs(Some("/data/home"), Some("/home/u"), Some("/a:/b/"));
    assert_eq!(d, vec!["/data/home/applications", "/a/applications", "/b/applications"]);
}

#[test]
fn search_dirs_with_home_and_defaults() {
    let d = app_search_dirs(None, Some("/home/u"), None);
    assert_eq!(d, vec![
        "/home/u/.local/share/applications",
        "/usr/local/share/applications",
        "/usr/share/applications",
    ]);
}

#[test]
fn search_dirs_without_home() {
    let d = app_search_dirs(None, None, Some("/x"));
    assert_eq!(d, vec!["/x/applications"]);
    let d = app_search_dirs(None, None, Some("/a::/b"));
    assert_eq!(d, vec!["/a/applications", "applications", "/b/applications"]);
}

#[test]
fn search_dirs_empty_variables_count_as_unset() {
    let d = app_search_dirs(Some(""), Some("/home/u"), Some(""));
    assert_eq!(d, vec![
        "/home/u/.local/share/applications",
        "/usr/local/share/applications",
        "/usr/share/applications",
    ]);
    let d = app_search_dirs(Some(""), None, None);
    assert_eq!(d, vec!["/usr/local/share/applications", "/usr/share/applications"]);
}

#[test]
fn stamp_sums_with_wraparound() {
    assert_eq!(app_dirs_stamp(&vec![]), 0);
    assert_eq!(app_dirs_stamp(&vec![(100, 3), (200, 5)]), 308);
    assert_eq!(app_dirs_stamp(&vec![(u64::MAX, 2), (0, 0)]), 1);
}

#[test]
fn stamp_notices_a_single_change() {
    let before = app_dirs_stamp(&vec![(100, 3), (200, 5)]);
    assert_ne!(app_dirs_stamp(&vec![(100, 4), (200, 5)]), before);
    assert_ne!(app_dirs_stamp(&vec![(100, 3), (201, 5)]), before);
    // A change of one time and one count that cancel out goes unnoticed.
    assert_eq!(app_dirs_stamp(&vec![(101, 2), (200, 5)]), before);
}

#[test]
fn loaded_list_covers_every_visible_name() {
    let files = vec![
        "[Desktop Entry]\nName=b\nExec=b\nType=Application\n".to_string(),
        "[Desktop Entry]\nName=a\nExec=a\nType=Application\n".to_string(),
        "[Desktop Entry]\nName=B\nExec=B\nType=Application\n".to_string(),
    ];
    let apps = load_desktop_apps(&files, &[]);
    assert_eq!(names(&apps), vec!["a", "b", "B"]);
}

#[test]
fn extra_patterns_only_filter_the_list() {
    let files = vec![
        "[Desktop Entry]\nName=Zoom\nExec=zoom\nType=Application\n".to_string(),
        "[Desktop Entry]\nName=atom\nExec=atom\nType=Application\n".to_string(),
        "[Desktop Entry]\nName=Steam\nExec=steam\nType=Application\n".to_string(),
        "[Desktop Entry]\nName=Secret\nExec=s\nType=Application\n".to_string(),
    ];
    let base = vec!["sec*".to_string()];
    let more = vec!["sec*".to_string(), "st*".to_string()];
    let all = load_desktop_apps(&files, &base);
    let fewer = load_desktop_apps(&files, &more);
    assert_eq!(names(&all), vec!["atom", "Steam", "Zoom"]);
    assert_eq!(names(&fewer), vec!["atom", "Zoom"]);
}
