use compact_launcher::desktop::{clean_exec, icon_source, parse_desktop_entry, IconSource};

#[test]
fn clean_exec_strips_field_codes() {
    assert_eq!(clean_exec("firefox %u"), "firefox");
    assert_eq!(clean_exec("gimp %U"), "gimp");
    assert_eq!(clean_exec("app %f --x %F %d %D %n %N %i %c %k %v %m"), "app  --x");
    assert_eq!(clean_exec("  plain  "), "plain");
}

#[test]
fn clean_exec_keeps_other_percent_codes() {
    assert_eq!(clean_exec("app %% %x"), "app %% %x");
}

#[test]
fn clean_exec_removes_codes_one_after_another() {
    // "%f" goes first and leaves "%F", which the next pass removes.
    assert_eq!(clean_exec("%%fF"), "");
    // A code is not rescanned after the text around it closes up.
    assert_eq!(clean_exec("%%ff"), "%f");
}

#[test]
fn clean_exec_empty() {
    assert_eq!(clean_exec(""), "");
    assert_eq!(clean_exec("%u"), "");
}

const FIREFOX: &str = "[Desktop Entry]\nType=Application\nName=Firefox\nName[de]=Feuerfuchs\nExec=firefox %u\nIcon=firefox\n\n[Desktop Action new-window]\nName=New Window\nExec=firefox --new-window %u\n";

#[test]
fn parse_reads_main_section() {
    let e = parse_desktop_entry(FIREFOX, &[]).unwrap();
    assert_eq!(e.name, "Firefox");
    assert_eq!(e.exec_clean, "firefox");
    assert_eq!(e.icon, Some("firefox".to_string()));
}

#[test]
fn parse_first_name_wins() {
    let text = "[Desktop Entry]\nName=First\nName=Second\nType=Application\nExec=a\n";
    assert_eq!(parse_desktop_entry(text, &[]).unwrap().name, "First");
}

#[test]
fn parse_trims_lines_and_crlf() {
    let text = "  [Desktop Entry]  \r\n  Name=Tool \r\nType=Application\r\nExec=tool %F\r\n";
    let e = parse_desktop_entry(text, &[]).unwrap();
    assert_eq!(e.name, "Tool");
    assert_eq!(e.exec_clean, "tool");
    assert_eq!(e.icon, None);
}

#[test]
fn parse_rejects_invisible_entries() {
    let base = "[Desktop Entry]\nName=X\nExec=x\nType=Application\n";
    assert!(parse_desktop_entry(base, &[]).is_some());
    assert!(parse_desktop_entry(&format!("{}NoDisplay=true\n", base), &[]).is_none());
    assert!(parse_desktop_entry(&format!("{}Hidden=true\n", base), &[]).is_none());
    assert!(parse_desktop_entry("[Desktop Entry]\nName=X\nExec=x\nType=Link\n", &[]).is_none());
    assert!(parse_desktop_entry("[Desktop Entry]\nExec=x\nType=Application\n", &[]).is_none());
    assert!(parse_desktop_entry("[Desktop Entry]\nName=X\nType=Application\n", &[]).is_none());
    assert!(parse_desktop_entry("[Desktop Entry]\nName=X\nExec=\nType=Application\n", &[]).is_none());
}

#[test]
fn parse_ignores_keys_outside_section() {
    let text = "Name=Outside\nExec=out\nType=Application\n[Desktop Entry]\nType=Application\n";
    assert!(parse_desktop_entry(text, &[]).is_none());
    let text2 = "[Other]\nName=Outside\n[Desktop Entry]\nName=In\nExec=in\nType=Application\n";
    assert_eq!(parse_desktop_entry(text2, &[]).unwrap().name, "In");
}

#[test]
fn parse_stops_at_next_section() {
    let text = "[Desktop Entry]\nName=A\nType=Application\n[Action]\nExec=late\n";
    assert!(parse_desktop_entry(text, &[]).is_none());
}

#[test]
fn parse_applies_hidden_patterns() {
    let hidden = vec!["fire*".to_string()];
    assert!(parse_desktop_entry(FIREFOX, &hidden).is_none());
    let other = vec!["chrome".to_string(), "  ".to_string()];
    assert!(parse_desktop_entry(FIREFOX, &other).is_some());
}

#[test]
fn parse_empty_text() {
    assert!(parse_desktop_entry("", &[]).is_none());
}

#[test]
fn icon_sources() {
    assert_eq!(icon_source(&Some("/opt/app/icon.png".to_string())), IconSource::Path("/opt/app/icon.png".to_string()));
    assert_eq!(icon_source(&Some("firefox".to_string())), IconSource::Named("firefox".to_string()));
    assert_eq!(icon_source(&None), IconSource::Named("application-x-executable".to_string()));
}

#[test]
fn clean_exec_twice_is_clean_exec_once() {
    for exec in ["firefox %u", " a %f%F b ", "x %%u", "%f%u %U", "plain"] {
        if !exec.contains("%%") {
            assert_eq!(clean_exec(&clean_exec(exec)), clean_exec(exec));
        }
    }
}
