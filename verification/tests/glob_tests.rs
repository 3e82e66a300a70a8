use compact_launcher::glob::{glob_matches, matches_hidden_pattern};

#[test]
fn literal_pattern_matches_only_equal_name() {
    assert!(glob_matches("firefox", "firefox"));
    assert!(!glob_matches("firefox", "firefo"));
    assert!(!glob_matches("firefox", "firefox2"));
}

#[test]
fn star_matches_everything() {
    assert!(glob_matches("", "*"));
    assert!(glob_matches("anything at all", "*"));
    assert!(glob_matches("x", "**"));
}

#[test]
fn trailing_star_is_prefix() {
    assert!(glob_matches("firefox", "fire*"));
    assert!(glob_matches("fire", "fire*"));
    assert!(!glob_matches("campfire", "fire*"));
}

#[test]
fn leading_star_is_suffix() {
    assert!(glob_matches("firefox", "*fox"));
    assert!(!glob_matches("foxtrot", "*fox"));
    assert!(glob_matches("fox", "*fox"));
}

#[test]
fn inner_pieces_in_order() {
    assert!(glob_matches("libreoffice writer", "libre*wri*"));
    assert!(glob_matches("abcabc", "a*c*c"));
    assert!(!glob_matches("abc", "a*c*c"));
    assert!(glob_matches("aXbXc", "a*b*c"));
    assert!(!glob_matches("acb", "a*b*c"));
    assert!(glob_matches("aaa", "a*a*a"));
    assert!(!glob_matches("aa", "a*a*a"));
}

#[test]
fn hidden_pattern_is_case_insensitive() {
    assert!(matches_hidden_pattern("Firefox", "FIRE*"));
    assert!(matches_hidden_pattern("FIREFOX", "firefox"));
    assert!(!matches_hidden_pattern("Firefox", "chrome"));
}

#[test]
fn hidden_pattern_is_trimmed() {
    assert!(matches_hidden_pattern("Firefox", "  firefox \t"));
    assert!(matches_hidden_pattern("Firefox", " fire* "));
}

#[test]
fn empty_pattern_hides_nothing() {
    assert!(!matches_hidden_pattern("Firefox", ""));
    assert!(!matches_hidden_pattern("Firefox", "   "));
    assert!(!matches_hidden_pattern("", ""));
}

#[test]
fn hidden_pattern_unicode_case() {
    assert!(matches_hidden_pattern("Éditeur", "éditeur"));
}

#[test]
fn star_only_pattern_hides_everything() {
    assert!(matches_hidden_pattern("Anything", " ** "));
    assert!(matches_hidden_pattern("", "*"));
    assert!(matches_hidden_pattern("Ünïcödé", "*"));
}

#[test]
fn ascii_case_and_padding_do_not_matter() {
    for (name, pattern) in [("firefox", "fire*"), ("gimp", "*imp"), ("vlc", "zed"), ("Steam", "st*m")] {
        let upper_pattern = format!("  {} ", pattern.to_ascii_uppercase());
        assert_eq!(
            matches_hidden_pattern(name, pattern),
            matches_hidden_pattern(&name.to_ascii_uppercase(), &upper_pattern)
        );
    }
}
