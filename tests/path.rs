use tail::path::{normalize_path, prepare_path};

#[test]
fn blank_path_is_refused() {
    assert_eq!(normalize_path("", true), None);
    assert_eq!(normalize_path(" \t\u{3000}", true), None);
    assert_eq!(prepare_path("   "), None);
}

#[test]
fn relative_path_gets_dot_slash() {
    assert_eq!(normalize_path("foo.txt", true), Some("./foo.txt".to_string()));
    assert_eq!(normalize_path(" //\\.foo/bar", true), Some("./foo/bar".to_string()));
}

#[test]
fn dotted_or_absolute_path_is_kept() {
    assert_eq!(normalize_path("../x", true), Some("../x".to_string()));
    assert_eq!(normalize_path("./x", true), Some("./x".to_string()));
    assert_eq!(normalize_path("/var/log/x", false), Some("/var/log/x".to_string()));
}

#[test]
fn platform_decides_relative() {
    assert_eq!(prepare_path("log.txt"), Some("./log.txt".to_string()));
    assert_eq!(prepare_path("/tmp/log.txt"), Some("/tmp/log.txt".to_string()));
}

#[test]
fn only_unicode_white_space_counts_as_blank() {
    assert_eq!(normalize_path("\u{85}\u{a0}\u{2028}", true), None);
    assert_eq!(normalize_path("\u{200b}", true), Some("./\u{200b}".to_string()));
}

#[test]
fn text_without_separators_is_relative_everywhere() {
    assert_eq!(prepare_path("notes"), Some("./notes".to_string()));
    assert_eq!(prepare_path(" .hidden"), Some("./hidden".to_string()));
}
