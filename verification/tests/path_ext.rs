use simple_path::path_ext;
use std::path::Path;

#[test]
fn has_invalid_chars() {
    assert!(path_ext::has_invalid_chars(":"));
    assert!(path_ext::has_invalid_chars(r"a\:"));
    assert!(path_ext::has_invalid_chars(r"a\>"));
    assert!(path_ext::has_invalid_chars(r"a\dir:dir"));
    assert!(path_ext::has_invalid_chars(r"dir:\a"));
    assert!(path_ext::has_invalid_chars(r"C:\dir:"));
    assert!(path_ext::has_invalid_chars(r"\\server:\share\dir"));
    assert!(path_ext::has_invalid_chars(r"\\server\share:\dir"));
    assert!(path_ext::has_invalid_chars(r"\\server\share\dir:"));
    assert!(path_ext::has_invalid_chars(r"\\?\UNC\server:\share\dir"));
    assert!(path_ext::has_invalid_chars(r"\\?\UNC\server\share:\dir"));
    assert!(path_ext::has_invalid_chars(r"\\?\UNC\server\share\dir:"));
    assert!(path_ext::has_invalid_chars(r"\\?\UNC\foo:"));
    assert!(path_ext::has_invalid_chars(r"\\?\UNC\foo>"));
    assert!(path_ext::has_invalid_chars(r"\\?\C:\foo:"));
    assert!(path_ext::has_invalid_chars(r"\\?\:\foo"));
    assert!(path_ext::has_invalid_chars(r"\\?\>\foo"));

    assert!(!path_ext::has_invalid_chars(""));
    assert!(!path_ext::has_invalid_chars("a"));
    assert!(!path_ext::has_invalid_chars(r"a\b"));
    assert!(!path_ext::has_invalid_chars(r"\a\b"));
    assert!(!path_ext::has_invalid_chars(r"C:\"));
    assert!(!path_ext::has_invalid_chars(r"C:\dir"));
    assert!(!path_ext::has_invalid_chars(r"\\server"));
    assert!(!path_ext::has_invalid_chars(r"\\server\share"));
    assert!(!path_ext::has_invalid_chars(r"\\server\share\dir"));
    assert!(!path_ext::has_invalid_chars(r"\\?\"));
    assert!(!path_ext::has_invalid_chars(r"\\?\foo"));
    assert!(!path_ext::has_invalid_chars(r"\\?\foo\bar"));
    assert!(!path_ext::has_invalid_chars(r"\\?\UNC\server\share\dir"));
    assert!(!path_ext::has_invalid_chars(r"\\?\UNC\foo"));
    assert!(!path_ext::has_invalid_chars(r"\\?\C:\"));
    assert!(!path_ext::has_invalid_chars(r"\\?\C:\dir"));
    assert!(!path_ext::has_invalid_chars(r"\\.\COM42"));
}

#[test]
fn has_reserved_names() {
    assert!(path_ext::has_reserved_names("CON"));
    assert!(path_ext::has_reserved_names("con"));
    assert!(path_ext::has_reserved_names("PRN.txt"));
    assert!(path_ext::has_reserved_names("aux.tar.gz"));
    assert!(path_ext::has_reserved_names("NUL"));
    assert!(path_ext::has_reserved_names("COM1"));
    assert!(path_ext::has_reserved_names("com9"));
    assert!(path_ext::has_reserved_names("LPT1"));
    assert!(path_ext::has_reserved_names("lpt9"));
    assert!(path_ext::has_reserved_names("COM¹"));
    assert!(path_ext::has_reserved_names("lpt³"));
    assert!(path_ext::has_reserved_names("con "));
    assert!(path_ext::has_reserved_names("con."));
    assert!(path_ext::has_reserved_names("con.txt. . "));
    assert!(path_ext::has_reserved_names(r"C:\foo\CON.txt"));
    assert!(path_ext::has_reserved_names(r"\\server\share\COM1"));

    assert!(!path_ext::has_reserved_names(""));
    assert!(!path_ext::has_reserved_names("acon"));
    assert!(!path_ext::has_reserved_names("conb"));
    assert!(!path_ext::has_reserved_names("COM0"));
    assert!(!path_ext::has_reserved_names("LPT0"));
    assert!(!path_ext::has_reserved_names(".con"));
    assert!(!path_ext::has_reserved_names("con1"));
}

#[test]
fn path_ext_is_longer_than_wide() {
    assert!(!path_ext::is_longer_than_wide("", 10));

    assert!(!path_ext::is_longer_than_wide(&"1".repeat(9), 10));
    assert!(!path_ext::is_longer_than_wide(&"1".repeat(10), 10));
    assert!(path_ext::is_longer_than_wide(&"1".repeat(11), 10));

    assert!(!path_ext::is_longer_than_wide(&"\u{3042}".repeat(9), 10));
    assert!(!path_ext::is_longer_than_wide(&"\u{3042}".repeat(10), 10));
    assert!(path_ext::is_longer_than_wide(&"\u{3042}".repeat(11), 10));
}

#[test]
fn strip_prefix_fix() {
    let path = r"\\?\UNC\server\share\dir";
    let base = r"\\?\UNC\server\share";
    // `strip_prefix` may leave the leading `\` for UNC paths.
    assert_eq!(path_ext::strip_prefix(path, base), Ok(r"\dir"));
    assert_eq!(path_ext::strip_prefix_fix(path, base), Ok("dir"));
}

#[test]
fn trim_leading_separator() {
    assert_eq!(Path::new(path_ext::trim_leading_separator("/")), Path::new(""));
    assert_eq!(Path::new(path_ext::trim_leading_separator("")), Path::new(""));
    assert_eq!(Path::new(path_ext::trim_leading_separator("/a")), Path::new("a"));
    assert_eq!(Path::new(path_ext::trim_leading_separator("a")), Path::new("a"));
    assert_eq!(Path::new(path_ext::trim_leading_separator("/a/b")), Path::new("a/b"));
    assert_eq!(Path::new(path_ext::trim_leading_separator("a/b")), Path::new("a/b"));
}

#[test]
fn trim_trailing_separator() {
    assert_eq!(Path::new(path_ext::trim_trailing_separator("/")), Path::new(""));
    assert_eq!(Path::new(path_ext::trim_trailing_separator("")), Path::new(""));
    assert_eq!(Path::new(path_ext::trim_trailing_separator("a/")), Path::new("a"));
    assert_eq!(Path::new(path_ext::trim_trailing_separator("a")), Path::new("a"));
    assert_eq!(Path::new(path_ext::trim_trailing_separator("a//")), Path::new("a"));
    assert_eq!(Path::new(path_ext::trim_trailing_separator("a/b/")), Path::new("a/b"));
    assert_eq!(Path::new(path_ext::trim_trailing_separator("a/b")), Path::new("a/b"));
}

#[test]
fn strip_prefix_edges() {
    assert!(path_ext::strip_prefix(r"C:\a", r"D:\").is_err());
    assert!(path_ext::strip_prefix_fix(r"C:\a", r"D:\").is_err());
    assert!(path_ext::strip_prefix(r"C:\ab", r"C:\a").is_err());
    assert_eq!(path_ext::strip_prefix(r"C:\a\b", r"C:\a"), Ok("b"));
    assert_eq!(path_ext::strip_prefix(r"C:\a", r"C:\a"), Ok(""));
    assert_eq!(path_ext::strip_prefix(r"a\b", ""), Ok(r"a\b"));
    assert_eq!(path_ext::strip_prefix_fix(r"\\?\UNC\server\share", r"\\?\UNC\server\share"), Ok(""));
}

#[test]
fn is_longer_than_win_max_path_at_the_limit() {
    assert!(!path_ext::is_longer_than_win_max_path(&"1".repeat(260)));
    assert!(path_ext::is_longer_than_win_max_path(&"1".repeat(261)));
    assert!(!path_ext::is_longer_than_win_max_path(&"\u{3042}".repeat(260)));
    assert!(path_ext::is_longer_than_win_max_path(&"\u{1F600}".repeat(131)));
}

#[test]
fn verbatim_needs_backslashes() {
    // `\\?\a\b` is verbatim, with the prefix `a`; with `/` in its first
    // bytes it is the UNC path of the server `?` instead.
    assert!(!path_ext::has_invalid_chars(r"\\?\a\b"));
    assert!(path_ext::has_invalid_chars(r"\\?\a/b"));
    assert!(path_ext::has_invalid_chars(r"\\?\UNC/server\share"));
}

#[test]
fn control_characters_are_invalid() {
    assert!(path_ext::has_invalid_chars("a\u{0}b"));
    assert!(path_ext::has_invalid_chars("C:\\dir\\a\u{1f}"));
    assert!(path_ext::has_invalid_chars("\\\\server\\sh\u{7}are\\dir"));
    assert!(!path_ext::has_invalid_chars("C:\\dir\\a b"));
}
