use simple_path::os_str_ext;

#[test]
fn os_str_ext_is_longer_than_wide() {
    let is_longer_than_wide = |s: &str, max: u32| os_str_ext::is_longer_than_wide(s, max);
    assert!(!is_longer_than_wide("", 0));
    assert!(is_longer_than_wide("1", 0));

    assert!(!is_longer_than_wide("", 1));
    assert!(!is_longer_than_wide("1", 1));
    assert!(is_longer_than_wide("12", 1));

    let wide9 = "\u{3042}".repeat(9);
    assert!(!is_longer_than_wide(&wide9, 10));
    let wide10 = "\u{3042}".repeat(10);
    assert!(!is_longer_than_wide(&wide10, 10));
    let wide11 = "\u{3042}".repeat(11);
    assert!(is_longer_than_wide(&wide11, 10));
}

#[test]
fn is_longer_than_wide_counts_surrogate_pairs() {
    // One character outside the BMP takes two UTF-16 code units.
    let emoji5 = "\u{1F600}".repeat(5);
    assert!(!os_str_ext::is_longer_than_wide(&emoji5, 10));
    assert!(os_str_ext::is_longer_than_wide(&emoji5, 9));
}

#[test]
fn invalid_path_chars() {
    for c in ['<', '>', ':', '"', '|', '?', '*', '\0', '\u{1}', '\t', '\u{1f}'] {
        assert!(os_str_ext::is_invalid_path_char(c));
    }
    for c in ['a', '\\', '/', '.', ' ', '\u{7f}', '\u{3042}'] {
        assert!(!os_str_ext::is_invalid_path_char(c));
    }
    assert!(os_str_ext::has_invalid_path_chars("a*b"));
    assert!(!os_str_ext::has_invalid_path_chars(r"a\b/c"));
    assert!(os_str_ext::has_invalid_path_chars("a\u{1}b"));
}

#[test]
fn reserved_name() {
    assert!(os_str_ext::is_reserved_name("CON"));
    assert!(os_str_ext::is_reserved_name("con.txt"));
    assert!(os_str_ext::is_reserved_name("Com7 "));
    assert!(os_str_ext::is_reserved_name("LPT\u{b2}.log"));
    assert!(!os_str_ext::is_reserved_name("COM\u{b4}"));
    assert!(!os_str_ext::is_reserved_name("CONSOLE"));
    assert!(!os_str_ext::is_reserved_name(" CON"));
}

#[test]
fn to_wide_vec_with_nul() {
    assert_eq!(os_str_ext::to_wide_vec_with_nul("AB"), vec![0x41, 0x42, 0]);
    assert_eq!(
        os_str_ext::to_wide_vec_with_nul("\u{3042}\u{3043}"),
        vec![0x3042, 0x3043, 0]
    );
}

#[test]
fn to_wide_vec_with_nul_surrogate_pairs() {
    let expected: Vec<u16> = "a\u{1F600}\u{10FFFF}".encode_utf16().chain(Some(0)).collect();
    assert_eq!(os_str_ext::to_wide_vec_with_nul("a\u{1F600}\u{10FFFF}"), expected);
    assert_eq!(os_str_ext::to_wide_vec_with_nul(""), vec![0]);
}
