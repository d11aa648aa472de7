use simple_path::long_unc::LongUnc;
use simple_path::path_ext::MAX_PATH;

fn from_str(s: &str) -> LongUnc<'_> {
    LongUnc::try_from(s).unwrap()
}

#[test]
fn long_unc_try_from() {
    assert!(LongUnc::try_from(r"\\?\server\share\dir").is_ok());
    assert!(LongUnc::try_from(r"\\?\C:\").is_ok());
    assert!(LongUnc::try_from(r"\\?\").is_ok());

    assert!(LongUnc::try_from(r"\\?").is_err());
    assert!(LongUnc::try_from(r"\\server\share\dir").is_err());
    assert!(LongUnc::try_from(r"\a\b").is_err());
}

#[test]
fn is_sub_prefix_unc() {
    assert!(from_str(r"\\?\UNC\").is_sub_prefix_unc());
    assert!(from_str(r"\\?\UNC\server\share\dir").is_sub_prefix_unc());
    assert!(from_str(r"\\?\unc\server\share\dir").is_sub_prefix_unc());
    assert!(from_str(r"\\?\uNc\server\share\dir").is_sub_prefix_unc());
    assert!(from_str(r"\\?\UnC\server\share\dir").is_sub_prefix_unc());

    assert!(!from_str(r"\\?\UN").is_sub_prefix_unc());
    assert!(!from_str(r"\\?\UNC").is_sub_prefix_unc());
    assert!(!from_str(r"\\?\UNCD\").is_sub_prefix_unc());
    assert!(!from_str(r"\\?\server\share\dir").is_sub_prefix_unc());
}

#[test]
fn to_short_unc_opt() {
    assert_eq!(from_str(r"\\?\C:\foo").to_short_unc_opt(false), None);
    assert_eq!(
        from_str(r"\\?\UNC\server\share\dir").to_short_unc_opt(false),
        Some(String::from(r"\\server\share\dir"))
    );
}

#[test]
fn to_short_unc_opt_long() {
    const PREFIX: &str = r"\\?\UNC\";
    const SHORT_PREFIX: &str = r"\\";
    const SERVER_SHARE: &str = r"server\share\";
    const PATH_MAX: usize = MAX_PATH as usize - SHORT_PREFIX.len() - SERVER_SHARE.len();

    for (suffix, wide_len) in [
        ("1".repeat(PATH_MAX), MAX_PATH),
        ("1".repeat(PATH_MAX + 1), MAX_PATH + 1),
        ("\u{3042}".repeat(PATH_MAX), MAX_PATH),
        ("\u{3042}".repeat(PATH_MAX + 1), MAX_PATH + 1),
    ] {
        let suffix = SERVER_SHARE.to_string() + &suffix;
        let long = PREFIX.to_string() + &suffix;
        let short = SHORT_PREFIX.to_string() + &suffix;
        assert_eq!(short.encode_utf16().count(), wide_len as usize);
        if wide_len <= MAX_PATH {
            assert_eq!(from_str(&long).to_short_unc_opt(false), Some(short.clone()));
            assert_eq!(from_str(&long).to_short_unc_opt(true), Some(short));
        } else {
            assert_eq!(from_str(&long).to_short_unc_opt(false), Some(short));
            assert_eq!(from_str(&long).to_short_unc_opt(true), None);
        }
    }
}

#[test]
fn long_unc_parts() {
    let long = from_str(r"\\?\UNC\server\share\dir");
    assert_eq!(long.as_stripped_str(), r"UNC\server\share\dir");
    assert_eq!(long.to_short_unc(), r"\\server\share\dir");
    assert!(!long.has_invalid_chars());
    assert!(!long.is_short_unc_longer_than_max_path());
    assert!(from_str(r"\\?\UNC\server\share\a|b").has_invalid_chars());
    assert!(long.is_stripped_longer_than_wide(19));
    assert!(!long.is_stripped_longer_than_wide(20));
}
