use simple_path::path_order::path_order;
use simple_path::unc_path::UncPath;

/// Are `a` and `b` the same Windows path, component by component?
fn same_path(a: &str, b: &str) -> bool {
    let a: Vec<char> = a.chars().collect();
    let b: Vec<char> = b.chars().collect();
    path_order(&a, &b) == 0
}

fn from_str(s: &str) -> UncPath<'_> {
    UncPath::try_from(s).unwrap()
}

#[test]
fn unc_path_try_from() {
    assert!(UncPath::try_from(r"\\server\share\dir").is_ok());
    assert!(UncPath::try_from(r"\\?").is_ok());

    assert!(UncPath::try_from(r"\\?\server\share\dir").is_ok());
    assert!(UncPath::try_from(r"\\?\C:\").is_ok());
    assert!(UncPath::try_from(r"\\?\").is_ok());

    assert!(UncPath::try_from(r"//server/share/dir").is_ok());
    assert!(UncPath::try_from(r"//?").is_ok());
    assert!(UncPath::try_from(r"//?/server/share/dir").is_ok());
    assert!(UncPath::try_from(r"//?/C:/").is_ok());
    assert!(UncPath::try_from(r"//?/").is_ok());

    assert!(UncPath::try_from(r"C:\a\b").is_err());
    assert!(UncPath::try_from(r"\a\b").is_err());
    assert!(UncPath::try_from(r"a\b").is_err());
}

#[test]
fn is_file_namespace() {
    assert!(from_str(r"\\?\").is_file_namespace());
    assert!(from_str(r"\\?\C:\server\share\dir").is_file_namespace());
    assert!(from_str(r"\\?\UNC\server\share\dir").is_file_namespace());

    assert!(from_str(r"//?/").is_file_namespace());
    assert!(from_str(r"//?/C:/server/share/dir").is_file_namespace());
    assert!(from_str(r"//?/UNC/server/share/dir").is_file_namespace());

    assert!(!from_str(r"\\?").is_file_namespace());
    assert!(!from_str(r"\\??\").is_file_namespace());
    assert!(!from_str(r"\\server\share").is_file_namespace());
    assert!(!from_str(r"\\.\device").is_file_namespace());
}

#[test]
fn is_file_namespace_unc() {
    assert!(from_str(r"\\?\UNC\").is_file_namespace_unc());
    assert!(from_str(r"\\?\UNC\server\share\dir").is_file_namespace_unc());
    assert!(from_str(r"\\?\unc\server\share\dir").is_file_namespace_unc());
    assert!(from_str(r"\\?\uNc\server\share\dir").is_file_namespace_unc());
    assert!(from_str(r"\\?\UnC\server\share\dir").is_file_namespace_unc());

    assert!(from_str(r"//?/UNC/server/share/dir").is_file_namespace_unc());
    assert!(from_str(r"//?/UnC/server/share/dir").is_file_namespace_unc());

    assert!(!from_str(r"\\?\UN").is_file_namespace_unc());
    assert!(!from_str(r"\\?\UNC").is_file_namespace_unc());
    assert!(!from_str(r"\\?\UNCD\").is_file_namespace_unc());
    assert!(!from_str(r"\\?\server\share\dir").is_file_namespace_unc());
}

#[test]
fn to_short_unc() {
    assert_eq!(
        from_str(r"\\?\UNC\server\share\dir").to_short_unc(),
        Some(String::from(r"\\server\share\dir"))
    );
    let short = from_str(r"//?/UNC/server/share/dir").to_short_unc().unwrap();
    assert!(same_path(&short, r"\\server\share\dir"), "{short}");
    assert_eq!(from_str(r"\\server\share\dir").to_short_unc(), None);
    assert_eq!(from_str(r"\\.\device").to_short_unc(), None);
}

#[test]
fn to_filename_space_unc() {
    assert_eq!(
        from_str(r"\\server\share\dir").to_filename_space_unc(),
        Some(String::from(r"\\?\UNC\server\share\dir"))
    );
    let long = from_str(r"//server/share/dir").to_filename_space_unc().unwrap();
    assert!(same_path(&long, r"\\?\UNC\server/share/dir"), "{long}");
    assert_eq!(
        from_str(r"\\?\UNC\server\share\dir").to_filename_space_unc(),
        None
    );
    assert_eq!(from_str(r"\\?\C:\dir").to_filename_space_unc(), None);
}

#[test]
fn unc_round_trips() {
    let short = from_str(r"\\server\share\dir");
    let long = short.to_filename_space_unc().unwrap();
    assert_eq!(long, r"\\?\UNC\server\share\dir");
    assert_eq!(from_str(&long).to_short_unc(), Some(String::from(r"\\server\share\dir")));

    let long = from_str(r"\\?\unc\server\share");
    let short = long.to_short_unc().unwrap();
    assert_eq!(short, r"\\server\share");
    assert_eq!(
        from_str(&short).to_filename_space_unc(),
        Some(String::from(r"\\?\UNC\server\share"))
    );
}

#[test]
fn unc_parts() {
    let p = from_str(r"\\?\UNC\server\share");
    assert!(UncPath::is_unc(r"//x"));
    assert!(!UncPath::is_unc(r"/x"));
    assert_eq!(p.as_path(), r"\\?\UNC\server\share");
    assert_eq!(p.as_stripped_str(), r"?\UNC\server\share");
    assert_eq!(p.as_file_namespace_stripped_str(), Some(r"UNC\server\share"));
    assert_eq!(p.as_file_namespace_unc_stripped_str(), Some(r"server\share"));
    let q = from_str(r"\\server\share");
    assert_eq!(q.as_file_namespace_stripped_str(), None);
    assert_eq!(q.as_file_namespace_unc_stripped_str(), None);
}
