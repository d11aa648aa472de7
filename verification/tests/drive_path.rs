use simple_path::drive_path::DrivePath;

#[test]
fn to_path_buf() {
    assert_eq!(
        DrivePath::new('X', r"dir\file.txt").to_path_buf(),
        r"X:\dir\file.txt"
    );
}

#[test]
fn to_path_buf_abs() {
    // `strip_prefix` may leave the leading `\`.
    assert_eq!(
        DrivePath::new('X', r"\dir\file.txt").to_path_buf(),
        r"X:\dir\file.txt"
    );
}

#[test]
fn to_path_buf_keeps_a_path_with_a_prefix() {
    assert_eq!(DrivePath::new('X', r"C:\dir").to_path_buf(), r"C:\dir");
    assert_eq!(DrivePath::new('X', "").to_path_buf(), r"X:\");
}

#[test]
fn drive_path_checks() {
    let d = DrivePath::new('X', r"dir\file.txt");
    assert!(d.has_drive());
    assert!(!d.has_invalid_chars());
    assert!(!d.is_longer_than_win_max_path());
    assert_eq!(d.drive_letter(), 'X');
    assert_eq!(d.path(), r"dir\file.txt");

    let none = DrivePath::new('\0', "dir");
    assert!(!none.has_drive());
    assert!(DrivePath::new('X', r"a\b:c").has_invalid_chars());

    // `X:\` takes 3 of the 260 UTF-16 code units.
    let at_limit = "1".repeat(257);
    let over_limit = "1".repeat(258);
    assert!(!DrivePath::new('X', &at_limit).is_longer_than_win_max_path());
    assert!(DrivePath::new('X', &over_limit).is_longer_than_win_max_path());
}
