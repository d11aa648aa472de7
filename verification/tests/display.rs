use simple_path::SimplePath;

#[test]
fn display_not_simplified() {
    let simple = SimplePath::default();
    let path = "foo";
    assert_eq!(simple.display(path).to_string(), "foo");
}

#[test]
fn display_drive_unc() {
    let mut simple = SimplePath::mock();
    let path = r"\\?\UNC\server\share\foo";
    assert_eq!(simple.display(path).to_string(), r"\\server\share\foo");

    simple.map_to_drive = true;
    assert_eq!(simple.display(path).to_string(), r"X:\foo");
}

#[test]
fn display_unknown_share_as_is() {
    let simple = SimplePath::mock();
    let path = r"\\?\UNC\server\unknown\foo";
    assert_eq!(simple.display(path).to_string(), path);
}
