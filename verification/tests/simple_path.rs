use simple_path::simple_path::simplified_by_dunce;
use simple_path::volume::Volume;
use simple_path::SimplePath;

#[test]
fn simplify_drive() {
    let mut simple = SimplePath::mock();
    assert_eq!(simple.simplify(r"C:\foo"), None);
    simple.allow_unknown_unc = true;
    assert_eq!(simple.simplify(r"C:\foo"), None);
}

#[test]
fn simplify_drive_unc() {
    let mut simple = SimplePath::mock();
    let path = r"\\?\UNC\server\share\foo";
    let path2 = r"\\?\UNC\server2\share2\foo2";
    assert_eq!(simple.simplify(path), Some(String::from(r"\\server\share\foo")));
    assert_eq!(simple.simplify(path2), Some(String::from(r"\\server2\share2\foo2")));

    simple.map_to_drive = true;
    assert_eq!(simple.simplify(path), Some(String::from(r"X:\foo")));
    assert_eq!(simple.simplify(path2), Some(String::from(r"Z:\foo2")));
}

#[test]
fn simplify_dunce_skip() {
    let simple = SimplePath {
        skip_dunce: true,
        ..Default::default()
    };
    assert_eq!(simple.simplify(r"\\?\C:\foo"), None);
}

#[test]
fn simplify_unmapped_connected_share() {
    let mut simple = SimplePath::mock();
    let path = r"\\?\UNC\server0\share0\foo";
    assert_eq!(simple.simplify(path), Some(String::from(r"\\server0\share0\foo")));

    // Even with map_to_drive = true, it should simplify to the UNC path,
    // because the drive letter is '\0'.
    simple.map_to_drive = true;
    assert_eq!(simple.simplify(path), Some(String::from(r"\\server0\share0\foo")));
}

#[test]
fn simplify_unknown_unc() {
    let mut simple = SimplePath::mock();
    let unknown = r"\\?\UNC\server\unknown\foo";
    let mapped = r"\\?\UNC\server\share\foo";
    assert_eq!(simple.simplify(unknown), None);

    // `unknown` should be simplified if `allow_unknown_unc`.
    simple.allow_unknown_unc = true;
    assert_eq!(simple.simplify(unknown), Some(String::from(r"\\server\unknown\foo")));
    assert_eq!(simple.simplify(mapped), Some(String::from(r"\\server\share\foo")));

    // `map_to_drive` should still be in effect.
    simple.map_to_drive = true;
    assert_eq!(simple.simplify(mapped), Some(String::from(r"X:\foo")));

    // `allow_unknown_unc` should simplify only for "`\\?\UNC\`".
    assert_eq!(simple.simplify(r"\\.\COM1:"), None);
    simple.skip_dunce = true;
    assert_eq!(simple.simplify(r"\\?\C:\foo"), None);
}

#[test]
fn simplify_only_long_unc_paths() {
    let simple = SimplePath {
        allow_unknown_unc: true,
        skip_dunce: true,
        ..Default::default()
    };
    assert_eq!(simple.simplify(r"\\server\share\foo"), None);
    assert_eq!(simple.simplify(r"\\?\server\share\foo"), None);
    assert_eq!(simple.simplify(r"\\?\UNCX\server\share"), None);
    assert_eq!(simple.simplify(r"\\?\unc\server\share"), Some(String::from(r"\\server\share")));
}

#[test]
fn simplify_refuses_reserved_names_and_invalid_chars() {
    let mut simple = SimplePath {
        allow_unknown_unc: true,
        skip_dunce: true,
        ..Default::default()
    };
    assert_eq!(simple.simplify(r"\\?\UNC\server\share\CON"), None);
    assert_eq!(simple.simplify(r"\\?\UNC\server\share\com1.txt"), None);
    assert_eq!(simple.simplify(r"\\?\UNC\server\share\a:b"), None);
    assert_eq!(simple.simplify(r"\\?\UNC\server\share\a*b"), None);

    simple.volumes = SimplePath::mock().volumes;
    simple.map_to_drive = true;
    assert_eq!(simple.simplify(r"\\?\UNC\server\share\NUL"), None);
    assert_eq!(simple.simplify(r"\\?\UNC\server\share\a|b"), None);
}

#[test]
fn simplify_disallow_long() {
    let mut simple = SimplePath {
        allow_unknown_unc: true,
        skip_dunce: true,
        ..Default::default()
    };
    // `\\server\share\` is 15 characters; 245 more make 260.
    let at_limit = String::from(r"\\?\UNC\server\share\") + &"1".repeat(245);
    let over_limit = String::from(r"\\?\UNC\server\share\") + &"1".repeat(246);
    assert!(simple.simplify(&over_limit).is_some());
    simple.disallow_long = true;
    let short = simple.simplify(&at_limit).unwrap();
    assert_eq!(short.encode_utf16().count(), 260);
    assert_eq!(simple.simplify(&over_limit), None);

    // `X:\` is 3 characters; 257 more make 260.
    let mut drive = SimplePath::mock();
    drive.map_to_drive = true;
    drive.disallow_long = true;
    let at_limit = String::from(r"\\?\UNC\server\share\") + &"1".repeat(257);
    let over_limit = String::from(r"\\?\UNC\server\share\") + &"1".repeat(258);
    let on_drive = drive.simplify(&at_limit).unwrap();
    assert!(on_drive.starts_with(r"X:\"));
    assert_eq!(on_drive.encode_utf16().count(), 260);
    // Too long for the drive, and too long for the short UNC path too.
    assert_eq!(drive.simplify(&over_limit), None);
}

#[test]
fn simplify_after_refresh() {
    let mut simple = SimplePath::default();
    let path = r"\\?\UNC\nas\media\movies";
    assert_eq!(simple.simplify(path), None);
    simple.refresh(vec![Volume::new('M', r"\\?\UNC\nas\media")]);
    assert_eq!(simple.simplify(path), Some(String::from(r"\\nas\media\movies")));
    simple.map_to_drive = true;
    assert_eq!(simple.simplify(path), Some(String::from(r"M:\movies")));
    assert_eq!(simple.simplify_long_unc(path), Some(String::from(r"M:\movies")));
    let drive = simple.drive_path(path).unwrap();
    assert_eq!(drive.drive_letter(), 'M');
    assert_eq!(drive.path(), "movies");
}

#[test]
fn simplified_by_dunce_strips_the_prefix() {
    let path = r"\\?\C:\foo";
    assert_eq!(simplified_by_dunce(path, path.len() - 4), Some(String::from(r"C:\foo")));
    assert_eq!(simplified_by_dunce(path, path.len()), None);
    assert_eq!(simplified_by_dunce(r"C:\foo", 0), None);
}

#[test]
fn strip_prefix_leaves_no_leading_separator() {
    let path = r"\\?\UNC\server\share\dir";
    assert_eq!(SimplePath::strip_prefix(path, r"\\?\UNC\server\share"), Ok("dir"));
    assert_eq!(SimplePath::strip_prefix(r"C:\dir\f", r"C:\dir"), Ok("f"));
    assert!(SimplePath::strip_prefix(r"C:\dir\f", r"D:\dir").is_err());
}

#[test]
fn clone_keeps_options_and_volumes() {
    let mut simple = SimplePath::mock();
    simple.map_to_drive = true;
    let copy = simple.clone();
    assert!(copy.map_to_drive);
    assert_eq!(
        copy.simplify(r"\\?\UNC\server2\share2\x"),
        Some(String::from(r"Z:\x"))
    );
    let volumes = copy.volumes.as_ref().unwrap().to_vec();
    assert_eq!(volumes.len(), 4);
    assert_eq!(volumes[0], Volume::new('X', r"\\?\UNC\server\share"));
    assert_eq!(volumes[3], Volume::new('H', r"\\?\UNC\server\share\dir"));
}

#[test]
fn dunce_leaves_other_prefixes() {
    // Whatever the platform, `dunce` strips only `\\?\X:` paths; the UNC
    // branch does not apply to these.
    let simple = SimplePath::default();
    assert_eq!(simple.simplify(r"\\?\UNC\server\unknown\foo"), None);
    assert_eq!(simple.simplify(r"\\?\Volume{1}\foo"), None);
    assert_eq!(simple.simplify(r"\\.\COM1"), None);
}

#[test]
fn reads_volumes_only_for_long_unc_lookups() {
    let mut simple = SimplePath::default();
    assert!(simple.reads_volumes(r"\\?\UNC\server\share\x"));
    assert!(simple.reads_volumes(r"\\?\unc\server\share\x"));
    assert!(!simple.reads_volumes(r"\\?\C:\x"));
    assert!(!simple.reads_volumes(r"\\server\share\x"));
    simple.allow_unknown_unc = true;
    assert!(!simple.reads_volumes(r"\\?\UNC\server\share\x"));
    simple.map_to_drive = true;
    assert!(simple.reads_volumes(r"\\?\UNC\server\share\x"));
}
