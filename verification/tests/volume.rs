use simple_path::drive_path::DrivePath;
use simple_path::net_resource::NetResource;
use simple_path::volume::{Volume, Volumes};

fn sorted_by_path(mut volumes: Vec<Volume>) -> Vec<(char, String)> {
    let mut pairs: Vec<(char, String)> = volumes
        .drain(..)
        .map(|v| (v.drive_letter(), v.path().to_string()))
        .collect();
    pairs.sort_by(|a, b| a.1.cmp(&b.1));
    pairs
}

#[test]
fn print_remote_volumes() {
    // The mapped drives and the connected network resources of the machine
    // are read outside the library; what this machine reports is merged
    // here. Without Windows networking there are none.
    let volumes = Volume::get_remote_volumes(Vec::new(), Vec::new());
    for volume in &volumes {
        println!("{volume:?}");
    }
    assert!(volumes.is_empty());
}

#[test]
fn sort() {
    assert_eq!(Volume::sort(vec![]), vec![]);
    assert_eq!(
        Volume::sort(vec![Volume::new('A', "1")]),
        vec![Volume::new('A', "1")]
    );
    assert_eq!(
        Volume::sort(vec![
            Volume::new('\0', "124"),
            Volume::new('\0', "123"),
            Volume::new('C', "12"),
            Volume::new('A', "123"),
            Volume::new('B', "12"),
        ]),
        vec![
            Volume::new('B', "12"),
            Volume::new('C', "12"),
            Volume::new('A', "123"),
            Volume::new('\0', "123"),
            Volume::new('\0', "124"),
        ]
    );
}

#[test]
fn drive_path_win32_file_namespaces() {
    let volumes = Volumes::mock();
    assert_eq!(
        volumes._drive_path(r"\\?\UNC\server\share\dir\file.txt"),
        Some(DrivePath::new('X', r"dir\file.txt"))
    );
    assert_eq!(
        volumes._drive_path(r"\\?\UNC\server2\share2\dir2\file2.txt"),
        Some(DrivePath::new('Z', r"dir2\file2.txt")),
    );
    assert_eq!(
        volumes._drive_path(r"\\?\UNC\server3\share3\dir3\file3.txt"),
        None,
    );
    assert_eq!(volumes._drive_path(r"C:\Windows\System32"), None);
    assert_eq!(
        volumes._drive_path(r"\\?\UNC\server0\share0\dir\file.txt"),
        Some(DrivePath::new('\0', r"dir\file.txt"))
    );
}

#[test]
fn drive_path_takes_the_shortest_volume() {
    // `H:` is on `\\server\share\dir`, below `X:`; `X:` is tried first.
    let volumes = Volumes::mock();
    assert_eq!(
        volumes._drive_path(r"\\?\UNC\server\share\dir"),
        Some(DrivePath::new('X', "dir"))
    );
    let only_h = Volumes::with_volumes(vec![Volume::new('H', r"\\?\UNC\server\share\dir")]);
    assert_eq!(
        only_h._drive_path(r"\\?\UNC\server\share\dir\f"),
        Some(DrivePath::new('H', "f"))
    );
}

#[test]
fn compare_orders_volumes() {
    let a = Volume::new('A', "12");
    let b = Volume::new('B', "12");
    let none = Volume::new('\0', "12");
    let long = Volume::new('A', "123");
    assert_eq!(Volume::compare(&a, &b), -1);
    assert_eq!(Volume::compare(&b, &a), 1);
    assert_eq!(Volume::compare(&none, &a), 1);
    assert_eq!(Volume::compare(&a, &none), -1);
    assert_eq!(Volume::compare(&a, &long), -1);
    assert_eq!(Volume::compare(&a, &a.clone()), 0);
    assert_eq!(Volume::compare(&Volume::new('A', "13"), &Volume::new('A', "12")), 1);
}

#[test]
fn get_remote_volumes_merges_drives_and_resources() {
    let drives = vec![Volume::new('X', r"\\?\UNC\s\a")];
    let resources = vec![
        Volume::new('\0', r"\\?\UNC\s\a"),
        Volume::new('\0', r"\\?\UNC\s\b"),
        Volume::new('Y', r"\\?\UNC\s\b"),
        Volume::new('W', r"\\?\UNC\s\b"),
    ];
    let merged = Volume::get_remote_volumes(drives, resources);
    assert_eq!(
        sorted_by_path(merged),
        vec![('X', String::from(r"\\?\UNC\s\a")), ('Y', String::from(r"\\?\UNC\s\b"))]
    );
}

#[test]
fn get_net_resources_skips_empty_remotes() {
    let resources = vec![
        NetResource { local: String::from("Z:"), remote: String::from(r"\\server2\share2\") },
        NetResource { local: String::new(), remote: String::new() },
        NetResource { local: String::new(), remote: String::from(r"\\server0\share0") },
    ];
    let volumes = Volume::get_net_resources(&resources);
    assert_eq!(
        volumes,
        vec![
            Volume::new('Z', r"\\?\UNC\server2\share2"),
            Volume::new('\0', r"\\?\UNC\server0\share0"),
        ]
    );
    assert!(volumes[0].has_drive());
    assert!(!volumes[1].has_drive());
}

#[test]
fn sort_keeps_volumes_in_the_same_place_in_order() {
    // `a\b` and `a/b` are the same path, of the same length.
    assert_eq!(
        Volume::sort(vec![
            Volume::new('X', r"a\b"),
            Volume::new('A', "1"),
            Volume::new('X', "a/b"),
        ]),
        vec![
            Volume::new('A', "1"),
            Volume::new('X', r"a\b"),
            Volume::new('X', "a/b"),
        ]
    );
    assert_eq!(
        Volume::sort(vec![Volume::new('X', "a/b"), Volume::new('X', r"a\b")]),
        vec![Volume::new('X', "a/b"), Volume::new('X', r"a\b")]
    );
}

#[test]
fn sorted_volumes_are_in_order_throughout() {
    let sorted = Volume::sort(vec![
        Volume::new('\0', "1234"),
        Volume::new('B', "12"),
        Volume::new('A', "123"),
        Volume::new('C', "1"),
    ]);
    for i in 0..sorted.len() {
        for j in i + 1..sorted.len() {
            assert!(Volume::compare(&sorted[i], &sorted[j]) <= 0);
        }
    }
}
