use simple_path::net_resource::{EnumCursor, EnumResult, FetchStep, NetResource};

#[test]
fn normalize_remote() {
    let test_cases = [
        (r"\\server\share", r"\\?\UNC\server\share"),
        (r"\\server\share\", r"\\?\UNC\server\share"),
        (r"\\server\share\\", r"\\?\UNC\server\share"),
        (r"C:\foo", r"C:\foo"),
        (r"C:\foo\", r"C:\foo"),
    ];
    for (input, expected) in test_cases {
        let res = NetResource::normalize_remote(input);
        assert_eq!(res, expected, "input: {}", input);
    }
}

#[test]
fn normalize_remote_edges() {
    assert_eq!(NetResource::normalize_remote(""), "");
    assert_eq!(NetResource::normalize_remote(r"\\\"), "");
    assert_eq!(NetResource::normalize_remote(r"\\"), "");
    assert_eq!(NetResource::normalize_remote(r"\\s"), r"\\?\UNC\s");
}

#[test]
fn local_drive_letter_and_remote() {
    let resource = NetResource {
        local: String::from("Z:"),
        remote: String::from(r"\\server\share\"),
    };
    assert_eq!(resource.local_drive_letter(), 'Z');
    assert_eq!(resource.remote_canonicalized(), r"\\?\UNC\server\share");

    let unmapped = NetResource {
        local: String::new(),
        remote: String::from(r"\\server0\share0"),
    };
    assert_eq!(unmapped.local_drive_letter(), '\0');
    let odd = NetResource {
        local: String::from("Z:x"),
        remote: String::new(),
    };
    assert_eq!(odd.local_drive_letter(), '\0');
}

#[test]
fn enum_cursor_hands_out_batches() {
    let mut cursor = EnumCursor::new();
    assert!(cursor.needs_fetch());
    assert_eq!(cursor.on_fetch(EnumResult::MoreData(32768)), FetchStep::Grow(32768));
    assert!(cursor.needs_fetch());
    assert_eq!(cursor.on_fetch(EnumResult::Entries(2)), FetchStep::Ready);
    assert!(!cursor.needs_fetch());
    assert_eq!(cursor.next_index(), 0);
    assert_eq!(cursor.next_index(), 1);
    assert!(cursor.needs_fetch());
    assert_eq!(cursor.on_fetch(EnumResult::Entries(1)), FetchStep::Ready);
    assert_eq!(cursor.next_index(), 0);
    assert!(cursor.needs_fetch());
    assert_eq!(cursor.on_fetch(EnumResult::Failed(5)), FetchStep::Failed(5));
    assert_eq!(cursor.on_fetch(EnumResult::NoMoreItems), FetchStep::Finished);
    assert!(cursor.needs_fetch());
}
