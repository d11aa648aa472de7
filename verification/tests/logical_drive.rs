use simple_path::logical_drive::{LogicalDrive, LogicalDriveIter};

#[test]
fn iterator() {
    let vec_from_mask = |mask: u32| -> Vec<char> {
        let mut iter = LogicalDriveIter::with_mask(mask);
        let mut letters = Vec::new();
        while let Some(drive) = iter.next() {
            letters.push(drive.drive_letter);
        }
        letters
    };
    assert_eq!(vec_from_mask(0b0), Vec::<char>::new());
    assert_eq!(vec_from_mask(0b1), vec!['A']);
    assert_eq!(vec_from_mask(0b10), vec!['B']);
    assert_eq!(vec_from_mask(0b11), vec!['A', 'B']);
    assert_eq!(vec_from_mask(0b101), vec!['A', 'C']);
    assert_eq!(vec_from_mask(0b1010), vec!['B', 'D']);
    assert_eq!(vec_from_mask(0b1100), vec!['C', 'D']);
}

#[test]
fn iterator_all_bits_and_after_the_end() {
    let mut iter = LogicalDriveIter::with_mask(u32::MAX);
    let mut letters = Vec::new();
    while let Some(drive) = iter.next() {
        letters.push(drive.drive_letter);
    }
    assert_eq!(letters.len(), 32);
    assert_eq!(letters[0], 'A');
    assert_eq!(letters[25], 'Z');
    assert_eq!(letters[31], '`');
    assert!(iter.next().is_none());
    assert!(iter.next().is_none());

    let mut high = LogicalDriveIter::with_mask(1 << 31);
    assert_eq!(high.next().map(|d| d.drive_letter), Some('`'));
    assert!(high.next().is_none());
}

#[test]
fn logical_drive_path() {
    let drive = LogicalDrive::new('Z');
    assert_eq!(drive.drive_letter, 'Z');
    assert_eq!(drive.path(), r"Z:\");

    let mut iter = LogicalDriveIter::with_mask(0b100);
    let c = iter.next().unwrap();
    assert_eq!(c.path(), r"C:\");
}
