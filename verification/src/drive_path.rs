//! A path on a network drive: the drive letter and the path below the
//! drive's root.
use crate::components::{has_physical_root, parse_prefix, path_cfg};
use crate::path_ext::{has_invalid_chars, has_invalid_chars_spec, is_longer_than_wide, MAX_PATH};
use crate::text::{chars_of, char_is_ascii_alpha, is_ascii_alpha, utf16_len};
use vstd::prelude::*;

verus! {

/// Length of `A:\` in UTF-16 code units.
pub open spec fn drive_prefix_len() -> int {
    3
}

/// `suffix` pushed onto the drive root `X:\`, as `PathBuf::push` does on
/// Windows: a suffix with a prefix replaces the root, a suffix with a root
/// keeps only the drive, and a relative suffix is appended.
pub open spec fn drive_join_spec(letter: char, suffix: Seq<char>) -> Seq<char> {
    if parse_prefix(suffix) is Some {
        suffix
    } else if has_physical_root(suffix) {
        if is_ascii_alpha(letter) {
            seq![letter, ':'] + suffix
        } else {
            suffix
        }
    } else {
        seq![letter, ':', '\\'] + suffix
    }
}

/// A path below the root of a drive. The drive letter `'\0'` stands for a
/// network share that is connected without a drive.
#[derive(Debug, PartialEq, Eq)]
pub struct DrivePath<'a> {
    drive_letter: char,
    path: &'a str,
}

impl<'a> View for DrivePath<'a> {
    type V = (char, Seq<char>);

    closed spec fn view(&self) -> (char, Seq<char>) {
        (self.drive_letter, self.path@)
    }
}

impl<'a> DrivePath<'a> {
    pub fn new(drive_letter: char, path: &'a str) -> (r: DrivePath<'a>)
        ensures
            r@ == (drive_letter, path@),
    {
        DrivePath { drive_letter, path }
    }

    pub fn drive_letter(&self) -> (r: char)
        ensures
            r == self@.0,
    {
        self.drive_letter
    }

    pub fn path(&self) -> (r: &'a str)
        ensures
            r@ == self@.1,
    {
        self.path
    }

    /// Is there a drive letter?
    pub fn has_drive(&self) -> (r: bool)
        ensures
            r == (self@.0 != '\0'),
    {
        self.drive_letter != '\0'
    }

    /// Does the path below the drive hold a character that paths may not
    /// hold?
    pub fn has_invalid_chars(&self) -> (r: bool)
        ensures
            r == has_invalid_chars_spec(self@.1),
    {
        has_invalid_chars(self.path)
    }

    /// Would the path with its drive be longer than `MAX_PATH`?
    pub fn is_longer_than_win_max_path(&self) -> (r: bool)
        ensures
            r == (utf16_len(self@.1) > MAX_PATH - drive_prefix_len()),
    {
        is_longer_than_wide(self.path, MAX_PATH - 3)
    }

    /// The path with its drive: `X:\dir\file.txt`.
    pub fn to_path_buf(&self) -> (r: String)
        requires
            self@.0 != '\0',
        ensures
            r@ == drive_join_spec(self@.0, self@.1),
    {
        let cs = chars_of(self.path);
        let cfg = path_cfg(cs.as_slice());
        if cfg.prefix.is_some() {
            return self.path.to_owned();
        }
        let mut result = String::new();
        if cfg.physical_root {
            if char_is_ascii_alpha(self.drive_letter) {
                result.push(self.drive_letter);
                result.push(':');
            }
        } else {
            result.push(self.drive_letter);
            result.push(':');
            result.push('\\');
        }
        result.append(self.path);
        assert(result@ =~= drive_join_spec(self@.0, self@.1));
        result
    }
}

/// A relative path pushed onto the drive root is `X:\` followed by the path
/// unchanged, character for character.
pub proof fn law_drive_join_appends_a_relative_path(letter: char, suffix: Seq<char>)
    requires
        parse_prefix(suffix) is None,
        !has_physical_root(suffix),
    ensures
        drive_join_spec(letter, suffix).len() == suffix.len() + 3,
        drive_join_spec(letter, suffix)[0] == letter,
        drive_join_spec(letter, suffix)[1] == ':',
        drive_join_spec(letter, suffix)[2] == '\\',
        forall|i: int| 0 <= i < suffix.len() ==> #[trigger] drive_join_spec(letter, suffix)[i + 3]
            == suffix[i],
{
}

/// A path with a root (`\dir`) keeps its root below the drive: `X:`
/// followed by the path unchanged, when the letter is an ASCII letter.
pub proof fn law_drive_join_keeps_a_rooted_path(letter: char, suffix: Seq<char>)
    requires
        parse_prefix(suffix) is None,
        has_physical_root(suffix),
        is_ascii_alpha(letter),
    ensures
        drive_join_spec(letter, suffix).len() == suffix.len() + 2,
        drive_join_spec(letter, suffix)[0] == letter,
        drive_join_spec(letter, suffix)[1] == ':',
        forall|i: int| 0 <= i < suffix.len() ==> #[trigger] drive_join_spec(letter, suffix)[i + 2]
            == suffix[i],
{
}

} // verus!
