//! The calls into outside crates and into parts of std that vstd does not
//! specify, each behind a contract that the documentation or source supports.
use crate::components::{components, rank_normal};
use crate::long_unc::long_prefix;
use crate::os_str_ext::{invalid_path_char, reserved_stem};
use crate::text::{is_ascii_alpha, utf16_len};
use vstd::prelude::*;

verus! {

/// `String::push` appends one character.
pub assume_specification[ String::push ](s: &mut String, ch: char)
    ensures
        final(s)@ == old(s)@.push(ch),
;

/// `AUX`, `NUL`, `PRN`, `CON`, `COM1` to `COM9` and `LPT1` to `LPT9`, in any
/// ASCII case: the file names that `dunce` refuses as reserved.
pub open spec fn dunce_reserved_word(t: Seq<char>) -> bool {
    reserved_stem(t) && (t.len() == 3 || ('1' <= t[3] && t[3] <= '9'))
}

/// What holds of a path that `dunce` strips of its `\\?\` prefix: it is a
/// `\\?\X:` path (an ASCII drive letter); after the drive no character is
/// invalid in a file name (`/` and the control characters included); no file
/// name ends in a space or `.` (so no `.` or `..` component either); no file
/// name is a reserved word as it stands; and the whole path takes at most 260
/// UTF-16 code units.
pub open spec fn dunce_may_strip(p: Seq<char>) -> bool {
    &&& p.len() >= 6
    &&& p.take(4) == long_prefix()
    &&& is_ascii_alpha(p[4])
    &&& p[5] == ':'
    &&& p.len() == 6 || p[6] == '\\'
    &&& forall|i: int| 6 <= i < p.len() ==> !invalid_path_char(#[trigger] p[i]) && p[i] != '/'
    &&& forall|i: int|
        6 <= i < p.len() && #[trigger] p[i] != '\\' && (i + 1 == p.len() || p[i + 1] == '\\')
            ==> p[i] != ' ' && p[i] != '.'
    &&& forall|i: int|
        0 <= i < components(p).len() && #[trigger] components(p)[i].rank == rank_normal()
            ==> !dunce_reserved_word(components(p)[i].first)
    &&& utf16_len(p) <= 260
}

/// `dunce::simplified(Path::new(path))`, given by the length in UTF-8
/// bytes of the path that it returns. `dunce` returns either the path itself
/// or the path without its first four bytes (`path.to_str().and_then(|s|
/// s.get(4..))`), and the latter only when `is_safe_to_strip_unc` accepts the
/// path: a verbatim-disk prefix, only root and valid, non-reserved file names
/// as components, and at most 260 UTF-16 code units; `dunce_may_strip` states
/// what follows from those checks. On other platforms than Windows it never
/// strips. Which of the two it returns on a path that passes the checks is
/// left unsaid, as it depends on the platform, and the checks are stated
/// only as far as `dunce_may_strip` goes: its length limit of 255 units per
/// file name, and its reading of `con.txt`-like names by their stem, are not.
#[verifier::external_body]
pub(crate) fn dunce_simplified_len(path: &str) -> (r: usize)
    ensures
        r == vstd::utf8::encode_utf8(path@).len() || (dunce_may_strip(path@) && r
            == vstd::utf8::encode_utf8(path@).len() - 4),
{
    dunce::simplified(std::path::Path::new(path)).as_os_str().len()
}

} // verus!
