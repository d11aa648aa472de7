//! Paths prefixed by `\\?\`, the [Win32 File Namespace], also called
//! extended-length paths.
//!
//! [Win32 File Namespace]: https://learn.microsoft.com/en-us/windows/win32/fileio/naming-a-file#win32-file-namespaces
use crate::os_str_ext::{has_invalid_path_chars, has_invalid_path_chars_spec, is_longer_than_wide};
use crate::path_ext::MAX_PATH;
use crate::text::{
    char_eq_ignore_ascii_case, chars_of, eq_ignore_ascii_case, lemma_utf16_len_append, utf16_len,
};
use crate::unc_path::two_backslashes;
use vstd::prelude::*;

verus! {

/// `\\?\`, exactly.
pub open spec fn long_prefix() -> Seq<char> {
    seq!['\\', '\\', '?', '\\']
}

/// `p` without its `\\?\` prefix, if it has one.
pub open spec fn long_unc_stripped(p: Seq<char>) -> Option<Seq<char>> {
    if p.len() >= 4 && p.take(4) == long_prefix() {
        Some(p.skip(4))
    } else {
        None
    }
}

/// `s` starts with `UNC\` (`UNC` in any case).
pub open spec fn is_sub_prefix_unc_spec(s: Seq<char>) -> bool {
    s.len() >= 4 && eq_ignore_ascii_case(s[0], 'U') && eq_ignore_ascii_case(s[1], 'N')
        && eq_ignore_ascii_case(s[2], 'C') && eq_ignore_ascii_case(s[3], '\\')
}

/// How many more UTF-16 code units `UNC\` takes than `\\`.
pub open spec fn short_unc_len_sub() -> int {
    2
}

/// The short UNC path for the stripped `UNC\server\share`: `\\server\share`.
pub open spec fn short_unc_of(s: Seq<char>) -> Seq<char> {
    two_backslashes() + s.skip(4)
}

/// `to_short_unc_opt`: the short UNC path, unless the path is not a UNC one
/// or, when long paths are disallowed, the short path would be longer than
/// `MAX_PATH`.
pub open spec fn to_short_unc_opt_spec(s: Seq<char>, disallow_long: bool) -> Option<Seq<char>> {
    if !is_sub_prefix_unc_spec(s) {
        None
    } else if disallow_long && utf16_len(s) > MAX_PATH + short_unc_len_sub() {
        None
    } else {
        Some(short_unc_of(s))
    }
}

/// A path prefixed by `\\?\`, held without that prefix.
pub struct LongUnc<'a> {
    stripped: &'a str,
}

impl<'a> View for LongUnc<'a> {
    type V = Seq<char>;

    /// The path without its `\\?\` prefix.
    closed spec fn view(&self) -> Seq<char> {
        self.stripped@
    }
}

impl<'a> LongUnc<'a> {
    /// `path` as a long path, if it starts with `\\?\`.
    pub fn try_from(path: &'a str) -> (r: Result<LongUnc<'a>, ()>)
        ensures
            match r {
                Ok(u) => long_unc_stripped(path@) == Some(u@),
                Err(_) => long_unc_stripped(path@) is None,
            },
    {
        let cs = chars_of(path);
        if cs.len() >= 4 && cs[0] == '\\' && cs[1] == '\\' && cs[2] == '?' && cs[3] == '\\' {
            assert(path@.take(4) =~= long_prefix());
            let n = path.unicode_len();
            Ok(LongUnc { stripped: path.substring_char(4, n) })
        } else {
            assert(path@.len() >= 4 ==> path@.take(4)[0] == path@[0] && path@.take(4)[1]
                == path@[1] && path@.take(4)[2] == path@[2] && path@.take(4)[3] == path@[3]);
            Err(())
        }
    }

    /// The path without its `\\?\` prefix.
    pub fn as_stripped_str(&self) -> (r: &'a str)
        ensures
            r@ == self@,
    {
        self.stripped
    }

    /// Does it start with `\\?\UNC\`?
    pub fn is_sub_prefix_unc(&self) -> (r: bool)
        ensures
            r == is_sub_prefix_unc_spec(self@),
    {
        let cs = chars_of(self.stripped);
        cs.len() >= 4 && char_eq_ignore_ascii_case(cs[0], 'U') && char_eq_ignore_ascii_case(
            cs[1],
            'N',
        ) && char_eq_ignore_ascii_case(cs[2], 'C') && char_eq_ignore_ascii_case(cs[3], '\\')
    }

    /// Does the path after `\\?\` take more than `max` UTF-16 code units?
    pub fn is_stripped_longer_than_wide(&self, max: u32) -> (r: bool)
        ensures
            r == (utf16_len(self@) > max),
    {
        is_longer_than_wide(self.stripped, max)
    }

    /// Would the short UNC path be longer than `MAX_PATH`?
    pub fn is_short_unc_longer_than_max_path(&self) -> (r: bool)
        ensures
            r == (utf16_len(self@) > MAX_PATH + short_unc_len_sub()),
    {
        self.is_stripped_longer_than_wide(MAX_PATH + 2)
    }

    /// Does the path after `\\?\` hold a character that paths may not hold?
    pub fn has_invalid_chars(&self) -> (r: bool)
        ensures
            r == has_invalid_path_chars_spec(self@),
    {
        has_invalid_path_chars(self.stripped)
    }

    /// `\\?\UNC\server\share` as `\\server\share`.
    pub fn to_short_unc(&self) -> (r: String)
        requires
            is_sub_prefix_unc_spec(self@),
        ensures
            r@ == short_unc_of(self@),
    {
        let n = self.stripped.unicode_len();
        let rest = self.stripped.substring_char(4, n);
        let mut result = String::new();
        result.push('\\');
        result.push('\\');
        result.append(rest);
        assert(result@ =~= short_unc_of(self@));
        result
    }

    /// `\\?\UNC\server\share` as `\\server\share`; `None` for other paths,
    /// and, when `disallow_long`, for a result longer than `MAX_PATH`.
    pub fn to_short_unc_opt(&self, disallow_long: bool) -> (r: Option<String>)
        ensures
            match r {
                Some(s) => to_short_unc_opt_spec(self@, disallow_long) == Some(s@),
                None => to_short_unc_opt_spec(self@, disallow_long) is None,
            },
    {
        if !self.is_sub_prefix_unc() {
            return None;
        }
        if disallow_long && self.is_short_unc_longer_than_max_path() {
            return None;
        }
        Some(self.to_short_unc())
    }
}

/// The short UNC path is as long as the stripped path less two UTF-16 code
/// units, so that with long paths disallowed it is never longer than
/// `MAX_PATH`.
pub proof fn law_short_unc_within_max_path(s: Seq<char>)
    requires
        to_short_unc_opt_spec(s, true) is Some,
    ensures
        utf16_len(short_unc_of(s)) == utf16_len(s) - short_unc_len_sub(),
        utf16_len(short_unc_of(s)) <= MAX_PATH,
{
    lemma_short_unc_len(s);
}

pub proof fn lemma_short_unc_len(s: Seq<char>)
    requires
        is_sub_prefix_unc_spec(s),
    ensures
        utf16_len(short_unc_of(s)) == utf16_len(s) - short_unc_len_sub(),
{
    assert(s =~= s.take(4) + s.skip(4));
    lemma_utf16_len_append(s.take(4), s.skip(4));
    lemma_utf16_len_append(two_backslashes(), s.skip(4));
    // The four ASCII characters of `UNC\` and the two of `\\` count one each.
    let t = s.take(4);
    assert(t[0] == s[0] && t[1] == s[1] && t[2] == s[2] && t[3] == s[3]);
    assert(t.drop_first().drop_first().drop_first()[0] == s[3]);
    assert(t.drop_first().drop_first()[0] == s[2]);
    assert(t.drop_first()[0] == s[1]);
    assert(t.drop_first().drop_first().drop_first().drop_first() =~= Seq::<char>::empty());
    assert(utf16_len(t.drop_first().drop_first().drop_first().drop_first()) == 0);
    assert(utf16_len(t.drop_first().drop_first().drop_first()) == 1);
    assert(utf16_len(t.drop_first().drop_first()) == 2);
    assert(utf16_len(t.drop_first()) == 3);
    assert(utf16_len(t) == 4);
    let b = two_backslashes();
    assert(b.drop_first().drop_first() =~= Seq::<char>::empty());
    assert(utf16_len(b.drop_first().drop_first()) == 0);
    assert(utf16_len(b.drop_first()) == 1);
    assert(utf16_len(b) == 2);
}

/// The short UNC path is `\\` followed by exactly what followed `UNC\`:
/// server, share and the rest of the path, character for character.
pub proof fn law_short_unc_keeps_the_rest(s: Seq<char>)
    requires
        is_sub_prefix_unc_spec(s),
    ensures
        short_unc_of(s).len() == s.len() - 2,
        short_unc_of(s)[0] == '\\',
        short_unc_of(s)[1] == '\\',
        forall|i: int| 4 <= i < s.len() ==> #[trigger] short_unc_of(s)[i - 2] == s[i],
{
}

} // verus!
