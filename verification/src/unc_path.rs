//! UNC paths: paths that start with two separators, such as
//! `\\server\share\dir` or `\\?\UNC\server\share\dir`.
use crate::text::{
    chars_of, eq_ignore_ascii_case, is_sep, is_separator, char_eq_ignore_ascii_case,
};
use vstd::prelude::*;

verus! {

/// `p` starts with two separators.
pub open spec fn is_unc_spec(p: Seq<char>) -> bool {
    p.len() >= 2 && is_sep(p[0]) && is_sep(p[1])
}

/// `p` starts with `\\?\` (any separators): a [Win32 File Namespace] path.
///
/// [Win32 File Namespace]: https://learn.microsoft.com/en-us/windows/win32/fileio/naming-a-file#win32-file-namespaces
pub open spec fn is_file_namespace_spec(p: Seq<char>) -> bool {
    is_unc_spec(p) && p.len() >= 4 && p[2] == '?' && is_sep(p[3])
}

/// `s` starts with `UNC` in any case and a separator.
pub open spec fn starts_with_unc_keyword_spec(s: Seq<char>) -> bool {
    s.len() > 3 && eq_ignore_ascii_case(s[0], 'U') && eq_ignore_ascii_case(s[1], 'N')
        && eq_ignore_ascii_case(s[2], 'C') && is_sep(s[3])
}

/// `p` starts with `\\?\UNC\` (any separators, `UNC` in any case).
pub open spec fn is_file_namespace_unc_spec(p: Seq<char>) -> bool {
    is_file_namespace_spec(p) && starts_with_unc_keyword_spec(p.skip(4))
}

pub open spec fn two_backslashes() -> Seq<char> {
    seq!['\\', '\\']
}

pub open spec fn long_unc_prefix() -> Seq<char> {
    seq!['\\', '\\', '?', '\\', 'U', 'N', 'C', '\\']
}

/// `\\?\UNC\rest` as the short UNC path `\\rest`.
pub open spec fn to_short_unc_spec(p: Seq<char>) -> Option<Seq<char>> {
    if is_file_namespace_unc_spec(p) {
        Some(two_backslashes() + p.skip(8))
    } else {
        None
    }
}

/// `\\rest` as the file-namespace UNC path `\\?\UNC\rest`.
pub open spec fn to_filename_space_unc_spec(p: Seq<char>) -> Option<Seq<char>> {
    if is_unc_spec(p) && !is_file_namespace_spec(p) {
        Some(long_unc_prefix() + p.skip(2))
    } else {
        None
    }
}

/// A Windows UNC path, which starts with two separators.
pub struct UncPath<'a> {
    path: &'a str,
}

impl<'a> View for UncPath<'a> {
    type V = Seq<char>;

    closed spec fn view(&self) -> Seq<char> {
        self.path@
    }
}

/// Does `s` start with `UNC` (in any case) and a separator?
pub fn starts_with_unc_keyword_and_separator(s: &[char]) -> (r: bool)
    ensures
        r == starts_with_unc_keyword_spec(s@),
{
    s.len() > 3 && char_eq_ignore_ascii_case(s[0], 'U') && char_eq_ignore_ascii_case(s[1], 'N')
        && char_eq_ignore_ascii_case(s[2], 'C') && is_separator(s[3])
}

impl<'a> UncPath<'a> {
    #[verifier::type_invariant]
    closed spec fn inv(self) -> bool {
        is_unc_spec(self.path@)
    }

    /// `path` as a UNC path, if it starts with two separators.
    pub fn try_from(path: &'a str) -> (r: Result<UncPath<'a>, ()>)
        ensures
            r is Ok <==> is_unc_spec(path@),
            r matches Ok(u) ==> u@ == path@,
    {
        if Self::is_unc(path) {
            Ok(UncPath { path })
        } else {
            Err(())
        }
    }

    /// Does `path` start with two separators?
    pub fn is_unc(path: &str) -> (r: bool)
        ensures
            r == is_unc_spec(path@),
    {
        let cs = chars_of(path);
        cs.len() >= 2 && is_separator(cs[0]) && is_separator(cs[1])
    }

    pub fn as_path(&self) -> (r: &'a str)
        ensures
            r@ == self@,
    {
        self.path
    }

    /// The path without its two leading separators.
    pub fn as_stripped_str(&self) -> (r: &'a str)
        ensures
            r@ == self@.skip(2),
    {
        proof {
            use_type_invariant(self);
        }
        let n = self.path.unicode_len();
        self.path.substring_char(2, n)
    }

    /// Does it start with `\\?\`, as a [Win32 File Namespace] path (also
    /// called an extended-length path) does?
    ///
    /// [Win32 File Namespace]: https://learn.microsoft.com/en-us/windows/win32/fileio/naming-a-file#win32-file-namespaces
    pub fn is_file_namespace(&self) -> (r: bool)
        ensures
            r == is_file_namespace_spec(self@),
    {
        proof {
            use_type_invariant(self);
        }
        let cs = chars_of(self.path);
        cs.len() >= 4 && cs[2] == '?' && is_separator(cs[3])
    }

    /// The path without its `\\?\` prefix, if it has one.
    pub fn as_file_namespace_stripped_str(&self) -> (r: Option<&'a str>)
        ensures
            is_file_namespace_spec(self@) ==> (r matches Some(s) && s@ == self@.skip(4)),
            !is_file_namespace_spec(self@) ==> r is None,
    {
        if self.is_file_namespace() {
            let n = self.path.unicode_len();
            Some(self.path.substring_char(4, n))
        } else {
            None
        }
    }

    /// Does it start with `\\?\UNC\`?
    pub fn is_file_namespace_unc(&self) -> (r: bool)
        ensures
            r == is_file_namespace_unc_spec(self@),
    {
        match self.as_file_namespace_stripped_str() {
            Some(stripped) => {
                let cs = chars_of(stripped);
                starts_with_unc_keyword_and_separator(cs.as_slice())
            },
            None => false,
        }
    }

    /// The path without its `\\?\UNC\` prefix, if it has one.
    pub fn as_file_namespace_unc_stripped_str(&self) -> (r: Option<&'a str>)
        ensures
            is_file_namespace_unc_spec(self@) ==> (r matches Some(s) && s@ == self@.skip(8)),
            !is_file_namespace_unc_spec(self@) ==> r is None,
    {
        match self.as_file_namespace_stripped_str() {
            Some(stripped) => {
                let cs = chars_of(stripped);
                if starts_with_unc_keyword_and_separator(cs.as_slice()) {
                    let n = stripped.unicode_len();
                    let r = stripped.substring_char(4, n);
                    assert(r@ =~= self@.skip(8));
                    Some(r)
                } else {
                    None
                }
            },
            None => None,
        }
    }

    /// `\\?\UNC\server\share` as `\\server\share`.
    pub fn to_short_unc(&self) -> (r: Option<String>)
        ensures
            match r {
                Some(s) => to_short_unc_spec(self@) == Some(s@),
                None => to_short_unc_spec(self@) is None,
            },
    {
        match self.as_file_namespace_unc_stripped_str() {
            Some(stripped) => {
                let mut result = String::new();
                result.push('\\');
                result.push('\\');
                result.append(stripped);
                assert(result@ =~= two_backslashes() + self@.skip(8));
                Some(result)
            },
            None => None,
        }
    }

    /// `\\server\share` as `\\?\UNC\server\share`.
    pub fn to_filename_space_unc(&self) -> (r: Option<String>)
        ensures
            match r {
                Some(s) => to_filename_space_unc_spec(self@) == Some(s@),
                None => to_filename_space_unc_spec(self@) is None,
            },
    {
        proof {
            use_type_invariant(self);
        }
        if !self.is_file_namespace() {
            let mut result = String::new();
            result.push('\\');
            result.push('\\');
            result.push('?');
            result.push('\\');
            result.push('U');
            result.push('N');
            result.push('C');
            result.push('\\');
            result.append(self.as_stripped_str());
            assert(result@ =~= long_unc_prefix() + self@.skip(2));
            Some(result)
        } else {
            None
        }
    }
}

/// Converting a `\\?\UNC\` path to a short UNC path and back gives the path
/// again when its prefix is written exactly `\\?\UNC\`, and when the short
/// path does not itself start with `\\?\`.
pub proof fn law_short_unc_round_trip(p: Seq<char>)
    requires
        p.len() >= 8,
        p.take(8) == long_unc_prefix(),
        !(p.len() >= 10 && p[8] == '?' && is_sep(p[9])),
    ensures
        (to_short_unc_spec(p) matches Some(short) && to_filename_space_unc_spec(short) == Some(p)),
{
    assert(p.take(8)[0] == p[0] && p.take(8)[1] == p[1] && p.take(8)[2] == p[2] && p.take(8)[3]
        == p[3]);
    assert(p.take(8)[4] == p[4] && p.take(8)[5] == p[5] && p.take(8)[6] == p[6] && p.take(8)[7]
        == p[7]);
    assert(p.skip(4)[0] == p[4] && p.skip(4)[1] == p[5] && p.skip(4)[2] == p[6] && p.skip(4)[3]
        == p[7]);
    let short = two_backslashes() + p.skip(8);
    assert(short.skip(2) =~= p.skip(8));
    if short.len() >= 4 {
        assert(short[2] == p[8] && short[3] == p[9]);
    }
    assert(long_unc_prefix() + short.skip(2) =~= p);
}

/// Converting a short UNC path to a `\\?\UNC\` path and back gives the path
/// again when it starts with `\\`.
pub proof fn law_filename_space_unc_round_trip(p: Seq<char>)
    requires
        p.len() >= 2,
        p[0] == '\\',
        p[1] == '\\',
        !is_file_namespace_spec(p),
    ensures
        (to_filename_space_unc_spec(p) matches Some(long) && to_short_unc_spec(long) == Some(p)),
{
    let long = long_unc_prefix() + p.skip(2);
    assert(long.skip(4)[0] == 'U' && long.skip(4)[1] == 'N' && long.skip(4)[2] == 'C'
        && long.skip(4)[3] == '\\');
    assert(long.skip(8) =~= p.skip(2));
    assert(two_backslashes() + long.skip(8) =~= p);
}

} // verus!
