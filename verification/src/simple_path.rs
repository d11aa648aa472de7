//! Simplification of [Win32 File Namespaces] paths (the `\\?\` prefix) for
//! better readability and compatibility.
//!
//! [Win32 File Namespaces]: https://learn.microsoft.com/en-us/windows/win32/fileio/naming-a-file#win32-file-namespaces
use crate::display::Display;
use crate::components::{has_physical_root, parse_prefix};
use crate::drive_path::{drive_join_spec, DrivePath};
use crate::text::is_ascii_alpha;
use crate::unc_path::two_backslashes;
use crate::long_unc::{is_sub_prefix_unc_spec, long_prefix, long_unc_stripped, short_unc_of, short_unc_len_sub, LongUnc};
use crate::os_str_ext::{has_invalid_path_chars_spec, invalid_path_char};
use crate::outside::{dunce_may_strip, dunce_simplified_len};
use crate::path_ext::{
    has_invalid_chars_spec, has_reserved_names, has_reserved_names_spec, is_longer_than_win_max_path,
    strip_prefix_fix,
    strip_prefix_fix_spec, StripPrefixError, MAX_PATH,
};
use crate::text::{lemma_utf16_len_append, utf16_len, utf16_units};
use crate::volume::{drive_path_spec, is_mock_list, sorted_volumes, Volume, Volumes};
use vstd::prelude::*;

verus! {

/// The options of a simplification.
pub struct Options {
    pub disallow_long: bool,
    pub allow_unknown_unc: bool,
    pub map_to_drive: bool,
    pub skip_dunce: bool,
}

/// The volume that `p` lies below, when volumes are known and looked up.
pub open spec fn looked_up_drive(
    o: Options,
    vols: Option<Seq<Volume>>,
    p: Seq<char>,
) -> Option<(char, Seq<char>)> {
    if !o.allow_unknown_unc || o.map_to_drive {
        match vols {
            Some(v) => drive_path_spec(v, p),
            None => None,
        }
    } else {
        None
    }
}

/// The path on its mapped drive, when that is the simplification.
pub open spec fn drive_simplified(
    o: Options,
    vols: Option<Seq<Volume>>,
    p: Seq<char>,
) -> Option<Seq<char>> {
    match looked_up_drive(o, vols, p) {
        Some((letter, rest)) => if o.map_to_drive && letter != '\0' && !has_invalid_chars_spec(rest)
            && (!o.disallow_long || utf16_len(drive_join_spec(letter, rest)) <= MAX_PATH)
            && !has_reserved_names_spec(drive_join_spec(letter, rest)) {
            Some(drive_join_spec(letter, rest))
        } else {
            None
        },
        None => None,
    }
}

/// The simplification of a `\\?\UNC\` path `p`: to its mapped drive
/// (`Z:\dir`) when asked for and possible, else to the short UNC path
/// (`\\server\share\dir`) when the share is connected or unknown shares are
/// allowed. Neither is made when the result would hold invalid characters
/// or reserved names, nor, when long paths are disallowed, when it would be
/// longer than `MAX_PATH`.
pub open spec fn unc_simplified(o: Options, vols: Option<Seq<Volume>>, p: Seq<char>) -> Option<
    Seq<char>,
> {
    match long_unc_stripped(p) {
        Some(s) => if is_sub_prefix_unc_spec(s) {
            if drive_simplified(o, vols, p) is Some {
                drive_simplified(o, vols, p)
            } else if (o.allow_unknown_unc || looked_up_drive(o, vols, p) is Some)
                && !has_invalid_path_chars_spec(s) && (!o.disallow_long || utf16_len(s) <= MAX_PATH
                + short_unc_len_sub()) && !has_reserved_names_spec(short_unc_of(s)) {
                Some(short_unc_of(s))
            } else {
                None
            }
        } else {
            None
        },
        None => None,
    }
}

/// A string result by its view.
pub open spec fn view_of(r: Option<String>) -> Option<Seq<char>> {
    match r {
        Some(s) => Some(s@),
        None => None,
    }
}

/// The results that simplifying `p` may give: the simplification of a
/// `\\?\UNC\` path when there is one; otherwise, unless `dunce` is skipped,
/// `p` without its `\\?\` prefix where `dunce` may strip it and the result
/// holds no reserved name, or nothing.
pub open spec fn simplify_outcome(
    o: Options,
    vols: Option<Seq<Volume>>,
    p: Seq<char>,
    r: Option<Seq<char>>,
) -> bool {
    match unc_simplified(o, vols, p) {
        Some(u) => r == Some(u),
        None => match r {
            Some(t) => !o.skip_dunce && dunce_may_strip(p) && t == p.skip(4)
                && !has_reserved_names_spec(t),
            None => true,
        },
    }
}

/// What simplifying `p` gives once `dunce` has returned a path of
/// `dunce_len` UTF-8 bytes: the simplification of a `\\?\UNC\` path when there
/// is one; otherwise, unless `dunce` is skipped, `p` without its `\\?\`
/// prefix when `dunce` returned a shorter path and the result holds no
/// reserved name; otherwise nothing.
pub open spec fn simplified_given_dunce(
    o: Options,
    vols: Option<Seq<Volume>>,
    p: Seq<char>,
    dunce_len: int,
) -> Option<Seq<char>> {
    match unc_simplified(o, vols, p) {
        Some(u) => Some(u),
        None => if !o.skip_dunce && dunce_len < vstd::utf8::encode_utf8(p).len()
            && long_unc_stripped(p) is Some && !has_reserved_names_spec(p.skip(4)) {
            Some(p.skip(4))
        } else {
            None
        },
    }
}

/// Once `dunce` has stripped a path that it may strip, the result of
/// simplifying is one that simplifying may give: the two descriptions of
/// the `dunce` step agree.
pub proof fn law_given_dunce_is_an_outcome(
    o: Options,
    vols: Option<Seq<Volume>>,
    p: Seq<char>,
    dunce_len: int,
)
    requires
        dunce_len == vstd::utf8::encode_utf8(p).len() || (dunce_may_strip(p) && dunce_len
            == vstd::utf8::encode_utf8(p).len() - 4),
    ensures
        simplify_outcome(o, vols, p, simplified_given_dunce(o, vols, p, dunce_len)),
{
}

/// A `\\?\` path that `dunce` stripped, that no other simplification
/// applies to and that holds no reserved name, is simplified to exactly the
/// path without its `\\?\` prefix, unless `dunce` is skipped.
pub proof fn law_dunce_strip_is_kept(
    o: Options,
    vols: Option<Seq<Volume>>,
    p: Seq<char>,
    dunce_len: int,
)
    requires
        unc_simplified(o, vols, p) is None,
        p.len() >= 4,
        p.take(4) == long_prefix(),
        dunce_len == vstd::utf8::encode_utf8(p).len() - 4,
        !has_reserved_names_spec(p.skip(4)),
    ensures
        simplified_given_dunce(o, vols, p, dunce_len) == (if o.skip_dunce {
            None
        } else {
            Some(p.skip(4))
        }),
{
}

/// `utf16_len` splits at any index.
proof fn lemma_utf16_len_split(s: Seq<char>, k: int)
    requires
        0 <= k <= s.len(),
    ensures
        utf16_len(s) == utf16_len(s.take(k)) + utf16_len(s.skip(k)),
{
    assert(s =~= s.take(k) + s.skip(k));
    lemma_utf16_len_append(s.take(k), s.skip(k));
}

/// The UTF-16 length of a path of up to four one-unit characters.
proof fn lemma_utf16_len_short(s: Seq<char>)
    requires
        s.len() <= 4,
        forall|i: int| 0 <= i < s.len() ==> utf16_units(#[trigger] s[i]) == 1,
    ensures
        utf16_len(s) == s.len(),
{
    reveal_with_fuel(utf16_len, 5);
    if s.len() >= 1 {
        assert(s.drop_first()[0] == s[1] || s.len() < 2);
    }
    if s.len() >= 2 {
        assert(s.drop_first().drop_first()[0] == s[2] || s.len() < 3);
    }
    if s.len() >= 3 {
        assert(s.drop_first().drop_first().drop_first()[0] == s[3] || s.len() < 4);
    }
}

/// Only paths that start with `\\?\UNC\` (`UNC` in any case) are simplified
/// to a drive or to a short UNC path.
pub proof fn law_only_long_unc_paths_are_simplified(o: Options, vols: Option<Seq<Volume>>, p: Seq<char>)
    ensures
        unc_simplified(o, vols, p) is Some ==> (long_unc_stripped(p) matches Some(s)
            && is_sub_prefix_unc_spec(s)),
{
}

/// A simplified path never holds a reserved name such as `CON` or `COM1`.
pub proof fn law_simplified_has_no_reserved_names(o: Options, vols: Option<Seq<Volume>>, p: Seq<char>)
    ensures
        unc_simplified(o, vols, p) matches Some(r) ==> !has_reserved_names_spec(r),
{
}

/// A path simplified to a short UNC path holds none of the characters that
/// paths may not hold.
pub proof fn law_short_unc_has_no_invalid_chars(o: Options, vols: Option<Seq<Volume>>, p: Seq<char>)
    ensures
        drive_simplified(o, vols, p) is None ==> (unc_simplified(o, vols, p) matches Some(r)
            ==> !has_invalid_path_chars_spec(r)),
{
    if unc_simplified(o, vols, p) is Some && drive_simplified(o, vols, p) is None {
        let s = long_unc_stripped(p).unwrap();
        let r = short_unc_of(s);
        assert forall|i: int| 0 <= i < r.len() implies !crate::os_str_ext::invalid_path_char(
            #[trigger] r[i],
        ) by {
            if i >= 2 {
                assert(r[i] == s[i + 2]);
                assert(!crate::os_str_ext::invalid_path_char(s[i + 2]));
            }
        }
    }
}

/// Unless unknown shares are allowed, only paths on a connected share, one
/// of the known volumes, are simplified to a drive or a short UNC path.
pub proof fn law_only_connected_shares_are_simplified(
    o: Options,
    vols: Option<Seq<Volume>>,
    p: Seq<char>,
)
    requires
        !o.allow_unknown_unc,
    ensures
        unc_simplified(o, vols, p) is Some ==> looked_up_drive(o, vols, p) is Some,
{
}

/// With long paths disallowed, no path simplified to a drive or a short UNC
/// path is longer than `MAX_PATH` UTF-16 code units.
pub proof fn law_disallow_long_keeps_within_max_path(
    o: Options,
    vols: Option<Seq<Volume>>,
    p: Seq<char>,
)
    requires
        o.disallow_long,
    ensures
        unc_simplified(o, vols, p) matches Some(r) ==> utf16_len(r) <= MAX_PATH,
{
    if unc_simplified(o, vols, p) is Some && drive_simplified(o, vols, p) is None {
        let s = long_unc_stripped(p).unwrap();
        lemma_utf16_len_split(s, 4);
        lemma_utf16_len_short(s.take(4));
        lemma_utf16_len_short(two_backslashes());
        lemma_utf16_len_append(two_backslashes(), s.skip(4));
    }
}

/// A part of a string without invalid characters has none either.
proof fn lemma_no_invalid_in_part(s: Seq<char>, a: int, b: int)
    requires
        0 <= a <= b <= s.len(),
        !has_invalid_path_chars_spec(s),
    ensures
        !has_invalid_path_chars_spec(s.subrange(a, b)),
{
    assert forall|i: int| 0 <= i < b - a implies !invalid_path_char(#[trigger] s.subrange(a, b)[i]) by {
        assert(s.subrange(a, b)[i] == s[a + i]);
    }
}

/// Only two kinds of paths are simplified: `\\?\UNC\` paths (`UNC` in
/// any case) and, through `dunce`, `\\?\X:` paths with an ASCII drive letter.
pub proof fn law_only_long_unc_and_drive_paths_are_simplified(
    o: Options,
    vols: Option<Seq<Volume>>,
    p: Seq<char>,
    t: Seq<char>,
)
    ensures
        simplify_outcome(o, vols, p, Some(t)) ==> (long_unc_stripped(p) matches Some(s)
            && is_sub_prefix_unc_spec(s)) || (p.len() >= 6 && p.take(4) == long_prefix()
            && is_ascii_alpha(p[4]) && p[5] == ':'),
{
}

/// Unless unknown shares are allowed, a `\\?\UNC\` path on no known volume
/// is not simplified at all.
pub proof fn law_unknown_share_is_not_simplified(
    o: Options,
    vols: Option<Seq<Volume>>,
    p: Seq<char>,
    t: Seq<char>,
)
    requires
        !o.allow_unknown_unc,
        long_unc_stripped(p) matches Some(s) && is_sub_prefix_unc_spec(s),
        looked_up_drive(o, vols, p) is None,
    ensures
        !simplify_outcome(o, vols, p, Some(t)),
{
    let s = long_unc_stripped(p).unwrap();
    assert(p[5] == s[1]);
}

/// With long paths disallowed, no simplified path is longer than
/// `MAX_PATH` UTF-16 code units.
pub proof fn law_disallow_long_keeps_results_within_max_path(
    o: Options,
    vols: Option<Seq<Volume>>,
    p: Seq<char>,
    t: Seq<char>,
)
    requires
        o.disallow_long,
    ensures
        simplify_outcome(o, vols, p, Some(t)) ==> utf16_len(t) <= MAX_PATH,
{
    law_disallow_long_keeps_within_max_path(o, vols, p);
    if simplify_outcome(o, vols, p, Some(t)) && unc_simplified(o, vols, p) is None {
        lemma_utf16_len_split(p, 4);
    }
}

/// A simplified path holds no character that Windows forbids, outside the
/// syntax of its prefix, when every drive letter is an ASCII letter (or
/// `'\0'` for none).
pub proof fn law_simplified_has_no_invalid_chars(
    o: Options,
    vols: Option<Seq<Volume>>,
    p: Seq<char>,
    t: Seq<char>,
)
    requires
        vols matches Some(v) ==> forall|i: int|
            0 <= i < v.len() ==> is_ascii_alpha(#[trigger] v[i]@.0) || v[i]@.0 == '\0',
    ensures
        simplify_outcome(o, vols, p, Some(t)) ==> !has_invalid_chars_spec(t),
{
    if simplify_outcome(o, vols, p, Some(t)) {
        crate::components::lemma_parse_prefix(t);
        if unc_simplified(o, vols, p) is Some && drive_simplified(o, vols, p) is Some {
            let v = vols.unwrap();
            let (letter, rest) = looked_up_drive(o, vols, p).unwrap();
            let i = crate::volume::first_volume_from(v, p, 0);
            assert(v[i]@.0 == letter);
            assert(is_ascii_alpha(letter));
            assert(unc_simplified(o, vols, p) == drive_simplified(o, vols, p));
            assert(t == drive_join_spec(letter, rest));
            crate::components::lemma_parse_prefix(rest);
            if parse_prefix(rest) is None {
                assert(!has_invalid_path_chars_spec(rest));
                if has_physical_root(rest) {
                    assert(t == seq![letter, ':'] + rest);
                    assert(t.subrange(2, t.len() as int) =~= rest);
                } else {
                    let tail = t.subrange(2, t.len() as int);
                    assert(tail =~= seq!['\\'] + rest);
                    assert forall|k: int| 0 <= k < tail.len() implies !invalid_path_char(
                        #[trigger] tail[k],
                    ) by {
                        if k > 0 {
                            assert(tail[k] == rest[k - 1]);
                        }
                    }
                }
            }
        } else if unc_simplified(o, vols, p) is Some {
            law_short_unc_has_no_invalid_chars(o, vols, p);
            let x = parse_prefix(t);
            if x is Some {
                let x = x.unwrap();
                lemma_no_invalid_in_part(t, x.len, t.len() as int);
                lemma_no_invalid_in_part(t, x.a0, x.a1);
                lemma_no_invalid_in_part(t, x.b0, x.b1);
            }
        } else {
            let tail = t.subrange(2, t.len() as int);
            assert forall|k: int| 0 <= k < tail.len() implies !invalid_path_char(
                #[trigger] tail[k],
            ) by {
                assert(tail[k] == p[k + 6]);
            }
        }
    }
}

/// No simplified path holds a reserved name such as `CON`, `COM1` or `COM¹`,
/// whichever way it was simplified.
pub proof fn law_simplified_outcome_has_no_reserved_names(
    o: Options,
    vols: Option<Seq<Volume>>,
    p: Seq<char>,
    t: Seq<char>,
)
    ensures
        simplify_outcome(o, vols, p, Some(t)) ==> !has_reserved_names_spec(t),
{
}

/// Are the known volumes read to simplify `p`: is it a `\\?\UNC\` path, and
/// are shares looked up (unknown shares not allowed, or mapping to drives)?
pub open spec fn reads_volumes(o: Options, p: Seq<char>) -> bool {
    &&& long_unc_stripped(p) matches Some(s) && is_sub_prefix_unc_spec(s)
    &&& !o.allow_unknown_unc || o.map_to_drive
}

/// Where the volumes are not read, which volumes are known makes no
/// difference to the result.
pub proof fn law_unread_volumes_make_no_difference(
    o: Options,
    vols1: Option<Seq<Volume>>,
    vols2: Option<Seq<Volume>>,
    p: Seq<char>,
    r: Option<Seq<char>>,
)
    requires
        !reads_volumes(o, p),
    ensures
        simplify_outcome(o, vols1, p, r) == simplify_outcome(o, vols2, p, r),
{
}

/// What remains of `path` after `dunce::simplified` returned a path of
/// `simplified_len` UTF-8 bytes: `path` without its `\\?\` prefix when the
/// result is shorter than `path` and `path` has that prefix, else `None`.
pub fn simplified_by_dunce(path: &str, simplified_len: usize) -> (r: Option<String>)
    ensures
        match r {
            Some(t) => simplified_len < vstd::utf8::encode_utf8(path@).len() && long_unc_stripped(
                path@,
            ) == Some(t@),
            None => simplified_len >= vstd::utf8::encode_utf8(path@).len() || long_unc_stripped(
                path@,
            ) is None,
        },
{
    if simplified_len < path.as_bytes().len() {
        match LongUnc::try_from(path) {
            Ok(long) => Some(long.as_stripped_str().to_owned()),
            Err(_) => None,
        }
    } else {
        None
    }
}

/// Simplifies [Win32 File Namespaces] paths (the `\\?\` prefix) for better
/// readability and compatibility: `\\?\C:\dir` becomes `C:\dir`, and
/// `\\?\UNC\server\share\dir` becomes `\\server\share\dir`, or `Z:\dir`
/// with [`map_to_drive`](SimplePath::map_to_drive).
///
/// [Win32 File Namespaces]: https://learn.microsoft.com/en-us/windows/win32/fileio/naming-a-file#win32-file-namespaces
#[derive(Clone, Debug)]
pub struct SimplePath {
    /// Disallow simplifications whose result is a long path (longer than
    /// 260 characters). Initially `false`.
    pub disallow_long: bool,
    /// Simplify all long UNC paths (prefixed by `\\?\UNC\`), not only those
    /// of connected network shares. Initially `false`.
    pub allow_unknown_unc: bool,
    /// Map to network share drive names when possible. Initially `false`.
    pub map_to_drive: bool,
    /// Skip the [`dunce`](https://crates.io/crates/dunce) simplification.
    /// Initially `false`.
    pub skip_dunce: bool,
    /// Not used; it exists so that `..Default::default()` can always be
    /// written.
    pub _unused: bool,
    /// The remote volumes that network paths are looked up in; `None` when
    /// none are known, in which case no share counts as connected.
    pub volumes: Option<Volumes>,
}

impl Default for SimplePath {
    fn default() -> (r: SimplePath)
        ensures
            !r.disallow_long,
            !r.allow_unknown_unc,
            !r.map_to_drive,
            !r.skip_dunce,
            !r._unused,
            r.known_volumes() is None,
    {
        SimplePath {
            disallow_long: false,
            allow_unknown_unc: false,
            map_to_drive: false,
            skip_dunce: false,
            _unused: false,
            volumes: None,
        }
    }
}

impl SimplePath {
    /// The remote volumes that this `SimplePath` knows of, if any.
    pub closed spec fn known_volumes(self) -> Option<Seq<Volume>> {
        match self.volumes {
            Some(v) => Some(v.list()),
            None => None,
        }
    }

    pub open spec fn options(self) -> Options {
        Options {
            disallow_long: self.disallow_long,
            allow_unknown_unc: self.allow_unknown_unc,
            map_to_drive: self.map_to_drive,
            skip_dunce: self.skip_dunce,
        }
    }

    /// A `SimplePath` with the default options that knows of the volumes of
    /// [`Volumes::mock`].
    pub fn mock() -> (r: SimplePath)
        ensures
            !r.disallow_long,
            !r.allow_unknown_unc,
            !r.map_to_drive,
            !r.skip_dunce,
            !r._unused,
            r.known_volumes() matches Some(v) && is_mock_list(v),
    {
        SimplePath {
            disallow_long: false,
            allow_unknown_unc: false,
            map_to_drive: false,
            skip_dunce: false,
            _unused: false,
            volumes: Some(Volumes::mock()),
        }
    }

    /// Replaces the known remote volumes with `volumes`.
    pub fn refresh(&mut self, volumes: Vec<Volume>)
        ensures
            final(self).options() == old(self).options(),
            final(self).known_volumes() matches Some(v) && v.to_multiset()
                == volumes@.to_multiset() && sorted_volumes(v),
    {
        self.volumes = Some(Volumes::with_volumes(volumes));
    }

    /// The drive of the first known volume that `path` lies below.
    pub fn drive_path<'a>(&self, path: &'a str) -> (r: Option<DrivePath<'a>>)
        ensures
            match self.known_volumes() {
                Some(v) => match r {
                    Some(d) => drive_path_spec(v, path@) == Some(d@),
                    None => drive_path_spec(v, path@) is None,
                },
                None => r is None,
            },
    {
        match &self.volumes {
            Some(volumes) => volumes._drive_path(path),
            None => None,
        }
    }

    /// The simplification of a `\\?\UNC\` path to a drive or to a short
    /// UNC path; `None` for other paths.
    pub fn simplify_long_unc(&self, path: &str) -> (r: Option<String>)
        ensures
            match r {
                Some(s) => unc_simplified(self.options(), self.known_volumes(), path@) == Some(
                    s@,
                ),
                None => unc_simplified(self.options(), self.known_volumes(), path@) is None,
            },
    {
        let long_unc = match LongUnc::try_from(path) {
            Ok(long_unc) => long_unc,
            Err(_) => {
                return None;
            },
        };
        if !long_unc.is_sub_prefix_unc() {
            return None;
        }
        // Try mapped network drives.
        let drive_path = if !self.allow_unknown_unc || self.map_to_drive {
            self.drive_path(path)
        } else {
            None
        };
        let ghost o = self.options();
        let ghost vols = self.known_volumes();
        assert(match drive_path {
            Some(d) => looked_up_drive(o, vols, path@) == Some(d@),
            None => looked_up_drive(o, vols, path@) is None,
        });
        if self.map_to_drive {
            match &drive_path {
                Some(drive_path) => {
                    if drive_path.has_drive() && !drive_path.has_invalid_chars() {
                        let result = drive_path.to_path_buf();
                        if (!self.disallow_long || !is_longer_than_win_max_path(result.as_str()))
                            && !has_reserved_names(result.as_str()) {
                            return Some(result);
                        }
                    }
                },
                None => {},
            }
        }
        assert(drive_simplified(o, vols, path@) is None);
        // Try the short UNC path (`\\server\share`).
        if (self.allow_unknown_unc || drive_path.is_some()) && !long_unc.has_invalid_chars() && (
        !self.disallow_long || !long_unc.is_short_unc_longer_than_max_path()) {
            let result = long_unc.to_short_unc();
            if !has_reserved_names(result.as_str()) {
                return Some(result);
            }
        }
        None
    }

    /// Does simplifying `path` read the known volumes? Where it does not,
    /// they need not be known.
    pub fn reads_volumes(&self, path: &str) -> (r: bool)
        ensures
            r == reads_volumes(self.options(), path@),
    {
        match LongUnc::try_from(path) {
            Ok(long_unc) => long_unc.is_sub_prefix_unc() && (!self.allow_unknown_unc
                || self.map_to_drive),
            Err(_) => false,
        }
    }

    /// Simplifies `path` once `dunce::simplified` has returned a path of
    /// `dunce_len` UTF-8 bytes for it; [`simplify`](SimplePath::simplify)
    /// makes that call and hands its result here.
    pub fn simplify_given_dunce(&self, path: &str, dunce_len: usize) -> (r: Option<String>)
        ensures
            view_of(r) == simplified_given_dunce(
                self.options(),
                self.known_volumes(),
                path@,
                dunce_len as int,
            ),
    {
        match self.simplify_long_unc(path) {
            Some(result) => {
                return Some(result);
            },
            None => {},
        }
        if self.skip_dunce {
            return None;
        }
        match simplified_by_dunce(path, dunce_len) {
            Some(stripped) => {
                // `dunce` refuses fewer names than Windows reserves (`COM¹`,
                // `con.txt.log`); such a path stays as it is.
                if has_reserved_names(stripped.as_str()) {
                    None
                } else {
                    Some(stripped)
                }
            },
            None => None,
        }
    }

    /// Tries to simplify `path`: a `\\?\UNC\` path as
    /// [`simplify_long_unc`](SimplePath::simplify_long_unc) says, and
    /// otherwise, unless [`skip_dunce`](SimplePath::skip_dunce), as the
    /// [`dunce`](https://crates.io/crates/dunce) crate does, which can only
    /// remove the `\\?\` of a `\\?\X:` path. `None` when no simplification
    /// applies.
    pub fn simplify(&self, path: &str) -> (r: Option<String>)
        ensures
            simplify_outcome(self.options(), self.known_volumes(), path@, view_of(r)),
    {
        match self.simplify_long_unc(path) {
            Some(result) => {
                return Some(result);
            },
            None => {},
        }
        if self.skip_dunce {
            return None;
        }
        let dunce_len = dunce_simplified_len(path);
        proof {
            law_given_dunce_is_an_outcome(
                self.options(),
                self.known_volumes(),
                path@,
                dunce_len as int,
            );
        }
        self.simplify_given_dunce(path, dunce_len)
    }

    /// An object whose [`to_string`](Display::to_string) gives `path`
    /// simplified, or as it is when no simplification applies.
    pub fn display<'a>(&'a self, path: &'a str) -> (r: Display<'a>)
        ensures
            r.simple() == self,
            r.path()@ == path@,
    {
        Display::new(self, path)
    }

    /// `Path::strip_prefix` without the leading separator that it leaves for
    /// UNC paths on Windows: the rest of `path` below `base`.
    pub fn strip_prefix<'a>(path: &'a str, base: &str) -> (r: Result<&'a str, StripPrefixError>)
        ensures
            match r {
                Ok(rest) => strip_prefix_fix_spec(path@, base@) == Some(rest@),
                Err(_) => strip_prefix_fix_spec(path@, base@) is None,
            },
    {
        strip_prefix_fix(path, base)
    }
}

} // verus!
