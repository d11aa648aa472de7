//! Connected network resources, as the Windows networking API reports them:
//! a local name (a drive such as `Z:`, or none) and a remote name
//! (`\\server\share`).
use crate::long_unc::{is_sub_prefix_unc_spec, long_prefix, long_unc_stripped, short_unc_of};
use crate::text::chars_of;
use crate::unc_path::long_unc_prefix;
use vstd::prelude::*;

verus! {

/// The drive letter of a local name `X:`, or `'\0'`.
pub open spec fn local_drive_letter_spec(local: Seq<char>) -> char {
    if local.len() == 2 && local[1] == ':' && (local[0] as u32) < 128 {
        local[0]
    } else {
        '\0'
    }
}

/// The length of `s.take(n)` without its trailing backslashes.
pub open spec fn trim_backslashes_len(s: Seq<char>, n: int) -> int
    decreases n,
{
    if n <= 0 {
        0
    } else if s[n - 1] == '\\' {
        trim_backslashes_len(s, n - 1)
    } else {
        n
    }
}

/// A remote name as the paths that `fs::canonicalize` gives: without
/// trailing backslashes, and `\\server\share` as `\\?\UNC\server\share`.
pub open spec fn normalize_remote_spec(remote: Seq<char>) -> Seq<char> {
    let t = remote.take(trim_backslashes_len(remote, remote.len() as int));
    if t.len() >= 2 && t[0] == '\\' && t[1] == '\\' {
        long_unc_prefix() + t.skip(2)
    } else {
        t
    }
}

/// A connected network resource.
pub struct NetResource {
    pub local: String,
    pub remote: String,
}

impl NetResource {
    /// The drive letter that the resource is connected to, or `'\0'`.
    pub fn local_drive_letter(&self) -> (r: char)
        ensures
            r == local_drive_letter_spec(self.local@),
    {
        let cs = chars_of(self.local.as_str());
        if cs.len() == 2 && cs[1] == ':' && (cs[0] as u32) < 128 {
            return cs[0];
        }
        '\0'
    }

    /// The remote name in the form of a canonicalized path.
    pub fn remote_canonicalized(&self) -> (r: String)
        ensures
            r@ == normalize_remote_spec(self.remote@),
    {
        Self::normalize_remote(self.remote.as_str())
    }

    /// `remote` without trailing backslashes, and with `\\` turned into
    /// `\\?\UNC\`.
    pub fn normalize_remote(remote: &str) -> (r: String)
        ensures
            r@ == normalize_remote_spec(remote@),
    {
        let cs = chars_of(remote);
        let mut k = cs.len();
        while k > 0 && cs[k - 1] == '\\'
            invariant
                k <= cs@.len(),
                cs@ == remote@,
                trim_backslashes_len(remote@, remote@.len() as int) == trim_backslashes_len(
                    remote@,
                    k as int,
                ),
            decreases k,
        {
            k = k - 1;
        }
        let trimmed = remote.substring_char(0, k);
        assert(trimmed@ =~= remote@.take(k as int));
        if k >= 2 && cs[0] == '\\' && cs[1] == '\\' {
            let mut result = String::new();
            result.push('\\');
            result.push('\\');
            result.push('?');
            result.push('\\');
            result.push('U');
            result.push('N');
            result.push('C');
            result.push('\\');
            result.append(remote.substring_char(2, k));
            assert(result@ =~= normalize_remote_spec(remote@));
            result
        } else {
            trimmed.to_owned()
        }
    }
}

/// What one call of `WNetEnumResourceW` reported.
#[derive(Clone, Copy, Debug, PartialEq, Eq, Structural)]
pub enum EnumResult {
    /// A batch of this many entries was written to the buffer.
    Entries(u32),
    /// All entries have been handed out.
    NoMoreItems,
    /// The buffer is too small; it needs this many bytes.
    MoreData(u32),
    /// Any other error, with its code.
    Failed(u32),
}

/// What to do after a call of `WNetEnumResourceW`.
#[derive(Clone, Copy, Debug, PartialEq, Eq, Structural)]
pub enum FetchStep {
    /// Hand out the entries of the new batch.
    Ready,
    /// The enumeration is over.
    Finished,
    /// Grow the buffer to this many bytes and call again.
    Grow(u32),
    /// Stop with this error code.
    Failed(u32),
}

/// The position in an enumeration of network resources, which come in
/// batches: the index of the next entry in the current batch, and the size
/// of that batch.
#[derive(Debug)]
pub struct EnumCursor {
    index: u32,
    count: u32,
}

impl EnumCursor {
    pub closed spec fn index(self) -> u32 {
        self.index
    }

    pub closed spec fn count(self) -> u32 {
        self.count
    }

    /// Before the first batch.
    pub fn new() -> (r: EnumCursor)
        ensures
            r.index() == 0,
            r.count() == 0,
    {
        EnumCursor { index: 0, count: 0 }
    }

    /// Have all entries of the current batch been handed out?
    pub fn needs_fetch(&self) -> (r: bool)
        ensures
            r == (self.index() >= self.count()),
    {
        self.index >= self.count
    }

    /// Takes in what a call of `WNetEnumResourceW` reported, and says what to
    /// do next. A new batch starts at its first entry; anything else leaves
    /// the position as it is.
    pub fn on_fetch(&mut self, result: EnumResult) -> (r: FetchStep)
        requires
            result matches EnumResult::Entries(n) ==> n > 0,
        ensures
            match result {
                EnumResult::Entries(n) => r == FetchStep::Ready && final(self).index() == 0
                    && final(self).count() == n,
                EnumResult::NoMoreItems => r == FetchStep::Finished && final(self).index()
                    == old(self).index() && final(self).count() == old(self).count(),
                EnumResult::MoreData(size) => r == FetchStep::Grow(size) && final(self).index()
                    == old(self).index() && final(self).count() == old(self).count(),
                EnumResult::Failed(code) => r == FetchStep::Failed(code) && final(self).index()
                    == old(self).index() && final(self).count() == old(self).count(),
            },
    {
        match result {
            EnumResult::Entries(n) => {
                self.count = n;
                self.index = 0;
                FetchStep::Ready
            },
            EnumResult::NoMoreItems => FetchStep::Finished,
            EnumResult::MoreData(size) => FetchStep::Grow(size),
            EnumResult::Failed(code) => FetchStep::Failed(code),
        }
    }

    /// The index of the next entry of the current batch, which is then
    /// handed out.
    pub fn next_index(&mut self) -> (r: u32)
        requires
            old(self).index() < old(self).count(),
        ensures
            r == old(self).index(),
            final(self).index() == old(self).index() + 1,
            final(self).count() == old(self).count(),
    {
        let i = self.index;
        self.index = self.index + 1;
        i
    }
}

pub proof fn lemma_trim_backslashes_len(s: Seq<char>, n: int)
    requires
        0 <= n <= s.len(),
    ensures
        0 <= trim_backslashes_len(s, n) <= n,
        trim_backslashes_len(s, n) > 0 ==> s[trim_backslashes_len(s, n) - 1] != '\\',
    decreases n,
{
    if n > 0 && s[n - 1] == '\\' {
        lemma_trim_backslashes_len(s, n - 1);
    }
}

/// A normalized remote name never ends with a backslash.
pub proof fn law_normalized_remote_has_no_trailing_backslash(remote: Seq<char>)
    ensures
        normalize_remote_spec(remote).len() > 0 ==> normalize_remote_spec(remote).last() != '\\',
{
    lemma_trim_backslashes_len(remote, remote.len() as int);
    let t = remote.take(trim_backslashes_len(remote, remote.len() as int));
    if t.len() >= 2 && t[0] == '\\' && t[1] == '\\' {
        // `t` ends with something other than a backslash, so it is longer
        // than `\\`, and so is its rest after `\\`.
        assert(t.len() > 2);
        let r = long_unc_prefix() + t.skip(2);
        assert(r.last() == t.last());
    }
}

/// Dropping trailing backslashes stops at the last character that is not one.
proof fn lemma_trim_backslashes_to(s: Seq<char>, n: int, m: int)
    requires
        0 <= m <= n <= s.len(),
        forall|i: int| m <= i < n ==> s[i] == '\\',
        m == 0 || s[m - 1] != '\\',
    ensures
        trim_backslashes_len(s, n) == m,
    decreases n,
{
    if n > m {
        lemma_trim_backslashes_to(s, n - 1, m);
    }
}

/// A remote name keeps its characters when normalized: with its `m` leading
/// characters before the trailing backslashes, a `\\server\share` name
/// becomes `\\?\UNC\` followed by `server\share` character for character,
/// and any other name stays as it is.
pub proof fn law_normalize_remote_keeps_the_name(remote: Seq<char>, m: int)
    requires
        0 <= m <= remote.len(),
        forall|i: int| m <= i < remote.len() ==> remote[i] == '\\',
        m == 0 || remote[m - 1] != '\\',
    ensures
        ({
            let r = normalize_remote_spec(remote);
            if m >= 2 && remote[0] == '\\' && remote[1] == '\\' {
                &&& r.len() == m + 6
                &&& r.take(8) == seq!['\\', '\\', '?', '\\', 'U', 'N', 'C', '\\']
                &&& forall|i: int| 2 <= i < m ==> #[trigger] r[i + 6] == remote[i]
            } else {
                &&& r.len() == m
                &&& forall|i: int| 0 <= i < m ==> #[trigger] r[i] == remote[i]
            }
        }),
{
    lemma_trim_backslashes_to(remote, remote.len() as int, m);
    let r = normalize_remote_spec(remote);
    if m >= 2 && remote[0] == '\\' && remote[1] == '\\' {
        assert(r.take(8) =~= long_unc_prefix());
    }
}

/// Normalizing a `\\server\share` remote name and shortening the result
/// again gives back the name without its trailing backslashes.
pub proof fn law_normalize_remote_then_short_unc(remote: Seq<char>, m: int)
    requires
        2 <= m <= remote.len(),
        remote[0] == '\\',
        remote[1] == '\\',
        forall|i: int| m <= i < remote.len() ==> remote[i] == '\\',
        remote[m - 1] != '\\',
    ensures
        long_unc_stripped(normalize_remote_spec(remote)) matches Some(s) && is_sub_prefix_unc_spec(s)
            && short_unc_of(s) == remote.take(m),
{
    lemma_trim_backslashes_to(remote, remote.len() as int, m);
    let r = normalize_remote_spec(remote);
    let t = remote.take(m);
    assert(r == long_unc_prefix() + t.skip(2));
    assert(r.take(4) =~= long_prefix());
    let s = r.skip(4);
    assert(s[0] == 'U' && s[1] == 'N' && s[2] == 'C' && s[3] == '\\');
    assert(short_unc_of(s) =~= t);
}

} // verus!
