//! Windows path syntax: prefixes (`C:`, `\\server\share`, `\\?\...`,
//! `\\.\device`) and the sequence of components that a path consists of,
//! read from the front.
use crate::text::{
    ascii_upper, char_ascii_upper, char_is_ascii_alpha, is_ascii_alpha, is_sep, is_sep_in,
    is_separator, is_separator_in, char_utf8_units, lemma_utf8_len_extend,
    lemma_utf8_len_monotonic, utf8_len,
};
use vstd::prelude::*;

verus! {

/// The kinds of path prefixes, in the order in which paths compare.
#[derive(Clone, Copy, PartialEq, Eq, Debug, Structural)]
pub enum PrefixKind {
    /// `\\?\name`
    Verbatim,
    /// `\\?\UNC\server\share`
    VerbatimUNC,
    /// `\\?\C:`
    VerbatimDisk,
    /// `\\.\device`
    DeviceNS,
    /// `\\server\share`
    UNC,
    /// `C:`
    Disk,
}

pub open spec fn prefix_rank(k: PrefixKind) -> int {
    match k {
        PrefixKind::Verbatim => 0,
        PrefixKind::VerbatimUNC => 1,
        PrefixKind::VerbatimDisk => 2,
        PrefixKind::DeviceNS => 3,
        PrefixKind::UNC => 4,
        PrefixKind::Disk => 5,
    }
}

pub open spec fn is_verbatim_kind(k: PrefixKind) -> bool {
    k == PrefixKind::Verbatim || k == PrefixKind::VerbatimUNC || k == PrefixKind::VerbatimDisk
}

/// Ranks of the other components; prefixes rank below them.
pub open spec fn rank_root() -> int {
    6
}

pub open spec fn rank_cur_dir() -> int {
    7
}

pub open spec fn rank_parent_dir() -> int {
    8
}

pub open spec fn rank_normal() -> int {
    9
}

/// A parsed prefix: its kind, its length, and the positions of its one or
/// two names (server and share, the device, the drive letter).
pub struct PrefixSpec {
    pub kind: PrefixKind,
    pub len: int,
    pub a0: int,
    pub a1: int,
    pub b0: int,
    pub b1: int,
}

#[derive(Clone, Copy)]
pub struct PrefixInfo {
    pub kind: PrefixKind,
    pub len: usize,
    pub a0: usize,
    pub a1: usize,
    pub b0: usize,
    pub b1: usize,
}

impl View for PrefixInfo {
    type V = PrefixSpec;

    open spec fn view(&self) -> PrefixSpec {
        PrefixSpec {
            kind: self.kind,
            len: self.len as int,
            a0: self.a0 as int,
            a1: self.a1 as int,
            b0: self.b0 as int,
            b1: self.b1 as int,
        }
    }
}

/// The position of the first separator at or after `i`, or the length of `p`.
pub open spec fn next_sep(p: Seq<char>, i: int, verbatim: bool) -> int
    decreases p.len() - i,
{
    if i < 0 || i >= p.len() {
        p.len() as int
    } else if is_sep_in(p[i], verbatim) {
        i
    } else {
        next_sep(p, i + 1, verbatim)
    }
}

pub proof fn lemma_next_sep(p: Seq<char>, i: int, verbatim: bool)
    requires
        0 <= i <= p.len(),
    ensures
        i <= next_sep(p, i, verbatim) <= p.len(),
        next_sep(p, i, verbatim) < p.len() ==> is_sep_in(p[next_sep(p, i, verbatim)], verbatim),
        forall|j: int| i <= j < next_sep(p, i, verbatim) ==> !is_sep_in(#[trigger] p[j], verbatim),
    decreases p.len() - i,
{
    if i < p.len() && !is_sep_in(p[i], verbatim) {
        lemma_next_sep(p, i + 1, verbatim);
    }
}

/// No `/` among the first eight bytes of `p` after `\\?\`: such a slash
/// keeps `\\?\` from making the path verbatim, as a verbatim path would
/// read differently with `/` in place of `\`.
pub open spec fn no_slash_after_verbatim_mark(p: Seq<char>) -> bool {
    forall|k: int| 4 <= k < p.len() && utf8_len(p.subrange(4, k)) < 4 ==> p[k] != '/'
}

/// The prefix of `p`, as Windows reads it.
pub open spec fn parse_prefix(p: Seq<char>) -> Option<PrefixSpec> {
    let n = p.len() as int;
    if n >= 2 && is_sep(p[0]) && is_sep(p[1]) {
        if n >= 4 && p[0] == '\\' && p[1] == '\\' && p[2] == '?' && p[3] == '\\'
            && no_slash_after_verbatim_mark(p) {
            if n >= 8 && p[4] == 'U' && p[5] == 'N' && p[6] == 'C' && is_sep(p[7]) {
                let a1 = next_sep(p, 8, true);
                let b0 = if a1 < n {
                    a1 + 1
                } else {
                    n
                };
                let b1 = next_sep(p, b0, true);
                if b1 > b0 {
                    Some(PrefixSpec { kind: PrefixKind::VerbatimUNC, len: b1, a0: 8, a1, b0, b1 })
                } else {
                    Some(
                        PrefixSpec {
                            kind: PrefixKind::VerbatimUNC,
                            len: a1,
                            a0: 8,
                            a1,
                            b0: a1,
                            b1: a1,
                        },
                    )
                }
            } else if n >= 6 && is_ascii_alpha(p[4]) && p[5] == ':' && (n == 6 || is_sep(p[6])) {
                Some(PrefixSpec { kind: PrefixKind::VerbatimDisk, len: 6, a0: 4, a1: 5, b0: 6, b1: 6 })
            } else {
                let a1 = next_sep(p, 4, true);
                Some(PrefixSpec { kind: PrefixKind::Verbatim, len: a1, a0: 4, a1, b0: a1, b1: a1 })
            }
        } else if n >= 4 && p[2] == '.' && is_sep(p[3]) {
            let a1 = next_sep(p, 4, false);
            Some(PrefixSpec { kind: PrefixKind::DeviceNS, len: a1, a0: 4, a1, b0: a1, b1: a1 })
        } else {
            let a1 = next_sep(p, 2, false);
            let b0 = if a1 < n {
                a1 + 1
            } else {
                n
            };
            let b1 = next_sep(p, b0, false);
            if a1 > 2 && b1 > b0 {
                Some(PrefixSpec { kind: PrefixKind::UNC, len: b1, a0: 2, a1, b0, b1 })
            } else {
                None
            }
        }
    } else if n >= 2 && is_ascii_alpha(p[0]) && p[1] == ':' {
        Some(PrefixSpec { kind: PrefixKind::Disk, len: 2, a0: 0, a1: 1, b0: 2, b1: 2 })
    } else {
        None
    }
}

pub proof fn lemma_parse_prefix(p: Seq<char>)
    ensures
        parse_prefix(p) matches Some(x) ==> {
            &&& 2 <= x.len <= p.len()
            &&& 0 <= x.a0 <= x.a1 <= x.b0 <= x.b1 <= x.len
            &&& (x.kind == PrefixKind::Disk || x.kind == PrefixKind::VerbatimDisk) ==> x.a1
                == x.a0 + 1 && x.b0 == x.b1
        },
{
    let n = p.len() as int;
    if n >= 2 {
        lemma_next_sep(p, 2, false);
    }
    if n >= 4 {
        lemma_next_sep(p, 4, true);
        lemma_next_sep(p, 4, false);
    }
    if n >= 8 {
        lemma_next_sep(p, 8, true);
        let a1 = next_sep(p, 8, true);
        let b0 = if a1 < n {
            a1 + 1
        } else {
            n
        };
        lemma_next_sep(p, b0, true);
    }
    if n >= 2 {
        let a1 = next_sep(p, 2, false);
        let b0 = if a1 < n {
            a1 + 1
        } else {
            n
        };
        lemma_next_sep(p, b0, false);
    }
}

pub open spec fn prefix_len(p: Seq<char>) -> int {
    match parse_prefix(p) {
        Some(x) => x.len,
        None => 0,
    }
}

/// In a verbatim path, only `\` separates components.
pub open spec fn is_verbatim(p: Seq<char>) -> bool {
    match parse_prefix(p) {
        Some(x) => is_verbatim_kind(x.kind),
        None => false,
    }
}

/// A separator follows the prefix.
pub open spec fn has_physical_root(p: Seq<char>) -> bool {
    prefix_len(p) < p.len() && is_sep(p[prefix_len(p)])
}

/// `\\server\share` and `\\.\device` have a root without a separator.
pub open spec fn has_implicit_root(p: Seq<char>) -> bool {
    match parse_prefix(p) {
        Some(x) => x.kind == PrefixKind::UNC || x.kind == PrefixKind::DeviceNS,
        None => false,
    }
}

/// A relative path that starts with `.` as its own component.
pub open spec fn has_cur_dir(p: Seq<char>) -> bool {
    parse_prefix(p) is None && !has_physical_root(p) && p.len() >= 1 && p[0] == '.' && (p.len()
        == 1 || is_sep(p[1]))
}

/// A component in a path: the rank of its kind and its position.
pub struct CompSpec {
    pub rank: int,
    pub a0: int,
    pub a1: int,
    pub b0: int,
    pub b1: int,
}

#[derive(Clone, Copy)]
pub struct Comp {
    pub rank: u8,
    pub a0: usize,
    pub a1: usize,
    pub b0: usize,
    pub b1: usize,
}

impl View for Comp {
    type V = CompSpec;

    open spec fn view(&self) -> CompSpec {
        CompSpec {
            rank: self.rank as int,
            a0: self.a0 as int,
            a1: self.a1 as int,
            b0: self.b0 as int,
            b1: self.b1 as int,
        }
    }
}

pub open spec fn unit_comp(rank: int, at: int) -> CompSpec {
    CompSpec { rank, a0: at, a1: at, b0: at, b1: at }
}

/// What a component stands for, whatever its position: two paths are equal
/// when these are, and they compare as these do.
pub struct CompVal {
    pub rank: int,
    pub first: Seq<char>,
    pub second: Seq<char>,
    pub drive: int,
}

pub open spec fn is_drive_rank(rank: int) -> bool {
    rank == 2 || rank == 5
}

pub open spec fn comp_val(p: Seq<char>, c: CompSpec) -> CompVal {
    if is_drive_rank(c.rank) {
        CompVal {
            rank: c.rank,
            first: Seq::empty(),
            second: Seq::empty(),
            drive: ascii_upper(p[c.a0]) as int,
        }
    } else {
        CompVal {
            rank: c.rank,
            first: p.subrange(c.a0, c.a1),
            second: p.subrange(c.b0, c.b1),
            drive: 0,
        }
    }
}

/// The next component at or after `pos` in the body of a path, and the
/// position after it. Empty components and `.` (outside verbatim paths)
/// are skipped.
pub open spec fn body_next(p: Seq<char>, pos: int, verbatim: bool) -> Option<(CompSpec, int)>
    decreases p.len() - pos,
{
    if pos < 0 || pos >= p.len() {
        None
    } else {
        let e = next_sep(p, pos, verbatim);
        let np = if e < p.len() {
            e + 1
        } else {
            p.len() as int
        };
        if e < pos {
            None
        } else if e == pos || (e == pos + 1 && p[pos] == '.' && !verbatim) {
            body_next(p, np, verbatim)
        } else if e == pos + 1 && p[pos] == '.' {
            Some((unit_comp(rank_cur_dir(), pos), np))
        } else if e == pos + 2 && p[pos] == '.' && p[pos + 1] == '.' {
            Some((unit_comp(rank_parent_dir(), pos), np))
        } else {
            Some((CompSpec { rank: rank_normal(), a0: pos, a1: e, b0: e, b1: e }, np))
        }
    }
}

pub proof fn lemma_body_next(p: Seq<char>, pos: int, verbatim: bool)
    requires
        0 <= pos <= p.len(),
    ensures
        body_next(p, pos, verbatim) matches Some((c, np)) ==> {
            &&& pos <= c.a0 <= c.a1 <= c.b0 <= c.b1 <= np <= p.len()
            &&& pos < np
            &&& c.rank == rank_normal() ==> c.a1 == next_sep(p, c.a0, verbatim) && c.a0 < c.a1
                && c.b0 == c.a1 && c.b1 == c.a1
            &&& (c.rank == rank_cur_dir() || c.rank == rank_parent_dir()) ==> c.a0 == c.a1
                && c.b0 == c.a0 && c.b1 == c.a0
            &&& c.rank == rank_normal() || c.rank == rank_cur_dir() || c.rank == rank_parent_dir()
        },
    decreases p.len() - pos,
{
    if pos < p.len() {
        lemma_next_sep(p, pos, verbatim);
        let e = next_sep(p, pos, verbatim);
        let np = if e < p.len() {
            e + 1
        } else {
            p.len() as int
        };
        if e == pos || (e == pos + 1 && p[pos] == '.' && !verbatim) {
            lemma_body_next(p, np, verbatim);
        }
    }
}

/// The component that the start of the body yields: a root, a `.`, or the
/// first component of the body.
pub open spec fn start_dir_next(p: Seq<char>, pos: int) -> Option<(CompSpec, int, int)> {
    if has_physical_root(p) {
        Some((unit_comp(rank_root(), pos), 2, pos + 1))
    } else if has_implicit_root(p) {
        Some((unit_comp(rank_root(), pos), 2, pos))
    } else if has_cur_dir(p) {
        Some((unit_comp(rank_cur_dir(), pos), 2, pos + 1))
    } else {
        match body_next(p, pos, is_verbatim(p)) {
            Some((c, np)) => Some((c, 2, np)),
            None => None,
        }
    }
}

/// Reading a path from the front: the state is a phase (0 before the prefix,
/// 1 before the root, 2 in the body) and a position. Yields the next
/// component and the state after it.
pub open spec fn front_next(p: Seq<char>, phase: int, pos: int) -> Option<(CompSpec, int, int)> {
    if phase == 0 {
        match parse_prefix(p) {
            Some(x) => Some(
                (
                    CompSpec { rank: prefix_rank(x.kind), a0: x.a0, a1: x.a1, b0: x.b0, b1: x.b1 },
                    1,
                    x.len,
                ),
            ),
            None => start_dir_next(p, 0),
        }
    } else if phase == 1 {
        start_dir_next(p, pos)
    } else {
        match body_next(p, pos, is_verbatim(p)) {
            Some((c, np)) => Some((c, 2, np)),
            None => None,
        }
    }
}

/// The states that reading from the front passes through.
pub open spec fn valid_state(p: Seq<char>, phase: int, pos: int) -> bool {
    ||| phase == 0 && pos == 0
    ||| phase == 1 && pos == prefix_len(p) && parse_prefix(p) is Some
    ||| phase == 2 && 0 <= pos <= p.len()
}

pub proof fn lemma_front_next(p: Seq<char>, phase: int, pos: int)
    requires
        valid_state(p, phase, pos),
    ensures
        front_next(p, phase, pos) matches Some((c, ph, np)) ==> {
            &&& valid_state(p, ph, np)
            &&& np > pos || (np == pos && ph > phase)
            &&& 0 <= c.a0 <= c.a1 <= c.b0 <= c.b1 <= p.len()
            &&& is_drive_rank(c.rank) ==> c.a1 == c.a0 + 1
            &&& 0 <= c.rank <= 9
            &&& c.rank == rank_normal() ==> c.a0 < c.a1 && c.b0 == c.a1 && c.b1 == c.a1
                && c.a1 == next_sep(p, c.a0, is_verbatim(p)) && pos <= c.a0
            &&& c.rank < 6 ==> phase == 0
            &&& c.rank >= 6 ==> ph == 2
            &&& (c.rank == rank_root() || c.rank == rank_cur_dir() || c.rank == rank_parent_dir())
                ==> c.a0 == c.a1 && c.b0 == c.a0 && c.b1 == c.a0
        },
{
    lemma_parse_prefix(p);
    if phase == 2 {
        lemma_body_next(p, pos, is_verbatim(p));
    } else {
        let start = if phase == 0 {
            0
        } else {
            pos
        };
        if phase == 0 && parse_prefix(p) is Some {
        } else {
            assert(start == prefix_len(p));
            lemma_body_next(p, start, is_verbatim(p));
        }
    }
}

/// The components of `p` from the state `(phase, pos)` on.
pub open spec fn comps_from(p: Seq<char>, phase: int, pos: int) -> Seq<CompVal>
    decreases p.len() - pos, 2 - phase,
{
    match front_next(p, phase, pos) {
        Some((c, ph, np)) => if np <= p.len() && (np > pos || (np == pos && ph > phase)) && 0
            <= phase <= 2 && 0 <= ph <= 2 {
            seq![comp_val(p, c)] + comps_from(p, ph, np)
        } else {
            Seq::empty()
        },
        None => Seq::empty(),
    }
}

/// The components of the path `p`, as `Path::components` yields them on
/// Windows.
pub open spec fn components(p: Seq<char>) -> Seq<CompVal> {
    comps_from(p, 0, 0)
}

pub proof fn lemma_comps_from_unfold(p: Seq<char>, phase: int, pos: int)
    requires
        valid_state(p, phase, pos),
    ensures
        comps_from(p, phase, pos) == match front_next(p, phase, pos) {
            Some((c, ph, np)) => seq![comp_val(p, c)] + comps_from(p, ph, np),
            None => Seq::empty(),
        },
{
    lemma_front_next(p, phase, pos);
}

/// How a path is read: its prefix, and where its root and body are.
pub struct PathCfg {
    pub prefix: Option<PrefixInfo>,
    pub verbatim: bool,
    pub physical_root: bool,
    pub implicit_root: bool,
    pub cur_dir: bool,
}

impl PathCfg {
    pub open spec fn matches(&self, p: Seq<char>) -> bool {
        &&& match self.prefix {
            Some(x) => parse_prefix(p) == Some(x@),
            None => parse_prefix(p) is None,
        }
        &&& self.verbatim == is_verbatim(p)
        &&& self.physical_root == has_physical_root(p)
        &&& self.implicit_root == has_implicit_root(p)
        &&& self.cur_dir == has_cur_dir(p)
    }

    pub open spec fn prefix_len(&self) -> int {
        match self.prefix {
            Some(x) => x.len as int,
            None => 0,
        }
    }
}

pub fn next_sep_exec(p: &[char], i: usize, verbatim: bool) -> (r: usize)
    requires
        i <= p@.len(),
    ensures
        r as int == next_sep(p@, i as int, verbatim),
{
    let mut j = i;
    while j < p.len() && !is_separator_in(p[j], verbatim)
        invariant
            i <= j <= p@.len(),
            next_sep(p@, i as int, verbatim) == next_sep(p@, j as int, verbatim),
        decreases p@.len() - j,
    {
        j = j + 1;
    }
    j
}

/// Does no `/` follow `\\?\` within the first eight bytes of `p`?
pub fn no_slash_after_verbatim_mark_exec(p: &[char]) -> (r: bool)
    requires
        p@.len() >= 4,
    ensures
        r == no_slash_after_verbatim_mark(p@),
{
    let mut k: usize = 4;
    let mut used: usize = 0;
    while k < p.len() && used < 4
        invariant
            4 <= k <= p@.len(),
            used == utf8_len(p@.subrange(4, k as int)),
            forall|j: int| 4 <= j < k ==> p@[j] != '/',
        decreases p@.len() - k,
    {
        if p[k] == '/' {
            return false;
        }
        proof {
            lemma_utf8_len_extend(p@, 4, k as int);
        }
        used = used + char_utf8_units(p[k]);
        k = k + 1;
    }
    assert forall|j: int| 4 <= j < p@.len() && utf8_len(p@.subrange(4, j)) < 4 implies p@[j]
        != '/' by {
        if j >= k {
            lemma_utf8_len_monotonic(p@, 4, k as int, j);
        }
    }
    true
}

/// The prefix of `p`.
pub fn parse_prefix_exec(p: &[char]) -> (r: Option<PrefixInfo>)
    ensures
        match r {
            Some(x) => parse_prefix(p@) == Some(x@),
            None => parse_prefix(p@) is None,
        },
{
    let n = p.len();
    proof {
        lemma_parse_prefix(p@);
    }
    if n >= 2 && is_separator(p[0]) && is_separator(p[1]) {
        if n >= 4 && p[0] == '\\' && p[1] == '\\' && p[2] == '?' && p[3] == '\\'
            && no_slash_after_verbatim_mark_exec(p) {
            if n >= 8 && p[4] == 'U' && p[5] == 'N' && p[6] == 'C' && is_separator(p[7]) {
                let a1 = next_sep_exec(p, 8, true);
                proof {
                    lemma_next_sep(p@, 8, true);
                }
                let b0 = if a1 < n {
                    a1 + 1
                } else {
                    n
                };
                let b1 = next_sep_exec(p, b0, true);
                if b1 > b0 {
                    Some(PrefixInfo { kind: PrefixKind::VerbatimUNC, len: b1, a0: 8, a1, b0, b1 })
                } else {
                    Some(
                        PrefixInfo {
                            kind: PrefixKind::VerbatimUNC,
                            len: a1,
                            a0: 8,
                            a1,
                            b0: a1,
                            b1: a1,
                        },
                    )
                }
            } else if n >= 6 && char_is_ascii_alpha(p[4]) && p[5] == ':' && (n == 6 || is_separator(
                p[6],
            )) {
                Some(PrefixInfo { kind: PrefixKind::VerbatimDisk, len: 6, a0: 4, a1: 5, b0: 6, b1: 6 })
            } else {
                let a1 = next_sep_exec(p, 4, true);
                Some(PrefixInfo { kind: PrefixKind::Verbatim, len: a1, a0: 4, a1, b0: a1, b1: a1 })
            }
        } else if n >= 4 && p[2] == '.' && is_separator(p[3]) {
            let a1 = next_sep_exec(p, 4, false);
            Some(PrefixInfo { kind: PrefixKind::DeviceNS, len: a1, a0: 4, a1, b0: a1, b1: a1 })
        } else {
            let a1 = next_sep_exec(p, 2, false);
            proof {
                lemma_next_sep(p@, 2, false);
            }
            let b0 = if a1 < n {
                a1 + 1
            } else {
                n
            };
            let b1 = next_sep_exec(p, b0, false);
            if a1 > 2 && b1 > b0 {
                Some(PrefixInfo { kind: PrefixKind::UNC, len: b1, a0: 2, a1, b0, b1 })
            } else {
                None
            }
        }
    } else if n >= 2 && char_is_ascii_alpha(p[0]) && p[1] == ':' {
        Some(PrefixInfo { kind: PrefixKind::Disk, len: 2, a0: 0, a1: 1, b0: 2, b1: 2 })
    } else {
        None
    }
}

pub fn is_verbatim_prefix(k: PrefixKind) -> (r: bool)
    ensures
        r == is_verbatim_kind(k),
{
    match k {
        PrefixKind::Verbatim | PrefixKind::VerbatimUNC | PrefixKind::VerbatimDisk => true,
        _ => false,
    }
}

pub fn prefix_rank_exec(k: PrefixKind) -> (r: u8)
    ensures
        r as int == prefix_rank(k),
{
    match k {
        PrefixKind::Verbatim => 0,
        PrefixKind::VerbatimUNC => 1,
        PrefixKind::VerbatimDisk => 2,
        PrefixKind::DeviceNS => 3,
        PrefixKind::UNC => 4,
        PrefixKind::Disk => 5,
    }
}

/// How Windows reads `p`.
pub fn path_cfg(p: &[char]) -> (r: PathCfg)
    ensures
        r.matches(p@),
{
    let prefix = parse_prefix_exec(p);
    proof {
        lemma_parse_prefix(p@);
    }
    let plen: usize = match prefix {
        Some(x) => x.len,
        None => 0,
    };
    let verbatim = match prefix {
        Some(x) => is_verbatim_prefix(x.kind),
        None => false,
    };
    let physical_root = plen < p.len() && is_separator(p[plen]);
    let implicit_root = match prefix {
        Some(x) => x.kind == PrefixKind::UNC || x.kind == PrefixKind::DeviceNS,
        None => false,
    };
    let cur_dir = prefix.is_none() && !physical_root && p.len() >= 1 && p[0] == '.' && (p.len()
        == 1 || is_separator(p[1]));
    PathCfg { prefix, verbatim, physical_root, implicit_root, cur_dir }
}

/// The next component of the body of `p` at or after `pos`.
pub fn body_next_exec(p: &[char], pos: usize, verbatim: bool) -> (r: Option<(Comp, usize)>)
    requires
        pos <= p@.len(),
    ensures
        match r {
            Some((c, np)) => body_next(p@, pos as int, verbatim) == Some((c@, np as int)),
            None => body_next(p@, pos as int, verbatim) is None,
        },
{
    let n = p.len();
    let mut i = pos;
    loop
        invariant
            pos <= i <= n,
            n == p@.len(),
            body_next(p@, pos as int, verbatim) == body_next(p@, i as int, verbatim),
        decreases n - i,
    {
        if i >= n {
            return None;
        }
        let e = next_sep_exec(p, i, verbatim);
        proof {
            lemma_next_sep(p@, i as int, verbatim);
        }
        let np = if e < n {
            e + 1
        } else {
            n
        };
        if e == i || (e == i + 1 && p[i] == '.' && !verbatim) {
            i = np;
        } else if e == i + 1 && p[i] == '.' {
            return Some((Comp { rank: 7, a0: i, a1: i, b0: i, b1: i }, np));
        } else if e - i == 2 && p[i] == '.' && p[i + 1] == '.' {
            return Some((Comp { rank: 8, a0: i, a1: i, b0: i, b1: i }, np));
        } else {
            return Some((Comp { rank: 9, a0: i, a1: e, b0: e, b1: e }, np));
        }
    }
}

pub fn start_dir_next_exec(p: &[char], cfg: &PathCfg, pos: usize) -> (r: Option<(Comp, u8, usize)>)
    requires
        cfg.matches(p@),
        pos <= p@.len(),
        pos == prefix_len(p@),
    ensures
        match r {
            Some((c, ph, np)) => start_dir_next(p@, pos as int) == Some((c@, ph as int, np as int)),
            None => start_dir_next(p@, pos as int) is None,
        },
{
    let _n = p.len();
    if cfg.physical_root {
        Some((Comp { rank: 6, a0: pos, a1: pos, b0: pos, b1: pos }, 2, pos + 1))
    } else if cfg.implicit_root {
        Some((Comp { rank: 6, a0: pos, a1: pos, b0: pos, b1: pos }, 2, pos))
    } else if cfg.cur_dir {
        Some((Comp { rank: 7, a0: pos, a1: pos, b0: pos, b1: pos }, 2, pos + 1))
    } else {
        match body_next_exec(p, pos, cfg.verbatim) {
            Some((c, np)) => Some((c, 2, np)),
            None => None,
        }
    }
}

/// The next component of `p` read from the front, from the state
/// `(phase, pos)`.
pub fn front_next_exec(p: &[char], cfg: &PathCfg, phase: u8, pos: usize) -> (r: Option<(Comp, u8, usize)>)
    requires
        cfg.matches(p@),
        valid_state(p@, phase as int, pos as int),
    ensures
        match r {
            Some((c, ph, np)) => front_next(p@, phase as int, pos as int) == Some(
                (c@, ph as int, np as int),
            ),
            None => front_next(p@, phase as int, pos as int) is None,
        },
{
    proof {
        lemma_parse_prefix(p@);
    }
    if phase == 0 {
        match cfg.prefix {
            Some(x) => {
                let rank = prefix_rank_exec(x.kind);
                Some((Comp { rank, a0: x.a0, a1: x.a1, b0: x.b0, b1: x.b1 }, 1, x.len))
            },
            None => start_dir_next_exec(p, cfg, 0),
        }
    } else if phase == 1 {
        start_dir_next_exec(p, cfg, pos)
    } else {
        match body_next_exec(p, pos, cfg.verbatim) {
            Some((c, np)) => Some((c, 2, np)),
            None => None,
        }
    }
}

} // verus!

verus! {

/// The positions of a component lie within the path.
pub open spec fn comp_wf(p: Seq<char>, c: CompSpec) -> bool {
    &&& 0 <= c.a0 <= c.a1 <= c.b0 <= c.b1 <= p.len()
    &&& is_drive_rank(c.rank) ==> c.a1 == c.a0 + 1
    &&& 0 <= c.rank <= 9
}

/// Are `p[a0..a1]` and `q[b0..b1]` the same characters?
pub fn range_eq(p: &[char], a0: usize, a1: usize, q: &[char], b0: usize, b1: usize) -> (r: bool)
    requires
        a0 <= a1 <= p@.len(),
        b0 <= b1 <= q@.len(),
    ensures
        r == (p@.subrange(a0 as int, a1 as int) == q@.subrange(b0 as int, b1 as int)),
{
    if a1 - a0 != b1 - b0 {
        assert(p@.subrange(a0 as int, a1 as int).len() != q@.subrange(b0 as int, b1 as int).len());
        return false;
    }
    let n = a1 - a0;
    let mut i: usize = 0;
    while i < n
        invariant
            a0 <= a1 <= p@.len(),
            b0 <= b1 <= q@.len(),
            n == a1 - a0,
            n == b1 - b0,
            i <= n,
            forall|j: int|
                0 <= j < i ==> #[trigger] p@.subrange(a0 as int, a1 as int)[j] == q@.subrange(
                    b0 as int,
                    b1 as int,
                )[j],
        decreases n - i,
    {
        assert(p@.subrange(a0 as int, a1 as int)[i as int] == p@[a0 + i]);
        assert(q@.subrange(b0 as int, b1 as int)[i as int] == q@[b0 + i]);
        if p[a0 + i] != q[b0 + i] {
            return false;
        }
        i = i + 1;
    }
    assert(p@.subrange(a0 as int, a1 as int) =~= q@.subrange(b0 as int, b1 as int));
    true
}

/// Do the components `cp` of `p` and `cq` of `q` stand for the same thing?
pub fn comp_eq(p: &[char], cp: Comp, q: &[char], cq: Comp) -> (r: bool)
    requires
        comp_wf(p@, cp@),
        comp_wf(q@, cq@),
    ensures
        r == (comp_val(p@, cp@) == comp_val(q@, cq@)),
{
    if cp.rank != cq.rank {
        return false;
    }
    if cp.rank == 2 || cp.rank == 5 {
        char_ascii_upper(p[cp.a0]) == char_ascii_upper(q[cq.a0])
    } else {
        let first = range_eq(p, cp.a0, cp.a1, q, cq.a0, cq.a1);
        let second = range_eq(p, cp.b0, cp.b1, q, cq.b0, cq.b1);
        first && second
    }
}

} // verus!
