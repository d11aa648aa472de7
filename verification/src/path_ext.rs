//! Operations on whole Windows paths: invalid characters, reserved names,
//! length, and prefix stripping, following how Windows reads a path.
use crate::components::{
    body_next, comp_eq, comp_val, comp_wf, comps_from, components, front_next, front_next_exec,
    has_cur_dir, has_implicit_root, has_physical_root, is_verbatim, lemma_comps_from_unfold,
    lemma_front_next, next_sep, next_sep_exec, parse_prefix, path_cfg, prefix_len, rank_normal,
    rank_root, valid_state, body_next_exec, lemma_next_sep, PathCfg, PrefixKind, CompVal,
};
use crate::os_str_ext::{
    has_invalid_path_chars_in, has_invalid_path_chars_spec, is_longer_than_wide_in,
    is_reserved_name_in, is_reserved_name_spec,
};
use crate::text::{chars_of, is_sep, is_sep_in, is_separator_in, utf16_len};
use vstd::prelude::*;

verus! {

/// `path` could not be stripped of `base`: `base` is not a prefix of it.
#[derive(Debug, PartialEq, Eq, Clone, Copy, Structural)]
pub struct StripPrefixError;

/// A character that Windows forbids stands in `p`, outside the parts of its
/// prefix that are syntax (`\\?\`, `\\.\`, the drive colon, a device name).
pub open spec fn has_invalid_chars_spec(p: Seq<char>) -> bool {
    match parse_prefix(p) {
        Some(x) => {
            let rest = has_invalid_path_chars_spec(p.subrange(x.len, p.len() as int));
            let first = has_invalid_path_chars_spec(p.subrange(x.a0, x.a1));
            let second = has_invalid_path_chars_spec(p.subrange(x.b0, x.b1));
            match x.kind {
                PrefixKind::Verbatim => first || rest,
                PrefixKind::UNC | PrefixKind::VerbatimUNC => first || second || rest,
                _ => rest,
            }
        },
        None => has_invalid_path_chars_spec(p),
    }
}

/// Does `path` hold a character that Windows forbids in paths?
pub fn has_invalid_chars(path: &str) -> (r: bool)
    ensures
        r == has_invalid_chars_spec(path@),
{
    let cs = chars_of(path);
    let p = cs.as_slice();
    proof {
        crate::components::lemma_parse_prefix(p@);
    }
    let cfg = path_cfg(p);
    let n = p.len();
    match cfg.prefix {
        Some(x) => {
            let rest = has_invalid_path_chars_in(p, x.len, n);
            match x.kind {
                PrefixKind::Verbatim => has_invalid_path_chars_in(p, x.a0, x.a1) || rest,
                PrefixKind::UNC | PrefixKind::VerbatimUNC => has_invalid_path_chars_in(
                    p,
                    x.a0,
                    x.a1,
                ) || has_invalid_path_chars_in(p, x.b0, x.b1) || rest,
                _ => rest,
            }
        },
        None => {
            let r = has_invalid_path_chars_in(p, 0, n);
            assert(p@.subrange(0, n as int) =~= path@);
            r
        },
    }
}

/// A component that is a reserved device name.
pub open spec fn is_reserved_comp(v: CompVal) -> bool {
    v.rank == rank_normal() && is_reserved_name_spec(v.first)
}

pub open spec fn any_reserved(s: Seq<CompVal>) -> bool {
    exists|i: int| 0 <= i < s.len() && #[trigger] is_reserved_comp(s[i])
}

/// Some component of `p` is a reserved device name.
pub open spec fn has_reserved_names_spec(p: Seq<char>) -> bool {
    any_reserved(components(p))
}

proof fn lemma_any_reserved_cons(v: CompVal, s: Seq<CompVal>)
    ensures
        any_reserved(seq![v] + s) == (is_reserved_comp(v) || any_reserved(s)),
{
    let t = seq![v] + s;
    if is_reserved_comp(v) {
        assert(t[0] == v);
    }
    if any_reserved(s) {
        let i = choose|i: int| 0 <= i < s.len() && #[trigger] is_reserved_comp(s[i]);
        assert(t[i + 1] == s[i]);
    }
    if any_reserved(t) {
        let i = choose|i: int| 0 <= i < t.len() && #[trigger] is_reserved_comp(t[i]);
        if i > 0 {
            assert(t[i] == s[i - 1]);
        }
    }
}

/// Does some component of `path` name a reserved device (`CON`, `aux.txt`)?
pub fn has_reserved_names(path: &str) -> (r: bool)
    ensures
        r == has_reserved_names_spec(path@),
{
    let cs = chars_of(path);
    let p = cs.as_slice();
    let cfg = path_cfg(p);
    let mut phase: u8 = 0;
    let mut pos: usize = 0;
    loop
        invariant
            cfg.matches(p@),
            p@ == path@,
            valid_state(p@, phase as int, pos as int),
            phase <= 2,
            any_reserved(components(p@)) == any_reserved(comps_from(p@, phase as int, pos as int)),
        decreases p@.len() - pos, 2 - phase,
    {
        let next = front_next_exec(p, &cfg, phase, pos);
        proof {
            lemma_front_next(p@, phase as int, pos as int);
            lemma_comps_from_unfold(p@, phase as int, pos as int);
        }
        match next {
            None => {
                return false;
            },
            Some((c, ph, np)) => {
                proof {
                    lemma_any_reserved_cons(
                        comp_val(p@, c@),
                        comps_from(p@, ph as int, np as int),
                    );
                }
                if c.rank == 9 && is_reserved_name_in(p, c.a0, c.a1) {
                    return true;
                }
                phase = ph;
                pos = np;
            },
        }
    }
}

/// Does `path` take more than `max` UTF-16 code units?
pub fn is_longer_than_wide(path: &str, max: u32) -> (r: bool)
    ensures
        r == (utf16_len(path@) > max),
{
    crate::os_str_ext::is_longer_than_wide(path, max)
}

/// `MAX_PATH`, the length limit of a path in the classic Windows APIs, in
/// UTF-16 code units.
pub const MAX_PATH: u32 = 260;

/// Is `path` longer than `MAX_PATH` UTF-16 code units?
pub fn is_longer_than_win_max_path(path: &str) -> (r: bool)
    ensures
        r == (utf16_len(path@) > MAX_PATH),
{
    is_longer_than_wide(path, MAX_PATH)
}

// Trimming, as `Components::as_path` does.

/// A component that yields nothing: empty, or `.` outside verbatim paths.
pub open spec fn is_skipped(p: Seq<char>, a: int, b: int, verbatim: bool) -> bool {
    b == a || (b == a + 1 && p[a] == '.' && !verbatim)
}

/// The start of the body from `pos` on, past empty and `.` components.
pub open spec fn trim_left_from(p: Seq<char>, pos: int, verbatim: bool) -> int
    decreases p.len() - pos,
{
    if pos < 0 || pos >= p.len() {
        pos
    } else {
        let e = next_sep(p, pos, verbatim);
        let np = if e < p.len() {
            e + 1
        } else {
            p.len() as int
        };
        if e < pos {
            pos
        } else if is_skipped(p, pos, e, verbatim) {
            trim_left_from(p, np, verbatim)
        } else {
            pos
        }
    }
}

/// The position of the last separator in `p[start..end]`, or `start - 1`.
pub open spec fn prev_sep(p: Seq<char>, start: int, end: int, verbatim: bool) -> int
    decreases end - start,
{
    if end <= start {
        start - 1
    } else if is_sep_in(p[end - 1], verbatim) {
        end - 1
    } else {
        prev_sep(p, start, end - 1, verbatim)
    }
}

pub proof fn lemma_prev_sep(p: Seq<char>, start: int, end: int, verbatim: bool)
    requires
        0 <= start <= end <= p.len(),
    ensures
        start - 1 <= prev_sep(p, start, end, verbatim) < end,
        prev_sep(p, start, end, verbatim) >= start ==> is_sep_in(
            p[prev_sep(p, start, end, verbatim)],
            verbatim,
        ),
    decreases end - start,
{
    if end > start && !is_sep_in(p[end - 1], verbatim) {
        lemma_prev_sep(p, start, end - 1, verbatim);
    }
}

/// The end of the body up to `end`, before trailing empty and `.` components,
/// but not before `start`.
pub open spec fn trim_right_to(p: Seq<char>, start: int, end: int, verbatim: bool) -> int
    decreases end - start,
{
    if end <= start {
        end
    } else {
        let j = prev_sep(p, start, end, verbatim);
        let a = if j >= start {
            j + 1
        } else {
            start
        };
        let cut = if j >= start {
            j
        } else {
            start
        };
        if j < start - 1 || j >= end {
            end
        } else if is_skipped(p, a, end, verbatim) {
            trim_right_to(p, start, cut, verbatim)
        } else {
            end
        }
    }
}

/// What is left of `p` when it has been read from the front up to the state
/// `(phase, pos)`: the span that `Components::as_path` gives.
pub open spec fn as_path_range(p: Seq<char>, phase: int, pos: int) -> (int, int) {
    let verbatim = is_verbatim(p);
    let l = if phase == 2 {
        trim_left_from(p, pos, verbatim)
    } else {
        pos
    };
    let before_body = (if phase == 0 {
        prefix_len(p)
    } else {
        0
    }) + (if phase <= 1 && has_physical_root(p) {
        1int
    } else {
        0
    }) + (if phase <= 1 && has_cur_dir(p) {
        1int
    } else {
        0
    });
    (l, trim_right_to(p, l + before_body, p.len() as int, verbatim))
}

} // verus!

verus! {

pub proof fn lemma_trim_left_from(p: Seq<char>, pos: int, verbatim: bool)
    requires
        0 <= pos <= p.len(),
    ensures
        pos <= trim_left_from(p, pos, verbatim) <= p.len(),
    decreases p.len() - pos,
{
    if pos < p.len() {
        lemma_next_sep(p, pos, verbatim);
        let e = next_sep(p, pos, verbatim);
        let np = if e < p.len() {
            e + 1
        } else {
            p.len() as int
        };
        if is_skipped(p, pos, e, verbatim) {
            lemma_trim_left_from(p, np, verbatim);
        }
    }
}

pub proof fn lemma_trim_right_to(p: Seq<char>, start: int, end: int, verbatim: bool)
    requires
        0 <= start <= end <= p.len(),
    ensures
        start <= trim_right_to(p, start, end, verbatim) <= end,
    decreases end - start,
{
    if end > start {
        lemma_prev_sep(p, start, end, verbatim);
        let j = prev_sep(p, start, end, verbatim);
        let a = if j >= start {
            j + 1
        } else {
            start
        };
        let cut = if j >= start {
            j
        } else {
            start
        };
        if is_skipped(p, a, end, verbatim) {
            lemma_trim_right_to(p, start, cut, verbatim);
        }
    }
}

pub proof fn lemma_as_path_range(p: Seq<char>, phase: int, pos: int)
    requires
        valid_state(p, phase, pos),
    ensures
        pos <= as_path_range(p, phase, pos).0 <= as_path_range(p, phase, pos).1 <= p.len(),
{
    crate::components::lemma_parse_prefix(p);
    let verbatim = is_verbatim(p);
    if phase == 2 {
        lemma_trim_left_from(p, pos, verbatim);
    }
    let (l, r) = as_path_range(p, phase, pos);
    let before_body = (if phase == 0 {
        prefix_len(p)
    } else {
        0
    }) + (if phase <= 1 && has_physical_root(p) {
        1int
    } else {
        0
    }) + (if phase <= 1 && has_cur_dir(p) {
        1int
    } else {
        0
    });
    assert(l + before_body <= p.len());
    lemma_trim_right_to(p, l + before_body, p.len() as int, verbatim);
}

fn trim_left_exec(p: &[char], pos: usize, verbatim: bool) -> (r: usize)
    requires
        pos <= p@.len(),
    ensures
        r as int == trim_left_from(p@, pos as int, verbatim),
{
    let n = p.len();
    let mut i = pos;
    loop
        invariant
            pos <= i <= n,
            n == p@.len(),
            trim_left_from(p@, pos as int, verbatim) == trim_left_from(p@, i as int, verbatim),
        decreases n - i,
    {
        if i >= n {
            return i;
        }
        let e = next_sep_exec(p, i, verbatim);
        proof {
            lemma_next_sep(p@, i as int, verbatim);
        }
        let np = if e < n {
            e + 1
        } else {
            n
        };
        if e == i || (e - i == 1 && p[i] == '.' && !verbatim) {
            i = np;
        } else {
            return i;
        }
    }
}

/// The last separator in `p[start..end]`.
fn prev_sep_exec(p: &[char], start: usize, end: usize, verbatim: bool) -> (r: Option<usize>)
    requires
        start <= end <= p@.len(),
    ensures
        match r {
            Some(j) => prev_sep(p@, start as int, end as int, verbatim) == j && start <= j < end,
            None => prev_sep(p@, start as int, end as int, verbatim) == start - 1,
        },
{
    let mut k = end;
    while k > start && !is_separator_in(p[k - 1], verbatim)
        invariant
            start <= k <= end <= p@.len(),
            prev_sep(p@, start as int, end as int, verbatim) == prev_sep(
                p@,
                start as int,
                k as int,
                verbatim,
            ),
        decreases k,
    {
        k = k - 1;
    }
    if k > start {
        Some(k - 1)
    } else {
        None
    }
}

fn trim_right_exec(p: &[char], start: usize, end: usize, verbatim: bool) -> (r: usize)
    requires
        start <= end <= p@.len(),
    ensures
        r as int == trim_right_to(p@, start as int, end as int, verbatim),
{
    let mut e = end;
    loop
        invariant
            start <= e <= end <= p@.len(),
            trim_right_to(p@, start as int, end as int, verbatim) == trim_right_to(
                p@,
                start as int,
                e as int,
                verbatim,
            ),
        decreases e,
    {
        if e <= start {
            return e;
        }
        let j = prev_sep_exec(p, start, e, verbatim);
        let (a, cut) = match j {
            Some(j) => (j + 1, j),
            None => (start, start),
        };
        if a == e || (e - a == 1 && p[a] == '.' && !verbatim) {
            e = cut;
        } else {
            return e;
        }
    }
}

/// The span of `p` that is left after reading up to `(phase, pos)`.
fn as_path_range_exec(p: &[char], cfg: &PathCfg, phase: u8, pos: usize) -> (r: (usize, usize))
    requires
        cfg.matches(p@),
        valid_state(p@, phase as int, pos as int),
    ensures
        (r.0 as int, r.1 as int) == as_path_range(p@, phase as int, pos as int),
        r.0 <= r.1 <= p@.len(),
{
    proof {
        lemma_as_path_range(p@, phase as int, pos as int);
        crate::components::lemma_parse_prefix(p@);
    }
    let l = if phase == 2 {
        trim_left_exec(p, pos, cfg.verbatim)
    } else {
        pos
    };
    let plen: usize = match cfg.prefix {
        Some(x) => x.len,
        None => 0,
    };
    let a: usize = if phase == 0 {
        plen
    } else {
        0
    };
    let b: usize = if phase <= 1 && cfg.physical_root {
        1
    } else {
        0
    };
    let c: usize = if phase <= 1 && cfg.cur_dir {
        1
    } else {
        0
    };
    let n = p.len();
    assert(l + a + b + c <= n) by {
        if phase == 2 {
            lemma_trim_left_from(p@, pos as int, cfg.verbatim);
        }
    }
    let r = trim_right_exec(p, l + a + b + c, n, cfg.verbatim);
    (l, r)
}

/// Reading `p` and `b` from their states on, the state of `p` after the
/// components that `b` has left match it, if they all do.
pub open spec fn iter_after(
    p: Seq<char>,
    pph: int,
    ppos: int,
    b: Seq<char>,
    bph: int,
    bpos: int,
) -> Option<(int, int)>
    decreases p.len() - ppos, 2 - pph,
{
    match (front_next(p, pph, ppos), front_next(b, bph, bpos)) {
        (Some((cp, ph2, pos2)), Some((cb, bh2, bp2))) => {
            if comp_val(p, cp) == comp_val(b, cb) && pos2 <= p.len() && (pos2 > ppos || (pos2
                == ppos && ph2 > pph)) && 0 <= pph <= 2 && 0 <= ph2 <= 2 {
                iter_after(p, ph2, pos2, b, bh2, bp2)
            } else {
                None
            }
        },
        (Some(_), None) => Some((pph, ppos)),
        (None, None) => Some((pph, ppos)),
        (None, Some(_)) => None,
    }
}

/// `Path::strip_prefix` on Windows: the rest of `p` when the components of
/// `base` are the first components of `p`.
pub open spec fn strip_prefix_spec(p: Seq<char>, base: Seq<char>) -> Option<Seq<char>> {
    match iter_after(p, 0, 0, base, 0, 0) {
        Some((ph, pos)) => {
            let (l, r) = as_path_range(p, ph, pos);
            Some(p.subrange(l, r))
        },
        None => None,
    }
}

/// `q` without its root, when its first component is a root.
pub open spec fn trim_leading_separator_spec(q: Seq<char>) -> Seq<char> {
    match front_next(q, 0, 0) {
        Some((c, ph, np)) => if c.rank == rank_root() {
            let (l, r) = as_path_range(q, ph, np);
            q.subrange(l, r)
        } else {
            q
        },
        None => q,
    }
}

/// Read from the back, the first component of `q` is its root: only
/// empty and `.` components follow it.
pub open spec fn root_is_last(q: Seq<char>) -> bool {
    &&& has_physical_root(q) || has_implicit_root(q)
    &&& body_next(
        q,
        prefix_len(q) + if has_physical_root(q) {
            1int
        } else {
            0
        },
        is_verbatim(q),
    ) is None
}

/// `q` without its root, when its last component is its root.
pub open spec fn trim_trailing_separator_spec(q: Seq<char>) -> Seq<char> {
    if root_is_last(q) {
        q.take(prefix_len(q))
    } else {
        q
    }
}

/// `strip_prefix`, without the leading separator that it can leave.
pub open spec fn strip_prefix_fix_spec(p: Seq<char>, base: Seq<char>) -> Option<Seq<char>> {
    match strip_prefix_spec(p, base) {
        Some(rest) => Some(trim_leading_separator_spec(rest)),
        None => None,
    }
}

/// The first component of `q` is a root: the `\` of `\dir`.
pub open spec fn starts_with_root(q: Seq<char>) -> bool {
    front_next(q, 0, 0) matches Some((c, _, _)) && c.rank == rank_root()
}

/// Skipping empty and `.` components stops at a component that does not
/// start with a separator.
proof fn lemma_trim_left_from_stops_at_name(p: Seq<char>, pos: int, verbatim: bool)
    requires
        0 <= pos <= p.len(),
    ensures
        trim_left_from(p, pos, verbatim) < p.len() ==> !is_sep_in(
            p[trim_left_from(p, pos, verbatim)],
            verbatim,
        ),
    decreases p.len() - pos,
{
    if pos < p.len() {
        lemma_next_sep(p, pos, verbatim);
        let e = next_sep(p, pos, verbatim);
        let np = if e < p.len() {
            e + 1
        } else {
            p.len() as int
        };
        if is_skipped(p, pos, e, verbatim) {
            lemma_trim_left_from_stops_at_name(p, np, verbatim);
        } else if is_sep_in(p[pos], verbatim) {
            // Then the separator search stops at once: `e == pos`, which is
            // skipped.
            assert(next_sep(p, pos, verbatim) == pos);
        }
    }
}

/// A path trimmed of its leading root does not start with a root.
proof fn lemma_trimmed_starts_without_root(q: Seq<char>)
    ensures
        !starts_with_root(trim_leading_separator_spec(q)),
{
    crate::components::lemma_parse_prefix(q);
    if starts_with_root(q) {
        let (c, ph, np) = front_next(q, 0, 0).unwrap();
        // A prefix would come first, so the root is the physical one at 0.
        assert(parse_prefix(q) is None);
        crate::components::lemma_body_next(q, 0, is_verbatim(q));
        assert(has_physical_root(q));
        assert(ph == 2 && np == 1);
        lemma_as_path_range(q, 2, 1);
        lemma_trim_left_from_stops_at_name(q, 1, false);
        let (l, r) = as_path_range(q, 2, 1);
        let t = q.subrange(l, r);
        assert(t == trim_leading_separator_spec(q));
        crate::components::lemma_parse_prefix(t);
        if t.len() > 0 {
            assert(t[0] == q[l]);
            assert(!is_sep(t[0]));
        }
        if parse_prefix(t) is None {
            assert(!has_physical_root(t));
            assert(!has_implicit_root(t));
            crate::components::lemma_body_next(t, 0, is_verbatim(t));
        }
    }
}

/// `strip_prefix_fix` never leaves a leading separator: what it returns
/// does not start with a root.
pub proof fn law_strip_prefix_fix_leaves_no_root(p: Seq<char>, base: Seq<char>)
    ensures
        strip_prefix_fix_spec(p, base) matches Some(r) ==> !starts_with_root(r),
{
    if let Some(rest) = strip_prefix_spec(p, base) {
        lemma_trimmed_starts_without_root(rest);
    }
}

/// The state of `p` after the components of `b`, if they are its first
/// components.
fn iter_after_exec(p: &[char], b: &[char]) -> (r: Option<(u8, usize)>)
    ensures
        match r {
            Some((ph, pos)) => iter_after(p@, 0, 0, b@, 0, 0) == Some((ph as int, pos as int))
                && valid_state(p@, ph as int, pos as int),
            None => iter_after(p@, 0, 0, b@, 0, 0) is None,
        },
{
    let pc = path_cfg(p);
    let bc = path_cfg(b);
    let mut pph: u8 = 0;
    let mut ppos: usize = 0;
    let mut bph: u8 = 0;
    let mut bpos: usize = 0;
    loop
        invariant
            pc.matches(p@),
            bc.matches(b@),
            valid_state(p@, pph as int, ppos as int),
            valid_state(b@, bph as int, bpos as int),
            pph <= 2,
            bph <= 2,
            iter_after(p@, 0, 0, b@, 0, 0) == iter_after(
                p@,
                pph as int,
                ppos as int,
                b@,
                bph as int,
                bpos as int,
            ),
        decreases p@.len() - ppos, 2 - pph,
    {
        let np = front_next_exec(p, &pc, pph, ppos);
        let nb = front_next_exec(b, &bc, bph, bpos);
        proof {
            lemma_front_next(p@, pph as int, ppos as int);
            lemma_front_next(b@, bph as int, bpos as int);
        }
        match np {
            Some((cp, ph2, pos2)) => match nb {
                Some((cb, bh2, bp2)) => {
                    if comp_eq(p, cp, b, cb) {
                        pph = ph2;
                        ppos = pos2;
                        bph = bh2;
                        bpos = bp2;
                    } else {
                        return None;
                    }
                },
                None => {
                    return Some((pph, ppos));
                },
            },
            None => match nb {
                Some(_) => {
                    return None;
                },
                None => {
                    return Some((pph, ppos));
                },
            },
        }
    }
}

/// `Path::strip_prefix` as Windows reads paths: the rest of `path` after
/// the components of `base`. Like `Path::strip_prefix` on Windows, it may leave a leading
/// separator for UNC paths; see [`strip_prefix_fix`].
pub fn strip_prefix<'a>(path: &'a str, base: &str) -> (r: Result<&'a str, StripPrefixError>)
    ensures
        match r {
            Ok(rest) => strip_prefix_spec(path@, base@) == Some(rest@),
            Err(_) => strip_prefix_spec(path@, base@) is None,
        },
{
    let pcs = chars_of(path);
    let bcs = chars_of(base);
    let p = pcs.as_slice();
    match iter_after_exec(p, bcs.as_slice()) {
        Some((ph, pos)) => {
            let cfg = path_cfg(p);
            let (l, r) = as_path_range_exec(p, &cfg, ph, pos);
            Ok(path.substring_char(l, r))
        },
        None => Err(StripPrefixError),
    }
}

/// `path` without its root, when its first component is a root: `\a\b`
/// becomes `a\b`; other paths stay as they are.
pub fn trim_leading_separator<'a>(path: &'a str) -> (r: &'a str)
    ensures
        r@ == trim_leading_separator_spec(path@),
{
    let cs = chars_of(path);
    let p = cs.as_slice();
    let cfg = path_cfg(p);
    match front_next_exec(p, &cfg, 0, 0) {
        Some((c, ph, np)) => {
            if c.rank == 6 {
                proof {
                    lemma_front_next(p@, 0, 0);
                }
                let (l, r) = as_path_range_exec(p, &cfg, ph, np);
                path.substring_char(l, r)
            } else {
                path
            }
        },
        None => path,
    }
}

/// `path` without its root, when its last component is its root: `\`
/// becomes the empty path, `C:\` becomes `C:`; other paths stay as they are.
pub fn trim_trailing_separator<'a>(path: &'a str) -> (r: &'a str)
    ensures
        r@ == trim_trailing_separator_spec(path@),
{
    let cs = chars_of(path);
    let p = cs.as_slice();
    let cfg = path_cfg(p);
    proof {
        crate::components::lemma_parse_prefix(p@);
    }
    let n = p.len();
    if cfg.physical_root || cfg.implicit_root {
        let plen: usize = match cfg.prefix {
            Some(x) => x.len,
            None => 0,
        };
        let start: usize = if cfg.physical_root {
            // A separator follows the prefix, so the prefix ends before `n`.
            assert(plen < n);
            plen + 1
        } else {
            plen
        };
        if body_next_exec(p, start, cfg.verbatim).is_none() {
            return path.substring_char(0, plen);
        }
    }
    path
}

/// `strip_prefix`, without the leading separator that it may leave for UNC
/// paths: `\\?\UNC\server\share\dir` stripped of `\\?\UNC\server\share`
/// is `dir`.
pub fn strip_prefix_fix<'a>(path: &'a str, base: &str) -> (r: Result<&'a str, StripPrefixError>)
    ensures
        match r {
            Ok(rest) => strip_prefix_fix_spec(path@, base@) == Some(rest@),
            Err(_) => strip_prefix_fix_spec(path@, base@) is None,
        },
{
    match strip_prefix(path, base) {
        Ok(rest) => Ok(trim_leading_separator(rest)),
        Err(e) => Err(e),
    }
}

} // verus!
