//! Predicates on single file names and strings: invalid characters,
//! reserved device names, and the UTF-16 length limit.
use crate::text::{
    char_eq_ignore_ascii_case, chars_of, eq_ignore_ascii_case, lemma_utf16_len_append,
    lemma_utf16_len_le_utf8_len, lemma_utf16_len_push, utf16_len,
};
use vstd::prelude::*;

verus! {

/// The characters that [Naming Conventions] forbid in a path, besides the
/// separators: `< > : " | ? *` and the control characters, codes 0 to 31.
///
/// [Naming Conventions]: https://learn.microsoft.com/en-us/windows/win32/fileio/naming-a-file#naming-conventions
pub open spec fn invalid_path_char(c: char) -> bool {
    (c as u32) < 32 || c == '<' || c == '>' || c == ':' || c == '"' || c == '|' || c == '?' || c == '*'
}

/// Some character of `s` is an invalid path character.
pub open spec fn has_invalid_path_chars_spec(s: Seq<char>) -> bool {
    exists|i: int| 0 <= i < s.len() && #[trigger] invalid_path_char(s[i])
}

/// Whitespace as `u8::is_ascii_whitespace` sees it.
pub open spec fn is_ascii_whitespace(c: char) -> bool {
    c == ' ' || c == '\t' || c == '\n' || c == '\x0C' || c == '\r'
}

/// The index of the first `.` at or after `i`, or the length of `s`.
pub open spec fn first_dot_from(s: Seq<char>, i: int) -> int
    decreases s.len() - i,
{
    if i < 0 || i >= s.len() {
        s.len() as int
    } else if s[i] == '.' {
        i
    } else {
        first_dot_from(s, i + 1)
    }
}

/// The length of `s.take(n)` with its trailing ASCII whitespace removed.
pub open spec fn trim_ascii_end_len(s: Seq<char>, n: int) -> int
    decreases n,
{
    if n <= 0 {
        0
    } else if is_ascii_whitespace(s[n - 1]) {
        trim_ascii_end_len(s, n - 1)
    } else {
        n
    }
}

/// The part of a file name that Windows matches against reserved names:
/// the name up to its first period, without trailing whitespace.
pub open spec fn name_stem(s: Seq<char>) -> Seq<char> {
    s.take(trim_ascii_end_len(s, first_dot_from(s, 0)))
}

pub open spec fn is_com_or_lpt(t: Seq<char>) -> bool {
    t.len() >= 3 && ((eq_ignore_ascii_case(t[0], 'C') && eq_ignore_ascii_case(t[1], 'O')
        && eq_ignore_ascii_case(t[2], 'M')) || (eq_ignore_ascii_case(t[0], 'L')
        && eq_ignore_ascii_case(t[1], 'P') && eq_ignore_ascii_case(t[2], 'T')))
}

/// `t` is one of the reserved device names `CON`, `PRN`, `AUX`, `NUL`,
/// `COM1`..`COM9`, `LPT1`..`LPT9`, `COM¹`, `COM²`, `COM³`, `LPT¹`, `LPT²`,
/// `LPT³`, in any ASCII case.
pub open spec fn reserved_stem(t: Seq<char>) -> bool {
    if t.len() == 3 {
        (eq_ignore_ascii_case(t[0], 'C') && eq_ignore_ascii_case(t[1], 'O')
            && eq_ignore_ascii_case(t[2], 'N')) || (eq_ignore_ascii_case(t[0], 'P')
            && eq_ignore_ascii_case(t[1], 'R') && eq_ignore_ascii_case(t[2], 'N')) || (
        eq_ignore_ascii_case(t[0], 'A') && eq_ignore_ascii_case(t[1], 'U')
            && eq_ignore_ascii_case(t[2], 'X')) || (eq_ignore_ascii_case(t[0], 'N')
            && eq_ignore_ascii_case(t[1], 'U') && eq_ignore_ascii_case(t[2], 'L'))
    } else if t.len() == 4 {
        is_com_or_lpt(t) && (('1' <= t[3] && t[3] <= '9') || t[3] == '\u{b9}' || t[3] == '\u{b2}'
            || t[3] == '\u{b3}')
    } else {
        false
    }
}

/// The file name `s` names a reserved device.
pub open spec fn is_reserved_name_spec(s: Seq<char>) -> bool {
    reserved_stem(name_stem(s))
}

/// Is `c` one of the characters that a path may not hold?
pub fn is_invalid_path_char(c: char) -> (r: bool)
    ensures
        r == invalid_path_char(c),
{
    (c as u32) < 32 || c == '<' || c == '>' || c == ':' || c == '"' || c == '|' || c == '?'
        || c == '*'
}

/// Does `cs[from..to]` hold an invalid path character?
pub fn has_invalid_path_chars_in(cs: &[char], from: usize, to: usize) -> (r: bool)
    requires
        from <= to <= cs@.len(),
    ensures
        r == has_invalid_path_chars_spec(cs@.subrange(from as int, to as int)),
{
    let ghost sub = cs@.subrange(from as int, to as int);
    let mut i = from;
    while i < to
        invariant
            from <= i <= to <= cs@.len(),
            sub == cs@.subrange(from as int, to as int),
            forall|j: int| from <= j < i ==> !invalid_path_char(#[trigger] cs@[j]),
        decreases to - i,
    {
        if is_invalid_path_char(cs[i]) {
            assert(sub[i - from] == cs@[i as int]);
            return true;
        }
        i = i + 1;
    }
    assert forall|j: int| 0 <= j < sub.len() implies !#[trigger] invalid_path_char(sub[j]) by {
        assert(sub[j] == cs@[from + j]);
    }
    false
}

/// Does `s` hold a character that a Windows path may not hold?
pub fn has_invalid_path_chars(s: &str) -> (r: bool)
    ensures
        r == has_invalid_path_chars_spec(s@),
{
    let cs = chars_of(s);
    let r = has_invalid_path_chars_in(cs.as_slice(), 0, cs.len());
    assert(cs@.subrange(0, cs@.len() as int) =~= s@);
    r
}

/// Is `t` a reserved device name (the stem of a reserved file name)?
pub fn is_reserved_stem(t: &[char]) -> (r: bool)
    ensures
        r == reserved_stem(t@),
{
    if t.len() == 3 {
        (char_eq_ignore_ascii_case(t[0], 'C') && char_eq_ignore_ascii_case(t[1], 'O')
            && char_eq_ignore_ascii_case(t[2], 'N')) || (char_eq_ignore_ascii_case(t[0], 'P')
            && char_eq_ignore_ascii_case(t[1], 'R') && char_eq_ignore_ascii_case(t[2], 'N')) || (
        char_eq_ignore_ascii_case(t[0], 'A') && char_eq_ignore_ascii_case(t[1], 'U')
            && char_eq_ignore_ascii_case(t[2], 'X')) || (char_eq_ignore_ascii_case(t[0], 'N')
            && char_eq_ignore_ascii_case(t[1], 'U') && char_eq_ignore_ascii_case(t[2], 'L'))
    } else if t.len() == 4 {
        let com_or_lpt = (char_eq_ignore_ascii_case(t[0], 'C') && char_eq_ignore_ascii_case(
            t[1],
            'O',
        ) && char_eq_ignore_ascii_case(t[2], 'M')) || (char_eq_ignore_ascii_case(t[0], 'L')
            && char_eq_ignore_ascii_case(t[1], 'P') && char_eq_ignore_ascii_case(t[2], 'T'));
        let c = t[3];
        com_or_lpt && (('1' <= c && c <= '9') || c == '\u{b9}' || c == '\u{b2}' || c == '\u{b3}')
    } else {
        false
    }
}

/// Is the file name `cs[from..to]` reserved for a device?
pub fn is_reserved_name_in(cs: &[char], from: usize, to: usize) -> (r: bool)
    requires
        from <= to <= cs@.len(),
    ensures
        r == is_reserved_name_spec(cs@.subrange(from as int, to as int)),
{
    let ghost s = cs@.subrange(from as int, to as int);
    // The stem ends at the first period.
    let mut dot = from;
    while dot < to && cs[dot] != '.'
        invariant
            from <= dot <= to <= cs@.len(),
            s == cs@.subrange(from as int, to as int),
            first_dot_from(s, 0) == first_dot_from(s, dot - from),
        decreases to - dot,
    {
        assert(s[dot - from] == cs@[dot as int]);
        dot = dot + 1;
    }
    if dot < to {
        assert(s[dot - from] == cs@[dot as int]);
    }
    assert(first_dot_from(s, 0) == dot - from);
    // Trailing whitespace does not count.
    let mut end = dot;
    while end > from && (cs[end - 1] == ' ' || cs[end - 1] == '\t' || cs[end - 1] == '\n'
        || cs[end - 1] == '\x0C' || cs[end - 1] == '\r')
        invariant
            from <= end <= dot <= to <= cs@.len(),
            s == cs@.subrange(from as int, to as int),
            trim_ascii_end_len(s, dot - from) == trim_ascii_end_len(s, end - from),
        decreases end,
    {
        assert(s[end - 1 - from] == cs@[end - 1]);
        end = end - 1;
    }
    if end > from {
        assert(s[end - 1 - from] == cs@[end - 1]);
    }
    assert(trim_ascii_end_len(s, dot - from) == end - from);
    let stem = slice_subrange(cs, from, end);
    assert(stem@ =~= name_stem(s));
    is_reserved_stem(stem)
}

/// `cs[from..to]` as a slice.
pub fn slice_subrange(cs: &[char], from: usize, to: usize) -> (r: &[char])
    requires
        from <= to <= cs@.len(),
    ensures
        r@ == cs@.subrange(from as int, to as int),
{
    &cs[from..to]
}

/// Is the file name `s` reserved for a device (`CON`, `aux.txt`, `COM1 .log`)?
pub fn is_reserved_name(s: &str) -> (r: bool)
    ensures
        r == is_reserved_name_spec(s@),
{
    let cs = chars_of(s);
    assert(cs@.subrange(0, cs@.len() as int) =~= s@);
    is_reserved_name_in(cs.as_slice(), 0, cs.len())
}

/// Does `cs[from..to]` take more than `max` UTF-16 code units?
pub fn is_longer_than_wide_in(cs: &[char], from: usize, to: usize, max: u32) -> (r: bool)
    requires
        from <= to <= cs@.len(),
    ensures
        r == (utf16_len(cs@.subrange(from as int, to as int)) > max),
{
    let ghost s = cs@.subrange(from as int, to as int);
    let mut count: u64 = 0;
    let mut i = from;
    while i < to
        invariant
            from <= i <= to <= cs@.len(),
            s == cs@.subrange(from as int, to as int),
            count == utf16_len(cs@.subrange(from as int, i as int)),
            count <= max,
        decreases to - i,
    {
        let c = cs[i];
        let units: u64 = if (c as u32) >= 0x10000 {
            2
        } else {
            1
        };
        proof {
            assert(cs@.subrange(from as int, i + 1) =~= cs@.subrange(from as int, i as int).push(c));
            lemma_utf16_len_push(cs@.subrange(from as int, i as int), c);
        }
        count = count + units;
        if count > max as u64 {
            proof {
                assert(s =~= cs@.subrange(from as int, i + 1) + cs@.subrange(i + 1, to as int));
                lemma_utf16_len_append(cs@.subrange(from as int, i + 1), cs@.subrange(i + 1, to as int));
            }
            return true;
        }
        i = i + 1;
    }
    assert(s =~= cs@.subrange(from as int, i as int));
    false
}

/// Does `s` take more than `max` UTF-16 code units, as the wide-character
/// Windows APIs count its length?
pub fn is_longer_than_wide(s: &str, max: u32) -> (r: bool)
    ensures
        r == (utf16_len(s@) > max),
{
    // No string has more UTF-16 code units than UTF-8 bytes.
    let bytes = s.as_bytes();
    if bytes.len() <= max as usize {
        proof {
            lemma_utf16_len_le_utf8_len(s@);
        }
        return false;
    }
    let cs = chars_of(s);
    assert(cs@.subrange(0, cs@.len() as int) =~= s@);
    is_longer_than_wide_in(cs.as_slice(), 0, cs.len(), max)
}

/// The UTF-16 code units of `c`: one, or a surrogate pair for a character
/// beyond U+FFFF.
pub open spec fn utf16_code_units(c: char) -> Seq<u16> {
    let u = c as u32;
    if u < 0x10000 {
        seq![u as u16]
    } else {
        let v = (u - 0x10000) as u32;
        seq![(0xD800 + (v >> 10)) as u16, (0xDC00 + (v & 0x3FF)) as u16]
    }
}

/// `s` in UTF-16, as the wide-character Windows APIs take it.
pub open spec fn utf16_encode(s: Seq<char>) -> Seq<u16>
    decreases s.len(),
{
    if s.len() == 0 {
        Seq::empty()
    } else {
        utf16_encode(s.drop_last()) + utf16_code_units(s.last())
    }
}

/// A string takes as many UTF-16 code units as `utf16_len` counts.
pub proof fn lemma_utf16_encode_len(s: Seq<char>)
    ensures
        utf16_encode(s).len() == utf16_len(s),
    decreases s.len(),
{
    if s.len() > 0 {
        lemma_utf16_encode_len(s.drop_last());
        assert(s =~= s.drop_last().push(s.last()));
        lemma_utf16_len_push(s.drop_last(), s.last());
    }
}

/// `s` in UTF-16 with a terminating NUL, as the wide-character Windows APIs
/// take a string.
pub fn to_wide_vec_with_nul(s: &str) -> (r: Vec<u16>)
    ensures
        r@ == utf16_encode(s@).push(0),
        r@.len() == utf16_len(s@) + 1,
{
    let cs = chars_of(s);
    let mut wide: Vec<u16> = Vec::new();
    let mut i: usize = 0;
    while i < cs.len()
        invariant
            i <= cs@.len(),
            cs@ == s@,
            wide@ == utf16_encode(cs@.take(i as int)),
        decreases cs@.len() - i,
    {
        let c = cs[i];
        let u = c as u32;
        assert(cs@.take(i + 1).drop_last() =~= cs@.take(i as int));
        if u < 0x10000 {
            wide.push(u as u16);
        } else {
            let v: u32 = u - 0x10000;
            assert(v >> 10 <= 0x3FFFFF) by (bit_vector);
            assert(v & 0x3FF <= 0x3FF) by (bit_vector);
            wide.push((0xD800 + (v >> 10)) as u16);
            wide.push((0xDC00 + (v & 0x3FF)) as u16);
        }
        assert(wide@ =~= utf16_encode(cs@.take(i + 1)));
        i = i + 1;
    }
    assert(cs@.take(cs@.len() as int) =~= s@);
    proof {
        lemma_utf16_encode_len(s@);
    }
    wide.push(0);
    wide
}

} // verus!
