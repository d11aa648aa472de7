//! Character-level vocabulary shared by the path modules: separators,
//! ASCII case folding, and the UTF-16 length of a string.
use vstd::prelude::*;

verus! {

/// `\` or `/`, the two separators of Windows paths.
pub open spec fn is_sep(c: char) -> bool {
    c == '\\' || c == '/'
}

/// The separators of a path: only `\` in a verbatim (`\\?\`) path.
pub open spec fn is_sep_in(c: char, verbatim: bool) -> bool {
    if verbatim {
        c == '\\'
    } else {
        is_sep(c)
    }
}

/// The code of `c` with ASCII upper case letters folded to lower case.
pub open spec fn ascii_lower(c: char) -> u32 {
    if 'A' <= c && c <= 'Z' {
        ((c as u32) + 32) as u32
    } else {
        c as u32
    }
}

/// The code of `c` with ASCII lower case letters folded to upper case.
pub open spec fn ascii_upper(c: char) -> u32 {
    if 'a' <= c && c <= 'z' {
        ((c as u32) - 32) as u32
    } else {
        c as u32
    }
}

pub open spec fn eq_ignore_ascii_case(a: char, b: char) -> bool {
    ascii_lower(a) == ascii_lower(b)
}

pub open spec fn is_ascii_alpha(c: char) -> bool {
    ('A' <= c && c <= 'Z') || ('a' <= c && c <= 'z')
}

/// The number of UTF-16 code units that encode `c`.
pub open spec fn utf16_units(c: char) -> nat {
    if (c as u32) >= 0x10000 {
        2
    } else {
        1
    }
}

/// The number of UTF-16 code units that encode `s`.
pub open spec fn utf16_len(s: Seq<char>) -> nat
    decreases s.len(),
{
    if s.len() == 0 {
        0
    } else {
        utf16_units(s[0]) + utf16_len(s.drop_first())
    }
}

pub proof fn lemma_utf16_len_append(a: Seq<char>, b: Seq<char>)
    ensures
        utf16_len(a + b) == utf16_len(a) + utf16_len(b),
    decreases a.len(),
{
    if a.len() == 0 {
        assert(a + b =~= b);
    } else {
        assert((a + b).drop_first() =~= a.drop_first() + b);
        lemma_utf16_len_append(a.drop_first(), b);
    }
}

pub proof fn lemma_utf16_len_push(a: Seq<char>, c: char)
    ensures
        utf16_len(a.push(c)) == utf16_len(a) + utf16_units(c),
{
    assert(a.push(c) =~= a + seq![c]);
    lemma_utf16_len_append(a, seq![c]);
    assert(seq![c].drop_first() =~= Seq::<char>::empty());
    assert(utf16_len(Seq::<char>::empty()) == 0);
    assert(utf16_len(seq![c]) == utf16_units(c) + utf16_len(seq![c].drop_first()));
}

/// A string never has more UTF-16 code units than UTF-8 bytes.
pub proof fn lemma_utf16_len_le_utf8_len(s: Seq<char>)
    ensures
        utf16_len(s) <= vstd::utf8::encode_utf8(s).len(),
    decreases s.len(),
{
    if s.len() > 0 {
        lemma_utf16_len_le_utf8_len(s.drop_first());
    }
}

/// The number of UTF-8 bytes that encode `c`.
pub open spec fn utf8_units(c: char) -> nat {
    if (c as u32) < 0x80 {
        1
    } else if (c as u32) < 0x800 {
        2
    } else if (c as u32) < 0x10000 {
        3
    } else {
        4
    }
}

/// The number of UTF-8 bytes that encode `s`.
pub open spec fn utf8_len(s: Seq<char>) -> nat
    decreases s.len(),
{
    if s.len() == 0 {
        0
    } else {
        utf8_units(s[0]) + utf8_len(s.drop_first())
    }
}

pub proof fn lemma_utf8_len_append(a: Seq<char>, b: Seq<char>)
    ensures
        utf8_len(a + b) == utf8_len(a) + utf8_len(b),
    decreases a.len(),
{
    if a.len() == 0 {
        assert(a + b =~= b);
    } else {
        assert((a + b).drop_first() =~= a.drop_first() + b);
        lemma_utf8_len_append(a.drop_first(), b);
    }
}

/// Extending a range of `s` by one character adds that character's bytes.
pub proof fn lemma_utf8_len_extend(s: Seq<char>, from: int, to: int)
    requires
        0 <= from <= to < s.len(),
    ensures
        utf8_len(s.subrange(from, to + 1)) == utf8_len(s.subrange(from, to)) + utf8_units(s[to]),
{
    assert(s.subrange(from, to + 1) =~= s.subrange(from, to) + seq![s[to]]);
    lemma_utf8_len_append(s.subrange(from, to), seq![s[to]]);
    assert(seq![s[to]].drop_first() =~= Seq::<char>::empty());
    assert(utf8_len(seq![s[to]]) == utf8_units(s[to]) + utf8_len(seq![s[to]].drop_first()));
}

/// A longer range of `s` from the same start has at least as many bytes.
pub proof fn lemma_utf8_len_monotonic(s: Seq<char>, from: int, to: int, to2: int)
    requires
        0 <= from <= to <= to2 <= s.len(),
    ensures
        utf8_len(s.subrange(from, to)) <= utf8_len(s.subrange(from, to2)),
{
    assert(s.subrange(from, to2) =~= s.subrange(from, to) + s.subrange(to, to2));
    lemma_utf8_len_append(s.subrange(from, to), s.subrange(to, to2));
}

/// The number of UTF-8 bytes that encode `c`.
pub fn char_utf8_units(c: char) -> (r: usize)
    ensures
        r == utf8_units(c),
{
    let u = c as u32;
    if u < 0x80 {
        1
    } else if u < 0x800 {
        2
    } else if u < 0x10000 {
        3
    } else {
        4
    }
}

pub fn is_separator(c: char) -> (r: bool)
    ensures
        r == is_sep(c),
{
    c == '\\' || c == '/'
}

pub fn is_separator_in(c: char, verbatim: bool) -> (r: bool)
    ensures
        r == is_sep_in(c, verbatim),
{
    if verbatim {
        c == '\\'
    } else {
        c == '\\' || c == '/'
    }
}

pub fn char_eq_ignore_ascii_case(a: char, b: char) -> (r: bool)
    ensures
        r == eq_ignore_ascii_case(a, b),
{
    let la: u32 = if 'A' <= a && a <= 'Z' {
        (a as u32) + 32
    } else {
        a as u32
    };
    let lb: u32 = if 'A' <= b && b <= 'Z' {
        (b as u32) + 32
    } else {
        b as u32
    };
    la == lb
}

pub fn char_is_ascii_alpha(c: char) -> (r: bool)
    ensures
        r == is_ascii_alpha(c),
{
    ('A' <= c && c <= 'Z') || ('a' <= c && c <= 'z')
}

pub fn char_ascii_upper(c: char) -> (r: u32)
    ensures
        r == ascii_upper(c),
{
    if 'a' <= c && c <= 'z' {
        (c as u32) - 32
    } else {
        c as u32
    }
}

/// The characters of `s`, in order.
pub fn chars_of(s: &str) -> (v: Vec<char>)
    ensures
        v@ == s@,
{
    let mut v: Vec<char> = Vec::new();
    for c in it: s.chars()
        invariant
            v@ == it.seq().take(it.index() as int),
            it.seq() == s@,
    {
        v.push(c);
    }
    v
}

} // verus!
