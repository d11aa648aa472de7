//! How Windows paths compare: component by component, as `Path`'s `Ord`
//! does. A comparison is -1, 0 or 1.
use crate::components::{
    comp_val, comp_wf, comps_from, components, front_next, front_next_exec, lemma_comps_from_unfold,
    lemma_front_next, path_cfg, valid_state, CompVal, Comp,
};
use crate::text::char_ascii_upper;
use vstd::prelude::*;

verus! {

pub open spec fn int_order(a: int, b: int) -> int {
    if a < b {
        -1
    } else if a > b {
        1
    } else {
        0
    }
}

/// Lexicographic order of character sequences, by code point.
pub open spec fn chars_order(a: Seq<char>, b: Seq<char>) -> int
    decreases a.len(),
{
    if a.len() == 0 {
        if b.len() == 0 {
            0
        } else {
            -1
        }
    } else if b.len() == 0 {
        1
    } else if (a[0] as u32) < (b[0] as u32) {
        -1
    } else if (a[0] as u32) > (b[0] as u32) {
        1
    } else {
        chars_order(a.drop_first(), b.drop_first())
    }
}

/// The order of components: by kind, then by their names, then by drive.
pub open spec fn comp_val_order(x: CompVal, y: CompVal) -> int {
    let r = int_order(x.rank, y.rank);
    if r != 0 {
        r
    } else {
        let f = chars_order(x.first, y.first);
        if f != 0 {
            f
        } else {
            let s = chars_order(x.second, y.second);
            if s != 0 {
                s
            } else {
                int_order(x.drive, y.drive)
            }
        }
    }
}

/// Lexicographic order of component sequences.
pub open spec fn comps_order(a: Seq<CompVal>, b: Seq<CompVal>) -> int
    decreases a.len(),
{
    if a.len() == 0 {
        if b.len() == 0 {
            0
        } else {
            -1
        }
    } else if b.len() == 0 {
        1
    } else {
        let c = comp_val_order(a[0], b[0]);
        if c != 0 {
            c
        } else {
            comps_order(a.drop_first(), b.drop_first())
        }
    }
}

/// The order of paths.
pub open spec fn path_order_spec(p: Seq<char>, q: Seq<char>) -> int {
    comps_order(components(p), components(q))
}

pub proof fn lemma_chars_order_antisym(a: Seq<char>, b: Seq<char>)
    ensures
        chars_order(a, b) == -chars_order(b, a),
        -1 <= chars_order(a, b) <= 1,
        chars_order(a, b) == 0 <==> a == b,
    decreases a.len(),
{
    if a.len() > 0 && b.len() > 0 {
        lemma_chars_order_antisym(a.drop_first(), b.drop_first());
        if a[0] == b[0] && a.drop_first() == b.drop_first() {
            assert(a =~= seq![a[0]] + a.drop_first());
            assert(b =~= seq![b[0]] + b.drop_first());
        }
        if (a[0] as u32) == (b[0] as u32) {
            vstd::utf8::char_u32_cast(a[0], a[0] as u32);
            vstd::utf8::char_u32_cast(b[0], b[0] as u32);
        }
    } else if a.len() == 0 && b.len() == 0 {
        assert(a =~= b);
    }
}

pub proof fn lemma_comp_val_order_antisym(x: CompVal, y: CompVal)
    ensures
        comp_val_order(x, y) == -comp_val_order(y, x),
        -1 <= comp_val_order(x, y) <= 1,
        comp_val_order(x, y) == 0 <==> x == y,
{
    lemma_chars_order_antisym(x.first, y.first);
    lemma_chars_order_antisym(x.second, y.second);
}

pub proof fn lemma_comps_order_antisym(a: Seq<CompVal>, b: Seq<CompVal>)
    ensures
        comps_order(a, b) == -comps_order(b, a),
        -1 <= comps_order(a, b) <= 1,
        comps_order(a, b) == 0 <==> a == b,
    decreases a.len(),
{
    if a.len() > 0 && b.len() > 0 {
        lemma_comp_val_order_antisym(a[0], b[0]);
        lemma_comps_order_antisym(a.drop_first(), b.drop_first());
        if a[0] == b[0] && a.drop_first() == b.drop_first() {
            assert(a =~= seq![a[0]] + a.drop_first());
            assert(b =~= seq![b[0]] + b.drop_first());
        }
    } else if a.len() == 0 && b.len() == 0 {
        assert(a =~= b);
    }
}

pub proof fn lemma_chars_order_trans(a: Seq<char>, b: Seq<char>, c: Seq<char>)
    requires
        chars_order(a, b) <= 0,
        chars_order(b, c) <= 0,
    ensures
        chars_order(a, c) <= 0,
    decreases a.len(),
{
    if a.len() > 0 && b.len() > 0 && c.len() > 0 && (a[0] as u32) == (c[0] as u32) {
        lemma_chars_order_trans(a.drop_first(), b.drop_first(), c.drop_first());
    }
}

pub proof fn lemma_comp_val_order_trans(x: CompVal, y: CompVal, z: CompVal)
    requires
        comp_val_order(x, y) <= 0,
        comp_val_order(y, z) <= 0,
    ensures
        comp_val_order(x, z) <= 0,
{
    lemma_chars_order_antisym(x.first, y.first);
    lemma_chars_order_antisym(y.first, z.first);
    lemma_chars_order_antisym(x.first, z.first);
    lemma_chars_order_antisym(x.second, y.second);
    lemma_chars_order_antisym(y.second, z.second);
    lemma_chars_order_antisym(x.second, z.second);
    if x.rank == y.rank && y.rank == z.rank {
        lemma_chars_order_trans(x.first, y.first, z.first);
        if x.first == y.first && y.first == z.first {
            lemma_chars_order_trans(x.second, y.second, z.second);
        } else if chars_order(x.first, z.first) == 0 {
            // `x.first <= y.first <= z.first == x.first` makes them all one.
            assert(chars_order(y.first, x.first) <= 0);
        }
        if x.first == y.first && y.first == z.first && chars_order(x.second, z.second) == 0 {
            assert(chars_order(y.second, x.second) <= 0);
        }
    }
}

pub proof fn lemma_comps_order_trans(a: Seq<CompVal>, b: Seq<CompVal>, c: Seq<CompVal>)
    requires
        comps_order(a, b) <= 0,
        comps_order(b, c) <= 0,
    ensures
        comps_order(a, c) <= 0,
    decreases a.len(),
{
    if a.len() > 0 && b.len() > 0 && c.len() > 0 {
        lemma_comp_val_order_antisym(a[0], b[0]);
        lemma_comp_val_order_antisym(b[0], c[0]);
        lemma_comp_val_order_antisym(a[0], c[0]);
        lemma_comp_val_order_trans(a[0], b[0], c[0]);
        if comp_val_order(a[0], c[0]) == 0 {
            lemma_comp_val_order_trans(b[0], c[0], a[0]);
            lemma_comps_order_trans(a.drop_first(), b.drop_first(), c.drop_first());
        }
    }
}

/// The order of `p[a0..a1]` and `q[b0..b1]`.
pub fn range_order(p: &[char], a0: usize, a1: usize, q: &[char], b0: usize, b1: usize) -> (r: i8)
    requires
        a0 <= a1 <= p@.len(),
        b0 <= b1 <= q@.len(),
    ensures
        r as int == chars_order(p@.subrange(a0 as int, a1 as int), q@.subrange(b0 as int, b1 as int)),
{
    let ghost x = p@.subrange(a0 as int, a1 as int);
    let ghost y = q@.subrange(b0 as int, b1 as int);
    let mut i: usize = 0;
    assert(x.skip(0) =~= x);
    assert(y.skip(0) =~= y);
    loop
        invariant
            a0 <= a1 <= p@.len(),
            b0 <= b1 <= q@.len(),
            x == p@.subrange(a0 as int, a1 as int),
            y == q@.subrange(b0 as int, b1 as int),
            i <= a1 - a0,
            i <= b1 - b0,
            chars_order(x, y) == chars_order(x.skip(i as int), y.skip(i as int)),
        decreases a1 - a0 - i,
    {
        let ghost xs = x.skip(i as int);
        let ghost ys = y.skip(i as int);
        if i == a1 - a0 {
            assert(xs.len() == 0);
            return if i == b1 - b0 {
                0
            } else {
                -1
            };
        }
        if i == b1 - b0 {
            return 1;
        }
        let c = p[a0 + i];
        let d = q[b0 + i];
        assert(xs[0] == c && ys[0] == d);
        if (c as u32) < (d as u32) {
            return -1;
        }
        if (c as u32) > (d as u32) {
            return 1;
        }
        assert(xs.drop_first() =~= x.skip(i + 1));
        assert(ys.drop_first() =~= y.skip(i + 1));
        i = i + 1;
    }
}

/// The order of the component `cp` of `p` and `cq` of `q`.
pub fn comp_order(p: &[char], cp: Comp, q: &[char], cq: Comp) -> (r: i8)
    requires
        comp_wf(p@, cp@),
        comp_wf(q@, cq@),
    ensures
        r as int == comp_val_order(comp_val(p@, cp@), comp_val(q@, cq@)),
{
    if cp.rank < cq.rank {
        return -1;
    }
    if cp.rank > cq.rank {
        return 1;
    }
    if cp.rank == 2 || cp.rank == 5 {
        let x = char_ascii_upper(p[cp.a0]);
        let y = char_ascii_upper(q[cq.a0]);
        proof {
            lemma_chars_order_antisym(Seq::<char>::empty(), Seq::<char>::empty());
        }
        if x < y {
            -1
        } else if x > y {
            1
        } else {
            0
        }
    } else {
        let f = range_order(p, cp.a0, cp.a1, q, cq.a0, cq.a1);
        if f != 0 {
            return f;
        }
        let s = range_order(p, cp.b0, cp.b1, q, cq.b0, cq.b1);
        if s != 0 {
            return s;
        }
        0
    }
}

/// The order of the paths `p` and `q`, component by component.
pub fn path_order(p: &[char], q: &[char]) -> (r: i8)
    ensures
        r as int == path_order_spec(p@, q@),
{
    let pc = path_cfg(p);
    let qc = path_cfg(q);
    let mut pph: u8 = 0;
    let mut ppos: usize = 0;
    let mut qph: u8 = 0;
    let mut qpos: usize = 0;
    loop
        invariant
            pc.matches(p@),
            qc.matches(q@),
            valid_state(p@, pph as int, ppos as int),
            valid_state(q@, qph as int, qpos as int),
            pph <= 2,
            qph <= 2,
            path_order_spec(p@, q@) == comps_order(
                comps_from(p@, pph as int, ppos as int),
                comps_from(q@, qph as int, qpos as int),
            ),
        decreases p@.len() - ppos, 2 - pph,
    {
        let np = front_next_exec(p, &pc, pph, ppos);
        let nq = front_next_exec(q, &qc, qph, qpos);
        proof {
            lemma_front_next(p@, pph as int, ppos as int);
            lemma_front_next(q@, qph as int, qpos as int);
            lemma_comps_from_unfold(p@, pph as int, ppos as int);
            lemma_comps_from_unfold(q@, qph as int, qpos as int);
        }
        match np {
            Some((cp, ph2, pos2)) => match nq {
                Some((cq, qh2, qp2)) => {
                    let c = comp_order(p, cp, q, cq);
                    let ghost a = comps_from(p@, pph as int, ppos as int);
                    let ghost b = comps_from(q@, qph as int, qpos as int);
                    assert(a[0] == comp_val(p@, cp@));
                    assert(b[0] == comp_val(q@, cq@));
                    if c != 0 {
                        return c;
                    }
                    assert(a.drop_first() =~= comps_from(p@, ph2 as int, pos2 as int));
                    assert(b.drop_first() =~= comps_from(q@, qh2 as int, qp2 as int));
                    pph = ph2;
                    ppos = pos2;
                    qph = qh2;
                    qpos = qp2;
                },
                None => {
                    return 1;
                },
            },
            None => match nq {
                Some(_) => {
                    return -1;
                },
                None => {
                    return 0;
                },
            },
        }
    }
}

} // verus!
