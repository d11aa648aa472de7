//! Remote volumes: network shares and the drive letters they are mapped
//! to, kept in the order in which they are tried.
use crate::components::components;
use crate::drive_path::DrivePath;
use crate::net_resource::{local_drive_letter_spec, normalize_remote_spec, NetResource};
use crate::path_ext::{strip_prefix_fix, strip_prefix_fix_spec};
use crate::path_order::{
    comps_order, int_order, lemma_comps_order_antisym, lemma_comps_order_trans, path_order,
    path_order_spec,
};
use crate::text::chars_of;
use vstd::prelude::*;

verus! {

broadcast use vstd::seq_lib::group_to_multiset_ensures;

/// The length of `s` in UTF-8 bytes.
pub open spec fn byte_len(s: Seq<char>) -> int {
    vstd::utf8::encode_utf8(s).len() as int
}

/// The order in which volumes are tried: the shortest path first; for the
/// same path, the lowest drive letter first, and no drive (`'\0'`) last.
pub open spec fn volume_order(a: (char, Seq<char>), b: (char, Seq<char>)) -> int {
    let l = int_order(byte_len(a.1), byte_len(b.1));
    if l != 0 {
        l
    } else {
        let c = path_order_spec(a.1, b.1);
        if c != 0 {
            c
        } else if a.0 != b.0 {
            if a.0 == '\0' {
                1
            } else if b.0 == '\0' {
                -1
            } else {
                int_order(a.0 as int, b.0 as int)
            }
        } else {
            0
        }
    }
}

/// The order of volumes is transitive.
pub proof fn lemma_volume_order_trans(a: (char, Seq<char>), b: (char, Seq<char>), c: (char, Seq<char>))
    requires
        volume_order(a, b) <= 0,
        volume_order(b, c) <= 0,
    ensures
        volume_order(a, c) <= 0,
{
    let (ca, cb, cc) = (components(a.1), components(b.1), components(c.1));
    lemma_comps_order_antisym(ca, cb);
    lemma_comps_order_antisym(cb, cc);
    lemma_comps_order_antisym(ca, cc);
    if byte_len(a.1) == byte_len(b.1) && byte_len(b.1) == byte_len(c.1) {
        lemma_comps_order_trans(ca, cb, cc);
        if comps_order(ca, cc) == 0 {
            lemma_comps_order_trans(cb, cc, ca);
        }
    }
}

/// In a sorted list of volumes every volume comes no later in the order
/// than any volume after it, not only than its neighbour.
pub proof fn law_sorted_volumes_are_in_order(s: Seq<Volume>, i: int, j: int)
    requires
        sorted_volumes(s),
        0 <= i < j < s.len(),
    ensures
        volume_order(s[i]@, s[j]@) <= 0,
    decreases j - i,
{
    if j > i + 1 {
        law_sorted_volumes_are_in_order(s, i, j - 1);
        assert(volume_order(s[j - 1]@, s[j]@) <= 0);
        lemma_volume_order_trans(s[i]@, s[j - 1]@, s[j]@);
    }
}

/// The volumes in the same place in the order as `v`: `same_place(v)(x)`
/// when `x` and `v` are ordered as equals.
pub open spec fn same_place(v: Volume) -> spec_fn(Volume) -> bool {
    |x: Volume| volume_order(x@, v@) == 0
}

/// Volumes in the same place are ordered alike against any other.
proof fn lemma_same_place_congruent(x: (char, Seq<char>), e: (char, Seq<char>), v: (char, Seq<char>))
    requires
        volume_order(e, v) == 0,
    ensures
        volume_order(x, e) == volume_order(x, v),
{
    lemma_comps_order_antisym(components(e.1), components(v.1));
}

/// Filtering out every element leaves nothing.
proof fn lemma_filter_none(s: Seq<Volume>, pred: spec_fn(Volume) -> bool)
    requires
        forall|i: int| 0 <= i < s.len() ==> !pred(#[trigger] s[i]),
    ensures
        s.filter(pred) == Seq::<Volume>::empty(),
    decreases s.len(),
{
    reveal(Seq::filter);
    if s.len() > 0 {
        lemma_filter_none(s.drop_last(), pred);
    }
}

/// Filtering one element keeps it exactly when it passes.
proof fn lemma_filter_single(e: Volume, pred: spec_fn(Volume) -> bool)
    ensures
        seq![e].filter(pred) == (if pred(e) {
            seq![e]
        } else {
            Seq::<Volume>::empty()
        }),
{
    reveal(Seq::filter);
    assert(seq![e].drop_last() =~= Seq::<Volume>::empty());
    assert(Seq::<Volume>::empty().filter(pred) == Seq::<Volume>::empty());
    assert(seq![e].last() == e);
}

/// Moving the first of `before` into `prev` at `k`, after every volume that
/// it does not precede, keeps each place's volumes in their order.
proof fn lemma_insert_keeps_places(prev: Seq<Volume>, before: Seq<Volume>, k: int, e: Volume)
    requires
        0 <= k <= prev.len(),
        before.len() > 0,
        before[0] == e,
        forall|j: int| k <= j < prev.len() ==> volume_order(#[trigger] prev[j]@, e@) > 0,
    ensures
        forall|v: Volume|
            #[trigger] prev.insert(k, e).filter(same_place(v)) + before.drop_first().filter(
                same_place(v),
            ) == prev.filter(same_place(v)) + before.filter(same_place(v)),
{
    assert forall|v: Volume|
        #[trigger] prev.insert(k, e).filter(same_place(v)) + before.drop_first().filter(
            same_place(v),
        ) == prev.filter(same_place(v)) + before.filter(same_place(v)) by {
        let pr = same_place(v);
        let rest = before.drop_first();
        let out = prev.insert(k, e);
        assert(before =~= seq![e] + rest);
        Seq::filter_distributes_over_add(seq![e], rest, pr);
        assert(prev =~= prev.take(k) + prev.skip(k));
        Seq::filter_distributes_over_add(prev.take(k), prev.skip(k), pr);
        assert(out =~= prev.take(k) + seq![e] + prev.skip(k));
        Seq::filter_distributes_over_add(prev.take(k), seq![e], pr);
        Seq::filter_distributes_over_add(prev.take(k) + seq![e], prev.skip(k), pr);
        lemma_filter_single(e, pr);
        if pr(e) {
            assert forall|j: int| 0 <= j < prev.skip(k).len() implies !pr(
                #[trigger] prev.skip(k)[j],
            ) by {
                assert(prev.skip(k)[j] == prev[k + j]);
                lemma_same_place_congruent(prev[k + j]@, e@, v@);
            }
            lemma_filter_none(prev.skip(k), pr);
        }
        assert(out.filter(pr) + rest.filter(pr) =~= prev.filter(pr) + before.filter(pr));
    }
}

/// A remote volume: a network share, and the drive letter that it is mapped
/// to (`'\0'` for none).
#[derive(Debug, PartialEq, Eq)]
pub struct Volume {
    drive_letter: char,
    path: String,
}

impl View for Volume {
    type V = (char, Seq<char>);

    closed spec fn view(&self) -> (char, Seq<char>) {
        (self.drive_letter, self.path@)
    }
}

pub open spec fn sorted_volumes(s: Seq<Volume>) -> bool {
    forall|i: int| 0 <= i < s.len() - 1 ==> volume_order(#[trigger] s[i]@, s[i + 1]@) <= 0
}

pub open spec fn has_drive_spec(v: (char, Seq<char>)) -> bool {
    v.0 != '\0'
}

/// The paths of the two volumes have the same components.
pub open spec fn same_path(a: Volume, b: Volume) -> bool {
    components(a@.1) == components(b@.1)
}

pub proof fn lemma_volume_order_antisym(a: (char, Seq<char>), b: (char, Seq<char>))
    ensures
        volume_order(a, b) == -volume_order(b, a),
{
    lemma_comps_order_antisym(components(a.1), components(b.1));
}

/// In sorted volumes, paths never get shorter.
pub proof fn lemma_sorted_byte_len(s: Seq<Volume>, i: int, j: int)
    requires
        sorted_volumes(s),
        0 <= i <= j < s.len(),
    ensures
        byte_len(s[i]@.1) <= byte_len(s[j]@.1),
    decreases j - i,
{
    if i < j {
        lemma_sorted_byte_len(s, i, j - 1);
        assert(volume_order(s[j - 1]@, s[j]@) <= 0);
    }
}

impl Clone for Volume {
    fn clone(&self) -> (r: Volume)
        ensures
            r == *self,
    {
        Volume { drive_letter: self.drive_letter, path: self.path.clone() }
    }
}

impl Volume {
    pub fn new(drive_letter: char, path: &str) -> (r: Volume)
        ensures
            r@ == (drive_letter, path@),
    {
        Volume { drive_letter, path: path.to_owned() }
    }

    pub fn drive_letter(&self) -> (r: char)
        ensures
            r == self@.0,
    {
        self.drive_letter
    }

    pub fn path(&self) -> (r: &str)
        ensures
            r@ == self@.1,
    {
        self.path.as_str()
    }

    pub fn has_drive(&self) -> (r: bool)
        ensures
            r == has_drive_spec(self@),
    {
        self.drive_letter != '\0'
    }

    /// How `a` and `b` are ordered for trying them: -1, 0 or 1.
    pub fn compare(a: &Volume, b: &Volume) -> (r: i8)
        ensures
            r as int == volume_order(a@, b@),
    {
        let la = a.path.as_str().as_bytes().len();
        let lb = b.path.as_str().as_bytes().len();
        if la < lb {
            return -1;
        }
        if la > lb {
            return 1;
        }
        let pa = chars_of(a.path.as_str());
        let pb = chars_of(b.path.as_str());
        let c = path_order(pa.as_slice(), pb.as_slice());
        if c != 0 {
            return c;
        }
        if a.drive_letter != b.drive_letter {
            if !a.has_drive() {
                1
            } else if !b.has_drive() {
                -1
            } else if a.drive_letter < b.drive_letter {
                -1
            } else {
                1
            }
        } else {
            0
        }
    }

    /// The volumes in the order in which they are tried: the shortest path
    /// first; for the same path, the lowest drive letter first, and no drive
    /// last. Volumes in the same place keep their order.
    pub fn sort(volumes: Vec<Volume>) -> (r: Vec<Volume>)
        ensures
            r@.to_multiset() == volumes@.to_multiset(),
            sorted_volumes(r@),
            forall|v: Volume| #[trigger] r@.filter(same_place(v)) == volumes@.filter(same_place(v)),
    {
        let ghost orig = volumes@;
        let mut input = volumes;
        let mut out: Vec<Volume> = Vec::new();
        while input.len() > 0
            invariant
                out@.to_multiset().add(input@.to_multiset()) == orig.to_multiset(),
                sorted_volumes(out@),
                forall|v: Volume|
                    #[trigger] out@.filter(same_place(v)) + input@.filter(same_place(v))
                        == orig.filter(same_place(v)),
            decreases input@.len(),
        {
            let ghost before = input@;
            let e = input.remove(0);
            proof {
                vstd::seq_lib::to_multiset_remove(before, 0);
            }
            let mut k = out.len();
            while k > 0 && Self::compare(&out[k - 1], &e) > 0
                invariant
                    k <= out@.len(),
                    forall|j: int| k <= j < out@.len() ==> volume_order(#[trigger] out@[j]@, e@) > 0,
                decreases k,
            {
                k = k - 1;
            }
            let ghost prev = out@;
            proof {
                vstd::seq_lib::to_multiset_insert(prev, k as int, e);
            }
            out.insert(k, e);
            proof {
                lemma_insert_keeps_places(prev, before, k as int, e);
            }
            assert forall|i: int| 0 <= i < out@.len() - 1 implies volume_order(
                #[trigger] out@[i]@,
                out@[i + 1]@,
            ) <= 0 by {
                if i + 1 < k {
                    assert(out@[i] == prev[i] && out@[i + 1] == prev[i + 1]);
                } else if i + 1 == k {
                    assert(out@[i] == prev[i]);
                } else if i == k {
                    assert(out@[i + 1] == prev[i]);
                    lemma_volume_order_antisym(prev[i]@, e@);
                } else {
                    assert(out@[i] == prev[i - 1] && out@[i + 1] == prev[i]);
                }
            }
        }
        assert(input@ =~= Seq::<Volume>::empty());
        assert forall|v: Volume| #[trigger] out@.filter(same_place(v)) == volumes@.filter(
            same_place(v),
        ) by {
            reveal(Seq::filter);
            assert(out@.filter(same_place(v)) + input@.filter(same_place(v)) =~= out@.filter(
                same_place(v),
            ));
        }
        out
    }

    /// Merges the volumes of mapped drives and of connected network
    /// resources: one volume per path; where some volume for a path has a
    /// drive letter, the first such one, and otherwise the first one.
    pub fn get_remote_volumes(drives: Vec<Volume>, net_resources: Vec<Volume>) -> (r: Vec<Volume>)
        ensures
            distinct_paths(r@),
            forall|m: int|
                0 <= m < (drives@ + net_resources@).len() ==> #[trigger] covered(
                    r@,
                    (drives@ + net_resources@)[m],
                ),
            forall|i: int|
                0 <= i < r@.len() ==> #[trigger] is_chosen(drives@ + net_resources@, r@[i]),
    {
        let ghost all = drives@ + net_resources@;
        let mut input = drives;
        let mut rest = net_resources;
        input.append(&mut rest);
        let mut out: Vec<Volume> = Vec::new();
        let ghost mut src: Seq<int> = Seq::empty();
        let ghost mut k: int = 0;
        assert(input@ =~= all.skip(0));
        while input.len() > 0
            invariant
                0 <= k <= all.len(),
                input@ == all.skip(k),
                src.len() == out@.len(),
                distinct_paths(out@),
                forall|m: int| 0 <= m < k ==> #[trigger] covered(out@, all[m]),
                forall|i: int|
                    0 <= i < out@.len() ==> 0 <= #[trigger] src[i] < k && all[src[i]] == out@[i]
                        && chosen_in(all, k, src[i]),
            decreases input@.len(),
        {
            let v = input.remove(0);
            assert(v == all[k]);
            assert(input@ =~= all.skip(k + 1));
            let vp = chars_of(v.path());
            let mut idx: usize = 0;
            let mut found = false;
            while idx < out.len()
                invariant
                    idx <= out@.len(),
                    vp@ == v@.1,
                    forall|i: int| 0 <= i < idx ==> !same_path(#[trigger] out@[i], v),
                    found ==> idx < out@.len() && same_path(out@[idx as int], v),
                ensures
                    forall|i: int| 0 <= i < idx ==> !same_path(#[trigger] out@[i], v),
                    found ==> idx < out@.len() && same_path(out@[idx as int], v),
                    !found ==> idx == out@.len(),
                decreases out@.len() - idx,
            {
                let op = chars_of(out[idx].path());
                let c = path_order(op.as_slice(), vp.as_slice());
                proof {
                    lemma_comps_order_antisym(components(op@), components(vp@));
                }
                if c == 0 {
                    found = true;
                    break;
                }
                idx = idx + 1;
            }
            let ghost prev = out@;
            let ghost prev_src = src;
            if found {
                let ghost j0 = src[idx as int];
                if !out[idx].has_drive() && v.has_drive() {
                    out.set(idx, v);
                    proof {
                        src = src.update(idx as int, k);
                        // The replaced volume had no drive, nor had any volume before it
                        // with its path.
                        assert(chosen_in(all, k, j0));
                        assert forall|m: int|
                            0 <= m < k && #[trigger] same_path(all[m], all[k]) implies !has_drive_spec(
                            all[m]@,
                        ) by {
                            assert(same_path(all[m], all[j0]));
                        }
                        assert(chosen_in(all, k + 1, k));
                    }
                } else {
                    proof {
                        assert(chosen_in(all, k, j0));
                        if !has_drive_spec(all[j0]@) {
                            assert(!has_drive_spec(v@));
                            assert forall|m: int|
                                0 <= m < k + 1 && #[trigger] same_path(all[m], all[j0]) implies !has_drive_spec(
                                all[m]@,
                            ) && m >= j0 by {
                                if m < k {
                                    assert(chosen_in(all, k, j0));
                                }
                            }
                        }
                        assert(chosen_in(all, k + 1, j0));
                    }
                }
            } else {
                out.push(v);
                proof {
                    src = src.push(k);
                    assert forall|m: int| 0 <= m < k implies !#[trigger] same_path(all[m], all[k]) by {
                        assert(covered(prev, all[m]));
                        let i = choose|i: int| 0 <= i < prev.len() && same_path(prev[i], all[m]);
                        assert(!same_path(prev[i], v));
                    }
                    assert(chosen_in(all, k + 1, k));
                }
            }
            proof {
                assert forall|i: int, j: int|
                    0 <= i < j < out@.len() implies !same_path(#[trigger] out@[i], #[trigger] out@[j]) by {
                    if found {
                        if i == idx {
                            assert(same_path(out@[i], prev[i]));
                            assert(!same_path(prev[i], prev[j]));
                        } else if j == idx {
                            assert(same_path(out@[j], prev[j]));
                            assert(!same_path(prev[i], prev[j]));
                        } else {
                            assert(!same_path(prev[i], prev[j]));
                        }
                    } else if j == prev.len() {
                        assert(!same_path(prev[i], v));
                    } else {
                        assert(!same_path(prev[i], prev[j]));
                    }
                }
                assert forall|m: int| 0 <= m < k + 1 implies #[trigger] covered(out@, all[m]) by {
                    if m == k {
                        if found {
                            assert(same_path(out@[idx as int], v));
                        } else {
                            assert(out@[prev.len() as int] == v);
                        }
                    } else {
                        assert(covered(prev, all[m]));
                        let i = choose|i: int| 0 <= i < prev.len() && same_path(prev[i], all[m]);
                        assert(same_path(out@[i], all[m]));
                    }
                }
                assert forall|i: int| 0 <= i < out@.len() implies 0 <= #[trigger] src[i] < k + 1
                    && all[src[i]] == out@[i] && chosen_in(all, k + 1, src[i]) by {
                    if i < prev.len() && !(found && i == idx) {
                        let j = prev_src[i];
                        assert(src[i] == j);
                        assert(chosen_in(all, k, j));
                        if !has_drive_spec(all[j]@) {
                            assert forall|m: int|
                                0 <= m < k + 1 && #[trigger] same_path(all[m], all[j]) implies !has_drive_spec(
                                all[m]@,
                            ) && m >= j by {
                                if m == k {
                                    if found {
                                        assert(same_path(prev[idx as int], v));
                                        assert(!same_path(prev[i], prev[idx as int]) || !same_path(
                                            prev[idx as int],
                                            prev[i],
                                        ));
                                    } else {
                                        assert(!same_path(prev[i], v));
                                    }
                                }
                            }
                        }
                    }
                }
                k = k + 1;
            }
        }
        assert forall|i: int| 0 <= i < out@.len() implies #[trigger] is_chosen(all, out@[i]) by {
            let j = src[i];
            assert(chosen_in(all, all.len() as int, j));
        }
        out
    }

    /// The volumes of the network resources that have a remote name.
    pub fn get_net_resources(resources: &Vec<NetResource>) -> (r: Vec<Volume>)
        ensures
            volume_views(r@) == net_volume_views(resources@),
    {
        let mut volumes: Vec<Volume> = Vec::new();
        let mut i: usize = 0;
        while i < resources.len()
            invariant
                i <= resources@.len(),
                volume_views(volumes@) == net_volume_views(resources@.take(i as int)),
            decreases resources@.len() - i,
        {
            let resource = &resources[i];
            assert(resources@.take(i + 1).drop_last() =~= resources@.take(i as int));
            assert(resources@.take(i + 1).last() == resources@[i as int]);
            if !resource.remote.as_str().is_empty() {
                let letter = resource.local_drive_letter();
                let remote = resource.remote_canonicalized();
                let ghost prev = volumes@;
                volumes.push(Volume { drive_letter: letter, path: remote });
                assert(volume_views(volumes@) =~= volume_views(prev).push(volumes@.last()@));
            }
            i = i + 1;
        }
        assert(resources@.take(resources@.len() as int) =~= resources@);
        volumes
    }
}

pub open spec fn volume_views(s: Seq<Volume>) -> Seq<(char, Seq<char>)> {
    s.map_values(|v: Volume| v@)
}

/// The volumes (drive letter, path) of the resources with a remote name.
pub open spec fn net_volume_views(rs: Seq<NetResource>) -> Seq<(char, Seq<char>)>
    decreases rs.len(),
{
    if rs.len() == 0 {
        Seq::empty()
    } else {
        let rest = net_volume_views(rs.drop_last());
        let r = rs.last();
        if r.remote@.len() == 0 {
            rest
        } else {
            rest.push((local_drive_letter_spec(r.local@), normalize_remote_spec(r.remote@)))
        }
    }
}

/// Among the first `n` volumes of `all`, `all[j]` is the one chosen for its
/// path: the first with a drive letter, or, when none has one, the first.
pub open spec fn chosen_in(all: Seq<Volume>, n: int, j: int) -> bool {
    let v = all[j];
    if has_drive_spec(v@) {
        forall|m: int| 0 <= m < j && #[trigger] same_path(all[m], v) ==> !has_drive_spec(all[m]@)
    } else {
        forall|m: int|
            0 <= m < n && #[trigger] same_path(all[m], v) ==> !has_drive_spec(all[m]@) && m >= j
    }
}

/// `v` is one of `all`, and the one chosen for its path.
pub open spec fn is_chosen(all: Seq<Volume>, v: Volume) -> bool {
    exists|j: int| 0 <= j < all.len() && all[j] == v && chosen_in(all, all.len() as int, j)
}

/// No two volumes have the same path.
pub open spec fn distinct_paths(s: Seq<Volume>) -> bool {
    forall|i: int, j: int| 0 <= i < j < s.len() ==> !same_path(#[trigger] s[i], #[trigger] s[j])
}

/// Some volume of `out` has the path of `v`.
pub open spec fn covered(out: Seq<Volume>, v: Volume) -> bool {
    exists|i: int| 0 <= i < out.len() && same_path(out[i], v)
}

} // verus!

verus! {

/// The first of `vols`, from `i` on, whose path `p` lies below, or the
/// number of volumes.
pub open spec fn first_volume_from(vols: Seq<Volume>, p: Seq<char>, i: int) -> int
    decreases vols.len() - i,
{
    if i < 0 || i >= vols.len() {
        vols.len() as int
    } else if strip_prefix_fix_spec(p, vols[i]@.1) is Some {
        i
    } else {
        first_volume_from(vols, p, i + 1)
    }
}

/// The drive and the rest of `p` for the first of `vols` that `p` lies below.
pub open spec fn drive_path_spec(vols: Seq<Volume>, p: Seq<char>) -> Option<(char, Seq<char>)> {
    let i = first_volume_from(vols, p, 0);
    if 0 <= i < vols.len() {
        Some((vols[i]@.0, strip_prefix_fix_spec(p, vols[i]@.1).unwrap()))
    } else {
        None
    }
}

pub proof fn lemma_first_volume_from(vols: Seq<Volume>, p: Seq<char>, i: int)
    requires
        0 <= i <= vols.len(),
    ensures
        i <= first_volume_from(vols, p, i) <= vols.len(),
        forall|j: int|
            i <= j < first_volume_from(vols, p, i) ==> strip_prefix_fix_spec(
                p,
                #[trigger] vols[j]@.1,
            ) is None,
        first_volume_from(vols, p, i) < vols.len() ==> strip_prefix_fix_spec(
            p,
            vols[first_volume_from(vols, p, i)]@.1,
        ) is Some,
    decreases vols.len() - i,
{
    if i < vols.len() && strip_prefix_fix_spec(p, vols[i]@.1) is None {
        lemma_first_volume_from(vols, p, i + 1);
    }
}

/// The drives and paths of [`Volumes::mock`].
pub open spec fn mock_volume_views() -> Seq<(char, Seq<char>)> {
    seq![
        ('H', "\\\\?\\UNC\\server\\share\\dir"@),
        ('X', "\\\\?\\UNC\\server\\share"@),
        ('Z', "\\\\?\\UNC\\server2\\share2"@),
        ('\0', "\\\\?\\UNC\\server0\\share0"@),
    ]
}

/// `s` holds the four volumes of [`Volumes::mock`], in the order in which
/// they are tried.
pub open spec fn is_mock_list(s: Seq<Volume>) -> bool {
    &&& s.len() == 4
    &&& sorted_volumes(s)
    &&& forall|i: int| 0 <= i < 4 ==> volume_views(s).contains(#[trigger] mock_volume_views()[i])
}

/// The remote volumes, in the order in which they are tried.
#[derive(Debug)]
pub struct Volumes {
    volumes: Vec<Volume>,
}

impl Clone for Volumes {
    fn clone(&self) -> (r: Volumes)
        ensures
            r.list() == self.list(),
    {
        proof {
            use_type_invariant(self);
        }
        Volumes { volumes: self.to_vec() }
    }
}

impl Volumes {
    #[verifier::type_invariant]
    closed spec fn inv(self) -> bool {
        sorted_volumes(self.volumes@)
    }

    /// The volumes, in order.
    pub closed spec fn list(self) -> Seq<Volume> {
        self.volumes@
    }

    /// The volumes, in order, as a vector.
    pub fn to_vec(&self) -> (r: Vec<Volume>)
        ensures
            r@ == self.list(),
    {
        let mut out: Vec<Volume> = Vec::new();
        let mut i: usize = 0;
        while i < self.volumes.len()
            invariant
                i <= self.volumes@.len(),
                out@ == self.volumes@.take(i as int),
            decreases self.volumes@.len() - i,
        {
            out.push(self.volumes[i].clone());
            assert(out@ =~= self.volumes@.take(i + 1));
            i = i + 1;
        }
        assert(self.volumes@.take(self.volumes@.len() as int) =~= self.volumes@);
        out
    }

    /// The given volumes, sorted.
    pub fn with_volumes(volumes: Vec<Volume>) -> (r: Volumes)
        ensures
            r.list().to_multiset() == volumes@.to_multiset(),
            sorted_volumes(r.list()),
    {
        let volumes = Volume::sort(volumes);
        Volumes { volumes }
    }

    /// A fixed set of volumes: `H:` on `\\server\share\dir`, `X:` on
    /// `\\server\share`, `Z:` on `\\server2\share2`, and `\\server0\share0`
    /// without a drive.
    pub fn mock() -> (r: Volumes)
        ensures
            is_mock_list(r.list()),
    {
        let mut volumes: Vec<Volume> = Vec::new();
        volumes.push(Volume::new('H', "\\\\?\\UNC\\server\\share\\dir"));
        volumes.push(Volume::new('X', "\\\\?\\UNC\\server\\share"));
        volumes.push(Volume::new('Z', "\\\\?\\UNC\\server2\\share2"));
        volumes.push(Volume::new('\0', "\\\\?\\UNC\\server0\\share0"));
        let ghost src = volumes@;
        let r = Self::with_volumes(volumes);
        proof {
            vstd::seq_lib::to_multiset_len(src);
            vstd::seq_lib::to_multiset_len(r.list());
            let vs = volume_views(r.list());
            assert forall|i: int| 0 <= i < 4 implies vs.contains(#[trigger] src[i]@) by {
                vstd::seq_lib::to_multiset_contains(src, src[i]);
                assert(src.contains(src[i]));
                vstd::seq_lib::to_multiset_contains(r.list(), src[i]);
                let j = choose|j: int| 0 <= j < r.list().len() && r.list()[j] == src[i];
                assert(vs[j] == src[i]@);
            }
            assert(src[0]@ == mock_volume_views()[0]);
            assert(src[1]@ == mock_volume_views()[1]);
            assert(src[2]@ == mock_volume_views()[2]);
            assert(src[3]@ == mock_volume_views()[3]);
        }
        r
    }

    /// The drive of the first volume that `path` lies below, and the rest of
    /// `path` below that volume.
    pub fn _drive_path<'a>(&self, path: &'a str) -> (r: Option<DrivePath<'a>>)
        ensures
            match r {
                Some(d) => drive_path_spec(self.list(), path@) == Some(d@),
                None => drive_path_spec(self.list(), path@) is None,
            },
    {
        let n = self.volumes.len();
        let mut i: usize = 0;
        proof {
            lemma_first_volume_from(self.list(), path@, 0);
        }
        while i < n
            invariant
                i <= n,
                n == self.list().len(),
                first_volume_from(self.list(), path@, 0) == first_volume_from(
                    self.list(),
                    path@,
                    i as int,
                ),
            decreases n - i,
        {
            let volume = &self.volumes[i];
            match strip_prefix_fix(path, volume.path()) {
                Ok(rest) => {
                    return Some(DrivePath::new(volume.drive_letter(), rest));
                },
                Err(_) => {},
            }
            i = i + 1;
        }
        None
    }
}

/// Of the volumes that a path lies below, the one whose drive is found is
/// one with the shortest path.
pub proof fn law_drive_path_prefers_shortest(volumes: Volumes, p: Seq<char>, j: int)
    requires
        sorted_volumes(volumes.list()),
        0 <= j < volumes.list().len(),
        strip_prefix_fix_spec(p, volumes.list()[j]@.1) is Some,
    ensures
        ({
            let i = first_volume_from(volumes.list(), p, 0);
            &&& 0 <= i < volumes.list().len()
            &&& byte_len(volumes.list()[i]@.1) <= byte_len(volumes.list()[j]@.1)
        }),
{
    let vols = volumes.list();
    lemma_first_volume_from(vols, p, 0);
    let i = first_volume_from(vols, p, 0);
    if j < i {
        assert(strip_prefix_fix_spec(p, vols[j]@.1) is None);
    }
    lemma_sorted_byte_len(vols, i, j);
}

} // verus!
