//! Agglomerative clustering: neighbouring pixels whose distance lies below a
//! percentile of all factor distances have their clusters merged, the larger
//! cluster absorbing the smaller.
use vstd::prelude::*;

use crate::error::ConfigurationError;
use crate::image::{factors_fit, raster_index, PixelImage, PixeldistFactor};
use crate::partition::{absorb, lemma_absorb_wf, lemma_singletons_wf, partition_wf, singletons, used_ids, Partition};
use crate::pixeldist::PixelDist;

verus! {

/// The share of factor distances that lie below the merge threshold, as the
/// fraction `num / den` in `(0, 1]`.
#[derive(Clone, Copy, Debug, PartialEq, Eq, Structural)]
pub struct Tolerance {
    pub(crate) num: u32,
    pub(crate) den: u32,
}

impl Tolerance {
    pub open(crate) spec fn spec_num(&self) -> u32 {
        self.num
    }

    pub open(crate) spec fn spec_den(&self) -> u32 {
        self.den
    }

    pub open(crate) spec fn wf(&self) -> bool {
        0 < self.num <= self.den
    }

    /// The tolerance `num / den`; it must lie in `(0, 1]`.
    pub fn new(num: u32, den: u32) -> (r: Result<Tolerance, ConfigurationError>)
        ensures
            (0 < num && num <= den) <==> r is Ok,
            r matches Ok(t) ==> t.wf() && t.spec_num() == num && t.spec_den() == den,
            r matches Err(e) ==> e == ConfigurationError::InvalidTolerance,
    {
        if 0 < num && num <= den {
            Ok(Tolerance { num, den })
        } else {
            Err(ConfigurationError::InvalidTolerance)
        }
    }
}

pub open(crate) spec fn leq_u32() -> spec_fn(u32, u32) -> bool {
    |a: u32, b: u32| a <= b
}

/// The factor distances, in factor order.
pub open(crate) spec fn dist_seq(fs: Seq<PixeldistFactor>) -> Seq<u32> {
    fs.map_values(|f: PixeldistFactor| f.distance.scaled_sq)
}

/// The index of the threshold in the sorted distances: `ceil(len * t)`, or
/// `floor(len * t)` where that is out of range, or the last index where both are.
pub open(crate) spec fn threshold_index(len: int, num: int, den: int) -> int {
    let c = (len * num + den - 1) / den;
    let f = (len * num) / den;
    if c < len {
        c
    } else if f < len {
        f
    } else {
        len - 1
    }
}

/// The merge threshold: the sorted factor distances at the threshold index.
pub open(crate) spec fn threshold_spec(fs: Seq<PixeldistFactor>, num: int, den: int) -> u32 {
    dist_seq(fs).sort_by(leq_u32())[threshold_index(fs.len() as int, num, den)]
}

/// Relies on `slice::sort_unstable`: the vector ends up in ascending order and
/// holds the same values.
#[verifier::external_body]
fn sort_ascending(v: &mut Vec<u32>)
    ensures
        final(v)@ == old(v)@.sort_by(leq_u32()),
{
    v.sort_unstable();
}

proof fn lemma_sorted_dists(s: Seq<u32>)
    ensures
        s.sort_by(leq_u32()).len() == s.len(),
        s.sort_by(leq_u32()).to_multiset() == s.to_multiset(),
        vstd::relations::sorted_by(s.sort_by(leq_u32()), leq_u32()),
{
    broadcast use vstd::seq_lib::group_to_multiset_ensures;

    assert(vstd::relations::total_ordering(leq_u32()));
    s.lemma_sort_by_ensures(leq_u32());
    s.to_multiset_ensures();
    s.sort_by(leq_u32()).to_multiset_ensures();
}

/// The distance below which neighbouring pixels merge: the sorted factor
/// distances at index `ceil(len * tolerance)`, falling back to the floor and
/// then to the last index.
pub fn percentile_threshold(factors: &Vec<PixeldistFactor>, tolerance: &Tolerance) -> (r:
    PixelDist)
    requires
        factors@.len() > 0,
        tolerance.wf(),
    ensures
        r.scaled_sq == threshold_spec(
            factors@,
            tolerance.spec_num() as int,
            tolerance.spec_den() as int,
        ),
{
    let mut dists: Vec<u32> = Vec::new();
    let mut j: usize = 0;
    while j < factors.len()
        invariant
            0 <= j <= factors@.len(),
            dists@ == dist_seq(factors@).take(j as int),
        decreases factors@.len() - j,
    {
        dists.push(factors[j].distance.scaled_sq);
        assert(dists@ =~= dist_seq(factors@).take(j + 1));
        j += 1;
    }
    assert(dists@ =~= dist_seq(factors@));
    sort_ascending(&mut dists);
    proof {
        lemma_sorted_dists(dist_seq(factors@));
    }
    let len = factors.len();
    let num = tolerance.num as u128;
    let den = tolerance.den as u128;
    assert(len * num <= 0xffff_ffff_ffff_ffffu128 * 0xffff_ffffu128) by (nonlinear_arith)
        requires
            len <= 0xffff_ffff_ffff_ffffu128,
            num <= 0xffff_ffffu128,
    ;
    let prod: u128 = len as u128 * num;
    let c: u128 = (prod + den - 1) / den;
    let f: u128 = prod / den;
    let idx: usize = if c < len as u128 {
        c as usize
    } else if f < len as u128 {
        f as usize
    } else {
        len - 1
    };
    PixelDist { scaled_sq: dists[idx] }
}

/// The raster index of a factor's first pixel.
pub open(crate) spec fn index_a(img: PixelImage, f: PixeldistFactor) -> int {
    raster_index(img.width as int, f.a_coords.0 as int, f.a_coords.1 as int)
}

/// The raster index of a factor's second pixel.
pub open(crate) spec fn index_b(img: PixelImage, f: PixeldistFactor) -> int {
    raster_index(img.width as int, f.b_coords.0 as int, f.b_coords.1 as int)
}

/// One factor `(a, b)` with distance `d`: where `a` and `b` lie in different
/// clusters and `d` is below the threshold, the cluster with more members
/// absorbs the other; on equal sizes the cluster of `b` is absorbed.
pub open(crate) spec fn merge_step(
    co: Seq<usize>,
    ms: Seq<Seq<usize>>,
    a: int,
    b: int,
    d: u32,
    t: u32,
) -> (Seq<usize>, Seq<Seq<usize>>) {
    let ca = co[a] as int;
    let cb = co[b] as int;
    if ca != cb && d < t {
        if ms[ca].len() >= ms[cb].len() {
            absorb(co, ms, ca, cb)
        } else {
            absorb(co, ms, cb, ca)
        }
    } else {
        (co, ms)
    }
}

/// The partition after the first `m` factors, starting from singletons.
pub open(crate) spec fn agglomerate_upto(
    img: PixelImage,
    fs: Seq<PixeldistFactor>,
    t: u32,
    m: int,
) -> (Seq<usize>, Seq<Seq<usize>>)
    decreases m,
{
    if m <= 0 {
        singletons(img.n())
    } else {
        let s = agglomerate_upto(img, fs, t, m - 1);
        let f = fs[m - 1];
        merge_step(s.0, s.1, index_a(img, f), index_b(img, f), f.distance.scaled_sq, t)
    }
}

proof fn lemma_index_in_bounds(img: PixelImage, c: (u32, u32))
    requires
        img.wf(),
        img.in_bounds(c),
    ensures
        0 <= raster_index(img.width as int, c.0 as int, c.1 as int) < img.n(),
{
    crate::image::lemma_raster_index_bounds(
        img.width as int,
        img.height as int,
        c.0 as int,
        c.1 as int,
    );
}

/// Every state of the agglomeration is a valid partition with one member
/// list per pixel.
pub proof fn lemma_agglomerate_wf(img: PixelImage, fs: Seq<PixeldistFactor>, t: u32, m: int)
    requires
        img.wf(),
        factors_fit(img, fs),
        0 <= m <= fs.len(),
    ensures
        partition_wf(agglomerate_upto(img, fs, t, m).0, agglomerate_upto(img, fs, t, m).1, img.n()),
        agglomerate_upto(img, fs, t, m).1.len() == img.n(),
    decreases m,
{
    if m <= 0 {
        lemma_singletons_wf(img.n());
    } else {
        lemma_agglomerate_wf(img, fs, t, m - 1);
        let s = agglomerate_upto(img, fs, t, m - 1);
        let f = fs[m - 1];
        lemma_index_in_bounds(img, f.a_coords);
        lemma_index_in_bounds(img, f.b_coords);
        let ca = s.0[index_a(img, f)] as int;
        let cb = s.0[index_b(img, f)] as int;
        if ca != cb && f.distance.scaled_sq < t {
            lemma_absorb_wf(s.0, s.1, img.n(), ca, cb);
            lemma_absorb_wf(s.0, s.1, img.n(), cb, ca);
        }
    }
}

/// Clusters the pixels by merging along the factors, in order, every pair
/// whose distance is below `threshold`.
pub fn agglomerate(img: &PixelImage, factors: &Vec<PixeldistFactor>, threshold: PixelDist) -> (r:
    Partition)
    requires
        img.wf(),
        factors_fit(*img, factors@),
    ensures
        (r.clusters(), r.members()) == agglomerate_upto(
            *img,
            factors@,
            threshold.scaled_sq,
            factors@.len() as int,
        ),
        r.wf(img.n()),
{
    let n = img.len();
    let mut part = Partition::singletons(n);
    let mut m: usize = 0;
    while m < factors.len()
        invariant
            img.wf(),
            n == img.n(),
            factors_fit(*img, factors@),
            0 <= m <= factors@.len(),
            (part.clusters(), part.members()) == agglomerate_upto(
                *img,
                factors@,
                threshold.scaled_sq,
                m as int,
            ),
            part.wf(n as int),
            part.members_of@.len() == n,
        decreases factors@.len() - m,
    {
        let f = factors[m];
        proof {
            lemma_agglomerate_wf(*img, factors@, threshold.scaled_sq, m as int);
            assert(img.in_bounds(factors@[m as int].a_coords));
        }
        let a = img.index_of(f.a_coords.0, f.a_coords.1);
        let b = img.index_of(f.b_coords.0, f.b_coords.1);
        let ca = part.cluster_of[a];
        let cb = part.cluster_of[b];
        if ca != cb && f.distance.scaled_sq < threshold.scaled_sq {
            if part.members_of[ca].len() >= part.members_of[cb].len() {
                part.absorb(ca, cb, Ghost(n as int));
            } else {
                part.absorb(cb, ca, Ghost(n as int));
            }
        }
        m += 1;
    }
    part
}

/// One merge step keeps together the pixels that shared a cluster, and the
/// cluster ids it leaves in use were already in use.
proof fn lemma_merge_step_monotone(
    co: Seq<usize>,
    ms: Seq<Seq<usize>>,
    n: int,
    a: int,
    b: int,
    d: u32,
    t: u32,
)
    requires
        partition_wf(co, ms, n),
        0 <= a < n,
        0 <= b < n,
    ensures
        merge_step(co, ms, a, b, d, t).0.len() == n,
        forall|p: int, q: int|
            0 <= p < n && 0 <= q < n && co[p] == co[q] ==> #[trigger] merge_step(co, ms, a, b, d, t).0[p]
                == #[trigger] merge_step(co, ms, a, b, d, t).0[q],
        used_ids(merge_step(co, ms, a, b, d, t).0).subset_of(used_ids(co)),
{
    let co2 = merge_step(co, ms, a, b, d, t).0;
    assert forall|c: usize| used_ids(co2).contains(c) implies used_ids(co).contains(c) by {
        let p = choose|p: int| 0 <= p < co2.len() && co2[p] == c;
        if co2[p] != co[p] {
            if co[co2[p] as int] == co2[p] {
            }
            assert(co2[p] == co[a] || co2[p] == co[b]);
            if co2[p] == co[a] {
                assert(co[a] == c);
            } else {
                assert(co[b] == c);
            }
        } else {
            assert(co[p] == c);
        }
    }
}

/// Agglomeration only merges: pixels that share a cluster after `m1` factors
/// still share one after `m2 >= m1` factors, and the clusters in use after
/// `m2` factors are among those in use after `m1`, so there are no more of them.
pub proof fn lemma_agglomerate_monotone(
    img: PixelImage,
    fs: Seq<PixeldistFactor>,
    t: u32,
    m1: int,
    m2: int,
)
    requires
        img.wf(),
        factors_fit(img, fs),
        0 <= m1 <= m2 <= fs.len(),
    ensures
        forall|p: int, q: int|
            0 <= p < img.n() && 0 <= q < img.n() && agglomerate_upto(img, fs, t, m1).0[p]
                == agglomerate_upto(img, fs, t, m1).0[q] ==> #[trigger] agglomerate_upto(
                img,
                fs,
                t,
                m2,
            ).0[p] == #[trigger] agglomerate_upto(img, fs, t, m2).0[q],
        used_ids(agglomerate_upto(img, fs, t, m2).0).subset_of(
            used_ids(agglomerate_upto(img, fs, t, m1).0),
        ),
        used_ids(agglomerate_upto(img, fs, t, m2).0).len() <= used_ids(
            agglomerate_upto(img, fs, t, m1).0,
        ).len(),
    decreases m2 - m1,
{
    broadcast use vstd::seq_lib::seq_to_set_is_finite;

    if m1 < m2 {
        lemma_agglomerate_monotone(img, fs, t, m1, m2 - 1);
        lemma_agglomerate_wf(img, fs, t, m2 - 1);
        let s = agglomerate_upto(img, fs, t, m2 - 1);
        let f = fs[m2 - 1];
        lemma_index_in_bounds(img, f.a_coords);
        lemma_index_in_bounds(img, f.b_coords);
        lemma_merge_step_monotone(
            s.0,
            s.1,
            img.n(),
            index_a(img, f),
            index_b(img, f),
            f.distance.scaled_sq,
            t,
        );
    }
    vstd::set_lib::lemma_len_subset(
        used_ids(agglomerate_upto(img, fs, t, m2).0),
        used_ids(agglomerate_upto(img, fs, t, m1).0),
    );
}

/// Where no factor distance lies below the threshold, nothing merges: every
/// pixel stays a cluster of its own.
pub proof fn lemma_no_merge_below_threshold(
    img: PixelImage,
    fs: Seq<PixeldistFactor>,
    t: u32,
    m: int,
)
    requires
        img.wf(),
        factors_fit(img, fs),
        0 <= m <= fs.len(),
        forall|j: int| 0 <= j < fs.len() ==> t <= (#[trigger] fs[j]).spec_distance().scaled_sq,
    ensures
        agglomerate_upto(img, fs, t, m) == singletons(img.n()),
    decreases m,
{
    if m > 0 {
        lemma_no_merge_below_threshold(img, fs, t, m - 1);
        assert(t <= fs[m - 1].distance.scaled_sq);
    }
}

/// With the tolerance at 1 the threshold is the largest factor distance.
pub proof fn lemma_full_tolerance_threshold(fs: Seq<PixeldistFactor>, den: int)
    requires
        fs.len() > 0,
        den > 0,
    ensures
        forall|j: int| 0 <= j < fs.len() ==> (#[trigger] fs[j]).spec_distance().scaled_sq <= threshold_spec(fs, den, den),
        exists|j: int| 0 <= j < fs.len() && (#[trigger] fs[j]).spec_distance().scaled_sq == threshold_spec(fs, den, den),
{
    broadcast use vstd::seq_lib::group_to_multiset_ensures;

    let len = fs.len() as int;
    let ds = dist_seq(fs);
    let sorted = ds.sort_by(leq_u32());
    lemma_sorted_dists(ds);
    assert((len * den + den - 1) / den == len) by {
        vstd::arithmetic::div_mod::lemma_fundamental_div_mod_converse(len * den + den - 1, den, len, den - 1);
    }
    assert((len * den) / den == len) by {
        vstd::arithmetic::div_mod::lemma_fundamental_div_mod_converse(len * den, den, len, 0);
    }
    assert(threshold_index(len, den, den) == len - 1);
    assert forall|j: int| 0 <= j < fs.len() implies (#[trigger] fs[j]).spec_distance().scaled_sq <= threshold_spec(fs, den, den) by {
        assert(ds[j] == fs[j].distance.scaled_sq);
        assert(ds.to_multiset().count(ds[j]) > 0);
        assert(sorted.to_multiset().count(ds[j]) > 0);
        assert(sorted.contains(ds[j]));
        let i = choose|i: int| 0 <= i < sorted.len() && sorted[i] == ds[j];
        if i < len - 1 {
            assert(leq_u32()(sorted[i], sorted[len - 1]));
        }
    }
    assert(sorted.to_multiset().count(sorted[len - 1]) > 0);
    assert(ds.to_multiset().count(sorted[len - 1]) > 0);
    assert(ds.contains(sorted[len - 1]));
    let j = choose|j: int| 0 <= j < ds.len() && ds[j] == sorted[len - 1];
    assert(fs[j].distance.scaled_sq == threshold_spec(fs, den, den));
}

/// The factor `f` merges two clusters of the partition `co`: its pixels lie
/// in different clusters and its distance is below the threshold.
pub open(crate) spec fn merges_at(img: PixelImage, co: Seq<usize>, f: PixeldistFactor, t: u32) -> bool {
    co[index_a(img, f)] != co[index_b(img, f)] && f.distance.scaled_sq < t
}

/// Under a valid partition, the ids in use are exactly the clusters with a
/// non-empty member list.
pub proof fn lemma_used_ids_nonempty(co: Seq<usize>, ms: Seq<Seq<usize>>, n: int)
    requires
        partition_wf(co, ms, n),
    ensures
        forall|c: usize| #[trigger] used_ids(co).contains(c) <==> (c < ms.len() && ms[c as int].len() > 0),
{
    assert forall|c: usize| #[trigger] used_ids(co).contains(c) <==> (c < ms.len() && ms[c as int].len() > 0) by {
        if used_ids(co).contains(c) {
            let p = choose|p: int| 0 <= p < co.len() && co[p] == c;
            assert(ms[co[p] as int].contains(p as usize));
        }
        if c < ms.len() && ms[c as int].len() > 0 {
            assert(co[ms[c as int][0] as int] == c as int);
            assert(co.contains(c));
        }
    }
}

/// Each factor either merges two clusters, and the clusters in use lose
/// exactly one id, or leaves the partition as it was.
pub proof fn lemma_agglomerate_step_count(img: PixelImage, fs: Seq<PixeldistFactor>, t: u32, m: int)
    requires
        img.wf(),
        factors_fit(img, fs),
        0 <= m < fs.len(),
    ensures
        merges_at(img, agglomerate_upto(img, fs, t, m).0, fs[m], t) ==> used_ids(
            agglomerate_upto(img, fs, t, m + 1).0,
        ).len() + 1 == used_ids(agglomerate_upto(img, fs, t, m).0).len(),
        !merges_at(img, agglomerate_upto(img, fs, t, m).0, fs[m], t) ==> agglomerate_upto(
            img,
            fs,
            t,
            m + 1,
        ) == agglomerate_upto(img, fs, t, m),
{
    broadcast use vstd::seq_lib::seq_to_set_is_finite;

    lemma_agglomerate_wf(img, fs, t, m);
    let s = agglomerate_upto(img, fs, t, m);
    let co = s.0;
    let ms = s.1;
    let f = fs[m];
    lemma_index_in_bounds(img, f.a_coords);
    lemma_index_in_bounds(img, f.b_coords);
    let ca = co[index_a(img, f)] as int;
    let cb = co[index_b(img, f)] as int;
    if merges_at(img, co, f, t) {
        let (pred, prey) = if ms[ca].len() >= ms[cb].len() {
            (ca, cb)
        } else {
            (cb, ca)
        };
        let co2 = agglomerate_upto(img, fs, t, m + 1).0;
        assert(co2 == absorb(co, ms, pred, prey).0);
        assert(used_ids(co).contains(prey as usize)) by {
            if prey == ca {
                assert(co[index_a(img, f)] == prey);
            } else {
                assert(co[index_b(img, f)] == prey);
            }
        }
        assert(used_ids(co2) =~= used_ids(co).remove(prey as usize)) by {
            assert forall|c: usize| used_ids(co2).contains(c) implies used_ids(co).remove(
                prey as usize,
            ).contains(c) by {
                let p = choose|p: int| 0 <= p < co2.len() && co2[p] == c;
                if co[p] == prey {
                    if pred == ca {
                        assert(co[index_a(img, f)] == c);
                    } else {
                        assert(co[index_b(img, f)] == c);
                    }
                } else {
                    assert(co[p] == c);
                }
            }
            assert forall|c: usize| used_ids(co).remove(prey as usize).contains(c) implies used_ids(
                co2,
            ).contains(c) by {
                let p = choose|p: int| 0 <= p < co.len() && co[p] == c;
                assert(co2[p] == c);
            }
        }
    }
}

/// After a factor with distance below the threshold, its two pixels share a
/// cluster; pixels that shared a cluster before still do; and pixels that share
/// a cluster afterwards shared one before, or sided with the factor's two
/// pixels.
proof fn lemma_merge_step_joins(
    co: Seq<usize>,
    ms: Seq<Seq<usize>>,
    n: int,
    a: int,
    b: int,
    d: u32,
    t: u32,
)
    requires
        partition_wf(co, ms, n),
        0 <= a < n,
        0 <= b < n,
    ensures
        d < t ==> merge_step(co, ms, a, b, d, t).0[a] == merge_step(co, ms, a, b, d, t).0[b],
        forall|p: int, q: int|
            0 <= p < n && 0 <= q < n && #[trigger] merge_step(co, ms, a, b, d, t).0[p]
                == #[trigger] merge_step(co, ms, a, b, d, t).0[q] ==> co[p] == co[q] || (co[p]
                == co[a] && co[q] == co[b]) || (co[p] == co[b] && co[q] == co[a]),
{
}

/// A higher threshold gives a coarser partition: pixels that share a cluster
/// under threshold `t1` share one under any `t2 >= t1`, after the same factors.
pub proof fn lemma_agglomerate_coarser(
    img: PixelImage,
    fs: Seq<PixeldistFactor>,
    t1: u32,
    t2: u32,
    m: int,
)
    requires
        img.wf(),
        factors_fit(img, fs),
        t1 <= t2,
        0 <= m <= fs.len(),
    ensures
        forall|p: int, q: int|
            0 <= p < img.n() && 0 <= q < img.n() && #[trigger] agglomerate_upto(img, fs, t1, m).0[p]
                == #[trigger] agglomerate_upto(img, fs, t1, m).0[q] ==> agglomerate_upto(
                img,
                fs,
                t2,
                m,
            ).0[p] == agglomerate_upto(img, fs, t2, m).0[q],
    decreases m,
{
    if m > 0 {
        let u = m - 1;
        lemma_agglomerate_coarser(img, fs, t1, t2, u);
        lemma_agglomerate_wf(img, fs, t1, u);
        lemma_agglomerate_wf(img, fs, t2, u);
        let s1 = agglomerate_upto(img, fs, t1, u);
        let s2 = agglomerate_upto(img, fs, t2, u);
        let f = fs[u];
        lemma_index_in_bounds(img, f.a_coords);
        lemma_index_in_bounds(img, f.b_coords);
        let a = index_a(img, f);
        let b = index_b(img, f);
        let d = f.distance.scaled_sq;
        lemma_merge_step_joins(s1.0, s1.1, img.n(), a, b, d, t1);
        lemma_merge_step_joins(s2.0, s2.1, img.n(), a, b, d, t2);
        lemma_merge_step_monotone(s2.0, s2.1, img.n(), a, b, d, t2);
        let n1 = agglomerate_upto(img, fs, t1, m).0;
        let n2 = agglomerate_upto(img, fs, t2, m).0;
        assert forall|p: int, q: int|
            0 <= p < img.n() && 0 <= q < img.n() && #[trigger] n1[p] == #[trigger] n1[q] implies n2[p]
                == n2[q] by {
            if s1.0[p] == s1.0[q] {
            } else if s1.0[p] == s1.0[a] && s1.0[q] == s1.0[b] {
                assert(s1.0[a] != s1.0[b]);
                assert(n1[a] == n1[b] ==> d < t1);
                assert(s2.0[p] == s2.0[a] && s2.0[q] == s2.0[b]);
                assert(n2[a] == n2[b]);
            } else {
                assert(s2.0[p] == s2.0[b] && s2.0[q] == s2.0[a]);
                assert(n2[a] == n2[b]);
            }
        }
    }
}

/// No tolerance gives a threshold above the one of tolerance 1.
proof fn lemma_threshold_at_most_full(fs: Seq<PixeldistFactor>, num: int, den: int, full: int)
    requires
        fs.len() > 0,
        0 < num <= den,
        full > 0,
    ensures
        threshold_spec(fs, num, den) <= threshold_spec(fs, full, full),
{
    broadcast use vstd::seq_lib::group_to_multiset_ensures;

    let len = fs.len() as int;
    let ds = dist_seq(fs);
    let sorted = ds.sort_by(leq_u32());
    lemma_sorted_dists(ds);
    lemma_full_tolerance_threshold(fs, full);
    assert(len * num + den - 1 >= 0 && len * num >= 0) by (nonlinear_arith)
        requires
            len > 0,
            num > 0,
            den > 0,
    ;
    vstd::arithmetic::div_mod::lemma_div_pos_is_pos(len * num + den - 1, den);
    vstd::arithmetic::div_mod::lemma_div_pos_is_pos(len * num, den);
    let idx = threshold_index(len, num, den);
    assert(0 <= idx < len);
    assert(sorted.to_multiset().count(sorted[idx]) > 0);
    assert(ds.to_multiset().count(sorted[idx]) > 0);
    assert(ds.contains(sorted[idx]));
    let j = choose|j: int| 0 <= j < ds.len() && ds[j] == sorted[idx];
    assert(fs[j].spec_distance().scaled_sq == sorted[idx]);
}

/// Tolerance 1 merges the most: pixels that share a cluster under any
/// tolerance in `(0, 1]` share one under tolerance 1.
pub proof fn lemma_full_tolerance_coarsest(
    img: PixelImage,
    fs: Seq<PixeldistFactor>,
    num: int,
    den: int,
    full: int,
)
    requires
        img.wf(),
        factors_fit(img, fs),
        0 < num <= den,
        full > 0,
    ensures
        forall|p: int, q: int|
            0 <= p < img.n() && 0 <= q < img.n() && #[trigger] agglomerate_upto(
                img,
                fs,
                threshold_of(fs, num, den),
                fs.len() as int,
            ).0[p] == #[trigger] agglomerate_upto(
                img,
                fs,
                threshold_of(fs, num, den),
                fs.len() as int,
            ).0[q] ==> agglomerate_upto(img, fs, threshold_of(fs, full, full), fs.len() as int).0[p]
                == agglomerate_upto(img, fs, threshold_of(fs, full, full), fs.len() as int).0[q],
{
    if fs.len() > 0 {
        lemma_threshold_at_most_full(fs, num, den, full);
    }
    lemma_agglomerate_coarser(
        img,
        fs,
        threshold_of(fs, num, den),
        threshold_of(fs, full, full),
        fs.len() as int,
    );
}

/// The merge threshold for the factors `fs`; with no factors nothing can
/// merge, and the threshold is zero.
pub open(crate) spec fn threshold_of(fs: Seq<PixeldistFactor>, num: int, den: int) -> u32 {
    if fs.len() == 0 {
        0
    } else {
        threshold_spec(fs, num, den)
    }
}

} // verus!
