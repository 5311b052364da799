//! K-means clustering with farthest-point seeding and Lloyd iteration, where
//! every centroid is a pixel of the image. Colours are compared by squared
//! Euclidean distance over red, green and blue.
use vstd::prelude::*;

use rayon::iter::{IndexedParallelIterator, IntoParallelIterator, ParallelIterator};

use crate::error::ConfigurationError;
use crate::image::PixelImage;
use crate::partition::Partition;
use crate::pixeldist::{sq_diff_spec, Rgba};

verus! {

/// Squared Euclidean distance over the red, green and blue channels.
pub open spec fn rgb_dist_sq_spec(p: (u8, u8, u8), q: (u8, u8, u8)) -> int {
    sq_diff_spec(p.0, q.0) + sq_diff_spec(p.1, q.1) + sq_diff_spec(p.2, q.2)
}

pub open spec fn rgb_of(p: Rgba) -> (u8, u8, u8) {
    (p.r, p.g, p.b)
}

/// The squared colour distance between pixels `i` and `j`.
pub open spec fn pdist(px: Seq<Rgba>, i: int, j: int) -> int {
    rgb_dist_sq_spec(rgb_of(px[i]), rgb_of(px[j]))
}

/// Squared Euclidean distance between two RGB triples.
pub fn rgb_dist_sq(r_a: u8, g_a: u8, b_a: u8, r_b: u8, g_b: u8, b_b: u8) -> (r: u32)
    ensures
        r == rgb_dist_sq_spec((r_a, g_a, b_a), (r_b, g_b, b_b)),
        r <= 195075,
{
    let dr = crate::pixeldist::sq_diff(r_a, r_b);
    let dg = crate::pixeldist::sq_diff(g_a, g_b);
    let db = crate::pixeldist::sq_diff(b_a, b_b);
    dr + dg + db
}

fn pixel_dist(px: &Vec<Rgba>, i: usize, j: usize) -> (r: u32)
    requires
        i < px@.len(),
        j < px@.len(),
    ensures
        r == pdist(px@, i as int, j as int),
        r <= 195075,
{
    let p = px[i];
    let q = px[j];
    rgb_dist_sq(p.r, p.g, p.b, q.r, q.g, q.b)
}

/// Centroids are distinct pixels of the image.
pub open spec fn centroids_ok(px: Seq<Rgba>, cs: Seq<usize>) -> bool {
    &&& cs.no_duplicates()
    &&& forall|t: int| 0 <= t < cs.len() ==> #[trigger] cs[t] < px.len()
}

/// Pixel `i` goes to cluster `c`: a centroid goes to its own cluster; any
/// other pixel goes to its nearest centroid, the first of them on ties.
pub open spec fn is_assigned(px: Seq<Rgba>, cs: Seq<usize>, i: int, c: int) -> bool {
    &&& 0 <= c < cs.len()
    &&& if cs.contains(i as usize) {
        cs[c] == i
    } else {
        &&& forall|j: int|
            0 <= j < cs.len() ==> pdist(px, i, cs[c] as int) <= pdist(px, i, #[trigger] cs[j] as int)
        &&& forall|j: int|
            0 <= j < c ==> pdist(px, i, cs[c] as int) < pdist(px, i, #[trigger] cs[j] as int)
    }
}

/// The cluster of pixel `i` given the centroids `cs`.
pub fn nearest_centroid(px: &Vec<Rgba>, cs: &Vec<usize>, i: usize) -> (r: usize)
    requires
        i < px@.len(),
        cs@.len() > 0,
        centroids_ok(px@, cs@),
    ensures
        is_assigned(px@, cs@, i as int, r as int),
{
    let mut best: usize = 0;
    let mut best_d: u32 = pixel_dist(px, i, cs[0]);
    let mut own: usize = cs.len();
    let mut t: usize = 1;
    if cs[0] == i {
        own = 0;
    }
    while t < cs.len()
        invariant
            i < px@.len(),
            centroids_ok(px@, cs@),
            1 <= t <= cs@.len(),
            best < t,
            best_d == pdist(px@, i as int, cs@[best as int] as int),
            forall|j: int| 0 <= j < t ==> best_d <= pdist(px@, i as int, #[trigger] cs@[j] as int),
            forall|j: int| 0 <= j < best ==> best_d < pdist(px@, i as int, #[trigger] cs@[j] as int),
            own == cs@.len() || (own < t && cs@[own as int] == i),
            own == cs@.len() ==> forall|j: int| 0 <= j < t ==> #[trigger] cs@[j] != i,
        decreases cs@.len() - t,
    {
        let d = pixel_dist(px, i, cs[t]);
        if d < best_d {
            best = t;
            best_d = d;
        }
        if cs[t] == i {
            own = t;
        }
        t += 1;
    }
    if own < cs.len() {
        own
    } else {
        best
    }
}

/// Relies on rayon's `collect_into_vec`: the results of an indexed parallel
/// iterator are stored in index order.
#[verifier::external_body]
fn par_assign(px: &Vec<Rgba>, cs: &Vec<usize>) -> (r: Vec<usize>)
    requires
        cs@.len() > 0,
        centroids_ok(px@, cs@),
    ensures
        r@.len() == px@.len(),
        forall|i: int| 0 <= i < px@.len() ==> is_assigned(px@, cs@, i, #[trigger] r@[i] as int),
{
    let mut out: Vec<usize> = Vec::new();
    (0..px.len()).into_par_iter().map(|i| nearest_centroid(px, cs, i)).collect_into_vec(&mut out);
    out
}

/// The distance from pixel `i` to the nearest of the first `m` centroids.
pub open spec fn nearest_dist_upto(px: Seq<Rgba>, cs: Seq<usize>, i: int, m: int) -> int
    decreases m,
{
    if m <= 1 {
        pdist(px, i, cs[0] as int)
    } else {
        let d = pdist(px, i, cs[m - 1] as int);
        let rest = nearest_dist_upto(px, cs, i, m - 1);
        if d < rest {
            d
        } else {
            rest
        }
    }
}

/// The distance from pixel `i` to its nearest centroid.
pub open spec fn nearest_dist(px: Seq<Rgba>, cs: Seq<usize>, i: int) -> int {
    nearest_dist_upto(px, cs, i, cs.len() as int)
}

/// Pixel `i` is the next seed after `cs`: of the pixels that are not yet
/// centroids, the first that lies farthest from its nearest centroid.
pub open spec fn is_farthest(px: Seq<Rgba>, cs: Seq<usize>, i: int) -> bool {
    &&& 0 <= i < px.len()
    &&& !cs.contains(i as usize)
    &&& forall|j: int|
        0 <= j < px.len() && !cs.contains(j as usize) ==> #[trigger] nearest_dist(px, cs, j)
            <= nearest_dist(px, cs, i)
    &&& forall|j: int|
        0 <= j < i && !cs.contains(j as usize) ==> #[trigger] nearest_dist(px, cs, j)
            < nearest_dist(px, cs, i)
}

/// `cs` is the farthest-point seeding that starts from pixel `first`.
pub open spec fn seeds_spec(px: Seq<Rgba>, cs: Seq<usize>, first: int) -> bool {
    &&& cs.len() >= 1
    &&& cs[0] == first
    &&& forall|t: int| 1 <= t < cs.len() ==> is_farthest(px, cs.take(t), #[trigger] cs[t] as int)
}

proof fn lemma_farthest_unique(px: Seq<Rgba>, cs: Seq<usize>, i: int, j: int)
    requires
        is_farthest(px, cs, i),
        is_farthest(px, cs, j),
    ensures
        i == j,
{
    if i < j {
        assert(nearest_dist(px, cs, i) < nearest_dist(px, cs, j));
        assert(nearest_dist(px, cs, j) <= nearest_dist(px, cs, i));
    } else if j < i {
        assert(nearest_dist(px, cs, j) < nearest_dist(px, cs, i));
        assert(nearest_dist(px, cs, i) <= nearest_dist(px, cs, j));
    }
}

proof fn lemma_seeds_prefix(px: Seq<Rgba>, s1: Seq<usize>, s2: Seq<usize>, first: int, t: int)
    requires
        seeds_spec(px, s1, first),
        seeds_spec(px, s2, first),
        1 <= t <= s1.len(),
        t <= s2.len(),
    ensures
        s1.take(t) == s2.take(t),
    decreases t,
{
    if t == 1 {
        assert(s1.take(1) =~= s2.take(1));
    } else {
        let u = t - 1;
        lemma_seeds_prefix(px, s1, s2, first, u);
        assert(is_farthest(px, s1.take(u), s1[u] as int));
        assert(is_farthest(px, s2.take(u), s2[u] as int));
        lemma_farthest_unique(px, s1.take(u), s1[u] as int, s2[u] as int);
        assert(s1.take(t) =~= s1.take(u).push(s1[u]));
        assert(s2.take(t) =~= s2.take(u).push(s2[u]));
    }
}

/// The seeding from a given first pixel is unique: two seedings of the same
/// length that start from the same pixel are equal.
pub proof fn lemma_seeds_unique(px: Seq<Rgba>, s1: Seq<usize>, s2: Seq<usize>, first: int)
    requires
        seeds_spec(px, s1, first),
        seeds_spec(px, s2, first),
        s1.len() == s2.len(),
    ensures
        s1 == s2,
{
    lemma_seeds_prefix(px, s1, s2, first, s1.len() as int);
    assert(s1.take(s1.len() as int) =~= s1);
    assert(s2.take(s2.len() as int) =~= s2);
}

fn nearest_dist_exec(px: &Vec<Rgba>, cs: &Vec<usize>, i: usize) -> (r: u32)
    requires
        i < px@.len(),
        cs@.len() > 0,
        centroids_ok(px@, cs@),
    ensures
        r == nearest_dist(px@, cs@, i as int),
{
    let mut best: u32 = pixel_dist(px, i, cs[0]);
    let mut t: usize = 1;
    while t < cs.len()
        invariant
            i < px@.len(),
            centroids_ok(px@, cs@),
            1 <= t <= cs@.len(),
            best == nearest_dist_upto(px@, cs@, i as int, t as int),
        decreases cs@.len() - t,
    {
        let d = pixel_dist(px, i, cs[t]);
        if d < best {
            best = d;
        }
        t += 1;
    }
    best
}

fn contains_index(cs: &Vec<usize>, i: usize) -> (r: bool)
    ensures
        r == cs@.contains(i),
{
    let mut t: usize = 0;
    while t < cs.len()
        invariant
            0 <= t <= cs@.len(),
            forall|j: int| 0 <= j < t ==> #[trigger] cs@[j] != i,
        decreases cs@.len() - t,
    {
        if cs[t] == i {
            return true;
        }
        t += 1;
    }
    false
}

/// Fewer than `n` indices leave some index below `n` out.
proof fn lemma_missing_index(cs: Seq<usize>, n: int)
    requires
        cs.len() < n <= usize::MAX,
    ensures
        exists|i: int| 0 <= i < n && !#[trigger] cs.contains(i as usize),
{
    broadcast use vstd::seq_lib::seq_to_set_is_finite;

    if forall|i: int| 0 <= i < n ==> #[trigger] cs.contains(i as usize) {
        let ci = cs.map_values(|x: usize| x as int);
        assert forall|i: int| vstd::set_lib::set_int_range(0, n).contains(i) implies #[trigger] ci.to_set().contains(i) by {
            assert(cs.contains(i as usize));
            let j = choose|j: int| 0 <= j < cs.len() && cs[j] == i as usize;
            assert(ci[j] == i);
        }
        vstd::set_lib::lemma_int_range(0, n);
        ci.lemma_cardinality_of_set();
        vstd::set_lib::lemma_len_subset(vstd::set_lib::set_int_range(0, n), ci.to_set());
    }
}

/// The next seed: of the pixels that are not yet centroids, the first that
/// lies farthest from its nearest centroid.
fn farthest_pixel(px: &Vec<Rgba>, cs: &Vec<usize>) -> (r: usize)
    requires
        0 < cs@.len() < px@.len(),
        centroids_ok(px@, cs@),
    ensures
        is_farthest(px@, cs@, r as int),
{
    let n = px.len();
    let mut found = false;
    let mut best: usize = 0;
    let mut best_d: u32 = 0;
    let mut i: usize = 0;
    while i < n
        invariant
            n == px@.len(),
            0 < cs@.len() < n,
            centroids_ok(px@, cs@),
            0 <= i <= n,
            found ==> best < i && !cs@.contains(best) && best_d == nearest_dist(px@, cs@, best as int),
            found ==> forall|j: int|
                0 <= j < i && !cs@.contains(j as usize) ==> #[trigger] nearest_dist(px@, cs@, j) <= best_d,
            found ==> forall|j: int|
                0 <= j < best && !cs@.contains(j as usize) ==> #[trigger] nearest_dist(px@, cs@, j) < best_d,
            !found ==> forall|j: int| 0 <= j < i ==> #[trigger] cs@.contains(j as usize),
        decreases n - i,
    {
        if !contains_index(cs, i) {
            let d = nearest_dist_exec(px, cs, i);
            if !found || d > best_d {
                best = i;
                best_d = d;
                found = true;
            }
        }
        i += 1;
    }
    proof {
        if !found {
            lemma_missing_index(cs@, n as int);
        }
    }
    best
}

/// Farthest-point seeding: `first` is the first centroid, and each further
/// centroid is the pixel farthest from its nearest centroid so far.
pub fn seed_centroids(px: &Vec<Rgba>, k: usize, first: usize) -> (r: Vec<usize>)
    requires
        1 <= k <= px@.len(),
        first < px@.len(),
    ensures
        r@.len() == k,
        seeds_spec(px@, r@, first as int),
        centroids_ok(px@, r@),
{
    let mut cs: Vec<usize> = Vec::new();
    cs.push(first);
    while cs.len() < k
        invariant
            1 <= cs@.len() <= k <= px@.len(),
            seeds_spec(px@, cs@, first as int),
            centroids_ok(px@, cs@),
        decreases k - cs@.len(),
    {
        let f = farthest_pixel(px, &cs);
        let ghost before = cs@;
        cs.push(f);
        proof {
            assert(cs@.take(before.len() as int) =~= before);
            assert forall|t: int| 1 <= t < cs@.len() implies is_farthest(
                px@,
                cs@.take(t),
                #[trigger] cs@[t] as int,
            ) by {
                if t < before.len() {
                    assert(cs@.take(t) =~= before.take(t));
                }
            }
            assert forall|a: int, b: int| 0 <= a < cs@.len() && 0 <= b < cs@.len() && a != b implies cs@[a] != cs@[b] by {
                if a == before.len() {
                    assert(before.contains(cs@[b]) || b == a);
                } else if b == before.len() {
                    assert(before.contains(cs@[a]));
                }
            }
        }
    }
    cs
}

pub open spec fn channel(p: Rgba, ch: int) -> int {
    if ch == 0 {
        p.r as int
    } else if ch == 1 {
        p.g as int
    } else {
        p.b as int
    }
}

/// The sum of channel `ch` over the pixels among the first `m` that are
/// assigned to cluster `c`.
pub open spec fn channel_sum(px: Seq<Rgba>, a: Seq<usize>, c: int, ch: int, m: int) -> int
    decreases m,
{
    if m <= 0 {
        0
    } else {
        channel_sum(px, a, c, ch, m - 1) + if a[m - 1] == c {
            channel(px[m - 1], ch)
        } else {
            0
        }
    }
}

/// The number of pixels among the first `m` that are assigned to cluster `c`.
pub open spec fn member_count(a: Seq<usize>, c: int, m: int) -> int
    decreases m,
{
    if m <= 0 {
        0
    } else {
        member_count(a, c, m - 1) + if a[m - 1] == c {
            1int
        } else {
            0
        }
    }
}

/// The channel-wise mean colour of cluster `c`, each channel rounded down.
pub open spec fn mean_rgb(px: Seq<Rgba>, a: Seq<usize>, c: int) -> (u8, u8, u8) {
    let n = a.len() as int;
    let size = member_count(a, c, n);
    (
        (channel_sum(px, a, c, 0, n) / size) as u8,
        (channel_sum(px, a, c, 1, n) / size) as u8,
        (channel_sum(px, a, c, 2, n) / size) as u8,
    )
}

/// Pixel `i` is the new centroid of cluster `c`: the first of its members
/// that lies closest to the cluster's mean colour.
pub open spec fn is_closest_member(px: Seq<Rgba>, a: Seq<usize>, c: int, i: int) -> bool {
    let m = mean_rgb(px, a, c);
    &&& 0 <= i < a.len()
    &&& a[i] == c
    &&& forall|j: int|
        0 <= j < a.len() && #[trigger] a[j] == c ==> rgb_dist_sq_spec(rgb_of(px[i]), m)
            <= rgb_dist_sq_spec(rgb_of(px[j]), m)
    &&& forall|j: int|
        0 <= j < i && #[trigger] a[j] == c ==> rgb_dist_sq_spec(rgb_of(px[i]), m)
            < rgb_dist_sq_spec(rgb_of(px[j]), m)
}

/// The within-cluster sum of squares over the first `m` pixels: each pixel's
/// squared distance to the mean colour of its cluster.
pub open spec fn wcss_upto(px: Seq<Rgba>, a: Seq<usize>, m: int) -> int
    decreases m,
{
    if m <= 0 {
        0
    } else {
        wcss_upto(px, a, m - 1) + rgb_dist_sq_spec(rgb_of(px[m - 1]), mean_rgb(px, a, a[m - 1] as int))
    }
}

/// The within-cluster sum of squares of the assignment `a`. It sums squared
/// RGB distances (integers), not the distances themselves: the run's
/// lower-than-before and two-value-cycle tests act on this sum.
pub open spec fn wcss_spec(px: Seq<Rgba>, a: Seq<usize>) -> int {
    wcss_upto(px, a, a.len() as int)
}

/// Every pixel is assigned to one of `k` clusters, and none of them is empty.
pub open spec fn assignment_ok(px: Seq<Rgba>, a: Seq<usize>, k: int) -> bool {
    &&& a.len() == px.len()
    &&& forall|i: int| 0 <= i < a.len() ==> #[trigger] a[i] < k
    &&& forall|c: int| 0 <= c < k ==> #[trigger] a.contains(c as usize)
}

fn filled<T: Copy>(x: T, k: usize) -> (r: Vec<T>)
    ensures
        r@.len() == k,
        forall|c: int| 0 <= c < k ==> #[trigger] r@[c] == x,
{
    let mut v: Vec<T> = Vec::new();
    while v.len() < k
        invariant
            v@.len() <= k,
            forall|c: int| 0 <= c < v@.len() ==> #[trigger] v@[c] == x,
        decreases k - v@.len(),
    {
        v.push(x);
    }
    v
}

proof fn lemma_member_count_positive(a: Seq<usize>, c: int, i: int, m: int)
    requires
        0 <= i < m <= a.len(),
        a[i] == c,
    ensures
        member_count(a, c, m) > 0,
    decreases m,
{
    if i < m - 1 {
        lemma_member_count_positive(a, c, i, m - 1);
    }
    lemma_member_count_nonneg(a, c, m - 1);
}

proof fn lemma_member_count_nonneg(a: Seq<usize>, c: int, m: int)
    ensures
        member_count(a, c, m) >= 0,
    decreases m,
{
    if m > 0 {
        lemma_member_count_nonneg(a, c, m - 1);
    }
}

/// The mean colour of each of the `k` clusters.
#[verifier::spinoff_prover]
fn cluster_means(px: &Vec<Rgba>, a: &Vec<usize>, k: usize) -> (r: Vec<(u8, u8, u8)>)
    requires
        assignment_ok(px@, a@, k as int),
    ensures
        r@.len() == k,
        forall|c: int| 0 <= c < k ==> #[trigger] r@[c] == mean_rgb(px@, a@, c),
{
    let n = a.len();
    let mut sr: Vec<u128> = filled(0u128, k);
    let mut sg: Vec<u128> = filled(0u128, k);
    let mut sb: Vec<u128> = filled(0u128, k);
    let mut cnt: Vec<usize> = filled(0usize, k);
    let mut i: usize = 0;
    while i < n
        invariant
            n == a@.len(),
            assignment_ok(px@, a@, k as int),
            0 <= i <= n,
            sr@.len() == k,
            sg@.len() == k,
            sb@.len() == k,
            cnt@.len() == k,
            forall|c: int|
                0 <= c < k ==> #[trigger] sr@[c] == channel_sum(px@, a@, c, 0, i as int) && sg@[c]
                    == channel_sum(px@, a@, c, 1, i as int) && sb@[c] == channel_sum(
                    px@,
                    a@,
                    c,
                    2,
                    i as int,
                ) && cnt@[c] == member_count(a@, c, i as int) && cnt@[c] <= i && sr@[c] <= 255
                    * cnt@[c] && sg@[c] <= 255 * cnt@[c] && sb@[c] <= 255 * cnt@[c],
        decreases n - i,
    {
        let c = a[i];
        let p = px[i];
        let ghost (or, og, ob, oc) = (sr@, sg@, sb@, cnt@);
        assert(or[c as int] <= 255 * oc[c as int] && oc[c as int] <= i);
        assert(255 * oc[c as int] <= 255 * (i as int)) by (nonlinear_arith)
            requires
                oc[c as int] <= i,
        ;
        sr.set(c, sr[c] + p.r as u128);
        sg.set(c, sg[c] + p.g as u128);
        sb.set(c, sb[c] + p.b as u128);
        cnt.set(c, cnt[c] + 1);
        proof {
            assert forall|d: int| 0 <= d < k implies #[trigger] sr@[d] == channel_sum(
                px@,
                a@,
                d,
                0,
                i + 1,
            ) && sg@[d] == channel_sum(px@, a@, d, 1, i + 1) && sb@[d] == channel_sum(
                px@,
                a@,
                d,
                2,
                i + 1,
            ) && cnt@[d] == member_count(a@, d, i + 1) && cnt@[d] <= i + 1 && sr@[d] <= 255
                * cnt@[d] && sg@[d] <= 255 * cnt@[d] && sb@[d] <= 255 * cnt@[d] by {
                assert(or[d] == channel_sum(px@, a@, d, 0, i as int));
                assert(oc[d] <= i);
                if d != c as int {
                    assert(sr@[d] == or[d]);
                }
            }
        }
        i += 1;
    }
    let mut means: Vec<(u8, u8, u8)> = Vec::new();
    let mut c: usize = 0;
    while c < k
        invariant
            n == a@.len(),
            i == n,
            assignment_ok(px@, a@, k as int),
            0 <= c <= k,
            sr@.len() == k,
            sg@.len() == k,
            sb@.len() == k,
            cnt@.len() == k,
            forall|c: int|
                0 <= c < k ==> #[trigger] sr@[c] == channel_sum(px@, a@, c, 0, n as int) && sg@[c]
                    == channel_sum(px@, a@, c, 1, n as int) && sb@[c] == channel_sum(
                    px@,
                    a@,
                    c,
                    2,
                    n as int,
                ) && cnt@[c] == member_count(a@, c, n as int) && sr@[c] <= 255 * cnt@[c]
                    && sg@[c] <= 255 * cnt@[c] && sb@[c] <= 255 * cnt@[c],
            means@.len() == c,
            forall|d: int| 0 <= d < c ==> #[trigger] means@[d] == mean_rgb(px@, a@, d),
        decreases k - c,
    {
        proof {
            assert(a@.contains((c as int) as usize));
            let j = choose|j: int| 0 <= j < a@.len() && a@[j] == c;
            lemma_member_count_positive(a@, c as int, j, n as int);
        }
        let size = cnt[c] as u128;
        let (r, g, b) = (sr[c], sg[c], sb[c]);
        assert(r / size <= 255 && g / size <= 255 && b / size <= 255) by {
            vstd::arithmetic::div_mod::lemma_div_is_ordered(r as int, 255 * size, size as int);
            vstd::arithmetic::div_mod::lemma_div_is_ordered(g as int, 255 * size, size as int);
            vstd::arithmetic::div_mod::lemma_div_is_ordered(b as int, 255 * size, size as int);
            vstd::arithmetic::div_mod::lemma_div_by_multiple(255, size as int);
        }
        means.push(((r / size) as u8, (g / size) as u8, (b / size) as u8));
        c += 1;
    }
    means
}

/// The new centroid of each cluster (the first member closest to the
/// cluster's mean colour) and the within-cluster sum of squares.
pub fn recentre(px: &Vec<Rgba>, a: &Vec<usize>, k: usize) -> (r: (Vec<usize>, u128))
    requires
        assignment_ok(px@, a@, k as int),
    ensures
        r.0@.len() == k,
        forall|c: int| 0 <= c < k ==> is_closest_member(px@, a@, c, #[trigger] r.0@[c] as int),
        r.1 == wcss_spec(px@, a@),
{
    let means = cluster_means(px, a, k);
    let n = a.len();
    let mut found: Vec<bool> = filled(false, k);
    let mut best: Vec<usize> = filled(0usize, k);
    let mut best_d: Vec<u32> = filled(0u32, k);
    let mut wcss: u128 = 0;
    let mut i: usize = 0;
    while i < n
        invariant
            n == a@.len(),
            assignment_ok(px@, a@, k as int),
            means@.len() == k,
            forall|c: int| 0 <= c < k ==> #[trigger] means@[c] == mean_rgb(px@, a@, c),
            0 <= i <= n,
            found@.len() == k,
            best@.len() == k,
            best_d@.len() == k,
            wcss == wcss_upto(px@, a@, i as int),
            wcss <= 195075 * i,
            forall|c: int|
                0 <= c < k ==> (#[trigger] found@[c] <==> exists|j: int|
                    0 <= j < i && #[trigger] a@[j] == c),
            forall|c: int|
                0 <= c < k && #[trigger] found@[c] ==> {
                    let m = mean_rgb(px@, a@, c);
                    &&& best@[c] < i
                    &&& a@[best@[c] as int] == c
                    &&& best_d@[c] == rgb_dist_sq_spec(rgb_of(px@[best@[c] as int]), m)
                    &&& forall|j: int|
                        0 <= j < i && #[trigger] a@[j] == c ==> best_d@[c] <= rgb_dist_sq_spec(
                            rgb_of(px@[j]),
                            m,
                        )
                    &&& forall|j: int|
                        0 <= j < best@[c] && #[trigger] a@[j] == c ==> best_d@[c]
                            < rgb_dist_sq_spec(rgb_of(px@[j]), m)
                },
        decreases n - i,
    {
        let c = a[i];
        let p = px[i];
        let m = means[c];
        let d = rgb_dist_sq(p.r, p.g, p.b, m.0, m.1, m.2);
        wcss = wcss + d as u128;
        let ghost (of, ob, od) = (found@, best@, best_d@);
        if !found[c] || d < best_d[c] {
            found.set(c, true);
            best.set(c, i);
            best_d.set(c, d);
        }
        proof {
            assert forall|e: int| 0 <= e < k implies (#[trigger] found@[e] <==> exists|j: int|
                0 <= j < i + 1 && #[trigger] a@[j] == e) by {
                if e != c as int {
                    if found@[e] {
                        let j = choose|j: int| 0 <= j < i && #[trigger] a@[j] == e;
                    }
                } else {
                    assert(a@[i as int] == e);
                }
                if exists|j: int| 0 <= j < i + 1 && #[trigger] a@[j] == e {
                    let j = choose|j: int| 0 <= j < i + 1 && #[trigger] a@[j] == e;
                    if j < i {
                        assert(of[e]);
                    }
                }
            }
        }
        i += 1;
    }
    proof {
        assert forall|c: int| 0 <= c < k implies is_closest_member(
            px@,
            a@,
            c,
            #[trigger] best@[c] as int,
        ) by {
            assert(a@.contains(c as usize));
            let j = choose|j: int| 0 <= j < a@.len() && a@[j] == c as usize;
            assert(a@[j] == c);
            assert(found@[c]);
        }
    }
    (best, wcss)
}

/// After this many iterations, a run that alternates between two
/// within-cluster sums is taken as converged.
pub const MAX_CYCLES: usize = 30;

/// The last `MAX_CYCLES` sums alternate between two values, and the last is
/// the lower of the two. The sums are within-cluster sums of squared
/// distances (`wcss_spec`), not of distances.
pub open spec fn oscillating(h: Seq<u128>) -> bool {
    let l = h.len() as int;
    &&& l >= MAX_CYCLES
    &&& h[l - 1] < h[l - 2]
    &&& forall|i: int|
        0 <= i < MAX_CYCLES ==> #[trigger] h[l - 1 - i] == if i % 2 == 0 {
            h[l - 1]
        } else {
            h[l - 2]
        }
}

/// Whether the history of within-cluster sums ends in a two-value cycle.
pub fn is_oscillating(h: &Vec<u128>) -> (r: bool)
    ensures
        r == oscillating(h@),
{
    let l = h.len();
    if l < MAX_CYCLES || h[l - 1] >= h[l - 2] {
        return false;
    }
    let mut i: usize = 0;
    while i < MAX_CYCLES
        invariant
            l == h@.len(),
            l >= MAX_CYCLES,
            0 <= i <= MAX_CYCLES,
            forall|j: int|
                0 <= j < i ==> #[trigger] h@[l - 1 - j] == if j % 2 == 0 {
                    h@[l - 1]
                } else {
                    h@[l - 2]
                },
        decreases MAX_CYCLES - i,
    {
        let expected = if i % 2 == 0 {
            h[l - 1]
        } else {
            h[l - 2]
        };
        if h[l - 1 - i] != expected {
            return false;
        }
        i += 1;
    }
    true
}

fn same_assignment(a: &Vec<usize>, b: &Vec<usize>) -> (r: bool)
    requires
        a@.len() == b@.len(),
    ensures
        r == (a@ == b@),
{
    let mut i: usize = 0;
    while i < a.len()
        invariant
            a@.len() == b@.len(),
            0 <= i <= a@.len(),
            forall|j: int| 0 <= j < i ==> #[trigger] a@[j] == b@[j],
        decreases a@.len() - i,
    {
        if a[i] != b[i] {
            return false;
        }
        i += 1;
    }
    assert(a@ =~= b@);
    true
}

/// A cluster has one closest member.
pub proof fn lemma_closest_member_unique(px: Seq<Rgba>, a: Seq<usize>, c: int, i: int, j: int)
    requires
        is_closest_member(px, a, c, i),
        is_closest_member(px, a, c, j),
    ensures
        i == j,
{
    if i < j {
        assert(a[i] == c);
    } else if j < i {
        assert(a[j] == c);
    }
}

proof fn lemma_assignment_ok(px: Seq<Rgba>, cs: Seq<usize>, a: Seq<usize>)
    requires
        cs.len() > 0,
        centroids_ok(px, cs),
        a.len() == px.len(),
        forall|i: int| 0 <= i < px.len() ==> is_assigned(px, cs, i, #[trigger] a[i] as int),
    ensures
        assignment_ok(px, a, cs.len() as int),
        forall|c: int| 0 <= c < cs.len() ==> a[#[trigger] cs[c] as int] == c,
{
    assert forall|c: int| 0 <= c < cs.len() implies a[#[trigger] cs[c] as int] == c by {
        let p = cs[c] as int;
        assert(is_assigned(px, cs, p, a[p] as int));
        assert(cs.contains(p as usize));
        assert(cs[a[p] as int] == cs[c]);
    }
    assert forall|c: int| 0 <= c < cs.len() implies #[trigger] a.contains(c as usize) by {
        assert(a[cs[c] as int] == c);
    }
}

proof fn lemma_new_centroids_ok(px: Seq<Rgba>, a: Seq<usize>, k: int, cs: Seq<usize>)
    requires
        a.len() == px.len(),
        cs.len() == k,
        forall|c: int| 0 <= c < k ==> is_closest_member(px, a, c, #[trigger] cs[c] as int),
    ensures
        centroids_ok(px, cs),
{
    assert forall|x: int, y: int| 0 <= x < cs.len() && 0 <= y < cs.len() && x != y implies cs[x] != cs[y] by {
        assert(is_closest_member(px, a, x, cs[x] as int));
        assert(is_closest_member(px, a, y, cs[y] as int));
    }
    assert forall|t: int| 0 <= t < cs.len() implies #[trigger] cs[t] < px.len() by {
        assert(is_closest_member(px, a, t, cs[t] as int));
    }
}

/// The cluster of every pixel given the centroids `cs`.
pub open spec fn assign_spec(px: Seq<Rgba>, cs: Seq<usize>) -> Seq<usize> {
    Seq::new(px.len(), |i: int| (choose|c: int| is_assigned(px, cs, i, c)) as usize)
}

/// The new centroid of each of the `k` clusters of the assignment `a`.
pub open spec fn recentre_spec(px: Seq<Rgba>, a: Seq<usize>, k: int) -> Seq<usize> {
    Seq::new(k as nat, |c: int| (choose|i: int| is_closest_member(px, a, c, i)) as usize)
}

/// The centroids after `t` Lloyd iterations from the seeds.
pub open spec fn lloyd_centroids(px: Seq<Rgba>, seeds: Seq<usize>, t: int) -> Seq<usize>
    decreases t,
{
    if t <= 0 {
        seeds
    } else {
        recentre_spec(px, assign_spec(px, lloyd_centroids(px, seeds, t - 1)), seeds.len() as int)
    }
}

/// The assignment made in iteration `t` (from 1).
pub open spec fn lloyd_assign(px: Seq<Rgba>, seeds: Seq<usize>, t: int) -> Seq<usize> {
    assign_spec(px, lloyd_centroids(px, seeds, t - 1))
}

/// Before the first iteration only the seeds have a cluster; every other
/// pixel holds `k`, which names none.
pub open spec fn initial_assign(n: int, seeds: Seq<usize>) -> Seq<usize> {
    Seq::new(
        n as nat,
        |i: int|
            if seeds.contains(i as usize) {
                (choose|c: int| 0 <= c < seeds.len() && seeds[c] == i as usize) as usize
            } else {
                seeds.len() as usize
            },
    )
}

/// The assignment that iteration `t` is compared with.
pub open spec fn prev_assign(px: Seq<Rgba>, seeds: Seq<usize>, t: int) -> Seq<usize> {
    if t <= 1 {
        initial_assign(px.len() as int, seeds)
    } else {
        lloyd_assign(px, seeds, t - 1)
    }
}

/// The within-cluster sums of the first `t` iterations.
pub open spec fn lloyd_history(px: Seq<Rgba>, seeds: Seq<usize>, t: int) -> Seq<u128> {
    Seq::new(t as nat, |j: int| wcss_spec(px, lloyd_assign(px, seeds, j + 1)) as u128)
}

/// Iteration `t` ends the run: its assignment equals the one before, or the
/// sums have fallen into a two-value cycle.
pub open spec fn stops_at(px: Seq<Rgba>, seeds: Seq<usize>, t: int) -> bool {
    lloyd_assign(px, seeds, t) == prev_assign(px, seeds, t) || oscillating(lloyd_history(px, seeds, t))
}

proof fn lemma_assigned_unique(px: Seq<Rgba>, cs: Seq<usize>, i: int, c1: int, c2: int)
    requires
        centroids_ok(px, cs),
        is_assigned(px, cs, i, c1),
        is_assigned(px, cs, i, c2),
    ensures
        c1 == c2,
{
    if cs.contains(i as usize) {
        assert(cs[c1] == cs[c2]);
    } else if c1 < c2 {
        assert(pdist(px, i, cs[c2] as int) < pdist(px, i, cs[c1] as int));
    } else if c2 < c1 {
        assert(pdist(px, i, cs[c1] as int) < pdist(px, i, cs[c2] as int));
    }
}

proof fn lemma_assign_spec(px: Seq<Rgba>, cs: Seq<usize>, a: Seq<usize>)
    requires
        centroids_ok(px, cs),
        a.len() == px.len(),
        forall|i: int| 0 <= i < px.len() ==> is_assigned(px, cs, i, #[trigger] a[i] as int),
    ensures
        a == assign_spec(px, cs),
{
    assert forall|i: int| 0 <= i < px.len() implies a[i] == #[trigger] assign_spec(px, cs)[i] by {
        assert(is_assigned(px, cs, i, a[i] as int));
        let c = choose|c: int| is_assigned(px, cs, i, c);
        lemma_assigned_unique(px, cs, i, c, a[i] as int);
    }
    assert(a =~= assign_spec(px, cs));
}

proof fn lemma_recentre_spec(px: Seq<Rgba>, a: Seq<usize>, k: int, cs: Seq<usize>)
    requires
        cs.len() == k,
        forall|c: int| 0 <= c < k ==> is_closest_member(px, a, c, #[trigger] cs[c] as int),
    ensures
        cs == recentre_spec(px, a, k),
{
    assert forall|c: int| 0 <= c < k implies cs[c] == #[trigger] recentre_spec(px, a, k)[c] by {
        assert(is_closest_member(px, a, c, cs[c] as int));
        let i = choose|i: int| is_closest_member(px, a, c, i);
        lemma_closest_member_unique(px, a, c, i, cs[c] as int);
    }
    assert(cs =~= recentre_spec(px, a, k));
}

/// The outcome of k-means for one `k`.
pub struct KMeansRun {
    pub(crate) k: usize,
    pub(crate) partition: Partition,
    pub(crate) centroids: Vec<usize>,
    pub(crate) wcss: u128,
    pub(crate) wcss_history: Vec<u128>,
    pub(crate) iterations: u64,
    pub(crate) converged: bool,
}

impl KMeansRun {
    pub open(crate) spec fn spec_k(&self) -> usize {
        self.k
    }

    pub open(crate) spec fn spec_partition(&self) -> Partition {
        self.partition
    }

    pub open(crate) spec fn spec_centroids(&self) -> Seq<usize> {
        self.centroids@
    }

    pub open(crate) spec fn spec_wcss(&self) -> u128 {
        self.wcss
    }

    pub open(crate) spec fn spec_history(&self) -> Seq<u128> {
        self.wcss_history@
    }

    pub open(crate) spec fn spec_converged(&self) -> bool {
        self.converged
    }

    pub open(crate) spec fn spec_iterations(&self) -> u64 {
        self.iterations
    }

    /// What every run on pixels `px` with `k` clusters satisfies.
    pub open(crate) spec fn valid(&self, px: Seq<Rgba>, k: int) -> bool {
        let n = px.len() as int;
        let a = self.partition.clusters();
        &&& self.k == k
        &&& self.partition.wf(n)
        &&& self.partition.members().len() == k
        &&& exists|cs: Seq<usize>|
            cs.len() == k && centroids_ok(px, cs) && forall|i: int|
                0 <= i < n ==> is_assigned(px, cs, i, #[trigger] a[i] as int)
        &&& self.centroids@.len() == k
        &&& forall|c: int| 0 <= c < k ==> is_closest_member(px, a, c, #[trigger] self.centroids@[c] as int)
        &&& forall|c: int|
            0 <= c < k ==> #[trigger] self.centroids@[c] < n && a[self.centroids@[c] as int] == c
        &&& self.wcss == wcss_spec(px, a)
        &&& self.wcss_history@.len() == self.iterations
        &&& self.iterations >= 1
        &&& self.wcss_history@.last() == self.wcss
        &&& !self.converged ==> self.iterations == u64::MAX
        &&& self.converged ==> oscillating(self.wcss_history@) || forall|i: int|
            0 <= i < n ==> is_assigned(px, self.centroids@, i, #[trigger] a[i] as int)
    }

    /// The run is the Lloyd sequence from `seeds`, stopped at the first
    /// iteration that is stable or ends a two-value cycle (or at the last
    /// iteration the counter allows); the centroids of every iteration up to
    /// the last are distinct pixels of the image.
    pub open(crate) spec fn follows(&self, px: Seq<Rgba>, seeds: Seq<usize>) -> bool {
        let t = self.iterations as int;
        &&& t >= 1
        &&& self.partition.clusters() == lloyd_assign(px, seeds, t)
        &&& self.centroids@ == lloyd_centroids(px, seeds, t)
        &&& self.wcss_history@ == lloyd_history(px, seeds, t)
        &&& self.converged == stops_at(px, seeds, t)
        &&& forall|s: int| 1 <= s < t ==> !#[trigger] stops_at(px, seeds, s)
        &&& forall|s: int|
            0 <= s <= t ==> (#[trigger] lloyd_centroids(px, seeds, s)).len() == seeds.len()
                && centroids_ok(px, lloyd_centroids(px, seeds, s))
    }

    /// The number of clusters.
    pub fn k(&self) -> (r: usize)
        ensures
            r == self.spec_k(),
    {
        self.k
    }

    /// The partition of the pixels.
    pub fn partition(&self) -> (r: &Partition)
        ensures
            *r == self.spec_partition(),
    {
        &self.partition
    }

    /// The raster index of each cluster's centroid.
    pub fn centroids(&self) -> (r: &Vec<usize>)
        ensures
            r@ == self.spec_centroids(),
    {
        &self.centroids
    }

    /// The final within-cluster sum of squares.
    pub fn wcss(&self) -> (r: u128)
        ensures
            r == self.spec_wcss(),
    {
        self.wcss
    }

    /// The within-cluster sum of squares after each iteration.
    pub fn wcss_history(&self) -> (r: &Vec<u128>)
        ensures
            r@ == self.spec_history(),
    {
        &self.wcss_history
    }

    /// The number of Lloyd iterations.
    pub fn iterations(&self) -> (r: u64)
        ensures
            r == self.spec_iterations(),
    {
        self.iterations
    }

    /// Whether the run stopped on a stable assignment or a two-value cycle.
    pub fn converged(&self) -> (r: bool)
        ensures
            r == self.spec_converged(),
    {
        self.converged
    }

    /// Consumes the run, returning its partition.
    pub fn into_partition(self) -> (r: Partition)
        ensures
            r == self.spec_partition(),
    {
        self.partition
    }
}

/// K-means for one `k`: farthest-point seeding from pixel `first`, then Lloyd
/// iteration (assign each pixel to its nearest centroid, move each centroid to
/// the member closest to its cluster's mean) until the assignment is stable
/// or the within-cluster sums fall into a two-value cycle.
pub fn k_means_run(px: &Vec<Rgba>, k: usize, first: usize) -> (r: KMeansRun)
    requires
        1 <= k <= px@.len(),
        first < px@.len(),
    ensures
        r.valid(px@, k as int),
        exists|seeds: Seq<usize>| #[trigger]
            seeds_spec(px@, seeds, first as int) && seeds.len() == k && r.follows(px@, seeds),
{
    let n = px.len();
    let mut cs = seed_centroids(px, k, first);
    let ghost seeds = cs@;
    // The assignment before the first iteration: each seed in its own
    // cluster, every other pixel in none (`k`).
    let mut prev: Vec<usize> = filled(k, n);
    let mut t: usize = 0;
    while t < k
        invariant
            n == px@.len(),
            cs@.len() == k,
            centroids_ok(px@, cs@),
            prev@.len() == n,
            0 <= t <= k,
            forall|i: int| 0 <= i < n ==> #[trigger] prev@[i] <= k,
            forall|i: int| 0 <= i < n && #[trigger] prev@[i] < k ==> cs@[prev@[i] as int] == i,
            forall|c: int| 0 <= c < t ==> prev@[#[trigger] cs@[c] as int] == c,
            forall|i: int, c: int| 0 <= i < n && 0 <= c < t && #[trigger] prev@[i] == k ==> #[trigger] cs@[c] != i,
        decreases k - t,
    {
        proof {
            assert(cs@[t as int] < n);
            assert forall|c: int| 0 <= c < t implies cs@[c] != cs@[t as int] by {}
        }
        prev.set(cs[t], t);
        t += 1;
    }
    proof {
        assert forall|i: int| 0 <= i < n implies prev@[i] == #[trigger] initial_assign(n as int, seeds)[i] by {
            if prev@[i] < k {
                assert(seeds[prev@[i] as int] == i);
                assert(seeds.contains(i as usize));
                let c = choose|c: int| 0 <= c < seeds.len() && seeds[c] == i as usize;
                assert(seeds[c] == seeds[prev@[i] as int]);
            } else {
                assert(!seeds.contains(i as usize));
            }
        }
        assert(prev@ =~= initial_assign(n as int, seeds));
    }
    assert forall|c: int| 0 <= c < k implies is_closest_member(px@, prev@, c, #[trigger] cs@[c] as int) by {
        assert(prev@[cs@[c] as int] == c);
    }
    let mut history: Vec<u128> = Vec::new();
    let mut iterations: u64 = 0;
    let mut converged = false;
    let mut last_a: Vec<usize> = prev.clone();
    let mut wcss: u128 = 0;
    // The centroids that the last assignment was made from.
    let ghost mut used: Seq<usize> = cs@;
    while !converged && iterations < u64::MAX
        invariant
            n == px@.len(),
            1 <= k <= n,
            cs@.len() == k,
            centroids_ok(px@, cs@),
            prev@.len() == n,
            forall|c: int| 0 <= c < k ==> is_closest_member(px@, prev@, c, #[trigger] cs@[c] as int),
            history@.len() == iterations,
            iterations == 0 ==> !converged,
            seeds_spec(px@, seeds, first as int),
            seeds.len() == k,
            centroids_ok(px@, seeds),
            cs@ == lloyd_centroids(px@, seeds, iterations as int),
            iterations == 0 ==> prev@ == initial_assign(n as int, seeds),
            iterations >= 1 ==> prev@ == lloyd_assign(px@, seeds, iterations as int),
            history@ == lloyd_history(px@, seeds, iterations as int),
            converged == (iterations >= 1 && stops_at(px@, seeds, iterations as int)),
            forall|s: int| 1 <= s < iterations ==> !#[trigger] stops_at(px@, seeds, s),
            forall|s: int|
                0 <= s <= iterations ==> (#[trigger] lloyd_centroids(px@, seeds, s)).len() == k
                    && centroids_ok(px@, lloyd_centroids(px@, seeds, s)),
            iterations >= 1 ==> {
                &&& last_a@ == prev@
                &&& used.len() == k
                &&& centroids_ok(px@, used)
                &&& forall|i: int| 0 <= i < n ==> is_assigned(px@, used, i, #[trigger] last_a@[i] as int)
                &&& wcss == wcss_spec(px@, last_a@)
                &&& history@.last() == wcss
                &&& converged ==> oscillating(history@) || forall|i: int|
                    0 <= i < n ==> is_assigned(px@, cs@, i, #[trigger] last_a@[i] as int)
            },
        decreases u64::MAX - iterations,
    {
        let a = par_assign(px, &cs);
        proof {
            lemma_assignment_ok(px@, cs@, a@);
            lemma_assign_spec(px@, cs@, a@);
            assert(a@ == lloyd_assign(px@, seeds, iterations + 1));
        }
        let (new_cs, new_wcss) = recentre(px, &a, k);
        proof {
            lemma_new_centroids_ok(px@, a@, k as int, new_cs@);
            lemma_recentre_spec(px@, a@, k as int, new_cs@);
            assert(new_cs@ == lloyd_centroids(px@, seeds, iterations + 1));
            assert(prev@ == prev_assign(px@, seeds, iterations + 1));
        }
        let ghost old_history = history@;
        let stable = same_assignment(&a, &prev);
        history.push(new_wcss);
        let cycling = is_oscillating(&history);
        converged = stable || cycling;
        proof {
            assert(history@ =~= lloyd_history(px@, seeds, iterations + 1)) by {
                assert forall|j: int| 0 <= j < iterations + 1 implies #[trigger] history@[j]
                    == lloyd_history(px@, seeds, iterations + 1)[j] by {
                    if j < iterations {
                        assert(history@[j] == old_history[j]);
                        assert(old_history[j] == lloyd_history(px@, seeds, iterations as int)[j]);
                    }
                }
            }
            assert forall|s: int| 1 <= s < iterations + 1 implies !#[trigger] stops_at(px@, seeds, s) || converged by {
            }
            used = cs@;
            if stable {
                assert forall|c: int| 0 <= c < k implies new_cs@[c] == cs@[c] by {
                    lemma_closest_member_unique(px@, a@, c, new_cs@[c] as int, cs@[c] as int);
                }
                assert(new_cs@ =~= cs@);
            }
        }
        iterations = iterations + 1;
        prev = a.clone();
        last_a = a;
        cs = new_cs;
        wcss = new_wcss;
    }
    let partition = Partition::from_assignment(&last_a, k);
    KMeansRun { k, partition, centroids: cs, wcss, wcss_history: history, iterations, converged }
}

} // verus!
