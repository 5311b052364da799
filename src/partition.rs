//! A partition of an image's pixels into clusters, seen two ways that always
//! agree: the cluster of each pixel, and the members of each cluster.
//! Pixels are named by their raster index; a cluster id is an index into the
//! member lists.
use vstd::prelude::*;

verus! {

/// `co` (cluster of each of the `n` pixels) and `ms` (members of each cluster)
/// describe the same partition: every pixel belongs to the member list of its
/// cluster, every listed member names that cluster, and no list repeats a pixel.
pub open(crate) spec fn partition_wf(co: Seq<usize>, ms: Seq<Seq<usize>>, n: int) -> bool {
    &&& co.len() == n
    &&& n <= usize::MAX
    &&& ms.len() <= usize::MAX
    &&& forall|p: int| 0 <= p < n ==> #[trigger] co[p] < ms.len()
    &&& forall|p: int| 0 <= p < n ==> ms[#[trigger] co[p] as int].contains(p as usize)
    &&& forall|c: int, j: int|
        0 <= c < ms.len() && 0 <= j < ms[c].len() ==> #[trigger] ms[c][j] < n && co[ms[c][j] as int]
            == c
    &&& forall|c: int| 0 <= c < ms.len() ==> (#[trigger] ms[c]).no_duplicates()
}

/// Every pixel its own cluster, with the cluster id equal to its raster index.
pub open(crate) spec fn singletons(n: int) -> (Seq<usize>, Seq<Seq<usize>>) {
    (Seq::new(n as nat, |p: int| p as usize), Seq::new(n as nat, |p: int| seq![p as usize]))
}

/// Cluster `prey` moves into cluster `pred`: its members join `pred`'s list
/// after `pred`'s own, and its list becomes empty.
pub open(crate) spec fn absorb(
    co: Seq<usize>,
    ms: Seq<Seq<usize>>,
    pred: int,
    prey: int,
) -> (Seq<usize>, Seq<Seq<usize>>) {
    (
        co.map_values(|c: usize| if c == prey { pred as usize } else { c }),
        ms.update(pred, ms[pred] + ms[prey]).update(prey, Seq::empty()),
    )
}

/// The ids of the clusters that hold at least one pixel.
pub open(crate) spec fn used_ids(co: Seq<usize>) -> Set<usize> {
    co.to_set()
}

pub proof fn lemma_singletons_wf(n: int)
    requires
        0 <= n <= usize::MAX,
    ensures
        partition_wf(singletons(n).0, singletons(n).1, n),
{
    let (co, ms) = singletons(n);
    assert forall|p: int| 0 <= p < n implies ms[#[trigger] co[p] as int].contains(p as usize) by {
        assert(ms[co[p] as int][0] == p as usize);
    }
    assert forall|c: int, j: int| 0 <= c < ms.len() && 0 <= j < ms[c].len() implies #[trigger] ms[c][j]
        < n && co[ms[c][j] as int] == c by {
        assert(j == 0);
    }
    assert forall|c: int| 0 <= c < ms.len() implies (#[trigger] ms[c]).no_duplicates() by {
        assert(ms[c].len() == 1);
    }
}

/// Absorbing one cluster into another keeps the two views in agreement.
pub proof fn lemma_absorb_wf(co: Seq<usize>, ms: Seq<Seq<usize>>, n: int, pred: int, prey: int)
    requires
        partition_wf(co, ms, n),
        0 <= pred < ms.len(),
        0 <= prey < ms.len(),
        pred != prey,
    ensures
        partition_wf(absorb(co, ms, pred, prey).0, absorb(co, ms, pred, prey).1, n),
{
    let (co2, ms2) = absorb(co, ms, pred, prey);
    let joined = ms[pred] + ms[prey];
    assert forall|p: int| 0 <= p < n implies ms2[#[trigger] co2[p] as int].contains(p as usize) by {
        let i = choose|i: int| 0 <= i < ms[co[p] as int].len() && ms[co[p] as int][i] == p as usize;
        if co[p] == prey {
            assert(joined[ms[pred].len() + i] == p as usize);
        } else if co[p] == pred {
            assert(joined[i] == p as usize);
        } else {
            assert(ms2[co2[p] as int][i] == p as usize);
        }
    }
    assert forall|c: int, j: int| 0 <= c < ms2.len() && 0 <= j < ms2[c].len() implies #[trigger] ms2[c][j]
        < n && co2[ms2[c][j] as int] == c by {
        if c == pred {
            if j < ms[pred].len() {
                assert(ms2[c][j] == ms[pred][j]);
            } else {
                assert(ms2[c][j] == ms[prey][j - ms[pred].len()]);
            }
        }
    }
    assert forall|c: int| 0 <= c < ms2.len() implies (#[trigger] ms2[c]).no_duplicates() by {
        if c == pred {
            assert forall|i: int, j: int|
                0 <= i < joined.len() && 0 <= j < joined.len() && i != j implies joined[i]
                != joined[j] by {
                if i < ms[pred].len() && j >= ms[pred].len() {
                    assert(co[joined[i] as int] == pred);
                    assert(co[ms[prey][j - ms[pred].len()] as int] == prey);
                } else if i >= ms[pred].len() && j < ms[pred].len() {
                    assert(co[joined[j] as int] == pred);
                    assert(co[ms[prey][i - ms[pred].len()] as int] == prey);
                } else if i >= ms[pred].len() && j >= ms[pred].len() {
                    assert(ms[prey].no_duplicates());
                }
            }
        }
    }
}

/// A valid partition puts each pixel in exactly one member list, the one of
/// its own cluster, and every listed member is a pixel of the image.
pub proof fn lemma_partition_exact(co: Seq<usize>, ms: Seq<Seq<usize>>, n: int)
    requires
        partition_wf(co, ms, n),
    ensures
        forall|p: int, c: int|
            0 <= p < n && 0 <= c < ms.len() ==> (#[trigger] ms[c].contains(p as usize) <==> co[p]
                == c),
        forall|c: int, j: int| 0 <= c < ms.len() && 0 <= j < ms[c].len() ==> #[trigger] ms[c][j] < n,
{
    assert forall|p: int, c: int| 0 <= p < n && 0 <= c < ms.len() implies (#[trigger] ms[c].contains(
        p as usize,
    ) <==> co[p] == c) by {
        if ms[c].contains(p as usize) {
            let j = choose|j: int| 0 <= j < ms[c].len() && ms[c][j] == p as usize;
            assert(co[ms[c][j] as int] == c);
        }
        assert(ms[co[p] as int].contains(p as usize));
    }
}

/// A partition of the pixels of an image.
pub struct Partition {
    pub(crate) cluster_of: Vec<usize>,
    pub(crate) members_of: Vec<Vec<usize>>,
}

impl Partition {
    /// The cluster of each pixel.
    pub open(crate) spec fn clusters(&self) -> Seq<usize> {
        self.cluster_of@
    }

    /// The members of each cluster.
    pub open(crate) spec fn members(&self) -> Seq<Seq<usize>> {
        Seq::new(self.members_of@.len(), |c: int| self.members_of@[c]@)
    }

    pub open(crate) spec fn wf(&self, n: int) -> bool {
        partition_wf(self.clusters(), self.members(), n)
    }

    /// Every pixel of `n` in a cluster of its own.
    pub fn singletons(n: usize) -> (r: Partition)
        ensures
            r.clusters() == singletons(n as int).0,
            r.members() == singletons(n as int).1,
            r.wf(n as int),
    {
        let mut cluster_of: Vec<usize> = Vec::new();
        let mut members_of: Vec<Vec<usize>> = Vec::new();
        let mut p: usize = 0;
        while p < n
            invariant
                0 <= p <= n,
                cluster_of@ == singletons(p as int).0,
                members_of@.len() == p,
                forall|c: int| 0 <= c < p ==> (#[trigger] members_of@[c])@ == seq![c as usize],
            decreases n - p,
        {
            cluster_of.push(p);
            let mut single: Vec<usize> = Vec::new();
            single.push(p);
            assert(single@ =~= seq![p]);
            members_of.push(single);
            proof {
                assert(cluster_of@ =~= singletons(p + 1).0);
            }
            p += 1;
        }
        proof {
            lemma_singletons_wf(n as int);
            assert(Seq::new(members_of@.len(), |c: int| members_of@[c]@) =~= singletons(n as int).1);
        }
        Partition { cluster_of, members_of }
    }

    /// The partition in which pixel `i` belongs to cluster `a[i]`, for `k`
    /// clusters; each member list is in raster order.
    pub fn from_assignment(a: &Vec<usize>, k: usize) -> (r: Partition)
        requires
            forall|i: int| 0 <= i < a@.len() ==> #[trigger] a@[i] < k,
        ensures
            r.wf(a@.len() as int),
            r.clusters() == a@,
            r.members().len() == k,
            forall|c: int, j1: int, j2: int|
                0 <= c < k && 0 <= j1 < j2 < r.members()[c].len() ==> #[trigger] r.members()[c][j1]
                    < #[trigger] r.members()[c][j2],
    {
        let n = a.len();
        let mut members_of: Vec<Vec<usize>> = Vec::new();
        while members_of.len() < k
            invariant
                members_of@.len() <= k,
                forall|c: int| 0 <= c < members_of@.len() ==> (#[trigger] members_of@[c])@.len() == 0,
            decreases k - members_of@.len(),
        {
            members_of.push(Vec::new());
        }
        let mut i: usize = 0;
        while i < n
            invariant
                n == a@.len(),
                forall|i: int| 0 <= i < a@.len() ==> #[trigger] a@[i] < k,
                0 <= i <= n,
                members_of@.len() == k,
                forall|c: int, j: int|
                    0 <= c < k && 0 <= j < members_of@[c]@.len() ==> #[trigger] members_of@[c]@[j] < i
                        && a@[members_of@[c]@[j] as int] == c,
                forall|c: int, j1: int, j2: int|
                    0 <= c < k && 0 <= j1 < j2 < members_of@[c]@.len() ==> #[trigger] members_of@[c]@[j1]
                        < #[trigger] members_of@[c]@[j2],
                forall|p: int| 0 <= p < i ==> members_of@[#[trigger] a@[p] as int]@.contains(p as usize),
            decreases n - i,
        {
            let c = a[i];
            let mut list: Vec<usize> = Vec::new();
            std::mem::swap(&mut members_of[c], &mut list);
            let ghost old_list = list@;
            let ghost others = members_of@;
            list.push(i);
            std::mem::swap(&mut members_of[c], &mut list);
            proof {
                assert forall|p: int| 0 <= p < i + 1 implies members_of@[#[trigger] a@[p] as int]@.contains(
                    p as usize,
                ) by {
                    if p == i {
                        assert(members_of@[c as int]@[old_list.len() as int] == i);
                    } else if a@[p] == c {
                        let j = choose|j: int| 0 <= j < old_list.len() && old_list[j] == p as usize;
                        assert(members_of@[c as int]@[j] == p as usize);
                    } else {
                        assert(members_of@[a@[p] as int] == others[a@[p] as int]);
                    }
                }
            }
            i += 1;
        }
        let r = Partition { cluster_of: a.clone(), members_of };
        proof {
            assert forall|c: int| 0 <= c < r.members().len() implies (#[trigger] r.members()[c]).no_duplicates() by {
                assert forall|j1: int, j2: int| 0 <= j1 < r.members()[c].len() && 0 <= j2 < r.members()[c].len() && j1 != j2 implies r.members()[c][j1] != r.members()[c][j2] by {
                    if j1 < j2 {
                        assert(r.members_of@[c]@[j1] < r.members_of@[c]@[j2]);
                    } else {
                        assert(r.members_of@[c]@[j2] < r.members_of@[c]@[j1]);
                    }
                }
            }
        }
        r
    }

    /// The cluster of each pixel, by raster index.
    pub fn cluster_lookup(&self) -> (r: &Vec<usize>)
        ensures
            r@ == self.clusters(),
    {
        &self.cluster_of
    }

    /// The members of each cluster, by cluster id.
    pub fn pixel_clusters(&self) -> (r: &Vec<Vec<usize>>)
        ensures
            r@.len() == self.members().len(),
            forall|c: int| 0 <= c < r@.len() ==> (#[trigger] r@[c])@ == self.members()[c],
    {
        &self.members_of
    }

    /// The number of clusters that hold at least one pixel.
    pub fn cluster_count(&self) -> (r: usize)
        ensures
            r == self.members().filter(|m: Seq<usize>| m.len() > 0).len(),
    {
        let mut count: usize = 0;
        let mut c: usize = 0;
        while c < self.members_of.len()
            invariant
                0 <= c <= self.members_of@.len(),
                count == self.members().take(c as int).filter(|m: Seq<usize>| m.len() > 0).len(),
                count <= c,
            decreases self.members_of@.len() - c,
        {
            proof {
                let ms = self.members();
                assert(ms.take(c + 1) =~= ms.take(c as int).push(ms[c as int]));
                ms.take(c as int).lemma_filter_push(ms[c as int], |m: Seq<usize>| m.len() > 0);
            }
            if self.members_of[c].len() > 0 {
                count += 1;
            }
            c += 1;
        }
        proof {
            assert(self.members().take(c as int) =~= self.members());
        }
        count
    }

    /// Moves every member of cluster `prey` into cluster `pred`.
    pub(crate) fn absorb(&mut self, pred: usize, prey: usize, Ghost(n): Ghost<int>)
        requires
            old(self).wf(n),
            pred < old(self).members_of@.len(),
            prey < old(self).members_of@.len(),
            pred != prey,
        ensures
            (final(self).clusters(), final(self).members()) == absorb(
                old(self).clusters(),
                old(self).members(),
                pred as int,
                prey as int,
            ),
            final(self).wf(n),
    {
        let ghost co = self.clusters();
        let ghost ms = self.members();
        let mut prey_items: Vec<usize> = Vec::new();
        std::mem::swap(&mut self.members_of[prey], &mut prey_items);
        let mut pred_items: Vec<usize> = Vec::new();
        std::mem::swap(&mut self.members_of[pred], &mut pred_items);
        assert(prey_items@ == ms[prey as int]);
        assert(pred_items@ == ms[pred as int]);
        let mut j: usize = 0;
        while j < prey_items.len()
            invariant
                partition_wf(co, ms, n),
                pred < ms.len(),
                prey < ms.len(),
                pred != prey,
                prey_items@ == ms[prey as int],
                0 <= j <= prey_items@.len(),
                pred_items@ == ms[pred as int] + prey_items@.take(j as int),
                self.cluster_of@.len() == n,
                forall|p: int|
                    0 <= p < n ==> #[trigger] self.cluster_of@[p] == (if prey_items@.take(
                        j as int,
                    ).contains(p as usize) {
                        pred
                    } else {
                        co[p]
                    }),
                self.members_of@.len() == ms.len(),
                forall|c: int|
                    0 <= c < ms.len() && c != pred && c != prey ==> (#[trigger] self.members_of@[c])@
                        == ms[c],
                self.members_of@[pred as int]@ == Seq::<usize>::empty(),
                self.members_of@[prey as int]@ == Seq::<usize>::empty(),
            decreases prey_items@.len() - j,
        {
            let x = prey_items[j];
            proof {
                assert(ms[prey as int][j as int] < n);
                assert(prey_items@.take(j + 1) =~= prey_items@.take(j as int).push(x));
            }
            self.cluster_of.set(x, pred);
            pred_items.push(x);
            proof {
                assert(pred_items@ =~= ms[pred as int] + prey_items@.take(j + 1));
                assert forall|p: int| 0 <= p < n implies #[trigger] self.cluster_of@[p] == (
                if prey_items@.take(j + 1).contains(p as usize) {
                    pred
                } else {
                    co[p]
                }) by {
                    if p != x as int {
                        assert(prey_items@.take(j + 1).contains(p as usize)
                            == prey_items@.take(j as int).contains(p as usize));
                    } else {
                        assert(prey_items@.take(j + 1)[j as int] == x);
                    }
                }
            }
            j += 1;
        }
        std::mem::swap(&mut self.members_of[pred], &mut pred_items);
        proof {
            assert(prey_items@.take(j as int) =~= prey_items@);
            let (co2, ms2) = absorb(co, ms, pred as int, prey as int);
            assert forall|p: int| 0 <= p < n implies #[trigger] self.cluster_of@[p] == co2[p] by {
                lemma_partition_exact(co, ms, n);
                assert(ms[prey as int].contains(p as usize) <==> co[p] == prey);
            }
            assert(self.cluster_of@ =~= co2);
            assert(self.members() =~= ms2);
            lemma_absorb_wf(co, ms, n, pred as int, prey as int);
        }
    }
}

} // verus!
