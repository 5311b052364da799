//! An image under comparison: its name and origin, its pixels, its
//! adjacency factors and its clusters.
use vstd::prelude::*;

use crate::image::{adjacency, build_factors, factors_fit, PixelImage, PixeldistFactor};
use crate::partition::Partition;
use crate::pixeldist::PixeldistAlg;

verus! {

/// An image with its factors and clusters.
pub struct ImgsimImage {
    pub(crate) name: String,
    pub(crate) path: String,
    pub(crate) image: PixelImage,
    pub(crate) factors: Vec<PixeldistFactor>,
    pub(crate) partition: Partition,
}

impl ImgsimImage {
    /// The pixels are a valid image, the factors lie inside it, and the
    /// partition is either not built yet (empty) or valid.
    pub open(crate) spec fn wf(&self) -> bool {
        &&& self.image.wf()
        &&& factors_fit(self.image, self.factors@)
        &&& (self.partition.wf(self.image.n()) || (self.partition.clusters().len() == 0
            && self.partition.members().len() == 0))
    }

    pub open(crate) spec fn spec_name(&self) -> Seq<char> {
        self.name@
    }

    pub open(crate) spec fn spec_path(&self) -> Seq<char> {
        self.path@
    }

    pub open(crate) spec fn spec_image(&self) -> PixelImage {
        self.image
    }

    pub open(crate) spec fn spec_factors(&self) -> Seq<PixeldistFactor> {
        self.factors@
    }

    pub open(crate) spec fn spec_partition(&self) -> Partition {
        self.partition
    }

    /// A named image with no factors and no clusters yet.
    pub fn new(name: String, path: String, image: PixelImage) -> (r: ImgsimImage)
        requires
            image.wf(),
        ensures
            r.wf(),
            r.spec_name() == name@,
            r.spec_path() == path@,
            r.spec_image() == image,
            r.spec_factors().len() == 0,
            r.spec_partition().clusters().len() == 0,
    {
        let r = ImgsimImage {
            name,
            path,
            image,
            factors: Vec::new(),
            partition: Partition { cluster_of: Vec::new(), members_of: Vec::new() },
        };
        assert(r.partition.members() =~= Seq::<Seq<usize>>::empty());
        r
    }

    /// Builds the distance factors between neighbouring pixels.
    pub fn build_factors(&mut self, alg: &PixeldistAlg)
        requires
            old(self).wf(),
        ensures
            final(self).wf(),
            final(self).spec_image() == old(self).spec_image(),
            final(self).spec_partition() == old(self).spec_partition(),
            final(self).spec_name() == old(self).spec_name(),
            final(self).spec_path() == old(self).spec_path(),
            final(self).spec_factors() == adjacency(old(self).spec_image(), *alg),
    {
        self.factors = build_factors(&self.image, alg);
    }

    /// Replaces the clusters with a partition of this image's pixels.
    pub fn set_clusters(&mut self, partition: Partition)
        requires
            old(self).wf(),
            partition.wf(old(self).spec_image().n()),
        ensures
            final(self).wf(),
            final(self).spec_image() == old(self).spec_image(),
            final(self).spec_factors() == old(self).spec_factors(),
            final(self).spec_name() == old(self).spec_name(),
            final(self).spec_path() == old(self).spec_path(),
            final(self).spec_partition() == partition,
    {
        self.partition = partition;
    }

    /// The name of the image.
    pub fn name(&self) -> (r: &str)
        ensures
            r@ == self.spec_name(),
    {
        self.name.as_str()
    }

    /// Where the image came from.
    pub fn path(&self) -> (r: &str)
        ensures
            r@ == self.spec_path(),
    {
        self.path.as_str()
    }

    /// The pixels.
    pub fn rgba_image(&self) -> (r: &PixelImage)
        ensures
            *r == self.spec_image(),
    {
        &self.image
    }

    /// The distance factors between neighbouring pixels.
    pub fn pixeldist_factors(&self) -> (r: &Vec<PixeldistFactor>)
        ensures
            r@ == self.spec_factors(),
    {
        &self.factors
    }

    /// The clusters.
    pub fn partition(&self) -> (r: &Partition)
        ensures
            *r == self.spec_partition(),
    {
        &self.partition
    }

    /// The cluster of each pixel, by raster index.
    pub fn cluster_lookup(&self) -> (r: &Vec<usize>)
        ensures
            r@ == self.spec_partition().clusters(),
    {
        self.partition.cluster_lookup()
    }

    /// The members of each cluster.
    pub fn pixel_clusters(&self) -> (r: &Vec<Vec<usize>>)
        ensures
            r@.len() == self.spec_partition().members().len(),
            forall|c: int|
                0 <= c < r@.len() ==> (#[trigger] r@[c])@ == self.spec_partition().members()[c],
    {
        self.partition.pixel_clusters()
    }
}

} // verus!
