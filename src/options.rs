//! The choices and settings that steer a comparison.
use vstd::prelude::*;

use crate::agglomerative::Tolerance;
use crate::clustering::ClusteringAlg;
use crate::error::PersistenceError;
use crate::pixeldist::PixeldistAlg;

verus! {

/// The algorithm used to compare pixels across images.
#[derive(Clone, Copy, Debug, PartialEq, Eq, Structural)]
pub enum PixelsimAlg {
    Euclidean,
    Redmean,
}

/// The algorithm used to measure how similar two images are.
#[derive(Clone, Copy, Debug, PartialEq, Eq, Structural)]
pub enum SimilarityAlg {
    /// By the average colour of their most distinct clusters.
    ColourSim,
    /// By the relative shape and size of their most distinct clusters.
    ClusterSize,
}

/// The ways a user can measure image similarity from the command line.
#[derive(Clone, Copy, Debug, PartialEq, Eq)]
pub enum Command {
    /// Measure similarity by the size and shape of the most significant clusters.
    Clustersize {
        /// Whether a clustering tolerance is given.
        tolerance: bool,
        /// The amount of tolerance.
        tolerance_amount: Option<u32>,
    },
}

/// The largest width or height recommended for k-means.
pub const KMEANS_MAX_RECOMMENDED_SIZE: u32 = 200;

/// The warning given when images may be too large for k-means.
pub const KMEANS_SIZE_WARNING: &'static str = "The max height or max width of the image is above 200 pixels, the maximum recommended size for the k-means clustering algorithm.";

/// The settings of a comparison.
pub struct ImgsimOptions {
    pub input_dir: String,
    pub output_dir: Option<String>,
    pub pixeldist_alg: PixeldistAlg,
    pub clustering_alg: ClusteringAlg,
    pub similarity_alg: SimilarityAlg,
    pub debug: bool,
    pub verbose: bool,
    pub max_width: u32,
    pub max_height: u32,
    pub skip_pixelsim: bool,
    pub force: bool,
    pub agglo_tolerance: Tolerance,
    pub max_k: usize,
}

/// K-means is chosen for images that may exceed the recommended size.
pub open spec fn kmeans_too_large(o: &ImgsimOptions) -> bool {
    o.clustering_alg == ClusteringAlg::KMeans && (o.max_height > KMEANS_MAX_RECOMMENDED_SIZE
        || o.max_width > KMEANS_MAX_RECOMMENDED_SIZE)
}

impl ImgsimOptions {
    /// The warnings for discouraged combinations of settings, if any.
    pub fn discouraged_options(&self) -> (r: Option<Vec<String>>)
        ensures
            r is Some <==> kmeans_too_large(self),
            r matches Some(v) ==> v@.len() == 1 && v@[0]@ == KMEANS_SIZE_WARNING@,
    {
        if self.clustering_alg == ClusteringAlg::KMeans && (self.max_height
            > KMEANS_MAX_RECOMMENDED_SIZE || self.max_width > KMEANS_MAX_RECOMMENDED_SIZE) {
            let mut problems: Vec<String> = Vec::new();
            problems.push(KMEANS_SIZE_WARNING.to_owned());
            Some(problems)
        } else {
            None
        }
    }

    /// Settles the options once the command line has been read: k-means skips
    /// the pixel-similarity stage, and discouraged settings are refused
    /// unless forced, in which case their warnings are returned.
    pub fn settle(self) -> (r: Result<(ImgsimOptions, Vec<String>), PersistenceError>)
        ensures
            r is Err <==> (kmeans_too_large(&self) && !self.force),
            r matches Err(e) ==> e matches PersistenceError::DiscouragedSettingsError(m) && m@
                == KMEANS_SIZE_WARNING@,
            r matches Ok((o, w)) ==> {
                &&& o.skip_pixelsim == (self.skip_pixelsim || self.clustering_alg
                    == ClusteringAlg::KMeans)
                &&& o.clustering_alg == self.clustering_alg
                &&& o.pixeldist_alg == self.pixeldist_alg
                &&& o.similarity_alg == self.similarity_alg
                &&& o.max_width == self.max_width
                &&& o.max_height == self.max_height
                &&& o.force == self.force
                &&& o.agglo_tolerance == self.agglo_tolerance
                &&& o.max_k == self.max_k
                &&& w@.len() == (if kmeans_too_large(&self) {
                    1int
                } else {
                    0
                })
            },
    {
        let mut o = self;
        if o.clustering_alg == ClusteringAlg::KMeans {
            o.skip_pixelsim = true;
        }
        match o.discouraged_options() {
            Some(messages) => {
                if o.force {
                    Ok((o, messages))
                } else {
                    Err(PersistenceError::DiscouragedSettingsError(messages[0].clone()))
                }
            },
            None => Ok((o, Vec::new())),
        }
    }

    /// The directory of images to compare.
    pub fn input_dir(&self) -> (r: &str)
        ensures
            r@ == self.input_dir@,
    {
        self.input_dir.as_str()
    }

    /// The pixel distance algorithm.
    pub fn pixeldist_alg(&self) -> (r: &PixeldistAlg)
        ensures
            *r == self.pixeldist_alg,
    {
        &self.pixeldist_alg
    }

    /// The clustering algorithm.
    pub fn clustering_alg(&self) -> (r: &ClusteringAlg)
        ensures
            *r == self.clustering_alg,
    {
        &self.clustering_alg
    }

    /// The image similarity algorithm.
    pub fn similarity_alg(&self) -> (r: &SimilarityAlg)
        ensures
            *r == self.similarity_alg,
    {
        &self.similarity_alg
    }

    /// Whether to print debug messages.
    pub fn debug(&self) -> (r: bool)
        ensures
            r == self.debug,
    {
        self.debug
    }

    /// Whether to print progress messages.
    pub fn verbose(&self) -> (r: bool)
        ensures
            r == self.verbose,
    {
        self.verbose
    }

    /// The largest width of an input image.
    pub fn max_width(&self) -> (r: u32)
        ensures
            r == self.max_width,
    {
        self.max_width
    }

    /// The largest height of an input image.
    pub fn max_height(&self) -> (r: u32)
        ensures
            r == self.max_height,
    {
        self.max_height
    }

    /// The directory for debug images, if any.
    pub fn output_dir(&self) -> (r: &Option<String>)
        ensures
            *r == self.output_dir,
    {
        &self.output_dir
    }

    /// The tolerance of agglomerative clustering.
    pub fn agglo_tolerance(&self) -> (r: Tolerance)
        ensures
            r == self.agglo_tolerance,
    {
        self.agglo_tolerance
    }

    /// The largest `k` tried by k-means.
    pub fn max_k(&self) -> (r: usize)
        ensures
            r == self.max_k,
    {
        self.max_k
    }

    /// Whether the pixel-similarity stage is skipped.
    pub fn skip_pixelsim(&self) -> (r: bool)
        ensures
            r == self.skip_pixelsim,
    {
        self.skip_pixelsim
    }

    /// Whether discouraged settings are allowed.
    pub fn force(&self) -> (r: bool)
        ensures
            r == self.force,
    {
        self.force
    }
}

} // verus!
