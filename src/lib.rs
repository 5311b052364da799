//! Pixel clustering for image similarity: an exact pixel distance, the
//! adjacency factors of an image, and two clustering algorithms that
//! partition an image's pixels (threshold agglomeration and k-means).
use vstd::prelude::*;

pub mod agglomerative;
pub mod clustering;
pub mod error;
pub mod image;
pub mod imgsim_image;
pub mod kmeans;
pub mod options;
pub mod partition;
pub mod pixeldist;

pub use agglomerative::{agglomerate, percentile_threshold, Tolerance};
pub use clustering::{agglomerative, get_clusters, k_means, ClusteringAlg};
pub use error::{path_buf_as_str, ConfigurationError, ImageSimilarityMatrixNoMatchError, PersistenceError};
pub use image::{build_factors, PixelImage, PixeldistFactor};
pub use imgsim_image::ImgsimImage;
pub use kmeans::{k_means_run, rgb_dist_sq, seed_centroids, KMeansRun, MAX_CYCLES};
pub use options::{Command, ImgsimOptions, PixelsimAlg, SimilarityAlg};
pub use partition::Partition;
pub use pixeldist::{alpha_only_dist, euclidean, get_pixeldist, redmean, PixelDist, PixeldistAlg, Rgba, DIST_SCALE};

verus! {

} // verus!
