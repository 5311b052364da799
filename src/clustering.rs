//! The two clustering algorithms as applied to an image.
use vstd::prelude::*;

use rand::Rng;

use crate::agglomerative::{agglomerate, agglomerate_upto, percentile_threshold, threshold_of, Tolerance};
use crate::error::ConfigurationError;
use crate::imgsim_image::ImgsimImage;
use crate::kmeans::{k_means_run, seeds_spec, KMeansRun};
use crate::pixeldist::{PixelDist, Rgba};

verus! {

/// The algorithm used to cluster an image's pixels.
#[derive(Clone, Copy, Debug, PartialEq, Eq, Structural)]
pub enum ClusteringAlg {
    /// K-means over the pixel colours, for each `k` up to a maximum.
    KMeans,
    /// Threshold agglomeration of neighbouring pixels.
    Agglomerative,
}

/// Clusters the image by agglomeration over its factors, with the threshold
/// taken at the tolerance's percentile of the factor distances.
pub fn agglomerative(imgsim_image: &mut ImgsimImage, tolerance: &Tolerance)
    requires
        old(imgsim_image).wf(),
        tolerance.wf(),
    ensures
        final(imgsim_image).wf(),
        final(imgsim_image).spec_image() == old(imgsim_image).spec_image(),
        final(imgsim_image).spec_factors() == old(imgsim_image).spec_factors(),
        final(imgsim_image).spec_name() == old(imgsim_image).spec_name(),
        final(imgsim_image).spec_path() == old(imgsim_image).spec_path(),
        final(imgsim_image).spec_partition().wf(old(imgsim_image).spec_image().n()),
        (final(imgsim_image).spec_partition().clusters(),
            final(imgsim_image).spec_partition().members()) == agglomerate_upto(
            old(imgsim_image).spec_image(),
            old(imgsim_image).spec_factors(),
            threshold_of(
                old(imgsim_image).spec_factors(),
                tolerance.spec_num() as int,
                tolerance.spec_den() as int,
            ),
            old(imgsim_image).spec_factors().len() as int,
        ),
{
    let threshold = if imgsim_image.factors.len() > 0 {
        percentile_threshold(&imgsim_image.factors, tolerance)
    } else {
        PixelDist { scaled_sq: 0 }
    };
    let partition = agglomerate(&imgsim_image.image, &imgsim_image.factors, threshold);
    imgsim_image.set_clusters(partition);
}

/// The run follows the Lloyd sequence from the farthest-point seeding that
/// starts at some pixel.
pub open(crate) spec fn seeded_run(px: Seq<Rgba>, run: KMeansRun) -> bool {
    exists|first: int, seeds: Seq<usize>|
        0 <= first < px.len() && #[trigger] seeds_spec(px, seeds, first) && seeds.len() == run.spec_k()
            && run.follows(px, seeds)
}

/// Relies on rand's `Rng::gen_range` with the thread-local generator: the
/// value lies in `0..n`; the call panics only on an empty range.
#[verifier::external_body]
fn random_below(n: usize) -> (r: usize)
    requires
        n > 0,
    ensures
        r < n,
{
    rand::thread_rng().gen_range(0..n)
}

/// K-means on the image for each `k` from 2 to `max_k`, each seeded from a
/// pixel drawn at random. One run per `k`, in increasing order of `k`.
pub fn k_means(imgsim_image: &ImgsimImage, max_k: usize) -> (r: Result<
    Vec<KMeansRun>,
    ConfigurationError,
>)
    requires
        imgsim_image.wf(),
    ensures
        max_k < 2 ==> r == Err::<Vec<KMeansRun>, ConfigurationError>(
            ConfigurationError::InvalidMaxK,
        ),
        max_k >= 2 && imgsim_image.spec_image().n() < max_k ==> r == Err::<
            Vec<KMeansRun>,
            ConfigurationError,
        >(ConfigurationError::TooFewPixels),
        max_k >= 2 && imgsim_image.spec_image().n() >= max_k ==> r is Ok,
        r matches Ok(runs) ==> runs@.len() == max_k - 1 && forall|j: int|
            0 <= j < runs@.len() ==> (#[trigger] runs@[j]).valid(
                imgsim_image.spec_image().spec_pixels(),
                j + 2,
            ) && seeded_run(imgsim_image.spec_image().spec_pixels(), runs@[j]),
{
    if max_k < 2 {
        return Err(ConfigurationError::InvalidMaxK);
    }
    let px = imgsim_image.image.pixels();
    let n = px.len();
    if n < max_k {
        return Err(ConfigurationError::TooFewPixels);
    }
    let mut runs: Vec<KMeansRun> = Vec::new();
    let mut k: usize = 1;
    while k < max_k
        invariant
            1 <= k <= max_k,
            max_k <= n,
            n == px@.len(),
            px@ == imgsim_image.spec_image().spec_pixels(),
            runs@.len() == k - 1,
            forall|j: int|
                0 <= j < runs@.len() ==> (#[trigger] runs@[j]).valid(px@, j + 2) && seeded_run(
                    px@,
                    runs@[j],
                ),
        decreases max_k - k,
    {
        k += 1;
        let first = random_below(n);
        let run = k_means_run(px, k, first);
        runs.push(run);
    }
    Ok(runs)
}

/// Clusters the image with the chosen algorithm. Agglomeration fills the
/// image's clusters and returns `None`. K-means leaves the image as it is and
/// returns its runs, one per `k`, for the caller to choose among.
pub fn get_clusters(
    imgsim_image: &mut ImgsimImage,
    alg: ClusteringAlg,
    tolerance: &Tolerance,
    max_k: usize,
) -> (r: Result<Option<Vec<KMeansRun>>, ConfigurationError>)
    requires
        old(imgsim_image).wf(),
        tolerance.wf(),
    ensures
        final(imgsim_image).wf(),
        final(imgsim_image).spec_image() == old(imgsim_image).spec_image(),
        final(imgsim_image).spec_factors() == old(imgsim_image).spec_factors(),
        final(imgsim_image).spec_name() == old(imgsim_image).spec_name(),
        final(imgsim_image).spec_path() == old(imgsim_image).spec_path(),
        alg == ClusteringAlg::Agglomerative ==> {
            &&& r == Ok::<Option<Vec<KMeansRun>>, ConfigurationError>(None)
            &&& final(imgsim_image).spec_partition().wf(old(imgsim_image).spec_image().n())
            &&& (final(imgsim_image).spec_partition().clusters(),
                final(imgsim_image).spec_partition().members()) == agglomerate_upto(
                old(imgsim_image).spec_image(),
                old(imgsim_image).spec_factors(),
                threshold_of(
                    old(imgsim_image).spec_factors(),
                    tolerance.spec_num() as int,
                    tolerance.spec_den() as int,
                ),
                old(imgsim_image).spec_factors().len() as int,
            )
        },
        alg == ClusteringAlg::KMeans ==> {
            let px = old(imgsim_image).spec_image().spec_pixels();
            &&& final(imgsim_image).spec_partition() == old(imgsim_image).spec_partition()
            &&& max_k < 2 ==> r == Err::<Option<Vec<KMeansRun>>, ConfigurationError>(
                ConfigurationError::InvalidMaxK,
            )
            &&& max_k >= 2 && px.len() < max_k ==> r == Err::<
                Option<Vec<KMeansRun>>,
                ConfigurationError,
            >(ConfigurationError::TooFewPixels)
            &&& max_k >= 2 && px.len() >= max_k ==> (r matches Ok(Some(_)))
            &&& (r matches Ok(Some(runs)) ==> runs@.len() == max_k - 1 && forall|j: int|
                0 <= j < runs@.len() ==> (#[trigger] runs@[j]).valid(px, j + 2) && seeded_run(
                    px,
                    runs@[j],
                ))
        },
{
    match alg {
        ClusteringAlg::Agglomerative => {
            agglomerative(imgsim_image, tolerance);
            Ok(None)
        },
        ClusteringAlg::KMeans => match k_means(imgsim_image, max_k) {
            Ok(runs) => Ok(Some(runs)),
            Err(e) => Err(e),
        },
    }
}

} // verus!
