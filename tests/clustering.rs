use imgsim::{
    agglomerate, agglomerative, build_factors, get_clusters, k_means, ClusteringAlg, k_means_run, percentile_threshold, seed_centroids,
    ConfigurationError, ImgsimImage, Partition, PixelDist, PixelImage, PixeldistAlg, Rgba, Tolerance,
    DIST_SCALE,
};

const RED: Rgba = Rgba { r: 255, g: 0, b: 0, a: 255 };
const BLUE: Rgba = Rgba { r: 0, g: 0, b: 255, a: 255 };
const YELLOW: Rgba = Rgba { r: 255, g: 255, b: 0, a: 255 };
const CLEAR_GREEN: Rgba = Rgba { r: 0, g: 0, b: 255, a: 0 };
const BLACK: Rgba = Rgba { r: 0, g: 0, b: 0, a: 255 };
const WHITE: Rgba = Rgba { r: 255, g: 255, b: 255, a: 255 };

fn four_colour_image() -> ImgsimImage {
    let img = PixelImage::new(2, 2, vec![RED, BLUE, YELLOW, CLEAR_GREEN]).unwrap();
    let mut image = ImgsimImage::new(String::from("four"), String::from("four.png"), img);
    image.build_factors(&PixeldistAlg::Euclidean);
    image
}

/// Every pixel sits in the member list of its own cluster, in no other, and
/// every member is a pixel.
fn assert_partition(p: &Partition, n: usize) {
    let lookup = p.cluster_lookup();
    let members = p.pixel_clusters();
    assert_eq!(lookup.len(), n);
    for (px, &c) in lookup.iter().enumerate() {
        assert!(c < members.len());
        for (d, list) in members.iter().enumerate() {
            let count = list.iter().filter(|&&m| m == px).count();
            assert_eq!(count, if d == c { 1 } else { 0 });
        }
    }
    for list in members.iter() {
        for &m in list.iter() {
            assert!(m < n);
        }
    }
}

#[test]
fn factors_follow_raster_order() {
    let image = four_colour_image();
    let fs = image.pixeldist_factors();
    let pairs: Vec<((u32, u32), (u32, u32))> = fs.iter().map(|f| (*f.a_coords(), *f.b_coords())).collect();
    assert_eq!(
        pairs,
        vec![
            ((0, 0), (1, 0)),
            ((0, 0), (1, 1)),
            ((0, 0), (0, 1)),
            ((1, 0), (1, 1)),
            ((1, 0), (0, 1)),
            ((0, 1), (1, 1)),
        ]
    );
    assert!(fs[0].distance().is_sqrt_of_ratio(2, 3));
    assert!(fs[1].distance().is_ratio(1, 1));
    assert!(fs[2].distance().is_sqrt_of_ratio(1, 3));
}

#[test]
fn threshold_is_taken_from_sorted_distances() {
    let image = four_colour_image();
    let fs = image.pixeldist_factors();
    // sorted: sqrt(1/3), sqrt(2/3), 1, 1, 1, 1
    let third = percentile_threshold(fs, &Tolerance::new(1, 6).unwrap());
    assert!(third.is_sqrt_of_ratio(2, 3));
    let least = percentile_threshold(fs, &Tolerance::new(1, 1_000_000).unwrap());
    assert!(least.is_sqrt_of_ratio(2, 3));
    let whole = percentile_threshold(fs, &Tolerance::new(1, 1).unwrap());
    assert_eq!(whole.scaled_sq, DIST_SCALE);
    // ceil(6 * 1/12) = 1
    let first = percentile_threshold(fs, &Tolerance::new(1, 12).unwrap());
    assert!(first.is_sqrt_of_ratio(2, 3));
}

#[test]
fn full_tolerance_merges_all_below_the_largest_distance() {
    let mut image = four_colour_image();
    agglomerative(&mut image, &Tolerance::new(1, 1).unwrap());
    assert_eq!(image.cluster_lookup(), &vec![0, 0, 0, 3]);
    assert_eq!(image.partition().cluster_count(), 2);
    assert_eq!(image.pixel_clusters()[0], vec![0, 1, 2]);
    assert!(image.pixel_clusters()[1].is_empty());
    assert_partition(image.partition(), 4);
}

#[test]
fn threshold_above_every_distance_gives_one_cluster() {
    let image = four_colour_image();
    let p = agglomerate(image.rgba_image(), image.pixeldist_factors(), PixelDist { scaled_sq: DIST_SCALE + 1 });
    assert_eq!(p.cluster_count(), 1);
    let mut all = p.pixel_clusters()[p.cluster_lookup()[0]].clone();
    all.sort();
    assert_eq!(all, vec![0, 1, 2, 3]);
    assert_partition(&p, 4);
}

#[test]
fn smallest_tolerance_merges_only_below_the_second_distance() {
    let mut image = four_colour_image();
    agglomerative(&mut image, &Tolerance::new(1, 1_000_000).unwrap());
    assert_eq!(image.cluster_lookup(), &vec![0, 1, 0, 3]);
    assert_eq!(image.partition().cluster_count(), 3);
}

#[test]
fn threshold_at_smallest_distance_merges_nothing() {
    let image = four_colour_image();
    let smallest = image.pixeldist_factors().iter().map(|f| f.distance().scaled_sq).min().unwrap();
    let p = agglomerate(image.rgba_image(), image.pixeldist_factors(), PixelDist { scaled_sq: smallest });
    assert_eq!(p.cluster_lookup(), &vec![0, 1, 2, 3]);
    assert_eq!(p.cluster_count(), 4);
    assert_partition(&p, 4);
}

#[test]
fn cluster_count_never_grows_along_the_factors() {
    let pixels: Vec<Rgba> = (0..12u32)
        .map(|i| Rgba::new((i * 20) as u8, (255 - i * 15) as u8, ((i * 37) % 256) as u8, 255))
        .collect();
    let img = PixelImage::new(4, 3, pixels).unwrap();
    let factors = build_factors(&img, &PixeldistAlg::Redmean);
    let threshold = percentile_threshold(&factors, &Tolerance::new(1, 2).unwrap());
    let mut last = 12;
    let mut last_lookup: Vec<usize> = (0..12).collect();
    for m in 0..=factors.len() {
        let p = agglomerate(&img, &factors[..m].to_vec(), threshold);
        assert_partition(&p, 12);
        assert!(p.cluster_count() <= last);
        for a in 0..12 {
            for b in 0..12 {
                if last_lookup[a] == last_lookup[b] {
                    assert_eq!(p.cluster_lookup()[a], p.cluster_lookup()[b]);
                }
            }
        }
        last = p.cluster_count();
        last_lookup = p.cluster_lookup().clone();
    }
    assert!(last < 12);
}

#[test]
fn equal_clusters_keep_the_first_operand() {
    let img = PixelImage::new(2, 1, vec![BLACK, BLACK]).unwrap();
    let factors = build_factors(&img, &PixeldistAlg::Euclidean);
    let p = agglomerate(&img, &factors, PixelDist { scaled_sq: 1 });
    assert_eq!(p.cluster_lookup(), &vec![0, 0]);
    assert_eq!(p.pixel_clusters()[0], vec![0, 1]);
}

#[test]
fn single_pixel_image_stays_one_cluster() {
    let img = PixelImage::new(1, 1, vec![RED]).unwrap();
    let mut image = ImgsimImage::new(String::from("one"), String::from("one.png"), img);
    image.build_factors(&PixeldistAlg::Euclidean);
    assert!(image.pixeldist_factors().is_empty());
    agglomerative(&mut image, &Tolerance::new(1, 2).unwrap());
    assert_eq!(image.cluster_lookup(), &vec![0]);
}

#[test]
fn invalid_inputs_are_refused() {
    assert_eq!(Tolerance::new(0, 5).unwrap_err(), ConfigurationError::InvalidTolerance);
    assert_eq!(Tolerance::new(6, 5).unwrap_err(), ConfigurationError::InvalidTolerance);
    assert!(Tolerance::new(5, 5).is_ok());
    assert_eq!(PixelImage::new(0, 3, vec![]).err(), Some(ConfigurationError::ZeroSizeImage));
    assert_eq!(PixelImage::new(2, 2, vec![RED]).err(), Some(ConfigurationError::PixelCountMismatch));
    let image = four_colour_image();
    assert_eq!(k_means(&image, 1).err(), Some(ConfigurationError::InvalidMaxK));
    assert_eq!(k_means(&image, 5).err(), Some(ConfigurationError::TooFewPixels));
}

#[test]
fn image_accessors() {
    let img = PixelImage::new(3, 2, vec![RED, BLUE, YELLOW, BLACK, WHITE, CLEAR_GREEN]).unwrap();
    assert_eq!(img.get(2, 1), CLEAR_GREEN);
    assert_eq!(img.get_checked(3, 0), None);
    assert_eq!(img.get_checked(0, 1), Some(BLACK));
    assert_eq!(img.index_of(1, 1), 4);
    assert_eq!(img.coords_of(5), (2, 1));
    let image = ImgsimImage::new(String::from("six"), String::from("dir/six.png"), img);
    assert_eq!(image.name(), "six");
    assert_eq!(image.path(), "dir/six.png");
    assert!(image.cluster_lookup().is_empty());
}

#[test]
fn seeding_takes_the_farthest_pixels() {
    let px = vec![BLACK, Rgba::new(10, 10, 10, 255), WHITE, Rgba::new(250, 250, 250, 255), RED];
    assert_eq!(seed_centroids(&px, 3, 0), vec![0, 2, 4]);
    // equal colours: a pixel is never chosen twice
    let same = vec![BLACK, BLACK, BLACK];
    assert_eq!(seed_centroids(&same, 3, 1), vec![1, 0, 2]);
}

#[test]
fn k_means_run_converges_on_two_colours() {
    let px = vec![BLACK, BLACK, WHITE, WHITE];
    let run = k_means_run(&px, 2, 0);
    assert!(run.converged());
    assert_eq!(run.k(), 2);
    assert_eq!(run.partition().cluster_lookup(), &vec![0, 0, 1, 1]);
    assert_eq!(run.centroids(), &vec![0, 2]);
    assert_eq!(run.wcss(), 0);
    assert_eq!(run.iterations(), 2);
    assert_eq!(run.wcss_history(), &vec![0, 0]);
}

#[test]
fn k_means_centroids_are_closest_members_of_their_clusters() {
    let px = vec![
        Rgba::new(0, 0, 0, 255),
        Rgba::new(30, 0, 0, 255),
        Rgba::new(40, 0, 0, 255),
        Rgba::new(200, 0, 0, 255),
        Rgba::new(210, 0, 0, 255),
        Rgba::new(255, 0, 0, 255),
    ];
    let run = k_means_run(&px, 2, 0);
    assert!(run.converged());
    assert_eq!(run.partition().cluster_lookup(), &vec![0, 0, 0, 1, 1, 1]);
    // means 23 and 221: closest members 30 and 210
    assert_eq!(run.centroids(), &vec![1, 4]);
    // (23² + 7² + 17²) + (21² + 11² + 34²)
    assert_eq!(run.wcss(), 529 + 49 + 289 + 441 + 121 + 1156);
    for (c, &i) in run.centroids().iter().enumerate() {
        assert_eq!(run.partition().cluster_lookup()[i], c);
    }
}

#[test]
fn k_means_gives_one_valid_run_per_k() {
    let pixels: Vec<Rgba> = (0..20u32)
        .map(|i| Rgba::new((i * 13) as u8, ((i * 71) % 256) as u8, ((i * i) % 256) as u8, 255))
        .collect();
    let img = PixelImage::new(5, 4, pixels).unwrap();
    let image = ImgsimImage::new(String::from("grid"), String::from("grid.png"), img);
    let runs = k_means(&image, 5).unwrap();
    assert_eq!(runs.len(), 4);
    for (j, run) in runs.iter().enumerate() {
        assert_eq!(run.k(), j + 2);
        assert!(run.converged());
        assert_partition(run.partition(), 20);
        assert_eq!(run.partition().pixel_clusters().len(), j + 2);
        for (c, &i) in run.centroids().iter().enumerate() {
            assert!(i < 20);
            assert_eq!(run.partition().cluster_lookup()[i], c);
        }
    }
}

#[test]
fn get_clusters_dispatches_on_the_algorithm() {
    let mut image = four_colour_image();
    let tol = Tolerance::new(1, 1).unwrap();
    assert!(get_clusters(&mut image, ClusteringAlg::Agglomerative, &tol, 3).unwrap().is_none());
    assert_eq!(image.cluster_lookup(), &vec![0, 0, 0, 3]);
    assert_eq!(image.name(), "four");
    let runs = get_clusters(&mut image, ClusteringAlg::KMeans, &tol, 3).unwrap().unwrap();
    assert_eq!(runs.len(), 2);
    assert_eq!(image.cluster_lookup(), &vec![0, 0, 0, 3]);
    assert_eq!(
        get_clusters(&mut image, ClusteringAlg::KMeans, &tol, 1).err(),
        Some(ConfigurationError::InvalidMaxK)
    );
}

#[test]
fn higher_tolerance_gives_coarser_clusters() {
    let pixels: Vec<Rgba> = (0..16u32)
        .map(|i| Rgba::new(((i * 53) % 256) as u8, ((i * 29) % 256) as u8, (i * 16) as u8, 255))
        .collect();
    let img = PixelImage::new(4, 4, pixels).unwrap();
    let factors = build_factors(&img, &PixeldistAlg::Euclidean);
    let full = agglomerate(&img, &factors, percentile_threshold(&factors, &Tolerance::new(1, 1).unwrap()));
    for num in 1..=10u32 {
        let t = percentile_threshold(&factors, &Tolerance::new(num, 10).unwrap());
        let p = agglomerate(&img, &factors, t);
        for a in 0..16 {
            for b in 0..16 {
                if p.cluster_lookup()[a] == p.cluster_lookup()[b] {
                    assert_eq!(full.cluster_lookup()[a], full.cluster_lookup()[b]);
                }
            }
        }
    }
}
