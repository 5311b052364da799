use imgsim::{alpha_only_dist, euclidean, get_pixeldist, redmean, rgb_dist_sq, PixeldistAlg, Rgba, DIST_SCALE};

const WHITE: Rgba = Rgba { r: 255, g: 255, b: 255, a: 255 };
const BLACK: Rgba = Rgba { r: 0, g: 0, b: 0, a: 255 };

const PIXEL_A: Rgba = Rgba { r: 63, g: 115, b: 41, a: 255 };
const PIXEL_B: Rgba = Rgba { r: 23, g: 116, b: 86, a: 255 };

#[test]
fn aod_max() {
    assert!(alpha_only_dist(255, 0).is_ratio(1, 1));
}

#[test]
fn aod_min() {
    assert!(alpha_only_dist(255, 255).is_ratio(0, 1));
}

#[test]
fn aod_misc() {
    assert!(alpha_only_dist(42, 123).is_ratio(81, 255));
}

#[test]
fn euclidean_max() {
    assert!(euclidean(&WHITE, &BLACK).is_ratio(1, 1));
}

#[test]
fn euclidean_min() {
    assert!(euclidean(&WHITE, &WHITE).is_ratio(0, 1));
}

#[test]
fn euclidean_misc() {
    assert!(euclidean(&PIXEL_A, &PIXEL_B).is_sqrt_of_ratio(3626, 195075));
}

#[test]
fn redmean_max() {
    assert!(redmean(&WHITE, &BLACK).is_ratio(1, 1));
}

#[test]
fn redmean_min() {
    assert!(redmean(&BLACK, &BLACK).is_ratio(0, 1));
}

#[test]
fn redmean_misc() {
    assert!(redmean(&PIXEL_A, &PIXEL_B).is_sqrt_of_ratio(2347870, 149232375));
}

#[test]
fn euclidean_dist_max() {
    assert_eq!(rgb_dist_sq(255, 0, 255, 0, 255, 0), 195075);
}

#[test]
fn white_black_distance_is_one_and_white_white_zero() {
    let d = euclidean(&WHITE, &BLACK);
    assert_eq!(d.scaled_sq, DIST_SCALE);
    assert_eq!(euclidean(&WHITE, &WHITE).scaled_sq, 0);
    assert!(!euclidean(&WHITE, &BLACK).is_ratio(1, 2));
}

#[test]
fn distances_are_bounded_symmetric_and_zero_on_equal_pixels() {
    let pixels = [
        WHITE,
        BLACK,
        PIXEL_A,
        PIXEL_B,
        Rgba::new(255, 0, 0, 255),
        Rgba::new(0, 0, 255, 128),
        Rgba::new(0, 0, 255, 0),
        Rgba::new(12, 200, 7, 0),
        Rgba::new(255, 0, 255, 1),
    ];
    for alg in [PixeldistAlg::Euclidean, PixeldistAlg::Redmean] {
        for p in pixels.iter() {
            assert_eq!(get_pixeldist(p, p, &alg).scaled_sq, 0);
            for q in pixels.iter() {
                let d = get_pixeldist(p, q, &alg);
                assert!(d.scaled_sq <= DIST_SCALE);
                assert_eq!(d, get_pixeldist(q, p, &alg));
            }
        }
    }
}

#[test]
fn transparency_falls_back_to_alpha_distance() {
    let clear = Rgba::new(255, 0, 0, 0);
    let half = Rgba::new(0, 255, 0, 51);
    assert!(euclidean(&clear, &half).is_ratio(51, 255));
    assert!(redmean(&clear, &half).is_ratio(51, 255));
    assert!(euclidean(&clear, &Rgba::new(0, 0, 0, 0)).is_ratio(0, 1));
}

#[test]
fn redmean_weights_differ_from_euclidean() {
    let red = Rgba::new(255, 0, 0, 255);
    let blue = Rgba::new(0, 0, 255, 255);
    // (1275 * 255² + 1275 * 255²) / (510 * 585225) = 2550 / 4590
    assert!(redmean(&red, &blue).is_sqrt_of_ratio(2550, 4590));
    assert!(euclidean(&red, &blue).is_sqrt_of_ratio(2, 3));
}
