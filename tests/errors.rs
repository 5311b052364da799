use imgsim::{
    path_buf_as_str, ClusteringAlg, ImageSimilarityMatrixNoMatchError, ImgsimOptions, PersistenceError,
    PixeldistAlg, SimilarityAlg, Tolerance,
};

#[test]
fn path_text_or_empty() {
    assert_eq!(path_buf_as_str(&Some(String::from("/tmp/x"))), "/tmp/x");
    assert_eq!(path_buf_as_str(&None), "");
}

#[test]
fn persistence_messages() {
    assert_eq!(
        PersistenceError::ReadFileError(Some(String::from("a.toml"))).message(),
        "ReadFileError: Failed to read file path a.toml"
    );
    assert_eq!(PersistenceError::WriteFileError(None).message(), "WriteFileError: Failed to write file path ");
    assert_eq!(PersistenceError::DeserializeError(String::from("bad")).message(), "DeserializeError: bad");
    assert_eq!(
        PersistenceError::EmptyInputDirError(Some(String::from("imgs"))).message(),
        "EmptyInputDirError: No images in imgs to compare."
    );
    assert_eq!(
        PersistenceError::NotDirectoryError(Some(String::from("f.png"))).message(),
        "NotDirectoryError: Path f.png is not a directory."
    );
    assert_eq!(
        PersistenceError::UnknownOptionError(String::from("zz")).message(),
        "UnknownOptionError: Given option \"zz\" does not match any known values."
    );
    assert_eq!(ImageSimilarityMatrixNoMatchError("Cannot find entry").message(), "ImageSimilarityMatrixNoMatchError: Cannot find entry");
}

fn options(alg: ClusteringAlg, size: u32, force: bool) -> ImgsimOptions {
    ImgsimOptions {
        input_dir: String::from("."),
        output_dir: None,
        pixeldist_alg: PixeldistAlg::Euclidean,
        clustering_alg: alg,
        similarity_alg: SimilarityAlg::ColourSim,
        debug: false,
        verbose: false,
        max_width: size,
        max_height: size,
        skip_pixelsim: false,
        force,
        agglo_tolerance: Tolerance::new(1, 2).unwrap(),
        max_k: 4,
    }
}

#[test]
fn large_kmeans_images_are_discouraged() {
    assert!(options(ClusteringAlg::KMeans, 200, false).discouraged_options().is_none());
    assert_eq!(options(ClusteringAlg::KMeans, 201, false).discouraged_options().unwrap().len(), 1);
    assert!(options(ClusteringAlg::Agglomerative, 900, false).discouraged_options().is_none());
    match options(ClusteringAlg::KMeans, 300, false).settle() {
        Err(PersistenceError::DiscouragedSettingsError(m)) => assert!(m.contains("k-means")),
        _ => panic!("expected a discouraged-settings error"),
    }
    let (o, warnings) = options(ClusteringAlg::KMeans, 300, true).settle().unwrap();
    assert!(o.skip_pixelsim());
    assert_eq!(warnings.len(), 1);
    let (o, warnings) = options(ClusteringAlg::Agglomerative, 300, false).settle().unwrap();
    assert!(!o.skip_pixelsim());
    assert!(warnings.is_empty());
}
