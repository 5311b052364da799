//! Errors of the clustering engine.
use vstd::prelude::*;
use vstd::string::StringExecFns;

verus! {

/// A configuration or input that the clustering engine cannot work with.
#[derive(Clone, Copy, Debug, PartialEq, Eq, Structural)]
pub enum ConfigurationError {
    /// The image has no pixels.
    ZeroSizeImage,
    /// The number of pixels given is not `width * height`.
    PixelCountMismatch,
    /// The agglomerative tolerance is not in `(0, 1]`.
    InvalidTolerance,
    /// The k-means `max_k` is below 2.
    InvalidMaxK,
    /// The image has fewer pixels than `max_k`.
    TooFewPixels,
}

/// The two strings joined, `a` first.
pub(crate) fn concat(a: &str, b: &str) -> (r: String)
    ensures
        r@ == a@ + b@,
{
    let mut s = <String as StringExecFns>::from_str(a);
    s.append(b);
    s
}

/// An error met while reading or checking the configuration and the images.
#[derive(Clone, Debug, PartialEq, Eq)]
pub enum PersistenceError {
    /// A file could not be read; holds its path where known.
    ReadFileError(Option<String>),
    /// A file could not be written; holds its path where known.
    WriteFileError(Option<String>),
    /// A file could not be deserialised; holds the parser's message.
    DeserializeError(String),
    /// The input directory holds no images.
    EmptyInputDirError(Option<String>),
    /// A file was given where a directory was expected.
    NotDirectoryError(Option<String>),
    /// An option matched no known value.
    UnknownOptionError(String),
    /// A discouraged combination of settings was chosen without `--force`.
    DiscouragedSettingsError(String),
}

/// The text of a path, or nothing where the path is unknown.
pub open spec fn path_text(path_buf: Option<String>) -> Seq<char> {
    match path_buf {
        Some(p) => p@,
        None => Seq::empty(),
    }
}

/// The text of a path, or the empty string where the path is unknown.
pub fn path_buf_as_str(path_buf: &Option<String>) -> (r: &str)
    ensures
        r@ == path_text(*path_buf),
{
    match path_buf {
        Some(buf) => buf.as_str(),
        None => {
            proof {
                reveal_strlit("");
            }
            ""
        },
    }
}

pub open spec fn persistence_message(e: PersistenceError) -> Seq<char> {
    match e {
        PersistenceError::ReadFileError(p) => "ReadFileError: Failed to read file path "@ + path_text(
            p,
        ),
        PersistenceError::WriteFileError(p) => "WriteFileError: Failed to write file path "@
            + path_text(p),
        PersistenceError::DeserializeError(s) => "DeserializeError: "@ + s@,
        PersistenceError::EmptyInputDirError(p) => "EmptyInputDirError: No images in "@ + path_text(
            p,
        ) + " to compare."@,
        PersistenceError::NotDirectoryError(p) => "NotDirectoryError: Path "@ + path_text(p)
            + " is not a directory."@,
        PersistenceError::UnknownOptionError(s) => "UnknownOptionError: Given option \""@ + s@
            + "\" does not match any known values."@,
        PersistenceError::DiscouragedSettingsError(s) => "DiscouragedSettingsError: "@ + s@,
    }
}

impl PersistenceError {
    /// The message shown to the user.
    pub fn message(&self) -> (r: String)
        ensures
            r@ == persistence_message(*self),
    {
        match self {
            PersistenceError::ReadFileError(p) => concat(
                "ReadFileError: Failed to read file path ",
                path_buf_as_str(p),
            ),
            PersistenceError::WriteFileError(p) => concat(
                "WriteFileError: Failed to write file path ",
                path_buf_as_str(p),
            ),
            PersistenceError::DeserializeError(s) => concat("DeserializeError: ", s.as_str()),
            PersistenceError::EmptyInputDirError(p) => {
                let head = concat("EmptyInputDirError: No images in ", path_buf_as_str(p));
                concat(head.as_str(), " to compare.")
            },
            PersistenceError::NotDirectoryError(p) => {
                let head = concat("NotDirectoryError: Path ", path_buf_as_str(p));
                concat(head.as_str(), " is not a directory.")
            },
            PersistenceError::UnknownOptionError(s) => {
                let head = concat("UnknownOptionError: Given option \"", s.as_str());
                concat(head.as_str(), "\" does not match any known values.")
            },
            PersistenceError::DiscouragedSettingsError(s) => concat(
                "DiscouragedSettingsError: ",
                s.as_str(),
            ),
        }
    }
}

/// No entry of a similarity matrix matches the pair of names asked for.
#[derive(Clone, Copy, Debug, PartialEq, Eq)]
pub struct ImageSimilarityMatrixNoMatchError(pub &'static str);

impl ImageSimilarityMatrixNoMatchError {
    /// The message shown to the user.
    pub fn message(&self) -> (r: String)
        ensures
            r@ == "ImageSimilarityMatrixNoMatchError: "@ + self.0@,
    {
        concat("ImageSimilarityMatrixNoMatchError: ", self.0)
    }
}

} // verus!
