use vstd::prelude::*;

verus! {

/// Why a mosaic could not be laid out.
#[derive(Debug, Clone, Copy, PartialEq, Eq, Structural)]
pub enum MosaicError {
    /// No candidate image was found under the scan root.
    NoImagesFound,
    /// A candidate path has no file name that can be read as text.
    InvalidPath,
    /// The image count has no grid factorization (it is zero).
    NoFactorization,
    /// The canvas would not fit in memory or in 32-bit pixel coordinates.
    CanvasTooLarge,
    /// Scaling an image to the configured bound would not fit in memory.
    ImageTooLarge,
}

/// The text that describes `e`.
pub open spec fn message_of(e: MosaicError) -> Seq<char> {
    match e {
        MosaicError::NoImagesFound => "discovery: no images found"@,
        MosaicError::InvalidPath => "discovery: a path has no readable file name"@,
        MosaicError::NoFactorization => "grid: no factors found"@,
        MosaicError::CanvasTooLarge => "layout: canvas too large"@,
        MosaicError::ImageTooLarge => "normalize: image too large to scale"@,
    }
}

impl MosaicError {
    /// A human-readable description naming the failed stage.
    pub fn message(&self) -> (r: String)
        ensures
            r@ == message_of(*self),
    {
        match self {
            MosaicError::NoImagesFound => String::from_str("discovery: no images found"),
            MosaicError::InvalidPath => String::from_str("discovery: a path has no readable file name"),
            MosaicError::NoFactorization => String::from_str("grid: no factors found"),
            MosaicError::CanvasTooLarge => String::from_str("layout: canvas too large"),
            MosaicError::ImageTooLarge => String::from_str("normalize: image too large to scale"),
        }
    }
}

} // verus!
