use vstd::prelude::*;

verus! {

/// What can go wrong while reading or transcoding a container.
#[derive(Debug, Clone, Copy, PartialEq, Eq, Structural)]
pub enum Error {
    /// The buffer is too short, has no valid magic, or its directory is inconsistent.
    HeaderInvalid,
    /// The image index is past the container's last image.
    ImageIndexInvalid,
    /// No mipmap level with that index exists for the image.
    LevelIndexInvalid,
    /// The buffer's length does not fit in a 32-bit count.
    BufferTooLarge,
    /// The level's data could not be decoded into the requested format.
    DecodeFailed,
    /// The requested output format is not implemented.
    UnsupportedFormat,
}

impl Error {
    /// A short human-readable description of the error.
    pub fn message(&self) -> (r: &'static str) {
        match self {
            Error::HeaderInvalid => "invalid container header",
            Error::ImageIndexInvalid => "image index out of range",
            Error::LevelIndexInvalid => "mipmap level index out of range",
            Error::BufferTooLarge => "data too large",
            Error::DecodeFailed => "failed to transcode image data",
            Error::UnsupportedFormat => "unsupported texture format",
        }
    }
}

} // verus!
