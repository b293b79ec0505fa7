//! Reading and transcoding of supercompressed "basis" texture containers.
//!
//! The library parses the container's header and slice directory, answers
//! structural queries (texture type, images, mipmap levels), sizes the output
//! of a transcode for each supported GPU format, and runs one transcoding
//! session at a time over a borrowed buffer.

pub mod container;
pub mod error;
pub mod format;
pub mod session;

pub use container::{
    file_info, header_is_valid, image_info, lemma_file_alpha, lemma_image_out_of_range,
    lemma_level_total_blocks, lemma_levels_readable, lemma_mip_chain_halves,
    lemma_short_buffer_refused, mipmap_level_info, num_images,
    num_mipmap_levels, texture_type, FileInfo, ImageInfo, MipmapLevelInfo, TextureType,
    HEADER_SIZE, SLICE_DESC_SIZE,
};
pub use error::Error;
pub use format::{lemma_buffer_size_monotone, TextureFormat};
pub use session::{finish_transcode, TranscodeOp, TranscodeRequest, Transcoder};
