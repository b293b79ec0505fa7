use vstd::prelude::*;

use crate::container::{
    file_info, find_slice, image_info, mipmap_level_info, num_images, num_mipmap_levels,
    slice_file_offset, slice_file_size, slice_location, spec_file_info, spec_image_info,
    spec_level_info, spec_num_images, spec_texture_type, is_etc1s, level_count, texture_type,
    FileInfo, ImageInfo, MipmapLevelInfo, TextureType,
};
use crate::error::Error;
use crate::format::TextureFormat;

verus! {

/// A reusable transcoder. Each `begin` opens a session bound to one buffer;
/// while that session lives the transcoder is borrowed, so at most one
/// buffer is ever bound.
pub struct Transcoder {}

/// One transcoding session, bound to one container buffer. Ending it (or
/// dropping it) releases the transcoder for the next `begin`.
pub struct TranscodeOp<'a> {
    transcoder: &'a mut Transcoder,
    data: &'a [u8],
}

/// Everything a block decoder needs to fill the output of one level.
#[derive(Copy, Clone, Debug, PartialEq, Eq, Structural)]
pub struct TranscodeRequest {
    pub image_index: u32,
    pub level_index: u32,
    pub format: TextureFormat,
    pub level: MipmapLevelInfo,
    /// The container's blocks are ETC1S-coded (codebook path) rather than UASTC.
    pub is_etc1s: bool,
    /// Where the level's coded data starts in the container buffer.
    pub slice_offset: u32,
    /// How many bytes of coded data the level has.
    pub slice_size: u32,
    /// The exact length of the output buffer.
    pub output_size: usize,
}

/// The coded data of the slice lies inside the buffer.
pub open spec fn slice_in_bounds(s: Seq<u8>, k: nat) -> bool {
    slice_file_offset(s, k as int) + slice_file_size(s, k as int) <= s.len()
}

/// The request handed to the decoder for (image, level, format), where the
/// level exists and the format is supported.
pub open spec fn spec_request(s: Seq<u8>, image: u32, level: u32, format: TextureFormat) -> TranscodeRequest {
    let info = spec_level_info(s, image as nat, level as nat).unwrap();
    let k = find_slice(s, image as nat, level as nat).unwrap() as int;
    TranscodeRequest {
        image_index: image,
        level_index: level,
        format,
        level: info,
        is_etc1s: is_etc1s(s),
        slice_offset: slice_file_offset(s, k) as u32,
        slice_size: slice_file_size(s, k) as u32,
        output_size: format.spec_buffer_size(info).unwrap() as usize,
    }
}

/// What a transcode returns once the decoder has answered `decoded`.
pub open spec fn spec_finish(expected: nat, decoded: Option<Vec<u8>>) -> Result<Vec<u8>, Error> {
    match decoded {
        Some(v) => if v@.len() == expected {
            Ok(v)
        } else {
            Err(Error::DecodeFailed)
        },
        None => Err(Error::DecodeFailed),
    }
}

/// A transcode cannot start: the format, the indices or the coded data's
/// placement rule it out. `None` where the decoder is to be called.
pub open spec fn spec_transcode_precheck(
    s: Seq<u8>,
    image: u32,
    level: u32,
    format: TextureFormat,
) -> Option<Error> {
    if !format.spec_is_supported() {
        Some(Error::UnsupportedFormat)
    } else {
        match spec_level_info(s, image as nat, level as nat) {
            Err(e) => Some(e),
            Ok(info) => {
                let k = find_slice(s, image as nat, level as nat).unwrap();
                if !slice_in_bounds(s, k) || format.spec_buffer_size(info).unwrap() > usize::MAX {
                    Some(Error::DecodeFailed)
                } else {
                    None
                }
            },
        }
    }
}

/// Accepts the decoder's output only where it has exactly the expected length.
pub fn finish_transcode(expected: usize, decoded: Option<Vec<u8>>) -> (r: Result<Vec<u8>, Error>)
    ensures
        r == spec_finish(expected as nat, decoded),
{
    match decoded {
        Some(v) => if v.len() == expected {
            Ok(v)
        } else {
            Err(Error::DecodeFailed)
        },
        None => Err(Error::DecodeFailed),
    }
}

impl Transcoder {
    /// A transcoder with no session open.
    pub fn new() -> (r: Self) {
        Transcoder {}
    }

    /// Opens a session bound to `data`. Any earlier session has ended, since
    /// it borrowed this transcoder. Fails, with nothing bound, when the
    /// buffer's length does not fit in 32 bits.
    pub fn begin<'a>(&'a mut self, data: &'a [u8]) -> (r: Result<TranscodeOp<'a>, Error>)
        ensures
            r is Err <==> data@.len() > u32::MAX,
            r matches Err(e) ==> e == Error::BufferTooLarge,
            r matches Ok(op) ==> op.bytes() == data@,
    {
        if data.len() > u32::MAX as usize {
            return Err(Error::BufferTooLarge);
        }
        Ok(TranscodeOp { transcoder: self, data })
    }
}

impl<'a> TranscodeOp<'a> {
    /// The container buffer the session is bound to.
    pub closed spec fn bytes(&self) -> Seq<u8> {
        self.data@
    }

    /// The container buffer the session is bound to.
    pub fn data(&self) -> (r: &'a [u8])
        ensures
            r@ == self.bytes(),
    {
        self.data
    }

    /// Ends the session, releasing the transcoder.
    pub fn end(self) {
    }

    /// The texture type of the bound container.
    pub fn texture_type(&self) -> (r: Result<TextureType, Error>)
        ensures
            r == spec_texture_type(self.bytes()),
    {
        texture_type(self.data)
    }

    /// The number of images; zero when the header cannot be read.
    pub fn num_images(&self) -> (r: u32)
        ensures
            r as nat == spec_num_images(self.bytes()),
    {
        num_images(self.data)
    }

    /// The number of mipmap levels of an image; zero when the header cannot
    /// be read or the image index is out of range.
    pub fn num_mipmap_levels(&self, image_index: u32) -> (r: u32)
        ensures
            r as nat == level_count(self.bytes(), image_index as nat),
    {
        num_mipmap_levels(self.data, image_index)
    }

    /// The summary of the bound container.
    pub fn file_info(&self) -> (r: Result<FileInfo, Error>)
        ensures
            r == spec_file_info(self.bytes()),
    {
        file_info(self.data)
    }

    /// The summary of one image.
    pub fn image_info(&self, image_index: u32) -> (r: Result<ImageInfo, Error>)
        ensures
            r == spec_image_info(self.bytes(), image_index as nat),
    {
        image_info(self.data, image_index)
    }

    /// The summary of one mipmap level of one image.
    pub fn mipmap_level_info(&self, image_index: u32, mipmap_level_index: u32) -> (r: Result<
        MipmapLevelInfo,
        Error,
    >)
        ensures
            r == spec_level_info(self.bytes(), image_index as nat, mipmap_level_index as nat),
            r matches Ok(info) ==> info.wf(),
    {
        mipmap_level_info(self.data, image_index, mipmap_level_index)
    }

    /// Transcodes one level into `format`. The format is checked first, before
    /// anything is read or allocated; then the level is resolved and its coded
    /// data located. `decode` receives the request and a zeroed buffer of
    /// exactly the output size, and hands back the filled buffer, or `None`
    /// where the data could not be decoded. Output of any other length is
    /// refused.
    pub fn transcode<F>(
        &mut self,
        image_index: u32,
        mipmap_level_index: u32,
        format: TextureFormat,
        decode: F,
    ) -> (r: Result<Vec<u8>, Error>) where F: FnOnce(TranscodeRequest, Vec<u8>) -> Option<Vec<u8>>
        requires
            forall|q: TranscodeRequest, b: Vec<u8>| decode.requires((q, b)),
        ensures
            final(self).bytes() == old(self).bytes(),
            spec_transcode_precheck(old(self).bytes(), image_index, mipmap_level_index, format)
                matches Some(e) ==> r == Err::<Vec<u8>, Error>(e),
            spec_transcode_precheck(old(self).bytes(), image_index, mipmap_level_index, format)
                is None ==> {
                let q = spec_request(old(self).bytes(), image_index, mipmap_level_index, format);
                exists|buf: Vec<u8>, out: Option<Vec<u8>>|
                    buf@ == Seq::new(q.output_size as nat, |i: int| 0u8) && #[trigger] decode.ensures(
                        (q, buf),
                        out,
                    ) && r == spec_finish(q.output_size as nat, out)
            },
            r matches Ok(v) ==> v@.len() == format.spec_buffer_size(
                spec_level_info(old(self).bytes(), image_index as nat, mipmap_level_index as nat).unwrap(),
            ).unwrap(),
    {
        if !format.is_supported() {
            return Err(Error::UnsupportedFormat);
        }
        let info = match self.mipmap_level_info(image_index, mipmap_level_index) {
            Ok(info) => info,
            Err(e) => {
                return Err(e);
            },
        };
        let (slice_offset, slice_size) = slice_location(self.data, image_index, mipmap_level_index);
        if slice_offset as usize > self.data.len() || slice_size as usize > self.data.len() - slice_offset as usize {
            return Err(Error::DecodeFailed);
        }
        let output_size = match format.buffer_size(&info) {
            Some(n) => n,
            None => {
                return Err(Error::DecodeFailed);
            },
        };
        let request = TranscodeRequest {
            image_index,
            level_index: mipmap_level_index,
            format,
            level: info,
            is_etc1s: self.data.len() > 20 && self.data[20] == 0,
            slice_offset,
            slice_size,
            output_size,
        };
        let buffer = vec![0u8; output_size];
        proof {
            assert forall|i: int| 0 <= i < output_size implies buffer@[i] == 0u8 by {
                assert(cloned(0u8, buffer@[i]));
            }
            assert(buffer@ =~= Seq::new(output_size as nat, |i: int| 0u8));
        }
        let decoded = decode(request, buffer);
        finish_transcode(output_size, decoded)
    }
}

} // verus!
