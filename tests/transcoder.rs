use basis_universal::{
    finish_transcode, image_info, mipmap_level_info, num_mipmap_levels, Error, MipmapLevelInfo,
    TextureFormat, TextureType, TranscodeRequest, Transcoder, HEADER_SIZE, SLICE_DESC_SIZE,
};

/// One directory entry: image, level, flags, width, height.
type Slice = (u32, u8, u8, u16, u16);

const PAYLOAD: usize = 8;

fn put16(v: &mut Vec<u8>, x: u16) {
    v.extend_from_slice(&x.to_le_bytes());
}

fn put24(v: &mut Vec<u8>, x: u32) {
    v.extend_from_slice(&x.to_le_bytes()[..3]);
}

fn put32(v: &mut Vec<u8>, x: u32) {
    v.extend_from_slice(&x.to_le_bytes());
}

/// CRC-16 (CCITT) as the container's header checksum uses it.
fn crc16(bytes: &[u8]) -> u16 {
    let mut crc: u16 = 0xFFFF;
    for &b in bytes {
        let q = (b as u16) ^ (crc >> 8);
        let k = (q >> 4) ^ q;
        crc = (crc << 8) ^ k ^ (k << 5) ^ (k << 12);
    }
    !crc
}

/// Lays out a container: header, slice directory right after it, then
/// `PAYLOAD` bytes of coded data per slice.
fn container(tex_format: u8, flags: u16, tex_type: u8, us_per_frame: u32, images: u32, slices: &[Slice]) -> Vec<u8> {
    let n = slices.len();
    let data_start = HEADER_SIZE + SLICE_DESC_SIZE * n;
    let total = data_start + PAYLOAD * n;
    let mut v = Vec::new();
    put16(&mut v, 0x4273);
    put16(&mut v, 0x13);
    put16(&mut v, HEADER_SIZE as u16);
    put16(&mut v, 0);
    put32(&mut v, (total - HEADER_SIZE) as u32);
    put16(&mut v, 0);
    put24(&mut v, n as u32);
    put24(&mut v, images);
    v.push(tex_format);
    put16(&mut v, flags);
    v.push(tex_type);
    put24(&mut v, us_per_frame);
    for _ in 0..3 {
        put32(&mut v, 0);
    }
    put16(&mut v, 0);
    put32(&mut v, 0);
    put24(&mut v, 0);
    put16(&mut v, 0);
    put32(&mut v, 0);
    put24(&mut v, 0);
    put32(&mut v, 0);
    put32(&mut v, 0);
    put32(&mut v, HEADER_SIZE as u32);
    put32(&mut v, 0);
    put32(&mut v, 0);
    assert_eq!(v.len(), HEADER_SIZE);
    let checksum = crc16(&v[8..HEADER_SIZE]);
    v[6..8].copy_from_slice(&checksum.to_le_bytes());
    for (k, &(image, level, sflags, w, h)) in slices.iter().enumerate() {
        put24(&mut v, image);
        v.push(level);
        v.push(sflags);
        put16(&mut v, w);
        put16(&mut v, h);
        put16(&mut v, (w + 3) / 4);
        put16(&mut v, (h + 3) / 4);
        put32(&mut v, (data_start + PAYLOAD * k) as u32);
        put32(&mut v, PAYLOAD as u32);
        put16(&mut v, 0);
    }
    v.resize(total, 0xAB);
    v
}

/// A 2D UASTC texture of 1024x1024 pixels with its full chain of 11 levels.
fn texture_1024() -> Vec<u8> {
    let slices: Vec<Slice> = (0..11u8)
        .map(|l| (0, l, 0, (1024u32 >> l) as u16, (1024u32 >> l) as u16))
        .collect();
    container(1, 0, 0, 0, 1, &slices)
}

fn keep(_: TranscodeRequest, buf: Vec<u8>) -> Option<Vec<u8>> {
    Some(buf)
}

#[test]
fn create_and_drop_transcoder() {
    let _transcoder = Transcoder::new();
}

#[test]
fn texture_type_is_correct() {
    let data = texture_1024();
    let mut transcoder = Transcoder::new();
    let op = transcoder.begin(&data).unwrap();

    assert_eq!(op.texture_type().unwrap(), TextureType::D2);
}

#[test]
fn image_info_is_correct() {
    let data = texture_1024();
    let mut transcoder = Transcoder::new();
    let op = transcoder.begin(&data).unwrap();

    let info = op.image_info(0).unwrap();

    assert_eq!(info.num_mipmap_levels, 11);
    assert_eq!(info.width, 1024);
    assert_eq!(info.height, 1024);
}

#[test]
fn mipmap_level_info_is_correct() {
    let data = texture_1024();
    let mut transcoder = Transcoder::new();
    let op = transcoder.begin(&data).unwrap();

    for mipmap_level in 0..11 {
        let info = op.mipmap_level_info(0, mipmap_level).unwrap();

        let dimensions = 2u32.pow(11 - mipmap_level - 1);
        assert_eq!(info.width, dimensions);
        assert_eq!(info.height, dimensions);
    }
}

#[test]
fn transcoded_buffer_has_correct_size() {
    let data = texture_1024();
    let mut transcoder = Transcoder::new();
    let mut op = transcoder.begin(&data).unwrap();

    let buffer = op.transcode(0, 0, TextureFormat::Rgba32, keep).unwrap();

    assert_eq!(buffer.len(), 1024 * 1024 * 4);
}

#[test]
fn level_dimensions_halve_down_to_one() {
    let data = texture_1024();
    let levels = num_mipmap_levels(&data, 0);
    assert_eq!(levels, 11);
    for l in 0..levels - 1 {
        let a = mipmap_level_info(&data, 0, l).unwrap();
        let b = mipmap_level_info(&data, 0, l + 1).unwrap();
        assert_eq!(b.width, std::cmp::max(1, a.width / 2));
        assert_eq!(b.height, std::cmp::max(1, a.height / 2));
    }
    let last = mipmap_level_info(&data, 0, 10).unwrap();
    assert_eq!((last.width, last.height), (1, 1));
}

#[test]
fn total_blocks_is_grid_product() {
    let data = container(1, 0, 0, 0, 1, &[(0, 0, 0, 30, 10), (0, 1, 0, 15, 5)]);
    let a = mipmap_level_info(&data, 0, 0).unwrap();
    assert_eq!((a.num_blocks_x, a.num_blocks_y, a.total_blocks), (8, 3, 24));
    let b = mipmap_level_info(&data, 0, 1).unwrap();
    assert_eq!((b.num_blocks_x, b.num_blocks_y, b.total_blocks), (4, 2, 8));
    assert_eq!(image_info(&data, 0).unwrap().total_blocks, 24);
}

#[test]
fn transcoded_block_formats_have_correct_size() {
    let data = texture_1024();
    let mut transcoder = Transcoder::new();
    let mut op = transcoder.begin(&data).unwrap();

    let bc1 = op.transcode(0, 2, TextureFormat::Bc1Rgb, keep).unwrap();
    assert_eq!(bc1.len(), 64 * 64 * 8);
    let bc7 = op.transcode(0, 2, TextureFormat::Bc7Rgba, keep).unwrap();
    assert_eq!(bc7.len(), 64 * 64 * 16);
    let raw = op.transcode(0, 10, TextureFormat::Rgba32, keep).unwrap();
    assert_eq!(raw.len(), 4);
    let bc4 = op.transcode(0, 10, TextureFormat::Bc4R, keep).unwrap();
    assert_eq!(bc4.len(), 8);
}

#[test]
fn buffer_size_table() {
    let info = MipmapLevelInfo {
        width: 30,
        height: 10,
        num_blocks_x: 8,
        num_blocks_y: 3,
        total_blocks: 24,
        has_alpha: false,
        is_iframe: false,
    };
    assert_eq!(TextureFormat::Rgba32.buffer_size(&info), Some(1200));
    assert_eq!(TextureFormat::Bc1Rgb.buffer_size(&info), Some(192));
    assert_eq!(TextureFormat::Bc3Rgba.buffer_size(&info), Some(384));
    assert_eq!(TextureFormat::Bc5Rg.buffer_size(&info), Some(384));
    assert_eq!(TextureFormat::Pvrtc1Rgba4.buffer_size(&info), None);
    assert_eq!(TextureFormat::Bc7Rgba.bytes_per_block(), Some(16));
    assert!(!TextureFormat::Pvrtc1Rgba4.is_supported());
}

#[test]
fn queries_are_idempotent() {
    let data = texture_1024();
    let mut transcoder = Transcoder::new();
    let op = transcoder.begin(&data).unwrap();
    assert_eq!(op.file_info(), op.file_info());
    assert_eq!(op.image_info(0), op.image_info(0));
    assert_eq!(op.mipmap_level_info(0, 3), op.mipmap_level_info(0, 3));
    assert_eq!(op.num_mipmap_levels(0), op.num_mipmap_levels(0));
}

#[test]
fn out_of_range_image() {
    let data = texture_1024();
    let mut transcoder = Transcoder::new();
    let op = transcoder.begin(&data).unwrap();
    assert_eq!(op.num_images(), 1);
    assert_eq!(op.num_mipmap_levels(1), 0);
    assert_eq!(op.image_info(1), Err(Error::ImageIndexInvalid));
    assert_eq!(op.mipmap_level_info(5, 0), Err(Error::LevelIndexInvalid));
}

#[test]
fn out_of_range_level() {
    let data = texture_1024();
    let mut transcoder = Transcoder::new();
    let mut op = transcoder.begin(&data).unwrap();
    assert_eq!(op.mipmap_level_info(0, 11), Err(Error::LevelIndexInvalid));
    assert_eq!(
        op.transcode(0, 11, TextureFormat::Rgba32, keep),
        Err(Error::LevelIndexInvalid)
    );
}

#[test]
fn rebegin_reflects_only_new_buffer() {
    let first = texture_1024();
    let second = container(1, 0, 1, 0, 2, &[(0, 0, 0, 8, 8), (1, 0, 0, 8, 8)]);
    let mut transcoder = Transcoder::new();
    let op = transcoder.begin(&first).unwrap();
    assert_eq!(op.num_images(), 1);
    op.end();
    let op = transcoder.begin(&second).unwrap();
    assert_eq!(op.num_images(), 2);
    assert_eq!(op.texture_type(), Ok(TextureType::D2Array));
    assert_eq!(op.image_info(0).unwrap().width, 8);
    drop(op);
    let op = transcoder.begin(&[]).unwrap();
    assert_eq!(op.num_images(), 0);
}

#[test]
fn short_buffers_are_header_invalid() {
    let mut transcoder = Transcoder::new();
    for data in [&[][..], &[0x73, 0x42, 0x13][..]] {
        let mut op = transcoder.begin(data).unwrap();
        assert_eq!(op.texture_type(), Err(Error::HeaderInvalid));
        assert_eq!(op.file_info(), Err(Error::HeaderInvalid));
        assert_eq!(op.image_info(0), Err(Error::HeaderInvalid));
        assert_eq!(op.mipmap_level_info(0, 0), Err(Error::HeaderInvalid));
        assert_eq!(op.num_images(), 0);
        assert_eq!(op.num_mipmap_levels(0), 0);
        assert_eq!(
            op.transcode(0, 0, TextureFormat::Rgba32, keep),
            Err(Error::HeaderInvalid)
        );
    }
}

#[test]
fn header_checksum_is_checked() {
    let good = texture_1024();
    assert!(basis_universal::file_info(&good).is_ok());
    // A header rewritten with a matching checksum reads again.
    let mut resealed = good.clone();
    resealed[24] = 9;
    let checksum = crc16(&resealed[8..HEADER_SIZE]);
    resealed[6..8].copy_from_slice(&checksum.to_le_bytes());
    assert_eq!(basis_universal::file_info(&resealed).unwrap().us_per_frame, 9);
}

#[test]
fn corrupted_headers_are_invalid() {
    let good = texture_1024();
    let mut bad_magic = good.clone();
    bad_magic[0] = b'x';
    let mut bad_version = good.clone();
    bad_version[2] = 0x12;
    let mut bad_type = good.clone();
    bad_type[23] = 5;
    let mut no_slices = good.clone();
    no_slices[14] = 0;
    let mut bad_checksum = good.clone();
    bad_checksum[6] ^= 1;
    let mut edited_after_checksum = good.clone();
    edited_after_checksum[24] = 9;
    for data in [bad_magic, bad_version, bad_type, no_slices, bad_checksum, edited_after_checksum] {
        assert_eq!(basis_universal::file_info(&data), Err(Error::HeaderInvalid));
        assert_eq!(basis_universal::num_images(&data), 0);
    }
}

#[test]
fn broken_mip_chains_are_header_invalid() {
    let not_halved = container(1, 0, 0, 0, 1, &[(0, 0, 0, 64, 64), (0, 1, 0, 30, 32)]);
    assert_eq!(basis_universal::file_info(&not_halved), Err(Error::HeaderInvalid));
    let orphan = container(1, 0, 0, 0, 1, &[(0, 0, 0, 64, 64), (0, 2, 0, 16, 16)]);
    assert_eq!(image_info(&orphan, 0), Err(Error::HeaderInvalid));
    let odd = container(1, 0, 0, 0, 1, &[(0, 0, 0, 5, 3), (0, 1, 0, 2, 1), (0, 2, 0, 1, 1)]);
    assert_eq!(num_mipmap_levels(&odd, 0), 3);
    assert_eq!(mipmap_level_info(&odd, 0, 2).unwrap().width, 1);
}

#[test]
fn unsupported_format_never_reaches_the_decoder() {
    let data = texture_1024();
    let mut transcoder = Transcoder::new();
    let mut op = transcoder.begin(&data).unwrap();
    let r = op.transcode(0, 0, TextureFormat::Pvrtc1Rgba4, |_, _| -> Option<Vec<u8>> {
        panic!("decoder called for an unsupported format")
    });
    assert_eq!(r, Err(Error::UnsupportedFormat));
    assert_eq!(
        op.transcode(0, 99, TextureFormat::Pvrtc1Rgba4, keep),
        Err(Error::UnsupportedFormat)
    );
    assert!(op.file_info().is_ok());
}

#[test]
fn decode_failures_are_reported() {
    let data = texture_1024();
    let mut transcoder = Transcoder::new();
    let mut op = transcoder.begin(&data).unwrap();
    assert_eq!(
        op.transcode(0, 0, TextureFormat::Rgba32, |_, _| None),
        Err(Error::DecodeFailed)
    );
    assert_eq!(
        op.transcode(0, 0, TextureFormat::Rgba32, |_, mut b: Vec<u8>| {
            b.pop();
            Some(b)
        }),
        Err(Error::DecodeFailed)
    );
    assert!(op.transcode(0, 1, TextureFormat::Rgba32, keep).is_ok());
}

#[test]
fn slice_data_outside_buffer_fails() {
    let mut data = container(1, 0, 0, 0, 1, &[(0, 0, 0, 8, 8)]);
    let pos = HEADER_SIZE + 13;
    data[pos..pos + 4].copy_from_slice(&10_000u32.to_le_bytes());
    let mut transcoder = Transcoder::new();
    let mut op = transcoder.begin(&data).unwrap();
    assert_eq!(
        op.transcode(0, 0, TextureFormat::Rgba32, keep),
        Err(Error::DecodeFailed)
    );
}

#[test]
fn decoder_receives_request_and_zeroed_buffer() {
    let data = texture_1024();
    let mut transcoder = Transcoder::new();
    let mut op = transcoder.begin(&data).unwrap();
    let out = op
        .transcode(0, 3, TextureFormat::Bc3Rgba, |req, buf| {
            assert_eq!(req.image_index, 0);
            assert_eq!(req.level_index, 3);
            assert_eq!(req.level.width, 128);
            assert_eq!(req.output_size, 32 * 32 * 16);
            assert_eq!(req.slice_offset as usize, HEADER_SIZE + SLICE_DESC_SIZE * 11 + PAYLOAD * 3);
            assert_eq!(req.slice_size as usize, PAYLOAD);
            assert!(!req.is_etc1s);
            assert!(buf.iter().all(|&b| b == 0));
            Some(vec![7u8; buf.len()])
        })
        .unwrap();
    assert_eq!(out.len(), 32 * 32 * 16);
    assert!(out.iter().all(|&b| b == 7));
}

#[test]
fn file_info_reports_header_fields() {
    let data = container(0, 4, 3, 33_333, 2, &[(0, 0, 2, 16, 16), (1, 0, 0, 16, 16)]);
    let info = basis_universal::file_info(&data).unwrap();
    assert_eq!(info.texture_type, TextureType::Video);
    assert_eq!(info.num_images, 2);
    assert_eq!(info.us_per_frame, 33_333);
    assert!(info.has_alpha);
    assert!(info.is_etc1s);
    let frame0 = image_info(&data, 0).unwrap();
    assert!(frame0.is_iframe);
    assert!(frame0.has_alpha);
    assert!(!image_info(&data, 1).unwrap().is_iframe);
}

#[test]
fn etc1s_alpha_slices_are_skipped() {
    let data = container(
        0,
        4,
        0,
        0,
        1,
        &[(0, 0, 1, 64, 32), (0, 0, 0, 64, 32), (0, 1, 1, 32, 16), (0, 1, 0, 32, 16)],
    );
    assert_eq!(num_mipmap_levels(&data, 0), 2);
    let mut transcoder = Transcoder::new();
    let mut op = transcoder.begin(&data).unwrap();
    let mut seen = 0u32;
    op.transcode(0, 1, TextureFormat::Bc1Rgb, |req, buf| {
        seen = req.slice_offset;
        Some(buf)
    })
    .unwrap();
    assert_eq!(seen as usize, HEADER_SIZE + SLICE_DESC_SIZE * 4 + PAYLOAD * 3);
}

#[test]
fn uastc_alpha_comes_from_the_slice() {
    let data = container(1, 4, 0, 0, 1, &[(0, 0, 1, 4, 4)]);
    assert!(mipmap_level_info(&data, 0, 0).unwrap().has_alpha);
    assert!(basis_universal::file_info(&data).unwrap().has_alpha);
    let opaque = container(1, 0, 0, 0, 1, &[(0, 0, 0, 4, 4)]);
    assert!(!image_info(&opaque, 0).unwrap().has_alpha);
    assert!(!basis_universal::file_info(&opaque).unwrap().has_alpha);
    let disagreeing = container(1, 0, 0, 0, 1, &[(0, 0, 1, 4, 4)]);
    assert_eq!(basis_universal::file_info(&disagreeing), Err(Error::HeaderInvalid));
}

#[test]
fn truncated_pixel_data_keeps_structure_readable() {
    let good = texture_1024();
    let truncated = good[..good.len() - 1].to_vec();
    assert_eq!(basis_universal::texture_type(&truncated), Ok(TextureType::D2));
    assert_eq!(image_info(&truncated, 0).unwrap().width, 1024);
    let headers_only = good[..HEADER_SIZE + SLICE_DESC_SIZE * 11].to_vec();
    assert_eq!(basis_universal::texture_type(&headers_only), Ok(TextureType::D2));
    let mut transcoder = Transcoder::new();
    let mut op = transcoder.begin(&truncated).unwrap();
    assert!(op.transcode(0, 9, TextureFormat::Rgba32, keep).is_ok());
    assert_eq!(
        op.transcode(0, 10, TextureFormat::Rgba32, keep),
        Err(Error::DecodeFailed)
    );
}

#[test]
fn unsound_directories_are_header_invalid() {
    // An image below the count with no slice of its own.
    let missing_image = container(1, 0, 1, 0, 2, &[(0, 0, 0, 8, 8), (0, 1, 0, 4, 4)]);
    assert_eq!(image_info(&missing_image, 1), Err(Error::HeaderInvalid));
    // A slice naming an image past the count.
    let stray = container(1, 0, 0, 0, 1, &[(0, 0, 0, 8, 8), (3, 0, 0, 8, 8)]);
    assert_eq!(basis_universal::file_info(&stray), Err(Error::HeaderInvalid));
    // A zero dimension.
    let zero = container(1, 0, 0, 0, 1, &[(0, 0, 0, 0, 8)]);
    assert_eq!(basis_universal::file_info(&zero), Err(Error::HeaderInvalid));
    // A block grid that does not cover the level.
    let mut grid = container(1, 0, 0, 0, 1, &[(0, 0, 0, 8, 8)]);
    grid[HEADER_SIZE + 9] = 5;
    assert_eq!(basis_universal::file_info(&grid), Err(Error::HeaderInvalid));
}

#[test]
fn etc1s_alpha_slices_do_not_add_levels() {
    let data = container(0, 4, 0, 0, 1, &[(0, 0, 1, 8, 8), (0, 0, 0, 8, 8), (0, 1, 1, 4, 4)]);
    assert_eq!(num_mipmap_levels(&data, 0), 1);
    assert_eq!(image_info(&data, 0).unwrap().num_mipmap_levels, 1);
    assert_eq!(mipmap_level_info(&data, 0, 1), Err(Error::LevelIndexInvalid));
}

#[test]
fn block_sizes_follow_dimensions() {
    let a = MipmapLevelInfo {
        width: 30,
        height: 10,
        num_blocks_x: 1,
        num_blocks_y: 1,
        total_blocks: 1,
        has_alpha: true,
        is_iframe: true,
    };
    assert_eq!(TextureFormat::Bc1Rgb.buffer_size(&a), Some(8 * 3 * 8));
    assert_eq!(TextureFormat::Bc7Rgba.buffer_size(&a), Some(8 * 3 * 16));
    let big = MipmapLevelInfo { width: u32::MAX, height: u32::MAX, ..a };
    assert_eq!(TextureFormat::Rgba32.buffer_size(&big), None);
}

#[test]
fn finish_transcode_checks_length() {
    assert_eq!(finish_transcode(2, Some(vec![1, 2])), Ok(vec![1, 2]));
    assert_eq!(finish_transcode(3, Some(vec![1, 2])), Err(Error::DecodeFailed));
    assert_eq!(finish_transcode(0, None), Err(Error::DecodeFailed));
}

#[test]
fn error_messages() {
    assert_eq!(Error::BufferTooLarge.message(), "data too large");
    assert_eq!(Error::HeaderInvalid.message(), "invalid container header");
}
