//! The container reader: the fixed 77-byte header and the slice directory.
//!
//! All fields are little-endian. The header holds the magic "sB" (0), the
//! version (2), its own size (4), a CRC-16 of the bytes that follow the
//! checksum (6), the data size (8), 24-bit slice and image counts (14, 17),
//! the coding scheme (20: 0 ETC1S, 1 UASTC), flags (21), the texture type
//! (23), microseconds per frame (24, 24 bits) and the directory offset (65).
//! Each 23-byte directory entry holds the image (24 bits) and level index,
//! flags, the original width and height, the block grid, and the offset and
//! size of the slice's coded data.

use vstd::prelude::*;

use crate::error::Error;

verus! {

/// Size in bytes of the container's fixed header.
pub const HEADER_SIZE: usize = 77;

/// Size in bytes of one entry of the slice directory.
pub const SLICE_DESC_SIZE: usize = 23;

/// The magic value stored little-endian in the first two bytes ("sB").
pub const SIGNATURE: u16 = 0x4273;

/// The container version this reader understands.
pub const VERSION: u16 = 0x13;

// ---------------------------------------------------------------------------
// Little-endian fields

#[verifier::opaque]
pub open spec fn le16(s: Seq<u8>, i: int) -> nat {
    s[i] as nat + s[i + 1] as nat * 256
}

#[verifier::opaque]
pub open spec fn le24(s: Seq<u8>, i: int) -> nat {
    le16(s, i) + s[i + 2] as nat * 65536
}

#[verifier::opaque]
pub open spec fn le32(s: Seq<u8>, i: int) -> nat {
    le24(s, i) + s[i + 3] as nat * 16777216
}

fn read_u8(data: &[u8], pos: usize) -> (r: u8)
    requires
        pos < data@.len(),
    ensures
        r == data@[pos as int],
{
    data[pos]
}

fn read_u16(data: &[u8], pos: usize) -> (r: u16)
    requires
        pos + 2 <= data@.len(),
    ensures
        r as nat == le16(data@, pos as int),
{
    proof {
        reveal(le16);
    }
    data[pos] as u16 + data[pos + 1] as u16 * 256
}

fn read_u24(data: &[u8], pos: usize) -> (r: u32)
    requires
        pos + 3 <= data@.len(),
    ensures
        r as nat == le24(data@, pos as int),
        r < 0x100_0000,
{
    proof {
        reveal(le16);
        reveal(le24);
    }
    data[pos] as u32 + data[pos + 1] as u32 * 256 + data[pos + 2] as u32 * 65536
}

fn read_u32(data: &[u8], pos: usize) -> (r: u32)
    requires
        pos + 4 <= data@.len(),
    ensures
        r as nat == le32(data@, pos as int),
{
    proof {
        reveal(le16);
        reveal(le24);
        reveal(le32);
    }
    data[pos] as u32 + data[pos + 1] as u32 * 256 + data[pos + 2] as u32 * 65536
        + data[pos + 3] as u32 * 16777216
}

// ---------------------------------------------------------------------------
// Header fields

pub open spec fn signature(s: Seq<u8>) -> nat {
    le16(s, 0)
}

pub open spec fn version(s: Seq<u8>) -> nat {
    le16(s, 2)
}

pub open spec fn header_size(s: Seq<u8>) -> nat {
    le16(s, 4)
}

pub open spec fn total_slices(s: Seq<u8>) -> nat {
    le24(s, 14)
}

pub open spec fn total_images(s: Seq<u8>) -> nat {
    le24(s, 17)
}

pub open spec fn tex_format(s: Seq<u8>) -> nat {
    s[20] as nat
}

pub open spec fn header_flags(s: Seq<u8>) -> nat {
    le16(s, 21)
}

pub open spec fn tex_type(s: Seq<u8>) -> nat {
    s[23] as nat
}

pub open spec fn us_per_frame(s: Seq<u8>) -> nat {
    le24(s, 24)
}

pub open spec fn slice_desc_offset(s: Seq<u8>) -> nat {
    le32(s, 65)
}

/// The container's blocks are coded with ETC1S (format code 0) rather than UASTC.
pub open spec fn is_etc1s(s: Seq<u8>) -> bool {
    tex_format(s) == 0
}

/// Bit 2 of the header flags: some slices carry alpha.
pub open spec fn has_alpha_slices(s: Seq<u8>) -> bool {
    (header_flags(s) / 4) % 2 == 1
}

/// One byte of the container's CRC-16 (CCITT polynomial, table-free form).
pub open spec fn crc16_step(crc: u16, b: u8) -> u16 {
    let q: u16 = (b as u16) ^ (crc >> 8u16);
    let k: u16 = (q >> 4u16) ^ q;
    (crc << 8u16) ^ k ^ (k << 5u16) ^ (k << 12u16)
}

/// The running CRC over the `n` bytes at `start`, from the all-ones state.
pub open spec fn crc16_upto(s: Seq<u8>, start: int, n: nat) -> u16
    decreases n,
{
    if n == 0 {
        0xFFFF
    } else {
        crc16_step(crc16_upto(s, start, (n - 1) as nat), s[start + n - 1])
    }
}

/// The checksum the header must carry: the CRC-16 of every header byte that
/// follows the checksum field itself.
pub open spec fn header_checksum(s: Seq<u8>) -> nat {
    (!crc16_upto(s, 8, (HEADER_SIZE - 8) as nat)) as nat
}

/// The checksum field stored in the header.
pub open spec fn stored_header_checksum(s: Seq<u8>) -> nat {
    le16(s, 6)
}

/// A header whose fields can be read: long enough, right magic, version and header
/// size, a known texture type and coding scheme, at least one image and
/// slice, and a slice directory that lies inside the buffer. The coded data
/// is not needed: each slice's data is checked where it is transcoded.
pub open spec fn layout_valid(s: Seq<u8>) -> bool {
    &&& s.len() >= HEADER_SIZE
    &&& signature(s) == SIGNATURE
    &&& version(s) == VERSION
    &&& header_size(s) == HEADER_SIZE
    &&& stored_header_checksum(s) == header_checksum(s)
    &&& total_slices(s) > 0
    &&& total_images(s) > 0
    &&& total_images(s) <= total_slices(s)
    &&& tex_type(s) <= 4
    &&& tex_format(s) <= 1
    &&& slice_desc_offset(s) + total_slices(s) * SLICE_DESC_SIZE <= s.len()
}

// ---------------------------------------------------------------------------
// Slice directory

pub open spec fn slice_base(s: Seq<u8>, k: int) -> int {
    slice_desc_offset(s) + k * SLICE_DESC_SIZE
}

pub open spec fn slice_image(s: Seq<u8>, k: int) -> nat {
    le24(s, slice_base(s, k))
}

pub open spec fn slice_level(s: Seq<u8>, k: int) -> nat {
    s[slice_base(s, k) + 3] as nat
}

pub open spec fn slice_flags(s: Seq<u8>, k: int) -> nat {
    s[slice_base(s, k) + 4] as nat
}

pub open spec fn slice_width(s: Seq<u8>, k: int) -> nat {
    le16(s, slice_base(s, k) + 5)
}

pub open spec fn slice_height(s: Seq<u8>, k: int) -> nat {
    le16(s, slice_base(s, k) + 7)
}

pub open spec fn slice_blocks_x(s: Seq<u8>, k: int) -> nat {
    le16(s, slice_base(s, k) + 9)
}

pub open spec fn slice_blocks_y(s: Seq<u8>, k: int) -> nat {
    le16(s, slice_base(s, k) + 11)
}

pub open spec fn slice_file_offset(s: Seq<u8>, k: int) -> nat {
    le32(s, slice_base(s, k) + 13)
}

pub open spec fn slice_file_size(s: Seq<u8>, k: int) -> nat {
    le32(s, slice_base(s, k) + 17)
}

/// Bit 0 of a slice's flags: the slice holds alpha data.
pub open spec fn slice_is_alpha(s: Seq<u8>, k: int) -> bool {
    slice_flags(s, k) % 2 == 1
}

/// Bit 1 of a slice's flags: the slice decodes without a preceding frame.
pub open spec fn slice_is_iframe(s: Seq<u8>, k: int) -> bool {
    (slice_flags(s, k) / 2) % 2 == 1
}

/// The slice holds the colour data of (image, level). In ETC1S containers a
/// level with alpha has a second slice for the alpha channel, which is skipped.
pub open spec fn slice_selected(s: Seq<u8>, k: int, image: nat, level: nat) -> bool {
    &&& slice_image(s, k) == image
    &&& slice_level(s, k) == level
    &&& (is_etc1s(s) ==> !slice_is_alpha(s, k))
}

/// The first selected slice among the first `k` entries of the directory.
pub open spec fn first_slice_upto(s: Seq<u8>, image: nat, level: nat, k: nat) -> Option<nat>
    decreases k,
{
    if k == 0 {
        None
    } else {
        match first_slice_upto(s, image, level, (k - 1) as nat) {
            Some(j) => Some(j),
            None => if slice_selected(s, k - 1, image, level) {
                Some((k - 1) as nat)
            } else {
                None
            },
        }
    }
}

/// The directory entry that holds (image, level), if any.
pub open spec fn find_slice(s: Seq<u8>, image: nat, level: nat) -> Option<nat> {
    first_slice_upto(s, image, level, total_slices(s))
}

/// One more than the largest level index among the colour slices of `image`
/// in the first `k` entries, and at least one.
pub open spec fn levels_upto(s: Seq<u8>, image: nat, k: nat) -> nat
    decreases k,
{
    if k == 0 {
        1
    } else {
        let prev = levels_upto(s, image, (k - 1) as nat);
        if slice_selected(s, k - 1, image, slice_level(s, k - 1)) && slice_level(s, k - 1) + 1
            > prev {
            slice_level(s, k - 1) + 1
        } else {
            prev
        }
    }
}

/// The number of mipmap levels of `image`: zero for an unreadable header or
/// an image index out of range.
pub open spec fn level_count(s: Seq<u8>, image: nat) -> nat {
    if header_valid(s) && image < total_images(s) {
        levels_upto(s, image, total_slices(s))
    } else {
        0
    }
}

proof fn lemma_levels_upto_bounds(s: Seq<u8>, image: nat, k: nat)
    ensures
        1 <= levels_upto(s, image, k) <= 256,
    decreases k,
{
    if k > 0 {
        lemma_levels_upto_bounds(s, image, (k - 1) as nat);
    }
}

proof fn lemma_first_slice_stable(s: Seq<u8>, image: nat, level: nat, j: nat, k: nat)
    requires
        j <= k,
        first_slice_upto(s, image, level, j) is Some,
    ensures
        first_slice_upto(s, image, level, k) == first_slice_upto(s, image, level, j),
    decreases k - j,
{
    if j < k {
        lemma_first_slice_stable(s, image, level, j, (k - 1) as nat);
    }
}

proof fn lemma_first_slice_in_range(s: Seq<u8>, image: nat, level: nat, k: nat)
    ensures
        first_slice_upto(s, image, level, k) matches Some(j) ==> j < k && slice_selected(
            s,
            j as int,
            image,
            level,
        ),
    decreases k,
{
    if k > 0 {
        lemma_first_slice_in_range(s, image, level, (k - 1) as nat);
    }
}

/// `child` is `max(1, parent / 2)`: one mipmap step down.
pub open spec fn halved(parent: nat, child: nat) -> bool {
    child == if parent / 2 >= 1 {
        parent / 2
    } else {
        1
    }
}

/// Slice `k`, where it holds the colour data of a level past the first, has
/// a parent level in the directory, and its dimensions are the parent's halved.
pub open spec fn slice_follows_parent(s: Seq<u8>, k: int) -> bool {
    let image = slice_image(s, k);
    let level = slice_level(s, k);
    (level >= 1 && slice_selected(s, k, image, level)) ==> match find_slice(
        s,
        image,
        (level - 1) as nat,
    ) {
        Some(j) => halved(slice_width(s, j as int), slice_width(s, k)) && halved(
            slice_height(s, j as int),
            slice_height(s, k),
        ),
        None => false,
    }
}

/// Directory entry `k` is sound: it names an existing image, its dimensions
/// are at least one, its block grid covers them in 4x4 blocks, a UASTC slice
/// agrees with the header on alpha, and its level follows from its parent.
pub open spec fn slice_sound(s: Seq<u8>, k: int) -> bool {
    &&& slice_image(s, k) < total_images(s)
    &&& slice_width(s, k) >= 1
    &&& slice_height(s, k) >= 1
    &&& slice_blocks_x(s, k) == (slice_width(s, k) + 3) / 4
    &&& slice_blocks_y(s, k) == (slice_height(s, k) + 3) / 4
    &&& (!is_etc1s(s) ==> slice_is_alpha(s, k) == has_alpha_slices(s))
    &&& slice_follows_parent(s, k)
}

/// Every entry is sound and every image has colour data for its first level.
pub open spec fn directory_consistent(s: Seq<u8>) -> bool {
    &&& forall|k: int| 0 <= k < total_slices(s) ==> #[trigger] slice_sound(s, k)
    &&& forall|i: nat| i < total_images(s) ==> (#[trigger] find_slice(s, i, 0)) is Some
}

/// A container whose structure can be read: a readable header and a sound
/// slice directory whose mipmap chains halve level by level.
pub open spec fn header_valid(s: Seq<u8>) -> bool {
    layout_valid(s) && directory_consistent(s)
}

// ---------------------------------------------------------------------------
// Structural summaries

/// How the images of a container are to be read.
#[derive(Copy, Clone, Debug, PartialEq, Eq, Hash, Structural)]
pub enum TextureType {
    D2,
    D2Array,
    Cubemap,
    Video,
    Volume,
}

/// A summary of the whole container.
#[derive(Copy, Clone, Debug, PartialEq, Eq, Structural)]
pub struct FileInfo {
    pub texture_type: TextureType,
    pub num_images: u32,
    pub us_per_frame: u32,
    pub has_alpha: bool,
    pub is_etc1s: bool,
}

/// A summary of one image, taken from its first mipmap level.
#[derive(Copy, Clone, Debug, PartialEq, Eq, Structural)]
pub struct ImageInfo {
    pub num_mipmap_levels: u32,
    pub width: u32,
    pub height: u32,
    pub total_blocks: u32,
    pub has_alpha: bool,
    pub is_iframe: bool,
}

/// A summary of one mipmap level of one image.
#[derive(Copy, Clone, Debug, PartialEq, Eq, Structural)]
pub struct MipmapLevelInfo {
    pub width: u32,
    pub height: u32,
    pub num_blocks_x: u32,
    pub num_blocks_y: u32,
    pub total_blocks: u32,
    pub has_alpha: bool,
    pub is_iframe: bool,
}

impl MipmapLevelInfo {
    /// The block grid covers the dimensions in 4x4 blocks, and the block
    /// count is the product of the grid.
    pub open spec fn wf(self) -> bool {
        &&& self.num_blocks_x == (self.width + 3) / 4
        &&& self.num_blocks_y == (self.height + 3) / 4
        &&& self.total_blocks == self.num_blocks_x * self.num_blocks_y
    }
}

pub open spec fn texture_type_of(code: nat) -> TextureType {
    if code == 0 {
        TextureType::D2
    } else if code == 1 {
        TextureType::D2Array
    } else if code == 2 {
        TextureType::Cubemap
    } else if code == 3 {
        TextureType::Video
    } else {
        TextureType::Volume
    }
}

/// Alpha presence of the level stored in slice `k`: the header's flag for
/// ETC1S containers (where alpha lives in a separate slice), the slice's own
/// flag otherwise.
pub open spec fn level_has_alpha(s: Seq<u8>, k: int) -> bool {
    if is_etc1s(s) {
        has_alpha_slices(s)
    } else {
        slice_is_alpha(s, k)
    }
}

pub open spec fn level_info_of_slice(s: Seq<u8>, k: int) -> MipmapLevelInfo {
    MipmapLevelInfo {
        width: slice_width(s, k) as u32,
        height: slice_height(s, k) as u32,
        num_blocks_x: slice_blocks_x(s, k) as u32,
        num_blocks_y: slice_blocks_y(s, k) as u32,
        total_blocks: (slice_blocks_x(s, k) * slice_blocks_y(s, k)) as u32,
        has_alpha: level_has_alpha(s, k),
        is_iframe: slice_is_iframe(s, k),
    }
}

pub open spec fn spec_texture_type(s: Seq<u8>) -> Result<TextureType, Error> {
    if header_valid(s) {
        Ok(texture_type_of(tex_type(s)))
    } else {
        Err(Error::HeaderInvalid)
    }
}

pub open spec fn spec_num_images(s: Seq<u8>) -> nat {
    if header_valid(s) {
        total_images(s)
    } else {
        0
    }
}

pub open spec fn spec_file_info(s: Seq<u8>) -> Result<FileInfo, Error> {
    if header_valid(s) {
        Ok(
            FileInfo {
                texture_type: texture_type_of(tex_type(s)),
                num_images: total_images(s) as u32,
                us_per_frame: us_per_frame(s) as u32,
                has_alpha: has_alpha_slices(s),
                is_etc1s: is_etc1s(s),
            },
        )
    } else {
        Err(Error::HeaderInvalid)
    }
}

pub open spec fn spec_level_info(s: Seq<u8>, image: nat, level: nat) -> Result<
    MipmapLevelInfo,
    Error,
> {
    if !header_valid(s) {
        Err(Error::HeaderInvalid)
    } else if image >= total_images(s) {
        Err(Error::LevelIndexInvalid)
    } else {
        match find_slice(s, image, level) {
            Some(k) => Ok(level_info_of_slice(s, k as int)),
            None => Err(Error::LevelIndexInvalid),
        }
    }
}

pub open spec fn spec_image_info(s: Seq<u8>, image: nat) -> Result<ImageInfo, Error> {
    if !header_valid(s) {
        Err(Error::HeaderInvalid)
    } else if image >= total_images(s) {
        Err(Error::ImageIndexInvalid)
    } else {
        match find_slice(s, image, 0) {
            Some(k) => Ok(
                ImageInfo {
                    num_mipmap_levels: level_count(s, image) as u32,
                    width: slice_width(s, k as int) as u32,
                    height: slice_height(s, k as int) as u32,
                    total_blocks: (slice_blocks_x(s, k as int) * slice_blocks_y(
                        s,
                        k as int,
                    )) as u32,
                    has_alpha: level_has_alpha(s, k as int),
                    is_iframe: slice_is_iframe(s, k as int),
                },
            ),
            None => Err(Error::ImageIndexInvalid),
        }
    }
}

// ---------------------------------------------------------------------------
// Reading

/// The CRC-16 of the header bytes after the checksum field.
fn compute_header_checksum(data: &[u8]) -> (r: u16)
    requires
        data@.len() >= HEADER_SIZE,
    ensures
        r as nat == header_checksum(data@),
{
    let mut crc: u16 = 0xFFFF;
    let mut i: usize = 0;
    while i < HEADER_SIZE - 8
        invariant
            i <= HEADER_SIZE - 8,
            data@.len() >= HEADER_SIZE,
            crc == crc16_upto(data@, 8, i as nat),
        decreases HEADER_SIZE - 8 - i,
    {
        let b = data[8 + i];
        let q: u16 = (b as u16) ^ (crc >> 8u16);
        let k: u16 = (q >> 4u16) ^ q;
        crc = (crc << 8u16) ^ k ^ (k << 5u16) ^ (k << 12u16);
        i = i + 1;
    }
    !crc
}

/// Checks the header fields and the placement of the slice directory.
fn layout_is_valid(data: &[u8]) -> (r: bool)
    ensures
        r == layout_valid(data@),
{
    if data.len() < HEADER_SIZE {
        return false;
    }
    let sig = read_u16(data, 0);
    let ver = read_u16(data, 2);
    let hsize = read_u16(data, 4);
    let slices = read_u24(data, 14);
    let images = read_u24(data, 17);
    let format = read_u8(data, 20);
    let ttype = read_u8(data, 23);
    let desc_ofs = read_u32(data, 65);
    if read_u16(data, 6) != compute_header_checksum(data) {
        return false;
    }
    if sig != SIGNATURE || ver != VERSION || hsize as usize != HEADER_SIZE {
        return false;
    }
    if slices == 0 || images == 0 || images > slices || ttype > 4 || format > 1 {
        return false;
    }
    if desc_ofs as usize > data.len() {
        return false;
    }
    (data.len() - desc_ofs as usize) / SLICE_DESC_SIZE >= slices as usize
}

/// Position of entry `k` of the slice directory.
fn slice_pos(data: &[u8], k: u32) -> (r: usize)
    requires
        layout_valid(data@),
        k < total_slices(data@),
    ensures
        r == slice_base(data@, k as int),
        r + SLICE_DESC_SIZE <= data@.len(),
        data@.len() <= usize::MAX,
{
    let ghost s = data@;
    let len = data.len();
    let ofs = read_u32(data, 65);
    proof {
        let n = total_slices(s);
        assert(k * 23 + 23 <= n * 23) by (nonlinear_arith)
            requires
                k < n,
        ;
        assert(ofs + n * 23 <= s.len());
    }
    ofs as usize + k as usize * SLICE_DESC_SIZE
}

fn halves(parent: u16, child: u16) -> (r: bool)
    ensures
        r == halved(parent as nat, child as nat),
{
    if parent / 2 >= 1 {
        child == parent / 2
    } else {
        child == 1
    }
}

/// Checks that every directory entry is sound and every image has a first level.
fn directory_is_consistent(data: &[u8]) -> (r: bool)
    requires
        layout_valid(data@),
    ensures
        r == directory_consistent(data@),
{
    let ghost s = data@;
    let slices = read_u24(data, 14);
    let images = read_u24(data, 17);
    let etc1s = read_u8(data, 20) == 0;
    let file_alpha = (read_u16(data, 21) / 4) % 2 == 1;
    let mut k: u32 = 0;
    while k < slices
        invariant
            s == data@,
            layout_valid(s),
            slices as nat == total_slices(s),
            images as nat == total_images(s),
            etc1s == is_etc1s(s),
            file_alpha == has_alpha_slices(s),
            k <= slices,
            forall|i: int| 0 <= i < k ==> #[trigger] slice_sound(s, i),
        decreases slices - k,
    {
        let pos = slice_pos(data, k);
        let image = read_u24(data, pos);
        let level = read_u8(data, pos + 3);
        let flags = read_u8(data, pos + 4);
        let w = read_u16(data, pos + 5) as u32;
        let h = read_u16(data, pos + 7) as u32;
        let bx = read_u16(data, pos + 9) as u32;
        let by = read_u16(data, pos + 11) as u32;
        if image >= images || w == 0 || h == 0 || bx != (w + 3) / 4 || by != (h + 3) / 4 || (
        !etc1s && (flags % 2 == 1) != file_alpha) {
            assert(!slice_sound(s, k as int));
            return false;
        }
        if level >= 1 && (!etc1s || flags % 2 == 0) {
            match find_slice_index(data, image, (level - 1) as u32) {
                Some(j) => {
                    let ppos = slice_pos(data, j);
                    if !halves(read_u16(data, ppos + 5), read_u16(data, pos + 5)) || !halves(
                        read_u16(data, ppos + 7),
                        read_u16(data, pos + 7),
                    ) {
                        assert(!slice_follows_parent(s, k as int));
                        assert(!slice_sound(s, k as int));
                        return false;
                    }
                },
                None => {
                    assert(!slice_follows_parent(s, k as int));
                    assert(!slice_sound(s, k as int));
                    return false;
                },
            }
        }
        assert(slice_follows_parent(s, k as int));
        assert(slice_sound(s, k as int));
        k = k + 1;
    }
    let mut i: u32 = 0;
    while i < images
        invariant
            s == data@,
            layout_valid(s),
            slices as nat == total_slices(s),
            images as nat == total_images(s),
            i <= images,
            forall|k: int| 0 <= k < total_slices(s) ==> #[trigger] slice_sound(s, k),
            forall|j: nat| j < i ==> (#[trigger] find_slice(s, j, 0)) is Some,
        decreases images - i,
    {
        match find_slice_index(data, i, 0) {
            Some(_) => {},
            None => {
                assert(find_slice(s, i as nat, 0) is None);
                return false;
            },
        }
        i = i + 1;
    }
    true
}

/// Checks the header and the consistency of the slice directory.
pub fn header_is_valid(data: &[u8]) -> (r: bool)
    ensures
        r == header_valid(data@),
{
    layout_is_valid(data) && directory_is_consistent(data)
}

/// The texture type recorded in the header.
pub fn texture_type(data: &[u8]) -> (r: Result<TextureType, Error>)
    ensures
        r == spec_texture_type(data@),
{
    if !header_is_valid(data) {
        return Err(Error::HeaderInvalid);
    }
    let code = read_u8(data, 23);
    if code == 0 {
        Ok(TextureType::D2)
    } else if code == 1 {
        Ok(TextureType::D2Array)
    } else if code == 2 {
        Ok(TextureType::Cubemap)
    } else if code == 3 {
        Ok(TextureType::Video)
    } else {
        Ok(TextureType::Volume)
    }
}

/// The number of images, zero when the header cannot be read.
pub fn num_images(data: &[u8]) -> (r: u32)
    ensures
        r as nat == spec_num_images(data@),
{
    if !header_is_valid(data) {
        return 0;
    }
    read_u24(data, 17)
}

/// The number of mipmap levels of an image, zero when the header cannot be
/// read or the image index is out of range.
pub fn num_mipmap_levels(data: &[u8], image_index: u32) -> (r: u32)
    ensures
        r as nat == level_count(data@, image_index as nat),
{
    if !header_is_valid(data) {
        return 0;
    }
    let slices = read_u24(data, 14);
    let images = read_u24(data, 17);
    if image_index >= images {
        return 0;
    }
    let ghost s = data@;
    let etc1s = read_u8(data, 20) == 0;
    let mut levels: u32 = 1;
    let mut k: u32 = 0;
    while k < slices
        invariant
            s == data@,
            layout_valid(s),
            slices as nat == total_slices(s),
            k <= slices,
            etc1s == is_etc1s(s),
            levels as nat == levels_upto(s, image_index as nat, k as nat),
        decreases slices - k,
    {
        proof {
            lemma_levels_upto_bounds(s, image_index as nat, k as nat);
        }
        let pos = slice_pos(data, k);
        let img = read_u24(data, pos);
        let lvl = read_u8(data, pos + 3);
        let flags = read_u8(data, pos + 4);
        if img == image_index && (!etc1s || flags % 2 == 0) && lvl as u32 + 1 > levels {
            levels = lvl as u32 + 1;
        }
        k = k + 1;
    }
    levels
}

/// The directory entry holding the colour data of (image, level).
fn find_slice_index(data: &[u8], image_index: u32, level_index: u32) -> (r: Option<u32>)
    requires
        layout_valid(data@),
    ensures
        r matches Some(k) ==> find_slice(data@, image_index as nat, level_index as nat) == Some(
            k as nat,
        ) && k < total_slices(data@),
        r is None ==> find_slice(data@, image_index as nat, level_index as nat) is None,
{
    let ghost s = data@;
    let slices = read_u24(data, 14);
    let etc1s = read_u8(data, 20) == 0;
    let mut k: u32 = 0;
    while k < slices
        invariant
            s == data@,
            layout_valid(s),
            slices as nat == total_slices(s),
            etc1s == is_etc1s(s),
            k <= slices,
            first_slice_upto(s, image_index as nat, level_index as nat, k as nat) is None,
        decreases slices - k,
    {
        let pos = slice_pos(data, k);
        let img = read_u24(data, pos);
        let lvl = read_u8(data, pos + 3);
        let flags = read_u8(data, pos + 4);
        if img == image_index && lvl as u32 == level_index && (!etc1s || flags % 2 == 0) {
            proof {
                assert(first_slice_upto(s, image_index as nat, level_index as nat, (k + 1) as nat)
                    == Some(k as nat));
                lemma_first_slice_stable(
                    s,
                    image_index as nat,
                    level_index as nat,
                    (k + 1) as nat,
                    slices as nat,
                );
            }
            return Some(k);
        }
        k = k + 1;
    }
    None
}

/// Reads the level summary held in directory entry `k`.
fn level_info_at(data: &[u8], k: u32) -> (r: MipmapLevelInfo)
    requires
        header_valid(data@),
        k < total_slices(data@),
    ensures
        r == level_info_of_slice(data@, k as int),
        r.wf(),
{
    assert(slice_sound(data@, k as int));
    let pos = slice_pos(data, k);
    let flags = read_u8(data, pos + 4);
    let width = read_u16(data, pos + 5) as u32;
    let height = read_u16(data, pos + 7) as u32;
    let bx = read_u16(data, pos + 9) as u32;
    let by = read_u16(data, pos + 11) as u32;
    assert(bx * by <= 0xFFFF * 0xFFFF) by (nonlinear_arith)
        requires
            bx <= 0xFFFF,
            by <= 0xFFFF,
    ;
    let has_alpha = if read_u8(data, 20) == 0 {
        (read_u16(data, 21) / 4) % 2 == 1
    } else {
        flags % 2 == 1
    };
    MipmapLevelInfo {
        width,
        height,
        num_blocks_x: bx,
        num_blocks_y: by,
        total_blocks: bx * by,
        has_alpha,
        is_iframe: (flags / 2) % 2 == 1,
    }
}

/// The summary of the whole container.
pub fn file_info(data: &[u8]) -> (r: Result<FileInfo, Error>)
    ensures
        r == spec_file_info(data@),
{
    let texture_type = match texture_type(data) {
        Ok(t) => t,
        Err(e) => {
            return Err(e);
        },
    };
    Ok(
        FileInfo {
            texture_type,
            num_images: read_u24(data, 17),
            us_per_frame: read_u24(data, 24),
            has_alpha: (read_u16(data, 21) / 4) % 2 == 1,
            is_etc1s: read_u8(data, 20) == 0,
        },
    )
}

/// The summary of one image, from its first mipmap level.
pub fn image_info(data: &[u8], image_index: u32) -> (r: Result<ImageInfo, Error>)
    ensures
        r == spec_image_info(data@, image_index as nat),
{
    if !header_is_valid(data) {
        return Err(Error::HeaderInvalid);
    }
    if image_index >= read_u24(data, 17) {
        return Err(Error::ImageIndexInvalid);
    }
    match find_slice_index(data, image_index, 0) {
        Some(k) => {
            let level = level_info_at(data, k);
            Ok(
                ImageInfo {
                    num_mipmap_levels: num_mipmap_levels(data, image_index),
                    width: level.width,
                    height: level.height,
                    total_blocks: level.total_blocks,
                    has_alpha: level.has_alpha,
                    is_iframe: level.is_iframe,
                },
            )
        },
        None => Err(Error::ImageIndexInvalid),
    }
}

/// The summary of one mipmap level of one image.
pub fn mipmap_level_info(data: &[u8], image_index: u32, level_index: u32) -> (r: Result<
    MipmapLevelInfo,
    Error,
>)
    ensures
        r == spec_level_info(data@, image_index as nat, level_index as nat),
        r matches Ok(info) ==> info.wf(),
{
    if !header_is_valid(data) {
        return Err(Error::HeaderInvalid);
    }
    if image_index >= read_u24(data, 17) {
        return Err(Error::LevelIndexInvalid);
    }
    match find_slice_index(data, image_index, level_index) {
        Some(k) => Ok(level_info_at(data, k)),
        None => Err(Error::LevelIndexInvalid),
    }
}

/// Where the coded data of (image, level) lies: its offset and size as the
/// directory records them.
pub fn slice_location(data: &[u8], image_index: u32, level_index: u32) -> (r: (u32, u32))
    requires
        layout_valid(data@),
        find_slice(data@, image_index as nat, level_index as nat) is Some,
    ensures
        ({
            let k = find_slice(data@, image_index as nat, level_index as nat).unwrap() as int;
            r.0 as nat == slice_file_offset(data@, k) && r.1 as nat == slice_file_size(data@, k)
        }),
{
    let k = find_slice_index(data, image_index, level_index).unwrap();
    let pos = slice_pos(data, k);
    (read_u32(data, pos + 13), read_u32(data, pos + 17))
}

// ---------------------------------------------------------------------------
// Laws

/// Every level that can be read has as many blocks as its block grid holds:
/// `total_blocks == num_blocks_x * num_blocks_y`.
pub proof fn lemma_level_total_blocks(s: Seq<u8>, image: nat, level: nat)
    ensures
        spec_level_info(s, image, level) matches Ok(info) ==> info.total_blocks
            == info.num_blocks_x * info.num_blocks_y,
        spec_image_info(s, image) matches Ok(info) ==> info.total_blocks == spec_level_info(
            s,
            image,
            0,
        ).unwrap().total_blocks,
{
    if let Some(k) = find_slice(s, image, level) {
        let bx = slice_blocks_x(s, k as int);
        let by = slice_blocks_y(s, k as int);
        reveal(le16);
        assert(bx <= 0xFFFF && by <= 0xFFFF);
        assert(bx * by <= 0xFFFF * 0xFFFF) by (nonlinear_arith)
            requires
                bx <= 0xFFFF,
                by <= 0xFFFF,
        ;
    }
}

/// An image index past the last image has no levels. On a readable
/// container, asking for its summary is an image-index error, and asking for
/// one of its levels is a level-index error; neither is a header failure.
pub proof fn lemma_image_out_of_range(s: Seq<u8>, image: nat)
    requires
        image >= spec_num_images(s),
    ensures
        level_count(s, image) == 0,
        header_valid(s) ==> spec_image_info(s, image) == Err::<ImageInfo, Error>(
            Error::ImageIndexInvalid,
        ),
        header_valid(s) ==> forall|level: nat|
            spec_level_info(s, image, level) == Err::<MipmapLevelInfo, Error>(
                Error::LevelIndexInvalid,
            ),
{
}

/// Buffers too short to hold a header (empty, three bytes, anything under
/// the header size) are refused by every structural query as an invalid
/// header.
pub proof fn lemma_short_buffer_refused(s: Seq<u8>, image: nat, level: nat)
    requires
        s.len() < HEADER_SIZE,
    ensures
        spec_texture_type(s) == Err::<TextureType, Error>(Error::HeaderInvalid),
        spec_file_info(s) == Err::<FileInfo, Error>(Error::HeaderInvalid),
        spec_image_info(s, image) == Err::<ImageInfo, Error>(Error::HeaderInvalid),
        spec_level_info(s, image, level) == Err::<MipmapLevelInfo, Error>(Error::HeaderInvalid),
        spec_num_images(s) == 0,
        level_count(s, image) == 0,
{
}

/// Mipmap levels halve: wherever level `level + 1` of an image can be read,
/// level `level` can be read too, and the child's width and height are
/// `max(1, parent / 2)` of the parent's.
pub proof fn lemma_mip_chain_halves(s: Seq<u8>, image: nat, level: nat)
    requires
        spec_level_info(s, image, level + 1) is Ok,
    ensures
        spec_level_info(s, image, level) is Ok,
        halved(
            spec_level_info(s, image, level).unwrap().width as nat,
            spec_level_info(s, image, level + 1).unwrap().width as nat,
        ),
        halved(
            spec_level_info(s, image, level).unwrap().height as nat,
            spec_level_info(s, image, level + 1).unwrap().height as nat,
        ),
{
    let k = find_slice(s, image, level + 1).unwrap();
    lemma_first_slice_in_range(s, image, level + 1, total_slices(s));
    assert(slice_sound(s, k as int));
    assert(slice_follows_parent(s, k as int));
    let j = find_slice(s, image, level).unwrap();
    reveal(le16);
    assert(slice_width(s, j as int) <= 0xFFFF && slice_height(s, j as int) <= 0xFFFF);
    assert(slice_width(s, k as int) <= 0xFFFF && slice_height(s, k as int) <= 0xFFFF);
}

proof fn lemma_levels_upto_witness(s: Seq<u8>, image: nat, k: nat)
    ensures
        levels_upto(s, image, k) == 1 || exists|j: int|
            0 <= j < k && #[trigger] slice_selected(
                s,
                j,
                image,
                (levels_upto(s, image, k) - 1) as nat,
            ),
    decreases k,
{
    if k > 0 {
        lemma_levels_upto_witness(s, image, (k - 1) as nat);
        lemma_levels_upto_bounds(s, image, (k - 1) as nat);
        let prev = levels_upto(s, image, (k - 1) as nat);
        if levels_upto(s, image, k) != prev {
            assert(slice_selected(s, k - 1, image, (levels_upto(s, image, k) - 1) as nat));
        } else if prev != 1 {
            let j = choose|j: int|
                0 <= j < k - 1 && #[trigger] slice_selected(s, j, image, (prev - 1) as nat);
            assert(slice_selected(s, j, image, (levels_upto(s, image, k) - 1) as nat));
        }
    }
}

proof fn lemma_levels_upto_covers(s: Seq<u8>, image: nat, j: int, k: nat)
    requires
        0 <= j < k,
        slice_selected(s, j, image, slice_level(s, j)),
    ensures
        slice_level(s, j) < levels_upto(s, image, k),
    decreases k,
{
    if j < k - 1 {
        lemma_levels_upto_covers(s, image, j, (k - 1) as nat);
    }
}

proof fn lemma_first_slice_found(s: Seq<u8>, image: nat, level: nat, j: int, k: nat)
    requires
        0 <= j < k,
        slice_selected(s, j, image, level),
    ensures
        first_slice_upto(s, image, level, k) is Some,
    decreases k,
{
    if j < k - 1 {
        lemma_first_slice_found(s, image, level, j, (k - 1) as nat);
    }
}

proof fn lemma_chain_down(s: Seq<u8>, image: nat, m: nat, l: nat)
    requires
        header_valid(s),
        l <= m,
        find_slice(s, image, m) is Some,
    ensures
        find_slice(s, image, l) is Some,
    decreases m - l,
{
    if l < m {
        let k = find_slice(s, image, m).unwrap();
        lemma_first_slice_in_range(s, image, m, total_slices(s));
        assert(slice_sound(s, k as int));
        assert(slice_follows_parent(s, k as int));
        lemma_chain_down(s, image, (m - 1) as nat, l);
    }
}

/// On a readable container, every image below the image count can be read
/// and has at least one level; exactly the levels below its level count can
/// be read, each with width and height at least one and the block grid that
/// covers it in 4x4 blocks; a level at or past the count is a level-index
/// error.
pub proof fn lemma_levels_readable(s: Seq<u8>, image: nat, level: nat)
    requires
        header_valid(s),
        image < total_images(s),
    ensures
        level_count(s, image) >= 1,
        spec_image_info(s, image) is Ok,
        spec_image_info(s, image).unwrap().num_mipmap_levels == level_count(s, image),
        spec_image_info(s, image).unwrap().width >= 1,
        spec_image_info(s, image).unwrap().height >= 1,
        spec_level_info(s, image, level) is Ok <==> level < level_count(s, image),
        level >= level_count(s, image) ==> spec_level_info(s, image, level) == Err::<
            MipmapLevelInfo,
            Error,
        >(Error::LevelIndexInvalid),
        spec_level_info(s, image, level) matches Ok(info) ==> info.wf() && info.width >= 1
            && info.height >= 1,
{
    let n = total_slices(s);
    let count = levels_upto(s, image, n);
    lemma_levels_upto_bounds(s, image, n);
    reveal(le16);
    assert(find_slice(s, image, 0) is Some);
    let k0 = find_slice(s, image, 0).unwrap();
    lemma_first_slice_in_range(s, image, 0, n);
    assert(slice_sound(s, k0 as int));
    if let Some(k) = find_slice(s, image, level) {
        lemma_first_slice_in_range(s, image, level, n);
        lemma_levels_upto_covers(s, image, k as int, n);
        assert(slice_sound(s, k as int));
        let bx = slice_blocks_x(s, k as int);
        let by = slice_blocks_y(s, k as int);
        assert(bx * by <= 0xFFFF * 0xFFFF) by (nonlinear_arith)
            requires
                bx <= 0xFFFF,
                by <= 0xFFFF,
        ;
    } else if level < count {
        if level > 0 {
            lemma_levels_upto_witness(s, image, n);
            let j = choose|j: int|
                0 <= j < n && #[trigger] slice_selected(s, j, image, (count - 1) as nat);
            lemma_first_slice_found(s, image, (count - 1) as nat, j, n);
            lemma_chain_down(s, image, (count - 1) as nat, level);
        }
    }
}

/// On a readable container the file has alpha exactly when some image has.
pub proof fn lemma_file_alpha(s: Seq<u8>)
    requires
        header_valid(s),
    ensures
        spec_file_info(s) is Ok,
        spec_file_info(s).unwrap().has_alpha <==> exists|i: nat|
            i < total_images(s) && (#[trigger] spec_image_info(s, i)) is Ok && spec_image_info(
                s,
                i,
            ).unwrap().has_alpha,
{
    let n = total_slices(s);
    assert(find_slice(s, 0, 0) is Some);
    let k0 = find_slice(s, 0, 0).unwrap();
    lemma_first_slice_in_range(s, 0, 0, n);
    assert(slice_sound(s, k0 as int));
    assert(spec_image_info(s, 0) is Ok);
    if exists|i: nat|
        i < total_images(s) && (#[trigger] spec_image_info(s, i)) is Ok && spec_image_info(
            s,
            i,
        ).unwrap().has_alpha {
        let i = choose|i: nat|
            i < total_images(s) && (#[trigger] spec_image_info(s, i)) is Ok && spec_image_info(
                s,
                i,
            ).unwrap().has_alpha;
        let k = find_slice(s, i, 0).unwrap();
        lemma_first_slice_in_range(s, i, 0, n);
        assert(slice_sound(s, k as int));
    }
}

} // verus!
