use vstd::prelude::*;

use crate::container::MipmapLevelInfo;

verus! {

/// The output encodings a level can be transcoded into.
#[derive(Copy, Clone, Debug, PartialEq, Eq, Hash, Structural)]
pub enum TextureFormat {
    Bc1Rgb,
    Bc3Rgba,
    Bc4R,
    Bc5Rg,
    Bc7Rgba,
    Rgba32,
    /// PVRTC1 at 4 bits per pixel. Its blocks are stored in twiddled
    /// (Morton) order over a power-of-two grid of at least 2x2 blocks, so its
    /// size does not follow the block-grid rule of the other formats; this
    /// build does not implement it and refuses it as unsupported.
    Pvrtc1Rgba4,
}

impl TextureFormat {
    /// Bytes per 4x4 block for the block formats, none for the others.
    pub open spec fn spec_bytes_per_block(self) -> Option<nat> {
        match self {
            TextureFormat::Bc1Rgb => Some(8),
            TextureFormat::Bc3Rgba => Some(16),
            TextureFormat::Bc4R => Some(8),
            TextureFormat::Bc5Rg => Some(16),
            TextureFormat::Bc7Rgba => Some(16),
            TextureFormat::Rgba32 => None,
            TextureFormat::Pvrtc1Rgba4 => None,
        }
    }

    /// Whether this build can size and produce output in this format.
    pub open spec fn spec_is_supported(self) -> bool {
        self != TextureFormat::Pvrtc1Rgba4
    }

    /// The exact size in bytes of one level transcoded into this format:
    /// four bytes per pixel for raw pixels; for block formats, bytes per
    /// block times the grid of 4x4 blocks that covers the level. It depends
    /// on the level's width and height alone.
    pub open spec fn spec_buffer_size(self, info: MipmapLevelInfo) -> Option<nat> {
        match self {
            TextureFormat::Rgba32 => Some(info.width as nat * info.height as nat * 4),
            TextureFormat::Pvrtc1Rgba4 => None,
            _ => Some(
                ((info.width as nat + 3) / 4) * ((info.height as nat + 3) / 4)
                    * self.spec_bytes_per_block().unwrap(),
            ),
        }
    }

    /// Bytes per 4x4 block, `None` where the format is not block-based.
    pub fn bytes_per_block(self) -> (r: Option<u32>)
        ensures
            r matches Some(n) ==> self.spec_bytes_per_block() == Some(n as nat),
            r is None ==> self.spec_bytes_per_block() is None,
    {
        match self {
            TextureFormat::Bc1Rgb => Some(8),
            TextureFormat::Bc3Rgba => Some(16),
            TextureFormat::Bc4R => Some(8),
            TextureFormat::Bc5Rg => Some(16),
            TextureFormat::Bc7Rgba => Some(16),
            TextureFormat::Rgba32 => None,
            TextureFormat::Pvrtc1Rgba4 => None,
        }
    }

    /// Whether this build implements the format.
    pub fn is_supported(self) -> (r: bool)
        ensures
            r == self.spec_is_supported(),
    {
        !matches!(self, TextureFormat::Pvrtc1Rgba4)
    }

    /// Returns the needed buffer size to store a level in this format.
    /// `None` where the format is not supported, or where the size does not
    /// fit in `usize` on this machine.
    pub fn buffer_size(self, info: &MipmapLevelInfo) -> (r: Option<usize>)
        ensures
            r matches Some(n) ==> self.spec_buffer_size(*info) == Some(n as nat),
            r is None <==> (!self.spec_is_supported() || self.spec_buffer_size(
                *info,
            ).unwrap() > usize::MAX),
    {
        let n: u128 = match self {
            TextureFormat::Rgba32 => {
                let w = info.width as u128;
                let h = info.height as u128;
                assert(w * h <= 0xFFFF_FFFF * 0xFFFF_FFFF) by (nonlinear_arith)
                    requires
                        w <= 0xFFFF_FFFF,
                        h <= 0xFFFF_FFFF,
                ;
                w * h * 4
            },
            TextureFormat::Pvrtc1Rgba4 => {
                return None;
            },
            _ => {
                let bx = (info.width as u128 + 3) / 4;
                let by = (info.height as u128 + 3) / 4;
                let per = self.bytes_per_block().unwrap() as u128;
                assert(bx * by <= 0xFFFF_FFFF * 0xFFFF_FFFF) by (nonlinear_arith)
                    requires
                        bx <= 0xFFFF_FFFF,
                        by <= 0xFFFF_FFFF,
                ;
                assert(bx * by * per <= 0xFFFF_FFFF * 0xFFFF_FFFF * 16) by (nonlinear_arith)
                    requires
                        bx * by <= 0xFFFF_FFFF * 0xFFFF_FFFF,
                        per <= 16,
                ;
                bx * by * per
            },
        };
        if n <= usize::MAX as u128 {
            Some(n as usize)
        } else {
            None
        }
    }
}

/// The size of a transcoded level depends on its width and height alone,
/// and never shrinks as the level grows in either dimension.
pub proof fn lemma_buffer_size_monotone(f: TextureFormat, a: MipmapLevelInfo, b: MipmapLevelInfo)
    requires
        f.spec_is_supported(),
        a.width <= b.width,
        a.height <= b.height,
    ensures
        f.spec_buffer_size(a).unwrap() <= f.spec_buffer_size(b).unwrap(),
        (a.width == b.width && a.height == b.height) ==> f.spec_buffer_size(a)
            == f.spec_buffer_size(b),
{
    let (aw, ah, bw, bh) = (a.width as nat, a.height as nat, b.width as nat, b.height as nat);
    assert(aw * ah <= bw * bh) by (nonlinear_arith)
        requires
            aw <= bw,
            ah <= bh,
    ;
    let (ax, ay, bx, by) = ((aw + 3) / 4, (ah + 3) / 4, (bw + 3) / 4, (bh + 3) / 4);
    assert(ax <= bx && ay <= by) by (nonlinear_arith)
        requires
            aw <= bw,
            ah <= bh,
            ax == (aw + 3) / 4,
            ay == (ah + 3) / 4,
            bx == (bw + 3) / 4,
            by == (bh + 3) / 4,
    ;
    if f != TextureFormat::Rgba32 {
        let per = f.spec_bytes_per_block().unwrap();
        assert(ax * ay * per <= bx * by * per) by (nonlinear_arith)
            requires
                ax <= bx,
                ay <= by,
        ;
    }
}

} // verus!
