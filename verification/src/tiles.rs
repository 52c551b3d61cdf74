//! Whether a rasterized page can be turned into a texture.

use vstd::prelude::*;

verus! {

/// Whether a buffer of `bytes` bytes holds `width` by `height` pixels of four bytes each, and
/// at least one pixel.
pub open spec fn fits(width: u32, height: u32, bytes: nat) -> bool {
    &&& width > 0
    &&& height > 0
    &&& width * height * 4 == bytes
}

/// The size of a rasterized page as a texture, or `None` if its buffer does not match its
/// dimensions: uploading such a buffer would end the process rather than the page.
pub fn texture_size(width: u32, height: u32, bytes: usize) -> (size: Option<(usize, usize)>)
    ensures
        size == (if fits(width, height, bytes as nat) {
            Some((width as usize, height as usize))
        } else {
            None::<(usize, usize)>
        }),
{
    if width == 0 || height == 0 {
        return None;
    }
    let across = width as usize;
    let down = height as usize;
    let pixels = match across.checked_mul(down) {
        Some(pixels) => pixels,
        None => {
            proof {
                assert(width * height * 4 > usize::MAX) by (nonlinear_arith)
                    requires
                        width * height > usize::MAX,
                ;
            }
            return None;
        },
    };
    let expected = match pixels.checked_mul(4) {
        Some(expected) => expected,
        None => {
            return None;
        },
    };
    if expected != bytes {
        return None;
    }
    Some((across, down))
}

} // verus!
