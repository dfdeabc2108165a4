//! Errors of the library.

use vstd::prelude::*;

verus! {

/// What can go wrong while decoding an input image or encoding an output image.
#[derive(Debug)]
pub enum BlurError {
    /// The `qoi` crate refused the stream or the pixels.
    Qoi(qoi::Error),
    /// The `image` crate refused the stream, the format or the pixels.
    Image(image::ImageError),
    /// The pixel buffer is shorter than `4 * width * height` bytes, so no image buffer
    /// can be made from it.
    ImageBuffer,
}

} // verus!
