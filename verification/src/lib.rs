//! Dual-filter ("Kawase") image blur: the geometry of the mip chain, the schedule of
//! down- and up-sampling passes, the layout of the per-pass uniform buffer, and the
//! pixel-format conversions around image decoding and encoding.

pub mod extent;
pub mod pixels;
pub mod error;
pub mod codec;
pub mod image_io;
pub mod mip;
pub mod pipeline;
pub mod blur;
