//! Decoding the input image into RGBA8 pixels and encoding the blurred result.

use vstd::prelude::*;
use crate::codec::{qoi_encode_to_buf, qoi_encoder_accepts, be_u32_at, image_decode_rgba8, image_encode_for_path, image_encoded_for_path, image_format_known, image_path_has_format, qoi_decode_header, qoi_decode_rgba, qoi_header_valid, qoi_rgba};
use crate::error::BlurError;
use crate::pixels::{lemma_rgba_keeps_colour, pixel_byte, copy_rgb_rows, rgb_to_rgba, rgba_byte_from_rgb, unpad_rows, unpadded_image, rows_complete};

verus! {

/// An input image as RGBA8 pixels, row by row.
pub struct InputImage {
    pub bytes: Vec<u8>,
    pub width: u32,
    pub height: u32,
}

/// What `InputImage::load` makes of the contents of an input file.
pub enum Loaded {
    /// The image, decoded by the `image` crate.
    Decoded(InputImage),
    /// The file is a QOZ stream; its header and pixels are read by a QOZ decoder and
    /// handed to `InputImage::from_qoz`.
    Qoz,
}

/// Whether `data` starts with the QOZ magic `QOZ1`.
pub open spec fn is_qoz_stream(data: Seq<u8>) -> bool {
    data.len() >= 4 && data[0] == 0x51u8 && data[1] == 0x4fu8 && data[2] == 0x5au8 && data[3] == 0x31u8
}

/// The RGBA pixels of a decoded QOZ image with `channels` channels: the decoded bytes as
/// they are for 4 channels, otherwise the bytes read as RGB and widened to opaque RGBA.
pub open spec fn qoz_rgba(width: u32, height: u32, channels: u8, decoded: Seq<u8>) -> Seq<u8> {
    if channels == 4 {
        decoded
    } else {
        Seq::new((4 * (width as int) * (height as int)) as nat, |j: int| rgba_byte_from_rgb(decoded, j))
    }
}

impl InputImage {
    /// Reads the contents of an input file: a QOZ stream is recognised by its magic and
    /// left to a QOZ decoder; any other file is decoded by the `image` crate, with the
    /// format guessed from the contents, and converted to RGBA8.
    pub fn load(data: &[u8]) -> (r: Result<Loaded, BlurError>)
        ensures
            (r matches Ok(Loaded::Qoz)) <==> (data@.len() >= 4 && data@[0] == 0x51u8 && data@[1] == 0x4fu8
                && data@[2] == 0x5au8 && data@[3] == 0x31u8),
            is_qoz_stream(data@) ==> r matches Ok(Loaded::Qoz),
            !is_qoz_stream(data@) ==> (r is Err ==> r matches Err(BlurError::Image(_))),
            !is_qoz_stream(data@) ==> (r matches Ok(l) ==> (l matches Loaded::Decoded(img)
                && img.bytes@.len() >= 4 * (img.width as int) * (img.height as int))),
    {
        if data.len() >= 4 && data[0] == 0x51u8 && data[1] == 0x4fu8 && data[2] == 0x5au8 && data[3] == 0x31u8 {
            return Ok(Loaded::Qoz);
        }
        match image_decode_rgba8(data) {
            Ok((width, height, bytes)) => Ok(Loaded::Decoded(InputImage { bytes, width, height })),
            Err(e) => Err(BlurError::Image(e)),
        }
    }

    /// Builds the input image from a decoded QOZ stream of `width` x `height` pixels with
    /// `channels` channels: 4-channel pixels are kept, any other count is read as RGB rows
    /// and widened to RGBA with alpha 255.
    pub fn from_qoz(width: u32, height: u32, channels: u8, decoded: Vec<u8>) -> (img: InputImage)
        requires
            channels != 4 ==> width > 0 && 4 * (width as int) * (height as int) <= u32::MAX,
        ensures
            img.width == width,
            img.height == height,
            img.bytes@ == qoz_rgba(width, height, channels, decoded@),
            channels == 4 ==> img.bytes@ == decoded@,
            channels != 4 ==> img.bytes@.len() == 4 * (width as int) * (height as int),
            channels != 4 ==> forall|p: int, k: int|
                0 <= p < (width as int) * (height as int) && 0 <= k < 3 && 3 * p + 3 <= decoded@.len()
                ==> #[trigger] pixel_byte(img.bytes@, 4, p, k) == pixel_byte(decoded@, 3, p, k),
            channels != 4 ==> forall|p: int|
                0 <= p < (width as int) * (height as int) && 3 * p + 3 <= decoded@.len()
                ==> #[trigger] pixel_byte(img.bytes@, 4, p, 3) == 255u8,
            channels != 4 ==> forall|p: int, k: int|
                0 <= p < (width as int) * (height as int) && 0 <= k < 4 && 3 * p + 3 > decoded@.len()
                ==> #[trigger] pixel_byte(img.bytes@, 4, p, k) == 0u8,
    {
        let bytes = if channels != 4 {
            let bytes = rgb_to_rgba(decoded.as_slice(), width, height);
            assert(bytes@ =~= qoz_rgba(width, height, channels, decoded@));
            bytes
        } else {
            decoded
        };
        InputImage { bytes, width, height }
    }
}

/// Decodes a QOI file into an RGBA8 image whose dimensions are those of the QOI header.
pub fn process_images(data: &[u8]) -> (r: Result<InputImage, BlurError>)
    ensures
        r is Ok <==> qoi_rgba(data@) is Some,
        r is Err ==> r matches Err(BlurError::Qoi(_)),
        r matches Ok(img) ==> {
            &&& qoi_header_valid(data@)
            &&& img.width == be_u32_at(data@, 4)
            &&& img.height == be_u32_at(data@, 8)
            &&& img.bytes@.len() == 4 * (img.width as int) * (img.height as int)
            &&& qoi_rgba(data@) == Some(img.bytes@)
        },
{
    let (width, height) = match qoi_decode_header(data) {
        Ok(dims) => dims,
        Err(e) => return Err(BlurError::Qoi(e)),
    };
    match qoi_decode_rgba(data) {
        Ok(bytes) => Ok(InputImage { bytes, width, height }),
        Err(e) => Err(BlurError::Qoi(e)),
    }
}

/// The pixels of a QOZ image with other than four channels are its RGB bytes widened to
/// RGBA: `4 * width * height` bytes, each covered pixel keeping its three colour bytes and
/// becoming opaque, each uncovered pixel zero. Four-channel pixels are kept as decoded.
pub proof fn lemma_qoz_rgba_widens(width: u32, height: u32, channels: u8, decoded: Seq<u8>)
    ensures
        channels == 4 ==> qoz_rgba(width, height, channels, decoded) == decoded,
        channels != 4 ==> qoz_rgba(width, height, channels, decoded).len() == 4 * (width as int) * (height as int),
        channels != 4 ==> forall|p: int, k: int|
            0 <= p < (width as int) * (height as int) && 0 <= k < 3 && 3 * p + 3 <= decoded.len()
            ==> #[trigger] pixel_byte(qoz_rgba(width, height, channels, decoded), 4, p, k) == pixel_byte(decoded, 3, p, k),
        channels != 4 ==> forall|p: int|
            0 <= p < (width as int) * (height as int) && 3 * p + 3 <= decoded.len()
            ==> #[trigger] pixel_byte(qoz_rgba(width, height, channels, decoded), 4, p, 3) == 255u8,
        channels != 4 ==> forall|p: int, k: int|
            0 <= p < (width as int) * (height as int) && 0 <= k < 4 && 3 * p + 3 > decoded.len()
            ==> #[trigger] pixel_byte(qoz_rgba(width, height, channels, decoded), 4, p, k) == 0u8,
{
    if channels != 4 {
        let out = qoz_rgba(width, height, channels, decoded);
        let n = (width as int) * (height as int);
        assert(4 * (width as int) * (height as int) == 4 * n) by (nonlinear_arith)
            requires
                n == (width as int) * (height as int),
        ;
        assert forall|p: int, k: int| 0 <= p < n && 0 <= k < 4 implies
            #[trigger] pixel_byte(out, 4, p, k) == rgba_byte_from_rgb(decoded, 4 * p + k) by {
            assert(0 <= 4 * p + k < 4 * n);
        }
        assert forall|p: int, k: int| 0 <= p < n && 0 <= k < 3 && 3 * p + 3 <= decoded.len() implies
            #[trigger] pixel_byte(out, 4, p, k) == pixel_byte(decoded, 3, p, k) by {
            lemma_rgba_keeps_colour(decoded, p, k);
            assert(pixel_byte(out, 4, p, k) == rgba_byte_from_rgb(decoded, 4 * p + k));
        }
        assert forall|p: int| 0 <= p < n && 3 * p + 3 <= decoded.len() implies
            #[trigger] pixel_byte(out, 4, p, 3) == 255u8 by {
            lemma_rgba_keeps_colour(decoded, p, 0);
            assert(pixel_byte(out, 4, p, 3) == rgba_byte_from_rgb(decoded, 4 * p + 3));
        }
        assert forall|p: int, k: int| 0 <= p < n && 0 <= k < 4 && 3 * p + 3 > decoded.len() implies
            #[trigger] pixel_byte(out, 4, p, k) == 0u8 by {
            assert((4 * p + k) / 4 == p) by (nonlinear_arith)
                requires
                    0 <= k < 4,
                    0 <= p,
            ;
            assert(pixel_byte(out, 4, p, k) == rgba_byte_from_rgb(decoded, 4 * p + k));
        }
    }
}

/// A QOI stream is never taken for a QOZ stream: the two magics differ.
pub proof fn lemma_qoi_is_not_qoz(data: Seq<u8>)
    requires
        qoi_header_valid(data),
    ensures
        !is_qoz_stream(data),
{
}

/// The QOZ magic is exactly the four bytes `Q`, `O`, `Z`, `1` at the start of the data.
pub proof fn lemma_qoz_magic(data: Seq<u8>)
    ensures
        is_qoz_stream(data) <==> (data.len() >= 4 && data.take(4) == seq![0x51u8, 0x4fu8, 0x5au8, 0x31u8]),
{
    if data.len() >= 4 {
        let m = seq![0x51u8, 0x4fu8, 0x5au8, 0x31u8];
        if data.take(4) == m {
            assert(data.take(4)[0] == m[0] && data.take(4)[1] == m[1] && data.take(4)[2] == m[2] && data.take(4)[3] == m[3]);
        }
        if is_qoz_stream(data) {
            assert(data.take(4) =~= m);
        }
    }
}

/// The blurred image, ready for its output file.
pub enum OutputImage {
    /// The file contents, encoded by the `image` crate in the format that the output
    /// path's extension names.
    Encoded(Vec<u8>),
    /// The path names no format that the `image` crate knows: these RGBA8 pixels are to
    /// be written with a QOZ encoder.
    Qoz(Vec<u8>),
}

/// Turns the read-back of the blurred texture (rows of `padded_width_in_bytes` bytes)
/// into the contents of the output file: the padding is stripped, and the pixels are
/// encoded by the `image` crate when the extension of `output_path` names a format it
/// knows, or handed on for QOZ encoding otherwise.
pub fn encode_output_image(mapped: &[u8], dims: (u32, u32), padded_width_in_bytes: u32, output_path: &str) -> (r: Result<OutputImage, BlurError>)
    requires
        4 * (dims.0 as int) <= u32::MAX,
        padded_width_in_bytes != 4 * dims.0 ==> {
            &&& 4 * dims.0 > 0
            &&& padded_width_in_bytes > 0
            &&& 4 * (dims.0 as int) * (dims.1 as int) <= usize::MAX
            &&& rows_complete(mapped@.len(), padded_width_in_bytes as nat, 4 * dims.0 as nat, dims.1 as nat)
        },
        padded_width_in_bytes == 4 * dims.0 ==> mapped@.len() <= 4 * (dims.0 as int) * (dims.1 as int),
    ensures
        ({
            let (width, height) = dims;
            let rgba = unpadded_image(mapped@, width, height, padded_width_in_bytes);
            &&& !image_path_has_format(output_path@) ==> (r matches Ok(OutputImage::Qoz(px)) && px@ == rgba)
            &&& image_path_has_format(output_path@) ==> {
                &&& (r matches Err(e) && e is ImageBuffer) <==> (rgba.len() < 4 * width * height)
                &&& (r matches Err(e) && e is Image) ==> rgba.len() == 4 * width * height
                &&& r is Ok <==> (rgba.len() >= 4 * width * height
                    && image_encoded_for_path(output_path@, width, height, rgba) is Some)
                &&& r matches Ok(out) ==> (out matches OutputImage::Encoded(b)
                    && image_encoded_for_path(output_path@, width, height, rgba) == Some(b@))
            }
        }),
{
    let (width, height) = dims;
    let out_image = unpad_rows(mapped, width, height, padded_width_in_bytes);
    if image_format_known(output_path) {
        match image_encode_for_path(output_path, width, height, out_image) {
            Ok(bytes) => Ok(OutputImage::Encoded(bytes)),
            Err(e) => Err(e),
        }
    } else {
        Ok(OutputImage::Qoz(out_image))
    }
}


/// Encodes the read-back of the blurred texture as a QOI image into `out_buf` and returns
/// the number of bytes written. The RGB pixels are gathered into an output vector that is
/// created empty (with room for `3 * width * height` bytes), so no row is copied and the
/// QOI encoder is handed no pixels; it refuses them, and `out_buf` is left as it was.
pub fn encode_output_qoi(mapped: &[u8], img_dims: (u32, u32), padded_width_in_bytes: u32, out_buf: &mut [u8]) -> (r: Result<usize, BlurError>)
    requires
        img_dims.0 > 0,
        padded_width_in_bytes > 0,
        4 * (img_dims.0 as int) <= usize::MAX,
        3 * (img_dims.0 as int) * (img_dims.1 as int) <= usize::MAX,
    ensures
        r matches Err(BlurError::Qoi(_)),
        final(out_buf)@ == old(out_buf)@,
{
    let width: usize = img_dims.0 as usize;
    let height: usize = img_dims.1 as usize;
    assert(3 * width * height == 3 * (img_dims.0 as int) * (img_dims.1 as int));
    let mut out_image: Vec<u8> = Vec::with_capacity(3 * width * height);
    copy_rgb_rows(mapped, padded_width_in_bytes as usize, width, &mut out_image);
    assert(out_image@.len() == 0);
    assert(!qoi_encoder_accepts(0, img_dims.0, img_dims.1)) by (nonlinear_arith);
    match qoi_encode_to_buf(out_image.as_slice(), img_dims.0, img_dims.1, out_buf) {
        Ok(n) => Ok(n),
        Err(e) => Err(BlurError::Qoi(e)),
    }
}

} // verus!
