//! The calls into the codec crates (`qoi`, `image`) and into `bytemuck`, each behind a
//! wrapper whose contract is what the crate's source shows of it.

use vstd::prelude::*;
use vstd::endian::{endianness, Endian};
use crate::error::BlurError;

verus! {

#[verifier::external_type_specification]
#[verifier::external_body]
pub struct ExQoiError(qoi::Error);

#[verifier::external_type_specification]
#[verifier::external_body]
pub struct ExImageError(image::ImageError);

/// The big-endian `u32` stored in `data[at..at + 4]`.
pub open spec fn be_u32_at(data: Seq<u8>, at: int) -> int {
    data[at] * 0x100_0000 + data[at + 1] * 0x1_0000 + data[at + 2] * 0x100 + data[at + 3]
}

/// Number of pixels above which a QOI header is rejected.
pub const QOI_PIXELS_MAX: u64 = 400_000_000;

/// Whether `data` begins with a header that the `qoi` crate accepts: at least 14 bytes,
/// the magic `qoif`, 3 or 4 channels, colour space 0 or 1, and a width and height whose
/// product lies in `1..=400_000_000`.
pub open spec fn qoi_header_valid(data: Seq<u8>) -> bool {
    &&& data.len() >= 14
    &&& data[0] == 0x71u8 && data[1] == 0x6fu8 && data[2] == 0x69u8 && data[3] == 0x66u8
    &&& data[12] == 3u8 || data[12] == 4u8
    &&& data[13] == 0u8 || data[13] == 1u8
    &&& 0 < be_u32_at(data, 4) * be_u32_at(data, 8) <= QOI_PIXELS_MAX
}

/// The RGBA pixels (alpha 255 for 3-channel streams) that the `qoi` crate decodes from
/// `data`, or `None` when it reports an error.
pub uninterp spec fn qoi_rgba(data: Seq<u8>) -> Option<Seq<u8>>;

/// `qoi::decode_header`: the image width and height read from the header at the start of
/// `data`. The crate's source checks exactly the conditions of `qoi_header_valid` and reads
/// both dimensions as big-endian words at offsets 4 and 8; its decoder starts with the same
/// header check, so a header refused here is refused by the decoder too.
#[verifier::external_body]
pub(crate) fn qoi_decode_header(data: &[u8]) -> (r: Result<(u32, u32), qoi::Error>)
    ensures
        r is Ok <==> qoi_header_valid(data@),
        r matches Ok((w, h)) ==> w == be_u32_at(data@, 4) && h == be_u32_at(data@, 8),
        r is Err ==> qoi_rgba(data@) is None,
{
    match qoi::decode_header(data) {
        Ok(header) => Ok((header.width, header.height)),
        Err(e) => Err(e),
    }
}

/// `qoi::Decoder::new(data)`, `with_channels(qoi::Channels::Rgba)` and `decode_to_vec()`:
/// decodes the stream into RGBA pixels. The decoder first decodes the header (so a success
/// implies `qoi_header_valid`) and allocates exactly `width * height * 4` bytes; what the
/// pixels are is named `qoi_rgba`.
#[verifier::external_body]
pub(crate) fn qoi_decode_rgba(data: &[u8]) -> (r: Result<Vec<u8>, qoi::Error>)
    ensures
        r is Ok <==> qoi_rgba(data@) is Some,
        r matches Ok(px) ==> {
            &&& qoi_rgba(data@) == Some(px@)
            &&& qoi_header_valid(data@)
            &&& px@.len() == 4 * be_u32_at(data@, 4) * be_u32_at(data@, 8)
        },
{
    match qoi::Decoder::new(data) {
        Ok(decoder) => {
            let mut decoder = decoder.with_channels(qoi::Channels::Rgba);
            decoder.decode_to_vec()
        }
        Err(e) => Err(e),
    }
}

/// Whether `qoi::Encoder::new` accepts `len` bytes of pixels for a `width` x `height`
/// image: the pixel count lies in `1..=400_000_000` and `len` is 3 or 4 bytes per pixel.
pub open spec fn qoi_encoder_accepts(len: nat, width: u32, height: u32) -> bool {
    &&& 0 < width * height <= QOI_PIXELS_MAX
    &&& len == 3 * width * height || len == 4 * width * height
}

/// The QOI stream that the `qoi` crate encodes from `pixels` of a `width` x `height` image.
pub uninterp spec fn qoi_encoded(pixels: Seq<u8>, width: u32, height: u32) -> Seq<u8>;

/// `qoi::Encoder::new(pixels, width, height)` and `encode_to_buf(buf)`: encodes into the
/// start of `buf` and returns the number of bytes written. Both functions check their
/// inputs before anything is written (the buffer must hold the largest possible stream:
/// a 14-byte header, one tag byte per pixel besides its bytes, and 8 bytes of padding),
/// so on an error `buf` is left as it was.
#[verifier::external_body]
pub(crate) fn qoi_encode_to_buf(pixels: &[u8], width: u32, height: u32, buf: &mut [u8]) -> (r: Result<usize, qoi::Error>)
    ensures
        final(buf)@.len() == old(buf)@.len(),
        r is Ok <==> (qoi_encoder_accepts(pixels@.len(), width, height)
            && old(buf)@.len() >= 22 + pixels@.len() + width * height),
        r is Err ==> final(buf)@ == old(buf)@,
        r matches Ok(n) ==> n <= old(buf)@.len() && final(buf)@.subrange(0, n as int) == qoi_encoded(pixels@, width, height),
{
    match qoi::Encoder::new(pixels, width, height) {
        Ok(encoder) => encoder.encode_to_buf(buf),
        Err(e) => Err(e),
    }
}

/// `image::ImageReader::new(Cursor::new(data))`, `with_guessed_format()`, `decode()`, then
/// `width()`, `height()` and `into_rgba8().into_raw()` of the decoded image. An RGBA8
/// buffer of the crate always holds at least `4 * width * height` bytes. Which formats are
/// recognised and decoded also depends on the decoders and format detectors registered with
/// the crate at run time, so neither success nor the pixels are stated as a function of `data`.
#[verifier::external_body]
pub(crate) fn image_decode_rgba8(data: &[u8]) -> (r: Result<(u32, u32, Vec<u8>), image::ImageError>)
    ensures
        r matches Ok((w, h, px)) ==> px@.len() >= 4 * w * h,
{
    match image::ImageReader::new(std::io::Cursor::new(data)).with_guessed_format() {
        Ok(reader) => match reader.decode() {
            Ok(img) => Ok((img.width(), img.height(), img.into_rgba8().into_raw())),
            Err(e) => Err(e),
        },
        Err(e) => Err(e.into()),
    }
}

/// Whether `image::ImageFormat::from_path` finds an image format for the extension of `path`.
pub uninterp spec fn image_path_has_format(path: Seq<char>) -> bool;

/// `image::ImageFormat::from_path(path)`: whether the extension of `path` names a format
/// that the `image` crate knows.
#[verifier::external_body]
pub(crate) fn image_format_known(path: &str) -> (r: bool)
    ensures
        r == image_path_has_format(path@),
{
    image::ImageFormat::from_path(path).is_ok()
}

/// The bytes that the `image` crate encodes for an RGBA8 image of `width` x `height`
/// pixels in the format that the extension of `path` names, or `None` on an error.
pub uninterp spec fn image_encoded_for_path(path: Seq<char>, width: u32, height: u32, rgba: Seq<u8>) -> Option<Seq<u8>>;

/// `image::ImageFormat::from_path(path)`, `image::RgbaImage::from_raw(width, height, rgba)`
/// and `DynamicImage::ImageRgba8(..).write_to(..)` into memory. `from_raw` refuses a buffer
/// shorter than `4 * width * height` bytes; a longer one is kept whole and the encoders
/// assert that they are handed exactly `4 * width * height` bytes, so longer buffers are
/// left out.
#[verifier::external_body]
pub(crate) fn image_encode_for_path(path: &str, width: u32, height: u32, rgba: Vec<u8>) -> (r: Result<Vec<u8>, BlurError>)
    requires
        image_path_has_format(path@),
        rgba@.len() <= 4 * width * height,
    ensures
        (r matches Err(e) && e is Image) ==> rgba@.len() == 4 * width * height,
        (r matches Err(e) && e is ImageBuffer) <==> (rgba@.len() < 4 * width * height),
        r is Ok <==> (rgba@.len() >= 4 * width * height && image_encoded_for_path(path@, width, height, rgba@) is Some),
        r matches Ok(b) ==> image_encoded_for_path(path@, width, height, rgba@) == Some(b@),
{
    let format = match image::ImageFormat::from_path(path) {
        Ok(f) => f,
        Err(e) => return Err(BlurError::Image(e)),
    };
    match image::RgbaImage::from_raw(width, height, rgba) {
        Some(buffer) => {
            let mut out = std::io::Cursor::new(Vec::new());
            match image::DynamicImage::ImageRgba8(buffer).write_to(&mut out, format) {
                Ok(()) => Ok(out.into_inner()),
                Err(e) => Err(BlurError::Image(e)),
            }
        }
        None => Err(BlurError::ImageBuffer),
    }
}

/// Little-endian bytes of a `u32`.
pub open spec fn u32_le_bytes(x: u32) -> Seq<u8> {
    seq![(x % 0x100) as u8, ((x / 0x100) % 0x100) as u8, ((x / 0x1_0000) % 0x100) as u8, (x / 0x100_0000) as u8]
}

/// Big-endian bytes of a `u32`.
pub open spec fn u32_be_bytes(x: u32) -> Seq<u8> {
    seq![(x / 0x100_0000) as u8, ((x / 0x1_0000) % 0x100) as u8, ((x / 0x100) % 0x100) as u8, (x % 0x100) as u8]
}

/// The `u32` stored in `s[at..at + 4]` in the machine's byte order.
pub open spec fn native_u32_at(s: Seq<u8>, at: int) -> int {
    if native_little() {
        s[at] + s[at + 1] * 0x100 + s[at + 2] * 0x1_0000 + s[at + 3] * 0x100_0000
    } else {
        s[at] * 0x100_0000 + s[at + 1] * 0x1_0000 + s[at + 2] * 0x100 + s[at + 3]
    }
}

/// A word written in either byte order reads back as itself in that byte order.
pub proof fn lemma_word_bytes_read_back(x: u32)
    ensures
        u32_le_bytes(x)[0] + u32_le_bytes(x)[1] * 0x100 + u32_le_bytes(x)[2] * 0x1_0000 + u32_le_bytes(x)[3] * 0x100_0000 == x,
        u32_be_bytes(x)[0] * 0x100_0000 + u32_be_bytes(x)[1] * 0x1_0000 + u32_be_bytes(x)[2] * 0x100 + u32_be_bytes(x)[3] == x,
{
    let b0 = x % 0x100;
    let b1 = (x / 0x100) % 0x100;
    let b2 = (x / 0x1_0000) % 0x100;
    let b3 = x / 0x100_0000;
    assert(b0 + b1 * 0x100 + b2 * 0x1_0000 + b3 * 0x100_0000 == x && b3 < 0x100) by (bit_vector)
        requires
            b0 == x % 0x100,
            b1 == (x / 0x100) % 0x100,
            b2 == (x / 0x1_0000) % 0x100,
            b3 == x / 0x100_0000,
    ;
}

/// The bytes of four `u32` words laid out one after the other, little- or big-endian.
pub open spec fn words_bytes(w: Seq<u32>, little: bool) -> Seq<u8> {
    if little {
        u32_le_bytes(w[0]) + u32_le_bytes(w[1]) + u32_le_bytes(w[2]) + u32_le_bytes(w[3])
    } else {
        u32_be_bytes(w[0]) + u32_be_bytes(w[1]) + u32_be_bytes(w[2]) + u32_be_bytes(w[3])
    }
}

/// Whether the machine stores the least significant byte of a word first, as vstd's
/// `endianness()` (the byte order of the executing hardware) says.
pub open spec fn native_little() -> bool {
    endianness() == Endian::Little
}

/// `bytemuck::bytes_of(words)`: the in-memory bytes of four `u32` words, in the byte order
/// of the machine (vstd's `endianness()`), which is either little- or big-endian.
#[verifier::external_body]
pub(crate) fn native_bytes_of_words(words: &[u32; 4]) -> (r: Vec<u8>)
    ensures
        r@ == words_bytes(words@, true) || r@ == words_bytes(words@, false),
        r@ == words_bytes(words@, native_little()),
{
    bytemuck::bytes_of(words).to_vec()
}

} // verus!
